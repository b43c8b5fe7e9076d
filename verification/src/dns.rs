//! DNS queries: how an answer is classified, and the order of queries.

use crate::cli::RecordTypeCli;
use crate::clock::{duration_nanos, from_millis, NANOS_PER_MILLI};
use crate::text::texts;
use hickory_resolver::error::{ResolveError, ResolveErrorKind};
use hickory_resolver::proto::op::ResponseCode;
use std::time::Duration;
use vstd::prelude::*;

verus! {

/// Attempts per query, at most.
pub const ATTEMPTS: usize = 2;

/// DNS response code of a name that does not exist.
pub const NXDOMAIN: u16 = 3;

/// The classified outcome of a query: records, a name that does not exist, or a
/// failure. A name that exists without the record asked for is a failure.
#[derive(Debug)]
pub enum DnsStatus {
    /// An answer with at least one record.
    Success {
        /// The records as text.
        records: Vec<String>,
        /// Time the query took.
        latency: Duration,
    },
    /// The name does not exist.
    NotFound {
        /// Time the query took.
        latency: Duration,
    },
    /// Timeout, no such record, network trouble.
    Error {
        /// The cause as text.
        message: String,
        /// Time until the failure.
        latency: Duration,
    },
}

/// One query with its outcome.
#[derive(Debug)]
pub struct DnsQueryResult {
    /// The name that was queried.
    pub domain: String,
    /// The record type that was asked for.
    pub record_type: RecordTypeCli,
    /// The classified outcome.
    pub status: DnsStatus,
}

/// A status without its representation: text as characters, time in nanoseconds.
pub enum StatusView {
    Success { records: Seq<Seq<char>>, latency: nat },
    NotFound { latency: nat },
    Error { message: Seq<char>, latency: nat },
}

impl View for DnsStatus {
    type V = StatusView;

    open spec fn view(&self) -> StatusView {
        match *self {
            DnsStatus::Success { records, latency } => StatusView::Success {
                records: texts(records@),
                latency: duration_nanos(latency),
            },
            DnsStatus::NotFound { latency } => StatusView::NotFound {
                latency: duration_nanos(latency),
            },
            DnsStatus::Error { message, latency } => StatusView::Error {
                message: message@,
                latency: duration_nanos(latency),
            },
        }
    }
}

impl Clone for DnsStatus {
    fn clone(&self) -> (copy: DnsStatus)
        ensures
            copy@ == self@,
    {
        match self {
            DnsStatus::Success { records, latency } => {
                let copies = records.clone();
                proof {
                    assert(copies@ =~= records@);
                }
                DnsStatus::Success { records: copies, latency: *latency }
            },
            DnsStatus::NotFound { latency } => DnsStatus::NotFound { latency: *latency },
            DnsStatus::Error { message, latency } => DnsStatus::Error {
                message: message.clone(),
                latency: *latency,
            },
        }
    }
}

impl Clone for DnsQueryResult {
    fn clone(&self) -> (copy: DnsQueryResult)
        ensures
            copy.domain@ == self.domain@,
            copy.record_type == self.record_type,
            copy.status@ == self.status@,
    {
        DnsQueryResult {
            domain: self.domain.clone(),
            record_type: self.record_type,
            status: self.status.clone(),
        }
    }
}

/// hickory's error of a lookup, opaque to the verifier.
#[verifier::external_type_specification]
#[verifier::external_body]
pub struct ExResolveError(ResolveError);

/// What a failed lookup tells about the name.
#[derive(Debug, Clone, Copy, PartialEq, Eq, Structural)]
pub enum LookupFailure {
    /// A server answered without records, with this assigned response code.
    NoRecords(u16),
    /// A server answered without records, with a response code that is not assigned.
    Unassigned(u16),
    /// No server answered the question: none could be reached, the time was up, or the
    /// resolver says so in words of its own.
    NoAnswer,
    /// Something below the resolver failed: the operating system or the protocol.
    Foreign,
}

/// What the kind of hickory's error tells about the name.
pub uninterp spec fn failure_kind(err: &ResolveError) -> LookupFailure;

/// Calls `ResolveError::kind` of hickory and tells its variants apart: an answer
/// without records carries its response code, as `u16::from` numbers it; the errors
/// of the resolver itself count as no answer, and any other as foreign.
#[verifier::external_body]
fn failure_of(err: &ResolveError) -> (failure: LookupFailure)
    ensures
        failure == failure_kind(err),
{
    match err.kind() {
        ResolveErrorKind::NoRecordsFound { response_code: ResponseCode::Unknown(code), .. } => {
            LookupFailure::Unassigned(*code)
        },
        ResolveErrorKind::NoRecordsFound { response_code, .. } => {
            LookupFailure::NoRecords(u16::from(*response_code))
        },
        ResolveErrorKind::Message(_) => LookupFailure::NoAnswer,
        ResolveErrorKind::Msg(_) => LookupFailure::NoAnswer,
        ResolveErrorKind::NoConnections => LookupFailure::NoAnswer,
        ResolveErrorKind::Timeout => LookupFailure::NoAnswer,
        _ => LookupFailure::Foreign,
    }
}

/// The text of hickory's error, unless it is foreign.
pub uninterp spec fn failure_text(err: &ResolveError) -> Seq<char>;

/// Calls `to_string` on hickory's error. The text of an answer without records is made
/// of the query in the error, and that of the resolver's own errors is fixed or held
/// in the error, so it is a function of the error. Of the text of foreign errors
/// nothing is claimed: for those of the operating system it varies from machine to
/// machine.
#[verifier::external_body]
fn message_of(err: &ResolveError) -> (message: String)
    ensures
        failure_kind(err) is Foreign || message@ == failure_text(err),
{
    err.to_string()
}

/// The failure says that the name does not exist. A name that exists without the
/// record asked for is another matter, and so is a server that fails.
pub open spec fn says_nxdomain(failure: LookupFailure) -> bool {
    failure == LookupFailure::NoRecords(NXDOMAIN)
}

/// Whether the failure says that the name does not exist.
pub fn is_nxdomain_failure(failure: LookupFailure) -> (yes: bool)
    ensures
        yes == says_nxdomain(failure),
{
    match failure {
        LookupFailure::NoRecords(code) => code == NXDOMAIN,
        LookupFailure::Unassigned(_) => false,
        LookupFailure::NoAnswer => false,
        LookupFailure::Foreign => false,
    }
}

/// Whether the error says that the name does not exist.
pub fn is_nxdomain(err: &ResolveError) -> (yes: bool)
    ensures
        yes == says_nxdomain(failure_kind(err)),
{
    is_nxdomain_failure(failure_of(err))
}

/// What came of a lookup.
pub enum Lookup {
    /// An answer with these records.
    Records(Vec<String>),
    /// A failure, with its text.
    Failed(LookupFailure, String),
    /// No outcome in time.
    TimedOut,
}

/// The message for an answer that holds no record.
pub const NO_RECORDS_MESSAGE: &'static str = "Sem registros do tipo pedido";

/// How a lookup that took `latency` nanoseconds is classified. An answer without
/// any record says that the name exists, and so is an error.
pub open spec fn classified(lookup: Lookup, latency: nat) -> StatusView {
    match lookup {
        Lookup::Records(records) => if records@.len() == 0 {
            StatusView::Error { message: NO_RECORDS_MESSAGE@, latency }
        } else {
            StatusView::Success { records: texts(records@), latency }
        },
        Lookup::Failed(failure, message) => if says_nxdomain(failure) {
            StatusView::NotFound { latency }
        } else {
            StatusView::Error { message: message@, latency }
        },
        Lookup::TimedOut => StatusView::Error { message: "DNS Lookup Timeout"@, latency },
    }
}

/// Classifies a lookup.
pub fn classify_lookup(lookup: Lookup, latency: Duration) -> (status: DnsStatus)
    ensures
        status@ == classified(lookup, duration_nanos(latency)),
{
    match lookup {
        Lookup::Records(records) => if records.len() == 0 {
            DnsStatus::Error { message: NO_RECORDS_MESSAGE.to_owned(), latency }
        } else {
            DnsStatus::Success { records, latency }
        },
        Lookup::Failed(failure, message) => if is_nxdomain_failure(failure) {
            DnsStatus::NotFound { latency }
        } else {
            DnsStatus::Error { message, latency }
        },
        Lookup::TimedOut => DnsStatus::Error {
            message: "DNS Lookup Timeout".to_owned(),
            latency,
        },
    }
}

/// The lookup that ended in `err`. Of the text of a foreign error nothing is stated:
/// it varies from machine to machine.
pub fn failed_lookup(err: &ResolveError) -> (lookup: Lookup)
    ensures
        lookup matches Lookup::Failed(failure, message) && failure == failure_kind(err) && (
        failure is Foreign || message@ == failure_text(err)),
{
    Lookup::Failed(failure_of(err), message_of(err))
}

/// Resolves names with a timeout per query, within which a query is tried a fixed
/// number of times at most.
#[derive(Debug)]
pub struct DnsEngine {
    timeout: Duration,
}

impl DnsEngine {
    /// Nanoseconds that one query may take.
    pub closed spec fn timeout_nanos(&self) -> nat {
        duration_nanos(self.timeout)
    }

    /// An engine that gives each query `timeout_ms`, all its attempts included.
    pub fn new(timeout_ms: u64) -> (engine: DnsEngine)
        ensures
            engine.timeout_nanos() == timeout_ms * NANOS_PER_MILLI,
    {
        DnsEngine { timeout: from_millis(timeout_ms) }
    }

    /// How long one query may take.
    pub fn timeout(&self) -> (d: Duration)
        ensures
            duration_nanos(d) == self.timeout_nanos(),
    {
        self.timeout
    }

    /// The result of a query for `domain`. Every outcome has one; none is an error of
    /// the engine.
    pub fn resolve(
        &self,
        domain: &str,
        record_type: RecordTypeCli,
        lookup: Lookup,
        latency: Duration,
    ) -> (result: DnsQueryResult)
        ensures
            result.domain@ == domain@,
            result.record_type == record_type,
            result.status@ == classified(lookup, duration_nanos(latency)),
    {
        DnsQueryResult {
            domain: domain.to_owned(),
            record_type,
            status: classify_lookup(lookup, latency),
        }
    }
}

/// What the endless round of queries does next.
#[derive(Debug, Clone, Copy, PartialEq, Eq, Structural)]
pub enum DnsTurn {
    /// Query the domain at this place in the list, and deliver the result.
    Resolve(usize),
    /// Sleep until the next round.
    Sleep,
    /// Nobody takes results any more: stop.
    Stop,
}

/// The turn that starts a round over `count` domains.
pub open spec fn round_start(count: usize) -> DnsTurn {
    if count == 0 {
        DnsTurn::Sleep
    } else {
        DnsTurn::Resolve(0)
    }
}

/// The turn after `done`; `listening` tells whether somebody still takes results:
/// after a query, whether its result was taken.
pub open spec fn turn_after(count: usize, done: DnsTurn, listening: bool) -> DnsTurn {
    match done {
        DnsTurn::Resolve(i) => if !listening {
            DnsTurn::Stop
        } else if i + 1 < count {
            DnsTurn::Resolve((i + 1) as usize)
        } else {
            DnsTurn::Sleep
        },
        DnsTurn::Sleep => if listening {
            round_start(count)
        } else {
            DnsTurn::Stop
        },
        DnsTurn::Stop => DnsTurn::Stop,
    }
}

/// The first turn over `count` domains.
pub fn first_turn(count: usize) -> (turn: DnsTurn)
    ensures
        turn == round_start(count),
{
    if count == 0 {
        DnsTurn::Sleep
    } else {
        DnsTurn::Resolve(0)
    }
}

/// The turn after `done`; `listening` tells whether somebody still takes results:
/// after a query, whether its result was taken.
pub fn next_turn(count: usize, done: DnsTurn, listening: bool) -> (turn: DnsTurn)
    ensures
        turn == turn_after(count, done, listening),
{
    match done {
        DnsTurn::Resolve(i) => if !listening {
            DnsTurn::Stop
        } else if i < count && i + 1 < count {
            DnsTurn::Resolve(i + 1)
        } else {
            DnsTurn::Sleep
        },
        DnsTurn::Sleep => if listening {
            first_turn(count)
        } else {
            DnsTurn::Stop
        },
        DnsTurn::Stop => DnsTurn::Stop,
    }
}

/// The `k`-th turn, as long as somebody takes the results.
pub open spec fn nth_turn(count: usize, k: nat) -> DnsTurn
    decreases k,
{
    if k == 0 {
        round_start(count)
    } else {
        turn_after(count, nth_turn(count, (k - 1) as nat), true)
    }
}

/// As long as somebody takes the results, the rounds repeat for ever: each queries
/// every domain once, in order, and then sleeps.
pub proof fn rounds_visit_every_domain(count: usize, k: nat)
    ensures
        nth_turn(count, k) == (if k % (count + 1) as nat == count {
            DnsTurn::Sleep
        } else {
            DnsTurn::Resolve((k % (count + 1) as nat) as usize)
        }),
    decreases k,
{
    let m = (count + 1) as int;
    if k == 0 {
        assert(0int % m == 0) by (nonlinear_arith)
            requires
                m > 0,
        ;
    } else {
        rounds_visit_every_domain(count, (k - 1) as nat);
        let (a, b) = ((k - 1) % m, k as int % m);
        assert(b == (if a + 1 == m { 0 } else { a + 1 })) by {
            vstd::arithmetic::div_mod::lemma_fundamental_div_mod(k - 1, m);
            let q = (k - 1) / m;
            assert(0 <= a < m) by (nonlinear_arith)
                requires
                    a == (k - 1) % m,
                    m > 0,
            ;
            if a + 1 == m {
                assert(k == (q + 1) * m + 0) by (nonlinear_arith)
                    requires
                        k - 1 == m * q + a,
                        a + 1 == m,
                ;
                vstd::arithmetic::div_mod::lemma_fundamental_div_mod_converse(k as int, m, q + 1, 0);
            } else {
                assert(k == q * m + (a + 1)) by (nonlinear_arith)
                    requires
                        k - 1 == m * q + a,
                ;
                vstd::arithmetic::div_mod::lemma_fundamental_div_mod_converse(k as int, m, q, a + 1);
            }
        }
    }
}

/// The turn of the `k`-th query, counted from zero, over `count` domains.
pub open spec fn query_turn(count: usize, k: nat) -> nat {
    (k / count as nat) * (count + 1) as nat + k % count as nat
}

/// The `k`-th query is for the domain at place `k` modulo their number, and between
/// two queries there is at most the sleep at the end of a round.
pub proof fn queries_go_round(count: usize, k: nat)
    requires
        count > 0,
    ensures
        nth_turn(count, query_turn(count, k)) == DnsTurn::Resolve((k % count as nat) as usize),
        query_turn(count, k + 1) == query_turn(count, k) + 1 || (query_turn(count, k + 1)
            == query_turn(count, k) + 2 && nth_turn(count, query_turn(count, k) + 1)
            == DnsTurn::Sleep),
{
    let (n, m) = (count as int, count + 1);
    let (q, r) = (k as int / n, k as int % n);
    vstd::arithmetic::div_mod::lemma_fundamental_div_mod(k as int, n);
    assert(0 <= r < n) by (nonlinear_arith)
        requires
            r == k as int % n,
            n > 0,
    ;
    let turn = query_turn(count, k);
    assert(turn == q * m + r);
    vstd::arithmetic::div_mod::lemma_fundamental_div_mod_converse(turn as int, m, q, r);
    rounds_visit_every_domain(count, turn);
    if r + 1 < n {
        assert(k + 1 == q * n + (r + 1)) by (nonlinear_arith)
            requires
                k == n * q + r,
        ;
        vstd::arithmetic::div_mod::lemma_fundamental_div_mod_converse((k + 1) as int, n, q, r + 1);
    } else {
        assert(k + 1 == (q + 1) * n + 0) by (nonlinear_arith)
            requires
                k == n * q + r,
                r + 1 == n,
        ;
        vstd::arithmetic::div_mod::lemma_fundamental_div_mod_converse((k + 1) as int, n, q + 1, 0);
        assert((q + 1) * m + 0 == q * m + r + 2) by (nonlinear_arith)
            requires
                r + 2 == m,
        ;
        vstd::arithmetic::div_mod::lemma_fundamental_div_mod_converse((turn + 1) as int, m, q, r + 1);
        rounds_visit_every_domain(count, turn + 1);
    }
}

/// Once nobody takes results any more, the rounds end for good at the next turn,
/// whether it was a query or a sleep, and however many domains there are.
pub proof fn rounds_end_with_their_listener(count: usize, done: DnsTurn, listening: bool)
    ensures
        turn_after(count, done, false) == DnsTurn::Stop,
        turn_after(count, DnsTurn::Stop, listening) == DnsTurn::Stop,
{
}

/// A name counts as missing exactly when a server said so. In particular an answer
/// without the record asked for, a failing server and a timeout are all errors, not
/// missing names.
pub proof fn only_nxdomain_is_not_found(lookup: Lookup, latency: nat)
    ensures
        classified(lookup, latency) is NotFound <==> (lookup matches Lookup::Failed(failure, _)
            && failure == LookupFailure::NoRecords(NXDOMAIN)),
        classified(lookup, latency) is Success <==> (lookup matches Lookup::Records(records)
            && records@.len() > 0),
{
}

/// An answer with records is a success that holds all of them: as many as the answer,
/// each the text of the record at its place, with the time that the query took.
pub proof fn records_are_kept_in_order(records: Vec<String>, latency: nat)
    requires
        records@.len() > 0,
    ensures
        classified(Lookup::Records(records), latency) matches StatusView::Success {
            records: kept,
            latency: time,
        } && time == latency && kept.len() == records@.len() && forall|i: int|
            0 <= i < kept.len() ==> #[trigger] kept[i] == records@[i]@,
{
}

/// A missing name, an answer without records, a failure and a timeout are reported
/// with the time that the query took, and a failure with its whole text. A name is
/// missing exactly when a server answered with response code 3.
pub proof fn failures_keep_text_and_time(
    failure: LookupFailure,
    message: String,
    none: Vec<String>,
    latency: nat,
)
    requires
        none@.len() == 0,
    ensures
        failure == LookupFailure::NoRecords(3) ==> classified(
            Lookup::Failed(failure, message),
            latency,
        ) == (StatusView::NotFound { latency }),
        failure != LookupFailure::NoRecords(3) ==> classified(
            Lookup::Failed(failure, message),
            latency,
        ) == (StatusView::Error { message: message@, latency }),
        classified(Lookup::Records(none), latency) == (StatusView::Error {
            message: "Sem registros do tipo pedido"@,
            latency,
        }),
        classified(Lookup::TimedOut, latency) == (StatusView::Error {
            message: "DNS Lookup Timeout"@,
            latency,
        }),
        says_nxdomain(failure) <==> failure == LookupFailure::NoRecords(3),
{
}

/// A status is seen as it is: nothing of it is left out or changed in what the
/// contracts speak of.
pub proof fn statuses_are_seen_whole(status: DnsStatus)
    ensures
        status matches DnsStatus::Success { records, latency } ==> status@ matches StatusView::Success {
            records: seen,
            latency: time,
        } && time == duration_nanos(latency) && seen.len() == records@.len() && forall|i: int|
            0 <= i < seen.len() ==> #[trigger] seen[i] == records@[i]@,
        status matches DnsStatus::NotFound { latency } ==> status@ == (StatusView::NotFound {
            latency: duration_nanos(latency),
        }),
        status matches DnsStatus::Error { message, latency } ==> status@ == (StatusView::Error {
            message: message@,
            latency: duration_nanos(latency),
        }),
{
}

} // verus!
