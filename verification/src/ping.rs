//! Latency measurement: samples, their statistics, and the order of probes.

use crate::clock::{duration_nanos, from_millis, from_nanos, nanos_of, MAX_NANOS, NANOS_PER_MILLI};
use crate::double::{
    percent_tenths, percentages_are_in_range, percentages_are_near, to_percent_tenths,
};
use crate::echo::{checksum, echo_reply, internet_checksum, word_sum};
use crate::text::{decimal, fixed, push_decimal, push_fixed};
use std::time::Duration;
use vstd::prelude::*;

pub use crate::echo::{build_echo_request, is_valid_echo_reply};

verus! {

/// The outcome of one ping.
#[derive(Debug)]
pub struct PingSample {
    /// The host as the user named it.
    pub host: String,
    /// Round-trip time, if the host answered.
    pub rtt: Option<Duration>,
    /// Whether the sample comes from a TCP connection rather than from ICMP.
    pub is_fallback: bool,
    /// Why there is no round-trip time.
    pub error: Option<String>,
}

/// A sample without its representation: text as characters, time in nanoseconds.
#[verifier::ext_equal]
pub struct SampleView {
    pub host: Seq<char>,
    pub rtt: Option<nat>,
    pub is_fallback: bool,
    pub error: Option<Seq<char>>,
}

impl View for PingSample {
    type V = SampleView;

    open spec fn view(&self) -> SampleView {
        SampleView {
            host: self.host@,
            rtt: rtt_nanos(self.rtt),
            is_fallback: self.is_fallback,
            error: match self.error {
                Some(e) => Some(e@),
                None => None,
            },
        }
    }
}

/// Running statistics over the samples of one host.
#[derive(Debug)]
pub struct PingStats {
    /// Samples taken.
    pub transmitted: u64,
    /// Samples with an answer.
    pub received: u64,
    /// Shortest round trip so far.
    pub min_rtt: Option<Duration>,
    /// Longest round trip so far.
    pub max_rtt: Option<Duration>,
    /// Sum of all round trips.
    pub sum_rtt: Duration,
}

/// A share of lost samples, kept as the exact fraction `lost / transmitted`.
/// With nothing transmitted it stands for zero.
#[derive(Debug, Clone, Copy, PartialEq, Eq, Structural)]
pub struct LossRate {
    /// Samples without an answer.
    pub lost: u64,
    /// Samples taken.
    pub transmitted: u64,
}

impl Clone for PingSample {
    fn clone(&self) -> (copy: PingSample)
        ensures
            copy == *self,
    {
        PingSample {
            host: self.host.clone(),
            rtt: self.rtt,
            is_fallback: self.is_fallback,
            error: self.error.clone(),
        }
    }
}

impl Clone for PingStats {
    fn clone(&self) -> (copy: PingStats)
        ensures
            copy == *self,
    {
        PingStats {
            transmitted: self.transmitted,
            received: self.received,
            min_rtt: self.min_rtt,
            max_rtt: self.max_rtt,
            sum_rtt: self.sum_rtt,
        }
    }
}

/// The loss when `received` of `transmitted` samples were answered.
pub open spec fn loss_between(transmitted: u64, received: u64) -> LossRate {
    LossRate {
        lost: if transmitted == 0 {
            0
        } else {
            (transmitted - received) as u64
        },
        transmitted,
    }
}

impl LossRate {
    /// The loss in percent, computed in double precision, to the nearest tenth.
    pub open spec fn spec_tenths(self) -> nat {
        if self.transmitted == 0 {
            0
        } else {
            percent_tenths(self.lost as nat, self.transmitted as nat)
        }
    }

    /// The loss in percent with one decimal place, such as `33.3`.
    pub open spec fn percent_text(self) -> Seq<char> {
        fixed(self.spec_tenths(), 1)
    }

    /// Appends the loss in percent with one decimal place.
    pub fn push_percent(&self, out: &mut String)
        ensures
            final(out)@ == old(out)@ + self.percent_text(),
    {
        let tenths: u128 = if self.transmitted == 0 {
            0
        } else {
            to_percent_tenths(self.lost, self.transmitted)
        };
        push_fixed(out, tenths, 1);
    }
}

/// Nanoseconds of an optional round-trip time.
pub open spec fn rtt_nanos(rtt: Option<Duration>) -> Option<nat> {
    match rtt {
        Some(d) => Some(duration_nanos(d)),
        None => None,
    }
}

/// What the statistics say about a sequence of samples: the counts, the extremes
/// and the sum, in nanoseconds.
#[verifier::ext_equal]
pub struct Tally {
    pub transmitted: nat,
    pub received: nat,
    pub min: Option<nat>,
    pub max: Option<nat>,
    pub sum: nat,
}

/// The smaller of an extreme so far and a new value.
pub open spec fn lesser(so_far: Option<nat>, value: nat) -> nat {
    match so_far {
        Some(m) => if m <= value { m } else { value },
        None => value,
    }
}

/// The greater of an extreme so far and a new value.
pub open spec fn greater(so_far: Option<nat>, value: nat) -> nat {
    match so_far {
        Some(m) => if m >= value { m } else { value },
        None => value,
    }
}

impl Tally {
    /// The tally of no samples.
    pub open spec fn empty() -> Tally {
        Tally { transmitted: 0, received: 0, min: None, max: None, sum: 0 }
    }

    /// The tally with one more sample.
    pub open spec fn and(self, rtt: Option<nat>) -> Tally {
        match rtt {
            None => Tally { transmitted: self.transmitted + 1, ..self },
            Some(n) => Tally {
                transmitted: self.transmitted + 1,
                received: self.received + 1,
                min: Some(lesser(self.min, n)),
                max: Some(greater(self.max, n)),
                sum: self.sum + n,
            },
        }
    }

    /// The average round trip, rounded down; none before the first answer.
    pub open spec fn average(self) -> Option<nat> {
        if self.received == 0 {
            None
        } else {
            Some(self.sum / self.received)
        }
    }

    /// The tally of a whole sequence of samples.
    pub open spec fn of(samples: Seq<Option<nat>>) -> Tally
        decreases samples.len(),
    {
        if samples.len() == 0 {
            Tally::empty()
        } else {
            Tally::of(samples.drop_last()).and(samples.last())
        }
    }
}

impl View for PingStats {
    type V = Tally;

    open spec fn view(&self) -> Tally {
        Tally {
            transmitted: self.transmitted as nat,
            received: self.received as nat,
            min: rtt_nanos(self.min_rtt),
            max: rtt_nanos(self.max_rtt),
            sum: duration_nanos(self.sum_rtt),
        }
    }
}

impl Default for PingStats {
    /// No samples yet.
    fn default() -> (stats: PingStats)
        ensures
            stats@ == Tally::empty(),
    {
        PingStats {
            transmitted: 0,
            received: 0,
            min_rtt: None,
            max_rtt: None,
            sum_rtt: from_nanos(0),
        }
    }
}

impl PingStats {
    /// One more sample fits: no counter and no sum would overflow.
    pub open spec fn has_room(&self, rtt: Option<Duration>) -> bool {
        &&& self.transmitted < u64::MAX
        &&& rtt matches Some(d) ==> self.received < u64::MAX && duration_nanos(self.sum_rtt)
            + duration_nanos(d) <= MAX_NANOS
    }

    /// Whether one more sample fits.
    pub fn can_record(&self, rtt: Option<Duration>) -> (yes: bool)
        ensures
            yes == self.has_room(rtt),
    {
        if self.transmitted == u64::MAX {
            return false;
        }
        match rtt {
            None => true,
            Some(d) => self.received < u64::MAX && nanos_of(&self.sum_rtt) <= MAX_NANOS - nanos_of(
                &d,
            ),
        }
    }

    /// Takes one more sample into account; `None` is a lost one.
    pub fn record(&mut self, rtt_opt: Option<Duration>)
        requires
            old(self).has_room(rtt_opt),
        ensures
            final(self)@ == old(self)@.and(rtt_nanos(rtt_opt)),
    {
        self.transmitted = self.transmitted + 1;
        if let Some(rtt) = rtt_opt {
            let nanos: u128 = nanos_of(&rtt);
            self.received = self.received + 1;
            self.sum_rtt = from_nanos(nanos_of(&self.sum_rtt) + nanos);
            self.min_rtt = Some(
                match self.min_rtt {
                    Some(min) => if nanos_of(&min) <= nanos {
                        min
                    } else {
                        rtt
                    },
                    None => rtt,
                },
            );
            self.max_rtt = Some(
                match self.max_rtt {
                    Some(max) => if nanos_of(&max) >= nanos {
                        max
                    } else {
                        rtt
                    },
                    None => rtt,
                },
            );
        }
    }

    /// The share of samples that were lost; zero before the first sample.
    pub fn loss_rate(&self) -> (rate: LossRate)
        requires
            self.transmitted == 0 || self.received <= self.transmitted,
        ensures
            rate == loss_between(self.transmitted, self.received),
    {
        if self.transmitted == 0 {
            return LossRate { lost: 0, transmitted: 0 };
        }
        LossRate { lost: self.transmitted - self.received, transmitted: self.transmitted }
    }

    /// The average round-trip time, rounded down to the nanosecond; `None` before
    /// the first answer.
    pub fn avg_rtt(&self) -> (avg: Option<Duration>)
        ensures
            rtt_nanos(avg) == self@.average(),
    {
        if self.received == 0 {
            None
        } else {
            let total: u128 = nanos_of(&self.sum_rtt);
            let count: u128 = self.received as u128;
            proof {
                assert(total / count <= total) by (nonlinear_arith)
                    requires
                        count > 0,
                ;
            }
            Some(from_nanos(total / count))
        }
    }
}

/// The statistics of a sequence of samples, recorded one after the other, are
/// ordered as they should be: no more answers than samples, extremes exactly when
/// there is an answer, and the sum between the count times the least and the count
/// times the greatest.
pub proof fn tally_is_consistent(samples: Seq<Option<nat>>)
    ensures
        ({
            let t = Tally::of(samples);
            &&& t.transmitted == samples.len()
            &&& t.received <= t.transmitted
            &&& (t.min is Some <==> t.received > 0)
            &&& (t.max is Some <==> t.received > 0)
            &&& (t.received == 0 ==> t.sum == 0)
            &&& (t.received > 0 ==> t.min->0 <= t.max->0)
            &&& (t.received > 0 ==> t.received * t.min->0 <= t.sum <= t.received * t.max->0)
        }),
    decreases samples.len(),
{
    if samples.len() > 0 {
        tally_is_consistent(samples.drop_last());
        let before = Tally::of(samples.drop_last());
        let t = Tally::of(samples);
        if let Some(n) = samples.last() {
            if before.received > 0 {
                let (r, lo, hi) = (before.received as int, before.min->0 as int, before.max->0 as int);
                let (lo2, hi2) = (t.min->0 as int, t.max->0 as int);
                assert((r + 1) * lo2 <= r * lo + n) by (nonlinear_arith)
                    requires
                        lo2 <= lo,
                        lo2 <= n,
                        r >= 0,
                ;
                assert(r * hi + n <= (r + 1) * hi2) by (nonlinear_arith)
                    requires
                        hi <= hi2,
                        n <= hi2,
                        r >= 0,
                ;
            } else {
                assert(1 * t.min->0 == n && 1 * t.max->0 == n);
            }
        }
    }
}

/// Statistics that start empty and take in one sample after the other hold, with the
/// `k`-th sample, the first `k` samples and no others, the lost ones included.
pub proof fn statistics_hold_the_samples_so_far(
    stats: Seq<PingStats>,
    samples: Seq<SampleView>,
    k: int,
)
    requires
        stats.len() == samples.len() + 1,
        stats[0]@ == Tally::empty(),
        forall|i: int|
            0 <= i < samples.len() ==> stats[i + 1]@ == stats[i]@.and((#[trigger] samples[i]).rtt),
        0 <= k <= samples.len(),
    ensures
        stats[k]@ == Tally::of(samples.take(k).map_values(|s: SampleView| s.rtt)),
        stats[k]@.transmitted == k,
    decreases k,
{
    let rtts = samples.take(k).map_values(|s: SampleView| s.rtt);
    if k > 0 {
        statistics_hold_the_samples_so_far(stats, samples, k - 1);
        assert(rtts.drop_last() =~= samples.take(k - 1).map_values(|s: SampleView| s.rtt));
        assert(rtts.last() == samples[k - 1].rtt);
        assert(stats[k - 1 + 1]@ == stats[k - 1]@.and(samples[k - 1].rtt));
    } else {
        assert(rtts =~= Seq::empty());
    }
}

/// A lost sample changes nothing but the number of samples: the average, the
/// extremes and the sum are those of the answers alone.
pub proof fn losses_leave_the_round_trips_alone(tally: Tally)
    ensures
        tally.and(None).received == tally.received,
        tally.and(None).sum == tally.sum,
        tally.and(None).min == tally.min,
        tally.and(None).max == tally.max,
        tally.and(None).transmitted == tally.transmitted + 1,
{
}

/// The average lies between the shortest and the longest round trip.
pub proof fn average_lies_between_the_extremes(samples: Seq<Option<nat>>)
    requires
        Tally::of(samples).received > 0,
    ensures
        ({
            let t = Tally::of(samples);
            t.average() is Some && t.min->0 <= t.average()->0 <= t.max->0
        }),
{
    tally_is_consistent(samples);
    let t = Tally::of(samples);
    let (r, lo, hi, sum) = (t.received as int, t.min->0 as int, t.max->0 as int, t.sum as int);
    assert(lo <= sum / r <= hi) by (nonlinear_arith)
        requires
            r > 0,
            r * lo <= sum <= r * hi,
    ;
}

/// The loss is between nothing and all: zero percent when every sample was answered,
/// one hundred when none was.
pub proof fn loss_is_a_share(transmitted: u64, received: u64)
    requires
        received <= transmitted,
        transmitted > 0,
    ensures
        loss_between(transmitted, received).spec_tenths() <= 1000,
        received == transmitted ==> loss_between(transmitted, received).spec_tenths() == 0,
        received == 0 ==> loss_between(transmitted, received).spec_tenths() == 1000,
{
    percentages_are_in_range((transmitted - received) as nat, transmitted as nat);
}

/// The Internet checksum (RFC 1071) of an ICMP packet.
///
/// The plain sum of the words is kept in 32 bits, so it must fit there; any
/// packet of up to 131074 bytes does.
pub fn icmp_checksum(data: &[u8]) -> (sum: u16)
    requires
        word_sum(data@) <= u32::MAX,
    ensures
        sum == checksum(data@),
{
    internet_checksum(data)
}

/// The settings of an engine: times in nanoseconds.
pub struct PingSettings {
    pub interval: nat,
    pub timeout: nat,
    pub tcp_port: u16,
}

/// Pings hosts: over ICMP where possible, by opening a TCP connection otherwise.
///
/// The engine decides; the program around it resolves names, sends packets and
/// opens connections, and reports back what happened.
#[derive(Debug)]
pub struct PingEngine {
    interval: Duration,
    timeout: Duration,
    tcp_port: u16,
}

/// Something that happened while a host was being pinged.
pub enum PingEvent {
    /// The name could not be resolved, for the given reason.
    ResolveFailed(String),
    /// The name resolved to no address at all.
    NoAddress,
    /// The name resolved to this IPv4 address.
    ResolvedV4(u32),
    /// The name resolved to an IPv6 address.
    ResolvedV6,
    /// The echo was answered after this time.
    EchoAnswered(Duration),
    /// The echo could not be sent, or was not answered in time.
    EchoFailed,
    /// The TCP connection was opened after this time.
    Connected(Duration),
    /// The TCP connection was refused, for the given reason.
    ConnectFailed(String),
    /// The TCP connection was not opened in time.
    ConnectTimedOut,
}

/// What to do next.
pub enum PingAction {
    /// Send an echo request to this IPv4 address.
    SendEcho(u32),
    /// Open a TCP connection to the resolved address.
    Connect,
    /// The ping is over: report this sample.
    Report(PingSample),
}

/// An action without its representation.
pub enum ActionView {
    SendEcho(u32),
    Connect,
    Report(SampleView),
}

impl View for PingAction {
    type V = ActionView;

    open spec fn view(&self) -> ActionView {
        match *self {
            PingAction::SendEcho(addr) => ActionView::SendEcho(addr),
            PingAction::Connect => ActionView::Connect,
            PingAction::Report(sample) => ActionView::Report(sample@),
        }
    }
}

/// The sample of a host that answered.
pub open spec fn answered(host: Seq<char>, rtt: Duration, is_fallback: bool) -> SampleView {
    SampleView { host, rtt: Some(duration_nanos(rtt)), is_fallback, error: None }
}

/// The sample of a host that did not answer.
pub open spec fn unanswered(host: Seq<char>, error: Seq<char>, is_fallback: bool) -> SampleView {
    SampleView { host, rtt: None, is_fallback, error: Some(error) }
}

/// How a ping of `host` goes on after `event`.
///
/// ICMP is tried on IPv4 addresses only; an IPv6 address goes straight to TCP, and
/// so does an IPv4 address whose echo failed.
pub open spec fn reaction(host: Seq<char>, event: PingEvent) -> ActionView {
    match event {
        PingEvent::ResolveFailed(e) => ActionView::Report(
            unanswered(host, "Erro DNS: "@ + e@, false),
        ),
        PingEvent::NoAddress => ActionView::Report(
            unanswered(host, "Falha ao resolver endereço IP"@, false),
        ),
        PingEvent::ResolvedV4(addr) => ActionView::SendEcho(addr),
        PingEvent::ResolvedV6 => ActionView::Connect,
        PingEvent::EchoAnswered(rtt) => ActionView::Report(answered(host, rtt, false)),
        PingEvent::EchoFailed => ActionView::Connect,
        PingEvent::Connected(rtt) => ActionView::Report(answered(host, rtt, true)),
        PingEvent::ConnectFailed(e) => ActionView::Report(
            unanswered(host, "TCP Erro: "@ + e@, true),
        ),
        PingEvent::ConnectTimedOut => ActionView::Report(
            unanswered(host, "Timeout excedido"@, true),
        ),
    }
}

/// A sample without a round-trip time.
fn failure(target: &str, error: String, is_fallback: bool) -> (sample: PingSample)
    ensures
        sample@ == unanswered(target@, error@, is_fallback),
{
    PingSample { host: target.to_owned(), rtt: None, is_fallback, error: Some(error) }
}

/// A reason with its detail.
fn because(reason: &str, detail: &str) -> (text: String)
    ensures
        text@ == reason@ + detail@,
{
    let mut text = reason.to_owned();
    text.append(detail);
    text
}

impl PingEngine {
    /// The settings that the engine was made with.
    pub closed spec fn view(&self) -> PingSettings {
        PingSettings {
            interval: duration_nanos(self.interval),
            timeout: duration_nanos(self.timeout),
            tcp_port: self.tcp_port,
        }
    }

    /// An engine that pings every `interval_ms`, gives an echo and a connection
    /// `timeout_ms` each, and connects to `tcp_port`.
    pub fn new(interval_ms: u64, timeout_ms: u64, tcp_port: u16) -> (engine: PingEngine)
        ensures
            engine.view() == (PingSettings {
                interval: (interval_ms * NANOS_PER_MILLI) as nat,
                timeout: (timeout_ms * NANOS_PER_MILLI) as nat,
                tcp_port,
            }),
    {
        PingEngine {
            interval: from_millis(interval_ms),
            timeout: from_millis(timeout_ms),
            tcp_port,
        }
    }

    /// Time between two pings of a host.
    pub fn interval(&self) -> (d: Duration)
        ensures
            duration_nanos(d) == self.view().interval,
    {
        self.interval
    }

    /// How long each attempt to reach a host may take.
    pub fn timeout(&self) -> (d: Duration)
        ensures
            duration_nanos(d) == self.view().timeout,
    {
        self.timeout
    }

    /// How long an echo reply may take: the whole timeout.
    pub fn echo_timeout(&self) -> (d: Duration)
        ensures
            duration_nanos(d) == self.view().timeout,
    {
        self.timeout
    }

    /// The `host:port` text under which `target` is resolved.
    pub fn socket_target(&self, target: &str) -> (text: String)
        ensures
            text@ == target@ + ":"@ + decimal(self.view().tcp_port as nat),
    {
        let mut text = target.to_owned();
        text.append(":");
        push_decimal(&mut text, self.tcp_port as u128);
        text
    }

    /// What to do next when `event` happens during a ping of `target`.
    pub fn ping_step(&self, target: &str, event: PingEvent) -> (action: PingAction)
        ensures
            action@ == reaction(target@, event),
    {
        match event {
            PingEvent::ResolveFailed(e) => PingAction::Report(
                failure(target, because("Erro DNS: ", e.as_str()), false),
            ),
            PingEvent::NoAddress => PingAction::Report(
                failure(target, "Falha ao resolver endereço IP".to_owned(), false),
            ),
            PingEvent::ResolvedV4(addr) => PingAction::SendEcho(addr),
            PingEvent::ResolvedV6 => PingAction::Connect,
            PingEvent::EchoAnswered(rtt) => PingAction::Report(
                PingSample {
                    host: target.to_owned(),
                    rtt: Some(rtt),
                    is_fallback: false,
                    error: None,
                },
            ),
            PingEvent::EchoFailed => PingAction::Connect,
            PingEvent::Connected(rtt) => PingAction::Report(
                PingSample {
                    host: target.to_owned(),
                    rtt: Some(rtt),
                    is_fallback: true,
                    error: None,
                },
            ),
            PingEvent::ConnectFailed(e) => PingAction::Report(
                failure(target, because("TCP Erro: ", e.as_str()), true),
            ),
            PingEvent::ConnectTimedOut => PingAction::Report(
                failure(target, "Timeout excedido".to_owned(), true),
            ),
        }
    }
}

/// What a received packet means for an echo that is being waited for.
#[derive(Debug, Clone, Copy, PartialEq, Eq, Structural)]
pub enum EchoWait {
    /// The awaited reply.
    Answered,
    /// Something else, and the time is up.
    Expired,
    /// Something else; go on waiting.
    Waiting,
}

/// Judges the first `n` bytes of `buf`, received while waiting for the reply to the
/// echo `ident`, `seq`. Foreign packets are ignored until the deadline; the reply
/// itself counts even if the deadline has just passed.
pub fn judge_packet(
    buf: &[u8],
    n: usize,
    ident: u16,
    seq: u16,
    past_deadline: bool,
) -> (wait: EchoWait)
    requires
        n <= buf@.len(),
    ensures
        wait == (if echo_reply(buf@.take(n as int), ident, seq) {
            EchoWait::Answered
        } else if past_deadline {
            EchoWait::Expired
        } else {
            EchoWait::Waiting
        }),
{
    if is_valid_echo_reply(buf, n, ident, seq) {
        EchoWait::Answered
    } else if past_deadline {
        EchoWait::Expired
    } else {
        EchoWait::Waiting
    }
}

/// The echo identifier of a process: the low sixteen bits of its number.
pub fn echo_ident(pid: u32) -> (ident: u16)
    ensures
        ident == pid % 0x1_0000,
{
    (pid % 0x1_0000) as u16
}

/// The stage of a ping to which an event belongs: resolving the name, waiting for
/// the echo, connecting.
pub open spec fn event_stage(event: PingEvent) -> nat {
    match event {
        PingEvent::ResolveFailed(_) => 0,
        PingEvent::NoAddress => 0,
        PingEvent::ResolvedV4(_) => 0,
        PingEvent::ResolvedV6 => 0,
        PingEvent::EchoAnswered(_) => 1,
        PingEvent::EchoFailed => 1,
        PingEvent::Connected(_) => 2,
        PingEvent::ConnectFailed(_) => 2,
        PingEvent::ConnectTimedOut => 2,
    }
}

/// The stage that an action leads to; a report ends the ping.
pub open spec fn action_stage(action: ActionView) -> nat {
    match action {
        ActionView::SendEcho(_) => 1,
        ActionView::Connect => 2,
        ActionView::Report(_) => 3,
    }
}

/// Every step of a ping leads to a later stage, so a ping takes at most three
/// steps, and the step after a connection attempt is always the report.
pub proof fn a_ping_always_ends(host: Seq<char>, event: PingEvent)
    ensures
        action_stage(reaction(host, event)) > event_stage(event),
        event_stage(event) == 2 ==> reaction(host, event) is Report,
{
}

/// Whatever happened, the reported sample names the host, has either a round-trip
/// time or an error, never both and never neither, and is marked as a fallback
/// exactly when it comes from a TCP connection.
pub proof fn a_report_is_an_answer_or_an_error(host: Seq<char>, event: PingEvent)
    ensures
        reaction(host, event) matches ActionView::Report(sample) ==> {
            &&& sample.host == host
            &&& (sample.rtt is Some <==> sample.error is None)
            &&& (sample.is_fallback <==> event_stage(event) == 2)
        },
{
}

/// Once a name is resolved to an IPv4 address, the echo goes to that very address,
/// whichever it is and however the host was called.
pub proof fn echoes_go_to_the_resolved_address(host: Seq<char>, address: u32)
    ensures
        reaction(host, PingEvent::ResolvedV4(address)) == ActionView::SendEcho(address),
{
}

/// Echoes are sent for IPv4 addresses alone, and only once a name is resolved. A
/// connection is opened exactly when there is no IPv4 address to send an echo to, or
/// when the echo failed.
pub proof fn connections_are_the_fallback(host: Seq<char>, event: PingEvent)
    ensures
        reaction(host, event) is SendEcho <==> event is ResolvedV4,
        reaction(host, event) is Connect <==> event is ResolvedV6 || event is EchoFailed,
{
}

/// An answer is reported with the very time it took, without an error, and as a
/// fallback if it came over TCP.
pub proof fn answers_are_reported_with_their_time(host: Seq<char>, rtt: Duration)
    ensures
        reaction(host, PingEvent::EchoAnswered(rtt)) matches ActionView::Report(s) && s.host == host
            && s.rtt == Some(duration_nanos(rtt)) && s.error is None && !s.is_fallback,
        reaction(host, PingEvent::Connected(rtt)) matches ActionView::Report(s) && s.host == host
            && s.rtt == Some(duration_nanos(rtt)) && s.error is None && s.is_fallback,
{
}

/// `text` is `front` and then the whole of `reason`.
pub open spec fn reads_as(text: Seq<char>, front: Seq<char>, reason: Seq<char>) -> bool {
    &&& text.len() == front.len() + reason.len()
    &&& forall|i: int| 0 <= i < front.len() ==> text[i] == #[trigger] front[i]
    &&& forall|i: int| 0 <= i < reason.len() ==> text[front.len() + i] == #[trigger] reason[i]
}

/// A failure is reported without a time and with its whole reason: a name that did
/// not resolve or has no address, a connection that was refused or took too long. It
/// is a fallback if it happened over TCP.
pub proof fn failures_are_reported_with_their_reason(host: Seq<char>, reason: String)
    ensures
        reaction(host, PingEvent::ResolveFailed(reason)) matches ActionView::Report(s) && s.host
            == host && s.rtt is None && !s.is_fallback && s.error is Some && reads_as(
            s.error->0,
            "Erro DNS: "@,
            reason@,
        ),
        reaction(host, PingEvent::NoAddress) matches ActionView::Report(s) && s.host == host
            && s.rtt is None && !s.is_fallback && s.error == Some(
            "Falha ao resolver endereço IP"@,
        ),
        reaction(host, PingEvent::ConnectFailed(reason)) matches ActionView::Report(s) && s.host
            == host && s.rtt is None && s.is_fallback && s.error is Some && reads_as(
            s.error->0,
            "TCP Erro: "@,
            reason@,
        ),
        reaction(host, PingEvent::ConnectTimedOut) matches ActionView::Report(s) && s.host == host
            && s.rtt is None && s.is_fallback && s.error == Some("Timeout excedido"@),
{
}

/// Samples and statistics are seen as they are: nothing of them is left out or
/// changed in what the contracts speak of.
pub proof fn samples_are_seen_whole(sample: PingSample, stats: PingStats)
    ensures
        sample@.host == sample.host@,
        sample@.is_fallback == sample.is_fallback,
        sample@.rtt is Some <==> sample.rtt is Some,
        sample.rtt matches Some(d) ==> sample@.rtt == Some(duration_nanos(d)),
        sample@.error is Some <==> sample.error is Some,
        sample.error matches Some(e) ==> sample@.error == Some(e@),
        stats@.transmitted == stats.transmitted,
        stats@.received == stats.received,
        stats@.sum == duration_nanos(stats.sum_rtt),
        stats@.min is Some <==> stats.min_rtt is Some,
        stats.min_rtt matches Some(d) ==> stats@.min == Some(duration_nanos(d)),
        stats@.max is Some <==> stats.max_rtt is Some,
        stats.max_rtt matches Some(d) ==> stats@.max == Some(duration_nanos(d)),
{
}

/// The shortest and the longest round trip bound every answer, and each of them is
/// one of the answers.
pub proof fn extremes_are_answers(samples: Seq<Option<nat>>)
    ensures
        ({
            let t = Tally::of(samples);
            &&& forall|i: int|
                0 <= i < samples.len() && (#[trigger] samples[i]) is Some ==> t.min is Some && t.max
                    is Some && t.min->0 <= samples[i]->0 <= t.max->0
            &&& (t.min is Some ==> samples.contains(t.min))
            &&& (t.max is Some ==> samples.contains(t.max))
        }),
    decreases samples.len(),
{
    if samples.len() > 0 {
        let (start, last) = (samples.drop_last(), samples.last());
        let (b, t) = (Tally::of(start), Tally::of(samples));
        extremes_are_answers(start);
        tally_is_consistent(start);
        assert(samples[samples.len() - 1] == last);
        assert forall|i: int| 0 <= i < samples.len() && (#[trigger] samples[i]) is Some implies t.min
            is Some && t.max is Some && t.min->0 <= samples[i]->0 <= t.max->0 by {
            if i < start.len() {
                assert(start[i] == samples[i]);
            }
        }
        if t.min is Some && t.min != last {
            let i = choose|i: int| 0 <= i < start.len() && start[i] == b.min;
            assert(samples[i] == b.min);
        }
        if t.max is Some && t.max != last {
            let i = choose|i: int| 0 <= i < start.len() && start[i] == b.max;
            assert(samples[i] == b.max);
        }
    }
}

/// Statistics of two stretches add up, and those of one sample are that sample: so
/// the counts are the numbers of samples and answers, and the sum is that of all
/// answers.
pub proof fn statistics_add_up(a: Seq<Option<nat>>, b: Seq<Option<nat>>, n: nat)
    ensures
        Tally::of(a + b).transmitted == Tally::of(a).transmitted + Tally::of(b).transmitted,
        Tally::of(a + b).received == Tally::of(a).received + Tally::of(b).received,
        Tally::of(a + b).sum == Tally::of(a).sum + Tally::of(b).sum,
        Tally::of(seq![Some(n)]) == (Tally {
            transmitted: 1,
            received: 1,
            min: Some(n),
            max: Some(n),
            sum: n,
        }),
        Tally::of(seq![None::<nat>]) == (Tally {
            transmitted: 1,
            received: 0,
            min: None,
            max: None,
            sum: 0,
        }),
    decreases b.len(),
{
    let none = Seq::<Option<nat>>::empty();
    assert(seq![Some(n)].drop_last() =~= none);
    assert(seq![None::<nat>].drop_last() =~= none);
    assert(Tally::of(none) == Tally::empty());
    if b.len() == 0 {
        assert(a + b =~= a);
    } else {
        statistics_add_up(a, b.drop_last(), n);
        assert((a + b).drop_last() =~= a + b.drop_last());
        assert((a + b).last() == b.last());
    }
}

/// The average times the number of answers is the sum, up to the rounding down.
pub proof fn averages_divide_the_sum(tally: Tally)
    ensures
        tally.average() is None <==> tally.received == 0,
        tally.average() matches Some(avg) ==> avg * tally.received <= tally.sum < (avg + 1)
            * tally.received,
{
    if tally.received > 0 {
        let (s, r) = (tally.sum as int, tally.received as int);
        let avg = s / r;
        assert(avg * r <= s && s < (avg + 1) * r) by (nonlinear_arith)
            requires
                avg == s / r,
                r > 0,
        ;
    }
}

/// What was lost and what was received make up what was sent, and the share of what
/// was lost is that of the losses among all samples.
pub proof fn losses_complete_the_answers(transmitted: u64, received: u64)
    requires
        received <= transmitted,
    ensures
        loss_between(transmitted, received).lost + received == transmitted,
        loss_between(transmitted, received).transmitted == transmitted,
{
}

/// The loss in percent is the share of the samples that were lost, to within a tenth,
/// and nothing as long as there is no sample.
pub proof fn losses_are_shown_in_percent(loss: LossRate)
    requires
        loss.lost <= loss.transmitted,
    ensures
        loss.transmitted == 0 ==> loss.spec_tenths() == 0,
        loss.spec_tenths() * loss.transmitted <= 1000 * loss.lost + loss.transmitted,
        1000 * loss.lost <= loss.spec_tenths() * loss.transmitted + loss.transmitted,
        loss.percent_text() == fixed(loss.spec_tenths(), 1),
{
    if loss.transmitted > 0 {
        percentages_are_near(loss.lost as nat, loss.transmitted as nat);
    } else {
        assert(loss.spec_tenths() * loss.transmitted == 0) by (nonlinear_arith)
            requires
                loss.transmitted == 0,
        ;
    }
}

/// Samples are counted up to the limits of the counters and of the sum.
pub proof fn statistics_have_room_up_to_the_limit(stats: PingStats, rtt: Option<Duration>)
    ensures
        rtt is None ==> (stats.has_room(rtt) <==> stats.transmitted + 1 <= u64::MAX),
        rtt matches Some(d) ==> (stats.has_room(rtt) <==> stats.transmitted + 1 <= u64::MAX
            && stats.received + 1 <= u64::MAX && duration_nanos(stats.sum_rtt) + duration_nanos(d)
            < (u64::MAX + 1) * 1_000_000_000),
{
}

} // verus!
