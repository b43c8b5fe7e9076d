//! Traffic flows: the 5-tuple that names one, its counters, and the table of
//! flows seen lately.

use crate::clock::{duration_nanos, nanos_of, NANOS_PER_SEC};
use std::time::Duration;
use vstd::prelude::*;

verus! {

/// Above this many flows the table drops those not seen lately.
pub const MAX_FLOWS: usize = 10_000;

/// A flow counts as seen lately for this many seconds.
pub const FLOW_LIFETIME_SECS: u64 = 300;

/// An IP address, as the number that its bytes stand for in network order.
#[derive(Debug, Clone, Copy, PartialEq, Eq, Hash, Structural)]
pub enum IpAddr {
    /// An IPv4 address.
    V4(u32),
    /// An IPv6 address.
    V6(u128),
}

/// The protocol classes that traffic is counted by.
#[derive(Debug, Clone, Copy, PartialEq, Eq, Hash, Structural)]
pub enum Protocol {
    /// TCP.
    Tcp,
    /// UDP.
    Udp,
    /// ICMP, for IPv4 or IPv6.
    Icmp,
    /// Anything else.
    Other,
}

impl Protocol {
    /// The name under which the class is shown.
    pub open spec fn name(self) -> Seq<char> {
        match self {
            Protocol::Tcp => "TCP"@,
            Protocol::Udp => "UDP"@,
            Protocol::Icmp => "ICMP"@,
            Protocol::Other => "OUTRO"@,
        }
    }

    /// The name under which the class is shown.
    pub fn as_str(&self) -> (name: &'static str)
        ensures
            name@ == self.name(),
    {
        match self {
            Protocol::Tcp => "TCP",
            Protocol::Udp => "UDP",
            Protocol::Icmp => "ICMP",
            Protocol::Other => "OUTRO",
        }
    }
}

/// What names a flow: both ends and the protocol. Ports are zero for protocols
/// without any.
#[derive(Debug, Clone, Copy, PartialEq, Eq, Hash, Structural)]
pub struct FiveTuple {
    pub src_ip: IpAddr,
    pub dst_ip: IpAddr,
    pub src_port: u16,
    pub dst_port: u16,
    pub protocol: Protocol,
}

/// The counters of one flow. `last_seen` is a point on the monotonic clock, given
/// as the time since a fixed origin.
#[derive(Debug, Clone, Copy)]
pub struct FlowStat {
    pub packet_count: u64,
    pub byte_count: u64,
    pub last_seen: Option<Duration>,
}

impl Default for FlowStat {
    /// A flow of which nothing was seen yet.
    fn default() -> (stat: FlowStat)
        ensures
            stat == no_traffic(),
    {
        FlowStat { packet_count: 0, byte_count: 0, last_seen: None }
    }
}

/// The counters of a flow of which nothing was seen yet.
pub open spec fn no_traffic() -> FlowStat {
    FlowStat { packet_count: 0, byte_count: 0, last_seen: None }
}

/// Counters after one more packet of `len` bytes, seen at `now`.
pub open spec fn grown(stat: FlowStat, len: u64, now: Duration) -> FlowStat {
    FlowStat {
        packet_count: (stat.packet_count + 1) as u64,
        byte_count: (stat.byte_count + len) as u64,
        last_seen: Some(now),
    }
}

/// The flow was seen less than its lifetime ago. A point after `now` counts as
/// just now.
pub open spec fn seen_lately(stat: FlowStat, now: Duration) -> bool {
    stat.last_seen matches Some(seen) && duration_nanos(now) < duration_nanos(seen)
        + FLOW_LIFETIME_SECS * NANOS_PER_SEC
}

/// An address as one number: IPv4 addresses first.
pub open spec fn ip_rank(ip: IpAddr) -> int {
    match ip {
        IpAddr::V4(a) => a as int,
        IpAddr::V6(a) => 0x1_0000_0000 + a,
    }
}

/// A protocol class as one number.
pub open spec fn protocol_rank(p: Protocol) -> int {
    match p {
        Protocol::Tcp => 0,
        Protocol::Udp => 1,
        Protocol::Icmp => 2,
        Protocol::Other => 3,
    }
}

/// The order in which the table keeps its flows.
pub open spec fn precedes(a: FiveTuple, b: FiveTuple) -> bool {
    let (s, t) = (ip_rank(a.src_ip), ip_rank(b.src_ip));
    let (d, e) = (ip_rank(a.dst_ip), ip_rank(b.dst_ip));
    ||| s < t
    ||| s == t && d < e
    ||| s == t && d == e && a.src_port < b.src_port
    ||| s == t && d == e && a.src_port == b.src_port && a.dst_port < b.dst_port
    ||| s == t && d == e && a.src_port == b.src_port && a.dst_port == b.dst_port && protocol_rank(
        a.protocol,
    ) < protocol_rank(b.protocol)
}

/// Where one address stands with respect to another.
enum Place {
    Before,
    Same,
    After,
}

fn place_ip(a: IpAddr, b: IpAddr) -> (p: Place)
    ensures
        p is Before <==> ip_rank(a) < ip_rank(b),
        p is Same <==> ip_rank(a) == ip_rank(b),
        p is After <==> ip_rank(a) > ip_rank(b),
{
    match (a, b) {
        (IpAddr::V4(x), IpAddr::V4(y)) => if x < y {
            Place::Before
        } else if x == y {
            Place::Same
        } else {
            Place::After
        },
        (IpAddr::V4(_), IpAddr::V6(_)) => Place::Before,
        (IpAddr::V6(_), IpAddr::V4(_)) => Place::After,
        (IpAddr::V6(x), IpAddr::V6(y)) => if x < y {
            Place::Before
        } else if x == y {
            Place::Same
        } else {
            Place::After
        },
    }
}

fn rank_of(p: Protocol) -> (n: u8)
    ensures
        n == protocol_rank(p),
{
    match p {
        Protocol::Tcp => 0,
        Protocol::Udp => 1,
        Protocol::Icmp => 2,
        Protocol::Other => 3,
    }
}

fn comes_before(a: &FiveTuple, b: &FiveTuple) -> (yes: bool)
    ensures
        yes == precedes(*a, *b),
{
    match place_ip(a.src_ip, b.src_ip) {
        Place::Before => true,
        Place::After => false,
        Place::Same => match place_ip(a.dst_ip, b.dst_ip) {
            Place::Before => true,
            Place::After => false,
            Place::Same => a.src_port < b.src_port || (a.src_port == b.src_port && (a.dst_port
                < b.dst_port || (a.dst_port == b.dst_port && rank_of(a.protocol) < rank_of(
                b.protocol,
            )))),
        },
    }
}

/// The rows of a table: each key once, in order.
pub open spec fn in_order(rows: Seq<(FiveTuple, FlowStat)>) -> bool {
    forall|i: int, j: int| 0 <= i < j < rows.len() ==> precedes(rows[i].0, rows[j].0)
}

/// Row `i` is the one of `key`.
pub open spec fn row_of(rows: Seq<(FiveTuple, FlowStat)>, key: FiveTuple, i: int) -> bool {
    0 <= i < rows.len() && rows[i].0 == key
}

/// The map that rows stand for.
pub open spec fn rows_map(rows: Seq<(FiveTuple, FlowStat)>) -> Map<FiveTuple, FlowStat> {
    Map::new(
        |key: FiveTuple| exists|i: int| row_of(rows, key, i),
        |key: FiveTuple| rows[choose|i: int| row_of(rows, key, i)].1,
    )
}

/// The counters that `flows` holds for `key`: zeros if it has none.
pub open spec fn stat_or_zero(flows: Map<FiveTuple, FlowStat>, key: FiveTuple) -> FlowStat {
    if flows.contains_key(key) {
        flows[key]
    } else {
        no_traffic()
    }
}

/// The flows of `flows` that were seen lately.
pub open spec fn recent_only(flows: Map<FiveTuple, FlowStat>, now: Duration) -> Map<
    FiveTuple,
    FlowStat,
> {
    Map::new(
        |key: FiveTuple| flows.contains_key(key) && seen_lately(flows[key], now),
        |key: FiveTuple| flows[key],
    )
}

/// `flows` after one more packet of flow `key`. When that leaves too many flows,
/// those not seen lately go.
pub open spec fn after_packet(
    flows: Map<FiveTuple, FlowStat>,
    key: FiveTuple,
    len: u64,
    now: Duration,
) -> Map<FiveTuple, FlowStat> {
    let updated = flows.insert(key, grown(stat_or_zero(flows, key), len, now));
    if updated.len() > MAX_FLOWS {
        recent_only(updated, now)
    } else {
        updated
    }
}

/// The flow of `key` can count one more packet of `len` bytes.
pub open spec fn room_for(flows: Map<FiveTuple, FlowStat>, key: FiveTuple, len: u64) -> bool {
    let stat = stat_or_zero(flows, key);
    stat.packet_count < u64::MAX && stat.byte_count + len <= u64::MAX
}

/// The flows seen lately, with their counters.
pub struct FlowTable {
    entries: Vec<(FiveTuple, FlowStat)>,
}

impl View for FlowTable {
    type V = Map<FiveTuple, FlowStat>;

    open spec fn view(&self) -> Map<FiveTuple, FlowStat> {
        rows_map(self.rows())
    }
}

proof fn same_rank_same_key(a: FiveTuple, b: FiveTuple)
    ensures
        !precedes(a, b) && !precedes(b, a) ==> a == b,
        !precedes(a, a),
{
}

/// In ordered rows, the map has exactly the rows.
pub proof fn map_has_rows(rows: Seq<(FiveTuple, FlowStat)>)
    requires
        in_order(rows),
    ensures
        forall|i: int|
            0 <= i < rows.len() ==> rows_map(rows).contains_key(#[trigger] rows[i].0)
                && rows_map(rows)[rows[i].0] == rows[i].1,
        forall|key: FiveTuple| #[trigger]
            rows_map(rows).contains_key(key) ==> exists|i: int| row_of(rows, key, i),
{
    assert forall|i: int| 0 <= i < rows.len() implies rows_map(rows).contains_key(
        #[trigger] rows[i].0,
    ) && rows_map(rows)[rows[i].0] == rows[i].1 by {
        assert(row_of(rows, rows[i].0, i));
        let j = choose|j: int| row_of(rows, rows[i].0, j);
        if i != j {
            same_rank_same_key(rows[i].0, rows[i].0);
        }
    }
}

/// The flows of rows, in their order.
pub open spec fn row_keys(rows: Seq<(FiveTuple, FlowStat)>) -> Seq<FiveTuple> {
    rows.map_values(|row: (FiveTuple, FlowStat)| row.0)
}

/// Ordered rows stand for a finite map with as many keys as there are rows, each of
/// them the flow of one row.
pub proof fn map_size(rows: Seq<(FiveTuple, FlowStat)>)
    requires
        in_order(rows),
    ensures
        row_keys(rows).no_duplicates(),
        row_keys(rows).to_set() == rows_map(rows).dom(),
        rows_map(rows).dom().finite(),
        rows_map(rows).len() == rows.len(),
{
    map_has_rows(rows);
    let keys = row_keys(rows);
    assert(keys.no_duplicates()) by {
        assert forall|i: int, j: int| 0 <= i < keys.len() && 0 <= j < keys.len() && i != j implies keys[i]
            != keys[j] by {
            same_rank_same_key(keys[i], keys[i]);
            if i < j {
                assert(precedes(rows[i].0, rows[j].0));
            } else {
                assert(precedes(rows[j].0, rows[i].0));
            }
        }
    }
    keys.unique_seq_to_set();
    assert(rows_map(rows).dom() =~= keys.to_set()) by {
        assert forall|key: FiveTuple| keys.to_set().contains(key) implies rows_map(
            rows,
        ).contains_key(key) by {
            let i = choose|i: int| 0 <= i < keys.len() && keys[i] == key;
            assert(rows[i].0 == key);
        }
        assert forall|key: FiveTuple| rows_map(rows).contains_key(key) implies keys.to_set().contains(
            key,
        ) by {
            let i = choose|i: int| row_of(rows, key, i);
            assert(keys[i] == key);
        }
    }
}

impl FlowTable {
    /// The flows with their counters, in the order of the table.
    pub closed spec fn rows(&self) -> Seq<(FiveTuple, FlowStat)> {
        self.entries@
    }

    /// Each flow has one row, and the rows are in order.
    pub open spec fn wf(&self) -> bool {
        in_order(self.rows())
    }

    /// A table without flows.
    pub fn new() -> (table: FlowTable)
        ensures
            table.wf(),
            table@ == Map::<FiveTuple, FlowStat>::empty(),
            table.rows() == Seq::<(FiveTuple, FlowStat)>::empty(),
    {
        let table = FlowTable { entries: Vec::new() };
        proof {
            map_has_rows(table.rows());
            assert(table@ =~= Map::<FiveTuple, FlowStat>::empty());
        }
        table
    }

    /// The number of flows.
    pub fn len(&self) -> (n: usize)
        requires
            self.wf(),
        ensures
            n == self@.len(),
            n == self.rows().len(),
    {
        proof {
            map_size(self.rows());
        }
        self.entries.len()
    }

    /// The number of rows.
    pub fn row_count(&self) -> (n: usize)
        ensures
            n == self.rows().len(),
    {
        self.entries.len()
    }

    /// The `i`-th flow with its counters.
    pub fn row(&self, i: usize) -> (row: (FiveTuple, FlowStat))
        requires
            i < self.rows().len(),
        ensures
            row == self.rows()[i as int],
    {
        self.entries[i]
    }

    /// The row of `key`, or the place where it belongs.
    fn find(&self, key: &FiveTuple) -> (r: (bool, usize))
        requires
            self.wf(),
        ensures
            r.1 <= self.rows().len(),
            r.0 ==> row_of(self.rows(), *key, r.1 as int),
            !r.0 ==> (forall|j: int| 0 <= j < r.1 ==> precedes(self.rows()[j].0, *key)) && (forall|
                j: int,
            |
                r.1 <= j < self.rows().len() ==> precedes(*key, self.rows()[j].0)),
    {
        let mut lo: usize = 0;
        let mut hi: usize = self.entries.len();
        while lo < hi
            invariant
                self.wf(),
                lo <= hi <= self.rows().len(),
                forall|j: int| 0 <= j < lo ==> precedes(self.rows()[j].0, *key),
                forall|j: int| hi <= j < self.rows().len() ==> precedes(*key, self.rows()[j].0),
            decreases hi - lo,
        {
            let mid: usize = lo + (hi - lo) / 2;
            let probe = self.entries[mid].0;
            if comes_before(&probe, key) {
                proof {
                    assert forall|j: int| 0 <= j <= mid implies precedes(
                        self.rows()[j].0,
                        *key,
                    ) by {
                        assert(j < mid ==> precedes(self.rows()[j].0, probe));
                    }
                }
                lo = mid + 1;
            } else if comes_before(key, &probe) {
                proof {
                    assert forall|j: int| mid <= j < self.rows().len() implies precedes(
                        *key,
                        self.rows()[j].0,
                    ) by {
                        assert(mid < j ==> precedes(probe, self.rows()[j].0));
                    }
                }
                hi = mid;
            } else {
                proof {
                    same_rank_same_key(probe, *key);
                }
                return (true, mid);
            }
        }
        (false, lo)
    }

    /// The counters of `key`, if the table has that flow.
    pub fn get(&self, key: &FiveTuple) -> (stat: Option<FlowStat>)
        requires
            self.wf(),
        ensures
            stat == (if self@.contains_key(*key) {
                Some(self@[*key])
            } else {
                None
            }),
    {
        let (found, at) = self.find(key);
        proof {
            map_has_rows(self.rows());
        }
        if found {
            Some(self.entries[at].1)
        } else {
            proof {
                if self@.contains_key(*key) {
                    let i = choose|i: int| row_of(self.rows(), *key, i);
                    same_rank_same_key(*key, *key);
                }
            }
            None
        }
    }

    /// Sets the counters of `key`.
    pub fn insert(&mut self, key: FiveTuple, stat: FlowStat)
        requires
            old(self).wf(),
        ensures
            final(self).wf(),
            final(self)@ == old(self)@.insert(key, stat),
    {
        let (found, at) = self.find(&key);
        let ghost before = self.rows();
        proof {
            map_has_rows(before);
        }
        if found {
            self.entries.set(at, (key, stat));
            proof {
                assert(self.rows() == before.update(at as int, (key, stat)));
                assert forall|i: int, j: int| 0 <= i < j < self.rows().len() implies precedes(
                    self.rows()[i].0,
                    self.rows()[j].0,
                ) by {
                    assert(precedes(before[i].0, before[j].0));
                }
            }
        } else {
            self.entries.insert(at, (key, stat));
            proof {
                assert(self.rows() == before.insert(at as int, (key, stat)));
                assert forall|i: int, j: int| 0 <= i < j < self.rows().len() implies precedes(
                    self.rows()[i].0,
                    self.rows()[j].0,
                ) by {
                    if i < at && at < j {
                        assert(precedes(before[i].0, before[j - 1].0));
                    } else if at < i {
                        assert(precedes(before[i - 1].0, before[j - 1].0));
                    } else if j < at {
                        assert(precedes(before[i].0, before[j].0));
                    }
                }
            }
        }
        proof {
            let after = self.rows();
            map_has_rows(after);
            assert forall|k: FiveTuple| rows_map(after).contains_key(k) <==> #[trigger] rows_map(
                before,
            ).insert(key, stat).contains_key(k) by {
                if rows_map(after).contains_key(k) {
                    let i = choose|i: int| row_of(after, k, i);
                    if i < at || found {
                        assert(i != at ==> before[i] == after[i]);
                    } else if i > at {
                        assert(before[i - 1] == after[i]);
                    }
                }
                if rows_map(before).contains_key(k) {
                    let i = choose|i: int| row_of(before, k, i);
                    if i < at || found {
                        assert(after[i].0 == k);
                    } else {
                        assert(after[i + 1].0 == k);
                    }
                }
                assert(after[at as int].0 == key);
            }
            assert forall|k: FiveTuple| #[trigger] rows_map(after).contains_key(k) implies rows_map(
                after,
            )[k] == rows_map(before).insert(key, stat)[k] by {
                let i = choose|i: int| row_of(after, k, i);
                same_rank_same_key(key, key);
                if i == at {
                    assert(after[i].0 == key);
                } else if i < at || found {
                    assert(before[i] == after[i]);
                    assert(i < at ==> precedes(after[i].0, after[at as int].0));
                    assert(at < i ==> precedes(after[at as int].0, after[i].0));
                } else {
                    assert(before[i - 1] == after[i]);
                    assert(precedes(after[at as int].0, after[i].0));
                }
            }
            assert(rows_map(after) =~= rows_map(before).insert(key, stat));
        }
    }

    /// Drops the flows that were not seen lately.
    fn keep_recent(&mut self, now: Duration)
        requires
            old(self).wf(),
        ensures
            final(self).wf(),
            final(self)@ == recent_only(old(self)@, now),
    {
        let ghost before = self.rows();
        let mut kept: Vec<(FiveTuple, FlowStat)> = Vec::new();
        let mut i: usize = 0;
        let nanos: u128 = nanos_of(&now);
        while i < self.entries.len()
            invariant
                i <= self.entries.len(),
                self.entries@ == before,
                in_order(before),
                in_order(kept@),
                nanos == duration_nanos(now),
                forall|a: int|
                    0 <= a < kept@.len() ==> exists|b: int|
                        0 <= b < i && #[trigger] before[b] == #[trigger] kept@[a] && seen_lately(
                            before[b].1,
                            now,
                        ),
                forall|b: int|
                    0 <= b < i && seen_lately(#[trigger] before[b].1, now) ==> exists|a: int|
                        0 <= a < kept@.len() && kept@[a] == before[b],
            decreases self.entries.len() - i,
        {
            let row = self.entries[i];
            let lately = match row.1.last_seen {
                Some(seen) => nanos < nanos_of(&seen) + FLOW_LIFETIME_SECS as u128 * NANOS_PER_SEC,
                None => false,
            };
            if lately {
                let ghost kept_before = kept@;
                kept.push(row);
                proof {
                    assert forall|a: int, c: int| 0 <= a < c < kept@.len() implies precedes(
                        kept@[a].0,
                        kept@[c].0,
                    ) by {
                        if c == kept_before.len() {
                            let b = choose|b: int|
                                0 <= b < i && before[b] == kept_before[a] && seen_lately(
                                    before[b].1,
                                    now,
                                );
                            assert(precedes(before[b].0, before[i as int].0));
                        } else {
                            assert(precedes(kept_before[a].0, kept_before[c].0));
                        }
                    }
                    assert forall|b: int|
                        0 <= b < i + 1 && seen_lately(
                            #[trigger] before[b].1,
                            now,
                        ) implies exists|a: int| 0 <= a < kept@.len() && kept@[a] == before[b] by {
                        if b == i {
                            assert(kept@[kept_before.len() as int] == before[b]);
                        } else {
                            let a = choose|a: int|
                                0 <= a < kept_before.len() && kept_before[a] == before[b];
                            assert(kept@[a] == before[b]);
                        }
                    }
                    assert forall|a: int| 0 <= a < kept@.len() implies exists|b: int|
                        0 <= b < i + 1 && #[trigger] before[b] == #[trigger] kept@[a]
                            && seen_lately(before[b].1, now) by {
                        if a == kept_before.len() {
                            assert(before[i as int] == kept@[a]);
                        } else {
                            assert(kept@[a] == kept_before[a]);
                        }
                    }
                }
            }
            i = i + 1;
        }
        self.entries = kept;
        proof {
            map_has_rows(before);
            map_has_rows(self.rows());
            let after = self.rows();
            assert forall|k: FiveTuple| #[trigger] rows_map(after).contains_key(k) <==> recent_only(
                rows_map(before),
                now,
            ).contains_key(k) by {
                if rows_map(after).contains_key(k) {
                    let a = choose|a: int| row_of(after, k, a);
                    let b = choose|b: int|
                        0 <= b < before.len() && before[b] == after[a] && seen_lately(
                            before[b].1,
                            now,
                        );
                    assert(rows_map(before)[before[b].0] == before[b].1);
                }
                if recent_only(rows_map(before), now).contains_key(k) {
                    let b = choose|b: int| row_of(before, k, b);
                    assert(seen_lately(before[b].1, now));
                    let a = choose|a: int| 0 <= a < after.len() && after[a] == before[b];
                    assert(after[a].0 == k);
                }
            }
            assert forall|k: FiveTuple| #[trigger] rows_map(after).contains_key(k) implies rows_map(
                after,
            )[k] == rows_map(before)[k] by {
                let a = choose|a: int| row_of(after, k, a);
                let b = choose|b: int| 0 <= b < before.len() && before[b] == after[a];
                assert(rows_map(before)[before[b].0] == before[b].1);
            }
            assert(rows_map(after) =~= recent_only(rows_map(before), now));
        }
    }

    /// Whether the flow of `key` can count one more packet of `raw_len` bytes.
    pub fn has_room(&self, key: &FiveTuple, raw_len: u64) -> (yes: bool)
        requires
            self.wf(),
        ensures
            yes == room_for(self@, *key, raw_len),
    {
        match self.get(key) {
            Some(stat) => stat.packet_count < u64::MAX && stat.byte_count <= u64::MAX - raw_len,
            None => true,
        }
    }

    /// Counts one more packet of `raw_len` bytes for the flow of `key`, seen at `now`,
    /// and drops the flows that were not seen lately if there are too many.
    pub fn touch(&mut self, key: FiveTuple, raw_len: u64, now: Duration)
        requires
            old(self).wf(),
            room_for(old(self)@, key, raw_len),
        ensures
            final(self).wf(),
            final(self)@ == after_packet(old(self)@, key, raw_len, now),
    {
        let stat = match self.get(&key) {
            Some(stat) => stat,
            None => FlowStat { packet_count: 0, byte_count: 0, last_seen: None },
        };
        self.insert(
            key,
            FlowStat {
                packet_count: stat.packet_count + 1,
                byte_count: stat.byte_count + raw_len,
                last_seen: Some(now),
            },
        );
        if self.len() > MAX_FLOWS {
            self.keep_recent(now);
        }
    }
}

impl Default for FlowTable {
    /// A table without flows.
    fn default() -> (table: FlowTable)
        ensures
            table.wf(),
            table@ == Map::<FiveTuple, FlowStat>::empty(),
    {
        FlowTable::new()
    }
}

/// The flow that a packet belongs to is always in the table afterwards, with that
/// packet counted and the time of the packet as its last.
pub proof fn packet_is_always_counted(
    flows: Map<FiveTuple, FlowStat>,
    key: FiveTuple,
    len: u64,
    now: Duration,
)
    requires
        room_for(flows, key, len),
    ensures
        after_packet(flows, key, len, now).contains_key(key),
        after_packet(flows, key, len, now)[key] == grown(stat_or_zero(flows, key), len, now),
{
}

/// A packet changes no other flow, and makes another flow disappear only if that
/// one was not seen lately.
pub proof fn packet_leaves_other_flows_alone(
    flows: Map<FiveTuple, FlowStat>,
    key: FiveTuple,
    len: u64,
    now: Duration,
    other: FiveTuple,
)
    requires
        other != key,
    ensures
        after_packet(flows, key, len, now).contains_key(other) ==> flows.contains_key(other)
            && after_packet(flows, key, len, now)[other] == flows[other],
        flows.contains_key(other) && seen_lately(flows[other], now) ==> after_packet(
            flows,
            key,
            len,
            now,
        ).contains_key(other),
{
}

/// After every packet either the table is within its limit or every flow in it was
/// seen lately.
pub proof fn table_is_small_or_fresh(
    flows: Map<FiveTuple, FlowStat>,
    key: FiveTuple,
    len: u64,
    now: Duration,
)
    ensures
        ({
            let after = after_packet(flows, key, len, now);
            after.len() <= MAX_FLOWS || forall|k: FiveTuple| #[trigger]
                after.contains_key(k) ==> seen_lately(after[k], now)
        }),
{
}

/// `a + b`, but never more than a counter holds.
pub open spec fn capped(a: u64, b: u64) -> u64 {
    if a + b > u64::MAX {
        u64::MAX
    } else {
        (a + b) as u64
    }
}

/// The later of two sightings.
pub open spec fn later(a: Option<Duration>, b: Option<Duration>) -> Option<Duration> {
    match (a, b) {
        (Some(x), Some(y)) => if duration_nanos(x) >= duration_nanos(y) {
            a
        } else {
            b
        },
        (Some(_), None) => a,
        (None, _) => b,
    }
}

/// The counters of one flow seen in two places.
pub open spec fn joined(a: FlowStat, b: FlowStat) -> FlowStat {
    FlowStat {
        packet_count: capped(a.packet_count, b.packet_count),
        byte_count: capped(a.byte_count, b.byte_count),
        last_seen: later(a.last_seen, b.last_seen),
    }
}

/// The flows of two tables; a flow in both adds up.
pub open spec fn merged(a: Map<FiveTuple, FlowStat>, b: Map<FiveTuple, FlowStat>) -> Map<
    FiveTuple,
    FlowStat,
> {
    Map::new(
        |key: FiveTuple| a.contains_key(key) || b.contains_key(key),
        |key: FiveTuple|
            if a.contains_key(key) && b.contains_key(key) {
                joined(a[key], b[key])
            } else if a.contains_key(key) {
                a[key]
            } else {
                b[key]
            },
    )
}

fn capped_sum(a: u64, b: u64) -> (sum: u64)
    ensures
        sum == capped(a, b),
{
    if a > u64::MAX - b {
        u64::MAX
    } else {
        a + b
    }
}

fn later_of(a: Option<Duration>, b: Option<Duration>) -> (d: Option<Duration>)
    ensures
        d == later(a, b),
{
    match (a, b) {
        (Some(x), Some(y)) => if nanos_of(&x) >= nanos_of(&y) {
            a
        } else {
            b
        },
        (Some(_), None) => a,
        (None, _) => b,
    }
}

/// One more row is one more key.
proof fn map_of_next_row(rows: Seq<(FiveTuple, FlowStat)>, i: int)
    requires
        in_order(rows),
        0 <= i < rows.len(),
    ensures
        rows_map(rows.take(i + 1)) == rows_map(rows.take(i)).insert(rows[i].0, rows[i].1),
        !rows_map(rows.take(i)).contains_key(rows[i].0),
{
    let (a, b) = (rows.take(i), rows.take(i + 1));
    assert(in_order(a)) by {
        assert forall|j: int, k: int| 0 <= j < k < a.len() implies precedes(a[j].0, a[k].0) by {
            assert(precedes(rows[j].0, rows[k].0));
        }
    }
    assert(in_order(b)) by {
        assert forall|j: int, k: int| 0 <= j < k < b.len() implies precedes(b[j].0, b[k].0) by {
            assert(precedes(rows[j].0, rows[k].0));
        }
    }
    map_has_rows(a);
    map_has_rows(b);
    assert forall|key: FiveTuple| #[trigger] rows_map(b).contains_key(key) <==> rows_map(a).insert(
        rows[i].0,
        rows[i].1,
    ).contains_key(key) by {
        if rows_map(b).contains_key(key) {
            let j = choose|j: int| row_of(b, key, j);
            if j < i {
                assert(a[j].0 == key);
            }
        }
        if rows_map(a).contains_key(key) {
            let j = choose|j: int| row_of(a, key, j);
            assert(b[j].0 == key);
        }
        assert(b[i].0 == rows[i].0);
    }
    assert forall|key: FiveTuple| #[trigger] rows_map(b).contains_key(key) implies rows_map(b)[key]
        == rows_map(a).insert(rows[i].0, rows[i].1)[key] by {
        let j = choose|j: int| row_of(b, key, j);
        assert(rows_map(b)[b[j].0] == b[j].1);
        if j < i {
            assert(a[j].0 == key && rows_map(a)[a[j].0] == a[j].1);
            same_rank_same_key(key, key);
            assert(precedes(rows[j].0, rows[i].0));
        }
    }
    assert(rows_map(b) =~= rows_map(a).insert(rows[i].0, rows[i].1));
    if rows_map(a).contains_key(rows[i].0) {
        let j = choose|j: int| row_of(a, rows[i].0, j);
        same_rank_same_key(rows[i].0, rows[i].0);
        assert(precedes(rows[j].0, rows[i].0));
    }
}

impl FlowTable {
    /// Takes over the flows of `other`; a flow in both adds up.
    pub fn absorb(&mut self, other: &FlowTable)
        requires
            old(self).wf(),
            other.wf(),
        ensures
            final(self).wf(),
            final(self)@ == merged(old(self)@, other@),
    {
        let ghost start = self@;
        let ghost rows = other.rows();
        let mut i: usize = 0;
        proof {
            map_has_rows(rows.take(0));
            assert(merged(start, rows_map(rows.take(0))) =~= start);
        }
        while i < other.entries.len()
            invariant
                i <= rows.len(),
                rows == other.entries@,
                in_order(rows),
                self.wf(),
                self@ == merged(start, rows_map(rows.take(i as int))),
            decreases other.entries.len() - i,
        {
            let (key, stat) = other.entries[i];
            proof {
                map_of_next_row(rows, i as int);
            }
            let sum = match self.get(&key) {
                Some(mine) => FlowStat {
                    packet_count: capped_sum(mine.packet_count, stat.packet_count),
                    byte_count: capped_sum(mine.byte_count, stat.byte_count),
                    last_seen: later_of(mine.last_seen, stat.last_seen),
                },
                None => stat,
            };
            let ghost before = self@;
            self.insert(key, sum);
            proof {
                let (part, more) = (rows_map(rows.take(i as int)), rows_map(rows.take(i + 1)));
                assert(merged(start, more) =~= merged(start, part).insert(key, sum));
            }
            i = i + 1;
        }
        proof {
            assert(rows.take(rows.len() as int) =~= rows);
        }
    }
}

impl Clone for FlowTable {
    fn clone(&self) -> (copy: FlowTable)
        ensures
            copy.rows() == self.rows(),
    {
        let mut entries: Vec<(FiveTuple, FlowStat)> = Vec::new();
        let mut i: usize = 0;
        while i < self.entries.len()
            invariant
                i <= self.entries@.len(),
                entries@ == self.entries@.take(i as int),
            decreases self.entries.len() - i,
        {
            entries.push(self.entries[i]);
            assert(self.entries@.take(i + 1) =~= self.entries@.take(i as int).push(
                self.entries@[i as int],
            ));
            i = i + 1;
        }
        assert(self.entries@.take(self.entries@.len() as int) =~= self.entries@);
        FlowTable { entries }
    }
}

/// Merging adds up and never lists a flow twice: a flow of both tables has the sum
/// of its counters, and merging in nothing changes nothing.
pub proof fn merging_adds_up(a: Map<FiveTuple, FlowStat>, b: Map<FiveTuple, FlowStat>, key: FiveTuple)
    requires
        a.contains_key(key),
        b.contains_key(key),
        a[key].byte_count + b[key].byte_count <= u64::MAX,
        a[key].packet_count + b[key].packet_count <= u64::MAX,
    ensures
        merged(a, b)[key].byte_count == a[key].byte_count + b[key].byte_count,
        merged(a, b)[key].packet_count == a[key].packet_count + b[key].packet_count,
        merged(a, b).dom() == a.dom().union(b.dom()),
        merged(a, Map::empty()) == a,
{
    assert(merged(a, b).dom() =~= a.dom().union(b.dom()));
    assert(merged(a, Map::empty()) =~= a);
}

/// Each class has its own name.
pub proof fn classes_are_named()
    ensures
        Protocol::Tcp.name() == "TCP"@,
        Protocol::Udp.name() == "UDP"@,
        Protocol::Icmp.name() == "ICMP"@,
        Protocol::Other.name() == "OUTRO"@,
{
}

/// A packet adds one to the packets of its flow and its length to the bytes, and the
/// flow was last seen when the packet came. A flow that was not there starts from
/// nothing.
pub proof fn packets_add_to_their_flow(
    flows: Map<FiveTuple, FlowStat>,
    key: FiveTuple,
    len: u64,
    now: Duration,
)
    requires
        room_for(flows, key, len),
    ensures
        ({
            let after = after_packet(flows, key, len, now)[key];
            &&& after.last_seen == Some(now)
            &&& flows.contains_key(key) ==> after.packet_count == flows[key].packet_count + 1
                && after.byte_count == flows[key].byte_count + len
            &&& !flows.contains_key(key) ==> after.packet_count == 1 && after.byte_count == len
        }),
{
}

/// Flows go only when a packet leaves more than ten thousand of them. Then exactly
/// those go that were last seen three hundred seconds before the packet or earlier, or
/// never.
pub proof fn stale_flows_go_when_there_are_too_many(
    flows: Map<FiveTuple, FlowStat>,
    key: FiveTuple,
    len: u64,
    now: Duration,
    other: FiveTuple,
)
    requires
        flows.contains_key(other),
        other != key,
    ensures
        ({
            let kept = after_packet(flows, key, len, now).contains_key(other);
            let fresh = flows[other].last_seen is Some && duration_nanos(now) < duration_nanos(
                flows[other].last_seen->0,
            ) + 300_000_000_000;
            if flows.dom().insert(key).len() > 10_000 {
                kept <==> fresh
            } else {
                kept
            }
        }),
{
    let stat = grown(stat_or_zero(flows, key), len, now);
    assert(flows.insert(key, stat).dom() =~= flows.dom().insert(key));
}

/// A merged flow has the packets and bytes of both tables, as far as a counter goes,
/// and was last seen at the later time. A flow of one table alone stays as it is, and
/// no other flow is there.
pub proof fn merging_keeps_and_adds(
    a: Map<FiveTuple, FlowStat>,
    b: Map<FiveTuple, FlowStat>,
    key: FiveTuple,
)
    ensures
        merged(a, b).contains_key(key) <==> a.contains_key(key) || b.contains_key(key),
        a.contains_key(key) && !b.contains_key(key) ==> merged(a, b)[key] == a[key],
        b.contains_key(key) && !a.contains_key(key) ==> merged(a, b)[key].packet_count
            == b[key].packet_count && merged(a, b)[key].byte_count == b[key].byte_count && merged(
            a,
            b,
        )[key].last_seen == b[key].last_seen,
        a.contains_key(key) && b.contains_key(key) ==> {
            let (x, y, z) = (a[key], b[key], merged(a, b)[key]);
            &&& x.packet_count + y.packet_count <= u64::MAX ==> z.packet_count == x.packet_count
                + y.packet_count
            &&& x.packet_count + y.packet_count > u64::MAX ==> z.packet_count == u64::MAX
            &&& x.byte_count + y.byte_count <= u64::MAX ==> z.byte_count == x.byte_count
                + y.byte_count
            &&& x.byte_count + y.byte_count > u64::MAX ==> z.byte_count == u64::MAX
            &&& (z.last_seen == x.last_seen || z.last_seen == y.last_seen)
            &&& x.last_seen is Some ==> z.last_seen is Some && duration_nanos(x.last_seen->0)
                <= duration_nanos(z.last_seen->0)
            &&& y.last_seen is Some ==> z.last_seen is Some && duration_nanos(y.last_seen->0)
                <= duration_nanos(z.last_seen->0)
        },
{
}

/// A flow that is not in the table yet has room for any packet, and one that is there
/// as long as its counters do not overflow.
pub proof fn flows_have_room_up_to_the_limit(
    flows: Map<FiveTuple, FlowStat>,
    key: FiveTuple,
    len: u64,
)
    ensures
        !flows.dom().contains(key) ==> room_for(flows, key, len),
        flows.dom().contains(key) ==> (room_for(flows, key, len) <==> flows[key].packet_count + 1
            <= u64::MAX && flows[key].byte_count + len <= u64::MAX),
{
}

} // verus!
