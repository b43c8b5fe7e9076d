//! Passive capture: counters per protocol class, flows, and the choice of an
//! interface.

use crate::flows::{after_packet, merged, room_for, FiveTuple, FlowStat, FlowTable, IpAddr, Protocol};
use crate::packet::{decode_frame, flow_of, flow_tuple, record_of, FrameRecord};
use crate::ping::reads_as;
use crate::text::{list_items, split_list, texts};
use std::sync::Arc;
use std::time::Duration;
use vstd::prelude::*;

verus! {

/// `a + b` modulo 2^64, as a counter that wraps around.
pub open spec fn wrapped(a: u64, b: u64) -> u64 {
    if a + b > u64::MAX {
        (a + b - 0x1_0000_0000_0000_0000) as u64
    } else {
        (a + b) as u64
    }
}

/// Bytes and packets per protocol class, as they stand.
#[derive(Debug, Clone, Copy)]
pub struct ProtocolCounters {
    pub tcp_bytes: u64,
    pub tcp_packets: u64,
    pub udp_bytes: u64,
    pub udp_packets: u64,
    pub icmp_bytes: u64,
    pub icmp_packets: u64,
    pub other_bytes: u64,
    pub other_packets: u64,
}

/// Bytes and packets per protocol class at one moment.
#[derive(Debug, Clone, Copy)]
pub struct ProtocolSnapshot {
    pub tcp_bytes: u64,
    pub tcp_packets: u64,
    pub udp_bytes: u64,
    pub udp_packets: u64,
    pub icmp_bytes: u64,
    pub icmp_packets: u64,
    pub other_bytes: u64,
    pub other_packets: u64,
}

impl Default for ProtocolCounters {
    /// All zeros.
    fn default() -> (counters: ProtocolCounters)
        ensures
            forall|p: Protocol| #[trigger] counters.bytes(p) == 0,
            forall|p: Protocol| #[trigger] counters.packets(p) == 0,
    {
        ProtocolCounters {
            tcp_bytes: 0,
            tcp_packets: 0,
            udp_bytes: 0,
            udp_packets: 0,
            icmp_bytes: 0,
            icmp_packets: 0,
            other_bytes: 0,
            other_packets: 0,
        }
    }
}

impl Default for ProtocolSnapshot {
    /// All zeros.
    fn default() -> (snapshot: ProtocolSnapshot)
        ensures
            forall|p: Protocol| #[trigger] snapshot.bytes(p) == 0,
            forall|p: Protocol| #[trigger] snapshot.packets(p) == 0,
    {
        ProtocolSnapshot {
            tcp_bytes: 0,
            tcp_packets: 0,
            udp_bytes: 0,
            udp_packets: 0,
            icmp_bytes: 0,
            icmp_packets: 0,
            other_bytes: 0,
            other_packets: 0,
        }
    }
}

impl ProtocolSnapshot {
    /// Bytes counted for a class.
    pub open spec fn bytes(self, p: Protocol) -> u64 {
        match p {
            Protocol::Tcp => self.tcp_bytes,
            Protocol::Udp => self.udp_bytes,
            Protocol::Icmp => self.icmp_bytes,
            Protocol::Other => self.other_bytes,
        }
    }

    /// Packets counted for a class.
    pub open spec fn packets(self, p: Protocol) -> u64 {
        match p {
            Protocol::Tcp => self.tcp_packets,
            Protocol::Udp => self.udp_packets,
            Protocol::Icmp => self.icmp_packets,
            Protocol::Other => self.other_packets,
        }
    }
}

impl ProtocolCounters {
    /// Bytes counted for a class.
    pub open spec fn bytes(self, p: Protocol) -> u64 {
        match p {
            Protocol::Tcp => self.tcp_bytes,
            Protocol::Udp => self.udp_bytes,
            Protocol::Icmp => self.icmp_bytes,
            Protocol::Other => self.other_bytes,
        }
    }

    /// Packets counted for a class.
    pub open spec fn packets(self, p: Protocol) -> u64 {
        match p {
            Protocol::Tcp => self.tcp_packets,
            Protocol::Udp => self.udp_packets,
            Protocol::Icmp => self.icmp_packets,
            Protocol::Other => self.other_packets,
        }
    }

    /// The counters as a snapshot.
    pub open spec fn as_snapshot(self) -> ProtocolSnapshot {
        ProtocolSnapshot {
            tcp_bytes: self.tcp_bytes,
            tcp_packets: self.tcp_packets,
            udp_bytes: self.udp_bytes,
            udp_packets: self.udp_packets,
            icmp_bytes: self.icmp_bytes,
            icmp_packets: self.icmp_packets,
            other_bytes: self.other_bytes,
            other_packets: self.other_packets,
        }
    }

    /// `self` is `before` with one more packet of `len` bytes in class `p`.
    pub open spec fn counts_one_more(self, before: ProtocolCounters, p: Protocol, len: u64) -> bool {
        forall|q: Protocol|
            {
                &&& #[trigger] self.bytes(q) == (if q == p {
                    wrapped(before.bytes(q), len)
                } else {
                    before.bytes(q)
                })
                &&& self.packets(q) == (if q == p {
                    wrapped(before.packets(q), 1)
                } else {
                    before.packets(q)
                })
            }
    }

    /// Counts one packet of `raw_len` bytes in class `protocol`.
    pub fn count(&mut self, protocol: Protocol, raw_len: u64)
        ensures
            final(self).counts_one_more(*old(self), protocol, raw_len),
    {
        match protocol {
            Protocol::Tcp => {
                self.tcp_bytes = self.tcp_bytes.wrapping_add(raw_len);
                self.tcp_packets = self.tcp_packets.wrapping_add(1);
            },
            Protocol::Udp => {
                self.udp_bytes = self.udp_bytes.wrapping_add(raw_len);
                self.udp_packets = self.udp_packets.wrapping_add(1);
            },
            Protocol::Icmp => {
                self.icmp_bytes = self.icmp_bytes.wrapping_add(raw_len);
                self.icmp_packets = self.icmp_packets.wrapping_add(1);
            },
            Protocol::Other => {
                self.other_bytes = self.other_bytes.wrapping_add(raw_len);
                self.other_packets = self.other_packets.wrapping_add(1);
            },
        }
    }

    /// Counts one captured frame in its class, whatever flow it belongs to. A frame
    /// that is not IP counts in the class of the rest; one too short to tell counts
    /// nowhere.
    pub fn count_frame(&mut self, frame: &[u8])
        requires
            frame@.len() <= u64::MAX,
        ensures
            match record_of(frame@) {
                FrameRecord::Ignored => *final(self) == *old(self),
                FrameRecord::NonIp => final(self).counts_one_more(
                    *old(self),
                    Protocol::Other,
                    frame@.len() as u64,
                ),
                FrameRecord::Flow(tuple) => final(self).counts_one_more(
                    *old(self),
                    tuple.protocol,
                    frame@.len() as u64,
                ),
            },
    {
        match decode_frame(frame) {
            FrameRecord::Ignored => {},
            FrameRecord::NonIp => {
                self.count(Protocol::Other, frame.len() as u64);
            },
            FrameRecord::Flow(tuple) => {
                self.count(tuple.protocol, frame.len() as u64);
            },
        }
    }

    /// The counters at this moment.
    pub fn snapshot(&self) -> (snapshot: ProtocolSnapshot)
        ensures
            snapshot == self.as_snapshot(),
    {
        ProtocolSnapshot {
            tcp_bytes: self.tcp_bytes,
            tcp_packets: self.tcp_packets,
            udp_bytes: self.udp_bytes,
            udp_packets: self.udp_packets,
            icmp_bytes: self.icmp_bytes,
            icmp_packets: self.icmp_packets,
            other_bytes: self.other_bytes,
            other_packets: self.other_packets,
        }
    }
}

/// Everything counted on one interface.
pub struct TrafficMetrics {
    pub global_protocols: ProtocolCounters,
    pub flows: FlowTable,
}

impl Default for TrafficMetrics {
    /// Nothing counted yet.
    fn default() -> (metrics: TrafficMetrics)
        ensures
            metrics.wf(),
            metrics.is_fresh(),
    {
        TrafficMetrics { global_protocols: ProtocolCounters::default(), flows: FlowTable::new() }
    }
}

/// A frame that arrived: what it counts as, its length and its time.
pub struct Arrival {
    pub record: FrameRecord,
    pub len: u64,
    pub at: Duration,
}

impl TrafficMetrics {
    /// Nothing is counted yet.
    pub open spec fn is_fresh(&self) -> bool {
        &&& self.flows@ == Map::<FiveTuple, FlowStat>::empty()
        &&& forall|p: Protocol| #[trigger] self.global_protocols.bytes(p) == 0
        &&& forall|p: Protocol| #[trigger] self.global_protocols.packets(p) == 0
    }

    /// The flow of the frame, if it has one, can count it.
    pub open spec fn has_room(&self, arrival: Arrival) -> bool {
        match arrival.record {
            FrameRecord::Flow(tuple) => room_for(self.flows@, tuple, arrival.len),
            _ => true,
        }
    }

    /// `self` is `before` with one more frame counted: in the class and the flow of a
    /// packet, in the class of the rest if it is not IP, and nowhere if it is too
    /// short to tell.
    pub open spec fn counts(&self, before: TrafficMetrics, arrival: Arrival) -> bool {
        match arrival.record {
            FrameRecord::Ignored => *self == before,
            FrameRecord::NonIp => {
                &&& self.global_protocols.counts_one_more(
                    before.global_protocols,
                    Protocol::Other,
                    arrival.len,
                )
                &&& self.flows == before.flows
            },
            FrameRecord::Flow(tuple) => {
                &&& self.global_protocols.counts_one_more(
                    before.global_protocols,
                    tuple.protocol,
                    arrival.len,
                )
                &&& self.flows@ == after_packet(before.flows@, tuple, arrival.len, arrival.at)
            },
        }
    }

    /// The flow table is well-formed.
    pub open spec fn wf(&self) -> bool {
        self.flows.wf()
    }

    /// Counts one packet of `raw_len` bytes of flow `tuple`, seen at `now`: in its
    /// protocol class and in its flow.
    pub fn record(&mut self, tuple: FiveTuple, raw_len: u64, now: Duration)
        requires
            old(self).wf(),
            room_for(old(self).flows@, tuple, raw_len),
        ensures
            final(self).wf(),
            final(self).counts(
                *old(self),
                (Arrival { record: FrameRecord::Flow(tuple), len: raw_len, at: now }),
            ),
    {
        self.global_protocols.count(tuple.protocol, raw_len);
        self.flows.touch(tuple, raw_len, now);
    }
}

/// Bytes of class `p` over all of `metrics`.
pub open spec fn total_bytes(metrics: Seq<Arc<TrafficMetrics>>, p: Protocol) -> u64
    decreases metrics.len(),
{
    if metrics.len() == 0 {
        0
    } else {
        wrapped(total_bytes(metrics.drop_last(), p), metrics.last().global_protocols.bytes(p))
    }
}

/// Packets of class `p` over all of `metrics`.
pub open spec fn total_packets(metrics: Seq<Arc<TrafficMetrics>>, p: Protocol) -> u64
    decreases metrics.len(),
{
    if metrics.len() == 0 {
        0
    } else {
        wrapped(total_packets(metrics.drop_last(), p), metrics.last().global_protocols.packets(p))
    }
}

/// The flows of all of `metrics`; those on several interfaces add up.
pub open spec fn all_flows(metrics: Seq<Arc<TrafficMetrics>>) -> Map<FiveTuple, FlowStat>
    decreases metrics.len(),
{
    if metrics.len() == 0 {
        Map::empty()
    } else {
        merged(all_flows(metrics.drop_last()), metrics.last().flows@)
    }
}

impl ProtocolSnapshot {
    /// The counters of two interfaces together.
    fn plus(&self, other: &ProtocolSnapshot) -> (sum: ProtocolSnapshot)
        ensures
            forall|p: Protocol| #[trigger] sum.bytes(p) == wrapped(self.bytes(p), other.bytes(p)),
            forall|p: Protocol| #[trigger]
                sum.packets(p) == wrapped(self.packets(p), other.packets(p)),
    {
        ProtocolSnapshot {
            tcp_bytes: self.tcp_bytes.wrapping_add(other.tcp_bytes),
            tcp_packets: self.tcp_packets.wrapping_add(other.tcp_packets),
            udp_bytes: self.udp_bytes.wrapping_add(other.udp_bytes),
            udp_packets: self.udp_packets.wrapping_add(other.udp_packets),
            icmp_bytes: self.icmp_bytes.wrapping_add(other.icmp_bytes),
            icmp_packets: self.icmp_packets.wrapping_add(other.icmp_packets),
            other_bytes: self.other_bytes.wrapping_add(other.other_bytes),
            other_packets: self.other_packets.wrapping_add(other.other_packets),
        }
    }
}

impl TrafficMetrics {
    /// The counters of several interfaces together.
    pub fn sum_snapshots(all: &Vec<Arc<TrafficMetrics>>) -> (sum: ProtocolSnapshot)
        ensures
            forall|p: Protocol| #[trigger] sum.bytes(p) == total_bytes(all@, p),
            forall|p: Protocol| #[trigger] sum.packets(p) == total_packets(all@, p),
    {
        let mut sum = ProtocolSnapshot::default();
        let mut i: usize = 0;
        while i < all.len()
            invariant
                i <= all@.len(),
                forall|p: Protocol| #[trigger]
                    sum.bytes(p) == total_bytes(all@.subrange(0, i as int), p),
                forall|p: Protocol| #[trigger]
                    sum.packets(p) == total_packets(all@.subrange(0, i as int), p),
            decreases all.len() - i,
        {
            assert(all@.subrange(0, i + 1).drop_last() =~= all@.subrange(0, i as int));
            let one = all[i].global_protocols.snapshot();
            sum = sum.plus(&one);
            i = i + 1;
        }
        assert(all@.subrange(0, i as int) =~= all@);
        sum
    }

    /// The flows of several interfaces together.
    pub fn merge_flows(all: &Vec<Arc<TrafficMetrics>>) -> (flows: FlowTable)
        requires
            forall|i: int| 0 <= i < all@.len() ==> (#[trigger] all@[i]).wf(),
        ensures
            flows.wf(),
            flows@ == all_flows(all@),
    {
        let mut flows = FlowTable::new();
        let mut i: usize = 0;
        while i < all.len()
            invariant
                i <= all@.len(),
                flows.wf(),
                forall|j: int| 0 <= j < all@.len() ==> (#[trigger] all@[j]).wf(),
                flows@ == all_flows(all@.subrange(0, i as int)),
            decreases all.len() - i,
        {
            assert(all@.subrange(0, i + 1).drop_last() =~= all@.subrange(0, i as int));
            assert(all@[i as int].wf());
            flows.absorb(&all[i].flows);
            i = i + 1;
        }
        assert(all@.subrange(0, i as int) =~= all@);
        flows
    }
}

/// The names, each where it occurs first and nowhere else.
pub open spec fn distinct(names: Seq<Seq<char>>) -> Seq<Seq<char>>
    decreases names.len(),
{
    if names.len() == 0 {
        Seq::empty()
    } else {
        let before = distinct(names.drop_last());
        if before.contains(names.last()) {
            before
        } else {
            before.push(names.last())
        }
    }
}

/// The interfaces that an option names; none if it is absent.
pub open spec fn interface_names(interface: Option<Seq<char>>) -> Seq<Seq<char>> {
    match interface {
        Some(text) => distinct(list_items(text)),
        None => Seq::empty(),
    }
}

/// The text of an option.
pub open spec fn option_text(interface: Option<&str>) -> Option<Seq<char>> {
    match interface {
        Some(text) => Some(text@),
        None => None,
    }
}

fn is_listed(names: &Vec<String>, name: &String) -> (yes: bool)
    ensures
        yes == texts(names@).contains(name@),
{
    let mut i: usize = 0;
    while i < names.len()
        invariant
            i <= names@.len(),
            forall|j: int| 0 <= j < i ==> #[trigger] texts(names@)[j] != name@,
        decreases names.len() - i,
    {
        assert(texts(names@)[i as int] == names@[i as int]@);
        if names[i] == *name {
            return true;
        }
        i = i + 1;
    }
    false
}

/// The interfaces named in a comma-separated option, each once, so that its traffic
/// is not counted twice; none if the option is absent.
pub fn split_interface_spec(interface: Option<&str>) -> (names: Vec<String>)
    ensures
        texts(names@) == interface_names(option_text(interface)),
{
    let mut names: Vec<String> = Vec::new();
    assert(texts(names@) =~= Seq::empty());
    if let Some(text) = interface {
        let items = split_list(text);
        let ghost all = texts(items@);
        let mut i: usize = 0;
        assert(all.take(0) =~= Seq::empty());
        while i < items.len()
            invariant
                i <= items@.len(),
                all == texts(items@),
                texts(names@) == distinct(all.take(i as int)),
            decreases items.len() - i,
        {
            assert(all.take(i + 1).drop_last() =~= all.take(i as int));
            assert(all[i as int] == items@[i as int]@);
            if !is_listed(&names, &items[i]) {
                let ghost before = texts(names@);
                names.push(items[i].clone());
                assert(texts(names@) =~= before.push(all[i as int]));
            }
            i = i + 1;
        }
        assert(all.take(i as int) =~= all);
    }
    names
}

/// Naming an interface twice changes nothing: the interfaces of an option are those
/// that it lists, each once.
pub proof fn interfaces_are_named_once(names: Seq<Seq<char>>)
    ensures
        distinct(names).no_duplicates(),
        forall|name: Seq<char>| distinct(names).contains(name) <==> names.contains(name),
    decreases names.len(),
{
    if names.len() > 0 {
        let (start, end) = (names.drop_last(), names.last());
        interfaces_are_named_once(start);
        let before = distinct(start);
        assert(names[names.len() - 1] == end);
        assert forall|name: Seq<char>| distinct(names).contains(name) <==> names.contains(name) by {
            if names.contains(name) && name != end {
                let i = choose|i: int| 0 <= i < names.len() && names[i] == name;
                assert(start[i] == name);
            }
            if start.contains(name) {
                let i = choose|i: int| 0 <= i < start.len() && start[i] == name;
                assert(names[i] == name);
            }
            if !before.contains(end) {
                let grown = before.push(end);
                assert(grown[before.len() as int] == end);
                if before.contains(name) {
                    let i = choose|i: int| 0 <= i < before.len() && before[i] == name;
                    assert(grown[i] == name);
                }
            }
        }
    }
}

/// The captures to try for an interface option: one for each interface that it
/// names, or a single one on an interface of the watcher's own choice.
pub fn capture_attempts(interface: Option<&str>) -> (attempts: Vec<Option<String>>)
    ensures
        attempt_names(attempts@) == wanted_names(interface_names(option_text(interface))),
{
    let names = split_interface_spec(interface);
    let mut attempts: Vec<Option<String>> = Vec::new();
    if names.len() == 0 {
        attempts.push(None);
        assert(texts(names@) =~= Seq::empty());
        assert(attempt_names(attempts@) =~= wanted_names(Seq::empty()));
        return attempts;
    }
    let mut i: usize = 0;
    while i < names.len()
        invariant
            i <= names@.len(),
            attempts@.len() == i,
            forall|j: int|
                0 <= j < i ==> attempt_names(attempts@)[j] == Some(#[trigger] texts(names@)[j]),
        decreases names.len() - i,
    {
        attempts.push(Some(names[i].clone()));
        i = i + 1;
    }
    assert(attempt_names(attempts@) =~= wanted_names(texts(names@)));
    attempts
}

/// The interfaces of a list of attempts; `None` is one of the watcher's own choice.
pub open spec fn attempt_names(attempts: Seq<Option<String>>) -> Seq<Option<Seq<char>>> {
    attempts.map_values(|a: Option<String>| match a {
        Some(name) => Some(name@),
        None => None,
    })
}

/// What to try when these interfaces were named.
pub open spec fn wanted_names(names: Seq<Seq<char>>) -> Seq<Option<Seq<char>>> {
    if names.len() == 0 {
        seq![None]
    } else {
        names.map_values(|name: Seq<char>| Some(name))
    }
}

/// How an attempt is called in a message.
pub fn attempt_label(attempt: &Option<String>) -> (label: String)
    ensures
        label@ == (match *attempt {
            Some(name) => name@,
            None => "<padrão>"@,
        }),
{
    match attempt {
        Some(name) => name.clone(),
        None => "<padrão>".to_owned(),
    }
}

/// The arrival of `frame` at `now`.
pub open spec fn arrival_of(frame: Seq<u8>, now: Duration) -> Arrival {
    Arrival { record: record_of(frame), len: frame.len() as u64, at: now }
}

/// A capture on one interface.
pub struct PacketWatcher {
    pub interface_name: String,
    pub metrics: Arc<TrafficMetrics>,
}

impl PacketWatcher {
    /// Counts one IP packet from `src` to `dst`, with protocol number `proto` and
    /// transport payload `payload`, that arrived at `now` in a frame of `raw_len`
    /// bytes.
    pub fn process_l4(
        src: IpAddr,
        dst: IpAddr,
        proto: u8,
        payload: &[u8],
        raw_len: u64,
        now: Duration,
        metrics: &mut TrafficMetrics,
    )
        requires
            old(metrics).wf(),
            room_for(old(metrics).flows@, flow_tuple(src, dst, proto, payload@), raw_len),
        ensures
            final(metrics).wf(),
            final(metrics).counts(
                *old(metrics),
                (Arrival {
                    record: FrameRecord::Flow(flow_tuple(src, dst, proto, payload@)),
                    len: raw_len,
                    at: now,
                }),
            ),
    {
        let tuple = flow_of(src, dst, proto, payload);
        metrics.record(tuple, raw_len, now);
    }

    /// Counts one captured frame that arrived at `now`. A frame that is not IP counts
    /// in the class of the rest and belongs to no flow; one too short to tell counts
    /// nowhere. Where the counters of its flow are full, nothing is counted and the
    /// result is `false`.
    pub fn process_frame(frame: &[u8], now: Duration, metrics: &mut TrafficMetrics) -> (fits: bool)
        requires
            old(metrics).wf(),
            frame@.len() <= u64::MAX,
        ensures
            final(metrics).wf(),
            fits == old(metrics).has_room(arrival_of(frame@, now)),
            !fits ==> *final(metrics) == *old(metrics),
            fits ==> final(metrics).counts(*old(metrics), arrival_of(frame@, now)),
    {
        let len: u64 = frame.len() as u64;
        match decode_frame(frame) {
            FrameRecord::Ignored => true,
            FrameRecord::NonIp => {
                metrics.global_protocols.count(Protocol::Other, len);
                true
            },
            FrameRecord::Flow(tuple) => {
                let room = metrics.flows.has_room(&tuple, len);
                if room {
                    metrics.record(tuple, len, now);
                }
                room
            },
        }
    }

    /// A watcher on the interface named `interface_name_opt`, or on the first one
    /// that is usable, together with its place in `interfaces`.
    pub fn new(
        interface_name_opt: Option<String>,
        interfaces: &Vec<InterfaceInfo>,
    ) -> (r: Result<(PacketWatcher, usize), WatchError>)
        ensures
            match interface_name_opt {
                Some(name) => match first_named(interfaces@, name@) {
                    Some(i) => r matches Ok((watcher, at)) && at == i && watcher.starts_on(
                        interfaces@[i as int],
                    ),
                    None => r matches Err(WatchError::NotFound(missing)) && missing@ == name@,
                },
                None => match first_usable(interfaces@) {
                    Some(i) => r matches Ok((watcher, at)) && at == i && watcher.starts_on(
                        interfaces@[i as int],
                    ),
                    None => r matches Err(WatchError::NoneUsable),
                },
            },
    {
        match interface_name_opt {
            Some(name) => match find_named(interfaces, &name) {
                Some(i) => Ok((PacketWatcher::on(&interfaces[i]), i)),
                None => Err(WatchError::NotFound(name)),
            },
            None => match find_usable(interfaces) {
                Some(i) => Ok((PacketWatcher::on(&interfaces[i]), i)),
                None => Err(WatchError::NoneUsable),
            },
        }
    }

    /// The watcher is on `interface` and has counted nothing yet.
    pub open spec fn starts_on(&self, interface: InterfaceInfo) -> bool {
        &&& self.interface_name@ == interface.name@
        &&& self.metrics.wf()
        &&& self.metrics.is_fresh()
    }

    fn on(interface: &InterfaceInfo) -> (watcher: PacketWatcher)
        ensures
            watcher.starts_on(*interface),
    {
        PacketWatcher {
            interface_name: interface.name.clone(),
            metrics: Arc::new(TrafficMetrics::default()),
        }
    }
}

/// What the choice of an interface looks at.
#[derive(Debug)]
pub struct InterfaceInfo {
    pub name: String,
    pub is_up: bool,
    pub is_loopback: bool,
    pub has_addresses: bool,
}

impl InterfaceInfo {
    /// Traffic can be expected on the interface.
    pub open spec fn usable(self) -> bool {
        self.is_up && !self.is_loopback && self.has_addresses
    }
}

/// The first place at or after `from` whose interface has that name.
pub open spec fn named_from(interfaces: Seq<InterfaceInfo>, name: Seq<char>, from: nat) -> Option<nat>
    decreases interfaces.len() - from,
{
    if from >= interfaces.len() {
        None
    } else if interfaces[from as int].name@ == name {
        Some(from)
    } else {
        named_from(interfaces, name, from + 1)
    }
}

/// The place of the first interface with that name.
pub open spec fn first_named(interfaces: Seq<InterfaceInfo>, name: Seq<char>) -> Option<nat> {
    named_from(interfaces, name, 0)
}

/// The first place at or after `from` whose interface is usable.
pub open spec fn usable_from(interfaces: Seq<InterfaceInfo>, from: nat) -> Option<nat>
    decreases interfaces.len() - from,
{
    if from >= interfaces.len() {
        None
    } else if interfaces[from as int].usable() {
        Some(from)
    } else {
        usable_from(interfaces, from + 1)
    }
}

/// The place of the first usable interface.
pub open spec fn first_usable(interfaces: Seq<InterfaceInfo>) -> Option<nat> {
    usable_from(interfaces, 0)
}

proof fn named_from_skips(interfaces: Seq<InterfaceInfo>, name: Seq<char>, from: nat, to: nat)
    requires
        from <= to <= interfaces.len(),
        forall|j: int| from <= j < to ==> (#[trigger] interfaces[j]).name@ != name,
    ensures
        named_from(interfaces, name, from) == named_from(interfaces, name, to),
    decreases to - from,
{
    if from < to {
        assert(interfaces[from as int].name@ != name);
        named_from_skips(interfaces, name, from + 1, to);
    }
}

proof fn usable_from_skips(interfaces: Seq<InterfaceInfo>, from: nat, to: nat)
    requires
        from <= to <= interfaces.len(),
        forall|j: int| from <= j < to ==> !(#[trigger] interfaces[j]).usable(),
    ensures
        usable_from(interfaces, from) == usable_from(interfaces, to),
    decreases to - from,
{
    if from < to {
        assert(!interfaces[from as int].usable());
        usable_from_skips(interfaces, from + 1, to);
    }
}

/// The place of the first interface named `name`.
fn find_named(interfaces: &Vec<InterfaceInfo>, name: &String) -> (place: Option<usize>)
    ensures
        place is Some <==> first_named(interfaces@, name@) is Some,
        place matches Some(i) ==> i < interfaces@.len() && first_named(interfaces@, name@) == Some(
            i as nat,
        ),
{
    let mut i: usize = 0;
    while i < interfaces.len()
        invariant
            i <= interfaces@.len(),
            forall|j: int| 0 <= j < i ==> (#[trigger] interfaces@[j]).name@ != name@,
        decreases interfaces.len() - i,
    {
        if interfaces[i].name == *name {
            proof {
                named_from_skips(interfaces@, name@, 0, i as nat);
            }
            return Some(i);
        }
        i = i + 1;
    }
    proof {
        named_from_skips(interfaces@, name@, 0, interfaces@.len());
    }
    None
}

/// The place of the first usable interface.
fn find_usable(interfaces: &Vec<InterfaceInfo>) -> (place: Option<usize>)
    ensures
        place is Some <==> first_usable(interfaces@) is Some,
        place matches Some(i) ==> i < interfaces@.len() && first_usable(interfaces@) == Some(
            i as nat,
        ),
{
    let mut i: usize = 0;
    while i < interfaces.len()
        invariant
            i <= interfaces@.len(),
            forall|j: int| 0 <= j < i ==> !(#[trigger] interfaces@[j]).usable(),
        decreases interfaces.len() - i,
    {
        let candidate = &interfaces[i];
        if candidate.is_up && !candidate.is_loopback && candidate.has_addresses {
            proof {
                usable_from_skips(interfaces@, 0, i as nat);
            }
            return Some(i);
        }
        i = i + 1;
    }
    proof {
        usable_from_skips(interfaces@, 0, interfaces@.len());
    }
    None
}

/// Why a capture could not start.
#[derive(Debug)]
pub enum WatchError {
    /// There is no interface of this name.
    NotFound(String),
    /// No interface is up, away from loopback and with an address.
    NoneUsable,
    /// The interface does not deliver Ethernet frames.
    NotEthernet,
    /// The interface, named first, could not be opened, for the reason given second.
    OpenFailed(String, String),
}

impl WatchError {
    /// The error as a sentence.
    pub open spec fn sentence(&self) -> Seq<char> {
        match *self {
            WatchError::NotFound(name) => "Interface '"@ + name@ + "' não encontrada no host."@,
            WatchError::NoneUsable => "Nenhuma interface de rede ativa e utilizável detectada."@,
            WatchError::NotEthernet => "Canal de dados não suportado (não-Ethernet)."@,
            WatchError::OpenFailed(name, reason) => "Permissão negada ao abrir interface '"@ + name@
                + "'. Requer root ou CAP_NET_RAW. Erro: "@ + reason@,
        }
    }

    /// The error as a sentence.
    pub fn message(&self) -> (text: String)
        ensures
            text@ == self.sentence(),
    {
        match self {
            WatchError::NotFound(name) => {
                let mut text = "Interface '".to_owned();
                text.append(name.as_str());
                text.append("' não encontrada no host.");
                text
            },
            WatchError::NoneUsable => {
                "Nenhuma interface de rede ativa e utilizável detectada.".to_owned()
            },
            WatchError::NotEthernet => "Canal de dados não suportado (não-Ethernet).".to_owned(),
            WatchError::OpenFailed(name, reason) => {
                let mut text = "Permissão negada ao abrir interface '".to_owned();
                text.append(name.as_str());
                text.append("'. Requer root ou CAP_NET_RAW. Erro: ");
                text.append(reason.as_str());
                text
            },
        }
    }
}

/// The counters of a class are its own two, in the counters as in a snapshot of them.
pub proof fn classes_have_their_own_counters(c: ProtocolCounters, s: ProtocolSnapshot)
    ensures
        c.bytes(Protocol::Tcp) == c.tcp_bytes && c.packets(Protocol::Tcp) == c.tcp_packets,
        c.bytes(Protocol::Udp) == c.udp_bytes && c.packets(Protocol::Udp) == c.udp_packets,
        c.bytes(Protocol::Icmp) == c.icmp_bytes && c.packets(Protocol::Icmp) == c.icmp_packets,
        c.bytes(Protocol::Other) == c.other_bytes && c.packets(Protocol::Other) == c.other_packets,
        s.bytes(Protocol::Tcp) == s.tcp_bytes && s.packets(Protocol::Tcp) == s.tcp_packets,
        s.bytes(Protocol::Udp) == s.udp_bytes && s.packets(Protocol::Udp) == s.udp_packets,
        s.bytes(Protocol::Icmp) == s.icmp_bytes && s.packets(Protocol::Icmp) == s.icmp_packets,
        s.bytes(Protocol::Other) == s.other_bytes && s.packets(Protocol::Other) == s.other_packets,
        forall|p: Protocol| #[trigger]
            c.as_snapshot().bytes(p) == c.bytes(p) && c.as_snapshot().packets(p) == c.packets(p),
{
}

/// A counter that wraps around holds the sum modulo 2^64.
pub proof fn counters_hold_the_sum(a: u64, b: u64)
    ensures
        wrapped(a, b) == (a + b) % 0x1_0000_0000_0000_0000,
{
}

/// A frame arrives with its whole length, at its time, as what it is.
pub proof fn frames_arrive_whole(frame: Seq<u8>, now: Duration)
    requires
        frame.len() <= u64::MAX,
    ensures
        arrival_of(frame, now).len == frame.len(),
        arrival_of(frame, now).at == now,
        arrival_of(frame, now).record == record_of(frame),
{
}

proof fn sums_regroup(x: u64, y: u64, xy: u64, z: u64)
    requires
        xy == (x + y) % 0x1_0000_0000_0000_0000,
    ensures
        wrapped(xy, z) == (x + wrapped(y, z)) % 0x1_0000_0000_0000_0000,
{
}

/// Interfaces add up: those of two groups are the sum of both, modulo 2^64.
pub proof fn interfaces_add_up(
    a: Seq<Arc<TrafficMetrics>>,
    b: Seq<Arc<TrafficMetrics>>,
    p: Protocol,
)
    ensures
        total_bytes(a + b, p) == (total_bytes(a, p) + total_bytes(b, p)) % 0x1_0000_0000_0000_0000,
        total_packets(a + b, p) == (total_packets(a, p) + total_packets(b, p))
            % 0x1_0000_0000_0000_0000,
    decreases b.len(),
{
    if b.len() == 0 {
        assert(a + b =~= a);
    } else {
        let (start, end) = (b.drop_last(), b.last().global_protocols);
        interfaces_add_up(a, start, p);
        assert((a + b).drop_last() =~= a + start);
        assert((a + b).last() == b.last());
        sums_regroup(
            total_bytes(a, p),
            total_bytes(start, p),
            total_bytes(a + start, p),
            end.bytes(p),
        );
        sums_regroup(
            total_packets(a, p),
            total_packets(start, p),
            total_packets(a + start, p),
            end.packets(p),
        );
    }
}

/// One interface alone has its own counters and flows, and none has nothing.
pub proof fn one_interface_is_itself(one: Arc<TrafficMetrics>, p: Protocol)
    ensures
        total_bytes(seq![one], p) == one.global_protocols.bytes(p),
        total_packets(seq![one], p) == one.global_protocols.packets(p),
        all_flows(seq![one]) == one.flows@,
        total_bytes(Seq::empty(), p) == 0,
        total_packets(Seq::empty(), p) == 0,
        all_flows(Seq::empty()) == Map::<FiveTuple, FlowStat>::empty(),
{
    let none = Seq::<Arc<TrafficMetrics>>::empty();
    assert(seq![one].drop_last() =~= none);
    assert(seq![one].last() == one);
    assert(total_bytes(none, p) == 0);
    assert(total_packets(none, p) == 0);
    assert(all_flows(none) == Map::<FiveTuple, FlowStat>::empty());
    assert(all_flows(seq![one]) == merged(all_flows(none), one.flows@));
    assert(all_flows(seq![one]) =~= one.flows@);
}

/// The flows of several interfaces are those that are on any of them, and one more
/// interface merges its flows into the others.
pub proof fn interfaces_share_their_flows(
    all: Seq<Arc<TrafficMetrics>>,
    one: Arc<TrafficMetrics>,
    key: FiveTuple,
)
    ensures
        all_flows(all).contains_key(key) <==> exists|i: int|
            0 <= i < all.len() && (#[trigger] all[i]).flows@.contains_key(key),
        all_flows(all.push(one)) == merged(all_flows(all), one.flows@),
    decreases all.len(),
{
    assert(all.push(one).drop_last() =~= all);
    if all.len() > 0 {
        let start = all.drop_last();
        interfaces_share_their_flows(start, one, key);
        assert(all[all.len() - 1] == all.last());
        if exists|i: int| 0 <= i < start.len() && (#[trigger] start[i]).flows@.contains_key(key) {
            let i = choose|i: int|
                0 <= i < start.len() && (#[trigger] start[i]).flows@.contains_key(key);
            assert(all[i] == start[i]);
        }
        if exists|i: int| 0 <= i < all.len() && (#[trigger] all[i]).flows@.contains_key(key) {
            let i = choose|i: int|
                0 <= i < all.len() && (#[trigger] all[i]).flows@.contains_key(key);
            if i < start.len() {
                assert(start[i] == all[i]);
            }
        }
    }
}

/// An interface is found by its name: the first that has it, and none if none has it.
pub proof fn interfaces_are_found_by_name(interfaces: Seq<InterfaceInfo>, name: Seq<char>, from: nat)
    ensures
        match named_from(interfaces, name, from) {
            Some(i) => from <= i < interfaces.len() && interfaces[i as int].name@ == name && forall|
                j: int,
            |
                from <= j < i ==> (#[trigger] interfaces[j]).name@ != name,
            None => forall|j: int|
                from <= j < interfaces.len() ==> (#[trigger] interfaces[j]).name@ != name,
        },
        first_named(interfaces, name) == named_from(interfaces, name, 0),
    decreases interfaces.len() - from,
{
    if from < interfaces.len() {
        interfaces_are_found_by_name(interfaces, name, from + 1);
    }
}

/// Without a name, the first interface is taken that is up, is no loopback and has an
/// address, and none if there is no such interface.
pub proof fn usable_interfaces_are_found(interfaces: Seq<InterfaceInfo>, from: nat)
    ensures
        ({
            let fits = |j: int|
                interfaces[j].is_up && !interfaces[j].is_loopback && interfaces[j].has_addresses;
            match usable_from(interfaces, from) {
                Some(i) => from <= i < interfaces.len() && fits(i as int) && forall|j: int|
                    from <= j < i ==> !(#[trigger] fits(j)),
                None => forall|j: int| from <= j < interfaces.len() ==> !(#[trigger] fits(j)),
            }
        }),
        first_usable(interfaces) == usable_from(interfaces, 0),
    decreases interfaces.len() - from,
{
    if from < interfaces.len() {
        usable_interfaces_are_found(interfaces, from + 1);
    }
}

/// Each interface that is named is tried once, in order; without a name there is one
/// attempt, without a name. Names that do not repeat are all kept.
pub proof fn every_named_interface_is_tried(names: Seq<Seq<char>>, attempts: Seq<Option<String>>)
    ensures
        names.len() == 0 ==> wanted_names(names).len() == 1 && wanted_names(names)[0] is None,
        names.len() > 0 ==> wanted_names(names).len() == names.len() && forall|i: int|
            0 <= i < names.len() ==> #[trigger] wanted_names(names)[i] == Some(names[i]),
        attempt_names(attempts).len() == attempts.len(),
        forall|i: int|
            0 <= i < attempts.len() ==> #[trigger] attempt_names(attempts)[i] == (match attempts[i] {
                Some(name) => Some(name@),
                None => None,
            }),
        names.no_duplicates() ==> distinct(names) == names,
        interface_names(None) == Seq::<Seq<char>>::empty(),
        forall|text: Seq<char>| #[trigger]
            interface_names(Some(text)) == distinct(list_items(text)),
    decreases names.len(),
{
    if names.len() > 0 && names.no_duplicates() {
        let start = names.drop_last();
        every_named_interface_is_tried(start, attempts);
        assert(start.no_duplicates());
        if start.contains(names.last()) {
            let i = choose|i: int| 0 <= i < start.len() && start[i] == names.last();
            assert(names[i] == names[names.len() - 1]);
        }
        assert(distinct(names) =~= names);
    } else if names.len() == 0 {
        assert(distinct(names) =~= names);
    }
}

/// Why a capture could not start is told with the whole name of the interface, and
/// with the whole reason where there is one.
pub proof fn errors_name_their_interface(name: String, reason: String)
    ensures
        reads_as(
            WatchError::NotFound(name).sentence(),
            "Interface '"@ + name@,
            "' não encontrada no host."@,
        ),
        reads_as(
            WatchError::OpenFailed(name, reason).sentence(),
            "Permissão negada ao abrir interface '"@ + name@
                + "'. Requer root ou CAP_NET_RAW. Erro: "@,
            reason@,
        ),
        WatchError::NoneUsable.sentence()
            == "Nenhuma interface de rede ativa e utilizável detectada."@,
        WatchError::NotEthernet.sentence() == "Canal de dados não suportado (não-Ethernet)."@,
{
}

/// The names of an option keep their order: those that come from its first entries
/// come first.
pub proof fn earlier_names_come_first(names: Seq<Seq<char>>, k: int)
    requires
        0 <= k <= names.len(),
    ensures
        distinct(names.take(k)).len() <= distinct(names).len(),
        distinct(names).take(distinct(names.take(k)).len() as int) == distinct(names.take(k)),
    decreases names.len(),
{
    if k == names.len() {
        assert(names.take(k) =~= names);
        assert(distinct(names).take(distinct(names).len() as int) =~= distinct(names));
    } else {
        let start = names.drop_last();
        earlier_names_come_first(start, k);
        assert(start.take(k) =~= names.take(k));
        let n = distinct(names.take(k)).len() as int;
        assert(distinct(names).take(n) =~= distinct(start).take(n));
    }
}

/// A frame that belongs to no flow always fits, and so does the first packet of a flow.
pub proof fn new_traffic_always_fits(metrics: TrafficMetrics, arrival: Arrival)
    ensures
        !(arrival.record is Flow) ==> metrics.has_room(arrival),
        arrival.record matches FrameRecord::Flow(key) && !metrics.flows@.dom().contains(key)
            ==> metrics.has_room(arrival),
{
}

} // verus!
