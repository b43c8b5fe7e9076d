//! What a whole capture adds up to: laws of the counters and flows after any sequence
//! of frames.

use crate::flows::{
    grown, map_has_rows, map_size, row_keys, rows_map, stat_or_zero, FiveTuple, FlowStat, Protocol,
    MAX_FLOWS,
};
use crate::packet::FrameRecord;
use crate::watch::{wrapped, Arrival, TrafficMetrics};
use std::time::Duration;
use vstd::prelude::*;

verus! {

/// What is added up.
pub enum Measure {
    Packets,
    Bytes,
}

impl Arrival {
    /// The flow that the frame belongs to, if any.
    pub open spec fn flow(self) -> Option<FiveTuple> {
        match self.record {
            FrameRecord::Flow(tuple) => Some(tuple),
            _ => None,
        }
    }

    /// The class that the frame counts in, if any.
    pub open spec fn class(self) -> Option<Protocol> {
        match self.record {
            FrameRecord::Ignored => None,
            FrameRecord::NonIp => Some(Protocol::Other),
            FrameRecord::Flow(tuple) => Some(tuple.protocol),
        }
    }

    /// What the frame adds.
    pub open spec fn amount(self, m: Measure) -> nat {
        match m {
            Measure::Packets => 1,
            Measure::Bytes => self.len as nat,
        }
    }
}

/// The packets or bytes of flow `key`.
pub open spec fn flow_total(arrivals: Seq<Arrival>, key: FiveTuple, m: Measure) -> nat
    decreases arrivals.len(),
{
    if arrivals.len() == 0 {
        0
    } else {
        flow_total(arrivals.drop_last(), key, m) + (if arrivals.last().flow() == Some(key) {
            arrivals.last().amount(m)
        } else {
            0
        })
    }
}

/// The packets or bytes of class `p`.
pub open spec fn class_total(arrivals: Seq<Arrival>, p: Protocol, m: Measure) -> nat
    decreases arrivals.len(),
{
    if arrivals.len() == 0 {
        0
    } else {
        class_total(arrivals.drop_last(), p, m) + (if arrivals.last().class() == Some(p) {
            arrivals.last().amount(m)
        } else {
            0
        })
    }
}

/// The packets or bytes of class `p` that belong to no flow: those that are not IP.
pub open spec fn flowless_total(arrivals: Seq<Arrival>, p: Protocol, m: Measure) -> nat
    decreases arrivals.len(),
{
    if arrivals.len() == 0 {
        0
    } else {
        flowless_total(arrivals.drop_last(), p, m) + (if arrivals.last().class() == Some(p)
            && arrivals.last().flow() is None {
            arrivals.last().amount(m)
        } else {
            0
        })
    }
}

/// The time of the latest packet of flow `key`.
pub open spec fn latest_of(arrivals: Seq<Arrival>, key: FiveTuple) -> Option<Duration>
    decreases arrivals.len(),
{
    if arrivals.len() == 0 {
        None
    } else if arrivals.last().flow() == Some(key) {
        Some(arrivals.last().at)
    } else {
        latest_of(arrivals.drop_last(), key)
    }
}

/// The flows that occur.
pub open spec fn flows_in(arrivals: Seq<Arrival>) -> Set<FiveTuple>
    decreases arrivals.len(),
{
    if arrivals.len() == 0 {
        Set::empty()
    } else {
        match arrivals.last().flow() {
            Some(key) => flows_in(arrivals.drop_last()).insert(key),
            None => flows_in(arrivals.drop_last()),
        }
    }
}

/// `states` are those of a capture that starts fresh and counts `arrivals` one after
/// the other, each with room for it.
pub open spec fn is_capture(states: Seq<TrafficMetrics>, arrivals: Seq<Arrival>) -> bool {
    &&& states.len() == arrivals.len() + 1
    &&& states[0].is_fresh()
    &&& forall|k: int|
        0 <= k < arrivals.len() ==> states[k].has_room(#[trigger] arrivals[k]) && states[k
            + 1].counts(states[k], arrivals[k])
}

proof fn capture_so_far(states: Seq<TrafficMetrics>, arrivals: Seq<Arrival>)
    requires
        is_capture(states, arrivals),
        arrivals.len() > 0,
    ensures
        is_capture(states.drop_last(), arrivals.drop_last()),
        states.drop_last().last().has_room(arrivals.last()),
        states.last().counts(states.drop_last().last(), arrivals.last()),
{
    let n = arrivals.len() - 1;
    assert(arrivals[n] == arrivals.last());
    assert forall|k: int| 0 <= k < arrivals.drop_last().len() implies states.drop_last()[k].has_room(
        #[trigger] arrivals.drop_last()[k],
    ) && states.drop_last()[k + 1].counts(states.drop_last()[k], arrivals.drop_last()[k]) by {
        assert(arrivals.drop_last()[k] == arrivals[k]);
    }
}

proof fn flows_in_is_finite(arrivals: Seq<Arrival>)
    ensures
        flows_in(arrivals).finite(),
    decreases arrivals.len(),
{
    if arrivals.len() > 0 {
        flows_in_is_finite(arrivals.drop_last());
    }
}

/// Of a flow that does not occur there is nothing.
proof fn absent_flows_have_nothing(arrivals: Seq<Arrival>, key: FiveTuple)
    requires
        !flows_in(arrivals).contains(key),
    ensures
        flow_total(arrivals, key, Measure::Packets) == 0,
        flow_total(arrivals, key, Measure::Bytes) == 0,
        latest_of(arrivals, key) is None,
    decreases arrivals.len(),
{
    if arrivals.len() > 0 {
        absent_flows_have_nothing(arrivals.drop_last(), key);
    }
}

/// The counters that a flow has when all its packets are counted.
pub open spec fn has_all_of(stat: FlowStat, arrivals: Seq<Arrival>, key: FiveTuple) -> bool {
    &&& stat.packet_count == flow_total(arrivals, key, Measure::Packets)
    &&& stat.byte_count == flow_total(arrivals, key, Measure::Bytes)
    &&& stat.last_seen == latest_of(arrivals, key)
}

/// After any capture with no more flows than the table keeps, the table has exactly
/// one entry for each flow that occurred, with the number and the bytes of all its
/// packets and the time of the latest.
pub proof fn every_packet_is_in_its_flow(states: Seq<TrafficMetrics>, arrivals: Seq<Arrival>)
    requires
        is_capture(states, arrivals),
        flows_in(arrivals).len() <= MAX_FLOWS,
    ensures
        states.last().flows@.dom() == flows_in(arrivals),
        forall|key: FiveTuple| #[trigger]
            flows_in(arrivals).contains(key) ==> has_all_of(
                states.last().flows@[key],
                arrivals,
                key,
            ),
    decreases arrivals.len(),
{
    if arrivals.len() == 0 {
        assert(states.last().flows@.dom() =~= Set::<FiveTuple>::empty());
    } else {
        let (start, last) = (arrivals.drop_last(), arrivals.last());
        let (before, after) = (states.drop_last().last(), states.last());
        capture_so_far(states, arrivals);
        flows_in_is_finite(start);
        flows_in_is_finite(arrivals);
        assert(flows_in(start).subset_of(flows_in(arrivals)));
        vstd::set_lib::lemma_len_subset(flows_in(start), flows_in(arrivals));
        every_packet_is_in_its_flow(states.drop_last(), start);
        if let Some(tuple) = last.flow() {
            let old_stat = stat_or_zero(before.flows@, tuple);
            if !flows_in(start).contains(tuple) {
                absent_flows_have_nothing(start, tuple);
            }
            let updated = before.flows@.insert(tuple, grown(old_stat, last.len, last.at));
            assert(updated.dom() =~= flows_in(arrivals));
            assert(after.flows@ == updated);
            assert forall|key: FiveTuple| #[trigger] flows_in(arrivals).contains(
                key,
            ) implies has_all_of(after.flows@[key], arrivals, key) by {
                if key != tuple {
                    assert(flows_in(start).contains(key));
                    assert(has_all_of(before.flows@[key], start, key));
                } else if flows_in(start).contains(key) {
                    assert(has_all_of(before.flows@[key], start, key));
                }
            }
        } else {
            assert(after.flows@ == before.flows@);
            assert forall|key: FiveTuple| #[trigger] flows_in(arrivals).contains(
                key,
            ) implies has_all_of(after.flows@[key], arrivals, key) by {
                assert(flows_in(start).contains(key));
                assert(has_all_of(before.flows@[key], start, key));
            }
        }
    }
}

/// After any capture, the counters of a class are the number and the bytes of all its
/// packets, modulo 2^64.
pub proof fn every_packet_is_in_its_class(
    states: Seq<TrafficMetrics>,
    arrivals: Seq<Arrival>,
    p: Protocol,
)
    requires
        is_capture(states, arrivals),
    ensures
        states.last().global_protocols.packets(p) == class_total(arrivals, p, Measure::Packets)
            % 0x1_0000_0000_0000_0000,
        states.last().global_protocols.bytes(p) == class_total(arrivals, p, Measure::Bytes)
            % 0x1_0000_0000_0000_0000,
    decreases arrivals.len(),
{
    let (c, last) = (states.last().global_protocols, arrivals.last());
    if arrivals.len() == 0 {
        assert(c.packets(p) == 0 && c.bytes(p) == 0);
    } else {
        capture_so_far(states, arrivals);
        every_packet_is_in_its_class(states.drop_last(), arrivals.drop_last(), p);
        let b = states.drop_last().last().global_protocols;
        assert(c.bytes(p) == (if last.class() == Some(p) {
            wrapped(b.bytes(p), last.len)
        } else {
            b.bytes(p)
        }));
        assert(c.packets(p) == (if last.class() == Some(p) {
            wrapped(b.packets(p), 1)
        } else {
            b.packets(p)
        }));
    }
}

/// The packets or bytes of those flows among `keys` that are of class `p`.
pub open spec fn keys_total(
    keys: Seq<FiveTuple>,
    arrivals: Seq<Arrival>,
    p: Protocol,
    m: Measure,
) -> nat
    decreases keys.len(),
{
    if keys.len() == 0 {
        0
    } else {
        keys_total(keys.drop_last(), arrivals, p, m) + (if keys.last().protocol == p {
            flow_total(arrivals, keys.last(), m)
        } else {
            0
        })
    }
}

/// One more frame adds to the flows what it adds to its own.
proof fn keys_total_grows(
    keys: Seq<FiveTuple>,
    arrivals: Seq<Arrival>,
    p: Protocol,
    m: Measure,
)
    requires
        arrivals.len() > 0,
        keys.no_duplicates(),
    ensures
        keys_total(keys, arrivals, p, m) == keys_total(keys, arrivals.drop_last(), p, m) + (
        match arrivals.last().flow() {
            Some(key) => if key.protocol == p && keys.contains(key) {
                arrivals.last().amount(m)
            } else {
                0
            },
            None => 0,
        }),
    decreases keys.len(),
{
    if keys.len() > 0 {
        let (start, end) = (keys.drop_last(), keys.last());
        assert(keys[keys.len() - 1] == end);
        keys_total_grows(start, arrivals, p, m);
        if let Some(key) = arrivals.last().flow() {
            if key == end {
                assert(keys.contains(key));
                assert(!start.contains(key)) by {
                    if start.contains(key) {
                        let i = choose|i: int| 0 <= i < start.len() && start[i] == key;
                        assert(keys[i] == keys[keys.len() - 1]);
                    }
                }
            } else {
                assert(start.contains(key) <==> keys.contains(key)) by {
                    if keys.contains(key) {
                        let i = choose|i: int| 0 <= i < keys.len() && keys[i] == key;
                        assert(start[i] == key);
                    }
                    if start.contains(key) {
                        let i = choose|i: int| 0 <= i < start.len() && start[i] == key;
                        assert(keys[i] == key);
                    }
                }
            }
        }
    }
}

proof fn keys_total_of_nothing(keys: Seq<FiveTuple>, p: Protocol, m: Measure)
    ensures
        keys_total(keys, Seq::<Arrival>::empty(), p, m) == 0,
    decreases keys.len(),
{
    if keys.len() > 0 {
        keys_total_of_nothing(keys.drop_last(), p, m);
    }
}

/// Flows that hold every packet, each flow taken once, add up to their class.
proof fn keys_add_up(keys: Seq<FiveTuple>, arrivals: Seq<Arrival>, p: Protocol, m: Measure)
    requires
        keys.no_duplicates(),
        flows_in(arrivals).subset_of(keys.to_set()),
    ensures
        keys_total(keys, arrivals, p, m) + flowless_total(arrivals, p, m) == class_total(
            arrivals,
            p,
            m,
        ),
    decreases arrivals.len(),
{
    if arrivals.len() == 0 {
        assert(arrivals =~= Seq::<Arrival>::empty());
        keys_total_of_nothing(keys, p, m);
    } else {
        keys_total_grows(keys, arrivals, p, m);
        if let Some(key) = arrivals.last().flow() {
            assert(flows_in(arrivals).contains(key));
            assert(keys.to_set().contains(key));
        }
        assert(flows_in(arrivals.drop_last()).subset_of(keys.to_set())) by {
            assert(flows_in(arrivals.drop_last()).subset_of(flows_in(arrivals)));
        }
        keys_add_up(keys, arrivals.drop_last(), p, m);
    }
}

/// The packets or bytes in the rows of class `p`.
pub open spec fn rows_total(rows: Seq<(FiveTuple, FlowStat)>, p: Protocol, m: Measure) -> nat
    decreases rows.len(),
{
    if rows.len() == 0 {
        0
    } else {
        let (key, stat) = rows.last();
        rows_total(rows.drop_last(), p, m) + (if key.protocol == p {
            match m {
                Measure::Packets => stat.packet_count as nat,
                Measure::Bytes => stat.byte_count as nat,
            }
        } else {
            0
        })
    }
}

proof fn rows_are_totals(
    rows: Seq<(FiveTuple, FlowStat)>,
    arrivals: Seq<Arrival>,
    p: Protocol,
    m: Measure,
)
    requires
        forall|i: int| 0 <= i < rows.len() ==> has_all_of((#[trigger] rows[i]).1, arrivals, rows[i].0),
    ensures
        rows_total(rows, p, m) == keys_total(row_keys(rows), arrivals, p, m),
    decreases rows.len(),
{
    if rows.len() > 0 {
        assert(row_keys(rows).drop_last() =~= row_keys(rows.drop_last()));
        assert(rows[rows.len() - 1] == rows.last());
        assert forall|i: int| 0 <= i < rows.drop_last().len() implies has_all_of(
            (#[trigger] rows.drop_last()[i]).1,
            arrivals,
            rows.drop_last()[i].0,
        ) by {
            assert(rows.drop_last()[i] == rows[i]);
        }
        rows_are_totals(rows.drop_last(), arrivals, p, m);
    }
}

/// After any capture with no more flows than the table keeps, the flows of a class,
/// together with its frames that are not IP, add up to the counters of the class,
/// modulo 2^64.
pub proof fn flows_add_up_to_the_counters(
    states: Seq<TrafficMetrics>,
    arrivals: Seq<Arrival>,
    p: Protocol,
)
    requires
        is_capture(states, arrivals),
        states.last().wf(),
        flows_in(arrivals).len() <= MAX_FLOWS,
    ensures
        states.last().global_protocols.packets(p) == (rows_total(
            states.last().flows.rows(),
            p,
            Measure::Packets,
        ) + flowless_total(arrivals, p, Measure::Packets)) % 0x1_0000_0000_0000_0000,
        states.last().global_protocols.bytes(p) == (rows_total(
            states.last().flows.rows(),
            p,
            Measure::Bytes,
        ) + flowless_total(arrivals, p, Measure::Bytes)) % 0x1_0000_0000_0000_0000,
{
    let rows = states.last().flows.rows();
    every_packet_is_in_its_flow(states, arrivals);
    every_packet_is_in_its_class(states, arrivals, p);
    map_has_rows(rows);
    map_size(rows);
    assert forall|i: int| 0 <= i < rows.len() implies has_all_of(
        (#[trigger] rows[i]).1,
        arrivals,
        rows[i].0,
    ) by {
        let key = rows[i].0;
        assert(rows_map(rows).contains_key(key));
        assert(flows_in(arrivals).contains(key));
    }
    rows_are_totals(rows, arrivals, p, Measure::Packets);
    rows_are_totals(rows, arrivals, p, Measure::Bytes);
    keys_add_up(row_keys(rows), arrivals, p, Measure::Packets);
    keys_add_up(row_keys(rows), arrivals, p, Measure::Bytes);
}

} // verus!
