//! The state behind the dashboard.

use crate::clock::{nanos_of, NANOS_PER_MILLI};
use crate::dns::DnsQueryResult;
use crate::ping::PingSample;
use crate::watch::TrafficMetrics;
use std::collections::VecDeque;
use std::sync::Arc;
use vstd::prelude::*;

verus! {

/// Round trips that the history of a host holds.
pub const HISTORY_LEN: usize = 40;

/// DNS results that the dashboard remembers.
pub const DNS_RESULTS_LEN: usize = 20;

/// What the dashboard knows about one host. Times are whole milliseconds.
#[derive(Debug)]
pub struct PingHistory {
    pub host: String,
    /// The latest round trips, oldest first; zero for a lost sample.
    pub history: VecDeque<u64>,
    /// The latest round trip, unless the latest sample was lost.
    pub last_rtt: Option<u64>,
    pub transmitted: u64,
    pub received: u64,
}

/// A host's history without its representation.
#[verifier::ext_equal]
pub struct TrackerView {
    pub host: Seq<char>,
    pub history: Seq<u64>,
    pub last_rtt: Option<u64>,
    pub transmitted: u64,
    pub received: u64,
}

impl View for PingHistory {
    type V = TrackerView;

    open spec fn view(&self) -> TrackerView {
        TrackerView {
            host: self.host@,
            history: self.history@,
            last_rtt: self.last_rtt,
            transmitted: self.transmitted,
            received: self.received,
        }
    }
}

/// The history of a host before its first sample.
pub open spec fn fresh(host: Seq<char>) -> TrackerView {
    TrackerView {
        host,
        history: Seq::new(HISTORY_LEN as nat, |i: int| 0u64),
        last_rtt: None,
        transmitted: 0,
        received: 0,
    }
}

/// `s` with `x` behind it; the first element goes if there were `limit` or more.
pub open spec fn slid<T>(s: Seq<T>, x: T, limit: nat) -> Seq<T> {
    if s.len() >= limit {
        s.skip(1).push(x)
    } else {
        s.push(x)
    }
}

/// A round-trip time in whole milliseconds, modulo 2^64; zero if there is none.
pub open spec fn rtt_millis(rtt: Option<nat>) -> u64 {
    match rtt {
        Some(nanos) => ((nanos / NANOS_PER_MILLI as nat) % 0x1_0000_0000_0000_0000) as u64,
        None => 0,
    }
}

impl TrackerView {
    /// The history after one more sample.
    pub open spec fn after(self, rtt: Option<nat>) -> TrackerView {
        TrackerView {
            host: self.host,
            history: slid(self.history, rtt_millis(rtt), HISTORY_LEN as nat),
            last_rtt: if rtt is Some {
                Some(rtt_millis(rtt))
            } else {
                None
            },
            transmitted: (self.transmitted + 1) as u64,
            received: if rtt is Some {
                (self.received + 1) as u64
            } else {
                self.received
            },
        }
    }

    /// One more sample can be counted.
    pub open spec fn has_room(self, rtt: Option<nat>) -> bool {
        self.transmitted < u64::MAX && (rtt is Some ==> self.received < u64::MAX)
    }

    /// No more answers than samples, and a full history.
    pub open spec fn sound(self) -> bool {
        self.received <= self.transmitted && self.history.len() == HISTORY_LEN
    }
}

/// The first place at or after `from` whose host has that name.
pub open spec fn host_from(trackers: Seq<TrackerView>, host: Seq<char>, from: nat) -> Option<nat>
    decreases trackers.len() - from,
{
    if from >= trackers.len() {
        None
    } else if trackers[from as int].host == host {
        Some(from)
    } else {
        host_from(trackers, host, from + 1)
    }
}

/// The histories after a sample of `host`: that of the first host of that name has
/// it, the others stay; a sample of an unknown host changes nothing.
pub open spec fn after_sample(
    trackers: Seq<TrackerView>,
    host: Seq<char>,
    rtt: Option<nat>,
) -> Seq<TrackerView> {
    match host_from(trackers, host, 0) {
        Some(i) => trackers.update(i as int, trackers[i as int].after(rtt)),
        None => trackers,
    }
}

/// A sample of `host` can be counted.
pub open spec fn room_for_sample(
    trackers: Seq<TrackerView>,
    host: Seq<char>,
    rtt: Option<nat>,
) -> bool {
    host_from(trackers, host, 0) matches Some(i) ==> trackers[i as int].has_room(rtt)
}

proof fn host_from_skips(trackers: Seq<TrackerView>, host: Seq<char>, from: nat, to: nat)
    requires
        from <= to <= trackers.len(),
        forall|j: int| from <= j < to ==> (#[trigger] trackers[j]).host != host,
    ensures
        host_from(trackers, host, from) == host_from(trackers, host, to),
    decreases to - from,
{
    if from < to {
        assert(trackers[from as int].host != host);
        host_from_skips(trackers, host, from + 1, to);
    }
}

/// Everything the dashboard shows.
pub struct AppState {
    pub ping_trackers: Vec<PingHistory>,
    /// The latest DNS results, oldest first.
    pub dns_results: VecDeque<DnsQueryResult>,
    /// The traffic as it was last looked at.
    pub watcher_metrics: Arc<TrafficMetrics>,
    pub interface_name: String,
    /// Why there is no traffic to look at, if nothing is being captured.
    pub capture_warning: Option<String>,
}

impl AppState {
    /// The histories, without their representation.
    pub open spec fn trackers(&self) -> Seq<TrackerView> {
        self.ping_trackers@.map_values(|t: PingHistory| t@)
    }

    /// The state before anything happened.
    pub fn new(
        hosts: Vec<String>,
        interface_name: String,
        metrics: Arc<TrafficMetrics>,
    ) -> (state: AppState)
        ensures
            state.trackers() == hosts@.map_values(|host: String| fresh(host@)),
            state.dns_results@ == Seq::<DnsQueryResult>::empty(),
            state.watcher_metrics == metrics,
            state.interface_name == interface_name,
            state.capture_warning is None,
    {
        let mut ping_trackers: Vec<PingHistory> = Vec::new();
        let mut i: usize = 0;
        while i < hosts.len()
            invariant
                i <= hosts@.len(),
                ping_trackers@.len() == i,
                forall|j: int| 0 <= j < i ==> (#[trigger] ping_trackers@[j])@ == fresh(hosts@[j]@),
            decreases hosts.len() - i,
        {
            let history = zeros(HISTORY_LEN);
            ping_trackers.push(
                PingHistory {
                    host: hosts[i].clone(),
                    history,
                    last_rtt: None,
                    transmitted: 0,
                    received: 0,
                },
            );
            assert(ping_trackers@[i as int]@ =~= fresh(hosts@[i as int]@));
            i = i + 1;
        }
        let state = AppState {
            ping_trackers,
            dns_results: VecDeque::new(),
            watcher_metrics: metrics,
            interface_name,
            capture_warning: None,
        };
        assert(state.trackers() =~= hosts@.map_values(|host: String| fresh(host@)));
        state
    }

    /// The place of the first host named `host`.
    fn find_host(&self, host: &String) -> (place: Option<usize>)
        ensures
            place is Some <==> host_from(self.trackers(), host@, 0) is Some,
            place matches Some(i) ==> i < self.ping_trackers@.len() && host_from(
                self.trackers(),
                host@,
                0,
            ) == Some(i as nat),
    {
        let mut i: usize = 0;
        while i < self.ping_trackers.len()
            invariant
                i <= self.ping_trackers@.len(),
                forall|j: int| 0 <= j < i ==> (#[trigger] self.trackers()[j]).host != host@,
            decreases self.ping_trackers.len() - i,
        {
            assert(self.trackers()[i as int] == self.ping_trackers@[i as int]@);
            if self.ping_trackers[i].host == *host {
                proof {
                    host_from_skips(self.trackers(), host@, 0, i as nat);
                }
                return Some(i);
            }
            i = i + 1;
        }
        proof {
            host_from_skips(self.trackers(), host@, 0, self.trackers().len());
        }
        None
    }

    /// Takes a sample into the history of its host.
    pub fn on_ping_sample(&mut self, sample: PingSample)
        requires
            room_for_sample(old(self).trackers(), sample@.host, sample@.rtt),
        ensures
            final(self).trackers() == after_sample(
                old(self).trackers(),
                sample@.host,
                sample@.rtt,
            ),
            final(self).dns_results == old(self).dns_results,
            final(self).watcher_metrics == old(self).watcher_metrics,
            final(self).interface_name == old(self).interface_name,
            final(self).capture_warning == old(self).capture_warning,
    {
        if let Some(i) = self.find_host(&sample.host) {
            let ghost before = self.trackers();
            assert(before[i as int] == self.ping_trackers@[i as int]@);
            let ms: u64 = match &sample.rtt {
                Some(d) => whole_millis(nanos_of(d)),
                None => 0,
            };
            let target = &mut self.ping_trackers[i];
            target.transmitted = target.transmitted + 1;
            target.last_rtt = if sample.rtt.is_some() {
                Some(ms)
            } else {
                None
            };
            if sample.rtt.is_some() {
                target.received = target.received + 1;
            }
            if target.history.len() >= HISTORY_LEN {
                let _ = target.history.pop_front();
            }
            target.history.push_back(ms);
            proof {
                assert(self.trackers() =~= before.update(
                    i as int,
                    before[i as int].after(sample@.rtt),
                ));
            }
        }
    }

    /// Whether a sample can be counted.
    pub fn can_count(&self, sample: &PingSample) -> (yes: bool)
        ensures
            yes == room_for_sample(self.trackers(), sample@.host, sample@.rtt),
    {
        match self.find_host(&sample.host) {
            Some(i) => {
                assert(self.trackers()[i as int] == self.ping_trackers@[i as int]@);
                self.ping_trackers[i].transmitted < u64::MAX && (sample.rtt.is_none()
                    || self.ping_trackers[i].received < u64::MAX)
            },
            None => true,
        }
    }

    /// Remembers a DNS result, and forgets the oldest if there are too many.
    pub fn on_dns_result(&mut self, result: DnsQueryResult)
        ensures
            final(self).dns_results@ == slid(
                old(self).dns_results@,
                result,
                DNS_RESULTS_LEN as nat,
            ),
            final(self).ping_trackers == old(self).ping_trackers,
            final(self).watcher_metrics == old(self).watcher_metrics,
            final(self).interface_name == old(self).interface_name,
            final(self).capture_warning == old(self).capture_warning,
    {
        if self.dns_results.len() >= DNS_RESULTS_LEN {
            let _ = self.dns_results.pop_front();
        }
        self.dns_results.push_back(result);
    }

    /// Takes a new look at the traffic.
    pub fn on_traffic(&mut self, metrics: Arc<TrafficMetrics>)
        ensures
            final(self).watcher_metrics == metrics,
            final(self).ping_trackers == old(self).ping_trackers,
            final(self).dns_results == old(self).dns_results,
            final(self).interface_name == old(self).interface_name,
            final(self).capture_warning == old(self).capture_warning,
    {
        self.watcher_metrics = metrics;
    }

    /// Notes why nothing is being captured.
    pub fn on_capture_failure(&mut self, reason: String)
        ensures
            final(self).capture_warning == Some(reason),
            final(self).ping_trackers == old(self).ping_trackers,
            final(self).dns_results == old(self).dns_results,
            final(self).watcher_metrics == old(self).watcher_metrics,
            final(self).interface_name == old(self).interface_name,
    {
        self.capture_warning = Some(reason);
    }
}

/// A queue of `n` zeros.
fn zeros(n: usize) -> (queue: VecDeque<u64>)
    ensures
        queue@ == Seq::new(n as nat, |i: int| 0u64),
{
    let mut queue: VecDeque<u64> = VecDeque::new();
    let mut i: usize = 0;
    while i < n
        invariant
            i <= n,
            queue@ == Seq::new(i as nat, |j: int| 0u64),
        decreases n - i,
    {
        queue.push_back(0);
        assert(Seq::new((i + 1) as nat, |j: int| 0u64) =~= Seq::new(i as nat, |j: int| 0u64).push(
            0u64,
        ));
        i = i + 1;
    }
    queue
}

/// Whole milliseconds of a number of nanoseconds, modulo 2^64.
fn whole_millis(nanos: u128) -> (ms: u64)
    ensures
        ms == rtt_millis(Some(nanos as nat)),
{
    ((nanos / NANOS_PER_MILLI) % 0x1_0000_0000_0000_0000) as u64
}

/// The last `limit` elements of `s`, or all of it.
pub open spec fn latest<T>(s: Seq<T>, limit: nat) -> Seq<T> {
    if s.len() <= limit {
        s
    } else {
        s.skip(s.len() - limit)
    }
}

/// A window that starts empty and takes in one element after the other holds, at
/// any time, the latest of all of them in order, and never more than its limit.
pub proof fn window_holds_the_latest<T>(all: Seq<T>, x: T, limit: nat)
    requires
        limit > 0,
    ensures
        slid(latest(all, limit), x, limit) == latest(all.push(x), limit),
        latest(all, limit).len() <= limit,
        latest(Seq::<T>::empty(), limit) == Seq::<T>::empty(),
{
    assert(slid(latest(all, limit), x, limit) =~= latest(all.push(x), limit));
}

/// Samples keep a history sound: it stays full, the newest round trip is its last,
/// a lost sample counts as sent but not as received, and no answer is counted
/// without its sample.
pub proof fn samples_keep_the_history_sound(tracker: TrackerView, rtt: Option<nat>)
    requires
        tracker.sound(),
        tracker.has_room(rtt),
    ensures
        tracker.after(rtt).sound(),
        tracker.after(rtt).history.last() == rtt_millis(rtt),
        tracker.after(rtt).transmitted == tracker.transmitted + 1,
        tracker.after(rtt).received == tracker.received + (if rtt is Some {
            1int
        } else {
            0int
        }),
{
}

/// Every history is sound from the start.
pub proof fn fresh_history_is_sound(host: Seq<char>)
    ensures
        fresh(host).sound(),
{
}

/// A sample changes the history of one host at most, and that one has the sample's
/// name.
pub proof fn samples_touch_one_host(
    trackers: Seq<TrackerView>,
    host: Seq<char>,
    rtt: Option<nat>,
    j: int,
)
    requires
        0 <= j < trackers.len(),
        trackers[j].host != host || exists|i: int|
            0 <= i < j && (#[trigger] trackers[i]).host == host,
    ensures
        after_sample(trackers, host, rtt).len() == trackers.len(),
        after_sample(trackers, host, rtt)[j] == trackers[j],
{
    host_from_is_first(trackers, host, 0);
}

proof fn host_from_is_first(trackers: Seq<TrackerView>, host: Seq<char>, from: nat)
    ensures
        host_from(trackers, host, from) matches Some(i) ==> {
            &&& from <= i < trackers.len()
            &&& trackers[i as int].host == host
            &&& forall|j: int| from <= j < i ==> (#[trigger] trackers[j]).host != host
        },
    decreases trackers.len() - from,
{
    if from < trackers.len() {
        host_from_is_first(trackers, host, from + 1);
    }
}

/// A round trip is kept in whole milliseconds, rounded down; a lost sample as zero.
pub proof fn milliseconds_are_rounded_down(nanos: nat)
    requires
        nanos / 1_000_000 <= u64::MAX,
    ensures
        rtt_millis(Some(nanos)) * 1_000_000 <= nanos < (rtt_millis(Some(nanos)) + 1) * 1_000_000,
        rtt_millis(None) == 0,
{
}

/// A sample moves the history of its host on by one place: every round trip moves one
/// place forward, the oldest of the forty goes, and the new one comes last. The latest
/// round trip is that of the sample, or none if it was lost; the name stays.
pub proof fn samples_move_the_history_on(tracker: TrackerView, rtt: Option<nat>)
    requires
        tracker.sound(),
        tracker.has_room(rtt),
    ensures
        ({
            let after = tracker.after(rtt);
            &&& after.host == tracker.host
            &&& tracker.history.len() == 40 && after.history.len() == 40
            &&& forall|i: int| 0 <= i < 39 ==> #[trigger] after.history[i] == tracker.history[i + 1]
            &&& after.history[39] == rtt_millis(rtt)
            &&& after.last_rtt == (match rtt {
                Some(_) => Some(rtt_millis(rtt)),
                None => None,
            })
        }),
{
}

/// Before its first sample a host has its own name, forty zeros, no latest round trip
/// and no counts.
pub proof fn fresh_history_is_blank(host: Seq<char>)
    ensures
        fresh(host).host == host,
        fresh(host).history.len() == 40,
        forall|i: int| 0 <= i < 40 ==> #[trigger] fresh(host).history[i] == 0,
        fresh(host).last_rtt is None,
        fresh(host).transmitted == 0,
        fresh(host).received == 0,
{
}

/// The first host of the sample's name takes it in: one more sent, one more received
/// if it was answered, and its round trip as the newest. A sample of a name that
/// nobody has changes nothing.
pub proof fn the_first_of_the_name_takes_the_sample(
    trackers: Seq<TrackerView>,
    host: Seq<char>,
    rtt: Option<nat>,
    i: int,
)
    requires
        0 <= i <= trackers.len(),
        forall|j: int| 0 <= j < i ==> (#[trigger] trackers[j]).host != host,
        i < trackers.len() ==> trackers[i].host == host && trackers[i].has_room(rtt)
            && trackers[i].sound(),
    ensures
        i == trackers.len() ==> after_sample(trackers, host, rtt) == trackers,
        i < trackers.len() ==> {
            let after = after_sample(trackers, host, rtt)[i];
            &&& after_sample(trackers, host, rtt).len() == trackers.len()
            &&& after.host == host
            &&& after.transmitted == trackers[i].transmitted + 1
            &&& after.received == trackers[i].received + (if rtt is Some {
                1int
            } else {
                0int
            })
            &&& after.history.last() == rtt_millis(rtt)
            &&& (after.last_rtt is Some <==> rtt is Some)
        },
{
    host_from_skips(trackers, host, 0, i as nat);
}

/// A window keeps everything in order while there is room, and lets the first go when
/// there is none; the new element comes last.
pub proof fn windows_slide_by_one<T>(s: Seq<T>, x: T, limit: nat)
    requires
        limit > 0,
        s.len() <= limit,
    ensures
        slid(s, x, limit).last() == x,
        slid(s, x, limit).len() == (if s.len() < limit {
            s.len() + 1
        } else {
            limit
        }),
        forall|i: int|
            0 <= i < slid(s, x, limit).len() - 1 ==> #[trigger] slid(s, x, limit)[i] == s[if s.len()
                < limit {
                i
            } else {
                i + 1
            }],
{
}

/// A state shows the histories of its hosts, in their order and as they are.
pub proof fn histories_are_seen_whole(state: AppState, i: int)
    ensures
        state.trackers().len() == state.ping_trackers@.len(),
        0 <= i < state.ping_trackers@.len() ==> {
            let (seen, tracker) = (state.trackers()[i], state.ping_trackers@[i]);
            &&& seen == tracker@
            &&& seen.host == tracker.host@
            &&& seen.history == tracker.history@
            &&& seen.last_rtt == tracker.last_rtt
            &&& seen.transmitted == tracker.transmitted
            &&& seen.received == tracker.received
        },
{
}

} // verus!
