use pingenty::flows::{IpAddr, Protocol};
use pingenty::ping::PingStats;
use pingenty::watch::{PacketWatcher, TrafficMetrics};
use std::time::Duration;

#[test]
fn a_capture_adds_up() {
    let (a, b) = (IpAddr::V4(0x0A00_0001), IpAddr::V4(0x0A00_0002));
    // A UDP header from port 80 to port 90.
    let payload = [0u8, 80, 0, 90, 0, 8, 0, 0];
    let mut m = TrafficMetrics::default();
    for k in 0..30u64 {
        let (src, dst) = if k % 3 == 0 { (b, a) } else { (a, b) };
        let number = [17u8, 6, 1, 58, 47][(k % 5) as usize];
        PacketWatcher::process_l4(src, dst, number, &payload, k, Duration::from_secs(k), &mut m);
    }
    // Both directions of four classes; ICMP and ICMPv6 share theirs.
    assert_eq!(m.flows.len(), 8);
    let s = m.global_protocols.snapshot();
    assert_eq!((s.udp_packets, s.tcp_packets, s.icmp_packets, s.other_packets), (6, 6, 12, 6));
    let counters = [
        (Protocol::Udp, s.udp_packets, s.udp_bytes),
        (Protocol::Tcp, s.tcp_packets, s.tcp_bytes),
        (Protocol::Icmp, s.icmp_packets, s.icmp_bytes),
        (Protocol::Other, s.other_packets, s.other_bytes),
    ];
    for (class, packets, bytes) in counters {
        let mut sum = (0, 0);
        for i in 0..m.flows.row_count() {
            let (key, stat) = m.flows.row(i);
            if key.protocol == class {
                sum = (sum.0 + stat.packet_count, sum.1 + stat.byte_count);
            }
            // The header is long enough for the ports of UDP alone.
            assert_eq!(key.src_port, if key.protocol == Protocol::Udp { 80 } else { 0 });
        }
        assert_eq!(sum, (packets, bytes));
    }
    assert_eq!(s.udp_bytes + s.tcp_bytes + s.icmp_bytes + s.other_bytes, 29 * 30 / 2);
}

#[test]
fn statistics_go_along_with_the_samples() {
    let samples = [Some(30u64), None, Some(10), Some(20), None];
    let mut stats = PingStats::default();
    let mut seen = vec![];
    for rtt in samples {
        stats.record(rtt.map(Duration::from_millis));
        seen.push((stats.transmitted, stats.received, stats.sum_rtt.as_millis()));
    }
    assert_eq!(seen, vec![(1, 1, 30), (2, 1, 30), (3, 2, 40), (4, 3, 60), (5, 3, 60)]);
}
