use pingenty::flows::{FiveTuple, FlowStat, FlowTable, IpAddr, Protocol, MAX_FLOWS};
use pingenty::packet::{decode_frame, flow_of, FrameRecord};
use pingenty::ranking::top_flows;
use pingenty::watch::{
    attempt_label, capture_attempts, split_interface_spec, InterfaceInfo, PacketWatcher, ProtocolCounters, TrafficMetrics, WatchError,
};
use pnet::packet::ip::IpNextHeaderProtocols;
use std::sync::Arc;
use std::time::Duration;

fn v4(a: u8, b: u8, c: u8, d: u8) -> IpAddr {
    IpAddr::V4(u32::from_be_bytes([a, b, c, d]))
}

fn tuple(n: u32, protocol: Protocol) -> FiveTuple {
    FiveTuple {
        src_ip: IpAddr::V4(n),
        dst_ip: v4(10, 255, 0, 1),
        src_port: 49152,
        dst_port: 443,
        protocol,
    }
}

#[test]
fn counters_increment_without_lock_contention_path() {
    let mut m = TrafficMetrics::default();
    PacketWatcher::process_l4(
        v4(1, 1, 1, 1),
        v4(2, 2, 2, 2),
        IpNextHeaderProtocols::Tcp.0,
        &[],
        100,
        Duration::from_secs(0),
        &mut m,
    );
    let snap = m.global_protocols.snapshot();
    assert_eq!(snap.tcp_packets, 1);
    assert_eq!(snap.tcp_bytes, 100);
    assert_eq!(m.flows.len(), 1);
}

/// An Ethernet header in front of `data`.
fn frame(ethertype: u16, data: &[u8]) -> Vec<u8> {
    let mut f = vec![0xAA; 12];
    f.extend_from_slice(&ethertype.to_be_bytes());
    f.extend_from_slice(data);
    f
}

fn ipv4(proto: u8, header_words: u8, payload: &[u8]) -> Vec<u8> {
    let mut p = vec![0u8; header_words as usize * 4];
    p[0] = 0x40 | header_words;
    let total = (p.len() + payload.len()) as u16;
    p[2..4].copy_from_slice(&total.to_be_bytes());
    p[9] = proto;
    p[12..16].copy_from_slice(&[10, 0, 0, 1]);
    p[16..20].copy_from_slice(&[10, 0, 0, 2]);
    p.extend_from_slice(payload);
    p
}

fn ports(len: usize) -> Vec<u8> {
    let mut p = vec![0u8; len];
    p[0..4].copy_from_slice(&[0x1F, 0x90, 0x01, 0xBB]);
    p
}

fn flow(record: FrameRecord) -> FiveTuple {
    match record {
        FrameRecord::Flow(t) => t,
        _ => panic!("a flow was expected"),
    }
}

#[test]
fn frames_of_ipv4() {
    let t = flow(decode_frame(&frame(0x0800, &ipv4(6, 5, &ports(20)))));
    assert_eq!(
        t,
        FiveTuple {
            src_ip: v4(10, 0, 0, 1),
            dst_ip: v4(10, 0, 0, 2),
            src_port: 8080,
            dst_port: 443,
            protocol: Protocol::Tcp,
        }
    );
    // Options in the header are skipped.
    assert_eq!(flow(decode_frame(&frame(0x0800, &ipv4(17, 6, &ports(8))))).src_port, 8080);
    // A transport header that is cut short has no ports.
    let cut = flow(decode_frame(&frame(0x0800, &ipv4(6, 5, &ports(19)))));
    assert_eq!((cut.src_port, cut.dst_port, cut.protocol), (0, 0, Protocol::Tcp));
    let icmp = flow(decode_frame(&frame(0x0800, &ipv4(1, 5, &ports(8)))));
    assert_eq!((icmp.src_port, icmp.protocol), (0, Protocol::Icmp));
    assert_eq!(flow(decode_frame(&frame(0x0800, &ipv4(47, 5, &[])))).protocol, Protocol::Other);
}

#[test]
fn total_length_ends_the_payload() {
    // Ethernet padding behind a short packet is no transport header.
    let mut data = ipv4(17, 5, &[]);
    data.extend_from_slice(&ports(8));
    assert_eq!(flow(decode_frame(&frame(0x0800, &data))).src_port, 0);
    // A header length below the minimum counts as the minimum for the start.
    let mut odd = ipv4(17, 5, &ports(8));
    odd[0] = 0x40;
    assert_eq!(flow(decode_frame(&frame(0x0800, &odd))).src_port, 8080);
}

#[test]
fn frames_of_ipv6() {
    let mut data = vec![0u8; 40];
    data[0] = 0x60;
    data[4..6].copy_from_slice(&8u16.to_be_bytes());
    data[6] = 17;
    data[23] = 1;
    data[39] = 2;
    data.extend_from_slice(&ports(8));
    let t = flow(decode_frame(&frame(0x86DD, &data)));
    assert_eq!((t.src_ip, t.dst_ip), (IpAddr::V6(1), IpAddr::V6(2)));
    assert_eq!((t.src_port, t.dst_port, t.protocol), (8080, 443, Protocol::Udp));
    data[6] = 58;
    assert_eq!(flow(decode_frame(&frame(0x86DD, &data))).protocol, Protocol::Icmp);
}

#[test]
fn frames_without_a_flow() {
    assert_eq!(decode_frame(&[0u8; 13]), FrameRecord::Ignored);
    assert_eq!(decode_frame(&frame(0x0806, &[])), FrameRecord::NonIp);
    assert_eq!(decode_frame(&frame(0x0800, &[0u8; 19])), FrameRecord::Ignored);
    assert_eq!(decode_frame(&frame(0x86DD, &[0u8; 39])), FrameRecord::Ignored);
}

#[test]
fn frames_are_counted_once() {
    let mut m = TrafficMetrics::default();
    let now = Duration::from_secs(1);
    assert!(PacketWatcher::process_frame(&frame(0x0806, &[0; 28]), now, &mut m));
    assert!(PacketWatcher::process_frame(&[0; 5], now, &mut m));
    let tcp = frame(0x0800, &ipv4(6, 5, &ports(20)));
    assert!(PacketWatcher::process_frame(&tcp, now, &mut m));
    assert!(PacketWatcher::process_frame(&tcp, now, &mut m));
    let s = m.global_protocols.snapshot();
    assert_eq!((s.other_packets, s.other_bytes), (1, 42));
    assert_eq!((s.tcp_packets, s.tcp_bytes), (2, 108));
    assert_eq!((s.udp_packets, s.icmp_packets, s.icmp_bytes), (0, 0, 0));
    assert_eq!(m.flows.len(), 1);
    let stat = m.flows.row(0).1;
    assert_eq!((stat.packet_count, stat.byte_count, stat.last_seen), (2, 108, Some(now)));
}

#[test]
fn frames_count_in_their_class_alone() {
    let mut c = ProtocolCounters::default();
    c.count_frame(&frame(0x0800, &ipv4(17, 5, &ports(8))));
    c.count_frame(&frame(0x0806, &[]));
    c.count_frame(&[0; 3]);
    let s = c.snapshot();
    assert_eq!((s.udp_packets, s.udp_bytes, s.other_packets, s.other_bytes), (1, 42, 1, 14));
    assert_eq!((s.tcp_packets, s.icmp_packets), (0, 0));
}

#[test]
fn full_flows_count_nothing() {
    let tcp = frame(0x0800, &ipv4(6, 5, &ports(20)));
    let mut m = TrafficMetrics::default();
    let full = FlowStat { packet_count: u64::MAX, byte_count: 7, last_seen: None };
    m.flows.insert(flow(decode_frame(&tcp)), full);
    assert!(!PacketWatcher::process_frame(&tcp, Duration::from_secs(1), &mut m));
    assert_eq!(m.global_protocols.snapshot().tcp_packets, 0);
    assert_eq!(m.flows.row(0).1.byte_count, 7);
    assert!(PacketWatcher::process_frame(&frame(0x0806, &[]), Duration::from_secs(1), &mut m));
}

#[test]
fn transport_payload_without_a_frame() {
    let t = flow_of(IpAddr::V6(1), IpAddr::V6(2), 17, &ports(8));
    assert_eq!((t.src_port, t.dst_port), (8080, 443));
    assert_eq!(flow_of(IpAddr::V6(1), IpAddr::V6(2), 17, &ports(7)).src_port, 0);
}

#[test]
fn counters_wrap_around() {
    let mut c = ProtocolCounters::default();
    c.udp_bytes = u64::MAX;
    c.count(Protocol::Udp, 2);
    assert_eq!((c.udp_bytes, c.udp_packets), (1, 1));
}

#[test]
fn table_keeps_keys_apart() {
    let mut table = FlowTable::new();
    for n in [5u32, 1, 9, 3, 5, 9] {
        assert!(table.has_room(&tuple(n, Protocol::Tcp), 10));
        table.touch(tuple(n, Protocol::Tcp), 10, Duration::from_secs(1));
    }
    table.touch(tuple(5, Protocol::Udp), 7, Duration::from_secs(2));
    assert_eq!(table.len(), 5);
    assert_eq!(table.get(&tuple(5, Protocol::Tcp)).unwrap().packet_count, 2);
    assert_eq!(table.get(&tuple(5, Protocol::Udp)).unwrap().byte_count, 7);
    assert!(table.get(&tuple(4, Protocol::Tcp)).is_none());
    let mut other = tuple(5, Protocol::Tcp);
    other.src_ip = IpAddr::V6(5);
    assert!(table.get(&other).is_none());
    table.insert(tuple(5, Protocol::Tcp), FlowStat { packet_count: 1, byte_count: u64::MAX, last_seen: None });
    assert_eq!(table.len(), 5);
    assert!(!table.has_room(&tuple(5, Protocol::Tcp), 1));
    assert_eq!(table.clone().row_count(), 5);
}

#[test]
fn old_flows_go_when_there_are_too_many() {
    let mut table = FlowTable::new();
    let old = Duration::from_secs(0);
    let young = Duration::from_secs(100);
    for n in 0..MAX_FLOWS as u32 {
        table.touch(tuple(n, Protocol::Tcp), 1, if n % 2 == 0 { old } else { young });
    }
    assert_eq!(table.len(), MAX_FLOWS);
    // Within the limit nothing goes, however old.
    table.touch(tuple(1, Protocol::Tcp), 1, Duration::from_secs(300));
    assert_eq!(table.len(), MAX_FLOWS);
    // One too many, just before the old ones expire: nothing goes.
    table.touch(tuple(20_000, Protocol::Tcp), 1, Duration::from_millis(299_999));
    assert_eq!(table.len(), MAX_FLOWS + 1);
    // 300 seconds after the old ones.
    table.touch(tuple(20_001, Protocol::Tcp), 1, Duration::from_secs(300));
    assert_eq!(table.len(), MAX_FLOWS / 2 + 2);
    assert!(table.get(&tuple(20_001, Protocol::Tcp)).is_some());
    assert!(table.get(&tuple(0, Protocol::Tcp)).is_none());
}

#[test]
fn flows_never_seen_go_first() {
    let mut table = FlowTable::new();
    for n in 0..MAX_FLOWS as u32 {
        table.insert(tuple(n, Protocol::Tcp), FlowStat::default());
    }
    table.touch(tuple(20_000, Protocol::Tcp), 1, Duration::from_secs(0));
    assert_eq!(table.len(), 1);
}

#[test]
fn busiest_flows_first() {
    let mut table = FlowTable::new();
    for (n, bytes) in [(1u32, 10u64), (2, 30), (3, 20), (4, 30), (5, 5)] {
        table.touch(tuple(n, Protocol::Tcp), bytes, Duration::from_secs(0));
    }
    let top: Vec<(IpAddr, u64)> = top_flows(&table, 4).iter().map(|f| (f.0.src_ip, f.1.byte_count)).collect();
    assert_eq!(
        top,
        vec![(IpAddr::V4(2), 30), (IpAddr::V4(4), 30), (IpAddr::V4(3), 20), (IpAddr::V4(1), 10)]
    );
    assert_eq!(top_flows(&table, 9).len(), 5);
    assert_eq!(top_flows(&table, 0).len(), 0);
}

fn interface(name: &str, is_up: bool, is_loopback: bool, has_addresses: bool) -> InterfaceInfo {
    InterfaceInfo { name: name.to_string(), is_up, is_loopback, has_addresses }
}

#[test]
fn interfaces_are_chosen() {
    let all = vec![
        interface("lo", true, true, true),
        interface("eth0", false, false, true),
        interface("eth1", true, false, false),
        interface("wlan0", true, false, true),
        interface("wlan1", true, false, true),
    ];
    let (watcher, at) = PacketWatcher::new(None, &all).expect("usable");
    assert_eq!((watcher.interface_name.as_str(), at), ("wlan0", 3));
    assert_eq!(watcher.metrics.flows.len(), 0);
    let (watcher, at) = PacketWatcher::new(Some("eth0".to_string()), &all).expect("named");
    assert_eq!((watcher.interface_name.as_str(), at), ("eth0", 1));
    let missing = PacketWatcher::new(Some("eth9".to_string()), &all).err().expect("missing");
    assert_eq!(missing.message(), "Interface 'eth9' não encontrada no host.");
    let none = PacketWatcher::new(None, &vec![interface("lo", true, true, true)]).err().expect("none");
    assert_eq!(none.message(), "Nenhuma interface de rede ativa e utilizável detectada.");
    assert_eq!(
        WatchError::NotEthernet.message(),
        "Canal de dados não suportado (não-Ethernet)."
    );
    assert_eq!(
        WatchError::OpenFailed("eth0".to_string(), "EPERM".to_string()).message(),
        "Permissão negada ao abrir interface 'eth0'. Requer root ou CAP_NET_RAW. Erro: EPERM"
    );
}

#[test]
fn interfaces_of_an_option() {
    assert!(split_interface_spec(None).is_empty());
    assert_eq!(split_interface_spec(Some(" eth0, ,wlan0,")), vec!["eth0", "wlan0"]);
    assert!(split_interface_spec(Some("")).is_empty());
    assert_eq!(split_interface_spec(Some("lo,eth0, lo ,eth0")), vec!["lo", "eth0"]);
}

#[test]
fn captures_to_try() {
    let names = |option: Option<&str>| -> Vec<String> {
        capture_attempts(option).iter().map(attempt_label).collect()
    };
    assert_eq!(names(Some("eth0,wlan0")), vec!["eth0", "wlan0"]);
    assert_eq!(names(Some(" , ")), vec!["<padrão>"]);
    assert_eq!(names(None), vec!["<padrão>"]);
    assert_eq!(capture_attempts(None), vec![None]);
    assert_eq!(capture_attempts(Some("a")), vec![Some("a".to_string())]);
}

#[test]
fn interfaces_add_up() {
    let mut a = TrafficMetrics::default();
    let mut b = TrafficMetrics::default();
    a.record(tuple(1, Protocol::Tcp), 100, Duration::from_secs(5));
    a.record(tuple(2, Protocol::Icmp), 8, Duration::from_secs(5));
    b.record(tuple(1, Protocol::Tcp), 50, Duration::from_secs(4));
    let all = vec![Arc::new(a), Arc::new(b)];
    let sum = TrafficMetrics::sum_snapshots(&all);
    assert_eq!((sum.tcp_packets, sum.tcp_bytes, sum.icmp_bytes), (2, 150, 8));
    let flows = TrafficMetrics::merge_flows(&all);
    assert_eq!(flows.len(), 2);
    let both = flows.get(&tuple(1, Protocol::Tcp)).unwrap();
    assert_eq!((both.packet_count, both.byte_count), (2, 150));
    assert_eq!(both.last_seen, Some(Duration::from_secs(5)));
}
