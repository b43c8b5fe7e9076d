use pingenty::cli::RecordTypeCli;
use pingenty::dns::{DnsQueryResult, DnsStatus};
use pingenty::flows::{FiveTuple, FlowStat, IpAddr, Protocol};
use pingenty::ping::PingSample;
use pingenty::tui::app::{AppState, DNS_RESULTS_LEN, HISTORY_LEN};
use pingenty::tui::ui::{
    endpoint_text, screen_of, status_label, volume_text, Endpoint, Tone, DNS_TITLE, FLOWS_TITLE, FOOTER, PING_TITLE,
    PROTOCOLS_TITLE,
};
use pingenty::tui::TuiRunner;
use pingenty::watch::TrafficMetrics;
use std::sync::Arc;
use std::time::Duration;

fn endpoint(end: &Endpoint) -> String {
    match end {
        Endpoint::V4(text) => text.clone(),
        Endpoint::V6(bits, port) => panic!("no text for {} {}", bits, port),
    }
}

/// Every text on the dashboard, a line each.
fn screen_text(state: &AppState) -> String {
    let screen = screen_of(state);
    let mut lines = vec![
        screen.header,
        PING_TITLE.to_string(),
        DNS_TITLE.to_string(),
        PROTOCOLS_TITLE.to_string(),
        FLOWS_TITLE.to_string(),
        screen.protocols,
        FOOTER.to_string(),
    ];
    for row in screen.pings {
        lines.push(row.label);
    }
    for row in screen.dns {
        lines.push(format!("{} {} {}", row.domain, row.record_type, row.status));
    }
    for row in screen.flows {
        lines.push(format!(
            "{} {} {} {} {}",
            row.protocol,
            endpoint(&row.src),
            endpoint(&row.dst),
            row.packets,
            row.volume
        ));
    }
    lines.join("\n")
}

fn state_with_hosts(hosts: &[&str]) -> AppState {
    AppState::new(
        hosts.iter().map(|h| h.to_string()).collect(),
        "eth-test".into(),
        Arc::new(TrafficMetrics::default()),
    )
}

fn sample(host: &str, rtt_ms: Option<u64>) -> PingSample {
    PingSample {
        host: host.to_string(),
        rtt: rtt_ms.map(Duration::from_millis),
        is_fallback: rtt_ms.is_none(),
        error: if rtt_ms.is_none() { Some("timeout".to_string()) } else { None },
    }
}

fn dns_result(domain: &str, status: DnsStatus) -> DnsQueryResult {
    DnsQueryResult {
        domain: domain.to_string(),
        record_type: RecordTypeCli::A,
        status,
    }
}

#[test]
fn ping_history_tracks_loss() {
    let m = Arc::new(TrafficMetrics::default());
    let mut app = AppState::new(vec!["h".into()], "eth0".into(), m);
    app.on_ping_sample(PingSample {
        host: "h".into(),
        rtt: None,
        is_fallback: true,
        error: Some("timeout".into()),
    });
    assert_eq!(app.ping_trackers[0].transmitted, 1);
    assert_eq!(app.ping_trackers[0].received, 0);
}

#[test]
fn header_e_footer_mostram_contexto() {
    let state = state_with_hosts(&["1.1.1.1"]);
    let text = screen_text(&state);
    assert!(text.contains("NETMON"));
    assert!(text.contains("Interface: [eth-test]"));
    assert!(text.contains("Pressione 'q'"));
}

#[test]
fn painel_ping_mostra_rtt_perda_e_timeout() {
    let mut state = state_with_hosts(&["host-a", "host-b"]);
    state.on_ping_sample(sample("host-a", Some(42)));
    state.on_ping_sample(sample("host-b", None));
    let text = screen_text(&state);
    assert!(text.contains("Latência ICMP/TCP"));
    assert!(text.contains("host-a => Atual: 42 ms | Perda: 0.0%"));
    assert!(text.contains("host-b => Atual: TIMEOUT | Perda: 100.0%"));
}

#[test]
fn painel_dns_mostra_ok_nxdomain_e_erro() {
    let mut state = state_with_hosts(&["1.1.1.1"]);
    state.on_dns_result(dns_result(
        "ok.example",
        DnsStatus::Success {
            records: vec!["1.2.3.4".into()],
            latency: Duration::from_millis(12),
        },
    ));
    state.on_dns_result(dns_result(
        "nx.example",
        DnsStatus::NotFound {
            latency: Duration::from_millis(3),
        },
    ));
    state.on_dns_result(dns_result(
        "err.example",
        DnsStatus::Error {
            message: "sem rota".into(),
            latency: Duration::from_millis(500),
        },
    ));
    let text = screen_text(&state);
    assert!(text.contains("Monitor DNS"));
    assert!(text.contains("ok.example"));
    assert!(text.contains("OK (12.0ms)"));
    assert!(text.contains("nx.example"));
    assert!(text.contains("NXDOMAIN (3.0ms)"));
    assert!(text.contains("err.example"));
    assert!(text.contains("ERRO (500.0ms)"));
}

#[test]
fn painel_watch_mostra_protocolos_e_fluxos() {
    let mut metrics = TrafficMetrics::default();
    metrics.global_protocols.tcp_packets = 1;
    metrics.global_protocols.tcp_bytes = 2048;
    metrics.flows.insert(
        FiveTuple {
            src_ip: IpAddr::V4(u32::from_be_bytes([10, 0, 0, 1])),
            dst_ip: IpAddr::V4(u32::from_be_bytes([10, 0, 0, 2])),
            src_port: 0,
            dst_port: 0,
            protocol: Protocol::Tcp,
        },
        FlowStat {
            packet_count: 1,
            byte_count: 2048,
            last_seen: Some(Duration::from_secs(0)),
        },
    );
    let state = AppState::new(vec!["1.1.1.1".into()], "eth-test".into(), Arc::new(metrics));
    let text = screen_text(&state);
    assert!(text.contains("Protocolos Agregados"));
    assert!(text.contains("TCP: 1 pkts (2 KB)"));
    assert!(text.contains("UDP: 0 pkts (0 KB)"));
    assert!(text.contains("Fluxos Ativos (5-Tuple)"));
    assert!(text.contains("10.0.0.1:0"));
    assert!(text.contains("10.0.0.2:0"));
    assert!(text.contains("2.00 KB"));
}

#[test]
fn history_slides() {
    let mut state = state_with_hosts(&["a", "b", "a"]);
    assert_eq!(state.ping_trackers[0].history.len(), HISTORY_LEN);
    for ms in 1..=50u64 {
        assert!(state.can_count(&sample("a", Some(ms))));
        state.on_ping_sample(sample("a", Some(ms)));
    }
    state.on_ping_sample(sample("a", None));
    state.on_ping_sample(sample("c", Some(1)));
    let a = &state.ping_trackers[0];
    assert_eq!(a.history.len(), HISTORY_LEN);
    assert_eq!((a.history[0], a.history[38], a.history[39]), (12, 50, 0));
    assert_eq!((a.transmitted, a.received, a.last_rtt), (51, 50, None));
    // Neither the other host nor the second one of the same name saw a sample.
    assert_eq!(state.ping_trackers[1].transmitted, 0);
    assert_eq!(state.ping_trackers[2].transmitted, 0);
    assert_eq!(screen_of(&state).pings[0].bars.len(), HISTORY_LEN);
}

#[test]
fn full_counters_take_no_more() {
    let mut state = state_with_hosts(&["a"]);
    state.ping_trackers[0].transmitted = u64::MAX;
    assert!(!state.can_count(&sample("a", None)));
    assert!(state.can_count(&sample("b", None)));
}

#[test]
fn latest_dns_results_newest_first() {
    let mut state = state_with_hosts(&[]);
    for i in 0..25 {
        state.on_dns_result(dns_result(
            &format!("d{}", i),
            DnsStatus::NotFound { latency: Duration::from_millis(1) },
        ));
    }
    assert_eq!(state.dns_results.len(), DNS_RESULTS_LEN);
    assert_eq!(state.dns_results[0].domain, "d5");
    let rows = screen_of(&state).dns;
    assert_eq!(rows.len(), 10);
    assert_eq!(rows[0].domain, "d24");
    assert_eq!(rows[9].domain, "d15");
    assert_eq!(rows[0].tone, Tone::Yellow);
}

#[test]
fn status_labels() {
    let error = DnsStatus::Error { message: "x".to_string(), latency: Duration::from_millis(1) };
    assert_eq!(status_label(&error, "1.0ms"), ("ERRO (1.0ms)".to_string(), Tone::Red));
    let ok = DnsStatus::Success { records: vec![], latency: Duration::from_millis(1) };
    assert_eq!(status_label(&ok, "y"), ("OK (y)".to_string(), Tone::Green));
}

#[test]
fn volumes() {
    assert_eq!(volume_text(0), "0.00 KB");
    assert_eq!(volume_text(1), "0.00 KB");
    assert_eq!(volume_text(1500), "1.46 KB");
    // 128 bytes are 0.125 KB; the half goes to the even digit.
    assert_eq!(volume_text(128), "0.12 KB");
    for bytes in [3u64, 128, 384, 640, 1023, 1025, 99_999, 1 << 40, (1 << 53) + 1, u64::MAX] {
        assert_eq!(volume_text(bytes), format!("{:.2} KB", bytes as f64 / 1024.0));
    }
}

#[test]
fn traffic_is_replaced() {
    let mut state = state_with_hosts(&["a"]);
    let mut metrics = TrafficMetrics::default();
    metrics.global_protocols.count(Protocol::Icmp, 5000);
    state.on_traffic(Arc::new(metrics));
    assert!(screen_text(&state).contains("ICMP: 1 pkts (4 KB)"));
}

#[test]
fn keys_that_quit() {
    assert!(TuiRunner::should_quit('q', false));
    assert!(TuiRunner::should_quit('q', true));
    assert!(TuiRunner::should_quit('c', true));
    assert!(!TuiRunner::should_quit('c', false));
    assert!(!TuiRunner::should_quit('x', true));
}

#[test]
fn ends_of_flows() {
    assert_eq!(endpoint_text(0, 0), "0.0.0.0:0");
    assert_eq!(endpoint_text(u32::from_be_bytes([192, 168, 1, 254]), 8080), "192.168.1.254:8080");
    assert_eq!(endpoint_text(u32::MAX, u16::MAX), "255.255.255.255:65535");
    let mut metrics = TrafficMetrics::default();
    metrics.record(
        FiveTuple {
            src_ip: IpAddr::V6(1),
            dst_ip: IpAddr::V6(2),
            src_port: 3,
            dst_port: 4,
            protocol: Protocol::Udp,
        },
        10,
        Duration::from_secs(0),
    );
    let state = AppState::new(vec![], "e".into(), Arc::new(metrics));
    let row = &screen_of(&state).flows[0];
    assert!(matches!(row.src, Endpoint::V6(1, 3)));
    assert!(matches!(row.dst, Endpoint::V6(2, 4)));
}

#[test]
fn traffic_panel_tells_why_there_is_no_capture() {
    let mut state = state_with_hosts(&["a"]);
    assert!(screen_of(&state).protocols.starts_with("TCP: 0 pkts"));
    state.on_capture_failure("Interface 'x' não encontrada no host.".to_string());
    state.on_traffic(Arc::new(TrafficMetrics::default()));
    assert_eq!(screen_of(&state).protocols, "Interface 'x' não encontrada no host.");
}
