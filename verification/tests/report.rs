use pingenty::cli::RecordTypeCli;
use pingenty::dns::{DnsQueryResult, DnsStatus};
use pingenty::ping::{LossRate, PingSample, PingStats};
use pingenty::report::{
    dns_line, dns_report, ping_line, ping_report, push_left_aligned, watch_report, PingTimes,
};
use pingenty::watch::ProtocolSnapshot;
use std::time::Duration;

#[test]
fn alignment() {
    for (text, width) in [("ab", 5), ("é", 3), ("abcdef", 3), ("", 2), ("abc", 3)] {
        let mut out = "|".to_string();
        push_left_aligned(&mut out, text, width);
        assert_eq!(out, format!("|{:<1$}", text, width));
    }
}

#[test]
fn ping_lines() {
    let mut stats = PingStats::default();
    let rtt = Some(Duration::from_micros(12_345));
    stats.record(rtt);
    stats.record(None);
    stats.record(Some(Duration::from_millis(20)));
    let sample = PingSample { host: "1.1.1.1".to_string(), rtt, is_fallback: false, error: None };
    assert_eq!(
        ping_report(&sample, &stats),
        format!(
            "Host: 1.1.1.1         | RTT: {:<10} | Perda: 33.3 % | Min: 12.345ms | Avg: {:?} | Max: 20ms [ICMP]",
            format!("{:.2?}", Duration::from_micros(12_345)),
            Duration::from_nanos(16_172_500),
        )
    );
    let silent = PingSample { host: "h".to_string(), rtt: None, is_fallback: true, error: None };
    let mut lost = PingStats::default();
    lost.record(None);
    assert_eq!(
        ping_report(&silent, &lost),
        "Host: h               | RTT: TIMEOUT    | Perda: 100.0% | Min: 0ns | Avg: 0ns | Max: 0ns [TCP-Fallback]"
    );
    let refused = PingSample {
        host: "h".to_string(),
        rtt: None,
        is_fallback: true,
        error: Some("TCP Erro: recusado".to_string()),
    };
    assert!(ping_report(&refused, &lost).contains(" | RTT: TCP Erro: recusado | Perda"));
}

#[test]
fn ping_line_of_given_times() {
    let sample = PingSample { host: "a".to_string(), rtt: None, is_fallback: false, error: None };
    let times = PingTimes {
        rtt: "r".to_string(),
        min: "1".to_string(),
        avg: "2".to_string(),
        max: "3".to_string(),
    };
    assert_eq!(
        ping_line(&sample, LossRate { lost: 0, transmitted: 4 }, &times),
        "Host: a               | RTT: r          | Perda: 0.0  % | Min: 1 | Avg: 2 | Max: 3 [ICMP]"
    );
}

fn result(status: DnsStatus) -> DnsQueryResult {
    DnsQueryResult { domain: "d.test".to_string(), record_type: RecordTypeCli::A, status }
}

#[test]
fn dns_lines() {
    let latency = Duration::from_micros(1500);
    let ok = result(DnsStatus::Success {
        records: vec!["1.2.3.4".to_string(), "a\"b".to_string()],
        latency,
    });
    assert_eq!(
        dns_report(&ok),
        "[OK] Domínio: d.test | Latência: 1.50ms | Registros: [\"1.2.3.4\", \"a\\\"b\"]"
    );
    let missing = result(DnsStatus::NotFound { latency });
    assert_eq!(dns_report(&missing), "[NXDOMAIN] Domínio inexistente: d.test | Latência: 1.50ms");
    let failed = result(DnsStatus::Error { message: "sem rota".to_string(), latency });
    assert_eq!(dns_report(&failed), "[FALHA] Domínio: d.test | Latência: 1.50ms | Causa: sem rota");
    assert_eq!(dns_line(&ok, "L", "R"), "[OK] Domínio: d.test | Latência: L | Registros: R");
}

#[test]
fn watch_lines() {
    let p = ProtocolSnapshot {
        tcp_bytes: 108,
        tcp_packets: 2,
        other_bytes: 12_345_678_901,
        other_packets: 123_456_789,
        ..ProtocolSnapshot::default()
    };
    assert_eq!(
        watch_report(&p, 1),
        "--- [Métricas] Fluxos ativos: 1 ---\n\
         TCP : 2        pacotes | 108        bytes\n\
         UDP : 0        pacotes | 0          bytes\n\
         ICMP: 0        pacotes | 0          bytes\n\
         OUTR: 123456789 pacotes | 12345678901 bytes\n"
    );
}
