use pingenty::echo::{build_echo_request, internet_checksum, is_valid_echo_reply};
use pingenty::ping::{
    echo_ident, icmp_checksum, judge_packet, EchoWait, LossRate, PingAction, PingEngine, PingEvent,
    PingSample, PingStats,
};
use std::time::Duration;

fn percent(rate: LossRate) -> f64 {
    if rate.transmitted == 0 {
        return 0.0;
    }
    (rate.lost as f64 / rate.transmitted as f64) * 100.0
}

fn percent_text(rate: LossRate) -> String {
    let mut text = String::new();
    rate.push_percent(&mut text);
    text
}

#[test]
fn ping_stats_loss_rate_all_lost() {
    let mut stats = PingStats::default();
    stats.record(None);
    stats.record(None);
    assert_eq!(percent(stats.loss_rate()), 100.0);
    assert_eq!(stats.avg_rtt(), None);
}

#[test]
fn ping_stats_avg_rtt_ignores_losses() {
    let mut stats = PingStats::default();
    stats.record(Some(Duration::from_millis(10)));
    stats.record(None);
    stats.record(Some(Duration::from_millis(30)));
    assert_eq!(stats.avg_rtt(), Some(Duration::from_millis(20)));
    assert!((percent(stats.loss_rate()) - 33.333).abs() < 0.01);
}

#[test]
fn checksum_roundtrip_valid() {
    let pkt = build_echo_request(0x1234, 0x0001);
    assert_eq!(icmp_checksum(&pkt), 0);
}

#[test]
fn checksum_changes_with_payload() {
    let a = build_echo_request(1, 1);
    let b = build_echo_request(2, 1);
    assert_ne!(a, b);
    assert_eq!(icmp_checksum(&a), 0);
    assert_eq!(icmp_checksum(&b), 0);
}

#[test]
fn rejects_wrong_type_and_id() {
    let mut good = [0u8; 12];
    good[0] = 0x00;
    good[1] = 0x00;
    good[4..6].copy_from_slice(&7u16.to_be_bytes());
    good[6..8].copy_from_slice(&9u16.to_be_bytes());
    assert!(is_valid_echo_reply(&good, 12, 7, 9));
    let mut bad = good;
    bad[0] = 0x03;
    assert!(!is_valid_echo_reply(&bad, 12, 7, 9));
    assert!(!is_valid_echo_reply(&good, 12, 8, 9));
}

#[test]
fn checksum_of_known_data() {
    // The worked example of RFC 1071, section 3.
    assert_eq!(icmp_checksum(&[0x00, 0x01, 0xf2, 0x03, 0xf4, 0xf5, 0xf6, 0xf7]), !0xddf2u16);
    assert_eq!(icmp_checksum(&[]), 0xFFFF);
    assert_eq!(icmp_checksum(&[0x12]), !0x1200u16);
    assert_eq!(icmp_checksum(&[0xFF, 0xFF]), 0);
    assert_eq!(internet_checksum(&[0xFF, 0xFF, 0x00, 0x01]), 0xFFFE);
}

#[test]
fn checksum_of_a_full_sized_buffer() {
    let data = vec![0xFFu8; 131074];
    assert_eq!(icmp_checksum(&data), 0);
}

#[test]
fn echo_request_bytes() {
    let pkt = build_echo_request(0x1234, 0x0001);
    assert_eq!(&pkt[0..2], &[8, 0]);
    assert_eq!(&pkt[4..12], &[0x12, 0x34, 0x00, 0x01, b'N', b'E', b'T', b'M']);
    let sum = u16::from_be_bytes([pkt[2], pkt[3]]);
    let mut blank = pkt;
    blank[2] = 0;
    blank[3] = 0;
    assert_eq!(icmp_checksum(&blank), sum);
}

#[test]
fn changed_word_breaks_the_checksum() {
    let mut pkt = build_echo_request(7, 9);
    pkt[8] = b'X';
    assert_ne!(icmp_checksum(&pkt), 0);
}

#[test]
fn reply_behind_an_ip_header() {
    let mut raw = vec![0u8; 28];
    raw[0] = 0x45;
    raw[24..26].copy_from_slice(&7u16.to_be_bytes());
    raw[26..28].copy_from_slice(&9u16.to_be_bytes());
    assert!(is_valid_echo_reply(&raw, 28, 7, 9));
    // Too short for the announced header and the reply.
    assert!(!is_valid_echo_reply(&raw, 27, 7, 9));
    // A header length below the minimum is not one.
    raw[0] = 0x44;
    assert!(!is_valid_echo_reply(&raw, 28, 7, 9));
    assert!(!is_valid_echo_reply(&[], 0, 7, 9));
}

#[test]
fn own_request_is_not_a_reply() {
    let pkt = build_echo_request(7, 9);
    assert!(!is_valid_echo_reply(&pkt, 12, 7, 9));
    let mut reply = pkt;
    reply[0] = 0;
    assert!(is_valid_echo_reply(&reply, 12, 7, 9));
}

#[test]
fn extremes_and_average() {
    let mut stats = PingStats::default();
    assert_eq!(stats.min_rtt, None);
    for ms in [30u64, 10, 21] {
        assert!(stats.can_record(Some(Duration::from_millis(ms))));
        stats.record(Some(Duration::from_millis(ms)));
    }
    assert_eq!(stats.min_rtt, Some(Duration::from_millis(10)));
    assert_eq!(stats.max_rtt, Some(Duration::from_millis(30)));
    assert_eq!(stats.sum_rtt, Duration::from_millis(61));
    // 61 ms / 3, rounded down to the nanosecond.
    assert_eq!(stats.avg_rtt(), Some(Duration::from_nanos(20_333_333)));
    assert_eq!(stats.loss_rate(), LossRate { lost: 0, transmitted: 3 });
}

#[test]
fn average_divides_by_the_whole_count() {
    let mut stats = PingStats::default();
    stats.received = (1u64 << 32) + 2;
    stats.sum_rtt = Duration::from_nanos(((1u64 << 32) + 2) * 7 + 1);
    assert_eq!(stats.avg_rtt(), Some(Duration::from_nanos(7)));
    stats.received = 1u64 << 32;
    stats.sum_rtt = Duration::from_nanos(10);
    assert_eq!(stats.avg_rtt(), Some(Duration::from_nanos(0)));
}

#[test]
fn full_statistics_take_no_more() {
    let mut stats = PingStats::default();
    stats.sum_rtt = Duration::MAX;
    assert!(!stats.can_record(Some(Duration::from_nanos(1))));
    assert!(stats.can_record(Some(Duration::from_nanos(0))));
    assert!(stats.can_record(None));
    stats.transmitted = u64::MAX;
    assert!(!stats.can_record(None));
}

#[test]
fn loss_text() {
    assert_eq!(percent_text(LossRate { lost: 0, transmitted: 0 }), "0.0");
    assert_eq!(percent_text(LossRate { lost: 1, transmitted: 3 }), "33.3");
    assert_eq!(percent_text(LossRate { lost: 2, transmitted: 3 }), "66.7");
    assert_eq!(percent_text(LossRate { lost: 5, transmitted: 5 }), "100.0");
    assert_eq!(percent_text(LossRate { lost: u64::MAX, transmitted: u64::MAX }), "100.0");
}

fn report(engine: &PingEngine, event: PingEvent) -> PingSample {
    match engine.ping_step("host", event) {
        PingAction::Report(sample) => sample,
        _ => panic!("a report was expected"),
    }
}

#[test]
fn probes_in_order() {
    let engine = PingEngine::new(500, 300, 80);
    assert!(matches!(
        engine.ping_step("host", PingEvent::ResolvedV4(0x01010101)),
        PingAction::SendEcho(0x01010101)
    ));
    assert!(matches!(engine.ping_step("host", PingEvent::ResolvedV6), PingAction::Connect));
    assert!(matches!(engine.ping_step("host", PingEvent::EchoFailed), PingAction::Connect));

    let s = report(&engine, PingEvent::EchoAnswered(Duration::from_millis(4)));
    assert_eq!((s.host.as_str(), s.rtt, s.is_fallback, s.error), ("host", Some(Duration::from_millis(4)), false, None));
    let s = report(&engine, PingEvent::Connected(Duration::from_millis(5)));
    assert_eq!((s.rtt, s.is_fallback, s.error), (Some(Duration::from_millis(5)), true, None));
    let s = report(&engine, PingEvent::ResolveFailed("x".to_string()));
    assert_eq!((s.rtt, s.is_fallback, s.error.as_deref()), (None, false, Some("Erro DNS: x")));
    let s = report(&engine, PingEvent::NoAddress);
    assert_eq!((s.rtt, s.is_fallback, s.error.as_deref()), (None, false, Some("Falha ao resolver endereço IP")));
    let s = report(&engine, PingEvent::ConnectFailed("recusado".to_string()));
    assert_eq!((s.rtt, s.is_fallback, s.error.as_deref()), (None, true, Some("TCP Erro: recusado")));
    let s = report(&engine, PingEvent::ConnectTimedOut);
    assert_eq!((s.rtt, s.is_fallback, s.error.as_deref()), (None, true, Some("Timeout excedido")));
}

#[test]
fn engine_settings() {
    let engine = PingEngine::new(500, 300, 8080);
    assert_eq!(engine.interval(), Duration::from_millis(500));
    assert_eq!(engine.timeout(), Duration::from_millis(300));
    assert_eq!(engine.echo_timeout(), Duration::from_millis(300));
    assert_eq!(PingEngine::new(1, 1500, 80).echo_timeout(), Duration::from_millis(1500));
    assert_eq!(engine.socket_target("exemplo.test"), "exemplo.test:8080");
    assert_eq!(PingEngine::new(u64::MAX, 0, 0).interval(), Duration::from_millis(u64::MAX));
}

#[test]
fn waiting_for_a_reply() {
    let mut reply = [0u8; 12];
    reply[5] = 7;
    reply[7] = 9;
    assert_eq!(judge_packet(&reply, 12, 7, 9, true), EchoWait::Answered);
    assert_eq!(judge_packet(&reply, 12, 7, 8, false), EchoWait::Waiting);
    assert_eq!(judge_packet(&reply, 12, 7, 8, true), EchoWait::Expired);
    assert_eq!(echo_ident(0x0001_2345), 0x2345);
}

#[test]
fn samples_and_statistics_can_be_copied() {
    let sample = PingSample {
        host: "h".to_string(),
        rtt: Some(Duration::from_millis(1)),
        is_fallback: false,
        error: None,
    };
    let copy = sample.clone();
    assert_eq!((copy.host, copy.rtt, copy.is_fallback, copy.error), (sample.host, sample.rtt, false, None));
    let mut stats = PingStats::default();
    stats.record(Some(Duration::from_millis(3)));
    assert_eq!(stats.clone().max_rtt, Some(Duration::from_millis(3)));
}
