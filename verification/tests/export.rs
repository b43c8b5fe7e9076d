use pingenty::cli::RecordTypeCli;
use pingenty::clock::secs_or_zero;
use pingenty::dns::{DnsQueryResult, DnsStatus};
use pingenty::export::{
    csv_row, esc, modo, ndjson_dns, ndjson_ping, rtt_ms, unix_secs_now, Exporter, CSV_HEADER,
};
use pingenty::ping::{LossRate, PingSample};
use std::time::Duration;

fn ping(host: &str, rtt: Option<Duration>, fallback: bool) -> PingSample {
    PingSample {
        host: host.into(),
        rtt,
        is_fallback: fallback,
        error: None,
    }
}

/// 12.345 %.
const SOME_LOSS: LossRate = LossRate { lost: 12_345, transmitted: 100_000 };

/// 100 %.
const ALL_LOST: LossRate = LossRate { lost: 1, transmitted: 1 };

#[test]
fn csv_tem_cabecalho_e_linha_parseavel() {
    assert_eq!(CSV_HEADER, "timestamp,host,rtt_ms,loss_pct,modo");
    let row = csv_row(
        1700000000,
        &ping("h", Some(Duration::from_micros(42500)), false),
        SOME_LOSS,
    );
    assert_eq!(row, "1700000000,h,42.500,12.3,icmp");
    let timeout = csv_row(7, &ping("h", None, true), ALL_LOST);
    assert_eq!(timeout, "7,h,,100.0,tcp");
}

#[test]
fn ndjson_ping_marca_null_e_escapa_host() {
    let line = ndjson_ping(9, &ping("h\"x\\y", None, true), ALL_LOST);
    assert_eq!(
        line,
        r#"{"t":9,"kind":"ping","host":"h\"x\\y","rtt_ms":null,"loss_pct":100.0,"modo":"tcp"}"#
    );
}

#[test]
fn ndjson_dns_cobre_ok_nxdomain_erro() {
    let ok = DnsQueryResult {
        domain: "a.com".into(),
        record_type: RecordTypeCli::A,
        status: DnsStatus::Success {
            records: vec!["1.1.1.1".into()],
            latency: Duration::from_millis(12),
        },
    };
    assert_eq!(
        ndjson_dns(1, &ok),
        r#"{"t":1,"kind":"dns","domain":"a.com","status":"ok","latency_ms":12.000}"#
    );
    let nx = DnsQueryResult {
        domain: "nx".into(),
        record_type: RecordTypeCli::A,
        status: DnsStatus::NotFound {
            latency: Duration::from_millis(3),
        },
    };
    assert!(ndjson_dns(1, &nx).contains("\"status\":\"nxdomain\""));
    let err = DnsQueryResult {
        domain: "e".into(),
        record_type: RecordTypeCli::A,
        status: DnsStatus::Error {
            message: "x".into(),
            latency: Duration::from_millis(500),
        },
    };
    assert!(ndjson_dns(1, &err).contains("\"status\":\"erro\""));
}

#[test]
fn ndjson_ping_with_a_round_trip() {
    let line = ndjson_ping(0, &ping("h", Some(Duration::from_nanos(1_234_567)), false), SOME_LOSS);
    assert_eq!(
        line,
        r#"{"t":0,"kind":"ping","host":"h","rtt_ms":1.235,"loss_pct":12.3,"modo":"icmp"}"#
    );
}

#[test]
fn milliseconds_to_the_nearest_microsecond() {
    assert_eq!(rtt_ms(None), "");
    assert_eq!(rtt_ms(Some(Duration::from_nanos(0))), "0.000");
    assert_eq!(rtt_ms(Some(Duration::from_nanos(499))), "0.000");
    assert_eq!(rtt_ms(Some(Duration::from_nanos(501))), "0.001");
    assert_eq!(rtt_ms(Some(Duration::from_nanos(999_999))), "1.000");
    assert_eq!(rtt_ms(Some(Duration::from_secs(61))), "61000.000");
    // Half a microsecond goes to the even one.
    assert_eq!(rtt_ms(Some(Duration::from_nanos(62_500))), "0.062");
}

#[test]
fn escaping() {
    assert_eq!(esc(""), "");
    assert_eq!(esc("a\nb"), "a\\nb");
    assert_eq!(esc("\\\""), "\\\\\\\"");
    assert_eq!(esc("endereço /\u{7f}"), "endereço /\u{7f}");
    assert_eq!(esc("a\tb\r"), "a\\tb\\r");
    assert_eq!(esc("\u{8}\u{c}"), "\\b\\f");
    assert_eq!(esc("\u{0}\u{1b}\u{1f} "), "\\u0000\\u001b\\u001f ");
    for code in 0..0x20u8 {
        let text = esc(&(code as char).to_string());
        assert!(text.starts_with('\\') && text.chars().all(|c| c >= ' '));
    }
    assert_eq!(modo(true), "tcp");
    assert_eq!(modo(false), "icmp");
}

#[test]
fn events_stay_on_one_line() {
    let line = ndjson_ping(1, &ping("a\nb", None, false), ALL_LOST);
    assert!(!line.contains('\n'));
    assert!(line.contains("\"host\":\"a\\nb\""));
}

#[test]
fn exporter_writes_what_is_switched_on() {
    let both = Exporter::new(Some("a.csv"), Some("b.ndjson"));
    let sample = ping("h", None, true);
    let lines = both.ping(7, &sample, ALL_LOST);
    assert_eq!(lines.csv.as_deref(), Some("7,h,,100.0,tcp"));
    assert!(lines.json.is_some());
    let csv_only = Exporter::new(Some("a.csv"), None);
    assert!(csv_only.ping(7, &sample, ALL_LOST).json.is_none());
    let res = DnsQueryResult {
        domain: "nx".into(),
        record_type: RecordTypeCli::A,
        status: DnsStatus::NotFound { latency: Duration::from_millis(3) },
    };
    assert!(csv_only.dns(1, &res).is_none());
    assert_eq!(both.dns(1, &res), Some(ndjson_dns(1, &res)));
}

#[test]
fn header_only_in_a_new_file() {
    assert_eq!(Exporter::csv_preamble(None), Some(CSV_HEADER));
    assert_eq!(Exporter::csv_preamble(Some(0)), Some(CSV_HEADER));
    assert_eq!(Exporter::csv_preamble(Some(36)), None);
}

#[test]
fn unix_time() {
    // Later than 2020, by any clock that this runs on.
    assert!(unix_secs_now() > 1_577_836_800);
    assert_eq!(secs_or_zero(None), 0);
    assert_eq!(secs_or_zero(Some(Duration::from_millis(2_999))), 2);
    assert_eq!(secs_or_zero(Some(Duration::MAX)), u64::MAX);
}

/// Numbers that repeat with every run.
fn scatter(seed: &mut u64) -> u64 {
    *seed = seed.wrapping_mul(6_364_136_223_846_793_005).wrapping_add(1_442_695_040_888_963_407);
    *seed ^ (*seed >> 29)
}

#[test]
fn times_read_as_doubles() {
    let mut seed = 7u64;
    for i in 0..20_000u64 {
        let bits = [0, 3, 10, 30, 43, 44, 52, 53, 54, 60, 64][(i % 11) as usize];
        let secs = if bits == 0 { 0 } else { scatter(&mut seed) >> (64 - bits) };
        let nanos = match i % 4 {
            0 => scatter(&mut seed) % 1_000_000_000,
            1 => scatter(&mut seed) % 1_000_000 * 1000 + 500,
            2 => scatter(&mut seed) % 3000,
            _ => 0,
        };
        let d = Duration::new(secs, nanos as u32);
        assert_eq!(rtt_ms(Some(d)), format!("{:.3}", d.as_secs_f64() * 1000.0), "{:?}", d);
    }
    assert_eq!(rtt_ms(Some(Duration::from_nanos(500))), "0.001");
    assert_eq!(rtt_ms(Some(Duration::MAX)), format!("{:.3}", Duration::MAX.as_secs_f64() * 1000.0));
}

#[test]
fn losses_read_as_doubles() {
    let mut seed = 11u64;
    for i in 0..20_000u64 {
        let transmitted = (scatter(&mut seed) >> [61, 52, 44, 20, 9, 0][(i % 6) as usize]) + (i % 6 / 5 ^ 1);
        let lost = match i % 5 {
            0 => transmitted / 2000,
            1 => transmitted / 80,
            2 => transmitted,
            _ => scatter(&mut seed) % (transmitted + (transmitted == 0) as u64),
        };
        if transmitted == 0 {
            continue;
        }
        let mut text = String::new();
        LossRate { lost, transmitted }.push_percent(&mut text);
        let expected = (lost as f64 / transmitted as f64) * 100.0;
        assert_eq!(text, format!("{:.1}", expected), "{} {}", lost, transmitted);
    }
    for (lost, transmitted, expected) in [(1, 2000, "0.1"), (3, 2000, "0.1"), (u64::MAX, 1, "1844674407370955161600.0")] {
        let mut text = String::new();
        LossRate { lost, transmitted }.push_percent(&mut text);
        assert_eq!(text, expected);
    }
}
