use hickory_resolver::error::{ResolveError, ResolveErrorKind};
use hickory_resolver::proto::op::{Query, ResponseCode};
use hickory_resolver::proto::rr::{Name, RecordType};
use pingenty::cli::RecordTypeCli;
use pingenty::dns::{
    classify_lookup, failed_lookup, first_turn, is_nxdomain, is_nxdomain_failure, next_turn,
    DnsEngine, DnsStatus, DnsTurn, Lookup, LookupFailure,
};
use std::time::Duration;

fn erro(code: ResponseCode) -> ResolveError {
    ResolveError::from(ResolveErrorKind::NoRecordsFound {
        query: Box::new(Query::query(
            Name::from_ascii("exemplo.test.").expect("nome válido"),
            RecordType::A,
        )),
        soa: None,
        negative_ttl: None,
        response_code: code,
        trusted: true,
    })
}

#[test]
fn nxdomain_e_nodata_nao_sao_a_mesma_coisa() {
    assert!(is_nxdomain(&erro(ResponseCode::NXDomain)));
    assert!(!is_nxdomain(&erro(ResponseCode::NoError)));
    assert!(!is_nxdomain(&erro(ResponseCode::ServFail)));
}

#[test]
fn other_errors_are_not_nxdomain() {
    assert!(!is_nxdomain(&ResolveError::from("fora do ar")));
    assert!(!is_nxdomain(&ResolveError::from(ResolveErrorKind::Timeout)));
    assert!(!is_nxdomain(&erro(ResponseCode::Unknown(3))));
    assert!(is_nxdomain_failure(LookupFailure::NoRecords(3)));
    assert!(!is_nxdomain_failure(LookupFailure::NoRecords(0)));
    assert!(!is_nxdomain_failure(LookupFailure::Unassigned(3)));
    assert!(!is_nxdomain_failure(LookupFailure::NoAnswer));
    assert!(!is_nxdomain_failure(LookupFailure::Foreign));
}

#[test]
fn failures_keep_their_text() {
    match failed_lookup(&ResolveError::from("fora do ar")) {
        Lookup::Failed(LookupFailure::NoAnswer, text) => assert_eq!(text, "fora do ar"),
        _ => panic!("a failure was expected"),
    }
    match failed_lookup(&erro(ResponseCode::ServFail)) {
        Lookup::Failed(failure, text) => {
            assert_eq!(failure, LookupFailure::NoRecords(2));
            assert!(text.starts_with("no record found for "));
            assert!(text.contains("exemplo.test."));
        }
        _ => panic!("a failure was expected"),
    }
}

#[test]
fn failures_of_the_resolver_and_below() {
    let kinds = [
        (ResolveErrorKind::Message("a"), "a"),
        (ResolveErrorKind::Msg("b".to_string()), "b"),
        (ResolveErrorKind::NoConnections, "No connections available"),
        (ResolveErrorKind::Timeout, "request timed out"),
    ];
    for (kind, expected) in kinds {
        match failed_lookup(&ResolveError::from(kind)) {
            Lookup::Failed(LookupFailure::NoAnswer, text) => assert_eq!(text, expected),
            _ => panic!("no answer was expected"),
        }
    }
    let below = std::io::Error::new(std::io::ErrorKind::Other, "x");
    match failed_lookup(&ResolveError::from(ResolveErrorKind::Io(below))) {
        Lookup::Failed(LookupFailure::Foreign, text) => assert_eq!(text, "io error: x"),
        _ => panic!("a foreign error was expected"),
    }
}

#[test]
fn lookups_are_classified() {
    let ms = Duration::from_millis(7);
    match classify_lookup(Lookup::Records(vec!["1.1.1.1".to_string()]), ms) {
        DnsStatus::Success { records, latency } => {
            assert_eq!(records, vec!["1.1.1.1".to_string()]);
            assert_eq!(latency, ms);
        }
        _ => panic!("a success was expected"),
    }
    // The name exists, without the record asked for.
    match classify_lookup(Lookup::Records(vec![]), ms) {
        DnsStatus::Error { message, latency } => {
            assert_eq!(message, "Sem registros do tipo pedido");
            assert_eq!(latency, ms);
        }
        _ => panic!("an error was expected"),
    }
    assert!(matches!(
        classify_lookup(failed_lookup(&erro(ResponseCode::NoError)), ms),
        DnsStatus::Error { .. }
    ));
    assert!(matches!(
        classify_lookup(failed_lookup(&erro(ResponseCode::NXDomain)), ms),
        DnsStatus::NotFound { .. }
    ));
    match classify_lookup(Lookup::Failed(LookupFailure::NoRecords(0), "vazio".to_string()), ms) {
        DnsStatus::Error { message, latency } => {
            assert_eq!(message, "vazio");
            assert_eq!(latency, ms);
        }
        _ => panic!("an error was expected"),
    }
    match classify_lookup(Lookup::TimedOut, ms) {
        DnsStatus::Error { message, .. } => assert_eq!(message, "DNS Lookup Timeout"),
        _ => panic!("an error was expected"),
    }
}

#[test]
fn every_outcome_is_a_result() {
    let engine = DnsEngine::new(2000);
    assert_eq!(engine.timeout(), Duration::from_millis(2000));
    let res = engine.resolve("a.com", RecordTypeCli::Mx, Lookup::TimedOut, Duration::from_secs(2));
    assert_eq!(res.domain, "a.com");
    assert_eq!(res.record_type, RecordTypeCli::Mx);
    let copy = res.clone();
    assert!(matches!(copy.status, DnsStatus::Error { .. }));
}

#[test]
fn rounds_over_the_domains() {
    let mut turn = first_turn(2);
    let mut seen = vec![];
    for _ in 0..5 {
        seen.push(turn);
        turn = next_turn(2, turn, true);
    }
    assert_eq!(
        seen,
        vec![
            DnsTurn::Resolve(0),
            DnsTurn::Resolve(1),
            DnsTurn::Sleep,
            DnsTurn::Resolve(0),
            DnsTurn::Resolve(1)
        ]
    );
    assert_eq!(next_turn(2, DnsTurn::Resolve(0), false), DnsTurn::Stop);
    assert_eq!(next_turn(2, DnsTurn::Stop, true), DnsTurn::Stop);
    assert_eq!(first_turn(0), DnsTurn::Sleep);
    assert_eq!(next_turn(0, DnsTurn::Sleep, true), DnsTurn::Sleep);
    // Nobody listens any more: the end, also between two rounds and without domains.
    assert_eq!(next_turn(0, DnsTurn::Sleep, false), DnsTurn::Stop);
    assert_eq!(next_turn(2, DnsTurn::Sleep, false), DnsTurn::Stop);
}

#[test]
fn record_types_have_their_protocol_numbers() {
    for (kind, number) in [
        (RecordTypeCli::A, RecordType::A),
        (RecordTypeCli::Aaaa, RecordType::AAAA),
        (RecordTypeCli::Cname, RecordType::CNAME),
        (RecordTypeCli::Mx, RecordType::MX),
        (RecordTypeCli::Txt, RecordType::TXT),
    ] {
        assert_eq!(RecordType::from(kind.code()), number);
        assert_eq!(kind.label(), format!("{:?}", kind));
    }
}
