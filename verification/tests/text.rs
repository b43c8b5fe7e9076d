use pingenty::cli::{parse_list, Commands, RecordTypeCli};
use pingenty::clock::{from_millis, from_nanos, MAX_NANOS};
use pingenty::text::{push_decimal, push_fixed, rounded, split_list};
use std::time::Duration;

fn fixed(n: u128, places: u8) -> String {
    let mut s = String::new();
    push_fixed(&mut s, n, places);
    s
}

#[test]
fn decimal_text() {
    for n in [0u128, 7, 10, 99, 100, 1_234_567_890, u128::MAX] {
        let mut s = "x".to_string();
        push_decimal(&mut s, n);
        assert_eq!(s, format!("x{}", n));
    }
}

#[test]
fn fixed_point_text() {
    assert_eq!(fixed(12_500, 3), "12.500");
    assert_eq!(fixed(7, 3), "0.007");
    assert_eq!(fixed(1000, 1), "100.0");
    assert_eq!(fixed(5, 0), "5.");
    assert_eq!(fixed(u128::MAX, 38), "3.40282366920938463463374607431768211455");
}

#[test]
fn rounding() {
    assert_eq!(rounded(5, 2), 2);
    assert_eq!(rounded(7, 2), 4);
    assert_eq!(rounded(1499, 1000), 1);
    assert_eq!(rounded(1501, 1000), 2);
    assert_eq!(rounded(0, 9), 0);
}

#[test]
fn lists() {
    assert_eq!(split_list("1.1.1.1,8.8.8.8"), vec!["1.1.1.1", "8.8.8.8"]);
    assert_eq!(parse_list(" a , ,\tb\u{3000},,c"), vec!["a", "b", "c"]);
    assert!(split_list("").is_empty());
    assert!(split_list(" , ,").is_empty());
    assert_eq!(split_list("a b"), vec!["a b"]);
}

#[test]
fn durations() {
    assert_eq!(from_nanos(1_500_000_001), Duration::new(1, 500_000_001));
    assert_eq!(from_nanos(MAX_NANOS), Duration::MAX);
    assert_eq!(from_millis(1234), Duration::from_millis(1234));
}

#[test]
fn limits_of_commands() {
    let ping = |interval: u64| Commands::Ping { hosts: vec![], interval, timeout: 1, tcp_port: 80 };
    assert!(ping(50).is_within_limits());
    assert!(!ping(49).is_within_limits());
    let dns = |timeout: u64| Commands::Dns { domains: vec![], record_type: RecordTypeCli::A, timeout };
    assert!(dns(100).is_within_limits());
    assert!(!dns(99).is_within_limits());
    assert!(Commands::Watch { interface: None, interval: 0 }.is_within_limits());
}

#[test]
fn white_space_of_unicode() {
    let white = [
        9u32, 10, 11, 12, 13, 0x20, 0x85, 0xA0, 0x1680, 0x2000, 0x2001, 0x2002, 0x2003, 0x2004,
        0x2005, 0x2006, 0x2007, 0x2008, 0x2009, 0x200A, 0x2028, 0x2029, 0x202F, 0x205F, 0x3000,
    ];
    for code in 0..=0x10FFFFu32 {
        if let Some(c) = char::from_u32(code) {
            let blank = split_list(&c.to_string()).is_empty();
            assert_eq!(blank, c == ',' || white.contains(&code), "{:x}", code);
        }
    }
}
