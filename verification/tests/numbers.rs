use udp_balancer::number::Number;
use udp_balancer::text::{parse_port, starts_with, to_decimal, PortError};
use udp_balancer::time::{Duration, Instant};

fn n(x: f64) -> Number {
    Number::from_bits(x.to_bits())
}

#[test]
fn numbers_compare_as_doubles_do() {
    let all = [
        f64::NEG_INFINITY,
        -2.5,
        -1.0,
        -0.0,
        0.0,
        5e-324,
        0.0001,
        0.5,
        1.0,
        65535.75,
        f64::MAX,
        f64::INFINITY,
        f64::NAN,
        -f64::NAN,
    ];
    for a in all {
        for b in all {
            assert_eq!(n(a).is_below(n(b)), a < b, "{} < {}", a, b);
            assert_eq!(n(a).is_at_most(n(b)), a <= b, "{} <= {}", a, b);
            let max = f64::from_bits(n(a).max(n(b)).to_bits());
            let min = f64::from_bits(n(a).min(n(b)).to_bits());
            assert!(max == a.max(b) || (max.is_nan() && a.max(b).is_nan()));
            assert!(min == a.min(b) || (min.is_nan() && a.min(b).is_nan()));
        }
        assert_eq!(n(a).is_valid(), !a.is_nan());
    }
    assert_eq!(f64::from_bits(Number::zero().to_bits()), 0.0);
    assert_eq!(f64::from_bits(Number::one().to_bits()), 1.0);
    assert_eq!(f64::from_bits(Number::infinity().to_bits()), f64::INFINITY);
    assert_eq!(f64::from_bits(Number::neg_infinity().to_bits()), f64::NEG_INFINITY);
}

#[test]
fn decimal_notation() {
    assert_eq!(to_decimal(0), "0");
    assert_eq!(to_decimal(9), "9");
    assert_eq!(to_decimal(10), "10");
    assert_eq!(to_decimal(65537), "65537");
    assert_eq!(to_decimal(u64::MAX), "18446744073709551615");
}

#[test]
fn ports_read_as_the_standard_library_reads_them() {
    for text in [
        "", "+", "-", "0", "+0", "00080", "80", "+80", "-80", "65535", "65536", "99999", "99999x",
        "9999x9", "x", "8 0", " 80", "8080a", "+-1", "++1", "\u{0663}", "000000000000000065535",
        "655350", "6553x", "invalid",
    ] {
        let ours = parse_port(text).map_err(|e| e.message());
        let theirs = text.parse::<u16>().map_err(|e| e.to_string());
        assert_eq!(ours, theirs, "{:?}", text);
    }
    assert_eq!(parse_port(""), Err(PortError::Empty));
    assert_eq!(parse_port("a"), Err(PortError::InvalidDigit));
    assert_eq!(parse_port("70000"), Err(PortError::TooLarge));
    for port in [0u16, 1, 53, 8989, 65535] {
        assert_eq!(parse_port(&to_decimal(port as u64)), Ok(port));
    }
}

#[test]
fn prefixes() {
    assert!(starts_with("http://x", "http://"));
    assert!(starts_with("http://", "http://"));
    assert!(starts_with("abc", ""));
    assert!(!starts_with("http:/", "http://"));
    assert!(!starts_with("https://x", "http://"));
}

#[test]
fn durations_and_instants() {
    assert_eq!(Duration::from_secs(2).nanos, 2_000_000_000);
    assert_eq!(Duration::from_millis(1500).nanos, 1_500_000_000);
    assert_eq!(Duration::from_secs(3).half().nanos, 1_500_000_000);
    assert_eq!(Duration { nanos: 3 }.half().nanos, 1);
    assert!(Duration::from_secs(0).is_zero());
    assert!(!Duration { nanos: 1 }.is_zero());
    let early = Instant { nanos: 10 };
    let late = Instant { nanos: 25 };
    assert_eq!(late.duration_since(early).nanos, 15);
    assert_eq!(early.duration_since(late).nanos, 0);
}
