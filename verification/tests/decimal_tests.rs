use conditional_orderbook::decimal::{FixedDecimal, MAX_MANTISSA, MAX_SCALE};
use conditional_orderbook::utils::{fxhash, now_ms, timestamp_from};

fn d(mantissa: i128, scale: u32) -> FixedDecimal {
    FixedDecimal::new(mantissa, scale).unwrap()
}

#[test]
fn new_accepts_exactly_the_representable() {
    assert!(FixedDecimal::new(0, 0).is_some());
    assert!(FixedDecimal::new(MAX_MANTISSA, MAX_SCALE).is_some());
    assert!(FixedDecimal::new(-MAX_MANTISSA, 28).is_some());
    assert!(FixedDecimal::new(MAX_MANTISSA + 1, 0).is_none());
    assert!(FixedDecimal::new(-MAX_MANTISSA - 1, 0).is_none());
    assert!(FixedDecimal::new(1, 29).is_none());
    assert!(FixedDecimal::new(i128::MAX, u32::MAX).is_none());
    assert_eq!(MAX_MANTISSA, 79_228_162_514_264_337_593_543_950_335);
}

#[test]
fn parts_are_kept() {
    let x = d(-12345678, 7);
    assert_eq!(x.mantissa(), -12345678);
    assert_eq!(x.scale(), 7);
    let n = FixedDecimal::from_int(-42);
    assert_eq!(n.mantissa(), -42);
    assert_eq!(n.scale(), 0);
}

#[test]
fn le_compares_values_not_digits() {
    // 1.0 and 1.00
    assert!(d(10, 1).le(&d(100, 2)));
    assert!(d(100, 2).le(&d(10, 1)));
    // 0.5 > 0.01
    assert!(!d(5, 1).le(&d(1, 2)));
    assert!(d(1, 2).le(&d(5, 1)));
    // -0.5 < -0.01
    assert!(d(-5, 1).le(&d(-1, 2)));
    assert!(!d(-1, 2).le(&d(-5, 1)));
    // a larger mantissa with a larger scale is the smaller number
    assert!(d(999, 3).le(&d(1, 0)));
    assert!(!d(1, 0).le(&d(999, 3)));
    // signs
    assert!(d(-1, 28).le(&d(0, 0)));
    assert!(d(0, 5).le(&d(0, 0)));
    assert!(d(0, 0).le(&d(1, 28)));
    assert!(!d(1, 28).le(&d(0, 0)));
}

#[test]
fn le_holds_at_the_limits() {
    let top = d(MAX_MANTISSA, 0);
    let tiny = d(1, 28);
    let bottom = d(-MAX_MANTISSA, 0);
    assert!(tiny.le(&top));
    assert!(!top.le(&tiny));
    assert!(bottom.le(&tiny));
    assert!(!tiny.le(&bottom));
    assert!(d(MAX_MANTISSA, 28).le(&d(MAX_MANTISSA, 27)));
    assert!(!d(MAX_MANTISSA, 27).le(&d(MAX_MANTISSA, 28)));
    assert!(top.le(&top));
}

#[test]
fn ge_is_le_turned_round() {
    assert!(d(1005, 1).ge(&d(100, 0)));
    assert!(!d(100, 0).ge(&d(1005, 1)));
    assert!(d(100, 0).ge(&d(1000, 1)));
}

#[test]
fn equality_is_numeric() {
    assert_eq!(d(10, 1), d(100, 2));
    assert_eq!(d(0, 0), d(0, 28));
    assert_ne!(d(10, 1), d(101, 2));
    assert_ne!(d(1, 0), d(-1, 0));
}

#[test]
fn positive_means_above_zero() {
    assert!(d(1, 28).is_positive());
    assert!(!d(0, 3).is_positive());
    assert!(!d(-1, 0).is_positive());
}

#[test]
fn fxhash_is_fnv1a() {
    assert_eq!(fxhash(""), 0xcbf29ce484222325);
    assert_eq!(fxhash("a"), 0xaf63dc4c8601ec8c);
    assert_eq!(fxhash("foobar"), 0x85944171f73967e8);
    assert_eq!(fxhash("BTC/USDT"), fxhash("BTC/USDT"));
    assert_ne!(fxhash("BTC/USDT"), fxhash("ETH/USDT"));
}

#[test]
fn now_ms_reads_the_clock() {
    let a = now_ms();
    assert!((1_000_000_000_000..=4_000_000_000_000).contains(&a));
    let b = now_ms();
    assert!((b - a).abs() < 60_000);
}

#[test]
fn timestamp_from_cuts_to_64_bits() {
    assert_eq!(timestamp_from(None), 0);
    assert_eq!(timestamp_from(Some(0)), 0);
    assert_eq!(timestamp_from(Some(1_700_000_000_000)), 1_700_000_000_000);
    assert_eq!(timestamp_from(Some(i64::MAX as u128)), i64::MAX);
    assert_eq!(timestamp_from(Some(i64::MAX as u128 + 1)), i64::MIN);
    assert_eq!(timestamp_from(Some(u128::MAX)), -1);
    assert_eq!(timestamp_from(Some(1u128 << 64)), 0);
}
