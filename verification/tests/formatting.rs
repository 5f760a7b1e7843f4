use gasleak::double::Double;
use gasleak::format::{format_dollars_option, thousands, usd_cents, usd_compact};

fn d(x: f64) -> Double {
    Double { bits: x.to_bits() }
}

#[test]
fn usd_cents_adds_thousand_separators() {
    assert_eq!(usd_cents(d(0.0)), "$0.00");
    assert_eq!(usd_cents(d(9.99)), "$9.99");
    assert_eq!(usd_cents(d(999.5)), "$999.50");
    assert_eq!(usd_cents(d(1_000.0)), "$1,000.00");
    assert_eq!(usd_cents(d(18_720.00)), "$18,720.00");
    assert_eq!(usd_cents(d(226_200.00)), "$226,200.00");
    assert_eq!(usd_cents(d(1_234_567.89)), "$1,234,567.89");
}

#[test]
fn usd_cents_handles_negative_and_non_finite() {
    assert_eq!(usd_cents(d(-42.50)), "-$42.50");
    assert_eq!(usd_cents(d(f64::NAN)), "-");
    assert_eq!(usd_cents(d(f64::INFINITY)), "-");
}

#[test]
fn usd_cents_rounds_to_cents() {
    let out = usd_cents(d(0.005));
    // f64::round is away-from-zero for exact halves; allow either.
    assert!(out == "$0.01" || out == "$0.00", "got {out}");
    assert_eq!(usd_cents(d(1.234)), "$1.23");
    assert_eq!(usd_cents(d(1.239)), "$1.24");
}

#[test]
fn usd_compact_rounds_past_hundred_keeps_cents_below() {
    assert_eq!(usd_compact(d(42.50)), "$42.50");
    assert_eq!(usd_compact(d(99.99)), "$99.99");
    // Exact boundary: 100.0 rounds to whole dollars.
    assert_eq!(usd_compact(d(100.0)), "$100");
    assert_eq!(usd_compact(d(18_720.33)), "$18,720");
    assert_eq!(usd_compact(d(1_234_567.89)), "$1,234,568");
}

#[test]
fn usd_compact_handles_negative_and_non_finite() {
    assert_eq!(usd_compact(d(-500.0)), "-$500");
    assert_eq!(usd_compact(d(-1.75)), "-$1.75");
    assert_eq!(usd_compact(d(f64::NAN)), "$—");
    assert_eq!(usd_compact(d(f64::INFINITY)), "$—");
}

#[test]
fn usd_compact_of_minus_zero_has_no_sign() {
    assert_eq!(usd_compact(d(-0.0)), "$0.00");
    assert_eq!(usd_compact(d(99.999)), "$100.00");
}

#[test]
fn amounts_out_of_range_saturate() {
    assert_eq!(usd_cents(d(1e30)), "$92,233,720,368,547,758.07");
    assert_eq!(usd_cents(d(f64::MAX)), "$92,233,720,368,547,758.07");
    assert_eq!(usd_compact(d(1e30)), "$18,446,744,073,709,551,615");
}

#[test]
fn thousands_group_by_three() {
    assert_eq!(thousands(0), "0");
    assert_eq!(thousands(999), "999");
    assert_eq!(thousands(1_000), "1,000");
    assert_eq!(thousands(1_002_003), "1,002,003");
    assert_eq!(thousands(u64::MAX), "18,446,744,073,709,551,615");
    assert_eq!(thousands(u64::MAX).replace(',', ""), u64::MAX.to_string());
}

#[test]
fn unknown_amounts_show_a_dash() {
    assert_eq!(format_dollars_option(None), "$—");
    assert_eq!(format_dollars_option(Some(d(12.0))), "$12.00");
}
