//! Display formatting of fixed-point USD amounts.

use portfolio_agent::money::{format_pct, format_usd, MICROS_PER_DOLLAR};

#[test]
fn zero_renders_as_zero_dollars() {
    assert_eq!(format_usd(0), "$ 0.00");
}

#[test]
fn rounding_at_the_thousand_threshold_stays_plain() {
    // 999.999 is below the K threshold but rounds up to 1000.00
    assert_eq!(format_usd(999_999_000), "$ 1000.00");
}

#[test]
fn one_thousand_gets_the_k_suffix() {
    assert_eq!(format_usd((1000 * MICROS_PER_DOLLAR) as i64), "$ 1.00K");
}

#[test]
fn one_and_a_half_million_gets_the_m_suffix() {
    assert_eq!(format_usd(1_500_000_000_000), "$ 1.50M");
}

#[test]
fn plain_amounts_render_with_two_decimals() {
    assert_eq!(format_usd(12_340_000), "$ 12.34");
    assert_eq!(format_usd(1), "$ 0.00");
    assert_eq!(format_usd(5_000), "$ 0.01");
}

#[test]
fn negative_amounts_render_plain() {
    assert_eq!(format_usd(-5_000_000), "$ -5.00");
    assert_eq!(format_usd(-2_000_000_000_000), "$ -2000000.00");
}

#[test]
fn bucket_grows_with_the_amount() {
    let rendered = [
        format_usd(500_000_000),
        format_usd(1_000_000_000),
        format_usd(999_999_999_999),
        format_usd(1_000_000_000_000),
    ];
    assert_eq!(rendered[0], "$ 500.00");
    assert!(rendered[1].ends_with('K'));
    assert!(rendered[2].ends_with('K'));
    assert!(rendered[3].ends_with('M'));
}

#[test]
fn percentages_render_with_two_decimals() {
    assert_eq!(format_pct(810_000), "81.00%");
    assert_eq!(format_pct(0), "0.00%");
    assert_eq!(format_pct(1_000_000), "100.00%");
    assert_eq!(format_pct(12_345), "1.23%");
    assert_eq!(format_pct(-500_000), "-50.00%");
}
