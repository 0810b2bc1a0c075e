//! The plain value types: exact-decimal amounts and calendar dates.

use budget_core::amount::{parse_amount, render_amount, Amount, AMOUNT_LIMIT};
use budget_core::date::{parse_date, render_date, Date};

#[test]
fn amount_parses_whole_numbers() {
    assert_eq!(parse_amount("12").map(|a| a.minor), Some(1200));
    assert_eq!(parse_amount("0").map(|a| a.minor), Some(0));
    assert_eq!(parse_amount("-3").map(|a| a.minor), Some(-300));
}

#[test]
fn amount_parses_fractions() {
    assert_eq!(parse_amount("12.34").map(|a| a.minor), Some(1234));
    assert_eq!(parse_amount("12.3").map(|a| a.minor), Some(1230));
    assert_eq!(parse_amount("-0.50").map(|a| a.minor), Some(-50));
    assert_eq!(parse_amount("-0.05").map(|a| a.minor), Some(-5));
    assert_eq!(parse_amount("0.99").map(|a| a.minor), Some(99));
}

#[test]
fn amount_rejects_bad_shapes() {
    assert!(parse_amount("").is_none());
    assert!(parse_amount("-").is_none());
    assert!(parse_amount(".5").is_none());
    assert!(parse_amount("5.").is_none());
    assert!(parse_amount("1.234").is_none());
    assert!(parse_amount("1,23").is_none());
    assert!(parse_amount("12a").is_none());
    assert!(parse_amount("1.2.3").is_none());
    assert!(parse_amount("--1").is_none());
}

#[test]
fn amount_respects_the_cap() {
    // Ten trillion currency units in minor units is the cap itself.
    assert_eq!(
        parse_amount("10000000000000").map(|a| a.minor),
        Some(AMOUNT_LIMIT)
    );
    assert!(parse_amount("10000000000001").is_none());
    assert!(parse_amount("999999999999999999999999").is_none());
}

#[test]
fn amount_from_minor_checks_the_cap() {
    assert_eq!(Amount::from_minor(125).map(|a| a.minor), Some(125));
    assert!(Amount::from_minor(AMOUNT_LIMIT + 1).is_none());
    assert!(Amount::from_minor(-AMOUNT_LIMIT - 1).is_none());
    assert_eq!(Amount::zero().minor, 0);
}

#[test]
fn date_parses_real_days() {
    assert_eq!(
        parse_date("2024-01-01"),
        Some(Date { year: 2024, month: 1, day: 1 })
    );
    assert_eq!(
        parse_date("1999-12-31"),
        Some(Date { year: 1999, month: 12, day: 31 })
    );
}

#[test]
fn date_handles_leap_years() {
    assert!(parse_date("2024-02-29").is_some());
    assert!(parse_date("2023-02-29").is_none());
    assert!(parse_date("1900-02-29").is_none());
    assert!(parse_date("2000-02-29").is_some());
}

#[test]
fn date_rejects_bad_shapes() {
    assert!(parse_date("2024-13-01").is_none());
    assert!(parse_date("2024-04-31").is_none());
    assert!(parse_date("2024-00-10").is_none());
    assert!(parse_date("2024-1-1").is_none());
    assert!(parse_date("20240101").is_none());
    assert!(parse_date("2024/01/01").is_none());
    assert!(parse_date("").is_none());
    assert!(parse_date("0000-01-01").is_none());
}

#[test]
fn amount_render_parse_round_trip() {
    for minor in [0i64, 5, 50, 99, 100, 1234, -1, -5, -99, -1234, AMOUNT_LIMIT, -AMOUNT_LIMIT] {
        let a = Amount::from_minor(minor).unwrap();
        let text = String::from_utf8(render_amount(&a)).unwrap();
        assert_eq!(parse_amount(&text).map(|x| x.minor), Some(minor), "via {}", text);
    }
    assert_eq!(String::from_utf8(render_amount(&Amount { minor: -50 })).unwrap(), "-0.50");
    assert_eq!(String::from_utf8(render_amount(&Amount { minor: 1234 })).unwrap(), "12.34");
    assert_eq!(String::from_utf8(render_amount(&Amount { minor: 7 })).unwrap(), "0.07");
}

#[test]
fn date_render_parse_round_trip() {
    for (y, m, d) in [(2024u16, 1u8, 1u8), (1999, 12, 31), (2024, 2, 29), (1, 1, 1), (9999, 12, 31)] {
        let date = Date { year: y, month: m, day: d };
        let text = String::from_utf8(render_date(&date)).unwrap();
        assert_eq!(parse_date(&text), Some(date), "via {}", text);
    }
    assert_eq!(
        String::from_utf8(render_date(&Date { year: 33, month: 4, day: 5 })).unwrap(),
        "0033-04-05"
    );
}

#[test]
fn date_orders_by_calendar() {
    let early = Date { year: 2024, month: 1, day: 31 };
    let late = Date { year: 2024, month: 2, day: 1 };
    assert!(early.le(&late));
    assert!(!late.le(&early));
    assert!(early.le(&early));
    assert!(early.key() < late.key());
}
