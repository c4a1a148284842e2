//! Decimal amounts, timestamp texts, the CSV export and the page
//! templates.

use cashlog::amount::format_amount;
use cashlog::amount::parse_amount;
use cashlog::amount::Amount;
use cashlog::error::DbError;
use cashlog::error::Error;
use cashlog::export::entries_to_csv;
use cashlog::model::EntryInfo;
use cashlog::requests::AddBankAccountParams;
use cashlog::text::parse_i64;
use cashlog::text::str_eq;
use cashlog::text::str_le;
use cashlog::timestamp::Timestamp;
use cashlog::tmpl::tmpl_add;
use cashlog::tmpl::tmpl_main;
use cashlog::util::format_ts;
use cashlog::util::parse_ts;

fn t(d: u32) -> Timestamp {
    Timestamp { year: 2023, month: 11, day: d, hour: 7, minute: 30, second: 5, micros: 0 }
}

#[test]
fn amounts_parse_and_format_back() {
    for s in ["0", "100", "100.00", "-5.50", "0.1", "123456.789012"] {
        let a = parse_amount(s).unwrap();
        assert_eq!(format_amount(&a), s);
    }
}

#[test]
fn amount_parse_normalizes_fringe_shapes() {
    assert_eq!(format_amount(&parse_amount(".5").unwrap()), "0.5");
    assert_eq!(format_amount(&parse_amount("007").unwrap()), "7");
    assert_eq!(format_amount(&parse_amount("3.").unwrap()), "3");
    assert_eq!(format_amount(&parse_amount("-0.05").unwrap()), "-0.05");
}

#[test]
fn amount_parse_rejects_garbage() {
    for s in ["", "-", ".", "1.2.3", "1,50", "ten", "1e5", "1.2345678"] {
        assert!(parse_amount(s).is_none(), "accepted {:?}", s);
    }
}

#[test]
fn amount_addition_aligns_scales_exactly() {
    let a = parse_amount("100.00").unwrap();
    let b = parse_amount("50.00").unwrap();
    let sum = a.checked_add(b).unwrap();
    assert_eq!(format_amount(&sum), "150.00");
    let c = parse_amount("0.1").unwrap();
    let d = parse_amount("0.25").unwrap();
    assert_eq!(format_amount(&c.checked_add(d).unwrap()), "0.35");
    let e = parse_amount("1").unwrap();
    let f = parse_amount("-1.000000").unwrap();
    assert_eq!(format_amount(&e.checked_add(f).unwrap()), "0.000000");
}

#[test]
fn amount_addition_reports_overflow() {
    let big = Amount { mantissa: i128::MAX - 1, scale: 0 };
    let one = Amount { mantissa: 1000000, scale: 0 };
    assert!(big.checked_add(one).is_none());
}

#[test]
fn timestamps_parse_and_format_back() {
    let p = parse_ts("2023-11-05 07:30:05").unwrap();
    assert_eq!(
        p,
        Timestamp { year: 2023, month: 11, day: 5, hour: 7, minute: 30, second: 5, micros: 0 }
    );
    assert_eq!(format_ts(p), "2023-11-05 07:30:05");
}

#[test]
fn timestamp_parse_rejects_bad_shapes_and_dates() {
    for s in [
        "",
        "2023-11-05",
        "2023-11-05T07:30:05",
        "2023-13-01 00:00:00",
        "2023-00-01 00:00:00",
        "2023-11-31 00:00:00",
        "2023-02-29 00:00:00",
        "2023-11-05 24:00:00",
        "2023-11-05 07:60:00",
        "2023-11-05 07:30:60",
        "2023-11-05 07:30:0x",
    ] {
        assert!(parse_ts(s).is_err(), "accepted {:?}", s);
    }
    // a leap day of a leap year is fine
    assert!(parse_ts("2024-02-29 12:00:00").is_ok());
    // but a century year off the 400 rule is not a leap year
    assert!(parse_ts("1900-02-29 12:00:00").is_err());
}

#[test]
fn timestamps_order_chronologically() {
    let a = parse_ts("2023-11-05 07:30:05").unwrap();
    let b = parse_ts("2023-11-05 07:30:06").unwrap();
    let c = parse_ts("2024-01-01 00:00:00").unwrap();
    assert!(a.le(&b) && b.le(&c) && a.le(&a));
    assert!(!b.le(&a));
}

#[test]
fn integer_texts_parse_like_std() {
    assert_eq!(parse_i64("0"), Some(0));
    assert_eq!(parse_i64("123456789"), Some(123456789));
    assert_eq!(parse_i64("-42"), Some(-42));
    assert_eq!(parse_i64(""), None);
    assert_eq!(parse_i64("-"), None);
    assert_eq!(parse_i64("12x"), None);
    assert_eq!(parse_i64("1.5"), None);
}

#[test]
fn string_order_is_by_code_point() {
    assert!(str_le("Checking", "Savings"));
    assert!(!str_le("Savings", "Checking"));
    assert!(str_le("", "a"));
    assert!(str_le("abc", "abc"));
    assert!(str_le("ab", "abc"));
    assert!(str_eq("abc", "abc"));
    assert!(!str_eq("abc", "abd"));
}

#[test]
fn csv_export_has_exact_rows() {
    let entries = vec![
        EntryInfo {
            amount: "100.00".to_string(),
            bank_account: "Checking".to_string(),
            currency: "USD".to_string(),
            id: 1,
            ts: t(5),
        },
        EntryInfo {
            amount: "-5.5".to_string(),
            bank_account: "Savings".to_string(),
            currency: "EUR".to_string(),
            id: 2,
            ts: Timestamp {
                year: 2023,
                month: 11,
                day: 6,
                hour: 7,
                minute: 30,
                second: 5,
                micros: 123456,
            },
        },
    ];
    let csv = entries_to_csv(entries);
    assert_eq!(
        csv,
        "ts,account,amount,currency\n\
         2023-11-05 07:30:05,Checking,100.00,USD\n\
         2023-11-06 07:30:05.123456,Savings,-5.5,EUR\n"
    );
}

#[test]
fn main_template_carries_the_entries() {
    let entries = vec![EntryInfo {
        amount: "42.00".to_string(),
        bank_account: "Checking".to_string(),
        currency: "USD".to_string(),
        id: 1,
        ts: t(5),
    }];
    let html = tmpl_main("Main", &entries);
    assert!(html.starts_with("<!doctype html><html><head><title>Main</title>"));
    assert!(html.contains("<td>42.00</td><td>USD</td><td>2023-11-05 07:30:05</td>"));
    assert!(html.contains("CashLog"));
    assert!(html.ends_with("</body></html>"));
}

#[test]
fn add_template_shows_the_form() {
    let html = tmpl_add("Add");
    assert!(html.contains("<title>Add</title>"));
    assert!(html.contains("<form method=\"post\">"));
    assert!(html.contains("name=\"amount\""));
}

#[test]
fn bank_account_params_validate_required_fields() {
    let bad = AddBankAccountParams { name: "  ".to_string(), currency: "USD".to_string() };
    let v = bad.validate();
    assert_eq!(v.name_err.as_deref(), Some("Name is required"));
    assert!(v.currency_err.is_none());
    let good = AddBankAccountParams { name: "Checking".to_string(), currency: "USD".to_string() };
    let v = good.validate();
    assert!(v.name_err.is_none() && v.currency_err.is_none());
    let worse = AddBankAccountParams { name: "".to_string(), currency: "\t".to_string() };
    let v = worse.validate();
    assert!(v.name_err.is_some());
    assert_eq!(v.currency_err.as_deref(), Some("Currency is required"));
}

#[test]
fn errors_carry_their_descriptions() {
    let e = Error::new("boom");
    assert_eq!(e.message(), "boom");
    let d = DbError::new("db down");
    assert_eq!(d.message(), "db down");
}
