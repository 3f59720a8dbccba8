use cowry::batch::with_scaled_all;
use cowry::json::encode_record;
use cowry::rounding::collapse_double_bits;
use cowry::{Currency, Owo, OwoError, RoundingMode};
use std::cmp::Ordering;

fn ngn() -> Currency {
    Currency::new("NGN", "₦", 2)
}

fn usd() -> Currency {
    Currency::new("USD", "$", 2)
}

// The float pipeline of a scaling step: to major units, transform, back to
// minor units; the library collapses the result.
fn scaled_bits(owo: &Owo, transform: impl Fn(f64) -> f64) -> u64 {
    let p = owo.get_precision();
    let raw = transform(owo.get_amount() as f64 / 10f64.powi(p as i32));
    (raw * 10i64.pow(p as u32) as f64).to_bits()
}

fn multiply_with_mode(owo: &Owo, scalar: f64, mode: RoundingMode) -> Owo {
    owo.with_scaled(scaled_bits(owo, |x| x * scalar), mode)
}

fn divide_with_mode(owo: &Owo, scalar: f64, mode: RoundingMode) -> Owo {
    owo.with_scaled(scaled_bits(owo, |x| x / scalar), mode)
}

fn percentage_with_mode(owo: &Owo, percent: f64, mode: RoundingMode) -> Owo {
    owo.with_scaled(scaled_bits(owo, |x| x * (percent / 100.0)), mode)
}

#[test]
fn currency_new_keeps_fields() {
    let c = Currency::new("BTC", "₿", 8);
    assert_eq!(c.code, "BTC");
    assert_eq!(c.symbol, "₿");
    assert_eq!(c.precision, 8);
    let empty = Currency::new("", "", 0);
    assert_eq!(empty.code, "");
    assert_eq!(empty.symbol, "");
}

#[test]
fn currency_equality_includes_symbol() {
    assert!(Currency::new("USD", "$", 2) == usd());
    assert!(Currency::new("USD", "US$", 2) != usd());
    assert!(Currency::new("USD", "$", 3) != usd());
    assert!(usd().clone() == usd());
}

#[test]
fn getters() {
    let owo = Owo::new(500, ngn());
    assert_eq!(owo.get_amount(), 500);
    assert_eq!(owo.get_currency(), "NGN");
    assert_eq!(owo.get_precision(), 2);
}

#[test]
fn format_naira() {
    assert_eq!(Owo::new(500, ngn()).format(), "₦5.00");
}

#[test]
fn format_dollar() {
    assert_eq!(Owo::new(100, usd()).format(), "$1.00");
}

#[test]
fn format_yen_without_fraction() {
    assert_eq!(Owo::new(200, Currency::new("JPY", "¥", 0)).format(), "¥200");
}

#[test]
fn format_bitcoin_pads_fraction() {
    assert_eq!(Owo::new(200, Currency::new("BTC", "₿", 8)).format(), "₿0.00000200");
}

#[test]
fn format_negative_amounts() {
    assert_eq!(Owo::new(-150, usd()).format(), "$-1.50");
    // The whole part truncates toward zero and the fraction is a magnitude.
    assert_eq!(Owo::new(-5, usd()).format(), "$0.05");
    assert_eq!(Owo::new(-7, Currency::new("JPY", "¥", 0)).format(), "¥-7");
}

#[test]
fn format_extremes() {
    assert_eq!(
        Owo::new(i64::MIN, Currency::new("X", "", 0)).format(),
        "-9223372036854775808"
    );
    assert_eq!(
        Owo::new(i64::MAX, Currency::new("X", "", 30)).format(),
        "0.000000000009223372036854775807"
    );
}

#[test]
fn equality_and_order() {
    let a = Owo::new(500, ngn());
    let b = Owo::new(500, ngn());
    let c = Owo::new(700, ngn());
    assert!(a.eq(&b));
    assert!(a == b);
    assert!(a.lt(&c));
    assert!(!c.lt(&a));
    assert!(Owo::new(1000, ngn()).gt(&c));
    assert!(a < c);
    assert_eq!(a.partial_cmp(&c), Some(Ordering::Less));
    assert_eq!(a.partial_cmp(&b), Some(Ordering::Equal));
}

#[test]
fn no_order_across_currencies() {
    let a = Owo::new(500, ngn());
    let b = Owo::new(700, usd());
    assert!(!a.lt(&b));
    assert!(!a.gt(&b));
    assert!(!b.lt(&a));
    assert!(!a.eq(&Owo::new(500, usd())));
    assert!(a != Owo::new(500, usd()));
    assert_eq!(a.partial_cmp(&b), None);
}

#[test]
fn add_and_sub_within_currency() {
    let r = Owo::new(500, ngn()).add(Owo::new(250, ngn())).unwrap();
    assert_eq!(r.get_amount(), 750);
    assert!(r.currency == ngn());
    let d = Owo::new(500, ngn()).sub(Owo::new(750, ngn())).unwrap();
    assert_eq!(d.get_amount(), -250);
}

#[test]
fn additive_inverse_gives_zero() {
    let v = Owo::new(1234, ngn());
    let z = v.clone().add(v.clone().neg()).unwrap();
    assert_eq!(z.get_amount(), 0);
    assert_eq!(z.get_currency(), "NGN");
    let z2 = v.clone().sub(v).unwrap();
    assert_eq!(z2.get_amount(), 0);
}

#[test]
fn mismatch_is_reported() {
    match Owo::new(500, ngn()).add(Owo::new(500, usd())) {
        Err(OwoError::CurrencyMismatch(a, b)) => {
            assert_eq!(a, "NGN");
            assert_eq!(b, "USD");
        }
        _ => panic!("expected a currency mismatch"),
    }
    match Owo::new(500, usd()).sub(Owo::new(500, ngn())) {
        Err(OwoError::CurrencyMismatch(a, b)) => {
            assert_eq!(a, "USD");
            assert_eq!(b, "NGN");
        }
        _ => panic!("expected a currency mismatch"),
    }
    // Same code, different symbol: still another currency.
    assert!(Owo::new(1, usd()).add(Owo::new(1, Currency::new("USD", "US$", 2))).is_err());
}

#[test]
fn integer_mul_div_neg() {
    assert_eq!(Owo::new(250, ngn()).mul(3).get_amount(), 750);
    assert_eq!(Owo::new(-250, ngn()).mul(-2).get_amount(), 500);
    assert_eq!(Owo::new(1000, ngn()).div(3).unwrap().get_amount(), 333);
    assert_eq!(Owo::new(-1000, ngn()).div(3).unwrap().get_amount(), -333);
    assert_eq!(Owo::new(1000, ngn()).div(-3).unwrap().get_amount(), -333);
    assert_eq!(Owo::new(-7, ngn()).div(-2).unwrap().get_amount(), 3);
    assert_eq!(Owo::new(i64::MIN, ngn()).div(1).unwrap().get_amount(), i64::MIN);
    assert_eq!(Owo::new(42, ngn()).neg().get_amount(), -42);
}

#[test]
fn division_by_zero_is_reported() {
    assert!(matches!(Owo::new(1000, ngn()).div(0), Err(OwoError::DivisionByZero)));
}

#[test]
fn multiply_with_mode_boundary() {
    let owo = Owo::new(105, ngn());
    assert_eq!(multiply_with_mode(&owo, 2.5, RoundingMode::Nearest).get_amount(), 263);
    assert_eq!(multiply_with_mode(&owo, 2.5, RoundingMode::Floor).get_amount(), 262);
    assert_eq!(multiply_with_mode(&owo, 2.5, RoundingMode::Ceil).get_amount(), 263);
    assert_eq!(multiply_with_mode(&owo, -2.5, RoundingMode::Floor).get_amount(), -263);
    assert_eq!(multiply_with_mode(&owo, -2.5, RoundingMode::Ceil).get_amount(), -262);
    assert_eq!(multiply_with_mode(&owo, -2.5, RoundingMode::Nearest).get_amount(), -263);
    assert_eq!(owo.get_amount(), 105);
}

#[test]
fn divide_with_mode_boundary() {
    let owo = Owo::new(105, ngn());
    assert_eq!(divide_with_mode(&owo, 2.8, RoundingMode::Nearest).get_amount(), 38);
    assert_eq!(divide_with_mode(&owo, 2.8, RoundingMode::Floor).get_amount(), 37);
    assert_eq!(divide_with_mode(&owo, 2.8, RoundingMode::Ceil).get_amount(), 38);
    assert_eq!(divide_with_mode(&owo, -2.8, RoundingMode::Floor).get_amount(), -38);
    assert_eq!(divide_with_mode(&owo, -2.8, RoundingMode::Ceil).get_amount(), -37);
}

#[test]
fn percentage_with_mode_boundary() {
    let owo = Owo::new(105, ngn());
    assert_eq!(percentage_with_mode(&owo, 2.8, RoundingMode::Nearest).get_amount(), 3);
    assert_eq!(percentage_with_mode(&owo, 2.8, RoundingMode::Floor).get_amount(), 2);
    assert_eq!(percentage_with_mode(&owo, 2.8, RoundingMode::Ceil).get_amount(), 3);
    assert_eq!(percentage_with_mode(&owo, -2.8, RoundingMode::Floor).get_amount(), -3);
    assert_eq!(percentage_with_mode(&owo, -2.8, RoundingMode::Ceil).get_amount(), -2);
}

#[test]
fn nearest_mode_examples() {
    let n = RoundingMode::Nearest;
    assert_eq!(multiply_with_mode(&Owo::new(1230, ngn()), 1.5, n).get_amount(), 1845);
    assert_eq!(divide_with_mode(&Owo::new(1000, ngn()), 4.5, n).get_amount(), 222);
    assert_eq!(percentage_with_mode(&Owo::new(1000, ngn()), 0.5, n).get_amount(), 5);
}

#[test]
fn with_scaled_keeps_currency_and_receiver() {
    let owo = Owo::new(105, ngn());
    let r = owo.with_scaled(262.5f64.to_bits(), RoundingMode::Floor);
    assert_eq!(r.get_amount(), 262);
    assert!(r.currency == ngn());
    assert_eq!(owo.get_amount(), 105);
}

#[test]
fn collapse_halves_go_away_from_zero() {
    let n = RoundingMode::Nearest;
    assert_eq!(collapse_double_bits(0.5f64.to_bits(), n), 1);
    assert_eq!(collapse_double_bits((-0.5f64).to_bits(), n), -1);
    assert_eq!(collapse_double_bits(2.5f64.to_bits(), n), 3);
    assert_eq!(collapse_double_bits((-2.5f64).to_bits(), n), -3);
    assert_eq!(collapse_double_bits(2.4999f64.to_bits(), n), 2);
    assert_eq!(collapse_double_bits(0.49999999999999994f64.to_bits(), n), 0);
}

#[test]
fn collapse_floor_and_ceil_follow_sign() {
    assert_eq!(collapse_double_bits((-0.1f64).to_bits(), RoundingMode::Floor), -1);
    assert_eq!(collapse_double_bits((-0.1f64).to_bits(), RoundingMode::Ceil), 0);
    assert_eq!(collapse_double_bits(0.1f64.to_bits(), RoundingMode::Floor), 0);
    assert_eq!(collapse_double_bits(0.1f64.to_bits(), RoundingMode::Ceil), 1);
    assert_eq!(collapse_double_bits(7.0f64.to_bits(), RoundingMode::Floor), 7);
    assert_eq!(collapse_double_bits((-7.0f64).to_bits(), RoundingMode::Ceil), -7);
    let tiny = f64::from_bits(1);
    assert_eq!(collapse_double_bits(tiny.to_bits(), RoundingMode::Ceil), 1);
    assert_eq!(collapse_double_bits((-tiny).to_bits(), RoundingMode::Floor), -1);
    assert_eq!(collapse_double_bits(tiny.to_bits(), RoundingMode::Nearest), 0);
}

#[test]
fn collapse_matches_float_semantics() {
    let samples = [
        0.0, -0.0, 1.5, -1.5, 262.49999999999997, 1e-300, 123456.789, -98765.4321, 4503599627370497.0,
        9.2e18, -9.3e18, 1e300, -1e300, f64::INFINITY, f64::NEG_INFINITY, f64::NAN,
    ];
    for x in samples {
        assert_eq!(collapse_double_bits(x.to_bits(), RoundingMode::Nearest), x.round() as i64);
        assert_eq!(collapse_double_bits(x.to_bits(), RoundingMode::Floor), x.floor() as i64);
        assert_eq!(collapse_double_bits(x.to_bits(), RoundingMode::Ceil), x.ceil() as i64);
    }
}

#[test]
fn round_to_precision_keeps_amount() {
    let mut owo = Owo::new(1247, ngn());
    let scaled = (1247f64 / 10f64.powi(2)) * 100.0;
    owo.round_to_precision(scaled.to_bits());
    assert_eq!(owo.get_amount(), 1247);
    assert_eq!(owo.get_currency(), "NGN");
}

#[test]
fn to_json_exact_bytes() {
    let json = Owo::new(500, ngn()).to_json().unwrap();
    assert_eq!(json, r#"{"amount":500,"currency":{"code":"NGN","symbol":"₦","precision":2}}"#);
}

#[test]
fn to_json_escapes_and_signs() {
    let c = Currency::new("A\"B", "\\", 0);
    let json = Owo::new(-42, c).to_json().unwrap();
    assert_eq!(json, r#"{"amount":-42,"currency":{"code":"A\"B","symbol":"\\","precision":0}}"#);
}

#[test]
fn encode_record_frames_fields() {
    assert_eq!(
        encode_record(-7, "\"X\"", "\"$\"", 255),
        r#"{"amount":-7,"currency":{"code":"X","symbol":"$","precision":255}}"#
    );
}

#[test]
fn batch_keeps_length_and_order() {
    let items = vec![Owo::new(1000, ngn()), Owo::new(500, ngn()), Owo::new(200, ngn())];
    let bits: Vec<u64> = items.iter().map(|o| scaled_bits(o, |x| x * 1.5)).collect();
    let out = with_scaled_all(&items, &bits, RoundingMode::Nearest);
    let amounts: Vec<i64> = out.iter().map(|o| o.get_amount()).collect();
    assert_eq!(amounts, vec![1500, 750, 300]);
    for (o, i) in out.iter().zip(items.iter()) {
        assert!(*o == multiply_with_mode(i, 1.5, RoundingMode::Nearest));
    }
    assert!(with_scaled_all(&Vec::new(), &Vec::new(), RoundingMode::Ceil).is_empty());
}

#[test]
fn to_json_reads_back_as_the_same_value() {
    let values = vec![
        Owo::new(500, ngn()),
        Owo::new(-9223372036854775808, Currency::new("a\"b\\c\n", "€", 255)),
        Owo::new(0, Currency::new("", "", 0)),
    ];
    for v in values {
        let text = v.to_json().unwrap();
        let parsed: serde_json::Value = serde_json::from_str(&text).unwrap();
        assert_eq!(parsed["amount"].as_i64(), Some(v.amount));
        assert_eq!(parsed["currency"]["code"].as_str(), Some(v.currency.code.as_str()));
        assert_eq!(parsed["currency"]["symbol"].as_str(), Some(v.currency.symbol.as_str()));
        assert_eq!(parsed["currency"]["precision"].as_u64(), Some(v.currency.precision as u64));
    }
}

#[test]
fn policies_are_ordered_and_mirror() {
    for x in [2.625f64 * 100.0, -262.5, 0.3, -0.3, 7.0, 1e-320, -5.5] {
        let f = collapse_double_bits(x.to_bits(), RoundingMode::Floor);
        let n = collapse_double_bits(x.to_bits(), RoundingMode::Nearest);
        let c = collapse_double_bits(x.to_bits(), RoundingMode::Ceil);
        assert!(f <= n && n <= c && c <= f + 1);
        assert_eq!(collapse_double_bits((-x).to_bits(), RoundingMode::Floor), -c);
        assert_eq!(collapse_double_bits((-x).to_bits(), RoundingMode::Nearest), -n);
    }
}
