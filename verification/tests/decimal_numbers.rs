use banking::decimal::Decimal;

fn dec(text: &str) -> Decimal {
    Decimal::parse(text).expect("a numeral")
}

#[test]
fn parses_whole_numbers() {
    assert_eq!(dec("100").text(), "100");
    assert_eq!(dec("0").text(), "0");
    assert_eq!(dec("007").text(), "7");
    assert!(dec("150").equals(&Decimal::new(150, 0)));
}

#[test]
fn parses_fractions() {
    assert_eq!(dec("12.34").text(), "12.34");
    assert_eq!(dec("0.01").text(), "0.01");
    assert_eq!(dec(".5").text(), "0.5");
    assert_eq!(dec("5.").text(), "5");
    assert_eq!(dec("0.050").text(), "0.05");
    assert!(dec("0.01").equals(&Decimal::new(1, 2)));
}

#[test]
fn parses_signs() {
    assert_eq!(dec("-3").text(), "-3");
    assert_eq!(dec("+3").text(), "3");
    assert_eq!(dec("-0.25").text(), "-0.25");
    assert_eq!(dec("-0").text(), "0");
    assert!(dec("-0").is_zero());
    assert!(!dec("-0").is_negative());
    assert!(dec("-0.001").is_negative());
}

#[test]
fn parse_ignores_white_space_around_the_numeral() {
    assert_eq!(dec("  42 ").text(), "42");
    assert_eq!(dec("\t1.5\n").text(), "1.5");
    assert_eq!(dec("\u{3000}7\u{a0}").text(), "7");
}

#[test]
fn parse_refuses_what_is_no_numeral() {
    for text in [
        "", " ", ".", "-", "+", "+-1", "--1", "abc", "1a", "a1", "1.2.3", "1..2", "1 2", "1,5",
        "1e3", "inf", "NaN", "0x10", "1_000", "٣", "1.-2", "- 1",
    ] {
        assert!(Decimal::parse(text).is_none(), "{:?} is no numeral", text);
    }
}

#[test]
fn new_gives_units_at_a_scale() {
    assert_eq!(Decimal::new(150, 0).text(), "150");
    assert_eq!(Decimal::new(1, 2).text(), "0.01");
    assert_eq!(Decimal::new(-1234, 3).text(), "-1.234");
    assert_eq!(Decimal::new(1500, 2).text(), "15");
    assert_eq!(Decimal::new(0, 5).text(), "0");
    assert_eq!(Decimal::new(i64::MAX, 0).text(), "9223372036854775807");
    assert_eq!(Decimal::new(i64::MIN, 0).text(), "-9223372036854775808");
    assert_eq!(Decimal::new(i64::MIN, 19).text(), "-0.9223372036854775808");
    assert_eq!(Decimal::new(5, 255).text().len(), 2 + 255);
    assert_eq!(Decimal::zero().text(), "0");
}

#[test]
fn plus_is_exact() {
    assert_eq!(dec("100").plus(&dec("50")).text(), "150");
    assert_eq!(dec("0.1").plus(&dec("0.2")).text(), "0.3");
    assert_eq!(dec("999.99").plus(&dec("0.01")).text(), "1000");
    assert_eq!(dec("1").plus(&dec("0.001")).text(), "1.001");
    assert_eq!(dec("-5").plus(&dec("3")).text(), "-2");
    assert_eq!(dec("-5").plus(&dec("8")).text(), "3");
    assert_eq!(dec("5").plus(&dec("-5")).text(), "0");
    assert_eq!(dec("-1.5").plus(&dec("-2.5")).text(), "-4");
    assert_eq!(
        dec("99999999999999999999999999999999999999").plus(&dec("1")).text(),
        "100000000000000000000000000000000000000"
    );
    assert_eq!(
        dec("16777216").plus(&dec("1")).text(),
        "16777217"
    );
}

#[test]
fn minus_is_exact() {
    assert_eq!(dec("150").minus(&dec("200")).text(), "-50");
    assert_eq!(dec("150").minus(&dec("150")).text(), "0");
    assert_eq!(dec("1").minus(&dec("0.01")).text(), "0.99");
    assert_eq!(dec("1000").minus(&dec("1")).text(), "999");
    assert_eq!(dec("-3").minus(&dec("-10")).text(), "7");
    assert_eq!(dec("-3").minus(&dec("10")).text(), "-13");
    assert_eq!(dec("0.3").minus(&dec("0.1")).text(), "0.2");
    assert_eq!(
        dec("100000000000000000000000000000000000000").minus(&dec("0.5")).text(),
        "99999999999999999999999999999999999999.5"
    );
}

#[test]
fn le_orders_by_value() {
    assert!(dec("0.01").le(&dec("0.01")));
    assert!(dec("0.01").le(&dec("0.010")));
    assert!(dec("0.010").le(&dec("0.01")));
    assert!(dec("0.009").le(&dec("0.01")));
    assert!(!dec("0.011").le(&dec("0.01")));
    assert!(dec("-1").le(&dec("0")));
    assert!(!dec("0").le(&dec("-1")));
    assert!(dec("-2").le(&dec("-1")));
    assert!(dec("200").le(&dec("1000")));
    assert!(!dec("1000").le(&dec("200")));
    assert!(dec("0").le(&dec("-0")));
}

#[test]
fn equals_ignores_the_scale() {
    assert!(dec("1.50").equals(&dec("1.5")));
    assert!(dec("150").equals(&dec("150.000")));
    assert!(dec("0").equals(&dec("-0.0")));
    assert!(!dec("1.5").equals(&dec("1.51")));
    assert!(!dec("1").equals(&dec("-1")));
}

#[test]
fn text_is_the_shortest_writing() {
    assert_eq!(dec("150.50").text(), "150.5");
    assert_eq!(dec("150.00").text(), "150");
    assert_eq!(dec("000.500").text(), "0.5");
    assert_eq!(dec("10").text(), "10");
    assert_eq!(dec("100.001").text(), "100.001");
    assert_eq!(dec("-000.0").text(), "0");
    assert_eq!(dec("50.5").plus(&dec("100")).text(), "150.5");
    assert_eq!(dec("0.75").plus(&dec("0.25")).text(), "1");
}

#[test]
fn a_sum_less_a_term_is_the_other_term() {
    let a = dec("123.456");
    let b = dec("-0.0044");
    assert!(a.plus(&b).minus(&a).equals(&b));
    assert!(a.minus(&a.minus(&b)).equals(&b));
}

#[test]
fn clone_keeps_the_number() {
    let a = dec("-12.340");
    let b = a.clone();
    assert!(a.equals(&b));
    assert_eq!(b.text(), "-12.34");
    assert_eq!(b.plus(&a).text(), "-24.68");
}

/// The shortest writing of `units / 10^scale`, by plain integer arithmetic.
fn written(units: i64, scale: u32) -> String {
    let mut units = units;
    let mut scale = scale;
    while scale > 0 && units % 10 == 0 {
        units /= 10;
        scale -= 1;
    }
    let sign = if units < 0 { "-" } else { "" };
    let m = units.unsigned_abs();
    if scale == 0 {
        return format!("{}{}", sign, m);
    }
    let p = 10u64.pow(scale);
    format!("{}{}.{:0width$}", sign, m / p, m % p, width = scale as usize)
}

#[test]
fn arithmetic_agrees_with_integers_at_every_scale() {
    let values: Vec<i64> = vec![-1001, -1000, -999, -101, -100, -11, -10, -9, -1, 0, 1, 5, 9, 10, 19, 99, 100, 110, 999, 1000, 12345];
    for &x in &values {
        for sx in 0u8..4 {
            let a = Decimal::new(x, sx);
            assert_eq!(a.text(), written(x, sx as u32));
            assert_eq!(Decimal::parse(&a.text()).unwrap().text(), a.text());
            assert_eq!(a.is_negative(), x < 0);
            assert_eq!(a.is_zero(), x == 0);
            for &y in &values {
                for sy in 0u8..4 {
                    let b = Decimal::new(y, sy);
                    let s = sx.max(sy) as u32;
                    let xs = x * 10i64.pow(s - sx as u32);
                    let ys = y * 10i64.pow(s - sy as u32);
                    assert_eq!(a.plus(&b).text(), written(xs + ys, s));
                    assert_eq!(a.minus(&b).text(), written(xs - ys, s));
                    assert_eq!(a.le(&b), xs <= ys);
                    assert_eq!(a.equals(&b), xs == ys);
                }
            }
        }
    }
}
