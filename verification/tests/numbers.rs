use botwire::number::Number;

#[test]
fn from_i64_writes_decimal() {
    assert_eq!(Number::from_i64(0).as_str(), "0");
    assert_eq!(Number::from_i64(42).as_str(), "42");
    assert_eq!(Number::from_i64(-7).as_str(), "-7");
    assert_eq!(Number::from_i64(i64::MAX).as_str(), "9223372036854775807");
    assert_eq!(Number::from_i64(i64::MIN).as_str(), "-9223372036854775808");
}

#[test]
fn as_i64_reads_decimal_integers_only() {
    assert_eq!(Number::parse("0").unwrap().as_i64(), Some(0));
    assert_eq!(Number::parse("-9223372036854775808").unwrap().as_i64(), Some(i64::MIN));
    assert_eq!(Number::parse("9223372036854775807").unwrap().as_i64(), Some(i64::MAX));
    assert_eq!(Number::parse("9223372036854775808").unwrap().as_i64(), None);
    assert_eq!(Number::parse("-9223372036854775809").unwrap().as_i64(), None);
    assert_eq!(Number::parse("99999999999999999999999").unwrap().as_i64(), None);
    assert_eq!(Number::parse("1.0").unwrap().as_i64(), None);
    assert_eq!(Number::parse("1e2").unwrap().as_i64(), None);
    assert_eq!(Number::parse("-0").unwrap().as_i64(), None);
}

#[test]
fn as_i64_undoes_from_i64() {
    for n in [0, 1, -1, 9, 10, -10, 1234567890123, i64::MAX, i64::MIN] {
        assert_eq!(Number::from_i64(n).as_i64(), Some(n));
    }
}

#[test]
fn parse_takes_json_number_literals() {
    for text in ["0", "-0", "1", "10", "1.5", "-1.5e10", "1E-2", "0.000", "123456789012345678901234567890"] {
        assert_eq!(Number::parse(text).unwrap().as_str(), text);
    }
    for text in ["", "-", "01", "1.", ".1", "1e", "1e+", "+1", "1 ", " 1", "0x10", "1,0", "NaN", "1.5.5"] {
        assert!(Number::parse(text).is_none(), "{}", text);
    }
}

#[test]
fn clone_keeps_the_literal() {
    let n = Number::parse("55.7558").unwrap();
    assert_eq!(n.clone().as_str(), "55.7558");
}
