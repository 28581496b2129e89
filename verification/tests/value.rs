use lib::FromArgValue;

#[test]
fn u8_from() {
    assert_eq!(u8::from_arg_value("0"), Some(0));
    assert_eq!(u8::from_arg_value("000"), Some(0));
    assert_eq!(u8::from_arg_value("255"), Some(255));
    assert_eq!(u8::from_arg_value("256"), None);
    assert_eq!(u8::from_arg_value(""), None);
    assert_eq!(u8::from_arg_value("abc"), None);
    assert_eq!(u8::from_arg_value("-1"), None);
    assert_eq!(u8::from_arg_value("007"), Some(7));
}

#[test]
fn u16_from() {
    assert_eq!(u16::from_arg_value("8080"), Some(8080));
    assert_eq!(u16::from_arg_value("65535"), Some(65535));
    assert_eq!(u16::from_arg_value("65536"), None);
}

#[test]
fn i8_from() {
    assert_eq!(i8::from_arg_value("-39"), Some(-39));
    assert_eq!(i8::from_arg_value("62"), Some(62));
    assert_eq!(i8::from_arg_value("0"), Some(0));
    assert_eq!(i8::from_arg_value("-0"), Some(0));
    assert_eq!(i8::from_arg_value("127"), Some(127));
    assert_eq!(i8::from_arg_value("-128"), Some(-128));
    assert_eq!(i8::from_arg_value("128"), None);
    assert_eq!(i8::from_arg_value("-129"), None);
    assert_eq!(i8::from_arg_value("-"), None);
}

#[test]
fn i32_from() {
    assert_eq!(i32::from_arg_value("2147483647"), Some(i32::MAX));
    assert_eq!(i32::from_arg_value("-2147483648"), Some(i32::MIN));
    assert_eq!(i32::from_arg_value("2147483648"), None);
}

#[test]
fn wide_integers_reach_their_bounds() {
    assert_eq!(u64::from_arg_value("18446744073709551615"), Some(u64::MAX));
    assert_eq!(u64::from_arg_value("18446744073709551616"), None);
    assert_eq!(
        u128::from_arg_value("340282366920938463463374607431768211455"),
        Some(u128::MAX)
    );
    assert_eq!(
        u128::from_arg_value("340282366920938463463374607431768211456"),
        None
    );
    assert_eq!(
        i128::from_arg_value("-170141183460469231731687303715884105728"),
        Some(i128::MIN)
    );
    assert_eq!(
        i128::from_arg_value("170141183460469231731687303715884105728"),
        None
    );
    assert_eq!(i64::from_arg_value("-9223372036854775808"), Some(i64::MIN));
    assert_eq!(i16::from_arg_value("-32768"), Some(i16::MIN));
    assert_eq!(u32::from_arg_value("4294967295"), Some(u32::MAX));
    assert_eq!(usize::from_arg_value("42"), Some(42));
    assert_eq!(isize::from_arg_value("-42"), Some(-42));
}

#[test]
fn integers_reject_signs_spaces_and_letters() {
    assert_eq!(u32::from_arg_value("+1"), None);
    assert_eq!(i32::from_arg_value("--1"), None);
    assert_eq!(i32::from_arg_value(" 1"), None);
    assert_eq!(i64::from_arg_value("1x"), None);
    assert_eq!(u8::from_arg_value("١"), None);
}

#[test]
fn bool_spellings() {
    for s in ["true", "True", "TRUE", "yes", "Yes", "YES", "on", "On", "ON", "1", "t", "T", "y", "Y"] {
        assert_eq!(bool::from_arg_value(s), Some(true), "{s}");
    }
    for s in ["false", "False", "FALSE", "no", "No", "NO", "off", "Off", "OFF", "0", "f", "F", "n", "N"] {
        assert_eq!(bool::from_arg_value(s), Some(false), "{s}");
    }
    assert_eq!(bool::from_arg_value("tRuE"), None);
    assert_eq!(bool::from_arg_value(""), None);
    assert_eq!(bool::from_arg_value("2"), None);
}
