use lib::{Arg, ErrorKind, FromArgValue, Parser};

#[test]
fn after_double_dash_overflow_names_first_extra_token() {
    let parser = Parser::<1, 0, 0>::new("p", "1").arg(Arg::flag("v").short('v'));
    let e = parser.parse::<2>(&["p", "--", "a", "-v", "c", "d"]).err().unwrap();
    assert_eq!(e.kind, ErrorKind::TooManyPositionals);
    assert_eq!(e.token, Some("c"));
    let m = parser.parse::<2>(&["p", "x", "--", "--"]).unwrap();
    assert_eq!(m.positionals(), &[Some("x"), Some("--")]);
}

#[test]
fn seen_arguments_have_values_and_unseen_hold_defaults() {
    let parser = Parser::<3, 0, 0>::new("p", "1")
        .arg(Arg::flag("v").short('v'))
        .arg(Arg::option("level").long("level").default("2"))
        .arg(Arg::option("name").long("name"));
    let m = parser.parse::<0>(&["p", "-v"]).unwrap();
    assert!(m.is_present("v"));
    assert_eq!(m.value_of("v"), Some("true"));
    assert!(!m.is_present("level"));
    assert_eq!(m.value_of("level"), Some("2"));
    assert!(!m.is_present("name"));
    assert_eq!(m.value_of("name"), None);
}

#[test]
fn defaults_are_checked_against_allowed_values() {
    let parser = Parser::<1, 0, 0>::new("p", "1").arg(Arg::option("mode").long("mode").possible(&["a", "b"]).default("c"));
    let e = parser.parse::<0>(&["p"]).err().unwrap();
    assert_eq!(e.kind, ErrorKind::InvalidChoice);
    assert_eq!(e.token, Some("c"));
    assert_eq!(e.name, Some("mode"));
    let m = parser.parse::<0>(&["p", "--mode", "b"]).unwrap();
    assert_eq!(m.value_of("mode"), Some("b"));
}

#[test]
fn required_waived_by_version_request() {
    let parser = Parser::<2, 0, 0>::new("p", "1")
        .arg(Arg::option("out").long("out").required())
        .arg(Arg::positional("input").required());
    let m = parser.parse::<1>(&["p", "--version"]).unwrap();
    assert!(m.version_requested());
    assert_eq!(m.value_of("out"), None);
    let e = parser.parse::<1>(&["p", "--out", "x"]).err().unwrap();
    assert_eq!(e.kind, ErrorKind::MissingRequired);
    assert_eq!(e.name, Some("input"));
    let m = parser.parse::<1>(&["p", "--out", "x", "in"]).unwrap();
    assert_eq!(m.value_of("input"), Some("in"));
}

#[test]
fn numbers_read_back_from_their_digits() {
    for n in [0u32, 1, 9, 10, 99, 100, 65535, 4294967295] {
        assert_eq!(u32::from_arg_value(&n.to_string()), Some(n));
    }
    for n in [i16::MIN, -1000, -1, 0, 7, i16::MAX] {
        assert_eq!(i16::from_arg_value(&n.to_string()), Some(n));
    }
    assert_eq!(u16::from_arg_value("65536"), None);
}

#[test]
fn leading_zeros_change_nothing() {
    assert_eq!(u32::from_arg_value("0042"), Some(42));
    assert_eq!(i16::from_arg_value("-00042"), Some(-42));
    assert_eq!(u8::from_arg_value("0000000000255"), Some(255));
    assert_eq!(u8::from_arg_value("0000000000256"), None);
}
