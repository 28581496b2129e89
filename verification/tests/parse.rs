use lib::{Arg, ArgKind, ErrorKind, ParseError, Parser, SubCommand};

#[test]
fn flags_and_options_are_read() {
    let parser = Parser::<4, 0, 0>::new("example", "0.1.0")
        .no_auto_help()
        .no_auto_version()
        .arg(Arg::flag("verbose").short('v').long("verbose"))
        .arg(Arg::option("output").short('o').long("output"));
    let matches = parser.parse::<4>(&["example", "-v", "-o", "out.txt"]).unwrap();
    assert!(matches.is_present("verbose"));
    assert_eq!(matches.value_of("output"), Some("out.txt"));
    assert_eq!(matches.value_of("verbose"), Some("true"));
    assert_eq!(matches.present_count(), 2);
    assert!(!matches.is_empty());
}

#[test]
fn option_value_forms() {
    let parser = Parser::<2, 0, 0>::new("p", "1")
        .arg(Arg::option("output").short('o').long("output"))
        .arg(Arg::flag("x").short('x'));
    let m = parser.parse::<0>(&["p", "--output=a=b"]).unwrap();
    assert_eq!(m.value_of("output"), Some("a=b"));
    let m = parser.parse::<0>(&["p", "--output", "file"]).unwrap();
    assert_eq!(m.value_of("output"), Some("file"));
    let m = parser.parse::<0>(&["p", "-xofile.txt"]).unwrap();
    assert_eq!(m.value_of("output"), Some("file.txt"));
    assert!(m.is_present("x"));
    let m = parser.parse::<0>(&["p", "-xo", "next"]).unwrap();
    assert_eq!(m.value_of("output"), Some("next"));
    let m = parser.parse::<0>(&["p", "--output="]).unwrap();
    assert_eq!(m.value_of("output"), Some(""));
}

#[test]
fn positionals_fill_slots_in_order() {
    let parser = Parser::<3, 0, 0>::new("p", "1")
        .arg(Arg::positional("first"))
        .arg(Arg::flag("v").short('v'))
        .arg(Arg::positional("second"));
    let m = parser.parse::<3>(&["p", "a", "-v", "b", "c"]).unwrap();
    assert_eq!(m.value_of("first"), Some("a"));
    assert_eq!(m.value_of("second"), Some("b"));
    assert_eq!(m.positional_count(), 3);
    assert_eq!(m.positional(0), Some("a"));
    assert_eq!(m.positional(2), Some("c"));
    assert_eq!(m.positional(3), None);
    assert_eq!(m.positionals(), &[Some("a"), Some("b"), Some("c")]);
}

#[test]
fn double_dash_makes_the_rest_positional() {
    let parser = Parser::<1, 0, 0>::new("p", "1").arg(Arg::flag("v").short('v'));
    let m = parser.parse::<3>(&["p", "--", "-v", "--x", "-1"]).unwrap();
    assert!(!m.is_present("v"));
    assert_eq!(m.positionals(), &[Some("-v"), Some("--x"), Some("-1")]);
}

#[test]
fn too_many_positionals() {
    let parser = Parser::<1, 0, 0>::new("p", "1");
    let e = parser.parse::<1>(&["p", "a", "b"]).err().unwrap();
    assert_eq!(e.kind, ErrorKind::TooManyPositionals);
    assert_eq!(e.token, Some("b"));
}

#[test]
fn unknown_arguments() {
    let parser = Parser::<1, 0, 0>::new("p", "1").arg(Arg::flag("v").short('v'));
    let e = parser.parse::<0>(&["p", "--nope"]).err().unwrap();
    assert_eq!(e.kind, ErrorKind::UnknownArgument);
    assert_eq!(e.token, Some("--nope"));
    let e = parser.parse::<0>(&["p", "-vq"]).err().unwrap();
    assert_eq!(e.kind, ErrorKind::UnknownArgument);
    assert_eq!(e.token, Some("-vq"));
    let e = parser.parse::<0>(&["p", "-1"]).err().unwrap();
    assert_eq!(e.kind, ErrorKind::UnknownArgument);
}

#[test]
fn missing_value() {
    let parser = Parser::<1, 0, 0>::new("p", "1").arg(Arg::option("out").short('o').long("out"));
    let e = parser.parse::<0>(&["p", "--out"]).err().unwrap();
    assert_eq!(e.kind, ErrorKind::MissingValue);
    assert_eq!(e.token, Some("--out"));
    assert_eq!(e.name, Some("out"));
    let e = parser.parse::<0>(&["p", "-o"]).err().unwrap();
    assert_eq!(e.kind, ErrorKind::MissingValue);
    assert_eq!(e.token, Some("-o"));
}

#[test]
fn missing_required_unless_help() {
    let parser = Parser::<1, 0, 0>::new("p", "1").arg(Arg::option("out").long("out").required());
    let e = parser.parse::<0>(&["p"]).err().unwrap();
    assert_eq!(e.kind, ErrorKind::MissingRequired);
    assert_eq!(e.name, Some("out"));
    let m = parser.parse::<0>(&["p", "--help"]).unwrap();
    assert!(m.help_requested());
    assert!(m.is_present("help"));
    assert_eq!(m.value_of("help"), Some("true"));
    let m = parser.parse::<0>(&["p", "-V"]).unwrap();
    assert!(m.version_requested());
}

#[test]
fn defaults_fill_absent_options() {
    let parser = Parser::<2, 0, 0>::new("p", "1")
        .arg(Arg::option("level").long("level").default("3").required())
        .arg(Arg::option("mode").long("mode"));
    let m = parser.parse::<0>(&["p"]).unwrap();
    assert_eq!(m.value_of("level"), Some("3"));
    assert!(!m.is_present("level"));
    assert_eq!(m.value_of("mode"), None);
    assert_eq!(m.value_of_or("mode", "fast"), "fast");
    assert_eq!(m.value_of_parsed::<u8>("level"), Ok(Some(3)));
    assert_eq!(m.value_of_parsed::<u8>("mode"), Ok(None));
    assert_eq!(m.value_of_parsed_or::<u8>("mode", 9), Ok(9));
    let m = parser.parse::<0>(&["p", "--level", "7"]).unwrap();
    assert_eq!(m.value_of("level"), Some("7"));
    assert!(m.is_present("level"));
}

#[test]
fn duplicates() {
    let parser = Parser::<2, 0, 0>::new("p", "1")
        .arg(Arg::flag("v").short('v'))
        .arg(Arg::option("o").short('o').allow_duplicates());
    let e = parser.parse::<0>(&["p", "-v", "-v"]).err().unwrap();
    assert_eq!(e.kind, ErrorKind::DuplicateArgument);
    assert_eq!(e.name, Some("v"));
    let m = parser.parse::<0>(&["p", "-o", "a", "-ob"]).unwrap();
    assert_eq!(m.value_of("o"), Some("b"));
    let e = parser.parse::<0>(&["p", "-hh"]).err().unwrap();
    assert_eq!(e.kind, ErrorKind::DuplicateArgument);
    assert_eq!(e.name, Some("help"));
    let e = parser.parse::<0>(&["p", "--version", "-V"]).err().unwrap();
    assert_eq!(e.name, Some("version"));
}

#[test]
fn invalid_choice_and_value() {
    let values: &[&str] = &["fast", "slow"];
    let parser = Parser::<2, 0, 0>::new("p", "1")
        .arg(Arg::option("mode").long("mode").possible(values))
        .arg(Arg::option("n").long("n"));
    let e = parser.parse::<0>(&["p", "--mode", "medium"]).err().unwrap();
    assert_eq!(e.kind, ErrorKind::InvalidChoice);
    assert_eq!(e.token, Some("medium"));
    assert_eq!(e.name, Some("mode"));
    assert_eq!(e.possible, Some(values));
    let m = parser.parse::<0>(&["p", "--mode", "slow", "--n", "x"]).unwrap();
    assert_eq!(m.value_of("mode"), Some("slow"));
    let e = m.value_of_parsed::<u32>("n").err().unwrap();
    assert_eq!(e.kind, ErrorKind::InvalidValue);
    assert_eq!(e.token, Some("x"));
    assert_eq!(e.name, Some("n"));
}

#[test]
fn empty_flag() {
    let parser = Parser::<0, 0, 0>::new("p", "1");
    let e = parser.parse::<1>(&["p", "-"]).err().unwrap();
    assert_eq!(e.kind, ErrorKind::EmptyFlag);
    assert_eq!(e.token, Some("-"));
}

#[test]
fn auto_help_can_be_turned_off() {
    let parser = Parser::<1, 0, 0>::new("p", "1").no_auto_help().arg(Arg::flag("help").long("help").short('h'));
    let m = parser.parse::<0>(&["p", "-h"]).unwrap();
    assert!(!m.help_requested());
    assert!(m.is_present("help"));
    let bare = Parser::<0, 0, 0>::new("p", "1").no_auto_help();
    assert_eq!(bare.parse::<0>(&["p", "--help"]).err().unwrap().kind, ErrorKind::UnknownArgument);
}

#[test]
fn positional_parsed_values() {
    let parser = Parser::<0, 0, 0>::new("p", "1");
    let m = parser.parse::<2>(&["p", "12", "x"]).unwrap();
    assert_eq!(m.positional_parsed::<u16>(0), Ok(Some(12)));
    let e = m.positional_parsed::<u16>(1).err().unwrap();
    assert_eq!(e.kind, ErrorKind::InvalidValue);
    assert_eq!(e.token, Some("x"));
    assert_eq!(e.name, None);
    assert_eq!(m.positional_parsed::<u16>(2), Ok(None));
}

#[test]
fn empty_matches() {
    let parser = Parser::<1, 0, 0>::new("p", "1").arg(Arg::flag("v").short('v'));
    let m = parser.parse::<1>(&["p"]).unwrap();
    assert!(m.is_empty());
    assert_eq!(m.present_count(), 0);
    let m = parser.parse::<1>(&[]).unwrap();
    assert!(m.is_empty());
    let m = parser.parse::<1>(&["p", "--help", "--version"]).unwrap();
    assert_eq!(m.present_count(), 2);
}

#[test]
fn subcommands_route_their_arguments() {
    let parser = Parser::<2, 2, 2>::new("git", "0.1.0")
        .arg(Arg::flag("verbose").short('v'))
        .arg(Arg::option("config").short('c'))
        .subcmd(
            SubCommand::<2>::new("clone")
                .about("Clone a repository")
                .arg(Arg::positional("url").required()),
        )
        .subcmd(SubCommand::<2>::new("status").about("Show status"));
    let result = parser.parse_sub::<2>(&["git", "-v", "clone", "https://x"]).unwrap();
    assert!(result.global.is_present("verbose"));
    assert!(result.has_subcommand());
    let (name, sub) = result.subcommand().unwrap();
    assert_eq!(name, "clone");
    assert_eq!(sub.value_of("url"), Some("https://x"));

    let result = parser.parse_sub::<2>(&["git", "-c", "status", "status"]).unwrap();
    assert_eq!(result.global.value_of("config"), Some("status"));
    assert_eq!(result.sub_name, Some("status"));

    let result = parser.parse_sub::<2>(&["git", "other"]).unwrap();
    assert!(!result.has_subcommand());
    assert!(result.subcommand().is_none());
    assert_eq!(result.global.positional(0), Some("other"));

    let e = parser.parse_sub::<2>(&["git", "clone"]).err().unwrap();
    assert_eq!(e.kind, ErrorKind::MissingRequired);
    assert_eq!(e.name, Some("url"));

    let result = parser.parse_sub::<2>(&["git", "clone", "--help"]).unwrap();
    assert!(result.help_requested());
    assert!(!result.version_requested());
    assert!(parser.get_subcommand("status").is_some());
    assert_eq!(parser.get_subcommand("status").unwrap().about, Some("Show status"));
    assert!(parser.get_subcommand("push").is_none());
    assert_eq!(parser.subs().len(), 2);
    assert_eq!(parser.arg_count(), 2);
    assert_eq!(parser.args()[1].name, "config");
}

#[test]
fn arg_builders() {
    let a = Arg::option("out").short('o').long("out").help("where").meta("FILE").default("x").required();
    assert_eq!(a.kind, ArgKind::Option);
    assert!(a.is_required());
    assert!(!a.allows_duplicates());
    assert_eq!(a.short, 'o');
    assert_eq!(a.long, Some("out"));
    assert_eq!(a.meta, "FILE");
    assert_eq!(a.default, Some("x"));
    assert!(!a.is_empty());
    assert!(Arg::flag("").is_empty());
    assert!(Arg::flag("f").allow_duplicates().allows_duplicates());
    assert_eq!(ArgKind::Positional.as_str(), "positional");
    assert!(ArgKind::Flag.is_flag());
    assert!(ArgKind::Option.is_option());
    assert!(!ArgKind::Option.is_positional());
}

#[test]
fn error_builders() {
    let e = ParseError::new(ErrorKind::InvalidValue).with_token("t").with_name("n").with_offset(3).with_len(2);
    assert_eq!(e.token, Some("t"));
    assert_eq!(e.name, Some("n"));
    assert_eq!(e.offset, Some(3));
    assert_eq!(e.len, Some(2));
    assert_eq!(e.possible, None);
    assert_eq!(ErrorKind::EmptyFlag.as_str(), "empty flag");
    assert_eq!(ErrorKind::TooManyArguments.as_str(), "too many argument definitions");
}
