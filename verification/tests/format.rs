use lib::fmt::{format_option_line, write_padding, write_usage, write_version, FmtError, HelpFormatter};
use lib::{Arg, ErrorKind, ParseError, Parser, SubCommand};

fn pad(n: usize) -> String {
    " ".repeat(n)
}

#[test]
fn readme_help_text() {
    let parser = Parser::<4, 0, 0>::new("example", "0.1.0")
        .about("Process a file")
        .arg(Arg::flag("verbose").short('v').long("verbose"))
        .arg(Arg::option("output").short('o').long("output").required())
        .arg(Arg::positional("input"));
    let matches = parser.parse::<2>(&["example", "--help"]).unwrap();
    assert!(matches.help_requested());
    let mut buf = [0u8; 1024];
    let mut w = HelpFormatter::new(&mut buf);
    parser.format_help(&mut w).unwrap();
    let expected = format!(
        "example 0.1.0\nProcess a file\n\nUSAGE:\nexample [OPTIONS] [ARGS]\n\nOPTIONS:\n    -v, --verbose{}\n    -o, --output <VALUE>{}[required]\n    -h, --help{}Print help information\n    -V, --version{}Print version information\n\nARGS:\n    <input>{}\n",
        pad(11),
        pad(4),
        pad(14),
        pad(11),
        pad(17)
    );
    assert_eq!(w.as_str(), expected);
}

#[test]
fn help_without_auto_entries_or_version() {
    let parser = Parser::<1, 0, 0>::new("tool", "")
        .no_auto_help()
        .no_auto_version()
        .arg(Arg::positional("file").help("Input file").required());
    let mut buf = [0u8; 256];
    let mut w = HelpFormatter::new(&mut buf);
    parser.format_help(&mut w).unwrap();
    let expected = format!("tool\n\nUSAGE:\ntool [ARGS]\n\nARGS:\n    <file>{}Input file [required]\n", pad(18));
    assert_eq!(w.as_str(), expected);
}

#[test]
fn subcommand_help_texts() {
    let parser = Parser::<2, 2, 2>::new("git", "0.1.0")
        .arg(Arg::flag("verbose").short('v'))
        .subcmd(
            SubCommand::<2>::new("clone")
                .about("Clone a repository")
                .arg(Arg::positional("url").required()),
        )
        .subcmd(SubCommand::<2>::new("status").about("Show status"));
    let mut buf = [0u8; 1024];
    let mut w = HelpFormatter::new(&mut buf);
    parser.format_help(&mut w).unwrap();
    let expected = format!(
        "git 0.1.0\n\nUSAGE:\ngit [OPTIONS] <SUBCOMMAND>\n\nOPTIONS:\n    -v{}\n    -h, --help{}Print help information\n    -V, --version{}Print version information\n\nSUBCOMMANDS:\n    clone{}Clone a repository\n    status{}Show status\n",
        pad(22),
        pad(14),
        pad(11),
        pad(19),
        pad(18)
    );
    assert_eq!(w.as_str(), expected);

    let clone = parser.get_subcommand("clone").unwrap();
    let mut buf = [0u8; 512];
    let mut w = HelpFormatter::new(&mut buf);
    clone.format_help(true, false, &mut w).unwrap();
    let expected = format!(
        "clone\nClone a repository\n\nUSAGE:\nclone [OPTIONS] [ARGS]\n\nOPTIONS:\n    -h, --help{}Print help information\n\nARGS:\n    <url>{}[required]\n",
        pad(14),
        pad(19)
    );
    assert_eq!(w.as_str(), expected);
}

#[test]
fn option_lines() {
    let mut buf = [0u8; 256];
    let mut w = HelpFormatter::new(&mut buf);
    let mode = Arg::option("mode").long("mode").help("Mode").possible(&["fast", "slow"]).default("fast");
    format_option_line(&mut w, &mode).unwrap();
    assert_eq!(w.as_str(), "        --mode <fast|slow>  Mode [default: fast]\n");

    w.reset();
    let color = Arg::option("color").short('c').possible(&["always", "never", "automatic"]);
    format_option_line(&mut w, &color).unwrap();
    assert_eq!(w.as_str(), format!("    -c <VALUE>{}[possible: always, never, automatic]\n", pad(14)));

    w.reset();
    let long_name = Arg::flag("x").long("a-very-long-flag-name-here");
    format_option_line(&mut w, &long_name).unwrap();
    assert_eq!(w.as_str(), "        --a-very-long-flag-name-here  \n");
}

#[test]
fn padding_widths() {
    let mut buf = [0u8; 128];
    let mut w = HelpFormatter::new(&mut buf);
    write_padding(&mut w, 4, 28).unwrap();
    assert_eq!(w.as_str(), pad(24));
    w.reset();
    write_padding(&mut w, 30, 28).unwrap();
    assert_eq!(w.as_str(), pad(2));
    w.reset();
    write_padding(&mut w, 28, 28).unwrap();
    assert_eq!(w.as_str(), pad(2));
    w.reset();
    write_padding(&mut w, 0, 70).unwrap();
    assert_eq!(w.as_str(), pad(70));
    assert_eq!(w.len(), 70);
}

#[test]
fn usage_and_version_lines() {
    let mut buf = [0u8; 64];
    let mut w = HelpFormatter::new(&mut buf);
    write_usage("prog", true, true, &mut w).unwrap();
    assert_eq!(w.as_str(), "Usage: prog [OPTIONS] [ARGS]");
    w.reset();
    write_usage("prog", false, false, &mut w).unwrap();
    assert_eq!(w.as_str(), "Usage: prog");
    w.reset();
    write_version("prog", "1.2.3", &mut w).unwrap();
    assert_eq!(w.as_str(), "prog 1.2.3");
}

#[test]
fn formatter_capacity_and_overflow() {
    let mut buf = [0u8; 5];
    let mut w = HelpFormatter::new(&mut buf);
    assert!(w.is_empty());
    assert_eq!(w.capacity(), 5);
    assert_eq!(w.remaining(), 5);
    w.write_str("abc").unwrap();
    assert_eq!(w.len(), 3);
    assert_eq!(w.remaining(), 2);
    assert_eq!(w.write_str("def"), Err(FmtError));
    assert_eq!(w.as_str(), "abc");
    w.write_byte(b'd').unwrap();
    w.write_bytes(b"e").unwrap();
    assert_eq!(w.write_byte(b'f'), Err(FmtError));
    assert_eq!(w.as_bytes(), b"abcde");
    w.reset();
    assert!(w.is_empty());
    assert_eq!(w.as_str(), "");
    w.write_char('é').unwrap();
    assert_eq!(w.len(), 2);
    w.write_char('x').unwrap();
    assert_eq!(w.as_str(), "éx");
    assert_eq!(w.write_char('€'), Err(FmtError));
    assert_eq!(w.as_str(), "éx");
}

#[test]
fn help_that_does_not_fit_fails() {
    let parser = Parser::<1, 0, 0>::new("example", "0.1.0").arg(Arg::flag("v").short('v'));
    let mut buf = [0u8; 20];
    let mut w = HelpFormatter::new(&mut buf);
    assert_eq!(parser.format_help(&mut w), Err(FmtError));
    assert!(w.len() <= 20);
    assert_eq!(w.as_str(), "example 0.1.0\n");
}

fn message(e: &ParseError<'_>) -> String {
    let mut buf = [0u8; 256];
    let mut w = HelpFormatter::new(&mut buf);
    e.write_message(&mut w).unwrap();
    w.as_str().to_string()
}

#[test]
fn error_messages() {
    let e = ParseError::new(ErrorKind::MissingValue).with_token("--out").with_name("out");
    assert_eq!(message(&e), "argument '--out' requires a value");
    let e = ParseError::new(ErrorKind::MissingValue).with_name("out");
    assert_eq!(message(&e), "argument 'out' requires a value");
    let e = ParseError::new(ErrorKind::UnknownArgument).with_token("--nope");
    assert_eq!(message(&e), "unknown argument '--nope'");
    let e = ParseError::new(ErrorKind::UnknownArgument);
    assert_eq!(message(&e), "unknown argument 'unknown'");
    let e = ParseError::new(ErrorKind::MissingRequired).with_name("output").with_token("t");
    assert_eq!(message(&e), "required argument 'output' was not provided");
    let e = ParseError::new(ErrorKind::DuplicateArgument).with_name("v");
    assert_eq!(message(&e), "argument 'v' was provided more than once");
    let e = ParseError::new(ErrorKind::InvalidValue).with_token("abc").with_name("port");
    assert_eq!(message(&e), "invalid value 'abc' for argument 'port'");
    let e = ParseError::new(ErrorKind::InvalidValue);
    assert_eq!(message(&e), "invalid value 'unknown' for argument 'unknown'");
    let e = ParseError::new(ErrorKind::InvalidChoice)
        .with_token("x")
        .with_name("mode")
        .with_possible(&["fast", "slow"]);
    assert_eq!(message(&e), "invalid value 'x' for argument 'mode', expected one of: fast, slow");
    let e = ParseError::new(ErrorKind::InvalidChoice).with_token("x").with_name("mode");
    assert_eq!(message(&e), "invalid value 'x' for argument 'mode'");
    let e = ParseError::new(ErrorKind::TooManyPositionals).with_token("extra");
    assert_eq!(message(&e), "unexpected positional argument 'extra'");
    let e = ParseError::new(ErrorKind::TooManyPositionals);
    assert_eq!(message(&e), "unexpected positional argument 'value'");
    let e = ParseError::new(ErrorKind::TooManyArguments).with_name("x");
    assert_eq!(message(&e), "too many arguments provided");
    let e = ParseError::new(ErrorKind::EmptyFlag).with_token("-");
    assert_eq!(message(&e), "empty flag '-'");
}

#[test]
fn write_error_prefixes_the_message() {
    let parser = Parser::<1, 0, 0>::new("p", "1").arg(Arg::flag("v").short('v'));
    let e = parser.parse::<0>(&["p", "--what"]).err().unwrap();
    let mut buf = [0u8; 64];
    let mut w = HelpFormatter::new(&mut buf);
    e.write_error(&mut w).unwrap();
    assert_eq!(w.as_str(), "error: unknown argument '--what'");
    let mut small = [0u8; 10];
    let mut w = HelpFormatter::new(&mut small);
    assert_eq!(e.write_error(&mut w), Err(FmtError));
    assert_eq!(w.as_str(), "error: ");
}

fn display(a: &Arg<'_>) -> String {
    let mut buf = [0u8; 128];
    let mut w = HelpFormatter::new(&mut buf);
    a.write_display(&mut w).unwrap();
    w.as_str().to_string()
}

#[test]
fn arg_display() {
    assert_eq!(display(&Arg::flag("verbose").short('v').long("verbose")), "flag(-v, --verbose)");
    assert_eq!(display(&Arg::option("out").short('o').meta("FILE")), "option(-o <FILE>)");
    assert_eq!(display(&Arg::option("out").long("out")), "option(--out <VALUE>)");
    assert_eq!(display(&Arg::option("out")), "option(<VALUE>)");
    assert_eq!(display(&Arg::positional("input")), "positional(input)");
    assert_eq!(display(&Arg::flag("q")), "flag()");
}

#[test]
fn debug_texts() {
    let parser = Parser::<3, 0, 0>::new("p", "1")
        .arg(Arg::flag("verbose").short('v').long("verbose"))
        .arg(Arg::option("output").short('o').meta("FILE"))
        .arg(Arg::positional("input"));
    let mut buf = [0u8; 512];
    let mut w = HelpFormatter::new(&mut buf);
    parser.write_debug(&mut w).unwrap();
    assert_eq!(
        w.as_str(),
        "Parser { name: \"p\", args: [flag(-v, --verbose), option(-o <FILE>), positional(input)] }"
    );

    let m = parser.parse::<3>(&["p", "-v", "a", "b", "--help"]).unwrap();
    w.reset();
    m.write_debug(&mut w).unwrap();
    assert_eq!(
        w.as_str(),
        "Matches {\n  entries: [\n    verbose: present=true, value=\"true\"\n    output: present=false\n    input: present=true, value=\"a\"\n  ],\n  help: requested\n  positionals: [\"a\", \"b\"],\n}"
    );

    let sub_parser = Parser::<1, 1, 1>::new("git", "1").subcmd(SubCommand::<1>::new("clone"));
    let r = sub_parser.parse_sub::<1>(&["git", "clone"]).unwrap();
    w.reset();
    r.write_debug(&mut w).unwrap();
    assert_eq!(w.as_str(), "SubResult { sub_name: \"clone\" }");
    let r = sub_parser.parse_sub::<1>(&["git"]).unwrap();
    w.reset();
    r.write_debug(&mut w).unwrap();
    assert_eq!(w.as_str(), "SubResult { sub_name: None }");
}

#[test]
fn reset_keeps_buffer_contents() {
    let mut buf = [0u8; 4];
    {
        let mut f = HelpFormatter::new(&mut buf);
        f.write_bytes(b"abcd").unwrap();
        f.reset();
        assert_eq!(f.len(), 0);
        assert!(f.is_empty());
        assert_eq!(f.capacity(), 4);
        assert_eq!(f.remaining(), 4);
        f.write_bytes(b"x").unwrap();
        assert_eq!(f.as_bytes(), b"x");
    }
    assert_eq!(buf, *b"xbcd");
}

#[test]
fn failed_write_leaves_buffer_alone() {
    let mut buf = *b"......";
    {
        let mut f = HelpFormatter::new(&mut buf);
        f.write_str("ab").unwrap();
        assert_eq!(f.write_str("cdefg"), Err(FmtError));
        assert_eq!(f.as_str(), "ab");
    }
    assert_eq!(buf, *b"ab....");
}
