//! Argument definitions: flags, options and positionals.
use vstd::prelude::*;
use crate::fmt::{emit, group_emit, FmtError, HelpFormatter};
use crate::text::{opt_str, opt_strs, str_eq};

verus! {

/// Kind of argument an [`Arg`] represents
#[derive(Debug, Clone, Copy, PartialEq, Eq, Structural)]
pub enum ArgKind {
    /// Boolean switch, takes no value (`-v`, `--verbose`)
    Flag,
    /// Named argument that takes a value (`-o file`, `--output=file`)
    Option,
    /// Unnamed value at a fixed slot
    Positional,
}

impl ArgKind {
    /// The lowercase label of a kind.
    pub open spec fn label(self) -> Seq<char> {
        match self {
            ArgKind::Flag => "flag"@,
            ArgKind::Option => "option"@,
            ArgKind::Positional => "positional"@,
        }
    }

    /// Lowercase label: `"flag"`, `"option"`, or `"positional"`
    pub fn as_str(&self) -> (r: &'static str)
        ensures
            r@ == self.label(),
    {
        match self {
            ArgKind::Flag => "flag",
            ArgKind::Option => "option",
            ArgKind::Positional => "positional",
        }
    }

    pub fn is_flag(&self) -> (r: bool)
        ensures
            r == (*self == ArgKind::Flag),
    {
        matches!(self, ArgKind::Flag)
    }

    pub fn is_option(&self) -> (r: bool)
        ensures
            r == (*self == ArgKind::Option),
    {
        matches!(self, ArgKind::Option)
    }

    pub fn is_positional(&self) -> (r: bool)
        ensures
            r == (*self == ArgKind::Positional),
    {
        matches!(self, ArgKind::Positional)
    }
}

pub(crate) const FLAG_REQUIRED: u8 = 1 << 0;

pub(crate) const FLAG_ALLOW_DUPLICATES: u8 = 1 << 1;

/// What an [`Arg`] defines: its names, kind, help texts and constraints.
pub struct ArgSpec {
    pub name: Seq<char>,
    /// `'\0'` when there is no short form
    pub short: char,
    pub kind: ArgKind,
    pub long: Option<Seq<char>>,
    pub help: Option<Seq<char>>,
    pub meta: Seq<char>,
    pub default: Option<Seq<char>>,
    pub possible: Option<Seq<Seq<char>>>,
    pub required: bool,
    pub allow_duplicates: bool,
}

impl ArgSpec {
    /// A fresh definition of the given kind, before any builder runs.
    pub open spec fn fresh(name: Seq<char>, kind: ArgKind) -> ArgSpec {
        ArgSpec {
            name,
            short: '\0',
            kind,
            long: None,
            help: None,
            meta: "VALUE"@,
            default: None,
            possible: None,
            required: false,
            allow_duplicates: false,
        }
    }

    /// The character `c` selects this argument in a short cluster.
    pub open spec fn matches_short(self, c: char) -> bool {
        self.short != '\0' && self.kind != ArgKind::Positional && self.short == c
    }

    /// The key `s` (after `--`) selects this argument.
    pub open spec fn matches_long(self, s: Seq<char>) -> bool {
        self.kind != ArgKind::Positional && self.long == Some(s)
    }
}

/// Definition of a single command-line argument.
///
/// Construct one of [`flag`](Arg::flag), [`option`](Arg::option), or
/// [`positional`](Arg::positional), then chain builder methods.
#[derive(Debug, Clone, Copy, PartialEq, Eq)]
pub struct Arg<'a> {
    pub name: &'a str,
    /// Short flag character. `'\0'` means no short form
    pub short: char,
    pub kind: ArgKind,
    pub long: Option<&'a str>,
    pub help: Option<&'a str>,
    /// Placeholder shown in help output for options (`--out <FILE>`). Defaults to `"VALUE"`
    pub meta: &'a str,
    /// Default value applied when the option is absent
    pub default: Option<&'a str>,
    /// Allowed values. Parsing fails with [`ErrorKind::InvalidChoice`](crate::ErrorKind::InvalidChoice) if the input is not in the slice
    pub possible: Option<&'a [&'a str]>,
    pub(crate) flags: u8,
}

/// The definition an argument's fields hold.
pub(crate) open spec fn arg_spec_of(a: Arg) -> ArgSpec {
    ArgSpec {
        name: a.name@,
        short: a.short,
        kind: a.kind,
        long: opt_str(a.long),
        help: opt_str(a.help),
        meta: a.meta@,
        default: opt_str(a.default),
        possible: opt_strs(a.possible),
        required: a.flags & FLAG_REQUIRED != 0,
        allow_duplicates: a.flags & FLAG_ALLOW_DUPLICATES != 0,
    }
}

impl<'a> View for Arg<'a> {
    type V = ArgSpec;

    closed spec fn view(&self) -> ArgSpec {
        arg_spec_of(*self)
    }
}

pub(crate) broadcast proof fn lemma_arg_view<'a>(a: Arg<'a>)
    ensures
        #[trigger] a@ == arg_spec_of(a),
{
}

/// The definitions that a list of arguments holds.
pub open spec fn arg_specs(s: Seq<Arg>) -> Seq<ArgSpec> {
    s.map_values(|a: Arg| a@)
}

impl<'a> Arg<'a> {
    fn fresh(name: &'a str, kind: ArgKind) -> (r: Self)
        ensures
            r@ == ArgSpec::fresh(name@, kind),
    {
        let r = Arg {
            name,
            short: '\0',
            kind,
            flags: 0,
            long: None,
            help: None,
            meta: "VALUE",
            default: None,
            possible: None,
        };
        assert(0u8 & FLAG_REQUIRED == 0 && 0u8 & FLAG_ALLOW_DUPLICATES == 0) by (bit_vector);
        r
    }

    /// Create a boolean switch
    pub fn flag(name: &'a str) -> (r: Self)
        ensures
            r@ == ArgSpec::fresh(name@, ArgKind::Flag),
    {
        Self::fresh(name, ArgKind::Flag)
    }

    /// Create a value-taking option
    pub fn option(name: &'a str) -> (r: Self)
        ensures
            r@ == ArgSpec::fresh(name@, ArgKind::Option),
    {
        Self::fresh(name, ArgKind::Option)
    }

    /// Create a positional argument
    pub fn positional(name: &'a str) -> (r: Self)
        ensures
            r@ == ArgSpec::fresh(name@, ArgKind::Positional),
    {
        Self::fresh(name, ArgKind::Positional)
    }

    /// Sets the short form. Positionals cannot have one
    pub fn short(self, c: char) -> (r: Self)
        requires
            self@.kind != ArgKind::Positional,
        ensures
            r@ == (ArgSpec { short: c, ..self@ }),
    {
        let mut r = self;
        r.short = c;
        r
    }

    /// Sets the long form without the `--` prefix. Positionals cannot have one
    pub fn long(self, s: &'a str) -> (r: Self)
        requires
            self@.kind != ArgKind::Positional,
        ensures
            r@ == (ArgSpec { long: Some(s@), ..self@ }),
    {
        let mut r = self;
        r.long = Some(s);
        r
    }

    /// Sets the help text shown in generated help output
    pub fn help(self, text: &'a str) -> (r: Self)
        ensures
            r@ == (ArgSpec { help: Some(text@), ..self@ }),
    {
        let mut r = self;
        r.help = Some(text);
        r
    }

    /// Sets the value placeholder shown in help output (`--out <NAME>`). Defaults to `"VALUE"`
    pub fn meta(self, name: &'a str) -> (r: Self)
        ensures
            r@ == (ArgSpec { meta: name@, ..self@ }),
    {
        let mut r = self;
        r.meta = name;
        r
    }

    /// Marks the argument as required; parsing fails if absent
    pub fn required(self) -> (r: Self)
        ensures
            r@ == (ArgSpec { required: true, ..self@ }),
    {
        let mut r = self;
        let f = r.flags;
        r.flags = f | FLAG_REQUIRED;
        assert((f | FLAG_REQUIRED) & FLAG_REQUIRED != 0) by (bit_vector);
        assert(((f | FLAG_REQUIRED) & FLAG_ALLOW_DUPLICATES != 0) == (f & FLAG_ALLOW_DUPLICATES
            != 0)) by (bit_vector);
        r
    }

    /// Sets a default value used when the option is absent
    pub fn default(self, val: &'a str) -> (r: Self)
        ensures
            r@ == (ArgSpec { default: Some(val@), ..self@ }),
    {
        let mut r = self;
        r.default = Some(val);
        r
    }

    /// Restricts the value to one of `values`. Flags cannot have one
    pub fn possible(self, values: &'a [&'a str]) -> (r: Self)
        requires
            self@.kind != ArgKind::Flag,
        ensures
            r@ == (ArgSpec { possible: opt_strs(Some(values)), ..self@ }),
    {
        let mut r = self;
        r.possible = Some(values);
        r
    }

    /// Permits the argument to appear more than once. Last value is used
    pub fn allow_duplicates(self) -> (r: Self)
        ensures
            r@ == (ArgSpec { allow_duplicates: true, ..self@ }),
    {
        let mut r = self;
        let f = r.flags;
        r.flags = f | FLAG_ALLOW_DUPLICATES;
        assert((f | FLAG_ALLOW_DUPLICATES) & FLAG_ALLOW_DUPLICATES != 0) by (bit_vector);
        assert(((f | FLAG_ALLOW_DUPLICATES) & FLAG_REQUIRED != 0) == (f & FLAG_REQUIRED != 0))
            by (bit_vector);
        r
    }

    pub fn is_required(&self) -> (r: bool)
        ensures
            r == self@.required,
    {
        self.flags & FLAG_REQUIRED != 0
    }

    pub fn allows_duplicates(&self) -> (r: bool)
        ensures
            r == self@.allow_duplicates,
    {
        self.flags & FLAG_ALLOW_DUPLICATES != 0
    }

    pub fn is_empty(&self) -> (r: bool)
        ensures
            r == (self@.name.len() == 0),
    {
        self.name.is_empty()
    }

    pub(crate) fn matches_short(&self, c: char) -> (r: bool)
        ensures
            r == self@.matches_short(c),
    {
        if self.short == '\0' || self.kind.is_positional() {
            return false;
        }
        self.short == c
    }

    pub(crate) fn matches_long(&self, s: &str) -> (r: bool)
        ensures
            r == self@.matches_long(s@),
    {
        if self.kind.is_positional() {
            return false;
        }
        match self.long {
            Some(l) => str_eq(l, s),
            None => false,
        }
    }
}

/// The pieces of an argument's one-line description, such as
/// `option(-o, --output <FILE>)` or `positional(input)`.
pub open spec fn display_pieces(a: ArgSpec) -> Seq<Seq<char>> {
    seq![a.kind.label()] + seq!["("@] + (if a.short != '\0' {
        seq!["-"@] + seq![seq![a.short]]
    } else {
        Seq::empty()
    }) + (match a.long {
        Some(l) => (if a.short != '\0' {
            seq![", "@]
        } else {
            Seq::empty()
        }) + seq!["--"@] + seq![l],
        None => Seq::empty(),
    }) + (if a.kind == ArgKind::Option {
        (if a.short != '\0' || a.long is Some {
            seq![" "@]
        } else {
            Seq::empty()
        }) + seq!["<"@] + seq![a.meta] + seq![">"@]
    } else {
        Seq::empty()
    }) + (if a.kind == ArgKind::Positional {
        seq![a.name]
    } else {
        Seq::empty()
    }) + seq![")"@]
}

impl<'a> Arg<'a> {
    /// Writes a one-line description of the argument: its kind, then its
    /// short and long forms, value placeholder or name in brackets.
    pub fn write_display(&self, w: &mut HelpFormatter) -> (r: Result<(), FmtError>)
        ensures
            final(final(w).borrowed())@ == final(old(w).borrowed())@,
            (final(w)@, r is Ok) == emit(old(w)@, display_pieces(self@)),
    {
        broadcast use group_emit;

        w.write_str(self.kind.as_str())?;
        w.write_str("(")?;
        let mut sep = false;
        if self.short != '\0' {
            w.write_str("-")?;
            w.write_char(self.short)?;
            sep = true;
        }
        if let Some(long) = self.long {
            if sep {
                w.write_str(", ")?;
            }
            w.write_str("--")?;
            w.write_str(long)?;
            sep = true;
        }
        if self.kind.is_option() {
            if sep {
                w.write_str(" ")?;
            }
            w.write_str("<")?;
            w.write_str(self.meta)?;
            w.write_str(">")?;
        }
        if self.kind.is_positional() {
            w.write_str(self.name)?;
        }
        w.write_str(")")
    }
}

} // verus!
