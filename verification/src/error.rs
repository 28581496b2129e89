//! Parse failures and their context.
use vstd::prelude::*;
use crate::fmt::{emit, group_emit, join_pieces, write_joined, FmtError, HelpFormatter};
use crate::text::{opt_str, opt_strs};

verus! {

/// Why parsing failed
#[derive(Debug, Clone, Copy, PartialEq, Eq, Structural)]
#[non_exhaustive]
pub enum ErrorKind {
    /// `--arg` doesn't match any defined argument
    UnknownArgument,
    /// `--arg` was given with no value after it
    MissingValue,
    /// A `.required()` argument wasn't provided
    MissingRequired,
    /// Same argument appeared twice without `.allow_duplicates()`
    DuplicateArgument,
    /// More positional values than `P` slots in `Matches<A, P>`
    TooManyPositionals,
    /// More argument definitions than `A` slots
    TooManyArguments,
    /// `FromArgValue` returned `None` for the given input
    InvalidValue,
    /// Value was not in the [`possible`](crate::Arg::possible) set
    InvalidChoice,
    /// Bare `-` with nothing after it
    EmptyFlag,
}

impl ErrorKind {
    /// The short lowercase label of a kind.
    pub open spec fn label(self) -> Seq<char> {
        match self {
            ErrorKind::UnknownArgument => "unknown argument"@,
            ErrorKind::MissingValue => "missing value"@,
            ErrorKind::MissingRequired => "missing required argument"@,
            ErrorKind::DuplicateArgument => "duplicate argument"@,
            ErrorKind::TooManyPositionals => "too many positional arguments"@,
            ErrorKind::TooManyArguments => "too many argument definitions"@,
            ErrorKind::InvalidValue => "invalid value"@,
            ErrorKind::InvalidChoice => "invalid choice"@,
            ErrorKind::EmptyFlag => "empty flag"@,
        }
    }

    /// Short lowercase label for this error kind
    pub fn as_str(&self) -> (r: &'static str)
        ensures
            r@ == self.label(),
    {
        match self {
            ErrorKind::UnknownArgument => "unknown argument",
            ErrorKind::MissingValue => "missing value",
            ErrorKind::MissingRequired => "missing required argument",
            ErrorKind::DuplicateArgument => "duplicate argument",
            ErrorKind::TooManyPositionals => "too many positional arguments",
            ErrorKind::TooManyArguments => "too many argument definitions",
            ErrorKind::InvalidValue => "invalid value",
            ErrorKind::InvalidChoice => "invalid choice",
            ErrorKind::EmptyFlag => "empty flag",
        }
    }
}

/// What a [`ParseError`] reports, with its context as characters.
pub struct ErrorView {
    pub kind: ErrorKind,
    pub token: Option<Seq<char>>,
    pub name: Option<Seq<char>>,
    pub offset: Option<usize>,
    pub len: Option<usize>,
    pub possible: Option<Seq<Seq<char>>>,
}

impl ErrorView {
    /// An error of `kind` with no context.
    pub open spec fn of(kind: ErrorKind) -> ErrorView {
        ErrorView { kind, token: None, name: None, offset: None, len: None, possible: None }
    }

    pub open spec fn token(self, t: Seq<char>) -> ErrorView {
        ErrorView { token: Some(t), ..self }
    }

    pub open spec fn name(self, n: Seq<char>) -> ErrorView {
        ErrorView { name: Some(n), ..self }
    }

    pub open spec fn values(self, p: Seq<Seq<char>>) -> ErrorView {
        ErrorView { possible: Some(p), ..self }
    }
}

/// A parse failure with optional context borrowed from the input.
///
/// Build with [`ParseError::new`] then attach context via the
/// `with_*` methods.
#[derive(Clone, Copy, PartialEq, Eq, Debug)]
pub struct ParseError<'a> {
    pub kind: ErrorKind,
    /// Raw token from the input that triggered the error
    pub token: Option<&'a str>,
    /// Argument name (the lookup key from [`Arg`](crate::Arg))
    pub name: Option<&'a str>,
    /// Byte offset within the token
    pub offset: Option<usize>,
    /// Length of the offending span
    pub len: Option<usize>,
    /// Allowed values when [`kind`](Self::kind) is [`InvalidChoice`](ErrorKind::InvalidChoice)
    pub possible: Option<&'a [&'a str]>,
}

impl<'a> View for ParseError<'a> {
    type V = ErrorView;

    open spec fn view(&self) -> ErrorView {
        ErrorView {
            kind: self.kind,
            token: opt_str(self.token),
            name: opt_str(self.name),
            offset: self.offset,
            len: self.len,
            possible: opt_strs(self.possible),
        }
    }
}

impl<'a> ParseError<'a> {
    /// Creates a new error with `kind` and no context attached
    pub fn new(kind: ErrorKind) -> (r: Self)
        ensures
            r@ == ErrorView::of(kind),
    {
        Self { kind, token: None, name: None, offset: None, len: None, possible: None }
    }

    /// Attaches the raw input token that caused the error
    pub fn with_token(self, token: &'a str) -> (r: Self)
        ensures
            r@ == self@.token(token@),
    {
        let mut r = self;
        r.token = Some(token);
        r
    }

    /// Attaches the argument name the error relates to
    pub fn with_name(self, name: &'a str) -> (r: Self)
        ensures
            r@ == self@.name(name@),
    {
        let mut r = self;
        r.name = Some(name);
        r
    }

    /// Attaches a byte offset into the offending token
    pub fn with_offset(self, offset: usize) -> (r: Self)
        ensures
            r@ == (ErrorView { offset: Some(offset), ..self@ }),
    {
        let mut r = self;
        r.offset = Some(offset);
        r
    }

    /// Attaches the length of the offending span
    pub fn with_len(self, len: usize) -> (r: Self)
        ensures
            r@ == (ErrorView { len: Some(len), ..self@ }),
    {
        let mut r = self;
        r.len = Some(len);
        r
    }

    /// Attaches the allowed-values list (for [`ErrorKind::InvalidChoice`])
    pub fn with_possible(self, values: &'a [&'a str]) -> (r: Self)
        ensures
            r@ == self@.values(opt_strs(Some(values))->0),
    {
        let mut r = self;
        r.possible = Some(values);
        r
    }
}

/// The first of `a` and `b` that is present, else `d`.
pub open spec fn first_of(a: Option<Seq<char>>, b: Option<Seq<char>>, d: Seq<char>) -> Seq<char> {
    match a {
        Some(x) => x,
        None => match b {
            Some(y) => y,
            None => d,
        },
    }
}

/// The pieces of an error's message.
pub open spec fn message_pieces(e: ErrorView) -> Seq<Seq<char>> {
    let unknown = "unknown"@;
    match e.kind {
        ErrorKind::MissingValue => seq!["argument '"@] + seq![first_of(e.token, e.name, unknown)]
            + seq!["' requires a value"@],
        ErrorKind::UnknownArgument => seq!["unknown argument '"@] + seq![
            first_of(e.token, e.name, unknown),
        ] + seq!["'"@],
        ErrorKind::MissingRequired => seq!["required argument '"@] + seq![
            first_of(e.name, e.token, unknown),
        ] + seq!["' was not provided"@],
        ErrorKind::DuplicateArgument => seq!["argument '"@] + seq![
            first_of(e.token, e.name, unknown),
        ] + seq!["' was provided more than once"@],
        ErrorKind::InvalidValue => seq!["invalid value '"@] + seq![first_of(e.token, None, unknown)]
            + seq!["' for argument '"@] + seq![first_of(e.name, None, unknown)] + seq!["'"@],
        ErrorKind::InvalidChoice => seq!["invalid value '"@] + seq![
            first_of(e.token, None, unknown),
        ] + seq!["' for argument '"@] + seq![first_of(e.name, None, unknown)] + seq!["'"@] + (
        match e.possible {
            Some(vs) => seq![", expected one of: "@] + join_pieces(vs, ", "@),
            None => Seq::empty(),
        }),
        ErrorKind::TooManyPositionals => seq!["unexpected positional argument '"@] + seq![
            first_of(e.token, None, "value"@),
        ] + seq!["'"@],
        ErrorKind::TooManyArguments => seq!["too many arguments provided"@],
        ErrorKind::EmptyFlag => seq!["empty flag '-'"@],
    }
}

fn first_of_exec<'a>(a: Option<&'a str>, b: Option<&'a str>, d: &'a str) -> (r: &'a str)
    ensures
        r@ == first_of(opt_str(a), opt_str(b), d@),
{
    match a {
        Some(x) => x,
        None => match b {
            Some(y) => y,
            None => d,
        },
    }
}

impl<'a> ParseError<'a> {
    /// Writes the error's message, without a prefix, so callers can compose.
    pub fn write_message(&self, w: &mut HelpFormatter) -> (r: Result<(), FmtError>)
        ensures
            final(final(w).borrowed())@ == final(old(w).borrowed())@,
            (final(w)@, r is Ok) == emit(old(w)@, message_pieces(self@)),
    {
        broadcast use group_emit;

        match self.kind {
            ErrorKind::MissingValue => {
                w.write_str("argument '")?;
                w.write_str(first_of_exec(self.token, self.name, "unknown"))?;
                w.write_str("' requires a value")
            },
            ErrorKind::UnknownArgument => {
                w.write_str("unknown argument '")?;
                w.write_str(first_of_exec(self.token, self.name, "unknown"))?;
                w.write_str("'")
            },
            ErrorKind::MissingRequired => {
                w.write_str("required argument '")?;
                w.write_str(first_of_exec(self.name, self.token, "unknown"))?;
                w.write_str("' was not provided")
            },
            ErrorKind::DuplicateArgument => {
                w.write_str("argument '")?;
                w.write_str(first_of_exec(self.token, self.name, "unknown"))?;
                w.write_str("' was provided more than once")
            },
            ErrorKind::InvalidValue => {
                w.write_str("invalid value '")?;
                w.write_str(first_of_exec(self.token, None, "unknown"))?;
                w.write_str("' for argument '")?;
                w.write_str(first_of_exec(self.name, None, "unknown"))?;
                w.write_str("'")
            },
            ErrorKind::InvalidChoice => {
                w.write_str("invalid value '")?;
                w.write_str(first_of_exec(self.token, None, "unknown"))?;
                w.write_str("' for argument '")?;
                w.write_str(first_of_exec(self.name, None, "unknown"))?;
                w.write_str("'")?;
                if let Some(values) = self.possible {
                    w.write_str(", expected one of: ")?;
                    write_joined(w, values, ", ")?;
                }
                Ok(())
            },
            ErrorKind::TooManyPositionals => {
                w.write_str("unexpected positional argument '")?;
                w.write_str(first_of_exec(self.token, None, "value"))?;
                w.write_str("'")
            },
            ErrorKind::TooManyArguments => w.write_str("too many arguments provided"),
            ErrorKind::EmptyFlag => w.write_str("empty flag '-'"),
        }
    }
}

/// Alias for `Result<T, ParseError<'a>>`
pub type ParseResult<'a, T> = Result<T, ParseError<'a>>;


/// What each kind of error says, for an error that carries the token and
/// the name that the parser gives it.
pub proof fn law_messages(e: ErrorView, t: Seq<char>, n: Seq<char>)
    requires
        e.token == Some(t),
        e.name == Some(n),
    ensures
        ({
            let text = message_pieces(e).flatten();
            &&& e.kind == ErrorKind::MissingValue ==> text == "argument '"@ + t + "' requires a value"@
            &&& e.kind == ErrorKind::UnknownArgument ==> text == "unknown argument '"@ + t + "'"@
            &&& e.kind == ErrorKind::MissingRequired ==> text == "required argument '"@ + n
                + "' was not provided"@
            &&& e.kind == ErrorKind::DuplicateArgument ==> text == "argument '"@ + t
                + "' was provided more than once"@
            &&& e.kind == ErrorKind::InvalidValue ==> text == "invalid value '"@ + t
                + "' for argument '"@ + n + "'"@
            &&& e.kind == ErrorKind::InvalidChoice ==> text.take(
                ("invalid value '"@ + t + "' for argument '"@ + n + "'"@).len() as int,
            ) == "invalid value '"@ + t + "' for argument '"@ + n + "'"@
            &&& e.kind == ErrorKind::TooManyPositionals ==> text == "unexpected positional argument '"@
                + t + "'"@
            &&& e.kind == ErrorKind::TooManyArguments ==> text == "too many arguments provided"@
            &&& e.kind == ErrorKind::EmptyFlag ==> text == "empty flag '-'"@
        }),
{
    broadcast use crate::fmt::lemma_flat_concat, crate::fmt::lemma_flat_one;

    let text = message_pieces(e).flatten();
    if e.kind == ErrorKind::InvalidChoice {
        let base = seq!["invalid value '"@] + seq![t] + seq!["' for argument '"@] + seq![n] + seq![
            "'"@,
        ];
        let more: Seq<Seq<char>> = match e.possible {
            Some(vs) => seq![", expected one of: "@] + join_pieces(vs, ", "@),
            None => Seq::empty(),
        };
        assert(message_pieces(e) == base + more);
        let b = "invalid value '"@ + t + "' for argument '"@ + n + "'"@;
        assert(base.flatten() =~= b);
        assert(text == b + more.flatten());
        assert(text.take(b.len() as int) =~= b);
    }
}

} // verus!
