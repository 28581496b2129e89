//! The result of a successful parse.
use vstd::prelude::*;
use crate::error::{ErrorKind, ErrorView, ParseError};
use crate::text::{first_from, first_index, lemma_first_from, opt_int, opt_str, str_eq, strs};
use crate::value::FromArgValue;
use crate::fmt::{emit, group_emit, lemma_emit_concat, FmtError, HelpFormatter};

verus! {

/// Bit `i` of `b` is set.
pub open spec fn bit_at(b: u64, i: u64) -> bool {
    (b >> i) & 1u64 == 1u64
}

proof fn lemma_bit_set(b: u64, i: u64, j: u64)
    requires
        i < 64,
        j < 64,
    ensures
        bit_at(b | (1u64 << i), j) == (i == j || bit_at(b, j)),
{
    assert(((b | (1u64 << i)) >> j) & 1u64 == 1u64 <==> (i == j || (b >> j) & 1u64 == 1u64))
        by (bit_vector)
        requires
            i < 64,
            j < 64,
    ;
}

proof fn lemma_bit_get(b: u64, i: u64)
    requires
        i < 64,
    ensures
        (b & (1u64 << i) != 0) == bit_at(b, i),
{
    assert((b & (1u64 << i) != 0) <==> ((b >> i) & 1u64 == 1u64)) by (bit_vector)
        requires
            i < 64,
    ;
}

/// The number of set bits of `b` below position `n`.
pub open spec fn count_bits(b: u64, n: nat) -> nat
    decreases n,
{
    if n == 0 {
        0
    } else {
        count_bits(b, (n - 1) as nat) + if bit_at(b, (n - 1) as u64) {
            1nat
        } else {
            0nat
        }
    }
}

/// The number of `true` entries of `s`.
pub open spec fn count_true(s: Seq<bool>) -> nat
    decreases s.len(),
{
    if s.len() == 0 {
        0
    } else {
        count_true(s.drop_last()) + if s.last() {
            1nat
        } else {
            0nat
        }
    }
}

/// Bitset over up to 64 entries, used to track which user arguments have
/// been observed in the input.
#[derive(Clone, Copy)]
pub(crate) struct PresenceBits(pub(crate) u64);

impl PresenceBits {
    pub(crate) fn new() -> (r: Self)
        ensures
            r.0 == 0,
    {
        Self(0)
    }

    pub(crate) fn set(&mut self, idx: usize)
        requires
            idx < 64,
        ensures
            forall|j: u64|
                j < 64 ==> bit_at(final(self).0, j) == (j == idx || bit_at(old(self).0, j)),
    {
        let b = self.0;
        let m = 1u64 << (idx as u64);
        self.0 = b | m;
        proof {
            assert forall|j: u64| j < 64 implies bit_at(self.0, j) == (j == idx || bit_at(
                old(self).0,
                j,
            )) by {
                lemma_bit_set(b, idx as u64, j);
            }
        }
    }

    pub(crate) fn get(&self, idx: usize) -> (r: bool)
        requires
            idx < 64,
        ensures
            r == bit_at(self.0, idx as u64),
    {
        proof {
            lemma_bit_get(self.0, idx as u64);
        }
        self.0 & (1u64 << (idx as u64)) != 0
    }

    pub(crate) fn count_ones(&self) -> (r: usize)
        ensures
            r == count_bits(self.0, 64),
            r <= 64,
    {
        let mut c: usize = 0;
        let mut i: u64 = 0;
        while i < 64
            invariant
                i <= 64,
                c == count_bits(self.0, i as nat),
                c <= i,
            decreases 64 - i,
        {
            if (self.0 >> i) & 1u64 == 1u64 {
                c += 1;
            }
            i += 1;
        }
        c
    }
}

/// What a [`Matches`] holds: the argument names, their values and presence,
/// the auto-help / auto-version requests and the positional values in order.
pub struct MatchesView {
    pub names: Seq<Seq<char>>,
    pub entries: Seq<Option<Seq<char>>>,
    pub present: Seq<bool>,
    pub help: bool,
    pub version: bool,
    pub positionals: Seq<Seq<char>>,
}

impl MatchesView {
    /// Nothing observed yet, for the given names and `a` slots.
    pub open spec fn initial(names: Seq<Seq<char>>, a: nat) -> MatchesView {
        MatchesView {
            names,
            entries: Seq::new(a, |i: int| None),
            present: Seq::new(a, |i: int| false),
            help: false,
            version: false,
            positionals: Seq::empty(),
        }
    }

    /// The slot of the first argument named `name`.
    pub open spec fn find(self, name: Seq<char>) -> Option<int> {
        first_index(self.names, |n: Seq<char>| n == name)
    }

    /// Slot `i` was seen with value `v`.
    pub open spec fn record(self, i: int, v: Seq<char>) -> MatchesView {
        MatchesView {
            present: self.present.update(i, true),
            entries: self.entries.update(i, Some(v)),
            ..self
        }
    }

    pub open spec fn is_present(self, name: Seq<char>) -> bool {
        if name == "help"@ && self.help {
            true
        } else if name == "version"@ && self.version {
            true
        } else {
            match self.find(name) {
                Some(i) => self.present[i],
                None => false,
            }
        }
    }

    pub open spec fn value_of(self, name: Seq<char>) -> Option<Seq<char>> {
        if name == "help"@ && self.help {
            Some("true"@)
        } else if name == "version"@ && self.version {
            Some("true"@)
        } else {
            match self.find(name) {
                Some(i) => self.entries[i],
                None => None,
            }
        }
    }

    /// Named arguments observed, auto-help and auto-version included.
    pub open spec fn present_count(self) -> nat {
        count_true(self.present) + (if self.help {
            1nat
        } else {
            0nat
        }) + (if self.version {
            1nat
        } else {
            0nat
        })
    }
}

/// Result of a successful parse: argument values plus positionals.
///
/// `A` is the number of user argument definitions (matches the parser's `A`).
/// `P` is the positional-slot capacity supplied at the parse call site.
///
/// Auto-help and auto-version live in dedicated booleans; they never consume
/// room from the `A` budget. Look them up by the reserved names `"help"`
/// and `"version"`.
pub struct Matches<'a, const A: usize, const P: usize> {
    pub(crate) names: [&'a str; A],
    pub(crate) entries: [Option<&'a str>; A],
    pub(crate) present: PresenceBits,
    pub(crate) entry_count: usize,
    pub(crate) help: bool,
    pub(crate) version: bool,
    pub(crate) positionals: [Option<&'a str>; P],
    pub(crate) pos_count: usize,
}

impl<'a, const A: usize, const P: usize> View for Matches<'a, A, P> {
    type V = MatchesView;

    closed spec fn view(&self) -> MatchesView {
        MatchesView {
            names: strs(self.names@.take(self.entry_count as int)),
            entries: self.entries@.map_values(|o: Option<&str>| opt_str(o)),
            present: Seq::new(A as nat, |i: int| bit_at(self.present.0, i as u64)),
            help: self.help,
            version: self.version,
            positionals: self.positionals@.take(self.pos_count as int).map_values(
                |o: Option<&str>| opt_str(o)->0,
            ),
        }
    }
}

proof fn lemma_count_prefix(b: u64, n: nat)
    requires
        n <= 64,
        forall|j: u64| n <= j < 64 ==> !bit_at(b, j),
    ensures
        count_bits(b, 64) == count_bits(b, n),
    decreases 64 - n,
{
    if n < 64 {
        lemma_count_prefix(b, n + 1);
    }
}

proof fn lemma_count_seq(b: u64, n: nat)
    requires
        n <= 64,
    ensures
        count_true(Seq::new(n, |i: int| bit_at(b, i as u64))) == count_bits(b, n),
    decreases n,
{
    if n > 0 {
        lemma_count_seq(b, (n - 1) as nat);
        assert(Seq::new(n, |i: int| bit_at(b, i as u64)).drop_last() =~= Seq::new(
            (n - 1) as nat,
            |i: int| bit_at(b, i as u64),
        ));
    }
}

impl<'a, const A: usize, const P: usize> Matches<'a, A, P> {
    #[verifier::type_invariant]
    spec fn inv(self) -> bool {
        &&& A <= 64
        &&& self.entry_count <= A
        &&& self.pos_count <= P
        &&& forall|i: int| 0 <= i < self.pos_count ==> self.positionals@[i] is Some
        &&& forall|j: u64| A <= j < 64 ==> !bit_at(self.present.0, j)
    }

    pub(crate) fn new() -> (r: Self)
        requires
            A <= 64,
        ensures
            r@ == MatchesView::initial(Seq::empty(), A as nat),
    {
        assert(forall|j: u64| j < 64 ==> !bit_at(0u64, j)) by (bit_vector);
        let r = Self {
            names: [""; A],
            entries: [None; A],
            present: PresenceBits::new(),
            entry_count: 0,
            help: false,
            version: false,
            positionals: [None; P],
            pos_count: 0,
        };
        assert(r@.entries =~= Seq::new(A as nat, |i: int| None));
        assert(r@.present =~= Seq::new(A as nat, |i: int| false));
        assert(r@.names =~= Seq::empty());
        assert(r@.positionals =~= Seq::empty());
        r
    }

    /// Capacity `A` in the spec.
    pub(crate) fn add_entry(&mut self, name: &'a str) -> (r: Result<usize, ParseError<'a>>)
        ensures
            old(self)@.names.len() < A ==> r == Ok::<usize, ParseError<'a>>(
                old(self)@.names.len() as usize,
            ) && final(self)@ == (MatchesView {
                names: old(self)@.names.push(name@),
                ..old(self)@
            }),
            old(self)@.names.len() >= A ==> (r matches Err(e) && e@ == ErrorView::of(
                ErrorKind::TooManyArguments,
            ).name(name@)) && final(self)@ == old(self)@,
    {
        proof {
            use_type_invariant(&*self);
        }
        if self.entry_count >= A {
            return Err(ParseError::new(ErrorKind::TooManyArguments).with_name(name));
        }
        let idx = self.entry_count;
        self.names[idx] = name;
        self.entry_count = idx + 1;
        assert(self@.names =~= old(self)@.names.push(name@));
        assert(self@.entries =~= old(self)@.entries);
        assert(self@.present =~= old(self)@.present);
        assert(self@.positionals =~= old(self)@.positionals);
        Ok(idx)
    }

    pub(crate) fn set_present(&mut self, idx: usize)
        requires
            idx < A,
        ensures
            final(self)@ == (MatchesView { present: old(self)@.present.update(idx as int, true), ..old(self)@ }),
    {
        proof {
            use_type_invariant(&*self);
        }
        let mut bits = self.present;
        bits.set(idx);
        self.present = bits;
        assert(self@.present =~= old(self)@.present.update(idx as int, true));
    }

    pub(crate) fn get_present(&self, idx: usize) -> (r: bool)
        requires
            idx < A,
        ensures
            r == self@.present[idx as int],
    {
        proof {
            use_type_invariant(self);
        }
        self.present.get(idx)
    }

    /// Stores `value` in slot `idx`.
    pub(crate) fn set_entry(&mut self, idx: usize, value: Option<&'a str>)
        requires
            idx < A,
        ensures
            final(self)@ == (MatchesView { entries: old(self)@.entries.update(idx as int, opt_str(value)), ..old(self)@ }),
    {
        proof {
            use_type_invariant(&*self);
        }
        self.entries[idx] = value;
        assert(self@.entries =~= old(self)@.entries.update(idx as int, opt_str(value)));
    }

    /// The value held in slot `idx`.
    pub(crate) fn entry(&self, idx: usize) -> (r: Option<&'a str>)
        requires
            idx < A,
        ensures
            opt_str(r) == self@.entries[idx as int],
    {
        proof {
            use_type_invariant(self);
        }
        self.entries[idx]
    }

    /// Slot `idx` was seen with `value`.
    pub(crate) fn record(&mut self, idx: usize, value: &'a str)
        requires
            idx < A,
        ensures
            final(self)@ == old(self)@.record(idx as int, value@),
    {
        self.set_present(idx);
        self.set_entry(idx, Some(value));
    }

    pub(crate) fn set_help(&mut self)
        ensures
            final(self)@ == (MatchesView { help: true, ..old(self)@ }),
    {
        proof {
            use_type_invariant(&*self);
        }
        self.help = true;
    }

    pub(crate) fn set_version(&mut self)
        ensures
            final(self)@ == (MatchesView { version: true, ..old(self)@ }),
    {
        proof {
            use_type_invariant(&*self);
        }
        self.version = true;
    }

    pub(crate) fn add_positional(&mut self, value: &'a str) -> (r: Result<(), ParseError<'a>>)
        ensures
            old(self)@.positionals.len() < P ==> r is Ok && final(self)@ == (MatchesView {
                positionals: old(self)@.positionals.push(value@),
                ..old(self)@
            }),
            old(self)@.positionals.len() >= P ==> (r matches Err(e) && e@ == ErrorView::of(
                ErrorKind::TooManyPositionals,
            ).token(value@)) && final(self)@ == old(self)@,
    {
        proof {
            use_type_invariant(&*self);
        }
        if self.pos_count >= P {
            return Err(ParseError::new(ErrorKind::TooManyPositionals).with_token(value));
        }
        let c = self.pos_count;
        self.positionals[c] = Some(value);
        self.pos_count = c + 1;
        assert(self@.positionals =~= old(self)@.positionals.push(value@));
        assert(self@.entries =~= old(self)@.entries);
        assert(self@.names =~= old(self)@.names);
        Ok(())
    }

    fn find_index(&self, name: &str) -> (r: Option<usize>)
        ensures
            opt_int(r) == self@.find(name@),
            r matches Some(i) ==> i < self@.names.len() && i < A,
    {
        proof {
            use_type_invariant(self);
        }
        let mut i: usize = 0;
        while i < self.entry_count
            invariant
                i <= self.entry_count <= A,
                self@.names.len() == self.entry_count,
                first_from(self@.names, |n: Seq<char>| n == name@, i as int) == self@.find(name@),
            decreases self.entry_count - i,
        {
            if str_eq(self.names[i], name) {
                return Some(i);
            }
            i += 1;
        }
        None
    }

    /// Returns `true` if `name` was present in the parsed input.
    pub fn is_present(&self, name: &str) -> (r: bool)
        ensures
            r == self@.is_present(name@),
    {
        if self.help && str_eq(name, "help") {
            return true;
        }
        if self.version && str_eq(name, "version") {
            return true;
        }
        match self.find_index(name) {
            Some(i) => self.get_present(i),
            None => false,
        }
    }

    pub fn help_requested(&self) -> (r: bool)
        ensures
            r == self@.help,
    {
        self.help
    }

    pub fn version_requested(&self) -> (r: bool)
        ensures
            r == self@.version,
    {
        self.version
    }

    /// Returns the string value of an option (or its configured default).
    ///
    /// For auto-help / auto-version, returns `Some("true")` when requested.
    pub fn value_of(&self, name: &str) -> (r: Option<&'a str>)
        ensures
            opt_str(r) == self@.value_of(name@),
    {
        if self.help && str_eq(name, "help") {
            return Some("true");
        }
        if self.version && str_eq(name, "version") {
            return Some("true");
        }
        match self.find_index(name) {
            Some(i) => self.entry(i),
            None => None,
        }
    }

    /// Returns the string value, or `default` if not present.
    pub fn value_of_or(&self, name: &str, default: &'a str) -> (r: &'a str)
        ensures
            r@ == match self@.value_of(name@) {
                Some(v) => v,
                None => default@,
            },
    {
        match self.value_of(name) {
            Some(v) => v,
            None => default,
        }
    }

    /// Parses the value of `name` into `T` via [`FromArgValue`].
    ///
    /// Returns `Ok(None)` if absent with no default, `Ok(Some(_))` on success,
    /// or `Err` if the value exists but [`FromArgValue::from_arg_value`] rejects it.
    pub fn value_of_parsed<T: FromArgValue>(&self, name: &'a str) -> (r: Result<
        Option<T>,
        ParseError<'a>,
    >)
        ensures
            match self@.value_of(name@) {
                None => r matches Ok(None),
                Some(s) => match T::spec_from_arg_value(s) {
                    Some(v) => r matches Ok(Some(x)) && x == v,
                    None => r matches Err(e) && e@ == ErrorView::of(ErrorKind::InvalidValue).token(
                        s,
                    ).name(name@),
                },
            },
    {
        match self.value_of(name) {
            Some(s) => match T::from_arg_value(s) {
                Some(val) => Ok(Some(val)),
                None => Err(ParseError::new(ErrorKind::InvalidValue).with_token(s).with_name(name)),
            },
            None => Ok(None),
        }
    }

    /// Parses the value of `name` into `T`, returning `default` if absent.
    pub fn value_of_parsed_or<T: FromArgValue>(&self, name: &'a str, default: T) -> (r: Result<
        T,
        ParseError<'a>,
    >)
        ensures
            match self@.value_of(name@) {
                None => r matches Ok(x) && x == default,
                Some(s) => match T::spec_from_arg_value(s) {
                    Some(v) => r matches Ok(x) && x == v,
                    None => r matches Err(e) && e@ == ErrorView::of(ErrorKind::InvalidValue).token(
                        s,
                    ).name(name@),
                },
            },
    {
        match self.value_of_parsed::<T>(name) {
            Ok(Some(v)) => Ok(v),
            Ok(None) => Ok(default),
            Err(e) => Err(e),
        }
    }

    /// Returns the positional value at `index`, or `None` if out of range.
    pub fn positional(&self, index: usize) -> (r: Option<&'a str>)
        ensures
            opt_str(r) == if index < self@.positionals.len() {
                Some(self@.positionals[index as int])
            } else {
                None
            },
    {
        proof {
            use_type_invariant(self);
        }
        if index < self.pos_count {
            self.positionals[index]
        } else {
            None
        }
    }

    /// Parses the positional at `index` into `T`.
    pub fn positional_parsed<T: FromArgValue>(&self, index: usize) -> (r: Result<
        Option<T>,
        ParseError<'a>,
    >)
        ensures
            index >= self@.positionals.len() ==> r matches Ok(None),
            index < self@.positionals.len() ==> match T::spec_from_arg_value(
                self@.positionals[index as int],
            ) {
                Some(v) => r matches Ok(Some(x)) && x == v,
                None => r matches Err(e) && e@ == ErrorView::of(ErrorKind::InvalidValue).token(
                    self@.positionals[index as int],
                ),
            },
    {
        match self.positional(index) {
            Some(s) => match T::from_arg_value(s) {
                Some(val) => Ok(Some(val)),
                None => Err(ParseError::new(ErrorKind::InvalidValue).with_token(s)),
            },
            None => Ok(None),
        }
    }

    pub fn positional_count(&self) -> (r: usize)
        ensures
            r == self@.positionals.len(),
    {
        proof {
            use_type_invariant(self);
        }
        self.pos_count
    }

    pub fn positionals(&self) -> (r: &[Option<&'a str>])
        ensures
            r@.map_values(|o: Option<&str>| opt_str(o)) == self@.positionals.map_values(
                |s: Seq<char>| Some(s),
            ),
    {
        proof {
            use_type_invariant(self);
        }
        let r = &self.positionals[0..self.pos_count];
        assert(r@.map_values(|o: Option<&str>| opt_str(o)) =~= self@.positionals.map_values(
            |s: Seq<char>| Some(s),
        ));
        r
    }

    /// Total number of named arguments observed in the input
    /// (user-defined plus any auto-help / auto-version hits).
    pub fn present_count(&self) -> (r: usize)
        ensures
            r == self@.present_count(),
    {
        proof {
            use_type_invariant(self);
            lemma_count_prefix(self.present.0, A as nat);
            lemma_count_seq(self.present.0, A as nat);
        }
        let ones = self.present.count_ones();
        let h: usize = if self.help {
            1
        } else {
            0
        };
        let v: usize = if self.version {
            1
        } else {
            0
        };
        ones + h + v
    }

    /// Returns `true` if no named arguments or positionals were captured.
    pub fn is_empty(&self) -> (r: bool)
        ensures
            r == (self@.present_count() == 0 && self@.positionals.len() == 0),
    {
        self.present_count() == 0 && self.positional_count() == 0
    }
}

/// The debug lines of the entries from slot `i` on.
pub open spec fn entry_lines(m: MatchesView, i: int) -> Seq<Seq<char>>
    decreases m.names.len() - i,
{
    if i < 0 || i >= m.names.len() {
        Seq::empty()
    } else {
        entry_line(m, i) + entry_lines(m, i + 1)
    }
}

/// The debug line of the entry in slot `i`.
pub open spec fn entry_line(m: MatchesView, i: int) -> Seq<Seq<char>> {
    seq!["    "@] + seq![m.names[i]] + seq![": present="@] + seq![
        if m.present[i] {
            "true"@
        } else {
            "false"@
        },
    ] + (match m.entries[i] {
        Some(v) => seq![", value=\""@] + seq![v] + seq!["\""@],
        None => Seq::empty(),
    }) + seq!["\n"@]
}

/// The quoted positional values from position `j` on, comma separated.
pub open spec fn positional_items(ps: Seq<Seq<char>>, j: int) -> Seq<Seq<char>>
    decreases ps.len() - j,
{
    if j < 0 || j >= ps.len() {
        Seq::empty()
    } else {
        (if j > 0 {
            seq![", "@]
        } else {
            Seq::empty()
        }) + seq!["\""@] + seq![ps[j]] + seq!["\""@] + positional_items(ps, j + 1)
    }
}

/// The pieces of the debug description of matches.
pub open spec fn debug_pieces(m: MatchesView) -> Seq<Seq<char>> {
    seq!["Matches {\n"@] + seq!["  entries: [\n"@] + entry_lines(m, 0) + seq!["  ],\n"@] + (
    if m.help {
        seq!["  help: requested\n"@]
    } else {
        Seq::empty()
    }) + (if m.version {
        seq!["  version: requested\n"@]
    } else {
        Seq::empty()
    }) + seq!["  positionals: ["@] + positional_items(m.positionals, 0) + seq!["],\n"@] + seq![
        "}"@,
    ]
}

impl<'a, const A: usize, const P: usize> Matches<'a, A, P> {
    fn write_entry_line(&self, w: &mut HelpFormatter, i: usize) -> (r: Result<(), FmtError>)
        requires
            i < self@.names.len(),
        ensures
            final(final(w).borrowed())@ == final(old(w).borrowed())@,
            (final(w)@, r is Ok) == emit(old(w)@, entry_line(self@, i as int)),
    {
        broadcast use group_emit;

        proof {
            use_type_invariant(self);
        }
        w.write_str("    ")?;
        w.write_str(self.names[i])?;
        w.write_str(": present=")?;
        if self.get_present(i) {
            w.write_str("true")?;
        } else {
            w.write_str("false")?;
        }
        if let Some(v) = self.entries[i] {
            w.write_str(", value=\"")?;
            w.write_str(v)?;
            w.write_str("\"")?;
        }
        w.write_str("\n")
    }

    fn write_entry_lines(&self, w: &mut HelpFormatter) -> (r: Result<(), FmtError>)
        ensures
            final(final(w).borrowed())@ == final(old(w).borrowed())@,
            (final(w)@, r is Ok) == emit(old(w)@, entry_lines(self@, 0)),
    {
        proof {
            use_type_invariant(self);
        }
        let mut i: usize = 0;
        while i < self.entry_count
            invariant
                final(w.borrowed())@ == final(old(w).borrowed())@,
                i <= self.entry_count,
                self.entry_count == self@.names.len(),
                emit(old(w)@, entry_lines(self@, 0)) == emit(w@, entry_lines(self@, i as int)),
            decreases self.entry_count - i,
        {
            proof {
                lemma_emit_concat(w@, entry_line(self@, i as int), entry_lines(self@, i + 1));
            }
            self.write_entry_line(w, i)?;
            i += 1;
        }
        Ok(())
    }

    fn write_positional_items(&self, w: &mut HelpFormatter) -> (r: Result<(), FmtError>)
        ensures
            final(final(w).borrowed())@ == final(old(w).borrowed())@,
            (final(w)@, r is Ok) == emit(old(w)@, positional_items(self@.positionals, 0)),
    {
        broadcast use group_emit;

        proof {
            use_type_invariant(self);
        }
        let ghost ps = self@.positionals;
        let mut j: usize = 0;
        while j < self.pos_count
            invariant
                final(w.borrowed())@ == final(old(w).borrowed())@,
                j <= self.pos_count <= P,
                ps == self@.positionals,
                ps.len() == self.pos_count,
                forall|k: int| 0 <= k < self.pos_count ==> self.positionals@[k] is Some,
                emit(old(w)@, positional_items(ps, 0)) == emit(w@, positional_items(ps, j as int)),
            decreases self.pos_count - j,
        {
            let ghost sep: Seq<Seq<char>> = if j > 0 {
                seq![", "@]
            } else {
                Seq::empty()
            };
            let ghost head: Seq<Seq<char>> = sep + seq!["\""@] + seq![ps[j as int]] + seq!["\""@];
            proof {
                lemma_emit_concat(w@, sep + seq!["\""@] + seq![ps[j as int]], seq!["\""@]);
                lemma_emit_concat(w@, sep + seq!["\""@], seq![ps[j as int]]);
                lemma_emit_concat(w@, sep, seq!["\""@]);
                assert(positional_items(ps, j as int) == head + positional_items(ps, j + 1));
                lemma_emit_concat(w@, head, positional_items(ps, j + 1));
            }
            if j > 0 {
                w.write_str(", ")?;
            }
            if let Some(v) = self.positionals[j] {
                assert(v@ == ps[j as int]);
                w.write_str("\"")?;
                w.write_str(v)?;
                w.write_str("\"")?;
            }
            j += 1;
        }
        Ok(())
    }

    /// Writes a multi-line description of the matches: each argument with
    /// its presence and value, the help / version requests and the
    /// positional values.
    pub fn write_debug(&self, w: &mut HelpFormatter) -> (r: Result<(), FmtError>)
        ensures
            final(final(w).borrowed())@ == final(old(w).borrowed())@,
            (final(w)@, r is Ok) == emit(old(w)@, debug_pieces(self@)),
    {
        broadcast use group_emit;

        w.write_str("Matches {\n")?;
        w.write_str("  entries: [\n")?;
        self.write_entry_lines(w)?;
        w.write_str("  ],\n")?;
        if self.help {
            w.write_str("  help: requested\n")?;
        }
        if self.version {
            w.write_str("  version: requested\n")?;
        }
        w.write_str("  positionals: [")?;
        self.write_positional_items(w)?;
        w.write_str("],\n")?;
        w.write_str("}")
    }
}


/// The reserved names answer the automatic requests: a help request makes
/// `help` present with the value `true`, a version request makes `version`
/// present with the value `true`. A name that is not reserved (or whose
/// request was not made) is present exactly when its first argument of that
/// name was seen, and its value is that argument's value; a name that no
/// argument has is absent, with no value.
pub proof fn law_lookup(m: MatchesView, name: Seq<char>)
    ensures
        m.help ==> m.is_present("help"@) && m.value_of("help"@) == Some("true"@),
        m.version ==> m.is_present("version"@) && m.value_of("version"@) == Some("true"@),
        !(name == "help"@ && m.help) && !(name == "version"@ && m.version) ==> match m.find(name) {
            Some(i) => m.is_present(name) == m.present[i] && m.value_of(name) == m.entries[i],
            None => !m.is_present(name) && m.value_of(name) is None,
        },
{
    reveal_strlit("help");
    reveal_strlit("version");
    assert("version"@.len() != "help"@.len());
}

} // verus!
