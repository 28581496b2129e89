//! Parsers, subcommands and the routing between them.
use vstd::prelude::*;
use crate::arg::{arg_specs, Arg, ArgKind, ArgSpec};
use crate::error::{ErrorView, ParseError};
use crate::matches::{Matches, MatchesView};
use crate::parse::{
    cluster_consumes, dashes, eq_pos, find_long, find_long_index, is_long_token, long_key,
    parse_outcome, parse_with, selects_long, short_cluster_consumes_next, spec_parse,
};
use crate::text::{find_char, first_from, first_index, opt_int, opt_str, str_eq, strs};
use vstd::string::StrSliceExecFns;
use crate::fmt::{
    emit, format_parser_help, group_emit, help_pieces, lemma_emit_concat, FmtError, HelpFormatter,
};
use crate::arg::display_pieces;

verus! {

broadcast use crate::arg::lemma_arg_view;

/// What a [`SubCommand`] defines.
pub struct SubSpec {
    pub name: Seq<char>,
    pub about: Option<Seq<char>>,
    pub args: Seq<ArgSpec>,
}

/// What a [`Parser`] defines.
pub struct ParserView {
    pub name: Seq<char>,
    pub version: Seq<char>,
    pub about: Option<Seq<char>>,
    pub auto_help: bool,
    pub auto_version: bool,
    pub args: Seq<ArgSpec>,
    pub subs: Seq<SubSpec>,
}

/// The position of the first name equal to `name`.
pub open spec fn find_name(names: Seq<Seq<char>>, name: Seq<char>) -> Option<int> {
    first_index(names, named(name))
}

/// The test for being `name`.
pub open spec fn named(name: Seq<char>) -> spec_fn(Seq<char>) -> bool {
    |n: Seq<char>| n == name
}

/// The names of a list of subcommands.
pub open spec fn sub_names(subs: Seq<SubSpec>) -> Seq<Seq<char>> {
    subs.map_values(|s: SubSpec| s.name)
}

/// A subcommand definition with its own fixed-size argument array.
#[derive(Debug, Clone, Copy)]
pub struct SubCommand<'a, const A: usize> {
    /// Name matched against bare tokens in the input.
    pub name: &'a str,
    /// One-line description shown in the parent's help output.
    pub about: Option<&'a str>,
    pub(crate) args: [Arg<'a>; A],
    pub(crate) arg_count: usize,
}

pub(crate) open spec fn sub_spec_of<'a, const A: usize>(s: SubCommand<'a, A>) -> SubSpec {
    SubSpec {
        name: s.name@,
        about: opt_str(s.about),
        args: arg_specs(s.args@.take(s.arg_count as int)),
    }
}

impl<'a, const A: usize> View for SubCommand<'a, A> {
    type V = SubSpec;

    closed spec fn view(&self) -> SubSpec {
        sub_spec_of(*self)
    }
}

pub(crate) broadcast proof fn lemma_sub_view<'a, const A: usize>(s: SubCommand<'a, A>)
    ensures
        #[trigger] s@ == sub_spec_of(s),
{
}

impl<'a, const A: usize> SubCommand<'a, A> {
    /// The argument count fits the capacity.
    pub closed spec fn wf(&self) -> bool {
        self.arg_count <= A
    }

    /// Starts a subcommand named `name`.
    pub fn new(name: &'a str) -> (r: Self)
        ensures
            r.wf(),
            r@ == (SubSpec { name: name@, about: None, args: Seq::empty() }),
    {
        let none = Arg::flag("");
        let r = Self { name, about: None, args: [none; A], arg_count: 0 };
        assert(r@.args =~= Seq::empty());
        r
    }

    /// Sets the one-line description shown in the parent's help output.
    pub fn about(self, text: &'a str) -> (r: Self)
        requires
            self.wf(),
        ensures
            r.wf(),
            r@ == (SubSpec { about: Some(text@), ..self@ }),
    {
        let mut r = self;
        r.about = Some(text);
        r
    }

    /// Adds an argument to this subcommand. Panics if more than `A` are added.
    pub fn arg(self, arg: Arg<'a>) -> (r: Self)
        requires
            self.wf(),
            self@.args.len() < A,
        ensures
            r.wf(),
            r@ == (SubSpec { args: self@.args.push(arg@), ..self@ }),
    {
        let mut r = self;
        let c = r.arg_count;
        r.args[c] = arg;
        r.arg_count = c + 1;
        assert(r@.args =~= self@.args.push(arg@));
        r
    }

    /// Renders help for this subcommand into `w`.
    ///
    /// `auto_help` / `auto_version` reflect the parent parser's settings so
    /// the rendered output matches what the parser actually accepts.
    pub fn format_help(&self, auto_help: bool, auto_version: bool, w: &mut HelpFormatter) -> (r:
        Result<(), FmtError>)
        requires
            self.wf(),
        ensures
            final(final(w).borrowed())@ == final(old(w).borrowed())@,
            (final(w)@, r is Ok) == emit(
                old(w)@,
                help_pieces(
                    self@.name,
                    ""@,
                    self@.about,
                    self@.args,
                    auto_help,
                    auto_version,
                    Seq::empty(),
                ),
            ),
    {
        let no_subs: [SubCommand<'a, A>; 0] = [];
        let subs: &[SubCommand<'a, A>] = &no_subs;
        assert(subs@.map_values(|s: SubCommand<'a, A>| s@) =~= Seq::<SubSpec>::empty());
        format_parser_help::<A>(
            w,
            self.name,
            "",
            self.about,
            self.arg_slice(),
            auto_help,
            auto_version,
            subs,
        )
    }

    /// The defined arguments.
    pub(crate) fn arg_slice(&self) -> (r: &[Arg<'a>])
        requires
            self.wf(),
        ensures
            arg_specs(r@) == self@.args,
            r@.len() <= A,
    {
        let r = &self.args[0..self.arg_count];
        assert(arg_specs(r@) =~= self@.args);
        r
    }
}

/// Command-line argument parser with optional subcommand support.
///
/// Const generics fix capacities at compile time, their definition:
/// - `A`: max argument definitions on the parser
/// - `S`: max subcommands (`0` for flat parsers)
/// - `SA`: max argument definitions per subcommand (`0` for flat parsers)
pub struct Parser<'a, const A: usize, const S: usize, const SA: usize> {
    /// Program name shown in help and version output.
    pub name: &'a str,
    /// Program version shown in version output.
    pub version: &'a str,
    /// Optional one-line description shown in help.
    pub about: Option<&'a str>,
    /// When `true`, `-h`/`--help` is recognised automatically.
    pub auto_help: bool,
    /// When `true`, `-V`/`--version` is recognised automatically.
    pub auto_version: bool,
    args: [Arg<'a>; A],
    arg_count: usize,
    subs: [SubCommand<'a, SA>; S],
    sub_count: usize,
}

impl<'a, const A: usize, const S: usize, const SA: usize> View for Parser<'a, A, S, SA> {
    type V = ParserView;

    closed spec fn view(&self) -> ParserView {
        ParserView {
            name: self.name@,
            version: self.version@,
            about: opt_str(self.about),
            auto_help: self.auto_help,
            auto_version: self.auto_version,
            args: arg_specs(self.args@.take(self.arg_count as int)),
            subs: self.subs@.take(self.sub_count as int).map_values(|s: SubCommand<'a, SA>| s@),
        }
    }
}

/// Where the subcommand's own tokens start, found by scanning from token `ti`
/// over the global arguments: the slot of the subcommand name and the index
/// of the subcommand. Global options that take a value skip that value; a
/// `--`, an unknown long key or a bare word that names no subcommand ends the
/// scan with none.
pub open spec fn split_from(
    defs: Seq<ArgSpec>,
    names: Seq<Seq<char>>,
    toks: Seq<Seq<char>>,
    auto_help: bool,
    auto_version: bool,
    ti: int,
) -> Option<(int, int)>
    decreases toks.len() + 1 - ti,
{
    if ti < 0 || ti >= toks.len() {
        None
    } else {
        let tok = toks[ti];
        if tok == dashes() {
            None
        } else if is_long_token(tok) {
            let after = tok.skip(2);
            let key = long_key(after);
            if (auto_help && key == "help"@) || (auto_version && key == "version"@) {
                split_from(defs, names, toks, auto_help, auto_version, ti + 1)
            } else {
                match find_long(defs, key) {
                    Some(i) => if eq_pos(after) is None && defs[i].kind == ArgKind::Option {
                        split_from(defs, names, toks, auto_help, auto_version, ti + 2)
                    } else {
                        split_from(defs, names, toks, auto_help, auto_version, ti + 1)
                    },
                    None => None,
                }
            }
        } else if tok.len() > 1 && tok[0] == '-' {
            if cluster_consumes(tok, defs, auto_help, auto_version, 1) {
                split_from(defs, names, toks, auto_help, auto_version, ti + 2)
            } else {
                split_from(defs, names, toks, auto_help, auto_version, ti + 1)
            }
        } else {
            match find_name(names, tok) {
                Some(si) => Some((ti, si)),
                None => None,
            }
        }
    }
}

/// The index of the first subcommand named `name`.
fn find_sub_index<'a, const SA: usize>(subs: &[SubCommand<'a, SA>], name: &str) -> (r: Option<
    usize,
>)
    ensures
        opt_int(r) == find_name(sub_names(subs@.map_values(|s: SubCommand<'a, SA>| s@)), name@),
        r matches Some(i) ==> i < subs@.len(),
{
    let ghost names = sub_names(subs@.map_values(|s: SubCommand<'a, SA>| s@));
    let mut i: usize = 0;
    while i < subs.len()
        invariant
            i <= subs@.len(),
            names == sub_names(subs@.map_values(|s: SubCommand<'a, SA>| s@)),
            first_from(names, named(name@), i as int) == find_name(names, name@),
        decreases subs@.len() - i,
    {
        if str_eq(subs[i].name, name) {
            return Some(i);
        }
        i += 1;
    }
    None
}

/// What a [`SubResult`] holds.
pub struct SubResultView {
    pub global: MatchesView,
    pub sub_name: Option<Seq<char>>,
    pub sub: Option<MatchesView>,
}

/// What routing the tokens `toks` through parser `p` gives: with `s_cap`
/// subcommand slots, `a_cap` and `sa_cap` argument slots and `p_cap`
/// positional slots. The tokens before a subcommand name go to the parser,
/// the name and those after it to the subcommand.
pub open spec fn spec_parse_sub(
    p: ParserView,
    toks: Seq<Seq<char>>,
    s_cap: nat,
    a_cap: nat,
    sa_cap: nat,
    p_cap: nat,
) -> Result<SubResultView, ErrorView> {
    let whole = match spec_parse(p.args, toks, p.auto_help, p.auto_version, a_cap, p_cap) {
        Ok(g) => Ok(SubResultView { global: g, sub_name: None, sub: None }),
        Err(e) => Err(e),
    };
    if toks.len() == 0 || s_cap == 0 {
        whole
    } else {
        match split_from(p.args, sub_names(p.subs), toks, p.auto_help, p.auto_version, 1) {
            Some((k, si)) => match spec_parse(
                p.args,
                toks.take(k),
                p.auto_help,
                p.auto_version,
                a_cap,
                p_cap,
            ) {
                Ok(g) => match spec_parse(
                    p.subs[si].args,
                    toks.skip(k),
                    p.auto_help,
                    p.auto_version,
                    sa_cap,
                    p_cap,
                ) {
                    Ok(m) => Ok(
                        SubResultView { global: g, sub_name: Some(p.subs[si].name), sub: Some(m) },
                    ),
                    Err(e) => Err(e),
                },
                Err(e) => Err(e),
            },
            None => whole,
        }
    }
}

/// Result of [`Parser::parse_sub`]: global matches plus optional subcommand matches.
///
/// `A` is the parser's argument capacity, `SA` the subcommand's, `P` the
/// positional capacity. If no subcommand was matched, `sub_name` and `sub`
/// are both `None`.
pub struct SubResult<'a, const A: usize, const SA: usize, const P: usize> {
    /// Matches for arguments defined on the top-level parser.
    pub global: Matches<'a, A, P>,
    /// Which subcommand was invoked, if any.
    pub sub_name: Option<&'a str>,
    /// Matches for the subcommand's own arguments.
    pub sub: Option<Matches<'a, SA, P>>,
}

impl<'a, const A: usize, const SA: usize, const P: usize> View for SubResult<'a, A, SA, P> {
    type V = SubResultView;

    open spec fn view(&self) -> SubResultView {
        SubResultView {
            global: self.global@,
            sub_name: opt_str(self.sub_name),
            sub: match self.sub {
                Some(m) => Some(m@),
                None => None,
            },
        }
    }
}

/// The outcome of a routed parse, by views.
pub open spec fn sub_outcome<'a, const A: usize, const SA: usize, const P: usize>(
    r: Result<SubResult<'a, A, SA, P>, ParseError<'a>>,
) -> Result<SubResultView, ErrorView> {
    match r {
        Ok(s) => Ok(s@),
        Err(e) => Err(e@),
    }
}

impl<'a, const A: usize, const SA: usize, const P: usize> SubResult<'a, A, SA, P> {
    /// Returns `Some((name, matches))` if a subcommand was matched.
    pub fn subcommand(&self) -> (r: Option<(&'a str, &Matches<'a, SA, P>)>)
        ensures
            match r {
                Some((n, m)) => self.sub_name is Some && self.sub is Some && n@ == self@.sub_name->0
                    && m@ == self@.sub->0,
                None => self.sub_name is None || self.sub is None,
            },
    {
        match (self.sub_name, &self.sub) {
            (Some(name), Some(matches)) => Some((name, matches)),
            _ => None,
        }
    }

    pub fn has_subcommand(&self) -> (r: bool)
        ensures
            r == self.sub_name is Some,
    {
        self.sub_name.is_some()
    }

    /// Returns `true` if help was requested at the global or subcommand level.
    pub fn help_requested(&self) -> (r: bool)
        ensures
            r == (self@.global.help || (self@.sub matches Some(s) && s.help)),
    {
        self.global.help_requested() || match &self.sub {
            Some(s) => s.help_requested(),
            None => false,
        }
    }

    /// Returns `true` if version was requested at the global or subcommand level.
    pub fn version_requested(&self) -> (r: bool)
        ensures
            r == (self@.global.version || (self@.sub matches Some(s) && s.version)),
    {
        self.global.version_requested() || match &self.sub {
            Some(s) => s.version_requested(),
            None => false,
        }
    }
}

impl<'a, const A: usize, const S: usize, const SA: usize> Parser<'a, A, S, SA> {
    /// The counts fit the capacities, and so do the subcommands'.
    pub closed spec fn wf(&self) -> bool {
        &&& A <= 64
        &&& SA <= 64
        &&& self.arg_count <= A
        &&& self.sub_count <= S
        &&& forall|i: int| 0 <= i < S ==> (#[trigger] self.subs@[i]).wf()
    }

    /// Creates a new parser with the given program `name` and `version`.
    ///
    /// Note: bare leading `-` followed by digits (e.g. `-1`) is treated as a
    /// short cluster and will fail with `UnknownArgument`. To pass negative
    /// numbers as positionals, place them after `--`.
    pub fn new(name: &'a str, version: &'a str) -> (r: Self)
        requires
            A <= 64,
            SA <= 64,
        ensures
            r.wf(),
            r@ == (ParserView {
                name: name@,
                version: version@,
                about: None,
                auto_help: true,
                auto_version: true,
                args: Seq::empty(),
                subs: Seq::empty(),
            }),
    {
        let none = Arg::flag("");
        let empty = SubCommand::<'a, SA>::new("");
        let r = Self {
            name,
            version,
            about: None,
            auto_help: true,
            auto_version: true,
            args: [none; A],
            arg_count: 0,
            subs: [empty; S],
            sub_count: 0,
        };
        assert(r@.args =~= Seq::empty());
        assert(r@.subs =~= Seq::empty());
        r
    }

    /// Sets the one-line description shown in help output
    pub fn about(self, text: &'a str) -> (r: Self)
        requires
            self.wf(),
        ensures
            r.wf(),
            r@ == (ParserView { about: Some(text@), ..self@ }),
    {
        let mut r = self;
        r.about = Some(text);
        r
    }

    /// Adds an argument definition. Panics if more than `A` are added
    pub fn arg(self, arg: Arg<'a>) -> (r: Self)
        requires
            self.wf(),
            self@.args.len() < A,
        ensures
            r.wf(),
            r@ == (ParserView { args: self@.args.push(arg@), ..self@ }),
    {
        let mut r = self;
        let c = r.arg_count;
        r.args[c] = arg;
        r.arg_count = c + 1;
        assert(r@.args =~= self@.args.push(arg@));
        assert(r@.subs =~= self@.subs);
        r
    }

    /// Disables automatic `-h`/`--help` handling
    pub fn no_auto_help(self) -> (r: Self)
        requires
            self.wf(),
        ensures
            r.wf(),
            r@ == (ParserView { auto_help: false, ..self@ }),
    {
        let mut r = self;
        r.auto_help = false;
        r
    }

    /// Disables automatic `-V`/`--version` handling
    pub fn no_auto_version(self) -> (r: Self)
        requires
            self.wf(),
        ensures
            r.wf(),
            r@ == (ParserView { auto_version: false, ..self@ }),
    {
        let mut r = self;
        r.auto_version = false;
        r
    }

    /// Adds a subcommand. Panics if more than `S` are added
    pub fn subcmd(self, sub: SubCommand<'a, SA>) -> (r: Self)
        requires
            self.wf(),
            sub.wf(),
            self@.subs.len() < S,
        ensures
            r.wf(),
            r@ == (ParserView { subs: self@.subs.push(sub@), ..self@ }),
    {
        let mut r = self;
        let c = r.sub_count;
        r.subs[c] = sub;
        r.sub_count = c + 1;
        assert(r@.subs =~= self@.subs.push(sub@));
        assert(r@.args =~= self@.args);
        r
    }

    pub fn args(&self) -> (r: &[Arg<'a>])
        requires
            self.wf(),
        ensures
            arg_specs(r@) == self@.args,
            r@.len() <= A,
    {
        let r = &self.args[0..self.arg_count];
        assert(arg_specs(r@) =~= self@.args);
        r
    }

    pub fn arg_count(&self) -> (r: usize)
        requires
            self.wf(),
        ensures
            r == self@.args.len(),
    {
        self.arg_count
    }

    pub fn subs(&self) -> (r: &[SubCommand<'a, SA>])
        requires
            self.wf(),
        ensures
            r@.map_values(|s: SubCommand<'a, SA>| s@) == self@.subs,
            forall|i: int| 0 <= i < r@.len() ==> (#[trigger] r@[i]).wf(),
    {
        let r = &self.subs[0..self.sub_count];
        assert(r@.map_values(|s: SubCommand<'a, SA>| s@) =~= self@.subs);
        r
    }

    /// Looks up a subcommand definition by name. Handy for routing help
    pub fn get_subcommand(&self, name: &str) -> (r: Option<&SubCommand<'a, SA>>)
        requires
            self.wf(),
        ensures
            match find_name(sub_names(self@.subs), name@) {
                Some(i) => r matches Some(s) && s@ == self@.subs[i] && s.wf(),
                None => r is None,
            },
    {
        let ghost names = sub_names(self@.subs);
        let mut i: usize = 0;
        while i < self.sub_count
            invariant
                self.wf(),
                i <= self.sub_count,
                names == sub_names(self@.subs),
                names.len() == self.sub_count,
                first_from(names, named(name@), i as int) == find_name(names, name@),
            decreases self.sub_count - i,
        {
            if str_eq(self.subs[i].name, name) {
                return Some(&self.subs[i]);
            }
            i += 1;
        }
        None
    }

    /// Parses `args` (with the program name in slot `0`) and returns [`Matches`].
    ///
    /// `P` is the positional-slot capacity; pick the max count of positionals
    /// the parser will accept.
    ///
    /// For errors see [`ErrorKind`](crate::ErrorKind)
    pub fn parse<const P: usize>(&self, args: &[&'a str]) -> (r: Result<
        Matches<'a, A, P>,
        ParseError<'a>,
    >)
        requires
            self.wf(),
        ensures
            parse_outcome(r) == spec_parse(
                self@.args,
                strs(args@),
                self@.auto_help,
                self@.auto_version,
                A as nat,
                P as nat,
            ),
    {
        let arg_defs = &self.args[0..self.arg_count];
        assert(arg_specs(arg_defs@) =~= self@.args);
        parse_with::<A, P>(arg_defs, args, self.auto_help, self.auto_version)
    }

    fn parse_subcmd_args<const P: usize>(&self, sub: &SubCommand<'a, SA>, args: &[&'a str]) -> (r:
        Result<Matches<'a, SA, P>, ParseError<'a>>)
        requires
            self.wf(),
            sub.wf(),
        ensures
            parse_outcome(r) == spec_parse(
                sub@.args,
                strs(args@),
                self@.auto_help,
                self@.auto_version,
                SA as nat,
                P as nat,
            ),
    {
        let sub_arg_defs = sub.arg_slice();
        parse_with::<SA, P>(sub_arg_defs, args, self.auto_help, self.auto_version)
    }

    /// Scans the tokens after the program name for the subcommand name.
    fn find_split(&self, args: &[&'a str]) -> (r: Option<(usize, usize)>)
        requires
            self.wf(),
        ensures
            match r {
                Some((k, si)) => split_from(
                    self@.args,
                    sub_names(self@.subs),
                    strs(args@),
                    self@.auto_help,
                    self@.auto_version,
                    1,
                ) == Some((k as int, si as int)) && k < args@.len() && si < self@.subs.len(),
                None => split_from(
                    self@.args,
                    sub_names(self@.subs),
                    strs(args@),
                    self@.auto_help,
                    self@.auto_version,
                    1,
                ) is None,
            },
    {
        let ghost defs = self@.args;
        let ghost names = sub_names(self@.subs);
        let ghost toks = strs(args@);
        let ghost target = split_from(defs, names, toks, self.auto_help, self.auto_version, 1);
        let global_args = self.args();
        let subs = self.subs();
        let mut ti: usize = 1;
        while ti < args.len()
            invariant
                1 <= ti,
                defs == self@.args,
                arg_specs(global_args@) == defs,
                subs@.map_values(|s: SubCommand<'a, SA>| s@) == self@.subs,
                names == sub_names(self@.subs),
                toks == strs(args@),
                target == split_from(defs, names, toks, self.auto_help, self.auto_version, 1),
                split_from(defs, names, toks, self.auto_help, self.auto_version, ti as int)
                    == target,
            decreases args@.len() - ti,
        {
            let token = args[ti];
            let tn = token.unicode_len();
            let first = if tn > 0 {
                token.get_char(0)
            } else {
                ' '
            };
            let second = if tn > 1 {
                token.get_char(1)
            } else {
                ' '
            };
            assert(toks[ti as int] == token@);
            if tn >= 2 && first == '-' && second == '-' {
                if tn == 2 {
                    assert(token@ =~= dashes());
                    return None;
                }
                let after_dashes = token.substring_char(2, tn);
                let eq = find_char(after_dashes, '=');
                let key = match eq {
                    Some(pos) => after_dashes.substring_char(0, pos),
                    None => after_dashes,
                };
                assert(key@ == long_key(token@.skip(2)));
                if (self.auto_help && str_eq(key, "help")) || (self.auto_version && str_eq(
                    key,
                    "version",
                )) {
                    ti += 1;
                    continue;
                }
                let found = find_long_index(global_args, key);
                assert(find_long(defs, key@) == opt_int(found));
                // One step of the scan, unfolded for a known long key.
                assert(split_from(defs, names, toks, self.auto_help, self.auto_version, ti as int) == match find_long(defs, key@) {
                    Some(i) => if eq_pos(token@.skip(2)) is None && defs[i].kind == ArgKind::Option {
                        split_from(defs, names, toks, self.auto_help, self.auto_version, ti + 2)
                    } else {
                        split_from(defs, names, toks, self.auto_help, self.auto_version, ti + 1)
                    },
                    None => None,
                });
                match found {
                    Some(idx) => {
                        if eq.is_none() && global_args[idx].kind.is_option() {
                            if args.len() - ti <= 2 {
                                return None;
                            }
                            ti += 2;
                        } else {
                            ti += 1;
                        }
                        continue;
                    },
                    None => {
                        return None;
                    },
                }
            }
            if tn > 1 && first == '-' {
                if short_cluster_consumes_next(token, global_args, self.auto_help, self.auto_version) {
                    if args.len() - ti <= 2 {
                        assert(token@ != dashes());
                        assert(!is_long_token(token@));
                        assert(split_from(defs, names, toks, self.auto_help, self.auto_version, ti + 2) is None);
                        return None;
                    }
                    ti += 2;
                } else {
                    ti += 1;
                }
                continue;
            }
            match find_sub_index(subs, token) {
                Some(si) => {
                    return Some((ti, si));
                },
                None => {
                    return None;
                },
            }
        }
        None
    }

    /// Parses `args` with subcommand routing, splitting global args from subcommand-specific args.
    ///
    /// See [`ErrorKind`](crate::ErrorKind) for the full taxonomy of errors.
    pub fn parse_sub<const P: usize>(&self, args: &[&'a str]) -> (r: Result<
        SubResult<'a, A, SA, P>,
        ParseError<'a>,
    >)
        requires
            self.wf(),
        ensures
            sub_outcome(r) == spec_parse_sub(
                self@,
                strs(args@),
                S as nat,
                A as nat,
                SA as nat,
                P as nat,
            ),
    {
        if args.len() == 0 || S == 0 {
            let global = self.parse::<P>(args)?;
            return Ok(SubResult { global, sub_name: None, sub: None });
        }
        match self.find_split(args) {
            Some((split_idx, sub_idx)) => {
                let head = &args[0..split_idx];
                let tail = &args[split_idx..args.len()];
                assert(strs(head@) =~= strs(args@).take(split_idx as int));
                assert(strs(tail@) =~= strs(args@).skip(split_idx as int));
                let global = self.parse::<P>(head)?;
                let sub_def = self.subs()[sub_idx];
                let sub_matches = self.parse_subcmd_args::<P>(&sub_def, tail)?;
                Ok(SubResult { global, sub_name: Some(sub_def.name), sub: Some(sub_matches) })
            },
            None => {
                let global = self.parse::<P>(args)?;
                Ok(SubResult { global, sub_name: None, sub: None })
            },
        }
    }

    /// Renders full help output for this parser into `w`.
    ///
    /// Fails with [`FmtError`] when the text does not fit the formatter.
    pub fn format_help(&self, w: &mut HelpFormatter) -> (r: Result<(), FmtError>)
        requires
            self.wf(),
        ensures
            final(final(w).borrowed())@ == final(old(w).borrowed())@,
            (final(w)@, r is Ok) == emit(
                old(w)@,
                help_pieces(
                    self@.name,
                    self@.version,
                    self@.about,
                    self@.args,
                    self@.auto_help,
                    self@.auto_version,
                    self@.subs,
                ),
            ),
    {
        format_parser_help::<SA>(
            w,
            self.name,
            self.version,
            self.about,
            self.args(),
            self.auto_help,
            self.auto_version,
            self.subs(),
        )
    }
}

/// The descriptions of the arguments from argument `i` on, comma separated.
pub open spec fn arg_items(args: Seq<ArgSpec>, i: int) -> Seq<Seq<char>>
    decreases args.len() - i,
{
    if i < 0 || i >= args.len() {
        Seq::empty()
    } else {
        (if i > 0 {
            seq![", "@]
        } else {
            Seq::empty()
        }) + display_pieces(args[i]) + arg_items(args, i + 1)
    }
}

/// The pieces of a parser's debug description.
pub open spec fn parser_debug_pieces(p: ParserView) -> Seq<Seq<char>> {
    seq!["Parser { name: \""@] + seq![p.name] + seq!["\", args: ["@] + arg_items(p.args, 0) + seq![
        "] }"@,
    ]
}

/// The pieces of a routed result's debug description.
pub open spec fn sub_result_debug_pieces(r: SubResultView) -> Seq<Seq<char>> {
    seq!["SubResult { sub_name: "@] + (match r.sub_name {
        Some(n) => seq!["\""@] + seq![n] + seq!["\""@],
        None => seq!["None"@],
    }) + seq![" }"@]
}

fn write_arg_items(w: &mut HelpFormatter, args: &[Arg<'_>]) -> (r: Result<(), FmtError>)
    ensures
        final(final(w).borrowed())@ == final(old(w).borrowed())@,
        (final(w)@, r is Ok) == emit(old(w)@, arg_items(arg_specs(args@), 0)),
{
    broadcast use group_emit;

    let ghost defs = arg_specs(args@);
    let mut i: usize = 0;
    while i < args.len()
        invariant
            final(w.borrowed())@ == final(old(w).borrowed())@,
            i <= args@.len(),
            defs == arg_specs(args@),
            emit(old(w)@, arg_items(defs, 0)) == emit(w@, arg_items(defs, i as int)),
        decreases args@.len() - i,
    {
        proof {
            let sep: Seq<Seq<char>> = if i > 0 {
                seq![", "@]
            } else {
                Seq::empty()
            };
            assert(defs[i as int] == args@[i as int]@);
            lemma_emit_concat(w@, sep + display_pieces(defs[i as int]), arg_items(defs, i + 1));
            lemma_emit_concat(w@, sep, display_pieces(defs[i as int]));
        }
        if i > 0 {
            w.write_str(", ")?;
        }
        args[i].write_display(w)?;
        i += 1;
    }
    Ok(())
}

impl<'a, const A: usize, const S: usize, const SA: usize> Parser<'a, A, S, SA> {
    /// Writes a one-line description of the parser: its name and arguments.
    pub fn write_debug(&self, w: &mut HelpFormatter) -> (r: Result<(), FmtError>)
        requires
            self.wf(),
        ensures
            final(final(w).borrowed())@ == final(old(w).borrowed())@,
            (final(w)@, r is Ok) == emit(old(w)@, parser_debug_pieces(self@)),
    {
        broadcast use group_emit;

        w.write_str("Parser { name: \"")?;
        w.write_str(self.name)?;
        w.write_str("\", args: [")?;
        write_arg_items(w, self.args())?;
        w.write_str("] }")
    }
}

impl<'a, const A: usize, const SA: usize, const P: usize> SubResult<'a, A, SA, P> {
    /// Writes a one-line description of the result: which subcommand ran.
    pub fn write_debug(&self, w: &mut HelpFormatter) -> (r: Result<(), FmtError>)
        ensures
            final(final(w).borrowed())@ == final(old(w).borrowed())@,
            (final(w)@, r is Ok) == emit(old(w)@, sub_result_debug_pieces(self@)),
    {
        broadcast use group_emit;

        w.write_str("SubResult { sub_name: ")?;
        match self.sub_name {
            Some(n) => {
                w.write_str("\"")?;
                w.write_str(n)?;
                w.write_str("\"")?;
            },
            None => {
                w.write_str("None")?;
            },
        }
        w.write_str(" }")
    }
}


/// A name found is at its position.
proof fn lemma_find_name(names: Seq<Seq<char>>, name: Seq<char>)
    ensures
        find_name(names, name) matches Some(i) ==> 0 <= i < names.len() && names[i] == name,
{
    crate::text::lemma_first_from(names, named(name), 0);
}

/// The scan for a subcommand only ever stops on a subcommand name.
proof fn lemma_split_names(
    defs: Seq<ArgSpec>,
    names: Seq<Seq<char>>,
    toks: Seq<Seq<char>>,
    auto_help: bool,
    auto_version: bool,
    ti: int,
)
    ensures
        split_from(defs, names, toks, auto_help, auto_version, ti) matches Some((k, si)) ==> 0
            <= k < toks.len() && 0 <= si < names.len() && names[si] == toks[k],
    decreases toks.len() + 1 - ti,
{
    if 0 <= ti < toks.len() {
        let tok = toks[ti];
        lemma_split_names(defs, names, toks, auto_help, auto_version, ti + 1);
        lemma_split_names(defs, names, toks, auto_help, auto_version, ti + 2);
        lemma_find_name(names, tok);
    }
}

/// A routed parse names a subcommand exactly when it holds the subcommand's
/// matches; the name is one of the parser's subcommands, and it is the token
/// where the subcommand's own arguments begin.
pub proof fn law_routed_result(
    p: ParserView,
    toks: Seq<Seq<char>>,
    s_cap: nat,
    a_cap: nat,
    sa_cap: nat,
    p_cap: nat,
)
    ensures
        spec_parse_sub(p, toks, s_cap, a_cap, sa_cap, p_cap) matches Ok(r) ==> {
            &&& (r.sub_name is Some <==> r.sub is Some)
            &&& r.sub_name matches Some(n) ==> sub_names(p.subs).contains(n) && toks.contains(n)
        },
{
    if toks.len() > 0 && s_cap > 0 {
        lemma_split_names(p.args, sub_names(p.subs), toks, p.auto_help, p.auto_version, 1);
        if let Some((k, si)) = split_from(
            p.args,
            sub_names(p.subs),
            toks,
            p.auto_help,
            p.auto_version,
            1,
        ) {
            assert(sub_names(p.subs)[si] == p.subs[si].name);
        }
    }
}


/// A word with no `=` in it holds its whole self as the long key.
proof fn lemma_key_without_eq(after: Seq<char>)
    requires
        !after.contains('='),
    ensures
        long_key(after) == after,
        eq_pos(after) is None,
{
    crate::text::lemma_first_from(after, |c: char| c == '=', 0);
    if let Some(k) = eq_pos(after) {
        assert(after[k] == '=');
    }
}

/// In the scan for a subcommand, a global option written `--key` with no `=`
/// takes the token after it as its value: the scan goes on two tokens later,
/// so that value is never looked up as a subcommand.
pub proof fn law_split_skips_option_value(
    defs: Seq<ArgSpec>,
    names: Seq<Seq<char>>,
    toks: Seq<Seq<char>>,
    auto_help: bool,
    auto_version: bool,
    ti: int,
    i: int,
)
    requires
        0 <= ti < toks.len(),
        is_long_token(toks[ti]),
        toks[ti] != dashes(),
        !toks[ti].skip(2).contains('='),
        !(auto_help && toks[ti].skip(2) == "help"@),
        !(auto_version && toks[ti].skip(2) == "version"@),
        selects_long(defs, toks[ti].skip(2), i),
        defs[i].kind == ArgKind::Option,
    ensures
        split_from(defs, names, toks, auto_help, auto_version, ti) == split_from(
            defs,
            names,
            toks,
            auto_help,
            auto_version,
            ti + 2,
        ),
{
    lemma_key_without_eq(toks[ti].skip(2));
    crate::parse::lemma_selects_long(defs, toks[ti].skip(2), i);
}

/// The scan for a subcommand stops at a bare word that names a subcommand,
/// and picks the first subcommand of that name.
pub proof fn law_split_stops_at_subcommand(
    defs: Seq<ArgSpec>,
    names: Seq<Seq<char>>,
    toks: Seq<Seq<char>>,
    auto_help: bool,
    auto_version: bool,
    ti: int,
    si: int,
)
    requires
        0 <= ti < toks.len(),
        !(toks[ti].len() > 1 && toks[ti][0] == '-'),
        0 <= si < names.len(),
        names[si] == toks[ti],
        forall|j: int| 0 <= j < si ==> #[trigger] names[j] != toks[ti],
    ensures
        split_from(defs, names, toks, auto_help, auto_version, ti) == Some((ti, si)),
{
    crate::text::lemma_first_from(names, named(toks[ti]), 0);
}

/// `prog --key value sub ...`, where `--key` (no `=`) selects a global option
/// and `sub` names a subcommand: the parser gets `prog --key value`, and the
/// subcommand gets `sub ...`; the result names that subcommand.
pub proof fn law_routed_after_option_value(
    p: ParserView,
    toks: Seq<Seq<char>>,
    s_cap: nat,
    a_cap: nat,
    sa_cap: nat,
    p_cap: nat,
    i: int,
    si: int,
)
    requires
        s_cap > 0,
        toks.len() >= 4,
        is_long_token(toks[1]),
        toks[1] != dashes(),
        !toks[1].skip(2).contains('='),
        !(p.auto_help && toks[1].skip(2) == "help"@),
        !(p.auto_version && toks[1].skip(2) == "version"@),
        selects_long(p.args, toks[1].skip(2), i),
        p.args[i].kind == ArgKind::Option,
        !(toks[3].len() > 1 && toks[3][0] == '-'),
        0 <= si < p.subs.len(),
        p.subs[si].name == toks[3],
        forall|j: int| 0 <= j < si ==> #[trigger] p.subs[j].name != toks[3],
    ensures
        spec_parse_sub(p, toks, s_cap, a_cap, sa_cap, p_cap) == match spec_parse(
            p.args,
            toks.take(3),
            p.auto_help,
            p.auto_version,
            a_cap,
            p_cap,
        ) {
            Ok(g) => match spec_parse(
                p.subs[si].args,
                toks.skip(3),
                p.auto_help,
                p.auto_version,
                sa_cap,
                p_cap,
            ) {
                Ok(m) => Ok(
                    SubResultView { global: g, sub_name: Some(toks[3]), sub: Some(m) },
                ),
                Err(e) => Err(e),
            },
            Err(e) => Err::<SubResultView, ErrorView>(e),
        },
{
    let names = sub_names(p.subs);
    assert forall|j: int| 0 <= j < si implies #[trigger] names[j] != toks[3] by {
        assert(names[j] == p.subs[j].name);
    }
    law_split_skips_option_value(p.args, names, toks, p.auto_help, p.auto_version, 1, i);
    law_split_stops_at_subcommand(p.args, names, toks, p.auto_help, p.auto_version, 3, si);
}

} // verus!
