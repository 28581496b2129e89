//! The parsing core: how each token of the input changes the matches.
use vstd::prelude::*;
use vstd::string::StrSliceExecFns;
use crate::arg::{arg_specs, Arg, ArgKind, ArgSpec};
use crate::error::{ErrorKind, ErrorView, ParseError};
use crate::matches::{Matches, MatchesView};
use crate::text::{find_char, first_from, first_index, opt_int, opt_str, str_eq, strs};

verus! {

broadcast use crate::arg::lemma_arg_view;

/// The token `--`.
pub open spec fn dashes() -> Seq<char> {
    seq!['-', '-']
}

/// A token that begins with `--`.
pub open spec fn is_long_token(t: Seq<char>) -> bool {
    t.len() >= 2 && t[0] == '-' && t[1] == '-'
}

/// The position of the first `=` in `s`.
pub open spec fn eq_pos(s: Seq<char>) -> Option<int> {
    first_index(s, |c: char| c == '=')
}

/// The key of a long token's text after `--`: everything before the first `=`.
pub open spec fn long_key(after: Seq<char>) -> Seq<char> {
    match eq_pos(after) {
        Some(p) => after.take(p),
        None => after,
    }
}

/// The inline value of a long token's text after `--`: everything after the first `=`.
pub open spec fn long_inline(after: Seq<char>) -> Option<Seq<char>> {
    match eq_pos(after) {
        Some(p) => Some(after.skip(p + 1)),
        None => None,
    }
}

/// The first definition that the long key `key` selects.
pub open spec fn find_long(defs: Seq<ArgSpec>, key: Seq<char>) -> Option<int> {
    first_index(defs, |a: ArgSpec| a.matches_long(key))
}

/// The first definition that the short character `c` selects.
pub open spec fn find_short(defs: Seq<ArgSpec>, c: char) -> Option<int> {
    first_index(defs, |a: ArgSpec| a.matches_short(c))
}

/// The error for an argument given twice.
pub open spec fn duplicate(name: Seq<char>) -> ErrorView {
    ErrorView::of(ErrorKind::DuplicateArgument).name(name)
}

/// How a long token (`--key` or `--key=value`) changes the matches, and
/// whether it takes the next token as its value.
pub open spec fn long_step(
    defs: Seq<ArgSpec>,
    token: Seq<char>,
    next: Option<Seq<char>>,
    auto_help: bool,
    auto_version: bool,
    st: MatchesView,
) -> Result<(MatchesView, bool), ErrorView> {
    let after = token.skip(2);
    let key = long_key(after);
    if auto_help && key == "help"@ {
        if st.help {
            Err(duplicate("help"@))
        } else {
            Ok((MatchesView { help: true, ..st }, false))
        }
    } else if auto_version && key == "version"@ {
        if st.version {
            Err(duplicate("version"@))
        } else {
            Ok((MatchesView { version: true, ..st }, false))
        }
    } else {
        match find_long(defs, key) {
            None => Err(ErrorView::of(ErrorKind::UnknownArgument).token(token)),
            Some(i) => {
                let a = defs[i];
                if st.present[i] && !a.allow_duplicates {
                    Err(duplicate(a.name))
                } else if a.kind == ArgKind::Flag {
                    Ok((st.record(i, "true"@), false))
                } else {
                    match long_inline(after) {
                        Some(v) => Ok((st.record(i, v), false)),
                        None => match next {
                            Some(n) => Ok((st.record(i, n), true)),
                            None => Err(
                                ErrorView::of(ErrorKind::MissingValue).token(token).name(a.name),
                            ),
                        },
                    }
                }
            },
        }
    }
}

/// How the characters of a short cluster (`-vd`, `-ofile`) from position `j`
/// on change the matches, and whether the cluster takes the next token.
pub open spec fn short_step(
    defs: Seq<ArgSpec>,
    token: Seq<char>,
    next: Option<Seq<char>>,
    auto_help: bool,
    auto_version: bool,
    st: MatchesView,
    j: int,
) -> Result<(MatchesView, bool), ErrorView>
    decreases token.len() - j,
{
    if j < 0 || j >= token.len() {
        Ok((st, false))
    } else {
        let c = token[j];
        match find_short(defs, c) {
            None => if c == 'h' && auto_help {
                if st.help {
                    Err(duplicate("help"@))
                } else {
                    short_step(
                        defs,
                        token,
                        next,
                        auto_help,
                        auto_version,
                        MatchesView { help: true, ..st },
                        j + 1,
                    )
                }
            } else if c == 'V' && auto_version {
                if st.version {
                    Err(duplicate("version"@))
                } else {
                    short_step(
                        defs,
                        token,
                        next,
                        auto_help,
                        auto_version,
                        MatchesView { version: true, ..st },
                        j + 1,
                    )
                }
            } else {
                Err(ErrorView::of(ErrorKind::UnknownArgument).token(token))
            },
            Some(i) => {
                let a = defs[i];
                if st.present[i] && !a.allow_duplicates {
                    Err(duplicate(a.name))
                } else if a.kind == ArgKind::Flag {
                    short_step(
                        defs,
                        token,
                        next,
                        auto_help,
                        auto_version,
                        st.record(i, "true"@),
                        j + 1,
                    )
                } else if j + 1 < token.len() {
                    Ok((st.record(i, token.skip(j + 1)), false))
                } else {
                    match next {
                        Some(n) => Ok((st.record(i, n), true)),
                        None => Err(
                            ErrorView::of(ErrorKind::MissingValue).token(token).name(a.name),
                        ),
                    }
                }
            },
        }
    }
}

/// A short cluster takes the next token only when there is one.
proof fn lemma_short_consumes(
    defs: Seq<ArgSpec>,
    token: Seq<char>,
    next: Option<Seq<char>>,
    auto_help: bool,
    auto_version: bool,
    st: MatchesView,
    j: int,
)
    ensures
        short_step(defs, token, next, auto_help, auto_version, st, j) matches Ok((_, true))
            ==> next is Some,
    decreases token.len() - j,
{
    if 0 <= j < token.len() {
        let c = token[j];
        lemma_short_consumes(defs, token, next, auto_help, auto_version, MatchesView { help: true, ..st }, j + 1);
        lemma_short_consumes(defs, token, next, auto_help, auto_version, MatchesView { version: true, ..st }, j + 1);
        if let Some(i) = find_short(defs, c) {
            lemma_short_consumes(defs, token, next, auto_help, auto_version, st.record(i, "true"@), j + 1);
        }
    }
}

/// The index of the first definition whose long form is `key`.
pub(crate) fn find_long_index<'a>(defs: &[Arg<'a>], key: &str) -> (r: Option<usize>)
    ensures
        opt_int(r) == find_long(arg_specs(defs@), key@),
        r matches Some(i) ==> i < defs@.len(),
{
    let mut i: usize = 0;
    while i < defs.len()
        invariant
            i <= defs@.len(),
            first_from(arg_specs(defs@), |a: ArgSpec| a.matches_long(key@), i as int) == find_long(
                arg_specs(defs@),
                key@,
            ),
        decreases defs@.len() - i,
    {
        if defs[i].matches_long(key) {
            return Some(i);
        }
        i += 1;
    }
    None
}

/// The index of the first definition whose short form is `c`.
fn find_short_index<'a>(defs: &[Arg<'a>], c: char) -> (r: Option<usize>)
    ensures
        opt_int(r) == find_short(arg_specs(defs@), c),
        r matches Some(i) ==> i < defs@.len(),
{
    let mut i: usize = 0;
    while i < defs.len()
        invariant
            i <= defs@.len(),
            first_from(arg_specs(defs@), |a: ArgSpec| a.matches_short(c), i as int) == find_short(
                arg_specs(defs@),
                c,
            ),
        decreases defs@.len() - i,
    {
        if defs[i].matches_short(c) {
            return Some(i);
        }
        i += 1;
    }
    None
}

proof fn lemma_found_not_positional(defs: Seq<ArgSpec>, f: spec_fn(ArgSpec) -> bool, i: int)
    requires
        first_index(defs, f) == Some(i),
        forall|a: ArgSpec| #[trigger] f(a) ==> a.kind != ArgKind::Positional,
    ensures
        0 <= i < defs.len(),
        defs[i].kind != ArgKind::Positional,
{
    crate::text::lemma_first_from(defs, f, 0);
}

/// Process a long token (`--foo` or `--foo=bar`).
///
/// With `auto_help` / `auto_version`, `--help` / `--version` are intercepted;
/// otherwise they fall through to user-defined args.
///
/// Returns `true` if the next token was consumed as a value.
pub(crate) fn process_long<'a, const A: usize, const P: usize>(
    token: &'a str,
    next_token: Option<&'a str>,
    arg_defs: &[Arg<'a>],
    matches: &mut Matches<'a, A, P>,
    auto_help: bool,
    auto_version: bool,
) -> (r: Result<bool, ParseError<'a>>)
    requires
        is_long_token(token@),
        arg_defs@.len() <= A,
    ensures
        match r {
            Ok(c) => long_step(
                arg_specs(arg_defs@),
                token@,
                opt_str(next_token),
                auto_help,
                auto_version,
                old(matches)@,
            ) == Ok::<(MatchesView, bool), ErrorView>((final(matches)@, c)),
            Err(e) => long_step(
                arg_specs(arg_defs@),
                token@,
                opt_str(next_token),
                auto_help,
                auto_version,
                old(matches)@,
            ) == Err::<(MatchesView, bool), ErrorView>(e@),
        },
{
    let ghost defs = arg_specs(arg_defs@);
    let n = token.unicode_len();
    let after_dashes = token.substring_char(2, n);
    let after_len = after_dashes.unicode_len();
    let (key, inline_value) = match find_char(after_dashes, '=') {
        Some(p) => (
            after_dashes.substring_char(0, p),
            Some(after_dashes.substring_char(p + 1, after_len)),
        ),
        None => (after_dashes, None),
    };
    proof {
        crate::text::lemma_first_from(after_dashes@, |c: char| c == '=', 0);
        assert(key@ == long_key(token@.skip(2)));
        assert(opt_str(inline_value) == long_inline(token@.skip(2)));
    }
    if auto_help && str_eq(key, "help") {
        if matches.help_requested() {
            return Err(ParseError::new(ErrorKind::DuplicateArgument).with_name("help"));
        }
        matches.set_help();
        return Ok(false);
    }
    if auto_version && str_eq(key, "version") {
        if matches.version_requested() {
            return Err(ParseError::new(ErrorKind::DuplicateArgument).with_name("version"));
        }
        matches.set_version();
        return Ok(false);
    }
    let arg_idx = match find_long_index(arg_defs, key) {
        Some(i) => i,
        None => {
            return Err(ParseError::new(ErrorKind::UnknownArgument).with_token(token));
        },
    };
    let arg = arg_defs[arg_idx];
    proof {
        lemma_found_not_positional(defs, |a: ArgSpec| a.matches_long(key@), arg_idx as int);
    }
    if matches.get_present(arg_idx) && !arg.allows_duplicates() {
        return Err(ParseError::new(ErrorKind::DuplicateArgument).with_name(arg.name));
    }
    match arg.kind {
        ArgKind::Flag => {
            matches.record(arg_idx, "true");
            Ok(false)
        },
        ArgKind::Option => match inline_value {
            Some(val) => {
                matches.record(arg_idx, val);
                Ok(false)
            },
            None => match next_token {
                Some(next) => {
                    matches.record(arg_idx, next);
                    Ok(true)
                },
                None => Err(
                    ParseError::new(ErrorKind::MissingValue).with_token(token).with_name(arg.name),
                ),
            },
        },
        ArgKind::Positional => unreached(),
    }
}

/// Process a short cluster like `-vd` or `-ofile.txt`.
///
/// `auto_help` / `auto_version` behave as in [`process_long`].
///
/// Returns `true` if the next token was consumed as a value.
pub(crate) fn process_short<'a, const A: usize, const P: usize>(
    token: &'a str,
    next_token: Option<&'a str>,
    arg_defs: &[Arg<'a>],
    matches: &mut Matches<'a, A, P>,
    auto_help: bool,
    auto_version: bool,
) -> (r: Result<bool, ParseError<'a>>)
    requires
        arg_defs@.len() <= A,
    ensures
        match r {
            Ok(c) => short_step(
                arg_specs(arg_defs@),
                token@,
                opt_str(next_token),
                auto_help,
                auto_version,
                old(matches)@,
                1,
            ) == Ok::<(MatchesView, bool), ErrorView>((final(matches)@, c)),
            Err(e) => short_step(
                arg_specs(arg_defs@),
                token@,
                opt_str(next_token),
                auto_help,
                auto_version,
                old(matches)@,
                1,
            ) == Err::<(MatchesView, bool), ErrorView>(e@),
        },
{
    let ghost defs = arg_specs(arg_defs@);
    let ghost next = opt_str(next_token);
    let ghost target = short_step(defs, token@, next, auto_help, auto_version, matches@, 1);
    let n = token.unicode_len();
    let mut j: usize = 1;
    while j < n
        invariant
            n == token@.len(),
            1 <= j,
            arg_defs@.len() <= A,
            defs == arg_specs(arg_defs@),
            next == opt_str(next_token),
            target == short_step(defs, token@, next, auto_help, auto_version, old(matches)@, 1),
            short_step(defs, token@, next, auto_help, auto_version, matches@, j as int) == target,
        decreases n - j,
    {
        let c = token.get_char(j);
        match find_short_index(arg_defs, c) {
            None => {
                if c == 'h' && auto_help {
                    if matches.help_requested() {
                        return Err(ParseError::new(ErrorKind::DuplicateArgument).with_name("help"));
                    }
                    matches.set_help();
                } else if c == 'V' && auto_version {
                    if matches.version_requested() {
                        return Err(
                            ParseError::new(ErrorKind::DuplicateArgument).with_name("version"),
                        );
                    }
                    matches.set_version();
                } else {
                    return Err(ParseError::new(ErrorKind::UnknownArgument).with_token(token));
                }
            },
            Some(arg_idx) => {
                let arg = arg_defs[arg_idx];
                proof {
                    lemma_found_not_positional(defs, |a: ArgSpec| a.matches_short(c), arg_idx as int);
                }
                if matches.get_present(arg_idx) && !arg.allows_duplicates() {
                    return Err(ParseError::new(ErrorKind::DuplicateArgument).with_name(arg.name));
                }
                match arg.kind {
                    ArgKind::Flag => {
                        matches.record(arg_idx, "true");
                    },
                    ArgKind::Option => {
                        if j + 1 < n {
                            let rest = token.substring_char(j + 1, n);
                            matches.record(arg_idx, rest);
                            return Ok(false);
                        }
                        match next_token {
                            Some(next) => {
                                matches.record(arg_idx, next);
                                return Ok(true);
                            },
                            None => {
                                return Err(
                                    ParseError::new(ErrorKind::MissingValue).with_token(
                                        token,
                                    ).with_name(arg.name),
                                );
                            },
                        }
                    },
                    ArgKind::Positional => {
                        return unreached();
                    },
                }
            },
        }
        j += 1;
    }
    Ok(false)
}

/// How defaults, required arguments and allowed values settle the matches,
/// from definition `i` on. `skip` waives the required check.
pub open spec fn post_step(defs: Seq<ArgSpec>, st: MatchesView, skip: bool, i: int) -> Result<
    MatchesView,
    ErrorView,
>
    decreases defs.len() - i,
{
    if i < 0 || i >= defs.len() {
        Ok(st)
    } else {
        let a = defs[i];
        if a.name.len() == 0 {
            post_step(defs, st, skip, i + 1)
        } else {
            let absent = !st.present[i];
            let st1 = if absent && a.default is Some {
                MatchesView { entries: st.entries.update(i, a.default), ..st }
            } else {
                st
            };
            if absent && !skip && a.required && a.default is None {
                Err(ErrorView::of(ErrorKind::MissingRequired).name(a.name))
            } else if a.possible is Some && st1.entries[i] is Some && !a.possible->0.contains(
                st1.entries[i]->0,
            ) {
                Err(
                    ErrorView::of(ErrorKind::InvalidChoice).token(st1.entries[i]->0).name(
                        a.name,
                    ).values(a.possible->0),
                )
            } else {
                post_step(defs, st1, skip, i + 1)
            }
        }
    }
}

/// `val` is one of `values`.
fn contains_str(values: &[&str], val: &str) -> (r: bool)
    ensures
        r == strs(values@).contains(val@),
{
    let mut i: usize = 0;
    while i < values.len()
        invariant
            i <= values@.len(),
            forall|k: int| 0 <= k < i ==> values@[k]@ != val@,
        decreases values@.len() - i,
    {
        if str_eq(values[i], val) {
            assert(strs(values@)[i as int] == val@);
            return true;
        }
        i += 1;
    }
    proof {
        if strs(values@).contains(val@) {
            let k = choose|k: int| 0 <= k < strs(values@).len() && strs(values@)[k] == val@;
            assert(values@[k]@ == val@);
        }
    }
    false
}

/// Apply defaults, validate required args and possible-value sets.
pub(crate) fn post_process<'a, const A: usize, const P: usize>(
    arg_defs: &[Arg<'a>],
    matches: &mut Matches<'a, A, P>,
    skip_required_check: bool,
) -> (r: Result<(), ParseError<'a>>)
    requires
        arg_defs@.len() <= A,
    ensures
        match r {
            Ok(()) => post_step(arg_specs(arg_defs@), old(matches)@, skip_required_check, 0)
                == Ok::<MatchesView, ErrorView>(final(matches)@),
            Err(e) => post_step(arg_specs(arg_defs@), old(matches)@, skip_required_check, 0)
                == Err::<MatchesView, ErrorView>(e@),
        },
{
    let ghost defs = arg_specs(arg_defs@);
    let ghost target = post_step(defs, matches@, skip_required_check, 0);
    let mut i: usize = 0;
    while i < arg_defs.len()
        invariant
            i <= arg_defs@.len() <= A,
            defs == arg_specs(arg_defs@),
            target == post_step(defs, old(matches)@, skip_required_check, 0),
            post_step(defs, matches@, skip_required_check, i as int) == target,
        decreases arg_defs@.len() - i,
    {
        let arg = arg_defs[i];
        if !arg.is_empty() {
            let present = matches.get_present(i);
            if !present {
                if let Some(default) = arg.default {
                    matches.set_entry(i, Some(default));
                }
                if !skip_required_check && arg.is_required() && arg.default.is_none() {
                    return Err(ParseError::new(ErrorKind::MissingRequired).with_name(arg.name));
                }
            }
            if let Some(values) = arg.possible {
                if let Some(val) = matches.entry(i) {
                    if !contains_str(values, val) {
                        return Err(
                            ParseError::new(ErrorKind::InvalidChoice).with_token(val).with_name(
                                arg.name,
                            ).with_possible(values),
                        );
                    }
                }
            }
        }
        i += 1;
    }
    Ok(())
}

/// Whether a short cluster, from position `j` on, ends in an option that
/// takes the next token as its value.
pub open spec fn cluster_consumes(
    token: Seq<char>,
    defs: Seq<ArgSpec>,
    auto_help: bool,
    auto_version: bool,
    j: int,
) -> bool
    decreases token.len() - j,
{
    if j < 0 || j >= token.len() {
        false
    } else {
        let c = token[j];
        if (auto_help && c == 'h') || (auto_version && c == 'V') {
            cluster_consumes(token, defs, auto_help, auto_version, j + 1)
        } else {
            match find_short(defs, c) {
                Some(i) => if defs[i].kind == ArgKind::Option {
                    j + 1 >= token.len()
                } else {
                    cluster_consumes(token, defs, auto_help, auto_version, j + 1)
                },
                None => false,
            }
        }
    }
}

/// Check if a short cluster's last char is an option that consumes the next token.
pub(crate) fn short_cluster_consumes_next(
    token: &str,
    global_args: &[Arg<'_>],
    auto_help: bool,
    auto_version: bool,
) -> (r: bool)
    ensures
        r == cluster_consumes(token@, arg_specs(global_args@), auto_help, auto_version, 1),
{
    let ghost defs = arg_specs(global_args@);
    let n = token.unicode_len();
    let mut j: usize = 1;
    while j < n
        invariant
            n == token@.len(),
            1 <= j,
            defs == arg_specs(global_args@),
            cluster_consumes(token@, defs, auto_help, auto_version, j as int) == cluster_consumes(
                token@,
                defs,
                auto_help,
                auto_version,
                1,
            ),
        decreases n - j,
    {
        let c = token.get_char(j);
        if (auto_help && c == 'h') || (auto_version && c == 'V') {
            j += 1;
            continue;
        }
        match find_short_index(global_args, c) {
            Some(idx) => {
                if global_args[idx].kind.is_option() {
                    return j + 1 >= n;
                }
            },
            None => {
                return false;
            },
        }
        j += 1;
    }
    false
}

/// The slots of the positional definitions, in order.
pub open spec fn positional_slots(defs: Seq<ArgSpec>) -> Seq<int>
    decreases defs.len(),
{
    if defs.len() == 0 {
        Seq::empty()
    } else {
        let prev = positional_slots(defs.drop_last());
        if defs.last().kind == ArgKind::Positional {
            prev.push(defs.len() - 1)
        } else {
            prev
        }
    }
}

/// How a positional value changes the matches: it takes the next positional
/// slot `cur` if one is left, and always joins the positional list.
pub open spec fn positional_step(
    slots: Seq<int>,
    cap: nat,
    st: MatchesView,
    cur: int,
    value: Seq<char>,
) -> Result<(MatchesView, int), ErrorView> {
    if st.positionals.len() >= cap {
        Err(ErrorView::of(ErrorKind::TooManyPositionals).token(value))
    } else {
        let st1 = MatchesView { positionals: st.positionals.push(value), ..st };
        if 0 <= cur < slots.len() {
            Ok((st1.record(slots[cur], value), cur + 1))
        } else {
            Ok((st1, cur))
        }
    }
}

/// How the tokens from position `ti` on change the matches. `cur` is the next
/// positional slot; `only` holds after a `--`, when every token is positional.
pub open spec fn token_loop(
    defs: Seq<ArgSpec>,
    toks: Seq<Seq<char>>,
    auto_help: bool,
    auto_version: bool,
    cap: nat,
    ti: int,
    st: MatchesView,
    cur: int,
    only: bool,
) -> Result<MatchesView, ErrorView>
    decreases toks.len() + 1 - ti,
{
    if ti < 0 || ti >= toks.len() {
        Ok(st)
    } else {
        let tok = toks[ti];
        let next = if ti + 1 < toks.len() {
            Some(toks[ti + 1])
        } else {
            None
        };
        if only || !(tok.len() > 0 && tok[0] == '-') {
            match positional_step(positional_slots(defs), cap, st, cur, tok) {
                Ok((st2, cur2)) => token_loop(
                    defs,
                    toks,
                    auto_help,
                    auto_version,
                    cap,
                    ti + 1,
                    st2,
                    cur2,
                    only,
                ),
                Err(e) => Err(e),
            }
        } else if tok == dashes() {
            token_loop(defs, toks, auto_help, auto_version, cap, ti + 1, st, cur, true)
        } else if is_long_token(tok) {
            match long_step(defs, tok, next, auto_help, auto_version, st) {
                Ok((st2, consumed)) => token_loop(
                    defs,
                    toks,
                    auto_help,
                    auto_version,
                    cap,
                    ti + if consumed {
                        2int
                    } else {
                        1int
                    },
                    st2,
                    cur,
                    only,
                ),
                Err(e) => Err(e),
            }
        } else if tok.len() == 1 {
            Err(ErrorView::of(ErrorKind::EmptyFlag).token(tok))
        } else {
            match short_step(defs, tok, next, auto_help, auto_version, st, 1) {
                Ok((st2, consumed)) => token_loop(
                    defs,
                    toks,
                    auto_help,
                    auto_version,
                    cap,
                    ti + if consumed {
                        2int
                    } else {
                        1int
                    },
                    st2,
                    cur,
                    only,
                ),
                Err(e) => Err(e),
            }
        }
    }
}

/// The slots held by the first `count` entries of `indices`.
pub open spec fn slot_seq(indices: Seq<usize>, count: usize) -> Seq<int> {
    indices.take(count as int).map_values(|x: usize| x as int)
}

fn add_positional<'a, const A: usize, const P: usize>(
    matches: &mut Matches<'a, A, P>,
    pos_arg_indices: &[usize; A],
    pos_arg_count: usize,
    current_pos_def: &mut usize,
    value: &'a str,
) -> (r: Result<(), ParseError<'a>>)
    requires
        pos_arg_count <= A,
        *old(current_pos_def) <= pos_arg_count,
        forall|k: int| 0 <= k < pos_arg_count ==> pos_arg_indices@[k] < A,
    ensures
        *final(current_pos_def) <= pos_arg_count,
        match r {
            Ok(()) => positional_step(
                slot_seq(pos_arg_indices@, pos_arg_count),
                P as nat,
                old(matches)@,
                *old(current_pos_def) as int,
                value@,
            ) == Ok::<(MatchesView, int), ErrorView>((final(matches)@, *final(current_pos_def) as int)),
            Err(e) => positional_step(
                slot_seq(pos_arg_indices@, pos_arg_count),
                P as nat,
                old(matches)@,
                *old(current_pos_def) as int,
                value@,
            ) == Err::<(MatchesView, int), ErrorView>(e@),
        },
{
    matches.add_positional(value)?;
    if *current_pos_def < pos_arg_count {
        let arg_idx = pos_arg_indices[*current_pos_def];
        matches.record(arg_idx, value);
        *current_pos_def = *current_pos_def + 1;
    }
    Ok(())
}

/// Shared parsing core: walks `args` (skipping `args[0]`) and routes tokens
/// into `matches`. Defaults and required-checks are handled by [`post_process`].
pub(crate) fn parse_into<'a, const A: usize, const P: usize>(
    arg_defs: &[Arg<'a>],
    args: &[&'a str],
    matches: &mut Matches<'a, A, P>,
    auto_help: bool,
    auto_version: bool,
) -> (r: Result<(), ParseError<'a>>)
    requires
        arg_defs@.len() <= A,
    ensures
        match r {
            Ok(()) => token_loop(
                arg_specs(arg_defs@),
                strs(args@),
                auto_help,
                auto_version,
                P as nat,
                1,
                old(matches)@,
                0,
                false,
            ) == Ok::<MatchesView, ErrorView>(final(matches)@),
            Err(e) => token_loop(
                arg_specs(arg_defs@),
                strs(args@),
                auto_help,
                auto_version,
                P as nat,
                1,
                old(matches)@,
                0,
                false,
            ) == Err::<MatchesView, ErrorView>(e@),
        },
{
    let ghost defs = arg_specs(arg_defs@);
    let ghost toks = strs(args@);
    let ghost target = token_loop(defs, toks, auto_help, auto_version, P as nat, 1, matches@, 0, false);
    if args.len() <= 1 {
        return Ok(());
    }
    let mut pos_arg_indices = [0usize; A];
    let mut pos_arg_count: usize = 0;
    let mut i: usize = 0;
    while i < arg_defs.len()
        invariant
            i <= arg_defs@.len() <= A,
            defs == arg_specs(arg_defs@),
            pos_arg_count <= i,
            slot_seq(pos_arg_indices@, pos_arg_count) == positional_slots(defs.take(i as int)),
            forall|k: int| 0 <= k < pos_arg_count ==> pos_arg_indices@[k] < i,
        decreases arg_defs@.len() - i,
    {
        proof {
            assert(defs.take(i + 1).drop_last() =~= defs.take(i as int));
        }
        if arg_defs[i].kind.is_positional() && pos_arg_count < A {
            pos_arg_indices[pos_arg_count] = i;
            pos_arg_count += 1;
            assert(slot_seq(pos_arg_indices@, pos_arg_count) =~= positional_slots(defs.take(i as int)).push(i as int));
        }
        i += 1;
    }
    assert(defs.take(i as int) =~= defs);
    let mut positional_only = false;
    let mut current_pos_def: usize = 0;
    let mut ti: usize = 1;
    while ti < args.len()
        invariant
            1 <= ti,
            arg_defs@.len() <= A,
            defs == arg_specs(arg_defs@),
            toks == strs(args@),
            pos_arg_count <= A,
            current_pos_def <= pos_arg_count,
            slot_seq(pos_arg_indices@, pos_arg_count) == positional_slots(defs),
            forall|k: int| 0 <= k < pos_arg_count ==> pos_arg_indices@[k] < A,
            target == token_loop(defs, toks, auto_help, auto_version, P as nat, 1, old(matches)@, 0, false),
            token_loop(
                defs,
                toks,
                auto_help,
                auto_version,
                P as nat,
                ti as int,
                matches@,
                current_pos_def as int,
                positional_only,
            ) == target,
        decreases args@.len() + 1 - ti,
    {
        let token = args[ti];
        let tn = token.unicode_len();
        let first = if tn > 0 {
            token.get_char(0)
        } else {
            ' '
        };
        let second = if tn > 1 {
            token.get_char(1)
        } else {
            ' '
        };
        let ghost old_st = matches@;
        let next_token = if ti + 1 < args.len() {
            Some(args[ti + 1])
        } else {
            None
        };
        assert(opt_str(next_token) == if ti + 1 < toks.len() { Some(toks[ti + 1]) } else { None });
        let dash = tn > 0 && first == '-';
        if positional_only || !dash {
            add_positional(
                matches,
                &pos_arg_indices,
                pos_arg_count,
                &mut current_pos_def,
                token,
            )?;
            ti += 1;
        } else if tn == 2 && second == '-' {
            assert(token@ =~= dashes());
            positional_only = true;
            ti += 1;
        } else if tn >= 2 && second == '-' {
            let consumed_next = process_long(
                token,
                next_token,
                arg_defs,
                matches,
                auto_help,
                auto_version,
            )?;
            ti += if consumed_next {
                2
            } else {
                1
            };
        } else if tn == 1 {
            return Err(ParseError::new(ErrorKind::EmptyFlag).with_token(token));
        } else {
            let consumed_next = process_short(
                token,
                next_token,
                arg_defs,
                matches,
                auto_help,
                auto_version,
            )?;
            proof {
                lemma_short_consumes(defs, token@, opt_str(next_token), auto_help, auto_version, old_st, 1);
            }
            ti += if consumed_next {
                2
            } else {
                1
            };
        }
    }
    Ok(())
}

/// The names of a list of definitions.
pub open spec fn arg_names(defs: Seq<ArgSpec>) -> Seq<Seq<char>> {
    defs.map_values(|a: ArgSpec| a.name)
}

/// What parsing the tokens `toks` (the program name in slot `0`) against the
/// definitions `defs` gives, with `a_cap` argument slots and `p_cap`
/// positional slots: the tokens are routed first, then defaults, required
/// arguments and allowed values are settled. A request for help or version
/// waives the required check.
pub open spec fn spec_parse(
    defs: Seq<ArgSpec>,
    toks: Seq<Seq<char>>,
    auto_help: bool,
    auto_version: bool,
    a_cap: nat,
    p_cap: nat,
) -> Result<MatchesView, ErrorView> {
    match token_loop(
        defs,
        toks,
        auto_help,
        auto_version,
        p_cap,
        1,
        MatchesView::initial(arg_names(defs), a_cap),
        0,
        false,
    ) {
        Ok(st) => post_step(defs, st, st.help || st.version, 0),
        Err(e) => Err(e),
    }
}

/// The outcome of a parse, by views.
pub open spec fn parse_outcome<'a, const A: usize, const P: usize>(
    r: Result<Matches<'a, A, P>, ParseError<'a>>,
) -> Result<MatchesView, ErrorView> {
    match r {
        Ok(m) => Ok(m@),
        Err(e) => Err(e@),
    }
}

/// Parses `args` against `arg_defs`: registers the names, routes the tokens,
/// then settles defaults, required arguments and allowed values.
pub(crate) fn parse_with<'a, const A: usize, const P: usize>(
    arg_defs: &[Arg<'a>],
    args: &[&'a str],
    auto_help: bool,
    auto_version: bool,
) -> (r: Result<Matches<'a, A, P>, ParseError<'a>>)
    requires
        A <= 64,
        arg_defs@.len() <= A,
    ensures
        parse_outcome(r) == spec_parse(
            arg_specs(arg_defs@),
            strs(args@),
            auto_help,
            auto_version,
            A as nat,
            P as nat,
        ),
{
    let ghost defs = arg_specs(arg_defs@);
    let mut matches = Matches::<A, P>::new();
    assert(arg_names(defs.take(0)) =~= Seq::empty());
    let mut i: usize = 0;
    while i < arg_defs.len()
        invariant
            i <= arg_defs@.len() <= A,
            defs == arg_specs(arg_defs@),
            matches@ == MatchesView::initial(arg_names(defs.take(i as int)), A as nat),
        decreases arg_defs@.len() - i,
    {
        let r = matches.add_entry(arg_defs[i].name);
        proof {
            assert(arg_names(defs.take(i + 1)) =~= arg_names(defs.take(i as int)).push(
                arg_defs@[i as int].name@,
            ));
        }
        i += 1;
    }
    assert(defs.take(i as int) =~= defs);
    parse_into(arg_defs, args, &mut matches, auto_help, auto_version)?;
    let skip = matches.help_requested() || matches.version_requested();
    post_process(arg_defs, &mut matches, skip)?;
    Ok(matches)
}

/// The entries and the presence marks agree: a slot holds a value exactly
/// when its argument was seen.
pub open spec fn tracks(st: MatchesView) -> bool {
    &&& st.entries.len() == st.present.len()
    &&& forall|i: int| 0 <= i < st.present.len() ==> (st.present[i] <==> st.entries[i] is Some)
}

proof fn lemma_slots_in_range(defs: Seq<ArgSpec>)
    ensures
        forall|k: int|
            0 <= k < positional_slots(defs).len() ==> 0 <= #[trigger] positional_slots(defs)[k]
                < defs.len(),
    decreases defs.len(),
{
    if defs.len() > 0 {
        let prev = positional_slots(defs.drop_last());
        lemma_slots_in_range(defs.drop_last());
        assert forall|k: int| 0 <= k < prev.len() implies 0 <= #[trigger] prev[k] < defs.len() by {
            assert(0 <= prev[k] < defs.drop_last().len());
        }
    }
}

proof fn lemma_record_tracks(st: MatchesView, i: int, v: Seq<char>)
    requires
        tracks(st),
        0 <= i < st.present.len(),
    ensures
        tracks(st.record(i, v)),
        st.record(i, v).positionals == st.positionals,
        st.record(i, v).names == st.names,
        st.record(i, v).present.len() == st.present.len(),
{
}

proof fn lemma_long_step_tracks(
    defs: Seq<ArgSpec>,
    token: Seq<char>,
    next: Option<Seq<char>>,
    auto_help: bool,
    auto_version: bool,
    st: MatchesView,
)
    requires
        tracks(st),
        defs.len() <= st.present.len(),
    ensures
        long_step(defs, token, next, auto_help, auto_version, st) matches Ok((m, _)) ==> tracks(m)
            && m.positionals == st.positionals && m.names == st.names && m.present.len()
            == st.present.len(),
{
    let key = long_key(token.skip(2));
    if let Some(i) = find_long(defs, key) {
        crate::text::lemma_first_from(defs, |a: ArgSpec| a.matches_long(key), 0);
    }
}

proof fn lemma_short_step_tracks(
    defs: Seq<ArgSpec>,
    token: Seq<char>,
    next: Option<Seq<char>>,
    auto_help: bool,
    auto_version: bool,
    st: MatchesView,
    j: int,
)
    requires
        tracks(st),
        defs.len() <= st.present.len(),
    ensures
        short_step(defs, token, next, auto_help, auto_version, st, j) matches Ok((m, _)) ==> tracks(
            m,
        ) && m.positionals == st.positionals && m.names == st.names && m.present.len()
            == st.present.len(),
    decreases token.len() - j,
{
    if 0 <= j < token.len() {
        let c = token[j];
        lemma_short_step_tracks(defs, token, next, auto_help, auto_version, MatchesView { help: true, ..st }, j + 1);
        lemma_short_step_tracks(defs, token, next, auto_help, auto_version, MatchesView { version: true, ..st }, j + 1);
        if let Some(i) = find_short(defs, c) {
            crate::text::lemma_first_from(defs, |a: ArgSpec| a.matches_short(c), 0);
            lemma_short_step_tracks(defs, token, next, auto_help, auto_version, st.record(i, "true"@), j + 1);
        }
    }
}

proof fn lemma_token_loop_tracks(
    defs: Seq<ArgSpec>,
    toks: Seq<Seq<char>>,
    auto_help: bool,
    auto_version: bool,
    cap: nat,
    ti: int,
    st: MatchesView,
    cur: int,
    only: bool,
)
    requires
        tracks(st),
        defs.len() <= st.present.len(),
        st.positionals.len() <= cap,
    ensures
        token_loop(defs, toks, auto_help, auto_version, cap, ti, st, cur, only) matches Ok(m) ==> tracks(
            m,
        ) && m.positionals.len() <= cap && m.names == st.names && m.present.len() == st.present.len(),
    decreases toks.len() + 1 - ti,
{
    if 0 <= ti < toks.len() {
        let tok = toks[ti];
        let next = if ti + 1 < toks.len() {
            Some(toks[ti + 1])
        } else {
            None
        };
        lemma_slots_in_range(defs);
        let slots = positional_slots(defs);
        if let Ok((st2, cur2)) = positional_step(slots, cap, st, cur, tok) {
            if 0 <= cur < slots.len() {
                lemma_record_tracks(MatchesView { positionals: st.positionals.push(tok), ..st }, slots[cur], tok);
            }
            lemma_token_loop_tracks(defs, toks, auto_help, auto_version, cap, ti + 1, st2, cur2, only);
        }
        lemma_token_loop_tracks(defs, toks, auto_help, auto_version, cap, ti + 1, st, cur, true);
        lemma_long_step_tracks(defs, tok, next, auto_help, auto_version, st);
        if let Ok((st2, consumed)) = long_step(defs, tok, next, auto_help, auto_version, st) {
            lemma_token_loop_tracks(defs, toks, auto_help, auto_version, cap, ti + if consumed { 2int } else { 1int }, st2, cur, only);
        }
        lemma_short_step_tracks(defs, tok, next, auto_help, auto_version, st, 1);
        if let Ok((st2, consumed)) = short_step(defs, tok, next, auto_help, auto_version, st, 1) {
            lemma_token_loop_tracks(defs, toks, auto_help, auto_version, cap, ti + if consumed { 2int } else { 1int }, st2, cur, only);
        }
    }
}

proof fn lemma_post_step_general(defs: Seq<ArgSpec>, st: MatchesView, skip: bool, i: int)
    requires
        st.entries.len() == st.present.len(),
        defs.len() <= st.present.len(),
        0 <= i,
    ensures
        post_step(defs, st, skip, i) matches Ok(m) ==> {
            &&& m.present == st.present
            &&& m.help == st.help
            &&& m.version == st.version
            &&& m.names == st.names
            &&& m.positionals == st.positionals
            &&& m.entries.len() == st.entries.len()
            &&& forall|j: int| 0 <= j < st.entries.len() && !(i <= j < defs.len() && defs[j].name.len() > 0)
                ==> #[trigger] m.entries[j] == st.entries[j]
            &&& forall|j: int|
                i <= j < defs.len() && defs[j].name.len() > 0 ==> {
                    &&& (st.present[j] ==> #[trigger] m.entries[j] == st.entries[j])
                    &&& (!st.present[j] ==> m.entries[j] == (if defs[j].default is Some { defs[j].default } else { st.entries[j] }))
                    &&& (!skip && defs[j].required && !st.present[j] ==> m.entries[j] is Some)
                    &&& (defs[j].possible is Some && m.entries[j] is Some ==> defs[j].possible->0.contains(m.entries[j]->0))
                }
        },
    decreases defs.len() - i,
{
    if i < defs.len() {
        let a = defs[i];
        if a.name.len() == 0 {
            lemma_post_step_general(defs, st, skip, i + 1);
        } else {
            let absent = !st.present[i];
            let st1 = if absent && a.default is Some {
                MatchesView { entries: st.entries.update(i, a.default), ..st }
            } else {
                st
            };
            lemma_post_step_general(defs, st1, skip, i + 1);
            assert(forall|j: int| 0 <= j < st.entries.len() && j != i ==> st1.entries[j] == st.entries[j]);
            if let Ok(m) = post_step(defs, st, skip, i) {
                assert(post_step(defs, st1, skip, i + 1) == Ok::<MatchesView, ErrorView>(m));
                assert(m.entries[i] == st1.entries[i]);
                assert forall|j: int| 0 <= j < st.entries.len() && !(i <= j < defs.len() && defs[j].name.len() > 0)
                    implies #[trigger] m.entries[j] == st.entries[j] by {
                    assert(m.entries[j] == st1.entries[j]);
                }
                assert forall|j: int| i <= j < defs.len() && defs[j].name.len() > 0 implies {
                    &&& (st.present[j] ==> #[trigger] m.entries[j] == st.entries[j])
                    &&& (!st.present[j] ==> m.entries[j] == (if defs[j].default is Some { defs[j].default } else { st.entries[j] }))
                    &&& (!skip && defs[j].required && !st.present[j] ==> m.entries[j] is Some)
                    &&& (defs[j].possible is Some && m.entries[j] is Some ==> defs[j].possible->0.contains(m.entries[j]->0))
                } by {
                    if j > i {
                        assert(st1.entries[j] == st.entries[j]);
                        assert(st1.present[j] == st.present[j]);
                    } else {
                        assert(j == i);
                        assert(m.entries[j] == st1.entries[i]);
                        if !st.present[j] {
                            assert(m.entries[j] == (if defs[j].default is Some { defs[j].default } else { st.entries[j] }));
                        } else {
                            assert(m.entries[j] == st.entries[j]);
                        }
                        if !skip && defs[j].required && !st.present[j] {
                            assert(a.default is Some);
                        }
                    }
                }
            }
        }
    }
}


/// After `--`, every remaining token is a positional value: the walk succeeds
/// exactly when the remaining tokens fit in the positional capacity, appends
/// them in order, and leaves the help and version requests as they were;
/// otherwise it fails on the first token that does not fit.
pub proof fn law_rest_is_positional(
    defs: Seq<ArgSpec>,
    toks: Seq<Seq<char>>,
    auto_help: bool,
    auto_version: bool,
    cap: nat,
    ti: int,
    st: MatchesView,
    cur: int,
)
    requires
        0 <= ti <= toks.len(),
        st.positionals.len() <= cap,
    ensures
        ({
            let r = token_loop(defs, toks, auto_help, auto_version, cap, ti, st, cur, true);
            let rest = toks.subrange(ti, toks.len() as int);
            if st.positionals.len() + rest.len() <= cap {
                r matches Ok(m) && m.positionals == st.positionals + rest && m.help == st.help
                    && m.version == st.version
            } else {
                r == Err::<MatchesView, ErrorView>(
                    ErrorView::of(ErrorKind::TooManyPositionals).token(
                        toks[ti + cap - st.positionals.len()],
                    ),
                )
            }
        }),
    decreases toks.len() - ti,
{
    let rest = toks.subrange(ti, toks.len() as int);
    if ti < toks.len() {
        let tok = toks[ti];
        if st.positionals.len() < cap {
            let st1 = MatchesView { positionals: st.positionals.push(tok), ..st };
            let slots = positional_slots(defs);
            let (st2, cur2) = if 0 <= cur < slots.len() {
                (st1.record(slots[cur], tok), cur + 1)
            } else {
                (st1, cur)
            };
            assert(positional_step(slots, cap, st, cur, tok) == Ok::<(MatchesView, int), ErrorView>((st2, cur2)));
            law_rest_is_positional(defs, toks, auto_help, auto_version, cap, ti + 1, st2, cur2);
            assert(st2.positionals == st.positionals.push(tok));
            assert(st.positionals.push(tok) + toks.subrange(ti + 1, toks.len() as int) =~= st.positionals + rest);
        }
    } else {
        assert(st.positionals + rest =~= st.positionals);
    }
}

/// What a successful parse holds, for definitions that fit the argument
/// capacity:
/// - no more positional values than the positional capacity;
/// - an argument that was seen has a value;
/// - an argument that was not seen holds its default (nothing without one);
/// - a required argument has a value, unless help or version was requested;
/// - a value of an argument with allowed values is one of them.
pub proof fn law_parse_settles(
    defs: Seq<ArgSpec>,
    toks: Seq<Seq<char>>,
    auto_help: bool,
    auto_version: bool,
    a_cap: nat,
    p_cap: nat,
)
    requires
        defs.len() <= a_cap,
    ensures
        spec_parse(defs, toks, auto_help, auto_version, a_cap, p_cap) matches Ok(m) ==> {
            &&& m.positionals.len() <= p_cap
            &&& m.names == arg_names(defs)
            &&& forall|j: int| 0 <= j < defs.len() && #[trigger] m.present[j] ==> m.entries[j] is Some
            &&& forall|j: int|
                0 <= j < defs.len() && defs[j].name.len() > 0 && !m.present[j]
                    ==> #[trigger] m.entries[j] == defs[j].default
            &&& (!m.help && !m.version) ==> forall|j: int|
                0 <= j < defs.len() && defs[j].name.len() > 0 && defs[j].required
                    ==> (#[trigger] m.entries[j]) is Some
            &&& forall|j: int|
                0 <= j < defs.len() && defs[j].name.len() > 0 && defs[j].possible is Some
                    && (#[trigger] m.entries[j]) is Some ==> defs[j].possible->0.contains(
                    m.entries[j]->0,
                )
        },
{
    let init = MatchesView::initial(arg_names(defs), a_cap);
    assert(tracks(init));
    lemma_token_loop_tracks(defs, toks, auto_help, auto_version, p_cap, 1, init, 0, false);
    if let Ok(st) = token_loop(defs, toks, auto_help, auto_version, p_cap, 1, init, 0, false) {
        let skip = st.help || st.version;
        lemma_post_step_general(defs, st, skip, 0);
        if let Ok(m) = post_step(defs, st, skip, 0) {
            assert forall|j: int| 0 <= j < defs.len() && #[trigger] m.present[j] implies m.entries[j] is Some by {
                if defs[j].name.len() > 0 {
                    assert(st.present[j] ==> m.entries[j] == st.entries[j]);
                } else {
                    assert(m.entries[j] == st.entries[j]);
                }
            }
            assert forall|j: int|
                0 <= j < defs.len() && defs[j].name.len() > 0 && !m.present[j]
                    implies #[trigger] m.entries[j] == defs[j].default by {
                assert(!st.present[j]);
                assert(st.entries[j] is None);
            }
        }
    }
}


/// Definition `i` is the one that the long key `key` selects: the first flag
/// or option whose long form is `key`.
pub open spec fn selects_long(defs: Seq<ArgSpec>, key: Seq<char>, i: int) -> bool {
    &&& 0 <= i < defs.len()
    &&& defs[i].kind != ArgKind::Positional
    &&& defs[i].long == Some(key)
    &&& forall|j: int|
        0 <= j < i ==> !(#[trigger] defs[j].kind != ArgKind::Positional && defs[j].long == Some(
            key,
        ))
}

/// Definition `i` is the one that the short character `c` selects: the
/// first flag or option whose short form is `c`.
pub open spec fn selects_short(defs: Seq<ArgSpec>, c: char, i: int) -> bool {
    &&& 0 <= i < defs.len()
    &&& c != '\0'
    &&& defs[i].kind != ArgKind::Positional
    &&& defs[i].short == c
    &&& forall|j: int|
        0 <= j < i ==> !(#[trigger] defs[j].kind != ArgKind::Positional && defs[j].short == c)
}

proof fn lemma_first_is<T>(s: Seq<T>, f: spec_fn(T) -> bool, i: int)
    requires
        0 <= i < s.len(),
        f(s[i]),
        forall|j: int| 0 <= j < i ==> !f(#[trigger] s[j]),
    ensures
        first_index(s, f) == Some(i),
{
    crate::text::lemma_first_from(s, f, 0);
}

pub(crate) proof fn lemma_selects_long(defs: Seq<ArgSpec>, key: Seq<char>, i: int)
    requires
        selects_long(defs, key, i),
    ensures
        find_long(defs, key) == Some(i),
{
    assert forall|j: int| 0 <= j < i implies !(|a: ArgSpec| a.matches_long(key))(
        #[trigger] defs[j],
    ) by {
        assert(!(defs[j].kind != ArgKind::Positional && defs[j].long == Some(key)));
    }
    lemma_first_is(defs, |a: ArgSpec| a.matches_long(key), i);
}

proof fn lemma_selects_short(defs: Seq<ArgSpec>, c: char, i: int)
    requires
        selects_short(defs, c, i),
    ensures
        find_short(defs, c) == Some(i),
{
    assert forall|j: int| 0 <= j < i implies !(|a: ArgSpec| a.matches_short(c))(
        #[trigger] defs[j],
    ) by {
        assert(!(defs[j].kind != ArgKind::Positional && defs[j].short == c));
    }
    lemma_first_is(defs, |a: ArgSpec| a.matches_short(c), i);
}

/// A long token that selects an argument already seen, which does not allow
/// duplicates, is refused with `DuplicateArgument` naming that argument,
/// whatever the token carries after `=` and whatever follows it. (Help and
/// version keys handled automatically are the parser's own and are left out.)
pub proof fn law_long_duplicate(
    defs: Seq<ArgSpec>,
    token: Seq<char>,
    next: Option<Seq<char>>,
    auto_help: bool,
    auto_version: bool,
    st: MatchesView,
    i: int,
)
    requires
        is_long_token(token),
        !(auto_help && long_key(token.skip(2)) == "help"@),
        !(auto_version && long_key(token.skip(2)) == "version"@),
        selects_long(defs, long_key(token.skip(2)), i),
        st.present[i],
        !defs[i].allow_duplicates,
    ensures
        long_step(defs, token, next, auto_help, auto_version, st) == Err::<(MatchesView, bool), ErrorView>(
            ErrorView::of(ErrorKind::DuplicateArgument).name(defs[i].name),
        ),
{
    lemma_selects_long(defs, long_key(token.skip(2)), i);
}

/// A character of a short cluster that selects an argument already seen,
/// which does not allow duplicates, is refused with `DuplicateArgument`
/// naming that argument.
pub proof fn law_short_duplicate(
    defs: Seq<ArgSpec>,
    token: Seq<char>,
    next: Option<Seq<char>>,
    auto_help: bool,
    auto_version: bool,
    st: MatchesView,
    j: int,
    i: int,
)
    requires
        0 <= j < token.len(),
        selects_short(defs, token[j], i),
        st.present[i],
        !defs[i].allow_duplicates,
    ensures
        short_step(defs, token, next, auto_help, auto_version, st, j) == Err::<
            (MatchesView, bool),
            ErrorView,
        >(ErrorView::of(ErrorKind::DuplicateArgument).name(defs[i].name)),
{
    lemma_selects_short(defs, token[j], i);
}

/// In the walk over the tokens, a long token (other than `--`, before any
/// `--`) that selects an argument already seen which does not allow
/// duplicates ends the parse with `DuplicateArgument` naming it.
pub proof fn law_walk_long_duplicate(
    defs: Seq<ArgSpec>,
    toks: Seq<Seq<char>>,
    auto_help: bool,
    auto_version: bool,
    cap: nat,
    ti: int,
    st: MatchesView,
    cur: int,
    i: int,
)
    requires
        0 <= ti < toks.len(),
        is_long_token(toks[ti]),
        toks[ti] != dashes(),
        !(auto_help && long_key(toks[ti].skip(2)) == "help"@),
        !(auto_version && long_key(toks[ti].skip(2)) == "version"@),
        selects_long(defs, long_key(toks[ti].skip(2)), i),
        st.present[i],
        !defs[i].allow_duplicates,
    ensures
        token_loop(defs, toks, auto_help, auto_version, cap, ti, st, cur, false) == Err::<
            MatchesView,
            ErrorView,
        >(ErrorView::of(ErrorKind::DuplicateArgument).name(defs[i].name)),
{
    let next = if ti + 1 < toks.len() {
        Some(toks[ti + 1])
    } else {
        None
    };
    law_long_duplicate(defs, toks[ti], next, auto_help, auto_version, st, i);
}

/// With automatic version handling, `--version` (or `--version=...`) marks
/// the version request, consumes nothing else and changes nothing else, or
/// is refused as a duplicate when the request was already made; the same
/// holds of `--help` with automatic help handling.
pub proof fn law_long_reserved(
    defs: Seq<ArgSpec>,
    token: Seq<char>,
    next: Option<Seq<char>>,
    auto_help: bool,
    auto_version: bool,
    st: MatchesView,
)
    requires
        is_long_token(token),
    ensures
        auto_help && long_key(token.skip(2)) == "help"@ ==> long_step(
            defs,
            token,
            next,
            auto_help,
            auto_version,
            st,
        ) == if st.help {
            Err::<(MatchesView, bool), ErrorView>(
                ErrorView::of(ErrorKind::DuplicateArgument).name("help"@),
            )
        } else {
            Ok((MatchesView { help: true, ..st }, false))
        },
        auto_version && long_key(token.skip(2)) == "version"@ ==> long_step(
            defs,
            token,
            next,
            auto_help,
            auto_version,
            st,
        ) == if st.version {
            Err::<(MatchesView, bool), ErrorView>(
                ErrorView::of(ErrorKind::DuplicateArgument).name("version"@),
            )
        } else {
            Ok((MatchesView { version: true, ..st }, false))
        },
{
    reveal_strlit("help");
    reveal_strlit("version");
    assert("version"@.len() != "help"@.len());
}


proof fn lemma_no_long(defs: Seq<ArgSpec>, key: Seq<char>)
    requires
        forall|j: int|
            0 <= j < defs.len() ==> !(#[trigger] defs[j].kind != ArgKind::Positional
                && defs[j].long == Some(key)),
    ensures
        find_long(defs, key) is None,
{
    crate::text::lemma_first_from(defs, |a: ArgSpec| a.matches_long(key), 0);
    if let Some(k) = find_long(defs, key) {
        assert(defs[k].matches_long(key));
    }
}

proof fn lemma_no_short(defs: Seq<ArgSpec>, c: char)
    requires
        forall|j: int|
            0 <= j < defs.len() ==> !(#[trigger] defs[j].kind != ArgKind::Positional
                && defs[j].short == c && c != '\0'),
    ensures
        find_short(defs, c) is None,
{
    crate::text::lemma_first_from(defs, |a: ArgSpec| a.matches_short(c), 0);
    if let Some(k) = find_short(defs, c) {
        assert(defs[k].matches_short(c));
    }
}

proof fn lemma_split_at_eq(after: Seq<char>, p: int)
    requires
        0 <= p < after.len(),
        after[p] == '=',
        forall|q: int| 0 <= q < p ==> after[q] != '=',
    ensures
        long_key(after) == after.take(p),
        long_inline(after) == Some(after.skip(p + 1)),
{
    lemma_first_is(after, |c: char| c == '=', p);
}

proof fn lemma_no_eq(after: Seq<char>)
    requires
        forall|q: int| 0 <= q < after.len() ==> after[q] != '=',
    ensures
        long_key(after) == after,
        long_inline(after) is None,
{
    crate::text::lemma_first_from(after, |c: char| c == '=', 0);
}

/// What a long token does to an argument it may set (one not seen yet, or
/// one that allows duplicates), with `key` the text after `--` up to the
/// first `=`:
/// - a flag is recorded with the value `true`, consuming nothing more;
/// - an option written `--key=value` takes everything after the first `=`;
/// - an option written `--key` takes the next token, or is refused with
///   `MissingValue` naming the token and the argument when there is none.
pub proof fn law_long_sets(
    defs: Seq<ArgSpec>,
    token: Seq<char>,
    next: Option<Seq<char>>,
    auto_help: bool,
    auto_version: bool,
    st: MatchesView,
    key: Seq<char>,
    i: int,
)
    requires
        is_long_token(token),
        key.len() <= token.len() - 2,
        key == token.skip(2).take(key.len() as int),
        forall|q: int| 0 <= q < key.len() ==> key[q] != '=',
        key.len() < token.len() - 2 ==> token[key.len() as int + 2] == '=',
        !(auto_help && key == "help"@),
        !(auto_version && key == "version"@),
        selects_long(defs, key, i),
        !st.present[i] || defs[i].allow_duplicates,
    ensures
        defs[i].kind == ArgKind::Flag ==> long_step(defs, token, next, auto_help, auto_version, st)
            == Ok::<(MatchesView, bool), ErrorView>((st.record(i, "true"@), false)),
        defs[i].kind == ArgKind::Option && key.len() < token.len() - 2 ==> long_step(
            defs,
            token,
            next,
            auto_help,
            auto_version,
            st,
        ) == Ok::<(MatchesView, bool), ErrorView>(
            (st.record(i, token.skip(key.len() as int + 3)), false),
        ),
        defs[i].kind == ArgKind::Option && key.len() == token.len() - 2 ==> long_step(
            defs,
            token,
            next,
            auto_help,
            auto_version,
            st,
        ) == match next {
            Some(n) => Ok::<(MatchesView, bool), ErrorView>((st.record(i, n), true)),
            None => Err(ErrorView::of(ErrorKind::MissingValue).token(token).name(defs[i].name)),
        },
{
    let after = token.skip(2);
    lemma_selects_long(defs, key, i);
    if key.len() < after.len() {
        assert(after[key.len() as int] == '=');
        assert forall|q: int| 0 <= q < key.len() implies after[q] != '=' by {
            assert(after[q] == key[q]);
        }
        lemma_split_at_eq(after, key.len() as int);
        assert(after.skip(key.len() as int + 1) =~= token.skip(key.len() as int + 3));
    } else {
        assert(key =~= after);
        lemma_no_eq(after);
    }
}

/// A long token whose key (other than the automatic `help` / `version`)
/// selects no flag or option is refused with `UnknownArgument` naming the
/// token.
pub proof fn law_long_unknown(
    defs: Seq<ArgSpec>,
    token: Seq<char>,
    next: Option<Seq<char>>,
    auto_help: bool,
    auto_version: bool,
    st: MatchesView,
)
    requires
        is_long_token(token),
        !(auto_help && long_key(token.skip(2)) == "help"@),
        !(auto_version && long_key(token.skip(2)) == "version"@),
        forall|j: int|
            0 <= j < defs.len() ==> !(#[trigger] defs[j].kind != ArgKind::Positional
                && defs[j].long == Some(long_key(token.skip(2)))),
    ensures
        long_step(defs, token, next, auto_help, auto_version, st) == Err::<(MatchesView, bool), ErrorView>(
            ErrorView::of(ErrorKind::UnknownArgument).token(token),
        ),
{
    lemma_no_long(defs, long_key(token.skip(2)));
}

/// What a character of a short cluster does to an argument it may set:
/// - a flag is recorded with the value `true`, and the cluster goes on with
///   the next character;
/// - an option followed by more characters takes them all as its value;
/// - an option ending the cluster takes the next token, or is refused with
///   `MissingValue` naming the token and the argument when there is none.
pub proof fn law_short_sets(
    defs: Seq<ArgSpec>,
    token: Seq<char>,
    next: Option<Seq<char>>,
    auto_help: bool,
    auto_version: bool,
    st: MatchesView,
    j: int,
    i: int,
)
    requires
        0 <= j < token.len(),
        selects_short(defs, token[j], i),
        !st.present[i] || defs[i].allow_duplicates,
    ensures
        defs[i].kind == ArgKind::Flag ==> short_step(defs, token, next, auto_help, auto_version, st, j)
            == short_step(defs, token, next, auto_help, auto_version, st.record(i, "true"@), j + 1),
        defs[i].kind == ArgKind::Option && j + 1 < token.len() ==> short_step(
            defs,
            token,
            next,
            auto_help,
            auto_version,
            st,
            j,
        ) == Ok::<(MatchesView, bool), ErrorView>((st.record(i, token.skip(j + 1)), false)),
        defs[i].kind == ArgKind::Option && j + 1 == token.len() ==> short_step(
            defs,
            token,
            next,
            auto_help,
            auto_version,
            st,
            j,
        ) == match next {
            Some(n) => Ok::<(MatchesView, bool), ErrorView>((st.record(i, n), true)),
            None => Err(ErrorView::of(ErrorKind::MissingValue).token(token).name(defs[i].name)),
        },
{
    lemma_selects_short(defs, token[j], i);
}

/// A character of a short cluster that selects no flag or option, and is not
/// the automatic `h` / `V`, is refused with `UnknownArgument` naming the
/// token; a cluster that runs out of characters changes nothing more.
pub proof fn law_short_unknown(
    defs: Seq<ArgSpec>,
    token: Seq<char>,
    next: Option<Seq<char>>,
    auto_help: bool,
    auto_version: bool,
    st: MatchesView,
    j: int,
)
    ensures
        j >= token.len() ==> short_step(defs, token, next, auto_help, auto_version, st, j) == Ok::<
            (MatchesView, bool),
            ErrorView,
        >((st, false)),
        0 <= j < token.len() && !(auto_help && token[j] == 'h') && !(auto_version && token[j]
            == 'V') && (forall|k: int|
            0 <= k < defs.len() ==> !(#[trigger] defs[k].kind != ArgKind::Positional
                && defs[k].short == token[j] && token[j] != '\0')) ==> short_step(
            defs,
            token,
            next,
            auto_help,
            auto_version,
            st,
            j,
        ) == Err::<(MatchesView, bool), ErrorView>(
            ErrorView::of(ErrorKind::UnknownArgument).token(token),
        ),
{
    if 0 <= j < token.len() && (forall|k: int|
        0 <= k < defs.len() ==> !(#[trigger] defs[k].kind != ArgKind::Positional && defs[k].short
            == token[j] && token[j] != '\0')) {
        lemma_no_short(defs, token[j]);
    }
}

/// How the walk treats a token before any `--`: a word not starting with `-`
/// is the next positional value (refused with `TooManyPositionals` when the
/// positional capacity is full); `--` turns every later token into a
/// positional value; a lone `-` is refused with `EmptyFlag`.
pub proof fn law_walk_token(
    defs: Seq<ArgSpec>,
    toks: Seq<Seq<char>>,
    auto_help: bool,
    auto_version: bool,
    cap: nat,
    ti: int,
    st: MatchesView,
    cur: int,
)
    requires
        0 <= ti < toks.len(),
    ensures
        !(toks[ti].len() > 0 && toks[ti][0] == '-') && st.positionals.len() >= cap ==> token_loop(
            defs,
            toks,
            auto_help,
            auto_version,
            cap,
            ti,
            st,
            cur,
            false,
        ) == Err::<MatchesView, ErrorView>(
            ErrorView::of(ErrorKind::TooManyPositionals).token(toks[ti]),
        ),
        !(toks[ti].len() > 0 && toks[ti][0] == '-') && st.positionals.len() < cap ==> (token_loop(
            defs,
            toks,
            auto_help,
            auto_version,
            cap,
            ti,
            st,
            cur,
            false,
        ) matches Ok(m) ==> m.positionals.len() > st.positionals.len()
            && m.positionals[st.positionals.len() as int] == toks[ti]),
        toks[ti] == "--"@ ==> token_loop(defs, toks, auto_help, auto_version, cap, ti, st, cur, false)
            == token_loop(defs, toks, auto_help, auto_version, cap, ti + 1, st, cur, true),
        toks[ti] == "-"@ ==> token_loop(defs, toks, auto_help, auto_version, cap, ti, st, cur, false)
            == Err::<MatchesView, ErrorView>(ErrorView::of(ErrorKind::EmptyFlag).token(toks[ti])),
{
    reveal_strlit("--");
    reveal_strlit("-");
    let tok = toks[ti];
    if !(tok.len() > 0 && tok[0] == '-') && st.positionals.len() < cap {
        let slots = positional_slots(defs);
        if let Ok((st2, cur2)) = positional_step(slots, cap, st, cur, tok) {
            lemma_walk_keeps_positionals(defs, toks, auto_help, auto_version, cap, ti + 1, st2, cur2, false);
            assert(st2.positionals == st.positionals.push(tok));
            if let Ok(m) = token_loop(defs, toks, auto_help, auto_version, cap, ti + 1, st2, cur2, false) {
                assert(m.positionals.take(st2.positionals.len() as int)[st.positionals.len() as int]
                    == tok);
            }
        }
    }
    if tok == "--"@ {
        assert(tok =~= dashes());
    }
}

/// The walk only ever adds positional values after those it started with.
proof fn lemma_walk_keeps_positionals(
    defs: Seq<ArgSpec>,
    toks: Seq<Seq<char>>,
    auto_help: bool,
    auto_version: bool,
    cap: nat,
    ti: int,
    st: MatchesView,
    cur: int,
    only: bool,
)
    ensures
        token_loop(defs, toks, auto_help, auto_version, cap, ti, st, cur, only) matches Ok(m)
            ==> m.positionals.len() >= st.positionals.len() && m.positionals.take(
            st.positionals.len() as int,
        ) == st.positionals,
    decreases toks.len() + 1 - ti,
{
    if 0 <= ti < toks.len() {
        let tok = toks[ti];
        let next = if ti + 1 < toks.len() {
            Some(toks[ti + 1])
        } else {
            None
        };
        let slots = positional_slots(defs);
        if let Ok((st2, cur2)) = positional_step(slots, cap, st, cur, tok) {
            lemma_walk_keeps_positionals(defs, toks, auto_help, auto_version, cap, ti + 1, st2, cur2, only);
            if let Ok(m) = token_loop(defs, toks, auto_help, auto_version, cap, ti + 1, st2, cur2, only) {
                assert(st2.positionals == st.positionals.push(tok));
                assert(m.positionals.take(st.positionals.len() as int) =~= m.positionals.take(
                    st2.positionals.len() as int,
                ).take(st.positionals.len() as int));
            }
        }
        lemma_walk_keeps_positionals(defs, toks, auto_help, auto_version, cap, ti + 1, st, cur, true);
        lemma_long_step_positionals(defs, tok, next, auto_help, auto_version, st);
        if let Ok((st2, consumed)) = long_step(defs, tok, next, auto_help, auto_version, st) {
            lemma_walk_keeps_positionals(defs, toks, auto_help, auto_version, cap, ti + if consumed { 2int } else { 1int }, st2, cur, only);
        }
        lemma_short_step_positionals(defs, tok, next, auto_help, auto_version, st, 1);
        if let Ok((st2, consumed)) = short_step(defs, tok, next, auto_help, auto_version, st, 1) {
            lemma_walk_keeps_positionals(defs, toks, auto_help, auto_version, cap, ti + if consumed { 2int } else { 1int }, st2, cur, only);
        }
    }
}

proof fn lemma_long_step_positionals(
    defs: Seq<ArgSpec>,
    token: Seq<char>,
    next: Option<Seq<char>>,
    auto_help: bool,
    auto_version: bool,
    st: MatchesView,
)
    ensures
        long_step(defs, token, next, auto_help, auto_version, st) matches Ok((m, _))
            ==> m.positionals == st.positionals,
{
}

proof fn lemma_short_step_positionals(
    defs: Seq<ArgSpec>,
    token: Seq<char>,
    next: Option<Seq<char>>,
    auto_help: bool,
    auto_version: bool,
    st: MatchesView,
    j: int,
)
    ensures
        short_step(defs, token, next, auto_help, auto_version, st, j) matches Ok((m, _))
            ==> m.positionals == st.positionals,
    decreases token.len() - j,
{
    if 0 <= j < token.len() {
        let c = token[j];
        lemma_short_step_positionals(defs, token, next, auto_help, auto_version, MatchesView { help: true, ..st }, j + 1);
        lemma_short_step_positionals(defs, token, next, auto_help, auto_version, MatchesView { version: true, ..st }, j + 1);
        if let Some(i) = find_short(defs, c) {
            lemma_short_step_positionals(defs, token, next, auto_help, auto_version, st.record(i, "true"@), j + 1);
        }
    }
}

} // verus!
