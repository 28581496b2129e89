//! Help formatter outputs help in a predefined pretty format with padding,
//! option names and default values.
//!
//! Text goes into a [`HelpFormatter`], a sink over a caller-supplied byte
//! buffer. Each piece of text is written whole or not at all; the first piece
//! that does not fit ends the writing with [`FmtError`]. The bytes of the
//! buffer after those written are never touched, and a reset keeps them.
use vstd::prelude::*;
use vstd::string::StrSliceExecFns;
use vstd::utf8::{encode_scalar, encode_utf8, valid_utf8};
use crate::arg::{arg_specs, Arg, ArgKind, ArgSpec};
use crate::error::{message_pieces, ParseError};
use crate::parser::{SubCommand, SubSpec};
use crate::text::{opt_str, opt_strs, strs};

verus! {

broadcast use crate::arg::lemma_arg_view, crate::parser::lemma_sub_view;

/// The text did not fit in the formatter's buffer.
#[derive(Debug, Clone, Copy, PartialEq, Eq, Structural)]
pub struct FmtError;

/// What a [`HelpFormatter`] holds: the bytes written so far and, after them,
/// the rest of the buffer as it stands, untouched by the writes.
pub struct SinkView {
    pub written: Seq<u8>,
    pub rest: Seq<u8>,
}

impl SinkView {
    /// The size of the buffer.
    pub open spec fn capacity(self) -> nat {
        self.written.len() + self.rest.len()
    }

    /// All the bytes of the buffer.
    pub open spec fn buffer(self) -> Seq<u8> {
        self.written + self.rest
    }
}

/// Writing the bytes `b` whole over the start of the rest, if they fit; the
/// flag tells whether they did. The bytes after them stay as they were.
pub open spec fn emit_bytes(w: SinkView, b: Seq<u8>) -> (SinkView, bool) {
    if b.len() <= w.rest.len() {
        (SinkView { written: w.written + b, rest: w.rest.skip(b.len() as int) }, true)
    } else {
        (w, false)
    }
}

/// Writing the pieces of text in order, each as UTF-8, up to the first one
/// that does not fit; the flag tells whether all of them were written.
pub open spec fn emit(w: SinkView, pieces: Seq<Seq<char>>) -> (SinkView, bool)
    decreases pieces.len(),
{
    if pieces.len() == 0 {
        (w, true)
    } else {
        let (w1, ok) = emit_bytes(w, encode_utf8(pieces[0]));
        if ok {
            emit(w1, pieces.drop_first())
        } else {
            (w1, false)
        }
    }
}

/// Writing `a` then `b` is writing `a + b`.
pub broadcast proof fn lemma_emit_concat(w: SinkView, a: Seq<Seq<char>>, b: Seq<Seq<char>>)
    ensures
        #[trigger] emit(w, a + b) == if emit(w, a).1 {
            emit(emit(w, a).0, b)
        } else {
            emit(w, a)
        },
    decreases a.len(),
{
    if a.len() == 0 {
        assert(a + b =~= b);
    } else {
        assert((a + b).drop_first() =~= a.drop_first() + b);
        lemma_emit_concat(emit_bytes(w, encode_utf8(a[0])).0, a.drop_first(), b);
    }
}

/// Writing one piece.
pub broadcast proof fn lemma_emit_one(w: SinkView, s: Seq<char>)
    ensures
        #[trigger] emit(w, seq![s]) == emit_bytes(w, encode_utf8(s)),
{
    assert(seq![s].drop_first() =~= Seq::<Seq<char>>::empty());
    let e = emit_bytes(w, encode_utf8(s));
    assert(emit(e.0, Seq::<Seq<char>>::empty()) == (e.0, true));
}

/// Writing no piece.
pub broadcast proof fn lemma_emit_none(w: SinkView)
    ensures
        #[trigger] emit(w, Seq::<Seq<char>>::empty()) == (w, true),
{
}

pub broadcast group group_emit {
    lemma_emit_concat,
    lemma_emit_one,
    lemma_emit_none,
}

/// `core::str::from_utf8`: the bytes read as a string slice when they are
/// valid UTF-8, and nothing otherwise. The contract claims that `from_utf8`
/// succeeds exactly on valid UTF-8 and hands back the same bytes as text.
#[verifier::external_body]
fn utf8_str<'b>(bytes: &'b [u8]) -> (r: Option<&'b str>)
    ensures
        r is Some <==> valid_utf8(bytes@),
        r matches Some(s) ==> encode_utf8(s@) == bytes@,
{
    core::str::from_utf8(bytes).ok()
}

/// The UTF-8 encoding of `c`, in the first `n` bytes of the array.
fn encode_char(c: char) -> (r: ([u8; 4], usize))
    ensures
        r.1 <= 4,
        r.0@.take(r.1 as int) == encode_scalar(c as u32),
{
    let v = c as u32;
    proof {
        vstd::utf8::char_is_scalar(c);
    }
    if v <= 0x7F {
        let r = ([(v & 0x7F) as u8, 0, 0, 0], 1);
        assert(r.0@.take(1) =~= encode_scalar(v));
        r
    } else if v <= 0x7FF {
        let r = ([0xC0 | ((v >> 6) & 0x1F) as u8, 0x80 | (v & 0x3F) as u8, 0, 0], 2);
        assert(r.0@.take(2) =~= encode_scalar(v));
        r
    } else if v <= 0xFFFF {
        let r = (
            [
                0xE0 | ((v >> 12) & 0x0F) as u8,
                0x80 | ((v >> 6) & 0x3F) as u8,
                0x80 | (v & 0x3F) as u8,
                0,
            ],
            3,
        );
        assert(r.0@.take(3) =~= encode_scalar(v));
        r
    } else {
        let r = (
            [
                0xF0 | ((v >> 18) & 0x7) as u8,
                0x80 | ((v >> 12) & 0x3F) as u8,
                0x80 | ((v >> 6) & 0x3F) as u8,
                0x80 | (v & 0x3F) as u8,
            ],
            4,
        );
        assert(r.0@.take(4) =~= encode_scalar(v));
        r
    }
}

/// A sink over a caller-supplied `&mut [u8]`.
///
/// Writes past the end of the buffer return [`FmtError`].
pub struct HelpFormatter<'a> {
    buf: &'a mut [u8],
    pos: usize,
}

impl<'a> View for HelpFormatter<'a> {
    type V = SinkView;

    closed spec fn view(&self) -> SinkView {
        let p = if self.pos <= self.buf@.len() {
            self.pos as int
        } else {
            self.buf@.len() as int
        };
        SinkView { written: self.buf@.take(p), rest: self.buf@.skip(p) }
    }
}

impl<'a> HelpFormatter<'a> {
    #[verifier::type_invariant]
    spec fn inv(self) -> bool {
        self.pos <= self.buf@.len()
    }

    /// The caller's buffer, as the formatter borrows it.
    pub closed spec fn borrowed(&self) -> &'a mut [u8] {
        self.buf
    }

    /// Once a formatter is finished with, the caller's buffer holds the
    /// formatter's bytes: those written, then the untouched rest.
    pub broadcast proof fn lemma_finished(f: HelpFormatter<'a>)
        ensures
            #[trigger] has_resolved(f) ==> final(f.borrowed())@ == f@.buffer(),
    {
        assert(f@.buffer() =~= f.buf@);
        if has_resolved(f) {
            assert(has_resolved(f.buf));
        }
    }

    /// Wraps a provided buffer. The buffer's full length becomes the formatter's capacity
    pub fn new(buf: &'a mut [u8]) -> (r: Self)
        ensures
            r@ == (SinkView { written: Seq::empty(), rest: old(buf)@ }),
            final(r.borrowed())@ == final(buf)@,
    {
        let r = Self { buf, pos: 0 };
        assert(r@.written =~= Seq::<u8>::empty());
        assert(r@.rest =~= old(buf)@);
        r
    }

    pub fn len(&self) -> (r: usize)
        ensures
            r == self@.written.len(),
    {
        proof {
            use_type_invariant(self);
        }
        self.pos
    }

    pub fn is_empty(&self) -> (r: bool)
        ensures
            r == (self@.written.len() == 0),
    {
        proof {
            use_type_invariant(self);
        }
        self.pos == 0
    }

    pub fn capacity(&self) -> (r: usize)
        ensures
            r == self@.capacity(),
    {
        proof {
            use_type_invariant(self);
        }
        self.buf.len()
    }

    pub fn remaining(&self) -> (r: usize)
        ensures
            r == self@.rest.len(),
    {
        proof {
            use_type_invariant(self);
        }
        self.buf.len() - self.pos
    }

    /// Returns the written bytes as `&str`. Panics if they are not valid UTF-8
    pub fn as_str(&self) -> (r: &str)
        requires
            valid_utf8(self@.written),
        ensures
            encode_utf8(r@) == self@.written,
    {
        proof {
            use_type_invariant(self);
        }
        match utf8_str(&self.buf[0..self.pos]) {
            Some(s) => s,
            None => unreached(),
        }
    }

    pub fn as_bytes(&self) -> (r: &[u8])
        ensures
            r@ == self@.written,
    {
        proof {
            use_type_invariant(self);
        }
        &self.buf[0..self.pos]
    }

    /// Resets the write position to zero. Buffer contents are not cleared
    pub fn reset(&mut self)
        ensures
            final(self)@ == (SinkView { written: Seq::empty(), rest: old(self)@.buffer() }),
            final(final(self).borrowed())@ == final(old(self).borrowed())@,
    {
        proof {
            use_type_invariant(&*self);
        }
        self.pos = 0;
        assert(self@.written =~= Seq::<u8>::empty());
        assert(self@.rest =~= old(self)@.buffer());
    }

    /// Appends one byte. Errors if the buffer is full
    pub fn write_byte(&mut self, b: u8) -> (r: Result<(), FmtError>)
        ensures
            (final(self)@, r is Ok) == emit_bytes(old(self)@, seq![b]),
            final(final(self).borrowed())@ == final(old(self).borrowed())@,
    {
        proof {
            use_type_invariant(&*self);
        }
        if self.pos >= self.buf.len() {
            return Err(FmtError);
        }
        let p = self.pos;
        self.buf[p] = b;
        self.pos = p + 1;
        assert(self@.written =~= old(self)@.written + seq![b]);
        assert(self@.rest =~= old(self)@.rest.skip(1));
        Ok(())
    }

    /// Appends `bytes`. Errors if the buffer can't fit them
    pub fn write_bytes(&mut self, bytes: &[u8]) -> (r: Result<(), FmtError>)
        ensures
            final(final(self).borrowed())@ == final(old(self).borrowed())@,
            (final(self)@, r is Ok) == emit_bytes(old(self)@, bytes@),
    {
        proof {
            use_type_invariant(&*self);
        }
        if bytes.len() > self.buf.len() - self.pos {
            return Err(FmtError);
        }
        let start = self.pos;
        let cap = self.buf.len();
        let mut k: usize = 0;
        while k < bytes.len()
            invariant
                final(self.borrowed())@ == final(old(self).borrowed())@,
                start + bytes@.len() <= cap,
                cap == self.buf@.len(),
                self.pos == start,
                start == old(self).pos,
                self.buf@.len() == old(self).buf@.len(),
                k <= bytes@.len(),
                forall|j: int| 0 <= j < start ==> self.buf@[j] == old(self).buf@[j],
                forall|j: int| start + k <= j < cap ==> self.buf@[j] == old(self).buf@[j],
                forall|j: int| 0 <= j < k ==> self.buf@[start + j] == bytes@[j],
            decreases bytes@.len() - k,
        {
            self.buf[start + k] = bytes[k];
            k += 1;
        }
        self.pos = start + bytes.len();
        assert(self@.written =~= old(self)@.written + bytes@);
        assert(self@.rest =~= old(self)@.rest.skip(bytes@.len() as int));
        Ok(())
    }

    /// Appends the text `s`. Errors if the buffer can't fit it
    pub fn write_str(&mut self, s: &str) -> (r: Result<(), FmtError>)
        ensures
            final(final(self).borrowed())@ == final(old(self).borrowed())@,
            (final(self)@, r is Ok) == emit(old(self)@, seq![s@]),
    {
        proof {
            lemma_emit_one(self@, s@);
        }
        self.write_bytes(s.as_bytes())
    }

    /// Appends the character `c`. Errors if the buffer can't fit it
    pub fn write_char(&mut self, c: char) -> (r: Result<(), FmtError>)
        ensures
            final(final(self).borrowed())@ == final(old(self).borrowed())@,
            (final(self)@, r is Ok) == emit(old(self)@, seq![seq![c]]),
    {
        proof {
            lemma_emit_one(self@, seq![c]);
            assert(seq![c].drop_first() =~= Seq::<char>::empty());
            assert(encode_utf8(Seq::<char>::empty()) =~= Seq::<u8>::empty());
            assert(encode_utf8(seq![c]) =~= encode_scalar(c as u32));
        }
        let (bytes, n) = encode_char(c);
        self.write_bytes(&bytes[0..n])
    }
}

/// The pieces of a usage line.
pub open spec fn usage_pieces(program_name: Seq<char>, has_options: bool, has_args: bool) -> Seq<
    Seq<char>,
> {
    seq!["Usage: "@] + seq![program_name] + (if has_options {
        seq![" [OPTIONS]"@]
    } else {
        Seq::empty()
    }) + (if has_args {
        seq![" [ARGS]"@]
    } else {
        Seq::empty()
    })
}

/// Writes a simple usage line.
pub fn write_usage(
    program_name: &str,
    has_options: bool,
    has_args: bool,
    w: &mut HelpFormatter,
) -> (r: Result<(), FmtError>)
    ensures
        final(final(w).borrowed())@ == final(old(w).borrowed())@,
        (final(w)@, r is Ok) == emit(old(w)@, usage_pieces(program_name@, has_options, has_args)),
{
    broadcast use group_emit;

    w.write_str("Usage: ")?;
    w.write_str(program_name)?;
    if has_options {
        w.write_str(" [OPTIONS]")?;
    }
    if has_args {
        w.write_str(" [ARGS]")?;
    }
    Ok(())
}

/// The pieces of a version string.
pub open spec fn version_pieces(program_name: Seq<char>, version: Seq<char>) -> Seq<Seq<char>> {
    seq![program_name] + seq![" "@] + seq![version]
}

/// Writes a version string.
pub fn write_version(program_name: &str, version: &str, w: &mut HelpFormatter) -> (r: Result<
    (),
    FmtError,
>)
    ensures
        final(final(w).borrowed())@ == final(old(w).borrowed())@,
        (final(w)@, r is Ok) == emit(old(w)@, version_pieces(program_name@, version@)),
{
    broadcast use group_emit;

    w.write_str(program_name)?;
    w.write_str(" ")?;
    w.write_str(version)
}

const SPACES: &'static str = "                                ";

/// `n` spaces.
pub open spec fn spaces(n: nat) -> Seq<char> {
    Seq::new(n, |i: int| ' ')
}

/// `n` spaces, written in chunks of at most 32.
pub open spec fn space_pieces(n: nat) -> Seq<Seq<char>>
    decreases n,
{
    if n == 0 {
        Seq::empty()
    } else {
        let c: nat = if n < 32 {
            n
        } else {
            32
        };
        seq![spaces(c)] + space_pieces((n - c) as nat)
    }
}

/// How many spaces pad from column `current` to column `target`: at least 2.
pub open spec fn pad_width(current: int, target: int) -> nat {
    if current >= target {
        2
    } else {
        (target - current) as nat
    }
}

/// The pieces of the padding from column `current` to column `target`.
pub open spec fn padding(current: int, target: int) -> Seq<Seq<char>> {
    space_pieces(pad_width(current, target))
}

/// Writes spaces to pad from `current_col` to `target_col`.
///
/// Always emits at least 2 spaces (when already at or past `target_col`),
/// so adjacent text never abuts.
pub fn write_padding(w: &mut HelpFormatter, current_col: usize, target_col: usize) -> (r: Result<
    (),
    FmtError,
>)
    ensures
        final(final(w).borrowed())@ == final(old(w).borrowed())@,
        (final(w)@, r is Ok) == emit(old(w)@, padding(current_col as int, target_col as int)),
{
    broadcast use group_emit;

    let mut n: usize = if current_col >= target_col {
        2
    } else {
        target_col - current_col
    };
    proof {
        reveal_strlit("                                ");
        assert(SPACES@ =~= spaces(32));
    }
    while n > 0
        invariant
            final(w.borrowed())@ == final(old(w).borrowed())@,
            SPACES@ == spaces(32),
            vstd::string::is_ascii(SPACES),
            emit(old(w)@, padding(current_col as int, target_col as int)) == emit(
                w@,
                space_pieces(n as nat),
            ),
        decreases n,
    {
        let chunk = if n < SPACES.unicode_len() {
            n
        } else {
            SPACES.unicode_len()
        };
        let piece = SPACES.substring_ascii(0, chunk);
        assert(piece@ =~= spaces(chunk as nat));
        assert(space_pieces(n as nat) == seq![piece@] + space_pieces((n - chunk) as nat));
        proof {
            lemma_emit_concat(w@, seq![piece@], space_pieces((n - chunk) as nat));
        }
        w.write_str(piece)?;
        n -= chunk;
    }
    Ok(())
}

/// Display width of `s` in monospace cells.
///
/// Assumes one cell per Unicode scalar value. Does not consult East Asian
/// width data, so CJK and other wide characters undercount.
fn display_width(s: &str) -> (r: usize)
    ensures
        r == s@.len(),
{
    s.unicode_len()
}

/// The summed widths of `vs`.
pub open spec fn total_width(vs: Seq<Seq<char>>) -> nat
    decreases vs.len(),
{
    if vs.len() == 0 {
        0
    } else {
        total_width(vs.drop_last()) + vs.last().len()
    }
}

/// The width of `vs` joined by a one-cell separator.
pub open spec fn joined_width(vs: Seq<Seq<char>>) -> nat {
    total_width(vs) + if vs.len() > 0 {
        (vs.len() - 1) as nat
    } else {
        0
    }
}

/// Joined display width of `values` separated by `|`, saturating at `usize::MAX`.
fn possible_joined_width(values: &[&str]) -> (r: usize)
    ensures
        r == if joined_width(strs(values@)) <= usize::MAX {
            joined_width(strs(values@))
        } else {
            usize::MAX as nat
        },
{
    let ghost vs = strs(values@);
    let sep = values.len().saturating_sub(1);
    let mut inner: usize = 0;
    let mut i: usize = 0;
    while i < values.len()
        invariant
            i <= values@.len(),
            vs == strs(values@),
            inner == if total_width(vs.take(i as int)) <= usize::MAX {
                total_width(vs.take(i as int))
            } else {
                usize::MAX as nat
            },
        decreases values@.len() - i,
    {
        assert(vs.take(i + 1).drop_last() =~= vs.take(i as int));
        inner = inner.saturating_add(display_width(values[i]));
        i += 1;
    }
    assert(vs.take(i as int) =~= vs);
    inner.saturating_add(sep)
}

const POSSIBLE_INLINE_BUDGET: usize = 16;

/// The pieces of `vs` with `sep` between neighbours, from element `i` on.
pub open spec fn join_from(vs: Seq<Seq<char>>, sep: Seq<char>, i: int) -> Seq<Seq<char>>
    decreases vs.len() - i,
{
    if i < 0 || i >= vs.len() {
        Seq::empty()
    } else {
        (if i > 0 {
            seq![sep]
        } else {
            Seq::empty()
        }) + seq![vs[i]] + join_from(vs, sep, i + 1)
    }
}

/// The pieces of `vs` with `sep` between neighbours.
pub open spec fn join_pieces(vs: Seq<Seq<char>>, sep: Seq<char>) -> Seq<Seq<char>> {
    join_from(vs, sep, 0)
}

/// Writes `values` with `sep` between neighbours.
pub(crate) fn write_joined(w: &mut HelpFormatter, values: &[&str], sep: &str) -> (r: Result<(), FmtError>)
    ensures
        final(final(w).borrowed())@ == final(old(w).borrowed())@,
        (final(w)@, r is Ok) == emit(old(w)@, join_pieces(strs(values@), sep@)),
{
    broadcast use group_emit;

    let ghost vs = strs(values@);
    let mut i: usize = 0;
    while i < values.len()
        invariant
            final(w.borrowed())@ == final(old(w).borrowed())@,
            i <= values@.len(),
            vs == strs(values@),
            emit(old(w)@, join_pieces(vs, sep@)) == emit(w@, join_from(vs, sep@, i as int)),
        decreases values@.len() - i,
    {
        assert(join_from(vs, sep@, i as int) == (if i > 0 {
            seq![sep@]
        } else {
            Seq::empty()
        }) + seq![values@[i as int]@] + join_from(vs, sep@, i + 1));
        proof {
            let head: Seq<Seq<char>> = if i > 0 {
                seq![sep@]
            } else {
                Seq::empty()
            };
            lemma_emit_concat(w@, head + seq![values@[i as int]@], join_from(vs, sep@, i + 1));
            lemma_emit_concat(w@, head, seq![values@[i as int]@]);
        }
        if i > 0 {
            w.write_str(sep)?;
        }
        w.write_str(values[i])?;
        i += 1;
    }
    Ok(())
}

/// The allowed values shown inline in place of the placeholder, when they
/// are short enough.
pub open spec fn inline_possible(a: ArgSpec) -> Option<Seq<Seq<char>>> {
    match a.possible {
        Some(vs) => if joined_width(vs) <= 16 {
            Some(vs)
        } else {
            None
        },
        None => None,
    }
}

/// The column reached on an option line before its padding.
pub open spec fn option_line_col(a: ArgSpec) -> int {
    4 + (if a.short != '\0' {
        2 + if a.long is Some {
            2int
        } else {
            0int
        }
    } else {
        4int
    }) + (match a.long {
        Some(l) => 2 + l.len() as int,
        None => 0int,
    }) + (if a.kind == ArgKind::Option {
        3 + match inline_possible(a) {
            Some(vs) => joined_width(vs) as int,
            None => a.meta.len() as int,
        }
    } else {
        0int
    })
}

/// The pieces of the notes after an argument's help text.
pub open spec fn notes_pieces(a: ArgSpec, show_default: bool, show_possible: bool) -> Seq<
    Seq<char>,
> {
    (match a.help {
        Some(h) => seq![h] + seq![" "@],
        None => Seq::empty(),
    }) + (if a.required {
        seq!["[required]"@]
    } else {
        Seq::empty()
    }) + (if show_default && a.default is Some {
        seq!["[default: "@] + seq![a.default->0] + seq!["]"@]
    } else {
        Seq::empty()
    }) + (if show_possible && a.possible is Some {
        seq!["[possible: "@] + join_pieces(a.possible->0, ", "@) + seq!["]"@]
    } else {
        Seq::empty()
    })
}

/// The pieces of an option/flag line in help output.
pub open spec fn option_line_pieces(a: ArgSpec) -> Seq<Seq<char>> {
    seq!["    "@] + (if a.short != '\0' {
        seq!["-"@] + seq![seq![a.short]] + (if a.long is Some {
            seq![", "@]
        } else {
            Seq::empty()
        })
    } else {
        seq!["    "@]
    }) + (match a.long {
        Some(l) => seq!["--"@] + seq![l],
        None => Seq::empty(),
    }) + (if a.kind == ArgKind::Option {
        seq![" <"@] + (match inline_possible(a) {
            Some(vs) => join_pieces(vs, "|"@),
            None => seq![a.meta],
        }) + seq![">"@]
    } else {
        Seq::empty()
    }) + padding(option_line_col(a), 28) + notes_pieces(a, true, inline_possible(a) is None) + seq![
        "\n"@,
    ]
}

/// Writes an argument's help text and notes: required, default, allowed values.
fn write_notes(w: &mut HelpFormatter, arg: &Arg<'_>, show_default: bool, show_possible: bool) -> (r:
    Result<(), FmtError>)
    ensures
        final(final(w).borrowed())@ == final(old(w).borrowed())@,
        (final(w)@, r is Ok) == emit(old(w)@, notes_pieces(arg@, show_default, show_possible)),
{
    broadcast use group_emit;

    if let Some(help) = arg.help {
        w.write_str(help)?;
        w.write_str(" ")?;
    }
    if arg.is_required() {
        w.write_str("[required]")?;
    }
    if show_default {
        if let Some(default) = arg.default {
            w.write_str("[default: ")?;
            w.write_str(default)?;
            w.write_str("]")?;
        }
    }
    if show_possible {
        if let Some(values) = arg.possible {
            w.write_str("[possible: ")?;
            write_joined(w, values, ", ")?;
            w.write_str("]")?;
        }
    }
    Ok(())
}

/// `x`, saturated at `usize::MAX`.
pub open spec fn saturated(x: int) -> int {
    if x <= usize::MAX {
        x
    } else {
        usize::MAX as int
    }
}

/// Formats a single option/flag line in help output.
pub fn format_option_line(w: &mut HelpFormatter, arg: &Arg<'_>) -> (r: Result<(), FmtError>)
    ensures
        final(final(w).borrowed())@ == final(old(w).borrowed())@,
        (final(w)@, r is Ok) == emit(old(w)@, option_line_pieces(arg@)),
{
    broadcast use group_emit;

    w.write_str("    ")?;
    let mut col: usize = 4;
    if arg.short != '\0' {
        w.write_str("-")?;
        w.write_char(arg.short)?;
        col = col + 2;
        if arg.long.is_some() {
            w.write_str(", ")?;
            col = col + 2;
        }
    } else {
        w.write_str("    ")?;
        col = col + 4;
    }
    if let Some(long) = arg.long {
        w.write_str("--")?;
        w.write_str(long)?;
        col = (col + 2).saturating_add(display_width(long));
    }
    let inline = match arg.possible {
        Some(values) => if possible_joined_width(values) <= POSSIBLE_INLINE_BUDGET {
            Some(values)
        } else {
            None
        },
        None => None,
    };
    assert(opt_strs(inline) == inline_possible(arg@));
    if arg.kind.is_option() {
        w.write_str(" <")?;
        if let Some(values) = inline {
            write_joined(w, values, "|")?;
            col = col.saturating_add(3).saturating_add(possible_joined_width(values));
        } else {
            w.write_str(arg.meta)?;
            col = col.saturating_add(3).saturating_add(display_width(arg.meta));
        }
        w.write_str(">")?;
    }
    assert(col as int == saturated(option_line_col(arg@)));
    assert(padding(col as int, 28) == padding(option_line_col(arg@), 28));
    write_padding(w, col, 28)?;
    write_notes(w, arg, true, inline.is_none())?;
    w.write_str("\n")
}

/// Some argument is a flag or an option.
pub open spec fn has_named(args: Seq<ArgSpec>) -> bool {
    exists|i: int| 0 <= i < args.len() && args[i].kind != ArgKind::Positional
}

/// Some argument is positional.
pub open spec fn has_positional(args: Seq<ArgSpec>) -> bool {
    exists|i: int| 0 <= i < args.len() && args[i].kind == ArgKind::Positional
}

/// The option lines of the flags and options from argument `i` on.
pub open spec fn option_lines(args: Seq<ArgSpec>, i: int) -> Seq<Seq<char>>
    decreases args.len() - i,
{
    if i < 0 || i >= args.len() {
        Seq::empty()
    } else {
        (if args[i].kind != ArgKind::Positional {
            option_line_pieces(args[i])
        } else {
            Seq::empty()
        }) + option_lines(args, i + 1)
    }
}

/// The pieces of a positional argument's line in help output.
pub open spec fn positional_line_pieces(a: ArgSpec) -> Seq<Seq<char>> {
    seq!["    <"@] + seq![a.name] + seq![">"@] + padding(6 + a.name.len() as int, 28) + notes_pieces(
        a,
        false,
        true,
    ) + seq!["\n"@]
}

/// The lines of the positional arguments from argument `i` on.
pub open spec fn positional_lines(args: Seq<ArgSpec>, i: int) -> Seq<Seq<char>>
    decreases args.len() - i,
{
    if i < 0 || i >= args.len() {
        Seq::empty()
    } else {
        (if args[i].kind == ArgKind::Positional {
            positional_line_pieces(args[i])
        } else {
            Seq::empty()
        }) + positional_lines(args, i + 1)
    }
}

/// The pieces of a subcommand's line in help output.
pub open spec fn sub_line_pieces(s: SubSpec) -> Seq<Seq<char>> {
    seq!["    "@] + seq![s.name] + padding(4 + s.name.len() as int, 28) + (match s.about {
        Some(a) => seq![a],
        None => Seq::empty(),
    }) + seq!["\n"@]
}

/// The lines of the named subcommands from subcommand `i` on.
pub open spec fn sub_lines(subs: Seq<SubSpec>, i: int) -> Seq<Seq<char>>
    decreases subs.len() - i,
{
    if i < 0 || i >= subs.len() {
        Seq::empty()
    } else {
        (if subs[i].name.len() != 0 {
            sub_line_pieces(subs[i])
        } else {
            Seq::empty()
        }) + sub_lines(subs, i + 1)
    }
}

/// The pieces of the help header: name, version and description.
pub open spec fn header_pieces(name: Seq<char>, version: Seq<char>, about: Option<Seq<char>>) -> Seq<
    Seq<char>,
> {
    seq![name] + (if version.len() != 0 {
        seq![" "@] + seq![version]
    } else {
        Seq::empty()
    }) + seq!["\n"@] + (match about {
        Some(a) => seq![a] + seq!["\n"@],
        None => Seq::empty(),
    })
}

/// The pieces of the help's usage section.
pub open spec fn usage_section(name: Seq<char>, has_options: bool, has_subs: bool, has_args: bool) -> Seq<
    Seq<char>,
> {
    seq!["\nUSAGE:\n"@] + seq![name] + (if has_options {
        seq![" [OPTIONS]"@]
    } else {
        Seq::empty()
    }) + (if has_subs {
        seq![" <SUBCOMMAND>"@]
    } else {
        Seq::empty()
    }) + (if has_args {
        seq![" [ARGS]"@]
    } else {
        Seq::empty()
    }) + seq!["\n"@]
}

/// The pieces of the help's options section.
pub open spec fn options_section(args: Seq<ArgSpec>, auto_help: bool, auto_version: bool) -> Seq<
    Seq<char>,
> {
    seq!["\nOPTIONS:\n"@] + option_lines(args, 0) + (if auto_help {
        seq!["    -h, --help"@] + padding(14, 28) + seq!["Print help information\n"@]
    } else {
        Seq::empty()
    }) + (if auto_version {
        seq!["    -V, --version"@] + padding(17, 28) + seq!["Print version information\n"@]
    } else {
        Seq::empty()
    })
}

/// The pieces of the full help output of a parser or a subcommand.
pub open spec fn help_pieces(
    name: Seq<char>,
    version: Seq<char>,
    about: Option<Seq<char>>,
    args: Seq<ArgSpec>,
    auto_help: bool,
    auto_version: bool,
    subs: Seq<SubSpec>,
) -> Seq<Seq<char>> {
    let has_options = has_named(args) || auto_help || auto_version;
    let has_subs = subs.len() > 0;
    let has_args = has_positional(args);
    header_pieces(name, version, about) + usage_section(name, has_options, has_subs, has_args) + (
    if has_options {
        options_section(args, auto_help, auto_version)
    } else {
        Seq::empty()
    }) + (if has_args {
        seq!["\nARGS:\n"@] + positional_lines(args, 0)
    } else {
        Seq::empty()
    }) + (if has_subs {
        seq!["\nSUBCOMMANDS:\n"@] + sub_lines(subs, 0)
    } else {
        Seq::empty()
    })
}

fn any_named(args: &[Arg<'_>]) -> (r: bool)
    ensures
        r == has_named(arg_specs(args@)),
{
    let mut i: usize = 0;
    while i < args.len()
        invariant
            i <= args@.len(),
            forall|j: int| 0 <= j < i ==> arg_specs(args@)[j].kind == ArgKind::Positional,
        decreases args@.len() - i,
    {
        assert(arg_specs(args@)[i as int] == args@[i as int]@);
        if !args[i].kind.is_positional() {
            return true;
        }
        i += 1;
    }
    false
}

fn any_positional(args: &[Arg<'_>]) -> (r: bool)
    ensures
        r == has_positional(arg_specs(args@)),
{
    let mut i: usize = 0;
    while i < args.len()
        invariant
            i <= args@.len(),
            forall|j: int| 0 <= j < i ==> arg_specs(args@)[j].kind != ArgKind::Positional,
        decreases args@.len() - i,
    {
        assert(arg_specs(args@)[i as int] == args@[i as int]@);
        if args[i].kind.is_positional() {
            return true;
        }
        i += 1;
    }
    false
}

fn write_option_lines(w: &mut HelpFormatter, args: &[Arg<'_>]) -> (r: Result<(), FmtError>)
    ensures
        final(final(w).borrowed())@ == final(old(w).borrowed())@,
        (final(w)@, r is Ok) == emit(old(w)@, option_lines(arg_specs(args@), 0)),
{
    
    let ghost defs = arg_specs(args@);
    let mut i: usize = 0;
    while i < args.len()
        invariant
            final(w.borrowed())@ == final(old(w).borrowed())@,
            i <= args@.len(),
            defs == arg_specs(args@),
            emit(old(w)@, option_lines(defs, 0)) == emit(w@, option_lines(defs, i as int)),
        decreases args@.len() - i,
    {
        proof {
            assert(defs[i as int] == args@[i as int]@);
            let piece = if defs[i as int].kind != ArgKind::Positional {
                option_line_pieces(defs[i as int])
            } else {
                Seq::empty()
            };
            assert(option_lines(defs, i as int) == piece + option_lines(defs, i + 1));
            lemma_emit_concat(w@, piece, option_lines(defs, i + 1));
        }
        if !args[i].kind.is_positional() {
            format_option_line(w, &args[i])?;
        }
        i += 1;
    }
    Ok(())
}

fn format_positional_line(w: &mut HelpFormatter, arg: &Arg<'_>) -> (r: Result<(), FmtError>)
    ensures
        final(final(w).borrowed())@ == final(old(w).borrowed())@,
        (final(w)@, r is Ok) == emit(old(w)@, positional_line_pieces(arg@)),
{
    broadcast use group_emit;

    w.write_str("    <")?;
    w.write_str(arg.name)?;
    w.write_str(">")?;
    let col = 6usize.saturating_add(display_width(arg.name));
    assert(padding(col as int, 28) == padding(6 + arg@.name.len() as int, 28));
    write_padding(w, col, 28)?;
    write_notes(w, arg, false, true)?;
    w.write_str("\n")
}

fn write_positional_lines(w: &mut HelpFormatter, args: &[Arg<'_>]) -> (r: Result<(), FmtError>)
    ensures
        final(final(w).borrowed())@ == final(old(w).borrowed())@,
        (final(w)@, r is Ok) == emit(old(w)@, positional_lines(arg_specs(args@), 0)),
{
    
    let ghost defs = arg_specs(args@);
    let mut i: usize = 0;
    while i < args.len()
        invariant
            final(w.borrowed())@ == final(old(w).borrowed())@,
            i <= args@.len(),
            defs == arg_specs(args@),
            emit(old(w)@, positional_lines(defs, 0)) == emit(w@, positional_lines(defs, i as int)),
        decreases args@.len() - i,
    {
        proof {
            assert(defs[i as int] == args@[i as int]@);
            let piece = if defs[i as int].kind == ArgKind::Positional {
                positional_line_pieces(defs[i as int])
            } else {
                Seq::empty()
            };
            assert(positional_lines(defs, i as int) == piece + positional_lines(defs, i + 1));
            lemma_emit_concat(w@, piece, positional_lines(defs, i + 1));
        }
        if args[i].kind.is_positional() {
            format_positional_line(w, &args[i])?;
        }
        i += 1;
    }
    Ok(())
}

fn format_sub_line<const SA: usize>(w: &mut HelpFormatter, sub: &SubCommand<'_, SA>) -> (r: Result<
    (),
    FmtError,
>)
    ensures
        final(final(w).borrowed())@ == final(old(w).borrowed())@,
        (final(w)@, r is Ok) == emit(old(w)@, sub_line_pieces(sub@)),
{
    broadcast use group_emit;

    w.write_str("    ")?;
    w.write_str(sub.name)?;
    let col = 4usize.saturating_add(display_width(sub.name));
    assert(padding(col as int, 28) == padding(4 + sub@.name.len() as int, 28));
    write_padding(w, col, 28)?;
    if let Some(about) = sub.about {
        w.write_str(about)?;
    }
    w.write_str("\n")
}

fn write_sub_lines<const SA: usize>(w: &mut HelpFormatter, subs: &[SubCommand<'_, SA>]) -> (r:
    Result<(), FmtError>)
    ensures
        final(final(w).borrowed())@ == final(old(w).borrowed())@,
        (final(w)@, r is Ok) == emit(
            old(w)@,
            sub_lines(subs@.map_values(|s: SubCommand<'_, SA>| s@), 0),
        ),
{
    
    let ghost specs = subs@.map_values(|s: SubCommand<'_, SA>| s@);
    let mut i: usize = 0;
    while i < subs.len()
        invariant
            final(w.borrowed())@ == final(old(w).borrowed())@,
            i <= subs@.len(),
            specs == subs@.map_values(|s: SubCommand<'_, SA>| s@),
            emit(old(w)@, sub_lines(specs, 0)) == emit(w@, sub_lines(specs, i as int)),
        decreases subs@.len() - i,
    {
        proof {
            assert(specs[i as int] == subs@[i as int]@);
            let piece = if specs[i as int].name.len() != 0 {
                sub_line_pieces(specs[i as int])
            } else {
                Seq::empty()
            };
            assert(sub_lines(specs, i as int) == piece + sub_lines(specs, i + 1));
            lemma_emit_concat(w@, piece, sub_lines(specs, i + 1));
        }
        if !subs[i].name.is_empty() {
            format_sub_line(w, &subs[i])?;
        }
        i += 1;
    }
    Ok(())
}

fn write_header(w: &mut HelpFormatter, name: &str, version: &str, about: Option<&str>) -> (r:
    Result<(), FmtError>)
    ensures
        final(final(w).borrowed())@ == final(old(w).borrowed())@,
        (final(w)@, r is Ok) == emit(old(w)@, header_pieces(name@, version@, opt_str(about))),
{
    broadcast use group_emit;

    w.write_str(name)?;
    if !version.is_empty() {
        w.write_str(" ")?;
        w.write_str(version)?;
    }
    w.write_str("\n")?;
    if let Some(about) = about {
        w.write_str(about)?;
        w.write_str("\n")?;
    }
    Ok(())
}

fn write_usage_section(
    w: &mut HelpFormatter,
    name: &str,
    has_options: bool,
    has_subs: bool,
    has_args: bool,
) -> (r: Result<(), FmtError>)
    ensures
        final(final(w).borrowed())@ == final(old(w).borrowed())@,
        (final(w)@, r is Ok) == emit(
            old(w)@,
            usage_section(name@, has_options, has_subs, has_args),
        ),
{
    broadcast use group_emit;

    w.write_str("\nUSAGE:\n")?;
    w.write_str(name)?;
    if has_options {
        w.write_str(" [OPTIONS]")?;
    }
    if has_subs {
        w.write_str(" <SUBCOMMAND>")?;
    }
    if has_args {
        w.write_str(" [ARGS]")?;
    }
    w.write_str("\n")
}

fn write_options_section(
    w: &mut HelpFormatter,
    args: &[Arg<'_>],
    auto_help: bool,
    auto_version: bool,
) -> (r: Result<(), FmtError>)
    ensures
        final(final(w).borrowed())@ == final(old(w).borrowed())@,
        (final(w)@, r is Ok) == emit(
            old(w)@,
            options_section(arg_specs(args@), auto_help, auto_version),
        ),
{
    broadcast use group_emit;

    w.write_str("\nOPTIONS:\n")?;
    write_option_lines(w, args)?;
    if auto_help {
        w.write_str("    -h, --help")?;
        write_padding(w, 14, 28)?;
        w.write_str("Print help information\n")?;
    }
    if auto_version {
        w.write_str("    -V, --version")?;
        write_padding(w, 17, 28)?;
        w.write_str("Print version information\n")?;
    }
    Ok(())
}

/// Format full help output for a parser (shared by Parser and SubCommand).
pub(crate) fn format_parser_help<const SA: usize>(
    w: &mut HelpFormatter,
    name: &str,
    version: &str,
    about: Option<&str>,
    args: &[Arg<'_>],
    auto_help: bool,
    auto_version: bool,
    subs: &[SubCommand<'_, SA>],
) -> (r: Result<(), FmtError>)
    ensures
        final(final(w).borrowed())@ == final(old(w).borrowed())@,
        (final(w)@, r is Ok) == emit(
            old(w)@,
            help_pieces(
                name@,
                version@,
                opt_str(about),
                arg_specs(args@),
                auto_help,
                auto_version,
                subs@.map_values(|s: SubCommand<'_, SA>| s@),
            ),
        ),
{
    broadcast use group_emit;

    write_header(w, name, version, about)?;
    let has_options = any_named(args) || auto_help || auto_version;
    let has_subs = subs.len() != 0;
    let has_positionals = any_positional(args);
    write_usage_section(w, name, has_options, has_subs, has_positionals)?;
    if has_options {
        write_options_section(w, args, auto_help, auto_version)?;
    }
    if has_positionals {
        w.write_str("\nARGS:\n")?;
        write_positional_lines(w, args)?;
    }
    if has_subs {
        w.write_str("\nSUBCOMMANDS:\n")?;
        write_sub_lines(w, subs)?;
    }
    Ok(())
}

impl<'a> ParseError<'a> {
    /// Writes a CLI-style `error: <message>` line for this error.
    ///
    /// Use this when printing directly to a user; for composing into a larger
    /// message, use [`ParseError::write_message`] instead (no prefix).
    pub fn write_error(self, w: &mut HelpFormatter) -> (r: Result<(), FmtError>)
        ensures
            final(final(w).borrowed())@ == final(old(w).borrowed())@,
            (final(w)@, r is Ok) == emit(old(w)@, seq!["error: "@] + message_pieces(self@)),
    {
        broadcast use group_emit;

        w.write_str("error: ")?;
        self.write_message(w)
    }
}


/// The UTF-8 bytes of the pieces, one after the other.
pub open spec fn encoded(pieces: Seq<Seq<char>>) -> Seq<u8>
    decreases pieces.len(),
{
    if pieces.len() == 0 {
        Seq::empty()
    } else {
        encode_utf8(pieces[0]) + encoded(pieces.drop_first())
    }
}

/// Writing never goes past the buffer, never splits a piece and never
/// touches the bytes after those it writes: the pieces are all written
/// exactly when their bytes fit in what is left, and then the text gains
/// their bytes in order; otherwise it gains the bytes of a run of whole
/// leading pieces, and the next piece is the one that did not fit. Either
/// way the rest of the buffer is what it was, less the bytes written over
/// its start, so the size of the buffer never changes.
pub proof fn law_emit_whole_pieces(w: SinkView, pieces: Seq<Seq<char>>)
    ensures
        ({
            let (w2, ok) = emit(w, pieces);
            &&& w2.capacity() == w.capacity()
            &&& w2.rest == w.rest.skip(w2.written.len() - w.written.len())
            &&& ok <==> encoded(pieces).len() <= w.rest.len()
            &&& ok ==> w2.written == w.written + encoded(pieces)
            &&& !ok ==> exists|k: int|
                0 <= k < pieces.len() && w2.written == w.written + encoded(pieces.take(k))
                    && encoded(pieces.take(k)).len() + encode_utf8(pieces[k]).len() > w.rest.len()
        }),
    decreases pieces.len(),
{
    if pieces.len() == 0 {
        assert(w.written + encoded(pieces) =~= w.written);
        assert(w.rest.skip(0) =~= w.rest);
    } else {
        let b = encode_utf8(pieces[0]);
        let rest = pieces.drop_first();
        if b.len() <= w.rest.len() {
            let w1 = SinkView { written: w.written + b, rest: w.rest.skip(b.len() as int) };
            law_emit_whole_pieces(w1, rest);
            assert(w1.written + encoded(rest) =~= w.written + encoded(pieces));
            let (w2, ok) = emit(w, pieces);
            assert(w2 == emit(w1, rest).0);
            assert(w2.rest =~= w.rest.skip(w2.written.len() - w.written.len()));
            if !ok {
                let k = choose|k: int|
                    0 <= k < rest.len() && w2.written == w1.written + encoded(rest.take(k))
                        && encoded(rest.take(k)).len() + encode_utf8(rest[k]).len()
                        > w1.rest.len();
                assert(pieces.take(k + 1).drop_first() =~= rest.take(k));
                assert(pieces.take(k + 1)[0] == pieces[0]);
                assert(encoded(pieces.take(k + 1)) == b + encoded(rest.take(k)));
                assert(w2.written =~= w.written + encoded(pieces.take(k + 1)));
                assert(pieces[k + 1] == rest[k]);
            }
        } else {
            assert(pieces.take(0) =~= Seq::<Seq<char>>::empty());
            assert(w.written + encoded(pieces.take(0)) =~= w.written);
            assert(w.rest.skip(0) =~= w.rest);
        }
    }
}

proof fn lemma_encoded_valid(pieces: Seq<Seq<char>>)
    ensures
        valid_utf8(encoded(pieces)),
    decreases pieces.len(),
{
    if pieces.len() > 0 {
        lemma_encoded_valid(pieces.drop_first());
        vstd::utf8::encode_utf8_valid_utf8(pieces[0]);
        vstd::utf8::valid_utf8_concat(encode_utf8(pieces[0]), encoded(pieces.drop_first()));
    } else {
        assert(encoded(pieces) =~= Seq::<u8>::empty());
    }
}

/// Writing text keeps the written bytes valid UTF-8, whether or not every
/// piece fit, so [`HelpFormatter::as_str`] can be called after any run of
/// text writes on a fresh or reset formatter.
pub proof fn law_emit_keeps_utf8(w: SinkView, pieces: Seq<Seq<char>>)
    requires
        valid_utf8(w.written),
    ensures
        valid_utf8(emit(w, pieces).0.written),
{
    law_emit_whole_pieces(w, pieces);
    let (w2, ok) = emit(w, pieces);
    if ok {
        lemma_encoded_valid(pieces);
        vstd::utf8::valid_utf8_concat(w.written, encoded(pieces));
    } else {
        let k = choose|k: int|
            0 <= k < pieces.len() && w2.written == w.written + encoded(pieces.take(k))
                && encoded(pieces.take(k)).len() + encode_utf8(pieces[k]).len() > w.rest.len();
        lemma_encoded_valid(pieces.take(k));
        vstd::utf8::valid_utf8_concat(w.written, encoded(pieces.take(k)));
    }
}

/// The characters of a run of space pieces, one after the other.
proof fn lemma_space_pieces(n: nat)
    ensures
        space_pieces(n).flatten() == spaces(n),
    decreases n,
{
    if n > 0 {
        let c: nat = if n < 32 {
            n
        } else {
            32
        };
        lemma_space_pieces((n - c) as nat);
        let p = space_pieces(n);
        assert(p.first() == spaces(c));
        assert(p.drop_first() =~= space_pieces((n - c) as nat));
        assert(spaces(c) + spaces((n - c) as nat) =~= spaces(n));
    }
}

/// Padding is spaces only: it reaches `target` from `current` when
/// `current` is short of it, and is two spaces wide otherwise, so that
/// adjacent text never abuts.
pub proof fn law_padding(current: int, target: int)
    ensures
        padding(current, target).flatten() == spaces(pad_width(current, target)),
        current < target ==> current + pad_width(current, target) == target,
        current >= target ==> pad_width(current, target) == 2,
{
    lemma_space_pieces(pad_width(current, target));
}



proof fn lemma_total_width_take(vs: Seq<Seq<char>>, i: int)
    requires
        0 <= i < vs.len(),
    ensures
        total_width(vs.take(i + 1)) == total_width(vs.take(i)) + vs[i].len(),
{
    assert(vs.take(i + 1).drop_last() =~= vs.take(i));
}

proof fn lemma_join_from_len(vs: Seq<Seq<char>>, sep: Seq<char>, i: int)
    requires
        0 <= i <= vs.len(),
        sep.len() == 1,
    ensures
        join_from(vs, sep, i).flatten().len() + total_width(vs.take(i)) == total_width(vs) + if i
            == 0 {
            if vs.len() > 0 {
                vs.len() - 1
            } else {
                0int
            }
        } else {
            vs.len() - i
        },
    decreases vs.len() - i,
{
    if i < vs.len() {
        lemma_join_from_len(vs, sep, i + 1);
        lemma_total_width_take(vs, i);
        let head: Seq<Seq<char>> = if i > 0 {
            seq![sep]
        } else {
            Seq::empty()
        };
        vstd::seq_lib::lemma_flatten_concat(head + seq![vs[i]], join_from(vs, sep, i + 1));
        vstd::seq_lib::lemma_flatten_concat(head, seq![vs[i]]);
        seq![vs[i]].lemma_flatten_one_element();
        if i > 0 {
            head.lemma_flatten_one_element();
        } else {
            assert(head.flatten() =~= Seq::<char>::empty());
        }
    } else {
        assert(vs.take(i) =~= vs);
        assert(join_from(vs, sep, i).flatten() =~= Seq::<char>::empty());
    }
}

/// The characters of pieces laid end to end.
proof fn lemma_flatten3(a: Seq<Seq<char>>, b: Seq<Seq<char>>, c: Seq<Seq<char>>)
    ensures
        (a + b + c).flatten() == a.flatten() + b.flatten() + c.flatten(),
{
    vstd::seq_lib::lemma_flatten_concat(a + b, c);
    vstd::seq_lib::lemma_flatten_concat(a, b);
}

/// An option or flag line of the help reads: four spaces and the names and
/// placeholder, then spaces up to column 28 counted over that text (two at
/// least), then the help text and notes, then a newline. The placeholder of
/// an option whose allowed values are not shown inline is its `meta`, in
/// angle brackets.
pub proof fn law_option_line(a: ArgSpec)
    ensures
        exists|pre: Seq<char>|
            {
                &&& option_line_pieces(a).flatten() == pre + spaces(pad_width(pre.len() as int, 28))
                    + notes_pieces(a, true, inline_possible(a) is None).flatten() + "\n"@
                &&& pre.take(4) == "    "@
                &&& a.kind == ArgKind::Option && inline_possible(a) is None ==> pre.len() >= a.meta.len() + 3
                    && pre.skip(pre.len() - (a.meta.len() + 3)) == " <"@ + a.meta + ">"@
            },
{
    reveal_strlit("    ");
    reveal_strlit(" <");
    reveal_strlit(">");
    reveal_strlit("-");
    reveal_strlit(", ");
    reveal_strlit("--");
    reveal_strlit("|");
    let p1: Seq<Seq<char>> = if a.short != '\0' {
        seq!["-"@] + seq![seq![a.short]] + (if a.long is Some {
            seq![", "@]
        } else {
            Seq::empty()
        })
    } else {
        seq!["    "@]
    };
    let p2: Seq<Seq<char>> = match a.long {
        Some(l) => seq!["--"@] + seq![l],
        None => Seq::empty(),
    };
    let mid: Seq<Seq<char>> = match inline_possible(a) {
        Some(vs) => join_pieces(vs, "|"@),
        None => seq![a.meta],
    };
    let p3: Seq<Seq<char>> = if a.kind == ArgKind::Option {
        seq![" <"@] + mid + seq![">"@]
    } else {
        Seq::empty()
    };
    let head = seq!["    "@] + p1 + p2 + p3;
    let pad = padding(option_line_col(a), 28);
    let notes = notes_pieces(a, true, inline_possible(a) is None);
    assert(option_line_pieces(a) =~= head + pad + notes + seq!["\n"@]);
    let pre = head.flatten();
    // the text before the padding, piece by piece
    lemma_flatten3(seq!["    "@] + p1, p2, p3);
    vstd::seq_lib::lemma_flatten_concat(seq!["    "@], p1);
    seq!["    "@].lemma_flatten_one_element();
    if a.short != '\0' {
        let q: Seq<Seq<char>> = if a.long is Some {
            seq![", "@]
        } else {
            Seq::empty()
        };
        lemma_flatten3(seq!["-"@], seq![seq![a.short]], q);
        seq!["-"@].lemma_flatten_one_element();
        seq![seq![a.short]].lemma_flatten_one_element();
        if a.long is Some {
            q.lemma_flatten_one_element();
        } else {
            assert(q.flatten() =~= Seq::<char>::empty());
        }
        assert(p1.flatten().len() == 2 + if a.long is Some { 2int } else { 0int });
    } else {
        p1.lemma_flatten_one_element();
    }
    match a.long {
        Some(l) => {
            vstd::seq_lib::lemma_flatten_concat(seq!["--"@], seq![l]);
            seq!["--"@].lemma_flatten_one_element();
            seq![l].lemma_flatten_one_element();
        },
        None => {
            assert(p2.flatten() =~= Seq::<char>::empty());
        },
    }
    if a.kind == ArgKind::Option {
        lemma_flatten3(seq![" <"@], mid, seq![">"@]);
        seq![" <"@].lemma_flatten_one_element();
        seq![">"@].lemma_flatten_one_element();
        match inline_possible(a) {
            Some(vs) => {
                lemma_join_from_len(vs, "|"@, 0);
                assert(vs.take(0) =~= Seq::<Seq<char>>::empty());
            },
            None => {
                seq![a.meta].lemma_flatten_one_element();
            },
        }
    } else {
        assert(p3.flatten() =~= Seq::<char>::empty());
    }
    assert(pre.len() == option_line_col(a));
    // the whole line
    vstd::seq_lib::lemma_flatten_concat(head + pad + notes, seq!["\n"@]);
    lemma_flatten3(head, pad, notes);
    seq!["\n"@].lemma_flatten_one_element();
    law_padding(option_line_col(a), 28);
    assert(option_line_pieces(a).flatten() == pre + spaces(pad_width(pre.len() as int, 28))
        + notes.flatten() + "\n"@);
    assert(pre.take(4) =~= "    "@);
    if a.kind == ArgKind::Option && inline_possible(a) is None {
        assert(pre.skip(pre.len() - (a.meta.len() + 3)) =~= " <"@ + a.meta + ">"@);
    }
}


/// The characters of two runs of pieces are those of each, in order.
pub(crate) broadcast proof fn lemma_flat_concat(x: Seq<Seq<char>>, y: Seq<Seq<char>>)
    ensures
        #[trigger] (x + y).flatten() == x.flatten() + y.flatten(),
{
    vstd::seq_lib::lemma_flatten_concat(x, y);
}

/// The characters of one piece are that piece.
pub(crate) broadcast proof fn lemma_flat_one(x: Seq<char>)
    ensures
        #[trigger] seq![x].flatten() == x,
{
    seq![x].lemma_flatten_one_element();
}

/// The help text begins with the name, the version after a space when there
/// is one, a newline, and the about line when there is one; then the usage
/// section: `USAGE:`, the name, ` [OPTIONS]` when there is a flag, an option
/// or an automatic help or version entry, ` <SUBCOMMAND>` when there are
/// subcommands, ` [ARGS]` when there is a positional argument. The options
/// section, when there are options, comes next.
pub proof fn law_help_text(
    name: Seq<char>,
    version: Seq<char>,
    about: Option<Seq<char>>,
    args: Seq<ArgSpec>,
    auto_help: bool,
    auto_version: bool,
    subs: Seq<SubSpec>,
)
    ensures
        ({
            let text = help_pieces(name, version, about, args, auto_help, auto_version, subs).flatten();
            let has_options = has_named(args) || auto_help || auto_version;
            let head = name + (if version.len() != 0 {
                " "@ + version
            } else {
                Seq::empty()
            }) + "\n"@ + (match about {
                Some(a) => a + "\n"@,
                None => Seq::empty(),
            }) + "\nUSAGE:\n"@ + name + (if has_options {
                " [OPTIONS]"@
            } else {
                Seq::empty()
            }) + (if subs.len() > 0 {
                " <SUBCOMMAND>"@
            } else {
                Seq::empty()
            }) + (if has_positional(args) {
                " [ARGS]"@
            } else {
                Seq::empty()
            }) + "\n"@;
            &&& text.len() >= head.len()
            &&& text.take(head.len() as int) == head
            &&& has_options ==> text.skip(head.len() as int).take(10) == "\nOPTIONS:\n"@
        }),
{
    reveal_strlit("\nOPTIONS:\n");
    let has_options = has_named(args) || auto_help || auto_version;
    let has_subs = subs.len() > 0;
    let has_args = has_positional(args);
    let hp = header_pieces(name, version, about);
    let us = usage_section(name, has_options, has_subs, has_args);
    let pa: Seq<Seq<char>> = if has_options {
        options_section(args, auto_help, auto_version)
    } else {
        Seq::empty()
    };
    let pb: Seq<Seq<char>> = if has_args {
        seq!["\nARGS:\n"@] + positional_lines(args, 0)
    } else {
        Seq::empty()
    };
    let pc: Seq<Seq<char>> = if has_subs {
        seq!["\nSUBCOMMANDS:\n"@] + sub_lines(subs, 0)
    } else {
        Seq::empty()
    };
    assert(help_pieces(name, version, about, args, auto_help, auto_version, subs) == hp + us + pa
        + pb + pc);
    lemma_header_text(name, version, about);
    lemma_usage_text(name, has_options, has_subs, has_args);
    vstd::seq_lib::lemma_flatten_concat(hp + us + pa + pb, pc);
    vstd::seq_lib::lemma_flatten_concat(hp + us + pa, pb);
    vstd::seq_lib::lemma_flatten_concat(hp + us, pa);
    vstd::seq_lib::lemma_flatten_concat(hp, us);
    let head = hp.flatten() + us.flatten();
    let rest = pa.flatten() + pb.flatten() + pc.flatten();
    let text = help_pieces(name, version, about, args, auto_help, auto_version, subs).flatten();
    assert(text =~= head + rest) by {
        assert(text == head + pa.flatten() + pb.flatten() + pc.flatten());
    }
    lemma_split_text(text, head, rest);
    lemma_join_texts(
        name,
        if version.len() != 0 {
            " "@ + version
        } else {
            Seq::empty()
        },
        "\n"@,
        match about {
            Some(a) => a + "\n"@,
            None => Seq::empty(),
        },
        "\nUSAGE:\n"@,
        if has_options {
            " [OPTIONS]"@
        } else {
            Seq::empty()
        },
        if has_subs {
            " <SUBCOMMAND>"@
        } else {
            Seq::empty()
        },
        if has_args {
            " [ARGS]"@
        } else {
            Seq::empty()
        },
    );
    if has_options {
        lemma_options_heading(args, auto_help, auto_version);
        assert(rest.take(10) =~= pa.flatten().take(10));
    }
}

proof fn lemma_join_texts(
    name: Seq<char>,
    v: Seq<char>,
    nl: Seq<char>,
    ab: Seq<char>,
    us: Seq<char>,
    o: Seq<char>,
    sb: Seq<char>,
    ar: Seq<char>,
)
    ensures
        (name + v + nl + ab) + (us + name + o + sb + ar + nl) == name + v + nl + ab + us + name + o
            + sb + ar + nl,
{
    assert((name + v + nl + ab) + (us + name + o + sb + ar + nl) =~= name + v + nl + ab + us + name
        + o + sb + ar + nl);
}

proof fn lemma_split_text(text: Seq<char>, head: Seq<char>, rest: Seq<char>)
    requires
        text == head + rest,
    ensures
        text.len() >= head.len(),
        text.take(head.len() as int) == head,
        text.skip(head.len() as int) == rest,
{
    assert(text.take(head.len() as int) =~= head);
    assert(text.skip(head.len() as int) =~= rest);
}

proof fn lemma_options_heading(args: Seq<ArgSpec>, auto_help: bool, auto_version: bool)
    ensures
        options_section(args, auto_help, auto_version).flatten().len() >= 10,
        options_section(args, auto_help, auto_version).flatten().take(10) == "\nOPTIONS:\n"@,
{
    reveal_strlit("\nOPTIONS:\n");
    let o2 = option_lines(args, 0) + (if auto_help {
        seq!["    -h, --help"@] + padding(14, 28) + seq!["Print help information\n"@]
    } else {
        Seq::empty()
    }) + (if auto_version {
        seq!["    -V, --version"@] + padding(17, 28) + seq!["Print version information\n"@]
    } else {
        Seq::empty()
    });
    assert(options_section(args, auto_help, auto_version) == seq!["\nOPTIONS:\n"@] + o2);
    vstd::seq_lib::lemma_flatten_concat(seq!["\nOPTIONS:\n"@], o2);
    lemma_flat_one("\nOPTIONS:\n"@);
    assert(options_section(args, auto_help, auto_version).flatten().take(10) =~= "\nOPTIONS:\n"@);
}

proof fn lemma_header_text(name: Seq<char>, version: Seq<char>, about: Option<Seq<char>>)
    ensures
        header_pieces(name, version, about).flatten() == name + (if version.len() != 0 {
            " "@ + version
        } else {
            Seq::empty()
        }) + "\n"@ + (match about {
            Some(a) => a + "\n"@,
            None => Seq::empty(),
        }),
{
    broadcast use lemma_flat_concat, lemma_flat_one;

    assert(Seq::<Seq<char>>::empty().flatten() =~= Seq::<char>::empty());
    let v: Seq<Seq<char>> = if version.len() != 0 {
        seq![" "@] + seq![version]
    } else {
        Seq::empty()
    };
    let ab: Seq<Seq<char>> = match about {
        Some(a) => seq![a] + seq!["\n"@],
        None => Seq::empty(),
    };
    assert(header_pieces(name, version, about) == seq![name] + v + seq!["\n"@] + ab);
    assert(header_pieces(name, version, about).flatten() =~= name + v.flatten() + "\n"@
        + ab.flatten());
}

proof fn lemma_usage_text(name: Seq<char>, has_options: bool, has_subs: bool, has_args: bool)
    ensures
        usage_section(name, has_options, has_subs, has_args).flatten() == "\nUSAGE:\n"@ + name + (
        if has_options {
            " [OPTIONS]"@
        } else {
            Seq::empty()
        }) + (if has_subs {
            " <SUBCOMMAND>"@
        } else {
            Seq::empty()
        }) + (if has_args {
            " [ARGS]"@
        } else {
            Seq::empty()
        }) + "\n"@,
{
    broadcast use lemma_flat_concat, lemma_flat_one;

    assert(Seq::<Seq<char>>::empty().flatten() =~= Seq::<char>::empty());
    let o: Seq<Seq<char>> = if has_options {
        seq![" [OPTIONS]"@]
    } else {
        Seq::empty()
    };
    let sb: Seq<Seq<char>> = if has_subs {
        seq![" <SUBCOMMAND>"@]
    } else {
        Seq::empty()
    };
    let ar: Seq<Seq<char>> = if has_args {
        seq![" [ARGS]"@]
    } else {
        Seq::empty()
    };
    assert(usage_section(name, has_options, has_subs, has_args) == seq!["\nUSAGE:\n"@] + seq![
        name,
    ] + o + sb + ar + seq!["\n"@]);
    assert(usage_section(name, has_options, has_subs, has_args).flatten() =~= "\nUSAGE:\n"@
        + name + o.flatten() + sb.flatten() + ar.flatten() + "\n"@);
}

} // verus!
