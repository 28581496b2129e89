//! Conversion of raw argument strings into typed values.
use vstd::prelude::*;
use vstd::string::StrSliceExecFns;
use crate::text::str_eq;

verus! {

/// Parses a value out of a raw argument string.
///
/// Implement this for custom types to use [`Matches::value_of_parsed`](crate::Matches::value_of_parsed)
/// and [`Matches::positional_parsed`](crate::Matches::positional_parsed). The crate provides
/// impls for `bool` and all built-in integer types.
///
/// Returning `None` surfaces as [`ErrorKind::InvalidValue`](crate::ErrorKind::InvalidValue).
pub trait FromArgValue: Sized {
    /// The value that the characters `s` denote, if any.
    spec fn spec_from_arg_value(s: Seq<char>) -> Option<Self>;

    /// Parses `s`, returning `None` if it cannot be interpreted as `Self`.
    fn from_arg_value(s: &str) -> (r: Option<Self>)
        ensures
            r == Self::spec_from_arg_value(s@),
    ;
}

/// `c` is an ASCII decimal digit.
pub open spec fn is_digit(c: char) -> bool {
    '0' <= c && c <= '9'
}

/// The value of the digit `c`.
pub open spec fn digit_value(c: char) -> nat {
    (c as u32 - '0' as u32) as nat
}

/// Every character of `s` is a decimal digit.
pub open spec fn all_digits(s: Seq<char>) -> bool {
    forall|i: int| 0 <= i < s.len() ==> is_digit(#[trigger] s[i])
}

/// The number that the decimal digits `s` denote.
pub open spec fn decimal_value(s: Seq<char>) -> nat
    decreases s.len(),
{
    if s.len() == 0 {
        0
    } else {
        decimal_value(s.drop_last()) * 10 + digit_value(s.last())
    }
}

/// The number that the decimal digits `s` denote, when there is at least
/// one digit, nothing else, and the number is at most `max`.
pub open spec fn parse_unsigned(s: Seq<char>, max: nat) -> Option<nat> {
    if s.len() > 0 && all_digits(s) && decimal_value(s) <= max {
        Some(decimal_value(s))
    } else {
        None
    }
}

/// The number that `s` denotes: decimal digits, with a leading `-` for a
/// negative number; the magnitude is at most `min_mag` when negative and
/// at most `max` otherwise.
pub open spec fn parse_signed(s: Seq<char>, min_mag: nat, max: nat) -> Option<int> {
    if s.len() > 0 && s[0] == '-' {
        match parse_unsigned(s.drop_first(), min_mag) {
            Some(m) => Some(-m),
            None => None,
        }
    } else {
        match parse_unsigned(s, max) {
            Some(m) => Some(m as int),
            None => None,
        }
    }
}

proof fn lemma_decimal_prefix(s: Seq<char>, k: int)
    requires
        0 <= k <= s.len(),
    ensures
        decimal_value(s.take(k)) <= decimal_value(s),
    decreases s.len(),
{
    if k < s.len() {
        assert(s.drop_last().take(k) =~= s.take(k));
        lemma_decimal_prefix(s.drop_last(), k);
    } else {
        assert(s.take(k) =~= s);
    }
}

/// The number that the characters of `v` from `start` on denote, by
/// [`parse_unsigned`] with bound `max`.
fn parse_decimal(t: &str, start: usize, max: u128) -> (r: Option<u128>)
    requires
        start <= t@.len(),
    ensures
        match r {
            Some(x) => parse_unsigned(t@.skip(start as int), max as nat) == Some(x as nat),
            None => parse_unsigned(t@.skip(start as int), max as nat) is None,
        },
{
    let ghost s = t@.skip(start as int);
    let n = t.unicode_len();
    if start >= n {
        return None;
    }
    let mut value: u128 = 0;
    let mut i: usize = start;
    while i < n
        invariant
            n == t@.len(),
            start <= i <= n,
            s == t@.skip(start as int),
            all_digits(s.take(i - start)),
            value == decimal_value(s.take(i - start)),
        decreases t@.len() - i,
    {
        let c = t.get_char(i);
        proof {
            assert(s.take(i - start + 1).drop_last() =~= s.take(i - start));
            assert(s[i - start] == c);
        }
        if !(c >= '0' && c <= '9') {
            assert(!is_digit(s[i - start]));
            return None;
        }
        let d = (c as u32 - 48) as u128;
        let next = match value.checked_mul(10) {
            Some(x) => x.checked_add(d),
            None => None,
        };
        match next {
            Some(x) => {
                value = x;
            },
            None => {
                proof {
                    if all_digits(s) {
                        lemma_decimal_prefix(s, i - start + 1);
                    }
                }
                return None;
            },
        }
        i += 1;
        assert(all_digits(s.take(i - start)));
    }
    assert(s.take(i - start) =~= s);
    if value > max {
        None
    } else {
        Some(value)
    }
}

/// `-m`, for a magnitude `m` of at most `2^127`.
fn negate(m: u128) -> (r: i128)
    requires
        m <= 0x8000_0000_0000_0000_0000_0000_0000_0000,
    ensures
        r == -(m as int),
{
    if m == 0x8000_0000_0000_0000_0000_0000_0000_0000 {
        i128::MIN
    } else {
        -(m as i128)
    }
}

/// The number that `s` denotes, by [`parse_signed`].
fn parse_signed_exec(s: &str, min_mag: u128, max: u128) -> (r: Option<i128>)
    requires
        min_mag <= 0x8000_0000_0000_0000_0000_0000_0000_0000,
        max < 0x8000_0000_0000_0000_0000_0000_0000_0000,
    ensures
        match r {
            Some(x) => parse_signed(s@, min_mag as nat, max as nat) == Some(x as int),
            None => parse_signed(s@, min_mag as nat, max as nat) is None,
        },
{
    if s.unicode_len() > 0 && s.get_char(0) == '-' {
        assert(s@.skip(1) =~= s@.drop_first());
        match parse_decimal(s, 1, min_mag) {
            Some(m) => Some(negate(m)),
            None => None,
        }
    } else {
        assert(s@.skip(0) =~= s@);
        match parse_decimal(s, 0, max) {
            Some(m) => Some(m as i128),
            None => None,
        }
    }
}

/// The number that `s` denotes, by [`parse_unsigned`].
fn parse_unsigned_exec(s: &str, max: u128) -> (r: Option<u128>)
    ensures
        match r {
            Some(x) => parse_unsigned(s@, max as nat) == Some(x as nat),
            None => parse_unsigned(s@, max as nat) is None,
        },
{
    assert(s@.skip(0) =~= s@);
    parse_decimal(s, 0, max)
}

impl FromArgValue for u8 {
    open spec fn spec_from_arg_value(s: Seq<char>) -> Option<u8> {
        match parse_unsigned(s, u8::MAX as nat) {
            Some(v) => Some(v as u8),
            None => None,
        }
    }

    fn from_arg_value(s: &str) -> (r: Option<u8>) {
        match parse_unsigned_exec(s, u8::MAX as u128) {
            Some(v) => Some(v as u8),
            None => None,
        }
    }
}

impl FromArgValue for u16 {
    open spec fn spec_from_arg_value(s: Seq<char>) -> Option<u16> {
        match parse_unsigned(s, u16::MAX as nat) {
            Some(v) => Some(v as u16),
            None => None,
        }
    }

    fn from_arg_value(s: &str) -> (r: Option<u16>) {
        match parse_unsigned_exec(s, u16::MAX as u128) {
            Some(v) => Some(v as u16),
            None => None,
        }
    }
}

impl FromArgValue for u32 {
    open spec fn spec_from_arg_value(s: Seq<char>) -> Option<u32> {
        match parse_unsigned(s, u32::MAX as nat) {
            Some(v) => Some(v as u32),
            None => None,
        }
    }

    fn from_arg_value(s: &str) -> (r: Option<u32>) {
        match parse_unsigned_exec(s, u32::MAX as u128) {
            Some(v) => Some(v as u32),
            None => None,
        }
    }
}

impl FromArgValue for u64 {
    open spec fn spec_from_arg_value(s: Seq<char>) -> Option<u64> {
        match parse_unsigned(s, u64::MAX as nat) {
            Some(v) => Some(v as u64),
            None => None,
        }
    }

    fn from_arg_value(s: &str) -> (r: Option<u64>) {
        match parse_unsigned_exec(s, u64::MAX as u128) {
            Some(v) => Some(v as u64),
            None => None,
        }
    }
}

impl FromArgValue for u128 {
    open spec fn spec_from_arg_value(s: Seq<char>) -> Option<u128> {
        match parse_unsigned(s, u128::MAX as nat) {
            Some(v) => Some(v as u128),
            None => None,
        }
    }

    fn from_arg_value(s: &str) -> (r: Option<u128>) {
        match parse_unsigned_exec(s, u128::MAX as u128) {
            Some(v) => Some(v as u128),
            None => None,
        }
    }
}

impl FromArgValue for usize {
    open spec fn spec_from_arg_value(s: Seq<char>) -> Option<usize> {
        match parse_unsigned(s, usize::MAX as nat) {
            Some(v) => Some(v as usize),
            None => None,
        }
    }

    fn from_arg_value(s: &str) -> (r: Option<usize>) {
        match parse_unsigned_exec(s, usize::MAX as u128) {
            Some(v) => Some(v as usize),
            None => None,
        }
    }
}

impl FromArgValue for i8 {
    open spec fn spec_from_arg_value(s: Seq<char>) -> Option<i8> {
        match parse_signed(s, (i8::MAX as int + 1) as nat, i8::MAX as nat) {
            Some(v) => Some(v as i8),
            None => None,
        }
    }

    fn from_arg_value(s: &str) -> (r: Option<i8>) {
        match parse_signed_exec(s, i8::MAX as u128 + 1, i8::MAX as u128) {
            Some(v) => Some(v as i8),
            None => None,
        }
    }
}

impl FromArgValue for i16 {
    open spec fn spec_from_arg_value(s: Seq<char>) -> Option<i16> {
        match parse_signed(s, (i16::MAX as int + 1) as nat, i16::MAX as nat) {
            Some(v) => Some(v as i16),
            None => None,
        }
    }

    fn from_arg_value(s: &str) -> (r: Option<i16>) {
        match parse_signed_exec(s, i16::MAX as u128 + 1, i16::MAX as u128) {
            Some(v) => Some(v as i16),
            None => None,
        }
    }
}

impl FromArgValue for i32 {
    open spec fn spec_from_arg_value(s: Seq<char>) -> Option<i32> {
        match parse_signed(s, (i32::MAX as int + 1) as nat, i32::MAX as nat) {
            Some(v) => Some(v as i32),
            None => None,
        }
    }

    fn from_arg_value(s: &str) -> (r: Option<i32>) {
        match parse_signed_exec(s, i32::MAX as u128 + 1, i32::MAX as u128) {
            Some(v) => Some(v as i32),
            None => None,
        }
    }
}

impl FromArgValue for i64 {
    open spec fn spec_from_arg_value(s: Seq<char>) -> Option<i64> {
        match parse_signed(s, (i64::MAX as int + 1) as nat, i64::MAX as nat) {
            Some(v) => Some(v as i64),
            None => None,
        }
    }

    fn from_arg_value(s: &str) -> (r: Option<i64>) {
        match parse_signed_exec(s, i64::MAX as u128 + 1, i64::MAX as u128) {
            Some(v) => Some(v as i64),
            None => None,
        }
    }
}

impl FromArgValue for i128 {
    open spec fn spec_from_arg_value(s: Seq<char>) -> Option<i128> {
        match parse_signed(s, (i128::MAX as int + 1) as nat, i128::MAX as nat) {
            Some(v) => Some(v as i128),
            None => None,
        }
    }

    fn from_arg_value(s: &str) -> (r: Option<i128>) {
        match parse_signed_exec(s, i128::MAX as u128 + 1, i128::MAX as u128) {
            Some(v) => Some(v as i128),
            None => None,
        }
    }
}

impl FromArgValue for isize {
    open spec fn spec_from_arg_value(s: Seq<char>) -> Option<isize> {
        match parse_signed(s, (isize::MAX as int + 1) as nat, isize::MAX as nat) {
            Some(v) => Some(v as isize),
            None => None,
        }
    }

    fn from_arg_value(s: &str) -> (r: Option<isize>) {
        match parse_signed_exec(s, isize::MAX as u128 + 1, isize::MAX as u128) {
            Some(v) => Some(v as isize),
            None => None,
        }
    }
}

/// `s` is one of the spellings of `true`.
pub open spec fn true_word(s: Seq<char>) -> bool {
    s == "true"@
        || s == "True"@
        || s == "TRUE"@
        || s == "yes"@
        || s == "Yes"@
        || s == "YES"@
        || s == "on"@
        || s == "On"@
        || s == "ON"@
        || s == "1"@
        || s == "t"@
        || s == "T"@
        || s == "y"@
        || s == "Y"@
}

/// `s` is one of the spellings of `false`.
pub open spec fn false_word(s: Seq<char>) -> bool {
    s == "false"@
        || s == "False"@
        || s == "FALSE"@
        || s == "no"@
        || s == "No"@
        || s == "NO"@
        || s == "off"@
        || s == "Off"@
        || s == "OFF"@
        || s == "0"@
        || s == "f"@
        || s == "F"@
        || s == "n"@
        || s == "N"@
}

fn is_one_of(s: &str, words: &[&str]) -> (r: bool)
    ensures
        r == exists|i: int| 0 <= i < words@.len() && s@ == (#[trigger] words@[i])@,
{
    let mut i: usize = 0;
    while i < words.len()
        invariant
            i <= words@.len(),
            forall|j: int| 0 <= j < i ==> s@ != (#[trigger] words@[j])@,
        decreases words@.len() - i,
    {
        if str_eq(s, words[i]) {
            return true;
        }
        i += 1;
    }
    false
}

impl FromArgValue for bool {
    open spec fn spec_from_arg_value(s: Seq<char>) -> Option<bool> {
        if true_word(s) {
            Some(true)
        } else if false_word(s) {
            Some(false)
        } else {
            None
        }
    }

    fn from_arg_value(s: &str) -> (r: Option<bool>) {
        let truthy = ["true", "True", "TRUE", "yes", "Yes", "YES", "on", "On", "ON", "1", "t", "T", "y", "Y"];
        let falsy = ["false", "False", "FALSE", "no", "No", "NO", "off", "Off", "OFF", "0", "f", "F", "n", "N"];
        let t = is_one_of(s, &truthy);
        let f = is_one_of(s, &falsy);
        proof {
            if true_word(s@) {
                assert(s@ == truthy@[0]@ || s@ == truthy@[1]@ || s@ == truthy@[2]@ || s@ == truthy@[3]@ || s@ == truthy@[4]@ || s@ == truthy@[5]@ || s@ == truthy@[6]@ || s@ == truthy@[7]@ || s@ == truthy@[8]@ || s@ == truthy@[9]@ || s@ == truthy@[10]@ || s@ == truthy@[11]@ || s@ == truthy@[12]@ || s@ == truthy@[13]@);
            }
            if t {
                let i = choose|i: int| 0 <= i < truthy@.len() && s@ == (#[trigger] truthy@[i])@;
                assert(i == 0 || i == 1 || i == 2 || i == 3 || i == 4 || i == 5 || i == 6 || i == 7 || i == 8 || i == 9 || i == 10 || i == 11 || i == 12 || i == 13);
            }
            if false_word(s@) {
                assert(s@ == falsy@[0]@ || s@ == falsy@[1]@ || s@ == falsy@[2]@ || s@ == falsy@[3]@ || s@ == falsy@[4]@ || s@ == falsy@[5]@ || s@ == falsy@[6]@ || s@ == falsy@[7]@ || s@ == falsy@[8]@ || s@ == falsy@[9]@ || s@ == falsy@[10]@ || s@ == falsy@[11]@ || s@ == falsy@[12]@ || s@ == falsy@[13]@);
            }
            if f {
                let i = choose|i: int| 0 <= i < falsy@.len() && s@ == (#[trigger] falsy@[i])@;
                assert(i == 0 || i == 1 || i == 2 || i == 3 || i == 4 || i == 5 || i == 6 || i == 7 || i == 8 || i == 9 || i == 10 || i == 11 || i == 12 || i == 13);
            }
        }
        if t {
            Some(true)
        } else if f {
            Some(false)
        } else {
            None
        }
    }
}


/// The digit character for `d`, for `d` below ten.
pub open spec fn digit_char(d: nat) -> char {
    if d == 0 {
        '0'
    } else if d == 1 {
        '1'
    } else if d == 2 {
        '2'
    } else if d == 3 {
        '3'
    } else if d == 4 {
        '4'
    } else if d == 5 {
        '5'
    } else if d == 6 {
        '6'
    } else if d == 7 {
        '7'
    } else if d == 8 {
        '8'
    } else {
        '9'
    }
}

/// The decimal digits of `n`, without leading zeros.
pub open spec fn decimal_digits(n: nat) -> Seq<char>
    decreases n,
{
    if n < 10 {
        seq![digit_char(n)]
    } else {
        decimal_digits(n / 10).push(digit_char(n % 10))
    }
}

proof fn lemma_digit_char(d: nat)
    requires
        d < 10,
    ensures
        is_digit(digit_char(d)),
        digit_value(digit_char(d)) == d,
{
}

proof fn lemma_decimal_digits(n: nat)
    ensures
        decimal_digits(n).len() > 0,
        all_digits(decimal_digits(n)),
        decimal_value(decimal_digits(n)) == n,
    decreases n,
{
    lemma_digit_char(n % 10);
    if n < 10 {
        let s = decimal_digits(n);
        assert(s.drop_last() =~= Seq::<char>::empty());
        assert(s.last() == digit_char(n));
        assert(decimal_value(s) == decimal_value(s.drop_last()) * 10 + digit_value(s.last()));
        assert(decimal_value(s.drop_last()) == 0);
    } else {
        lemma_decimal_digits(n / 10);
        let s = decimal_digits(n);
        assert(s.drop_last() =~= decimal_digits(n / 10));
        assert(s.last() == digit_char(n % 10));
        assert(n == (n / 10) * 10 + n % 10);
        assert(decimal_value(s) == decimal_value(s.drop_last()) * 10 + digit_value(s.last()));
        assert forall|i: int| 0 <= i < s.len() implies is_digit(#[trigger] s[i]) by {
            if i < s.len() - 1 {
                assert(s[i] == decimal_digits(n / 10)[i]);
            }
        }
    }
}

/// A leading zero changes nothing: the digits denote the same number.
proof fn lemma_leading_zero_value(s: Seq<char>)
    ensures
        decimal_value(seq!['0'] + s) == decimal_value(s),
    decreases s.len(),
{
    let z = seq!['0'] + s;
    if s.len() > 0 {
        assert(z.drop_last() =~= seq!['0'] + s.drop_last());
        assert(z.last() == s.last());
        lemma_leading_zero_value(s.drop_last());
        assert(decimal_value(z) == decimal_value(z.drop_last()) * 10 + digit_value(z.last()));
        assert(decimal_value(s) == decimal_value(s.drop_last()) * 10 + digit_value(s.last()));
    } else {
        assert(z.drop_last() =~= Seq::<char>::empty());
        assert(z.last() == '0');
        assert(digit_value('0') == 0);
        assert(decimal_value(z.drop_last()) == 0);
        assert(decimal_value(z) == decimal_value(z.drop_last()) * 10 + digit_value(z.last()));
    }
}

/// Every number up to the bound reads back from its decimal digits, and no
/// number above it does.
pub proof fn law_unsigned_round_trip(n: nat, max: nat)
    ensures
        parse_unsigned(decimal_digits(n), max) == if n <= max {
            Some(n)
        } else {
            None::<nat>
        },
{
    lemma_decimal_digits(n);
}

/// Every number in range reads back from its decimal digits, with a leading
/// `-` when it is negative.
pub proof fn law_signed_round_trip(n: int, min_mag: nat, max: nat)
    ensures
        n >= 0 && n <= max ==> parse_signed(decimal_digits(n as nat), min_mag, max) == Some(n),
        n < 0 && -n <= min_mag ==> parse_signed(seq!['-'] + decimal_digits((-n) as nat), min_mag, max)
            == Some(n),
{
    if n >= 0 {
        lemma_decimal_digits(n as nat);
    } else {
        lemma_decimal_digits((-n) as nat);
        assert((seq!['-'] + decimal_digits((-n) as nat)).drop_first() =~= decimal_digits(
            (-n) as nat,
        ));
    }
}

/// Leading zeros do not change what digits denote.
pub proof fn law_leading_zeros(s: Seq<char>, max: nat)
    requires
        s.len() > 0,
    ensures
        parse_unsigned(seq!['0'] + s, max) == parse_unsigned(s, max),
{
    lemma_leading_zero_value(s);
    let z = seq!['0'] + s;
    assert(all_digits(z) <==> all_digits(s)) by {
        if all_digits(s) {
            assert forall|i: int| 0 <= i < z.len() implies is_digit(#[trigger] z[i]) by {
                if i > 0 {
                    assert(z[i] == s[i - 1]);
                }
            }
        }
        if all_digits(z) {
            assert forall|i: int| 0 <= i < s.len() implies is_digit(#[trigger] s[i]) by {
                assert(z[i + 1] == s[i]);
            }
        }
    }
}


/// The decimal text of `n`: its digits, after a `-` when it is negative.
pub open spec fn signed_digits(n: int) -> Seq<char> {
    if n < 0 {
        seq!['-'] + decimal_digits((-n) as nat)
    } else {
        decimal_digits(n as nat)
    }
}

proof fn lemma_signed_text(n: int, min_mag: nat, max: nat)
    ensures
        -min_mag <= n <= max ==> parse_signed(signed_digits(n), min_mag, max) == Some(n),
        n > max ==> parse_signed(signed_digits(n), min_mag, max) is None,
        n < -min_mag ==> parse_signed(signed_digits(n), min_mag, max) is None,
{
    law_signed_round_trip(n, min_mag, max);
    if n < 0 {
        lemma_decimal_digits((-n) as nat);
        assert((seq!['-'] + decimal_digits((-n) as nat)).drop_first() =~= decimal_digits(
            (-n) as nat,
        ));
    } else {
        lemma_decimal_digits(n as nat);
        assert(is_digit(decimal_digits(n as nat)[0]));
    }
}

/// Each unsigned integer type reads back every value of its range from the
/// value's decimal digits, and refuses every number above its range.
pub proof fn law_unsigned_types_round_trip()
    ensures
        forall|n: nat| #[trigger] u8::spec_from_arg_value(decimal_digits(n)) == if n <= u8::MAX {
            Some(n as u8)
        } else {
            None::<u8>
        },
        forall|n: nat| #[trigger] u16::spec_from_arg_value(decimal_digits(n)) == if n <= u16::MAX {
            Some(n as u16)
        } else {
            None::<u16>
        },
        forall|n: nat| #[trigger] u32::spec_from_arg_value(decimal_digits(n)) == if n <= u32::MAX {
            Some(n as u32)
        } else {
            None::<u32>
        },
        forall|n: nat| #[trigger] u64::spec_from_arg_value(decimal_digits(n)) == if n <= u64::MAX {
            Some(n as u64)
        } else {
            None::<u64>
        },
        forall|n: nat| #[trigger] u128::spec_from_arg_value(decimal_digits(n)) == if n
            <= u128::MAX {
            Some(n as u128)
        } else {
            None::<u128>
        },
        forall|n: nat| #[trigger] usize::spec_from_arg_value(decimal_digits(n)) == if n
            <= usize::MAX {
            Some(n as usize)
        } else {
            None::<usize>
        },
{
    assert forall|n: nat| #[trigger] u8::spec_from_arg_value(decimal_digits(n)) == if n <= u8::MAX {
        Some(n as u8)
    } else {
        None::<u8>
    } by {
        law_unsigned_round_trip(n, u8::MAX as nat);
    }
    assert forall|n: nat| #[trigger] u16::spec_from_arg_value(decimal_digits(n)) == if n
        <= u16::MAX {
        Some(n as u16)
    } else {
        None::<u16>
    } by {
        law_unsigned_round_trip(n, u16::MAX as nat);
    }
    assert forall|n: nat| #[trigger] u32::spec_from_arg_value(decimal_digits(n)) == if n
        <= u32::MAX {
        Some(n as u32)
    } else {
        None::<u32>
    } by {
        law_unsigned_round_trip(n, u32::MAX as nat);
    }
    assert forall|n: nat| #[trigger] u64::spec_from_arg_value(decimal_digits(n)) == if n
        <= u64::MAX {
        Some(n as u64)
    } else {
        None::<u64>
    } by {
        law_unsigned_round_trip(n, u64::MAX as nat);
    }
    assert forall|n: nat| #[trigger] u128::spec_from_arg_value(decimal_digits(n)) == if n
        <= u128::MAX {
        Some(n as u128)
    } else {
        None::<u128>
    } by {
        law_unsigned_round_trip(n, u128::MAX as nat);
    }
    assert forall|n: nat| #[trigger] usize::spec_from_arg_value(decimal_digits(n)) == if n
        <= usize::MAX {
        Some(n as usize)
    } else {
        None::<usize>
    } by {
        law_unsigned_round_trip(n, usize::MAX as nat);
    }
}

/// Each signed integer type reads back every value of its range from the
/// value's decimal text, and refuses every number outside its range.
pub proof fn law_signed_types_round_trip()
    ensures
        forall|n: int| #[trigger] i8::spec_from_arg_value(signed_digits(n)) == if i8::MIN <= n
            <= i8::MAX {
            Some(n as i8)
        } else {
            None::<i8>
        },
        forall|n: int| #[trigger] i16::spec_from_arg_value(signed_digits(n)) == if i16::MIN <= n
            <= i16::MAX {
            Some(n as i16)
        } else {
            None::<i16>
        },
        forall|n: int| #[trigger] i32::spec_from_arg_value(signed_digits(n)) == if i32::MIN <= n
            <= i32::MAX {
            Some(n as i32)
        } else {
            None::<i32>
        },
        forall|n: int| #[trigger] i64::spec_from_arg_value(signed_digits(n)) == if i64::MIN <= n
            <= i64::MAX {
            Some(n as i64)
        } else {
            None::<i64>
        },
        forall|n: int| #[trigger] i128::spec_from_arg_value(signed_digits(n)) == if i128::MIN
            <= n <= i128::MAX {
            Some(n as i128)
        } else {
            None::<i128>
        },
        forall|n: int| #[trigger] isize::spec_from_arg_value(signed_digits(n)) == if isize::MIN
            <= n <= isize::MAX {
            Some(n as isize)
        } else {
            None::<isize>
        },
{
    assert forall|n: int| #[trigger] i8::spec_from_arg_value(signed_digits(n)) == if i8::MIN <= n
        <= i8::MAX {
        Some(n as i8)
    } else {
        None::<i8>
    } by {
        lemma_signed_text(n, (i8::MAX as int + 1) as nat, i8::MAX as nat);
    }
    assert forall|n: int| #[trigger] i16::spec_from_arg_value(signed_digits(n)) == if i16::MIN
        <= n <= i16::MAX {
        Some(n as i16)
    } else {
        None::<i16>
    } by {
        lemma_signed_text(n, (i16::MAX as int + 1) as nat, i16::MAX as nat);
    }
    assert forall|n: int| #[trigger] i32::spec_from_arg_value(signed_digits(n)) == if i32::MIN
        <= n <= i32::MAX {
        Some(n as i32)
    } else {
        None::<i32>
    } by {
        lemma_signed_text(n, (i32::MAX as int + 1) as nat, i32::MAX as nat);
    }
    assert forall|n: int| #[trigger] i64::spec_from_arg_value(signed_digits(n)) == if i64::MIN
        <= n <= i64::MAX {
        Some(n as i64)
    } else {
        None::<i64>
    } by {
        lemma_signed_text(n, (i64::MAX as int + 1) as nat, i64::MAX as nat);
    }
    assert forall|n: int| #[trigger] i128::spec_from_arg_value(signed_digits(n)) == if i128::MIN
        <= n <= i128::MAX {
        Some(n as i128)
    } else {
        None::<i128>
    } by {
        lemma_signed_text(n, (i128::MAX as int + 1) as nat, i128::MAX as nat);
    }
    assert forall|n: int| #[trigger] isize::spec_from_arg_value(signed_digits(n)) == if isize::MIN
        <= n <= isize::MAX {
        Some(n as isize)
    } else {
        None::<isize>
    } by {
        lemma_signed_text(n, (isize::MAX as int + 1) as nat, isize::MAX as nat);
    }
}

} // verus!
