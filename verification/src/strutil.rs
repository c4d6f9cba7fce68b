//! Text helpers: white space, trimming, splitting on a delimiter and decimal numbers.
//!
//! Every function has a mathematical counterpart on `Seq<char>`, the view of a string,
//! and the executable functions are specified by those counterparts.

use crate::lemmas::{
    lemma_decimal_value_prefix, lemma_decimal_value_push, lemma_find_at, lemma_tokens_unfold,
    lemma_trim_at,
};
use vstd::string::is_ascii_spec_bytes;
use vstd::utf8::is_ascii_chars;
use vstd::prelude::*;

verus! {

/// Whether `c` is a white-space character (the Unicode `White_Space` property).
pub open spec fn is_space(c: char) -> bool {
    let n = c as u32;
    ||| 0x09 <= n <= 0x0D
    ||| n == 0x20
    ||| n == 0x85
    ||| n == 0xA0
    ||| n == 0x1680
    ||| 0x2000 <= n <= 0x200A
    ||| n == 0x2028
    ||| n == 0x2029
    ||| n == 0x202F
    ||| n == 0x205F
    ||| n == 0x3000
}

/// `s` without its leading white space.
pub open spec fn trim_start(s: Seq<char>) -> Seq<char>
    decreases s.len(),
{
    if s.len() > 0 && is_space(s.first()) {
        trim_start(s.drop_first())
    } else {
        s
    }
}

/// `s` without its trailing white space.
pub open spec fn trim_end(s: Seq<char>) -> Seq<char>
    decreases s.len(),
{
    if s.len() > 0 && is_space(s.last()) {
        trim_end(s.drop_last())
    } else {
        s
    }
}

/// `s` without its leading and trailing white space.
pub open spec fn trim(s: Seq<char>) -> Seq<char> {
    trim_end(trim_start(s))
}

/// The index of the first `delim` in `s`, or `s.len()` where `s` holds none.
pub open spec fn find(s: Seq<char>, delim: char) -> nat
    decreases s.len(),
{
    if s.len() == 0 || s.first() == delim {
        0
    } else {
        1 + find(s.drop_first(), delim)
    }
}

/// The pieces that the occurrences of `delim` cut `s` into, in order.
/// A text with `k` delimiters has `k + 1` pieces, some of which may be empty.
pub open spec fn pieces(s: Seq<char>, delim: char) -> Seq<Seq<char>>
    decreases s.len(),
{
    let n = find(s, delim) as int;
    if n >= s.len() {
        seq![s]
    } else {
        seq![s.take(n)] + pieces(s.skip(n + 1), delim)
    }
}

/// The clean split of `s`: its pieces, each trimmed, without those that trimming
/// leaves empty.
pub open spec fn tokens(s: Seq<char>, delim: char) -> Seq<Seq<char>> {
    pieces(s, delim).map_values(|p: Seq<char>| trim(p)).filter(|t: Seq<char>| t.len() > 0)
}

/// Whether `t` can be a token of a clean split on `delim`: it is not empty, neither
/// starts nor ends with white space, and holds no `delim`.
pub open spec fn is_token(t: Seq<char>, delim: char) -> bool {
    &&& t.len() > 0
    &&& !is_space(t.first())
    &&& !is_space(t.last())
    &&& forall|i: int| 0 <= i < t.len() ==> t[i] != delim
}

/// What the clean split keeps of one piece: its trimmed text, unless that is empty.
pub open spec fn token_of(piece: Seq<char>) -> Seq<Seq<char>> {
    if trim(piece).len() > 0 {
        seq![trim(piece)]
    } else {
        Seq::empty()
    }
}

/// Whether `s` holds a character that is neither `delim` nor white space.
pub open spec fn has_content(s: Seq<char>, delim: char) -> bool {
    exists|i: int| 0 <= i < s.len() && #[trigger] s[i] != delim && !is_space(s[i])
}

/// Whether `s` holds white space only.
pub open spec fn is_blank(s: Seq<char>) -> bool {
    forall|i: int| 0 <= i < s.len() ==> is_space(#[trigger] s[i])
}

/// Whether `c` is one of the decimal digits `0` to `9`.
pub open spec fn is_digit(c: char) -> bool {
    '0' <= c <= '9'
}

/// The number that the digit `c` stands for.
pub open spec fn digit_value(c: char) -> nat {
    if is_digit(c) {
        (c as u32 - '0' as u32) as nat
    } else {
        0
    }
}

/// Whether `s` is a decimal numeral: one digit or more, and nothing else.
pub open spec fn is_numeral(s: Seq<char>) -> bool {
    s.len() > 0 && forall|i: int| 0 <= i < s.len() ==> is_digit(#[trigger] s[i])
}

/// The number that the digits of `s` denote, read in base ten.
pub open spec fn decimal_value(s: Seq<char>) -> nat
    decreases s.len(),
{
    if s.len() == 0 {
        0
    } else {
        10 * decimal_value(s.drop_last()) + digit_value(s.last())
    }
}

/// The number that `s` denotes, where `s` is a numeral of a value up to `max`.
pub open spec fn parse_num(s: Seq<char>, max: nat) -> Option<nat> {
    if is_numeral(s) && decimal_value(s) <= max {
        Some(decimal_value(s))
    } else {
        None
    }
}

/// The number that `s` denotes, or `default` where `s` denotes none up to `max`.
pub open spec fn num_or(s: Seq<char>, max: nat, default: nat) -> nat {
    match parse_num(s, max) {
        Some(n) => n,
        None => default,
    }
}

/// The digit that stands for `d`, a number below ten.
pub open spec fn digit_char(d: nat) -> char {
    ('0' as u32 + d) as char
}

/// The decimal numeral of `n`, without leading zeros.
pub open spec fn numeral(n: nat) -> Seq<char>
    decreases n,
{
    if n < 10 {
        seq![digit_char(n)]
    } else {
        numeral(n / 10).push(digit_char(n % 10))
    }
}

/// The views of the strings in `v`, in order.
pub open spec fn views(v: Seq<&str>) -> Seq<Seq<char>> {
    v.map_values(|t: &str| t@)
}

/// Tests whether `c` is a white-space character.
pub fn is_whitespace(c: char) -> (b: bool)
    ensures
        b == is_space(c),
{
    let n: u32 = c as u32;
    (0x09 <= n && n <= 0x0D) || n == 0x20 || n == 0x85 || n == 0xA0 || n == 0x1680 || (0x2000 <= n
        && n <= 0x200A) || n == 0x2028 || n == 0x2029 || n == 0x202F || n == 0x205F || n == 0x3000
}

/// The characters of `s`, so that they can be read by index.
fn to_chars(s: &str) -> (chars: Vec<char>)
    ensures
        chars@ == s@,
{
    let mut chars: Vec<char> = Vec::new();
    for c in it: s.chars()
        invariant
            it.seq() == s@,
            chars@ == it.seq().take(it.index()),
    {
        chars.push(c);
    }
    chars
}

/// The slice of `s` from character `from` up to character `to`. Where `ascii` says
/// that `s` is all ASCII the slice is cut at once; otherwise `s` is scanned up to `to`.
fn slice_chars<'a>(s: &'a str, ascii: bool, from: usize, to: usize) -> (t: &'a str)
    requires
        ascii ==> s.is_ascii(),
        from <= to <= s@.len(),
    ensures
        t@ == s@.subrange(from as int, to as int),
{
    if ascii {
        s.substring_ascii(from, to)
    } else {
        s.substring_char(from, to)
    }
}

/// Splits `s` on `delim`, trims each piece and drops the pieces that are then empty.
/// The tokens are slices of `s`, in the order in which they stand there.
pub fn clean_split<'a>(s: &'a str, delim: char) -> (out: Vec<&'a str>)
    ensures
        views(out@) == tokens(s@, delim),
{
    let chars = to_chars(s);
    let n = chars.len();
    let ascii = s.is_ascii();
    let mut out: Vec<&'a str> = Vec::new();
    let mut start: usize = 0;
    let mut more = true;
    proof {
        assert(s@.skip(0) =~= s@);
        assert(views(out@) + tokens(s@, delim) =~= tokens(s@, delim));
    }
    while more
        invariant
            chars@ == s@,
            n == chars.len(),
            ascii ==> s.is_ascii(),
            start <= n,
            more ==> tokens(s@, delim) == views(out@) + tokens(s@.skip(start as int), delim),
            !more ==> tokens(s@, delim) == views(out@),
        decreases n - start + if more { 1nat } else { 0nat },
    {
        let mut end = start;
        while end < n && chars[end] != delim
            invariant
                start <= end <= n,
                n == chars.len(),
                forall|i: int| start <= i < end ==> chars[i] != delim,
            decreases n - end,
        {
            end += 1;
        }
        let mut from = start;
        while from < end && is_whitespace(chars[from])
            invariant
                start <= from <= end <= n,
                n == chars.len(),
                forall|i: int| start <= i < from ==> is_space(chars[i]),
            decreases end - from,
        {
            from += 1;
        }
        let mut to = end;
        while to > from && is_whitespace(chars[to - 1])
            invariant
                from <= to <= end <= n,
                n == chars.len(),
                forall|i: int| to <= i < end ==> is_space(chars[i]),
            decreases to,
        {
            to -= 1;
        }
        proof {
            let rest = s@.skip(start as int);
            let piece = s@.subrange(start as int, end as int);
            assert(rest.take(end - start) =~= piece);
            lemma_find_at(rest, delim, end - start);
            lemma_trim_at(piece, from - start, to - start);
            assert(piece.subrange(from - start, to - start) =~= s@.subrange(
                from as int,
                to as int,
            ));
            lemma_tokens_unfold(rest, delim);
            if end < n {
                assert(rest.skip(end - start + 1) =~= s@.skip(end + 1));
            } else {
                assert(piece =~= rest);
            }
        }
        let ghost before = views(out@);
        if from < to {
            let token = slice_chars(s, ascii, from, to);
            out.push(token);
            assert(views(out@) =~= before + seq![token@]);
        } else {
            assert(before + Seq::<Seq<char>>::empty() =~= before);
        }
        assert(views(out@) == before + token_of(s@.subrange(start as int, end as int)));
        if end < n {
            start = end + 1;
        } else {
            more = false;
        }
    }
    out
}

/// Reads `s` as a decimal numeral. The result is `None` where `s` is empty, holds
/// anything but digits, or denotes a number above `max`.
pub fn parse_decimal(s: &str, max: u32) -> (r: Option<u32>)
    ensures
        match r {
            Some(n) => parse_num(s@, max as nat) == Some(n as nat),
            None => parse_num(s@, max as nat) is None,
        },
{
    broadcast use is_ascii_spec_bytes;

    if !s.is_ascii() {
        assert(is_numeral(s@) ==> is_ascii_chars(s@));
        return None;
    }
    let bytes = s.as_bytes();
    let n = bytes.len();
    if n == 0 {
        return None;
    }
    let mut acc: u64 = 0;
    let mut i: usize = 0;
    while i < n
        invariant
            is_ascii_chars(s@),
            n == s@.len(),
            bytes@.len() == n,
            forall|j: int| 0 <= j < n ==> bytes@[j] == s@[j] as u8,
            i <= n,
            acc == decimal_value(s@.take(i as int)),
            acc <= max,
            forall|j: int| 0 <= j < i ==> is_digit(s@[j]),
        decreases n - i,
    {
        let b = bytes[i];
        if b < '0' as u8 || b > '9' as u8 {
            assert(!is_digit(s@[i as int]));
            return None;
        }
        proof {
            assert(s@.take(i + 1) =~= s@.take(i as int).push(s@[i as int]));
            lemma_decimal_value_push(s@.take(i as int), s@[i as int]);
        }
        acc = acc * 10 + (b - '0' as u8) as u64;
        if acc > max as u64 {
            proof {
                lemma_decimal_value_prefix(s@, i + 1);
            }
            return None;
        }
        i += 1;
    }
    assert(s@.take(n as int) =~= s@);
    Some(acc as u32)
}

/// The port number that `s` denotes, or `default` where `s` is no decimal numeral
/// of a value up to 65535.
pub fn to_num_u16(s: &str, default: u16) -> (n: u16)
    ensures
        n == num_or(s@, 65535, default as nat),
{
    match parse_decimal(s, 65535) {
        Some(n) => n as u16,
        None => default,
    }
}

/// The octet that `s` denotes, or `default` where `s` is no decimal numeral of a
/// value up to 255.
pub fn to_num_u8(s: &str, default: u8) -> (n: u8)
    ensures
        n == num_or(s@, 255, default as nat),
{
    match parse_decimal(s, 255) {
        Some(n) => n as u8,
        None => default,
    }
}

/// Appends the decimal numeral of `n` to `out`.
pub fn push_numeral(out: &mut String, n: u16)
    ensures
        final(out)@ == old(out)@ + numeral(n as nat),
    decreases n,
{
    if n >= 10 {
        push_numeral(out, n / 10);
    }
    let d = (n % 10) as usize;
    let digits = "0123456789";
    proof {
        reveal_strlit("0123456789");
    }
    let digit = digits.substring_ascii(d, d + 1);
    assert(digit@ =~= seq![digit_char(d as nat)]);
    out.append(digit);
    assert(out@ =~= old(out)@ + numeral(n as nat));
}

} // verus!
