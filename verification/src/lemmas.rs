//! Facts about the text functions that the executable code and the laws rest on.

use crate::strutil::{
    decimal_value, digit_char, digit_value, find, has_content, is_blank, is_digit, is_numeral,
    is_space, is_token, numeral, pieces, token_of, tokens, trim, trim_end, trim_start,
};
use vstd::prelude::*;

verus! {

// The first delimiter

/// `find` stays within the text, passes over no delimiter, and stops on one.
pub proof fn lemma_find_bounds(s: Seq<char>, delim: char)
    ensures
        find(s, delim) <= s.len(),
        forall|i: int| 0 <= i < find(s, delim) ==> s[i] != delim,
        find(s, delim) < s.len() ==> s[find(s, delim) as int] == delim,
    decreases s.len(),
{
    if s.len() > 0 && s.first() != delim {
        let rest = s.drop_first();
        lemma_find_bounds(rest, delim);
        assert forall|i: int| 0 <= i < find(s, delim) implies s[i] != delim by {
            if i > 0 {
                assert(s[i] == rest[i - 1]);
            }
        }
        if find(s, delim) < s.len() {
            assert(s[find(s, delim) as int] == rest[find(rest, delim) as int]);
        }
    }
}

/// The first delimiter is at `n` where none comes before `n` and `n` holds one or
/// is the end of the text.
pub proof fn lemma_find_at(s: Seq<char>, delim: char, n: int)
    requires
        0 <= n <= s.len(),
        forall|i: int| 0 <= i < n ==> s[i] != delim,
        n < s.len() ==> s[n] == delim,
    ensures
        find(s, delim) == n,
    decreases s.len(),
{
    if n > 0 {
        let rest = s.drop_first();
        assert forall|i: int| 0 <= i < n - 1 implies rest[i] != delim by {
            assert(rest[i] == s[i + 1]);
        }
        lemma_find_at(rest, delim, n - 1);
    }
}

// Trimming

/// Leading white space ends at `a` where all before `a` is white space and `a` holds
/// another character or is the end of the text.
pub proof fn lemma_trim_start_at(s: Seq<char>, a: int)
    requires
        0 <= a <= s.len(),
        forall|i: int| 0 <= i < a ==> is_space(s[i]),
        a < s.len() ==> !is_space(s[a]),
    ensures
        trim_start(s) == s.skip(a),
    decreases s.len(),
{
    if a > 0 {
        let rest = s.drop_first();
        assert forall|i: int| 0 <= i < a - 1 implies is_space(rest[i]) by {
            assert(rest[i] == s[i + 1]);
        }
        lemma_trim_start_at(rest, a - 1);
        assert(rest.skip(a - 1) =~= s.skip(a));
    } else {
        assert(s.skip(0) =~= s);
    }
}

/// Trailing white space starts at `b` where all from `b` on is white space and the
/// character before `b`, if there is one, is not.
pub proof fn lemma_trim_end_at(s: Seq<char>, b: int)
    requires
        0 <= b <= s.len(),
        forall|i: int| b <= i < s.len() ==> is_space(s[i]),
        b > 0 ==> !is_space(s[b - 1]),
    ensures
        trim_end(s) == s.take(b),
    decreases s.len(),
{
    if b < s.len() {
        let rest = s.drop_last();
        lemma_trim_end_at(rest, b);
        assert(rest.take(b) =~= s.take(b));
    } else {
        assert(s.take(b) =~= s);
    }
}

/// Trimming leaves the range from `a` to `b` where only white space lies outside it
/// and, unless it is empty, it starts and ends with other characters.
pub proof fn lemma_trim_at(s: Seq<char>, a: int, b: int)
    requires
        0 <= a <= b <= s.len(),
        forall|i: int| 0 <= i < a ==> is_space(s[i]),
        forall|i: int| b <= i < s.len() ==> is_space(s[i]),
        a < b ==> !is_space(s[a]) && !is_space(s[b - 1]),
    ensures
        trim(s) == s.subrange(a, b),
{
    if a < b {
        lemma_trim_start_at(s, a);
        lemma_trim_end_at(s.skip(a), b - a);
        assert(s.skip(a).take(b - a) =~= s.subrange(a, b));
    } else {
        lemma_trim_start_at(s, s.len() as int);
        assert(s.skip(s.len() as int) =~= s.subrange(a, b));
    }
}

/// Where the leading white space of `s` ends.
pub proof fn lemma_trim_start_bounds(s: Seq<char>) -> (a: int)
    ensures
        0 <= a <= s.len(),
        forall|i: int| 0 <= i < a ==> is_space(s[i]),
        a < s.len() ==> !is_space(s[a]),
        trim_start(s) == s.skip(a),
    decreases s.len(),
{
    if s.len() > 0 && is_space(s.first()) {
        let rest = s.drop_first();
        let a = lemma_trim_start_bounds(rest) + 1;
        assert forall|i: int| 0 <= i < a implies is_space(s[i]) by {
            if i > 0 {
                assert(s[i] == rest[i - 1]);
            }
        }
        assert(a < s.len() ==> s[a] == rest[a - 1]);
        lemma_trim_start_at(s, a);
        a
    } else {
        lemma_trim_start_at(s, 0);
        0
    }
}

/// Where the trailing white space of `s` starts.
pub proof fn lemma_trim_end_bounds(s: Seq<char>) -> (b: int)
    ensures
        0 <= b <= s.len(),
        forall|i: int| b <= i < s.len() ==> is_space(s[i]),
        b > 0 ==> !is_space(s[b - 1]),
        trim_end(s) == s.take(b),
    decreases s.len(),
{
    if s.len() > 0 && is_space(s.last()) {
        let rest = s.drop_last();
        let b = lemma_trim_end_bounds(rest);
        assert forall|i: int| b <= i < s.len() implies is_space(s[i]) by {
            if i < rest.len() {
                assert(s[i] == rest[i]);
            }
        }
        assert(b > 0 ==> s[b - 1] == rest[b - 1]);
        lemma_trim_end_at(s, b);
        b
    } else {
        lemma_trim_end_at(s, s.len() as int);
        s.len() as int
    }
}

/// The range of `s` that trimming leaves: only white space lies outside it, and
/// unless it is empty it starts and ends with other characters.
pub proof fn lemma_trim_bounds(s: Seq<char>) -> (r: (int, int))
    ensures
        0 <= r.0 <= r.1 <= s.len(),
        forall|i: int| 0 <= i < r.0 ==> is_space(s[i]),
        forall|i: int| r.1 <= i < s.len() ==> is_space(s[i]),
        r.0 < r.1 ==> !is_space(s[r.0]) && !is_space(s[r.1 - 1]),
        trim(s) == s.subrange(r.0, r.1),
{
    let a = lemma_trim_start_bounds(s);
    let k = lemma_trim_end_bounds(s.skip(a));
    assert(s.skip(a).take(k) =~= s.subrange(a, a + k));
    if k > 0 {
        assert(s.skip(a)[k - 1] == s[a + k - 1]);
    }
    assert forall|i: int| a + k <= i < s.len() implies is_space(s[i]) by {
        assert(s[i] == s.skip(a)[i - a]);
    }
    (a, a + k)
}

/// Trimming leaves a text alone that neither starts nor ends with white space.
pub proof fn lemma_trim_tight(t: Seq<char>)
    requires
        t.len() > 0 ==> !is_space(t.first()) && !is_space(t.last()),
    ensures
        trim(t) == t,
{
    lemma_trim_at(t, 0, t.len() as int);
    assert(t.subrange(0, t.len() as int) =~= t);
}

/// The trimmed text is empty exactly where the text is all white space.
pub proof fn lemma_trim_empty_iff(s: Seq<char>)
    ensures
        trim(s).len() == 0 <==> is_blank(s),
{
    let (a, b) = lemma_trim_bounds(s);
}

/// White space added at either end of a text is trimmed away with its own.
pub proof fn lemma_trim_padding(before: Seq<char>, s: Seq<char>, after: Seq<char>)
    requires
        is_blank(before),
        is_blank(after),
    ensures
        trim(before + s + after) == trim(s),
{
    let padded = before + s + after;
    let (a, b) = lemma_trim_bounds(s);
    let k = before.len() as int;
    assert forall|i: int| 0 <= i < padded.len() implies padded[i] == if i < k {
        before[i]
    } else if i < k + s.len() {
        s[i - k]
    } else {
        after[i - k - s.len()]
    } by {}
    if a < b {
        lemma_trim_at(padded, k + a, k + b);
        assert(padded.subrange(k + a, k + b) =~= s.subrange(a, b));
    } else {
        lemma_trim_at(padded, 0, 0);
        assert(padded.subrange(0, 0) =~= s.subrange(a, b));
    }
}

// The clean split

/// The clean split, one piece at a time: what the first piece gives, then the
/// clean split of the text behind the first delimiter.
pub proof fn lemma_tokens_unfold(s: Seq<char>, delim: char)
    ensures
        tokens(s, delim) == if find(s, delim) >= s.len() {
            token_of(s)
        } else {
            token_of(s.take(find(s, delim) as int)) + tokens(
                s.skip(find(s, delim) as int + 1),
                delim,
            )
        },
{
    let n = find(s, delim) as int;
    let clean = |p: Seq<char>| trim(p);
    let kept = |t: Seq<char>| t.len() > 0;
    if n >= s.len() {
        assert(seq![s].map_values(clean) =~= seq![trim(s)]);
        Seq::<Seq<char>>::empty().lemma_filter_prepend(trim(s), kept);
        assert(seq![trim(s)] + Seq::<Seq<char>>::empty() =~= seq![trim(s)]);
        assert(token_of(s) + Seq::<Seq<char>>::empty().filter(kept) =~= token_of(s));
    } else {
        let head = s.take(n);
        let rest = pieces(s.skip(n + 1), delim);
        assert((seq![head] + rest).map_values(clean) =~= seq![trim(head)] + rest.map_values(
            clean,
        ));
        rest.map_values(clean).lemma_filter_prepend(trim(head), kept);
    }
}

/// A piece without delimiter gives either nothing or one token.
pub proof fn lemma_token_of_is_token(piece: Seq<char>, delim: char)
    requires
        forall|i: int| 0 <= i < piece.len() ==> piece[i] != delim,
    ensures
        token_of(piece).len() <= 1,
        token_of(piece).len() == 1 ==> is_token(token_of(piece)[0], delim),
{
    let (a, b) = lemma_trim_bounds(piece);
}

/// A text without delimiter is one piece.
pub proof fn lemma_tokens_one_piece(s: Seq<char>, delim: char)
    requires
        forall|i: int| 0 <= i < s.len() ==> s[i] != delim,
    ensures
        tokens(s, delim) == token_of(s),
{
    lemma_find_at(s, delim, s.len() as int);
    lemma_tokens_unfold(s, delim);
}

/// A text that starts with a piece `x` and a delimiter gives what `x` gives, then
/// what the rest gives.
pub proof fn lemma_tokens_concat(x: Seq<char>, y: Seq<char>, delim: char)
    requires
        forall|i: int| 0 <= i < x.len() ==> x[i] != delim,
    ensures
        tokens(x + seq![delim] + y, delim) == token_of(x) + tokens(y, delim),
{
    let s = x + seq![delim] + y;
    let n = x.len() as int;
    lemma_find_at(s, delim, n);
    lemma_tokens_unfold(s, delim);
    assert(s.take(n) =~= x);
    assert(s.skip(n + 1) =~= y);
}

/// Every token of a clean split is a token: not empty, trimmed, and free of the
/// delimiter.
pub proof fn lemma_tokens_are_tokens(s: Seq<char>, delim: char)
    ensures
        forall|k: int|
            0 <= k < tokens(s, delim).len() ==> is_token(#[trigger] tokens(s, delim)[k], delim),
    decreases s.len(),
{
    let n = find(s, delim) as int;
    lemma_find_bounds(s, delim);
    lemma_tokens_unfold(s, delim);
    if n >= s.len() {
        lemma_token_of_is_token(s, delim);
    } else {
        lemma_token_of_is_token(s.take(n), delim);
        lemma_tokens_are_tokens(s.skip(n + 1), delim);
    }
}

/// A token is the whole clean split of itself.
pub proof fn lemma_tokens_of_token(t: Seq<char>, delim: char)
    requires
        is_token(t, delim),
    ensures
        tokens(t, delim) == seq![t],
{
    lemma_tokens_one_piece(t, delim);
    lemma_trim_tight(t);
}

/// A clean split has a token exactly where the text holds a character that is
/// neither the delimiter nor white space.
pub proof fn lemma_tokens_nonempty_iff(s: Seq<char>, delim: char)
    ensures
        tokens(s, delim).len() > 0 <==> has_content(s, delim),
    decreases s.len(),
{
    let n = find(s, delim) as int;
    lemma_find_bounds(s, delim);
    lemma_tokens_unfold(s, delim);
    let head = s.take(n);
    let rest = s.skip(n + 1);
    assert(n >= s.len() ==> head =~= s);
    lemma_trim_empty_iff(head);
    if n < s.len() {
        lemma_tokens_nonempty_iff(rest, delim);
    }
    if tokens(s, delim).len() > 0 {
        if token_of(head).len() > 0 {
            let i = choose|i: int| 0 <= i < head.len() && !is_space(#[trigger] head[i]);
            assert(s[i] == head[i]);
        } else {
            let j = choose|j: int|
                0 <= j < rest.len() && #[trigger] rest[j] != delim && !is_space(rest[j]);
            assert(s[j + n + 1] == rest[j]);
        }
    }
    if has_content(s, delim) {
        let i = choose|i: int| 0 <= i < s.len() && #[trigger] s[i] != delim && !is_space(s[i]);
        if i < n {
            assert(head[i] == s[i]);
        } else {
            assert(rest[i - n - 1] == s[i]);
        }
    }
}

// Decimal numerals

/// A digit appended to a numeral multiplies its value by ten and adds the digit.
pub proof fn lemma_decimal_value_push(s: Seq<char>, c: char)
    ensures
        decimal_value(s.push(c)) == 10 * decimal_value(s) + digit_value(c),
{
    assert(s.push(c).drop_last() =~= s);
}

/// No prefix of a text has a greater decimal value than the text.
pub proof fn lemma_decimal_value_prefix(s: Seq<char>, k: int)
    requires
        0 <= k <= s.len(),
    ensures
        decimal_value(s.take(k)) <= decimal_value(s),
    decreases s.len(),
{
    if k < s.len() {
        lemma_decimal_value_prefix(s.drop_last(), k);
        assert(s.drop_last().take(k) =~= s.take(k));
    } else {
        assert(s.take(k) =~= s);
    }
}

/// The digit for a number below ten is a digit, and stands for that number.
pub proof fn lemma_digit_char(d: nat)
    requires
        d < 10,
    ensures
        is_digit(digit_char(d)),
        digit_value(digit_char(d)) == d,
{
    assert(digit_char(d) as u32 == 48 + d);
}

/// The numeral of a number is a numeral, and denotes that number.
pub proof fn lemma_numeral_value(n: nat)
    ensures
        is_numeral(numeral(n)),
        decimal_value(numeral(n)) == n,
    decreases n,
{
    lemma_digit_char(n % 10);
    if n < 10 {
        lemma_decimal_value_push(Seq::empty(), digit_char(n));
        assert(Seq::<char>::empty().push(digit_char(n)) =~= numeral(n));
    } else {
        lemma_numeral_value(n / 10);
        lemma_decimal_value_push(numeral(n / 10), digit_char(n % 10));
    }
}

} // verus!
