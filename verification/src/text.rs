//! Text as a sequence of characters: trimming, splitting into words, joining
//! and reading decimal numbers, each with its mathematical definition.

use vstd::prelude::*;
use crate::chars::{char_digit_value, char_is_digit, char_is_whitespace, digit_value, is_digit, is_white_space};

verus! {

/// `s` without its leading run of whitespace.
pub open spec fn trim_start(s: Seq<char>) -> Seq<char>
    decreases s.len(),
{
    if s.len() > 0 && is_white_space(s[0]) {
        trim_start(s.drop_first())
    } else {
        s
    }
}

/// `s` without its trailing run of whitespace.
pub open spec fn trim_end(s: Seq<char>) -> Seq<char>
    decreases s.len(),
{
    if s.len() > 0 && is_white_space(s.last()) {
        trim_end(s.drop_last())
    } else {
        s
    }
}

/// `s` without leading and trailing whitespace.
pub open spec fn trimmed(s: Seq<char>) -> Seq<char> {
    trim_end(trim_start(s))
}

/// A leading run of `k` whitespace characters that ends at a character which
/// is not whitespace, or at the end of `s`, is exactly what `trim_start` cuts.
pub proof fn lemma_trim_start_is_skip(s: Seq<char>, k: int)
    requires
        0 <= k <= s.len(),
        forall|i: int| 0 <= i < k ==> is_white_space(#[trigger] s[i]),
        k < s.len() ==> !is_white_space(s[k]),
    ensures
        trim_start(s) == s.skip(k),
    decreases k,
{
    if k == 0 {
        assert(s.skip(0) =~= s);
    } else {
        let t = s.drop_first();
        assert forall|i: int| 0 <= i < k - 1 implies is_white_space(#[trigger] t[i]) by {
            assert(t[i] == s[i + 1]);
        }
        lemma_trim_start_is_skip(t, k - 1);
        assert(t.skip(k - 1) =~= s.skip(k));
    }
}

/// A trailing run of whitespace that starts at `k`, after a character which
/// is not whitespace or at the start of `s`, is exactly what `trim_end` cuts.
pub proof fn lemma_trim_end_is_take(s: Seq<char>, k: int)
    requires
        0 <= k <= s.len(),
        forall|i: int| k <= i < s.len() ==> is_white_space(#[trigger] s[i]),
        0 < k ==> !is_white_space(s[k - 1]),
    ensures
        trim_end(s) == s.take(k),
    decreases s.len() - k,
{
    if k == s.len() {
        assert(s.take(k) =~= s);
    } else {
        let t = s.drop_last();
        lemma_trim_end_is_take(t, k);
        assert(t.take(k) =~= s.take(k));
    }
}

/// What `trim_start` returns is no longer than `s` and does not begin with
/// whitespace.
pub proof fn lemma_trim_start_shape(s: Seq<char>)
    ensures
        trim_start(s).len() <= s.len(),
        trim_start(s).len() > 0 ==> !is_white_space(trim_start(s)[0]),
    decreases s.len(),
{
    if s.len() > 0 && is_white_space(s[0]) {
        lemma_trim_start_shape(s.drop_first());
    }
}

/// What `trim_end` returns is a leading part of `s` that does not end with
/// whitespace.
pub proof fn lemma_trim_end_shape(s: Seq<char>)
    ensures
        trim_end(s).len() <= s.len(),
        trim_end(s) == s.take(trim_end(s).len() as int),
        trim_end(s).len() > 0 ==> !is_white_space(trim_end(s).last()),
    decreases s.len(),
{
    if s.len() > 0 && is_white_space(s.last()) {
        let t = s.drop_last();
        lemma_trim_end_shape(t);
        assert(t.take(trim_end(t).len() as int) =~= s.take(trim_end(t).len() as int));
    } else {
        assert(s.take(s.len() as int) =~= s);
    }
}

/// What trimming leaves neither begins nor ends with whitespace.
pub proof fn lemma_trimmed_shape(s: Seq<char>)
    ensures
        trimmed(s).len() > 0 ==> !is_white_space(trimmed(s)[0]) && !is_white_space(
            trimmed(s).last(),
        ),
{
    let t = trim_start(s);
    lemma_trim_start_shape(s);
    lemma_trim_end_shape(t);
}

/// Trimming the end of a text that starts with a character which is not
/// whitespace leaves that character in place.
pub proof fn lemma_trim_end_keeps_start(s: Seq<char>)
    requires
        s.len() > 0,
        !is_white_space(s[0]),
    ensures
        trim_end(s).len() > 0,
    decreases s.len(),
{
    if is_white_space(s.last()) {
        lemma_trim_end_keeps_start(s.drop_last());
    }
}

/// The characters of a string slice, in order.
pub fn collect_chars(s: &str) -> (v: Vec<char>)
    ensures
        v@ == s@,
{
    let mut v: Vec<char> = Vec::new();
    for c in it: s.chars()
        invariant
            it.seq() == s@,
            v@ == it.seq().take(it.index() as int),
    {
        v.push(c);
        assert(it.seq().take(it.index() + 1) =~= it.seq().take(it.index() as int).push(c));
    }
    assert(v@ =~= s@);
    v
}

/// The bounds of what trimming leaves of `chars` from position `from` on.
pub fn trim_bounds(chars: &Vec<char>, from: usize) -> (bounds: (usize, usize))
    requires
        from <= chars@.len(),
    ensures
        from <= bounds.0 <= bounds.1 <= chars@.len(),
        chars@.subrange(bounds.0 as int, bounds.1 as int) == trimmed(chars@.skip(from as int)),
{
    let n = chars.len();
    let mut lo: usize = from;
    while lo < n && char_is_whitespace(chars[lo])
        invariant
            n == chars@.len(),
            from <= lo <= n,
            forall|i: int| from <= i < lo ==> is_white_space(#[trigger] chars@[i]),
        decreases n - lo,
    {
        lo += 1;
    }
    let mut hi: usize = n;
    while hi > lo && char_is_whitespace(chars[hi - 1])
        invariant
            n == chars@.len(),
            lo <= hi <= n,
            forall|i: int| hi <= i < n ==> is_white_space(#[trigger] chars@[i]),
        decreases hi,
    {
        hi -= 1;
    }
    proof {
        let s = chars@.skip(from as int);
        lemma_trim_start_is_skip(s, lo - from);
        let t = s.skip(lo - from);
        assert(t =~= chars@.skip(lo as int));
        lemma_trim_end_is_take(t, hi - lo);
        assert(t.take(hi - lo) =~= chars@.subrange(lo as int, hi as int));
    }
    (lo, hi)
}

/// The length of the leading run of characters of `s` that are not
/// whitespace.
pub open spec fn word_len(s: Seq<char>) -> nat
    decreases s.len(),
{
    if s.len() > 0 && !is_white_space(s[0]) {
        1 + word_len(s.drop_first())
    } else {
        0
    }
}

/// The leading run of non-whitespace characters lies within `s`.
pub proof fn lemma_word_len_bound(s: Seq<char>)
    ensures
        word_len(s) <= s.len(),
    decreases s.len(),
{
    if s.len() > 0 && !is_white_space(s[0]) {
        lemma_word_len_bound(s.drop_first());
    }
}

/// A leading run of `k` non-whitespace characters that ends at whitespace, or
/// at the end of `s`, has length `word_len(s)`.
pub proof fn lemma_word_len_is(s: Seq<char>, k: int)
    requires
        0 <= k <= s.len(),
        forall|i: int| 0 <= i < k ==> !is_white_space(#[trigger] s[i]),
        k < s.len() ==> is_white_space(s[k]),
    ensures
        word_len(s) == k,
    decreases k,
{
    if k > 0 {
        let t = s.drop_first();
        assert forall|i: int| 0 <= i < k - 1 implies !is_white_space(#[trigger] t[i]) by {
            assert(t[i] == s[i + 1]);
        }
        lemma_word_len_is(t, k - 1);
    }
}

/// The leading run that `word_len` measures holds no whitespace.
pub proof fn lemma_word_len_chars(s: Seq<char>)
    ensures
        forall|i: int| 0 <= i < word_len(s) ==> !is_white_space(#[trigger] s[i]),
    decreases s.len(),
{
    if s.len() > 0 && !is_white_space(s[0]) {
        let t = s.drop_first();
        lemma_word_len_chars(t);
        lemma_word_len_bound(s);
        assert forall|i: int| 0 <= i < word_len(s) implies !is_white_space(#[trigger] s[i]) by {
            if i > 0 {
                assert(s[i] == t[i - 1]);
            }
        }
    }
}

/// The words of `s`: its maximal runs of non-whitespace characters, in the
/// order in which they occur. Whitespace separates words and belongs to none,
/// so no word is empty.
pub open spec fn words(s: Seq<char>) -> Seq<Seq<char>>
    decreases s.len(),
    via words_decreases
{
    let t = trim_start(s);
    if t.len() == 0 {
        Seq::empty()
    } else {
        seq![t.take(word_len(t) as int)] + words(t.skip(word_len(t) as int))
    }
}

#[via_fn]
proof fn words_decreases(s: Seq<char>) {
    let t = trim_start(s);
    lemma_trim_start_shape(s);
    lemma_word_len_bound(t);
}

/// Leading whitespace contributes no word.
pub proof fn lemma_words_skip_white_space(s: Seq<char>)
    requires
        s.len() > 0,
        is_white_space(s[0]),
    ensures
        words(s) == words(s.drop_first()),
{
}

/// A text that starts with a word of `k` characters splits into that word
/// and the words of the rest.
pub proof fn lemma_words_first(s: Seq<char>, k: int)
    requires
        0 < k <= s.len(),
        forall|i: int| 0 <= i < k ==> !is_white_space(#[trigger] s[i]),
        k < s.len() ==> is_white_space(s[k]),
    ensures
        words(s) == seq![s.take(k)] + words(s.skip(k)),
{
    lemma_word_len_is(s, k);
    assert(!is_white_space(s[0]));
}

/// Whether `w` is a word: not empty, and without whitespace.
pub open spec fn is_word(w: Seq<char>) -> bool {
    w.len() > 0 && forall|j: int| 0 <= j < w.len() ==> !is_white_space(#[trigger] w[j])
}

/// Splitting yields words only: none is empty and none holds whitespace.
pub proof fn lemma_words_are_words(s: Seq<char>)
    ensures
        forall|i: int| 0 <= i < words(s).len() ==> is_word(#[trigger] words(s)[i]),
    decreases s.len(),
{
    let t = trim_start(s);
    lemma_trim_start_shape(s);
    if t.len() > 0 {
        let k = word_len(t) as int;
        lemma_word_len_bound(t);
        lemma_word_len_chars(t);
        lemma_words_are_words(t.skip(k));
        assert(is_word(t.take(k)));
        assert forall|i: int| 0 <= i < words(s).len() implies is_word(#[trigger] words(s)[i]) by {
            if i > 0 {
                assert(words(s)[i] == words(t.skip(k))[i - 1]);
            }
        }
    }
}

/// A text has no word exactly when trimming leaves nothing of it.
pub proof fn lemma_no_words_iff_trimmed_empty(s: Seq<char>)
    ensures
        words(s).len() == 0 <==> trimmed(s).len() == 0,
{
    let t = trim_start(s);
    lemma_trim_start_shape(s);
    if t.len() > 0 {
        lemma_trim_end_keeps_start(t);
    }
}

/// The character sequences that a vector of strings stands for.
pub open spec fn tokens_of(v: Seq<String>) -> Seq<Seq<char>> {
    Seq::new(v.len(), |i: int| v[i]@)
}

/// `String::push` of the standard library: appends the character to the end
/// of the string and leaves what was there unchanged.
pub assume_specification[ String::push ](s: &mut String, ch: char)
    ensures
        final(s)@ == old(s)@.push(ch),
;

/// Splits `text` on whitespace into its words, each as a string of its own.
pub fn split_words(text: &str) -> (out: Vec<String>)
    ensures
        tokens_of(out@) == words(text@),
{
    let chars = collect_chars(text);
    let n = chars.len();
    let mut out: Vec<String> = Vec::new();
    let mut i: usize = 0;
    assert(chars@.skip(0) =~= chars@);
    assert(tokens_of(out@) =~= Seq::<Seq<char>>::empty());
    while i < n
        invariant
            n == chars@.len(),
            i <= n,
            tokens_of(out@) + words(chars@.skip(i as int)) == words(chars@),
        decreases n - i,
    {
        let ghost rest = chars@.skip(i as int);
        if char_is_whitespace(chars[i]) {
            proof {
                lemma_words_skip_white_space(rest);
                assert(rest.drop_first() =~= chars@.skip(i + 1));
            }
            i += 1;
        } else {
            let start = i;
            let mut word = String::new();
            while i < n && !char_is_whitespace(chars[i])
                invariant
                    n == chars@.len(),
                    start <= i <= n,
                    word@ == chars@.subrange(start as int, i as int),
                    forall|k: int| start <= k < i ==> !is_white_space(#[trigger] chars@[k]),
                decreases n - i,
            {
                word.push(chars[i]);
                i += 1;
                assert(word@ =~= chars@.subrange(start as int, i as int));
            }
            proof {
                lemma_words_first(rest, i - start);
                assert(rest.take(i - start) =~= word@);
                assert(rest.skip(i - start) =~= chars@.skip(i as int));
                assert(tokens_of(out@.push(word)) =~= tokens_of(out@) + seq![word@]);
                assert(tokens_of(out@) + (seq![word@] + words(chars@.skip(i as int)))
                    =~= tokens_of(out@) + seq![word@] + words(chars@.skip(i as int)));
            }
            out.push(word);
        }
    }
    assert(chars@.skip(n as int) =~= Seq::<char>::empty());
    assert(tokens_of(out@) + Seq::<Seq<char>>::empty() =~= tokens_of(out@));
    out
}

/// The tokens joined by single spaces, with no space before the first or
/// after the last.
pub open spec fn joined(tokens: Seq<Seq<char>>) -> Seq<char>
    decreases tokens.len(),
{
    if tokens.len() == 0 {
        Seq::empty()
    } else if tokens.len() == 1 {
        tokens[0]
    } else {
        joined(tokens.drop_last()) + seq![' '] + tokens.last()
    }
}

/// Whether every character of `s` is an ASCII digit.
pub open spec fn all_digits(s: Seq<char>) -> bool {
    forall|i: int| 0 <= i < s.len() ==> is_digit(#[trigger] s[i])
}

/// The number that `s` denotes when read as decimal digits, most significant
/// first. Leading zeros do not change it.
pub open spec fn decimal_value(s: Seq<char>) -> nat
    decreases s.len(),
{
    if s.len() == 0 {
        0
    } else {
        10 * decimal_value(s.drop_last()) + digit_value(s.last())
    }
}

/// The value of `s` as a decimal number, where `s` is a non-empty run of
/// ASCII digits and the value fits the machine's word.
pub open spec fn decimal_of(s: Seq<char>) -> Option<usize> {
    if s.len() > 0 && all_digits(s) && decimal_value(s) <= usize::MAX {
        Some(decimal_value(s) as usize)
    } else {
        None
    }
}

/// Reading more digits never gives a smaller number.
pub proof fn lemma_decimal_value_prefix(s: Seq<char>, k: int)
    requires
        0 <= k <= s.len(),
    ensures
        decimal_value(s.take(k)) <= decimal_value(s),
    decreases s.len() - k,
{
    if k == s.len() {
        assert(s.take(k) =~= s);
    } else {
        lemma_decimal_value_prefix(s.drop_last(), k);
        assert(s.drop_last().take(k) =~= s.take(k));
    }
}

/// Reads the characters of `chars` from position `from` on as a decimal
/// number. There is a result exactly when that text is a non-empty run of
/// ASCII digits whose value fits the machine's word.
pub fn parse_decimal(chars: &Vec<char>, from: usize) -> (value: Option<usize>)
    requires
        from <= chars@.len(),
    ensures
        value == decimal_of(chars@.skip(from as int)),
{
    let n = chars.len();
    let ghost digits = chars@.skip(from as int);
    if from == n {
        return None;
    }
    let mut acc: usize = 0;
    let mut i: usize = from;
    assert(digits.take(0) =~= Seq::<char>::empty());
    while i < n
        invariant
            n == chars@.len(),
            from <= i <= n,
            from < n,
            digits == chars@.skip(from as int),
            all_digits(digits.take(i - from)),
            acc == decimal_value(digits.take(i - from)),
        decreases n - i,
    {
        let c = chars[i];
        assert(c == digits[i - from]);
        if !char_is_digit(c) {
            return None;
        }
        let ghost next = digits.take(i - from + 1);
        proof {
            assert(next.drop_last() =~= digits.take(i - from));
            assert(next.last() == c);
            lemma_decimal_value_prefix(digits, i - from + 1);
        }
        let d = char_digit_value(c);
        let scaled = match acc.checked_mul(10) {
            Some(v) => v,
            None => { return None; },
        };
        acc = match scaled.checked_add(d) {
            Some(v) => v,
            None => { return None; },
        };
        i += 1;
    }
    assert(digits.take(n - from) =~= digits);
    Some(acc)
}

} // verus!
