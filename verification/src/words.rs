//! Tokenization and filtering: splitting a text on whitespace, lowercasing
//! every token, and keeping the tokens that pass the configured filters.

use vstd::prelude::*;

use crate::chars::char_is_space;
use crate::chars::fold_char;
use crate::chars::fold_char_exec;
use crate::chars::is_space_char;
use crate::chars::lower_of;
use crate::chars::lowercase_word;

verus! {

/// The views of a vector of words.
pub open spec fn word_views(ws: Seq<String>) -> Seq<Seq<char>> {
    ws.map_values(|w: String| w@)
}

/// Length of the leading run of non-whitespace characters.
pub open spec fn leading_token_len(s: Seq<char>) -> nat
    decreases s.len(),
{
    if s.len() == 0 || is_space_char(s[0]) {
        0
    } else {
        1 + leading_token_len(s.drop_first())
    }
}

pub proof fn lemma_leading_token_len_le(s: Seq<char>)
    ensures
        leading_token_len(s) <= s.len(),
    decreases s.len(),
{
    if !(s.len() == 0 || is_space_char(s[0])) {
        lemma_leading_token_len_le(s.drop_first());
    }
}

/// The leading token's length is the position of the first whitespace
/// character, or the length of the text when there is none.
pub proof fn lemma_leading_token_len_is(s: Seq<char>, k: int)
    requires
        0 <= k <= s.len(),
        forall|j: int| 0 <= j < k ==> !is_space_char(s[j]),
        k == s.len() || is_space_char(s[k]),
    ensures
        leading_token_len(s) == k,
    decreases s.len(),
{
    if s.len() == 0 {
    } else if is_space_char(s[0]) {
        assert(k == 0);
    } else {
        assert(k > 0);
        lemma_leading_token_len_is(s.drop_first(), k - 1);
    }
}

/// The tokens of a text: the maximal runs of non-whitespace characters,
/// in order.
pub open spec fn split_tokens(s: Seq<char>) -> Seq<Seq<char>>
    decreases s.len(),
    via split_tokens_decreases
{
    if s.len() == 0 {
        Seq::empty()
    } else if is_space_char(s[0]) {
        split_tokens(s.drop_first())
    } else {
        seq![s.take(leading_token_len(s) as int)] + split_tokens(
            s.skip(leading_token_len(s) as int),
        )
    }
}

#[via_fn]
proof fn split_tokens_decreases(s: Seq<char>) {
    if s.len() > 0 && !is_space_char(s[0]) {
        lemma_leading_token_len_le(s);
    }
}

/// Whether the whole text is whitespace.
pub open spec fn all_spaces(s: Seq<char>) -> bool {
    forall|i: int| 0 <= i < s.len() ==> is_space_char(s[i])
}

/// Decides `all_spaces` on a string.
pub fn is_blank(text: &str) -> (r: bool)
    ensures
        r == all_spaces(text@),
{
    let n = text.unicode_len();
    let mut i: usize = 0;
    while i < n
        invariant
            i <= n,
            n == text@.len(),
            forall|j: int| 0 <= j < i ==> is_space_char(text@[j]),
        decreases n - i,
    {
        if !char_is_space(text.get_char(i)) {
            return false;
        }
        i = i + 1;
    }
    true
}

/// Position of the first whitespace character at or after `start`, or the
/// text's length when the rest of the text has none.
fn scan_token_end(text: &str, start: usize) -> (j: usize)
    requires
        start <= text@.len(),
    ensures
        start <= j <= text@.len(),
        forall|k: int| start <= k < j ==> !is_space_char(text@[k]),
        j == text@.len() || is_space_char(text@[j as int]),
{
    let n = text.unicode_len();
    let mut j = start;
    while j < n
        invariant
            start <= j <= n,
            n == text@.len(),
            forall|k: int| start <= k < j ==> !is_space_char(text@[k]),
        decreases n - j,
    {
        if char_is_space(text.get_char(j)) {
            return j;
        }
        j = j + 1;
    }
    j
}

/// Splits a text into its whitespace-separated tokens.
pub fn tokenize(text: &str) -> (toks: Vec<String>)
    ensures
        word_views(toks@) == split_tokens(text@),
{
    let n = text.unicode_len();
    let mut toks: Vec<String> = Vec::new();
    let mut i: usize = 0;
    proof {
        assert(text@.skip(0) =~= text@);
        assert(word_views(toks@) + split_tokens(text@) =~= split_tokens(text@));
    }
    while i < n
        invariant
            i <= n,
            n == text@.len(),
            split_tokens(text@) == word_views(toks@) + split_tokens(text@.skip(i as int)),
        decreases n - i,
    {
        let c = text.get_char(i);
        if char_is_space(c) {
            proof {
                assert(text@.skip(i as int).drop_first() =~= text@.skip(i + 1));
            }
            i = i + 1;
        } else {
            let j = scan_token_end(text, i);
            assert(j > i);
            let tok = text.substring_char(i, j).to_owned();
            proof {
                let rest = text@.skip(i as int);
                assert forall|jj: int| 0 <= jj < j - i implies !is_space_char(rest[jj]) by {
                    assert(rest[jj] == text@[i + jj]);
                }
                if j < n {
                    assert(rest[j - i] == text@[j as int]);
                }
                lemma_leading_token_len_is(rest, j - i);
                assert(rest.take(j - i) =~= text@.subrange(i as int, j as int));
                assert(rest.skip(j - i) =~= text@.skip(j as int));
                assert(split_tokens(rest) == seq![tok@] + split_tokens(text@.skip(j as int)));
                assert(word_views(toks@.push(tok)) =~= word_views(toks@).push(tok@));
                assert(word_views(toks@.push(tok)) + split_tokens(text@.skip(j as int))
                    =~= word_views(toks@) + split_tokens(rest));
            }
            toks.push(tok);
            i = j;
        }
    }
    proof {
        assert(split_tokens(text@.skip(n as int)) =~= Seq::<Seq<char>>::empty());
        assert(word_views(toks@) + split_tokens(text@.skip(n as int)) =~= word_views(toks@));
    }
    toks
}

/// Whether a lowercased token passes the configured filters: it is non-empty,
/// strictly longer than `min_length`, and, when a starting letter is set, its
/// first character folds to that letter.
pub open spec fn word_passes(w: Seq<char>, min_length: usize, starts_with: Option<char>) -> bool {
    &&& w.len() > 0
    &&& w.len() > min_length
    &&& match starts_with {
        Some(c) => fold_char(w[0]) == c,
        None => true,
    }
}

/// The lowercased tokens that pass both filters, in order.
pub open spec fn qualifying(toks: Seq<Seq<char>>, min_length: usize, starts_with: Option<
    char,
>) -> Seq<Seq<char>> {
    toks.map_values(|t: Seq<char>| lower_of(t)).filter(
        |w: Seq<char>| word_passes(w, min_length, starts_with),
    )
}

/// The qualifying words of a whole text.
pub open spec fn qualifying_words(
    text: Seq<char>,
    min_length: usize,
    starts_with: Option<char>,
) -> Seq<Seq<char>> {
    qualifying(split_tokens(text), min_length, starts_with)
}

/// The length filter is a strict bound: a word exactly `min_length` long is
/// excluded, and one a character longer is included when the prefix filter
/// allows it.
pub proof fn lemma_min_length_boundary(w: Seq<char>, min_length: usize, starts_with: Option<char>)
    ensures
        w.len() == min_length ==> !word_passes(w, min_length, starts_with),
        w.len() == min_length + 1 && (match starts_with {
            Some(c) => fold_char(w[0]) == c,
            None => true,
        }) ==> word_passes(w, min_length, starts_with),
{
}

/// The prefix filter is case-insensitive in the word: two words that differ
/// only in the ASCII case of their first character pass or fail together.
pub proof fn lemma_prefix_filter_case_insensitive(
    w1: Seq<char>,
    w2: Seq<char>,
    min_length: usize,
    c: char,
)
    requires
        w1.len() == w2.len(),
        w1.len() > 0,
        fold_char(w1[0]) == fold_char(w2[0]),
    ensures
        word_passes(w1, min_length, Some(c)) == word_passes(w2, min_length, Some(c)),
{
}

/// The prefix filter is case-insensitive in the flag: two flag values whose
/// first letters differ only in ASCII case configure the same filter.
pub proof fn lemma_flag_letter_case_insensitive(
    w: Seq<char>,
    min_length: usize,
    u: char,
    v: char,
)
    requires
        fold_char(u) == fold_char(v),
    ensures
        word_passes(w, min_length, Some(fold_char(u))) == word_passes(
            w,
            min_length,
            Some(fold_char(v)),
        ),
{
}

/// Lowercases every token and keeps those that pass both filters.
pub fn filter_words(toks: &Vec<String>, min_length: usize, starts_with: Option<char>) -> (out: Vec<
    String,
>)
    ensures
        word_views(out@) == qualifying(word_views(toks@), min_length, starts_with),
{
    let ghost lowered = word_views(toks@).map_values(|t: Seq<char>| lower_of(t));
    let ghost pred = |w: Seq<char>| word_passes(w, min_length, starts_with);
    let n = toks.len();
    let mut out: Vec<String> = Vec::new();
    let mut k: usize = 0;
    proof {
        assert(lowered.take(0) =~= Seq::<Seq<char>>::empty());
        reveal(Seq::filter);
        assert(word_views(out@) =~= lowered.take(0).filter(pred));
    }
    while k < n
        invariant
            k <= n,
            n == toks@.len(),
            lowered == word_views(toks@).map_values(|t: Seq<char>| lower_of(t)),
            pred == (|w: Seq<char>| word_passes(w, min_length, starts_with)),
            word_views(out@) == lowered.take(k as int).filter(pred),
        decreases n - k,
    {
        let w = lowercase_word(toks[k].as_str());
        assert(w@ == lowered[k as int]);
        let wn = w.as_str().unicode_len();
        let pass: bool = if wn == 0 {
            false
        } else if wn <= min_length {
            false
        } else {
            match starts_with {
                None => true,
                Some(c) => fold_char_exec(w.as_str().get_char(0)) == c,
            }
        };
        assert(pass == pred(w@));
        proof {
            reveal(Seq::filter);
            assert(lowered.take(k + 1).drop_last() =~= lowered.take(k as int));
            assert(lowered.take(k + 1).last() == lowered[k as int]);
            if pass {
                assert(word_views(out@.push(w)) =~= word_views(out@).push(w@));
            }
        }
        if pass {
            out.push(w);
        }
        k = k + 1;
    }
    proof {
        assert(lowered.take(n as int) =~= lowered);
    }
    out
}

} // verus!
