//! The reported statistics: totals, average length, and the most common
//! word with its deterministic tie-break.

use vstd::prelude::*;

use crate::chars::lemma_lex_lt_asymmetric;
use crate::chars::lemma_lex_lt_connected;
use crate::chars::lemma_lex_lt_transitive;
use crate::chars::lex_leq;
use crate::chars::str_lex_lt;
use crate::config::Config;
use crate::counts::aggregate;
use crate::counts::counts_sum;
use crate::counts::lemma_table_len_is_distinct_count;
use crate::counts::lengths_sum;
use crate::counts::table_keys;
use crate::counts::table_represents;
use crate::errors::CliError;
use crate::errors::CliErrorV;
use crate::words::all_spaces;
use crate::words::filter_words;
use crate::words::is_blank;
use crate::words::qualifying_words;
use crate::words::tokenize;
use crate::words::word_views;

verus! {

/// The aggregate statistics of one run.
#[derive(Debug, PartialEq, Eq)]
pub struct Stats {
    pub total_words: usize,
    pub unique_words: usize,
    pub average_length: usize,
    pub most_common: Option<(String, usize)>,
}

/// The average rounded half away from zero, and zero when there are no
/// words.
pub open spec fn rounded_average(sum: int, total: int) -> int {
    if total <= 0 {
        0
    } else if 2 * (sum % total) >= total {
        sum / total + 1
    } else {
        sum / total
    }
}

/// `w` occurs `c` times, no word occurs more often, and every word that
/// occurs as often is lexicographically no greater.
pub open spec fn most_common_ok(words: Seq<Seq<char>>, w: Seq<char>, c: int) -> bool {
    &&& words.to_multiset().count(w) == c
    &&& c > 0
    &&& forall|x: Seq<char>| #[trigger] words.to_multiset().count(x) <= c
    &&& forall|x: Seq<char>| #[trigger] words.to_multiset().count(x) == c ==> lex_leq(x, w)
}

/// What the report derives from a word sequence.
pub open spec fn stats_for(words: Seq<Seq<char>>, s: Stats) -> bool {
    &&& s.total_words == words.len()
    &&& s.unique_words == words.to_set().len()
    &&& s.average_length == rounded_average(lengths_sum(words), words.len() as int)
    &&& match s.most_common {
        Some(p) => most_common_ok(words, p.0@, p.1 as int),
        None => words.len() == 0,
    }
}

proof fn lemma_counts_sum_take_le(t: Seq<(String, usize)>, k: int)
    requires
        0 <= k <= t.len(),
    ensures
        counts_sum(t.take(k)) <= counts_sum(t),
    decreases t.len(),
{
    if k == t.len() {
        assert(t.take(k) =~= t);
    } else {
        lemma_counts_sum_take_le(t.drop_last(), k);
        assert(t.drop_last().take(k) =~= t.take(k));
    }
}

/// Sums the counts of a frequency table.
fn sum_counts(t: &Vec<(String, usize)>) -> (total: usize)
    requires
        counts_sum(t@) <= usize::MAX as int,
    ensures
        total == counts_sum(t@),
{
    let n = t.len();
    let mut acc: usize = 0;
    let mut k: usize = 0;
    proof {
        assert(t@.take(0) =~= Seq::<(String, usize)>::empty());
    }
    while k < n
        invariant
            k <= n,
            n == t@.len(),
            counts_sum(t@) <= usize::MAX as int,
            acc == counts_sum(t@.take(k as int)),
        decreases n - k,
    {
        proof {
            assert(t@.take(k + 1).drop_last() =~= t@.take(k as int));
            assert(t@.take(k + 1).last() == t@[k as int]);
            lemma_counts_sum_take_le(t@, k + 1);
        }
        acc = acc + t[k].1;
        k = k + 1;
    }
    proof {
        assert(t@.take(n as int) =~= t@);
    }
    acc
}

/// The rounded average length, from the length sum and the word count.
fn average_of(len_sum: u128, total: usize) -> (avg: usize)
    requires
        len_sum as int <= (total as int) * (usize::MAX as int),
    ensures
        avg as int == rounded_average(len_sum as int, total as int),
{
    if total == 0 {
        return 0;
    }
    let t = total as u128;
    let q = len_sum / t;
    let r = len_sum % t;
    proof {
        vstd::arithmetic::div_mod::lemma_fundamental_div_mod(len_sum as int, t as int);
        vstd::arithmetic::div_mod::lemma_mod_bound(len_sum as int, t as int);
        assert(q as int == len_sum as int / t as int);
        assert(r as int == len_sum as int % t as int);
        assert(q <= usize::MAX) by (nonlinear_arith)
            requires
                len_sum as int == (t as int) * (q as int) + r as int,
                len_sum as int <= (t as int) * (usize::MAX as int),
                0 <= r as int,
                t as int >= 1,
                q as int >= 0,
        ;
    }
    if 2 * r >= t {
        proof {
            if q == usize::MAX as u128 {
                assert(r as int == 0) by (nonlinear_arith)
                    requires
                        len_sum as int == (t as int) * (q as int) + r as int,
                        len_sum as int <= (t as int) * (usize::MAX as int),
                        q as int == usize::MAX as int,
                        0 <= r as int,
                        t as int >= 1,
                ;
                assert(false);
            }
        }
        (q + 1) as usize
    } else {
        q as usize
    }
}

/// The entry with the highest count; ties go to the lexicographically
/// greatest key. `None` exactly when the table is empty.
fn most_common_entry(t: &Vec<(String, usize)>) -> (r: Option<(String, usize)>)
    ensures
        match r {
            None => t@.len() == 0,
            Some(p) => {
                &&& exists|i: int|
                    0 <= i < t@.len() && #[trigger] t@[i].0@ == p.0@ && t@[i].1 == p.1
                &&& forall|j: int|
                    0 <= j < t@.len() ==> (#[trigger] t@[j]).1 < p.1 || (t@[j].1 == p.1
                        && lex_leq(t@[j].0@, p.0@))
            },
        },
{
    let n = t.len();
    if n == 0 {
        return None;
    }
    let mut best: usize = 0;
    let mut j: usize = 1;
    while j < n
        invariant
            best < j <= n,
            n == t@.len(),
            forall|l: int|
                0 <= l < j ==> (#[trigger] t@[l]).1 < t@[best as int].1 || (t@[l].1 == t@[
                    best as int].1 && lex_leq(t@[l].0@, t@[best as int].0@)),
        decreases n - j,
    {
        let ghost ob = best as int;
        let better: bool = if t[j].1 > t[best].1 {
            true
        } else if t[j].1 == t[best].1 {
            str_lex_lt(t[best].0.as_str(), t[j].0.as_str())
        } else {
            false
        };
        if better {
            proof {
                assert forall|l: int|
                    0 <= l < j + 1 implies (#[trigger] t@[l]).1 < t@[j as int].1 || (t@[l].1
                    == t@[j as int].1 && lex_leq(t@[l].0@, t@[j as int].0@)) by {
                    if l < j && t@[l].1 == t@[j as int].1 {
                        if t@[l].1 == t@[ob].1 {
                            if t@[l].0@ != t@[ob].0@ {
                                lemma_lex_lt_transitive(t@[l].0@, t@[ob].0@, t@[j as int].0@);
                            }
                        }
                    }
                }
            }
            best = j;
        } else {
            proof {
                if t@[j as int].1 == t@[ob].1 && t@[j as int].0@ != t@[ob].0@ {
                    lemma_lex_lt_connected(t@[j as int].0@, t@[ob].0@);
                }
            }
        }
        j = j + 1;
    }
    Some((t[best].0.clone(), t[best].1))
}

/// Lifts the table-level maximum to the word sequence the table counts.
proof fn lemma_most_common_lift(
    t: Seq<(String, usize)>,
    words: Seq<Seq<char>>,
    w: Seq<char>,
    c: usize,
)
    requires
        table_represents(t, words),
        exists|i: int| 0 <= i < t.len() && #[trigger] t[i].0@ == w && t[i].1 == c,
        forall|j: int|
            0 <= j < t.len() ==> (#[trigger] t[j]).1 < c || (t[j].1 == c && lex_leq(
                t[j].0@,
                w,
            )),
    ensures
        most_common_ok(words, w, c as int),
{
    words.to_multiset_ensures();
    let m = words.to_multiset();
    let i = choose|i: int| 0 <= i < t.len() && #[trigger] t[i].0@ == w && t[i].1 == c;
    assert(m.count(w) == c);
    assert forall|x: Seq<char>| #[trigger] m.count(x) <= c by {
        if m.count(x) > 0 {
            assert(words.contains(x));
            assert(table_keys(t).contains(x));
            let j = choose|j: int|
                0 <= j < table_keys(t).len() && #[trigger] table_keys(t)[j] == x;
            assert(t[j].1 == m.count(x));
        }
    }
    assert forall|x: Seq<char>| #[trigger] m.count(x) == c implies lex_leq(x, w) by {
        assert(words.contains(x));
        assert(table_keys(t).contains(x));
        let j = choose|j: int| 0 <= j < table_keys(t).len() && #[trigger] table_keys(t)[j] == x;
        assert(t[j].1 == c);
    }
}

/// Analyzes a text under a configuration: an all-whitespace text is
/// rejected as empty, and otherwise every reported figure is determined by
/// the text's qualifying words.
pub fn analyze(text: &str, config: &Config) -> (r: Result<Stats, CliError>)
    ensures
        match r {
            Ok(s) => !all_spaces(text@) && stats_for(
                qualifying_words(text@, config.min_length, config.starts_with),
                s,
            ),
            Err(e) => all_spaces(text@) && e@ == CliErrorV::EmptyFile,
        },
{
    if is_blank(text) {
        return Err(CliError::EmptyFile);
    }
    let toks = tokenize(text);
    let words = filter_words(&toks, config.min_length, config.starts_with);
    let ghost ws = qualifying_words(text@, config.min_length, config.starts_with);
    assert(word_views(words@) == ws);
    let n_words = words.len();
    let (table, len_sum) = aggregate(&words);
    assert(counts_sum(table@) == n_words);
    let total = sum_counts(&table);
    let unique = table.len();
    let avg = average_of(len_sum, total);
    let mc = most_common_entry(&table);
    proof {
        lemma_table_len_is_distinct_count(table@, ws);
        match &mc {
            Some(p) => {
                lemma_most_common_lift(table@, ws, p.0@, p.1);
            },
            None => {
                assert(counts_sum(table@) == 0);
            },
        }
    }
    Ok(Stats { total_words: total, unique_words: unique, average_length: avg, most_common: mc })
}

/// The statistics of a word sequence are unique: two reports for the same
/// words agree on every figure, the most common word included.
pub proof fn lemma_stats_deterministic(words: Seq<Seq<char>>, s1: Stats, s2: Stats)
    requires
        stats_for(words, s1),
        stats_for(words, s2),
    ensures
        s1.total_words == s2.total_words,
        s1.unique_words == s2.unique_words,
        s1.average_length == s2.average_length,
        match (s1.most_common, s2.most_common) {
            (Some(p1), Some(p2)) => p1.0@ == p2.0@ && p1.1 == p2.1,
            (None, None) => true,
            _ => false,
        },
{
    words.to_multiset_ensures();
    let m = words.to_multiset();
    match (s1.most_common, s2.most_common) {
        (Some(p1), Some(p2)) => {
            assert(m.count(p1.0@) <= p2.1 as int);
            assert(m.count(p2.0@) <= p1.1 as int);
            assert(p1.1 == p2.1);
            assert(lex_leq(p1.0@, p2.0@));
            assert(lex_leq(p2.0@, p1.0@));
            if p1.0@ != p2.0@ {
                lemma_lex_lt_asymmetric(p1.0@, p2.0@);
            }
        },
        (Some(p1), None) => {
            assert(m.count(p1.0@) > 0);
            assert(words.contains(p1.0@));
        },
        (None, Some(p2)) => {
            assert(m.count(p2.0@) > 0);
            assert(words.contains(p2.0@));
        },
        (None, None) => {},
    }
}

} // verus!
