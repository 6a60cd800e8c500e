//! Frequency aggregation: one pass over the qualifying words builds a
//! frequency table and the sum of the words' character lengths.

use vstd::prelude::*;
use vstd::multiset::Multiset;

use crate::words::word_views;

verus! {

/// The keys of a frequency table, in order.
pub open spec fn table_keys(t: Seq<(String, usize)>) -> Seq<Seq<char>> {
    t.map_values(|p: (String, usize)| p.0@)
}

/// A frequency table represents a word sequence when its keys are distinct,
/// every key's count is the number of occurrences of that key in the
/// sequence, no count is zero, and every word of the sequence is a key.
pub open spec fn table_represents(t: Seq<(String, usize)>, words: Seq<Seq<char>>) -> bool {
    &&& table_keys(t).no_duplicates()
    &&& forall|i: int|
        0 <= i < t.len() ==> (#[trigger] t[i]).1 == words.to_multiset().count(t[i].0@)
    &&& forall|i: int| 0 <= i < t.len() ==> (#[trigger] t[i]).1 > 0
    &&& forall|w: Seq<char>| words.contains(w) ==> table_keys(t).contains(w)
}

/// The sum of the counts of a frequency table.
pub open spec fn counts_sum(t: Seq<(String, usize)>) -> int
    decreases t.len(),
{
    if t.len() == 0 {
        0
    } else {
        counts_sum(t.drop_last()) + t.last().1
    }
}

/// The sum of the lengths of a sequence of words.
pub open spec fn lengths_sum(ws: Seq<Seq<char>>) -> int
    decreases ws.len(),
{
    if ws.len() == 0 {
        0
    } else {
        lengths_sum(ws.drop_last()) + ws.last().len()
    }
}

/// Replacing one entry changes the sum of the counts by the difference of
/// the counts.
proof fn lemma_counts_sum_update(t: Seq<(String, usize)>, i: int, p: (String, usize))
    requires
        0 <= i < t.len(),
    ensures
        counts_sum(t.update(i, p)) == counts_sum(t) - t[i].1 + p.1,
    decreases t.len(),
{
    let u = t.update(i, p);
    if i == t.len() - 1 {
        assert(u.drop_last() =~= t.drop_last());
        assert(u.last() == p);
    } else {
        lemma_counts_sum_update(t.drop_last(), i, p);
        assert(u.drop_last() =~= t.drop_last().update(i, p));
        assert(u.last() == t.last());
    }
}

/// Index of the entry whose key is `w`, if there is one.
fn find_key(t: &Vec<(String, usize)>, w: &String) -> (r: Option<usize>)
    ensures
        match r {
            Some(i) => i < t@.len() && t@[i as int].0@ == w@,
            None => forall|i: int| 0 <= i < t@.len() ==> (#[trigger] t@[i]).0@ != w@,
        },
{
    let n = t.len();
    let mut i: usize = 0;
    while i < n
        invariant
            i <= n,
            n == t@.len(),
            forall|j: int| 0 <= j < i ==> (#[trigger] t@[j]).0@ != w@,
        decreases n - i,
    {
        if t[i].0 == *w {
            return Some(i);
        }
        i = i + 1;
    }
    None
}

/// Builds the frequency table of the given words and sums their lengths, in
/// a single pass. The sum of all counts equals the number of words.
pub fn aggregate(words: &Vec<String>) -> (r: (Vec<(String, usize)>, u128))
    ensures
        table_represents(r.0@, word_views(words@)),
        counts_sum(r.0@) == words@.len(),
        r.1 == lengths_sum(word_views(words@)),
        r.1 as int <= words@.len() * (usize::MAX as int),
{
    broadcast use vstd::multiset::group_multiset_axioms;
    broadcast use vstd::multiset::group_multiset_properties;

    let ghost all = word_views(words@);
    let n = words.len();
    let mut table: Vec<(String, usize)> = Vec::new();
    let mut len_sum: u128 = 0;
    let mut k: usize = 0;
    proof {
        assert(all.take(0) =~= Seq::<Seq<char>>::empty());
        all.take(0).to_multiset_ensures();
        assert(all.take(0).to_multiset().len() == 0);
        assert forall|x: Seq<char>| all.take(0).to_multiset().count(x) == 0 by {
            assert(all.take(0).to_multiset().count(x) <= all.take(0).to_multiset().len());
        }
        assert(all.take(0).to_multiset() =~= Multiset::<Seq<char>>::empty());
    }
    while k < n
        invariant
            k <= n,
            n == words@.len(),
            all == word_views(words@),
            table_represents(table@, all.take(k as int)),
            counts_sum(table@) == k,
            len_sum == lengths_sum(all.take(k as int)),
            len_sum <= (k as int) * (usize::MAX as int),
        decreases n - k,
    {
        broadcast use vstd::multiset::group_multiset_axioms;
        broadcast use vstd::multiset::group_multiset_properties;

        let ghost prev = all.take(k as int);
        let ghost cur = all[k as int];
        let ghost mprev = prev.to_multiset();
        let ghost mnext = all.take(k + 1).to_multiset();
        proof {
            assert(all.take(k + 1).drop_last() =~= prev);
            assert(all.take(k + 1) =~= prev.push(cur));
            prev.to_multiset_ensures();
            assert(mnext =~= mprev.insert(cur));
        }
        let w = &words[k];
        assert(w@ == cur);
        let wlen = w.as_str().unicode_len();
        proof {
            assert(lengths_sum(all.take(k + 1)) == lengths_sum(prev) + cur.len());
            assert((k as int) * (usize::MAX as int) + (usize::MAX as int) == (k + 1) * (
            usize::MAX as int)) by (nonlinear_arith);
            assert((k + 1) * (usize::MAX as int) <= (usize::MAX as int) * (usize::MAX as int))
                by (nonlinear_arith)
                requires
                    0 <= k,
                    k + 1 <= usize::MAX,
            ;
            assert((usize::MAX as int) * (usize::MAX as int) < u128::MAX as int)
                by (nonlinear_arith)
                requires
                    usize::MAX as int <= u64::MAX as int,
            ;
        }
        len_sum = len_sum + wlen as u128;
        let ghost t0 = table@;
        match find_key(&table, w) {
            Some(i) => {
                proof {
                    prev.to_multiset_ensures();
                    assert(mprev.count(cur) <= mprev.len());
                }
                let key = table[i].0.clone();
                let cnt = table[i].1;
                table[i] = (key, cnt + 1);
                proof {
                    let p = table@[i as int];
                    assert(table@ == t0.update(i as int, p));
                    assert(p.1 == cnt + 1 && p.0@ == cur);
                    assert(table_keys(table@) =~= table_keys(t0));
                    lemma_counts_sum_update(t0, i as int, p);
                    assert(mnext.count(cur) == mprev.count(cur) + 1);
                    assert forall|j: int| 0 <= j < table@.len() implies (#[trigger] table@[j]).1
                        == mnext.count(table@[j].0@) by {
                        if j != i {
                            assert(table_keys(t0)[j] != table_keys(t0)[i as int]);
                            assert(table@[j] == t0[j]);
                            assert(mnext.count(table@[j].0@) == mprev.count(table@[j].0@));
                        }
                    }
                    assert forall|x: Seq<char>| all.take(k + 1).contains(x) implies table_keys(
                        table@,
                    ).contains(x) by {
                        if prev.contains(x) {
                            assert(table_keys(t0).contains(x));
                        } else {
                            let idx = choose|idx: int|
                                0 <= idx < all.take(k + 1).len() && #[trigger] all.take(k + 1)[idx] == x;
                            assert(x == cur);
                            assert(table_keys(t0)[i as int] == cur);
                        }
                    }
                }
            },
            None => {
                proof {
                    prev.to_multiset_ensures();
                    if prev.contains(cur) {
                        assert(table_keys(t0).contains(cur));
                        let j = choose|j: int|
                            0 <= j < table_keys(t0).len() && #[trigger] table_keys(t0)[j] == cur;
                        assert(t0[j].0@ == cur);
                        assert(false);
                    }
                    assert(mprev.count(cur) == 0);
                }
                let key = w.clone();
                table.push((key, 1));
                proof {
                    let t1 = table@;
                    assert(t1.drop_last() =~= t0);
                    assert(t1.last() == (key, 1usize));
                    assert(table_keys(t1) =~= table_keys(t0).push(cur));
                    assert(counts_sum(t1) == counts_sum(t0) + 1);
                    assert forall|j: int| 0 <= j < t1.len() implies (#[trigger] t1[j]).1
                        == mnext.count(t1[j].0@) by {
                        if j < t1.len() - 1 {
                            assert(t1[j] == t0[j]);
                            assert(table_keys(t0)[j] == t0[j].0@);
                            assert(t0[j].0@ != cur);
                            assert(mnext.count(t0[j].0@) == mprev.count(t0[j].0@));
                        } else {
                            assert(t1[j].0@ == cur);
                            assert(mnext.count(cur) == 1);
                        }
                    }
                    assert forall|x: Seq<char>| all.take(k + 1).contains(x) implies table_keys(
                        t1,
                    ).contains(x) by {
                        if prev.contains(x) {
                            assert(table_keys(t0).contains(x));
                            let j = choose|j: int|
                                0 <= j < table_keys(t0).len() && #[trigger] table_keys(t0)[j] == x;
                            assert(table_keys(t1)[j] == x);
                        } else {
                            let idx = choose|idx: int|
                                0 <= idx < all.take(k + 1).len() && #[trigger] all.take(k + 1)[idx] == x;
                            assert(x == cur);
                            assert(table_keys(t1)[t1.len() - 1] == cur);
                        }
                    }
                    assert(table_keys(t1).no_duplicates());
                }
            },
        }
        k = k + 1;
    }
    proof {
        assert(all.take(n as int) =~= all);
    }
    (table, len_sum)
}

/// The word `w`, `c` times over.
spec fn repeat_word(w: Seq<char>, c: nat) -> Multiset<Seq<char>>
    decreases c,
{
    if c == 0 {
        Multiset::empty()
    } else {
        repeat_word(w, (c - 1) as nat).insert(w)
    }
}

proof fn lemma_repeat_word(w: Seq<char>, c: nat)
    ensures
        repeat_word(w, c).count(w) == c,
        forall|x: Seq<char>| x != w ==> repeat_word(w, c).count(x) == 0,
        repeat_word(w, c).len() == c,
    decreases c,
{
    broadcast use vstd::multiset::group_multiset_axioms;

    if c > 0 {
        lemma_repeat_word(w, (c - 1) as nat);
    }
}

/// When the distinct keys carry the counts of a multiset and cover its
/// support, the counts sum to the multiset's size.
proof fn lemma_counts_sum_is_multiset_len(t: Seq<(String, usize)>, m: Multiset<Seq<char>>)
    requires
        table_keys(t).no_duplicates(),
        forall|i: int| 0 <= i < t.len() ==> (#[trigger] t[i]).1 == m.count(t[i].0@),
        forall|x: Seq<char>| m.count(x) > 0 ==> table_keys(t).contains(x),
    ensures
        counts_sum(t) == m.len(),
    decreases t.len(),
{
    broadcast use vstd::multiset::group_multiset_axioms;
    broadcast use vstd::multiset::group_multiset_properties;

    if t.len() == 0 {
        if m.len() > 0 {
            assert(m.count(m.choose()) > 0);
            assert(table_keys(t).contains(m.choose()));
            assert(false);
        }
    } else {
        let t0 = t.drop_last();
        let k = t.last().0@;
        let c = t.last().1;
        let m0 = m.update(k, 0);
        lemma_repeat_word(k, c as nat);
        assert(table_keys(t)[t.len() - 1] == k);
        assert(c == m.count(k));
        assert forall|x: Seq<char>| m.count(x) == m0.add(repeat_word(k, c as nat)).count(
            x,
        ) by {
            if x == k {
                assert(m0.count(k) == 0);
                assert(repeat_word(k, c as nat).count(k) == c);
            } else {
                assert(m0.count(x) == m.count(x));
                assert(repeat_word(k, c as nat).count(x) == 0);
            }
        }
        assert(m =~= m0.add(repeat_word(k, c as nat)));
        assert(m.len() == m0.len() + c);
        assert(table_keys(t0) =~= table_keys(t).drop_last());
        assert forall|i: int| 0 <= i < t0.len() implies (#[trigger] t0[i]).1 == m0.count(
            t0[i].0@,
        ) by {
            assert(t0[i] == t[i]);
            assert(table_keys(t)[i] == t[i].0@);
            assert(table_keys(t)[t.len() - 1] == k);
            assert(t[i].0@ != k);
        }
        assert forall|x: Seq<char>| m0.count(x) > 0 implies table_keys(t0).contains(x) by {
            assert(m0.count(k) == 0);
            assert(x != k);
            assert(m0.count(x) == m.count(x));
            assert(m.count(x) > 0);
            assert(table_keys(t).contains(x));
            let j = choose|j: int|
                0 <= j < table_keys(t).len() && #[trigger] table_keys(t)[j] == x;
            assert(j < t.len() - 1);
            assert(table_keys(t0)[j] == table_keys(t)[j]);
            assert(table_keys(t0).contains(x));
        }
        lemma_counts_sum_is_multiset_len(t0, m0);
    }
}

/// The sum of the frequency counts is the number of words counted.
pub proof fn lemma_total_is_sum_of_counts(t: Seq<(String, usize)>, words: Seq<Seq<char>>)
    requires
        table_represents(t, words),
    ensures
        counts_sum(t) == words.len(),
{
    broadcast use vstd::multiset::group_multiset_axioms;

    words.to_multiset_ensures();
    let m = words.to_multiset();
    assert forall|x: Seq<char>| m.count(x) > 0 implies table_keys(t).contains(x) by {
        assert(words.contains(x));
    }
    lemma_counts_sum_is_multiset_len(t, m);
}

/// A frequency table has exactly one entry for each distinct word counted.
pub proof fn lemma_table_len_is_distinct_count(t: Seq<(String, usize)>, words: Seq<Seq<char>>)
    requires
        table_represents(t, words),
    ensures
        t.len() == words.to_set().len(),
{
    broadcast use vstd::multiset::group_multiset_axioms;
    broadcast use vstd::set::group_set_axioms;

    words.to_multiset_ensures();
    let keys = table_keys(t);
    keys.unique_seq_to_set();
    assert forall|x: Seq<char>| keys.to_set().contains(x) implies words.to_set().contains(x) by {
        let j = choose|j: int| 0 <= j < keys.len() && #[trigger] keys[j] == x;
        assert(t[j].1 == words.to_multiset().count(x));
        assert(words.to_multiset().count(x) > 0);
        assert(words.contains(x));
    }
    assert forall|x: Seq<char>| words.to_set().contains(x) implies keys.to_set().contains(x) by {
        assert(words.contains(x));
        assert(keys.contains(x));
    }
    assert(keys.to_set() =~= words.to_set());
}

} // verus!
