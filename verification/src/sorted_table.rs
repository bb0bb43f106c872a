//! A table of entries sorted by text key, each key once: the ordered maps of
//! the extension index.
use vstd::prelude::*;
use crate::text::{
    chars_compare, chars_of, lemma_seq_less_irreflexive, lemma_seq_less_total,
    lemma_seq_less_transitive, seq_less, TextOrder,
};
use crate::extension_index::{strictly_sorted, table_keys};

verus! {

/// A table as a map from key texts to value views (a later entry under the
/// same key wins, which in a well-formed table never happens).
pub open spec fn table_view<V: View>(t: Seq<(String, V)>) -> Map<Seq<char>, V::V>
    decreases t.len(),
{
    if t.len() == 0 {
        Map::empty()
    } else {
        table_view(t.drop_last()).insert(t.last().0@, t.last().1@)
    }
}

proof fn lemma_sorted_prefix<V>(t: Seq<(String, V)>)
    requires
        strictly_sorted(table_keys(t)),
        t.len() > 0,
    ensures
        strictly_sorted(table_keys(t.drop_last())),
{
    let d = t.drop_last();
    assert forall|p: int, q: int| 0 <= p < q < table_keys(d).len() implies seq_less(table_keys(d)[p], table_keys(d)[q]) by {
        assert(table_keys(d)[p] == table_keys(t)[p]);
        assert(table_keys(d)[q] == table_keys(t)[q]);
    }
}

/// In a sorted table, the entry at a position is what the map holds for its key.
pub proof fn lemma_table_lookup<V: View>(t: Seq<(String, V)>, i: int)
    requires
        strictly_sorted(table_keys(t)),
        0 <= i < t.len(),
    ensures
        table_view(t).contains_key(t[i].0@),
        table_view(t)[t[i].0@] == t[i].1@,
    decreases t.len(),
{
    if i < t.len() - 1 {
        lemma_sorted_prefix(t);
        let d = t.drop_last();
        assert(d[i] == t[i]);
        lemma_table_lookup(d, i);
        assert(seq_less(table_keys(t)[i], table_keys(t)[t.len() - 1]));
        lemma_seq_less_irreflexive(t[i].0@);
        assert(t[i].0@ != t.last().0@);
    }
}

/// A key the map holds is the key of some entry.
pub proof fn lemma_table_keys<V: View>(t: Seq<(String, V)>, k: Seq<char>)
    requires
        table_view(t).contains_key(k),
    ensures
        exists|i: int| 0 <= i < t.len() && (#[trigger] t[i]).0@ == k,
    decreases t.len(),
{
    if t.last().0@ == k {
        assert(t[t.len() - 1].0@ == k);
    } else {
        lemma_table_keys(t.drop_last(), k);
        let i = choose|i: int| 0 <= i < t.drop_last().len() && (#[trigger] t.drop_last()[i]).0@ == k;
        assert(t[i] == t.drop_last()[i]);
    }
}

/// The first position whose key does not sort before `key`.
fn lower_bound<V>(t: &Vec<(String, V)>, key: &[char]) -> (p: usize)
    requires
        strictly_sorted(table_keys(t@)),
    ensures
        p <= t@.len(),
        forall|i: int| 0 <= i < p ==> seq_less(#[trigger] t@[i].0@, key@),
        p < t@.len() ==> !seq_less(t@[p as int].0@, key@),
{
    let mut p: usize = 0;
    while p < t.len()
        invariant
            p <= t@.len(),
            forall|i: int| 0 <= i < p ==> seq_less(#[trigger] t@[i].0@, key@),
        decreases t@.len() - p,
    {
        let k = chars_of(t[p].0.as_str());
        if chars_compare(k.as_slice(), key) != TextOrder::Less {
            return p;
        }
        p = p + 1;
    }
    p
}

/// Sets `key` to `value`: the entry under the key is replaced, or a new
/// entry goes to its place in key order.
pub fn table_insert<V: View>(t: &mut Vec<(String, V)>, key: String, value: V)
    requires
        strictly_sorted(table_keys(old(t)@)),
    ensures
        strictly_sorted(table_keys(final(t)@)),
        table_view(final(t)@) == table_view(old(t)@).insert(key@, value@),
{
    let ghost before = t@;
    let ghost k = key@;
    let ghost v = value@;
    let key_chars = chars_of(key.as_str());
    let p = lower_bound(t, key_chars.as_slice());
    let same = p < t.len() && crate::text::str_eq(t[p].0.as_str(), key.as_str());
    if same {
        t.set(p, (key, value));
        let ghost after = t@;
        assert(after[p as int].0@ == k && after[p as int].1@ == v);
        assert(table_keys(after) =~= table_keys(before));
        proof {
            assert forall|q: Seq<char>| #[trigger] table_view(after).contains_key(q) <==> table_view(before).insert(k, v).contains_key(q) by {
                if table_view(after).contains_key(q) {
                    lemma_table_keys(after, q);
                    let j = choose|j: int| 0 <= j < after.len() && (#[trigger] after[j]).0@ == q;
                    if j != p {
                        assert(after[j] == before[j]);
                        lemma_table_lookup(before, j);
                    }
                }
                if table_view(before).insert(k, v).contains_key(q) {
                    if q == k {
                        lemma_table_lookup(after, p as int);
                    } else {
                        lemma_table_keys(before, q);
                        let j = choose|j: int| 0 <= j < before.len() && (#[trigger] before[j]).0@ == q;
                        assert(j != p);
                        assert(after[j] == before[j]);
                        lemma_table_lookup(after, j);
                    }
                }
            }
            assert forall|q: Seq<char>| #[trigger] table_view(after).contains_key(q) implies table_view(after)[q] == table_view(before).insert(k, v)[q] by {
                lemma_table_keys(after, q);
                let j = choose|j: int| 0 <= j < after.len() && (#[trigger] after[j]).0@ == q;
                lemma_table_lookup(after, j);
                if j != p {
                    assert(after[j] == before[j]);
                    lemma_table_lookup(before, j);
                    assert(table_keys(after)[j] == q && table_keys(after)[p as int] == k);
                    if j < p {
                        assert(seq_less(table_keys(before)[j], table_keys(before)[p as int]));
                    } else {
                        assert(seq_less(table_keys(before)[p as int], table_keys(before)[j]));
                    }
                    lemma_seq_less_irreflexive(k);
                    assert(q != k);
                } else {
                    assert(q == k);
                }
            }
            assert(table_view(after) =~= table_view(before).insert(k, v));
        }
    } else {
        proof {
            if p < before.len() {
                assert(before[p as int].0@ != k);
                lemma_seq_less_total(before[p as int].0@, k);
                assert(seq_less(k, before[p as int].0@));
            }
        }
        t.insert(p, (key, value));
        let ghost after = t@;
        assert(after == before.insert(p as int, (after[p as int].0, after[p as int].1)));
        proof {
            assert forall|a: int, b: int| 0 <= a < b < table_keys(after).len() implies seq_less(table_keys(after)[a], table_keys(after)[b]) by {
                if b < p {
                    assert(after[a] == before[a] && after[b] == before[b]);
                    assert(seq_less(table_keys(before)[a], table_keys(before)[b]));
                } else if b == p {
                    assert(after[a] == before[a]);
                } else if a == p {
                    assert(after[b] == before[b - 1]);
                    if b - 1 > p {
                        assert(seq_less(table_keys(before)[p as int], table_keys(before)[b - 1]));
                        lemma_seq_less_transitive(k, before[p as int].0@, before[b - 1].0@);
                    }
                } else if a < p {
                    assert(after[a] == before[a]);
                    assert(after[b] == before[b - 1]);
                    assert(seq_less(table_keys(before)[a], table_keys(before)[b - 1]));
                } else {
                    assert(after[a] == before[a - 1]);
                    assert(after[b] == before[b - 1]);
                    assert(seq_less(table_keys(before)[a - 1], table_keys(before)[b - 1]));
                }
            }
            assert(!table_view(before).contains_key(k)) by {
                if table_view(before).contains_key(k) {
                    lemma_table_keys(before, k);
                    let j = choose|j: int| 0 <= j < before.len() && (#[trigger] before[j]).0@ == k;
                    if j < p {
                        lemma_seq_less_irreflexive(k);
                    } else if j == p {
                    } else {
                        assert(seq_less(table_keys(before)[p as int], table_keys(before)[j]));
                        lemma_seq_less_transitive(k, before[p as int].0@, k);
                        lemma_seq_less_irreflexive(k);
                    }
                }
            }
            assert forall|q: Seq<char>| #[trigger] table_view(after).contains_key(q) <==> table_view(before).insert(k, v).contains_key(q) by {
                if table_view(after).contains_key(q) {
                    lemma_table_keys(after, q);
                    let j = choose|j: int| 0 <= j < after.len() && (#[trigger] after[j]).0@ == q;
                    if j < p {
                        assert(after[j] == before[j]);
                        lemma_table_lookup(before, j);
                    } else if j > p {
                        assert(after[j] == before[j - 1]);
                        lemma_table_lookup(before, j - 1);
                    }
                }
                if table_view(before).insert(k, v).contains_key(q) {
                    if q == k {
                        lemma_table_lookup(after, p as int);
                    } else {
                        lemma_table_keys(before, q);
                        let j = choose|j: int| 0 <= j < before.len() && (#[trigger] before[j]).0@ == q;
                        if j < p {
                            assert(after[j] == before[j]);
                            lemma_table_lookup(after, j);
                        } else {
                            assert(after[j + 1] == before[j]);
                            lemma_table_lookup(after, j + 1);
                        }
                    }
                }
            }
            assert forall|q: Seq<char>| #[trigger] table_view(after).contains_key(q) implies table_view(after)[q] == table_view(before).insert(k, v)[q] by {
                lemma_table_keys(after, q);
                let j = choose|j: int| 0 <= j < after.len() && (#[trigger] after[j]).0@ == q;
                lemma_table_lookup(after, j);
                if j < p {
                    assert(after[j] == before[j]);
                    lemma_table_lookup(before, j);
                } else if j > p {
                    assert(after[j] == before[j - 1]);
                    lemma_table_lookup(before, j - 1);
                }
            }
            assert(table_view(after) =~= table_view(before).insert(k, v));
        }
    }
}

/// The value under a key.
pub fn table_get<'a, V: View>(t: &'a Vec<(String, V)>, key: &str) -> (r: Option<&'a V>)
    requires
        strictly_sorted(table_keys(t@)),
    ensures
        match r {
            Some(v) => table_view(t@).contains_key(key@) && table_view(t@)[key@] == v@,
            None => !table_view(t@).contains_key(key@),
        },
{
    let key_chars = chars_of(key);
    let p = lower_bound(t, key_chars.as_slice());
    if p < t.len() && crate::text::str_eq(t[p].0.as_str(), key) {
        proof {
            lemma_table_lookup(t@, p as int);
        }
        Some(&t[p].1)
    } else {
        proof {
            if table_view(t@).contains_key(key@) {
                lemma_table_keys(t@, key@);
                let j = choose|j: int| 0 <= j < t@.len() && (#[trigger] t@[j]).0@ == key@;
                if j < p {
                    lemma_seq_less_irreflexive(key@);
                } else if j > p {
                    assert(seq_less(table_keys(t@)[p as int], table_keys(t@)[j]));
                    if t@[p as int].0@ != key@ {
                        lemma_seq_less_total(t@[p as int].0@, key@);
                        lemma_seq_less_transitive(key@, t@[p as int].0@, key@);
                    }
                    lemma_seq_less_irreflexive(key@);
                }
            }
        }
        None
    }
}

/// What a table reads back after a key was set in it (`after` is what
/// `table_insert` leaves of `before`): the value just set under that key,
/// and under every other key what it held before.
pub proof fn lemma_insert_then_get<V: View>(
    before: Seq<(String, V)>,
    after: Seq<(String, V)>,
    k: Seq<char>,
    v: V::V,
    q: Seq<char>,
)
    requires
        table_view(after) == table_view(before).insert(k, v),
    ensures
        table_view(after).contains_key(k),
        table_view(after)[k] == v,
        q != k ==> (table_view(after).contains_key(q) == table_view(before).contains_key(q)),
        q != k && table_view(before).contains_key(q) ==> table_view(after)[q] == table_view(before)[q],
{
}

/// Whether the keys of a table are in strictly increasing order.
pub fn table_sorted<V>(t: &Vec<(String, V)>) -> (r: bool)
    ensures
        r == strictly_sorted(table_keys(t@)),
{
    let ghost ks = table_keys(t@);
    if t.len() == 0 {
        return true;
    }
    let mut i: usize = 1;
    while i < t.len()
        invariant
            ks == table_keys(t@),
            1 <= i <= t@.len(),
            forall|p: int, q: int| 0 <= p < q < i ==> seq_less(ks[p], ks[q]),
        decreases t@.len() - i,
    {
        let a = chars_of(t[i - 1].0.as_str());
        let b = chars_of(t[i].0.as_str());
        if chars_compare(a.as_slice(), b.as_slice()) != TextOrder::Less {
            assert(!seq_less(ks[i - 1], ks[i as int]));
            return false;
        }
        proof {
            assert forall|p: int, q: int| 0 <= p < q < i + 1 implies seq_less(ks[p], ks[q]) by {
                if q == i && p < i - 1 {
                    lemma_seq_less_transitive(ks[p], ks[i - 1], ks[q]);
                }
            }
        }
        i = i + 1;
    }
    true
}

} // verus!
