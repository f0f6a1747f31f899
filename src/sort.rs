use vstd::prelude::*;
use vstd::multiset::Multiset;
use vstd::seq_lib::{to_multiset_contains, to_multiset_insert, to_multiset_len, to_multiset_remove};

use crate::entry::Entry;
use crate::text::{lemma_seq_lt_asymmetric, lemma_seq_lt_total, lemma_seq_lt_transitive, seq_lt, str_lt};

verus! {

/// The field that entries are ordered by.
#[derive(PartialEq, Eq, Structural, Clone, Copy, Debug)]
pub enum SortKey {
    Path,
    LastModified,
}

/// The current order of the listing.
#[derive(PartialEq, Eq, Structural, Clone, Copy, Debug)]
pub struct SortConfig {
    pub sort_key: SortKey,
    pub ascending: bool,
}

/// The order after choosing `key`: the other direction when it is the
/// current key, else ascending by the new key.
pub open spec fn next_config(c: Option<SortConfig>, key: SortKey) -> SortConfig {
    match c {
        Some(c) => if c.sort_key == key {
            SortConfig { sort_key: key, ascending: !c.ascending }
        } else {
            SortConfig { sort_key: key, ascending: true }
        },
        None => SortConfig { sort_key: key, ascending: true },
    }
}

/// The text that `key` orders an entry by.
pub open spec fn key_of(e: Entry, key: SortKey) -> Seq<char> {
    match key {
        SortKey::Path => e.path@,
        SortKey::LastModified => e.modified_key(),
    }
}

/// `a` must stand strictly before `b` in the order given by `key` and the
/// direction.
pub open spec fn goes_before(a: Entry, b: Entry, key: SortKey, ascending: bool) -> bool {
    if ascending {
        seq_lt(key_of(a, key), key_of(b, key))
    } else {
        seq_lt(key_of(b, key), key_of(a, key))
    }
}

/// No entry of `s` must stand before an earlier one.
pub open spec fn is_sorted_by(s: Seq<Entry>, key: SortKey, ascending: bool) -> bool {
    forall|i: int, j: int| 0 <= i < j < s.len() ==> !goes_before(#[trigger] s[j], #[trigger] s[i], key, ascending)
}

/// `after` holds the entries of `before`, each as often, in sorted order.
pub open spec fn is_sorted_permutation(before: Seq<Entry>, after: Seq<Entry>, key: SortKey, ascending: bool) -> bool {
    &&& after.to_multiset() == before.to_multiset()
    &&& is_sorted_by(after, key, ascending)
}

/// Different entries of `s` have different keys.
pub open spec fn keys_distinct(s: Seq<Entry>, key: SortKey) -> bool {
    forall|x: Entry, y: Entry| #[trigger] s.contains(x) && #[trigger] s.contains(y) && x != y
        ==> key_of(x, key) != key_of(y, key)
}

proof fn lemma_before_asymmetric(a: Entry, b: Entry, key: SortKey, ascending: bool)
    requires
        goes_before(a, b, key, ascending),
    ensures
        !goes_before(b, a, key, ascending),
{
    if ascending {
        lemma_seq_lt_asymmetric(key_of(a, key), key_of(b, key));
    } else {
        lemma_seq_lt_asymmetric(key_of(b, key), key_of(a, key));
    }
}

proof fn lemma_not_lt_transitive(x: Seq<char>, y: Seq<char>, z: Seq<char>)
    requires
        !seq_lt(x, y),
        !seq_lt(y, z),
    ensures
        !seq_lt(x, z),
{
    if seq_lt(x, z) && x != y {
        lemma_seq_lt_total(x, y);
        lemma_seq_lt_transitive(y, x, z);
    }
}

proof fn lemma_not_before_transitive(a: Entry, b: Entry, c: Entry, key: SortKey, ascending: bool)
    requires
        !goes_before(a, b, key, ascending),
        !goes_before(b, c, key, ascending),
    ensures
        !goes_before(a, c, key, ascending),
{
    if ascending {
        lemma_not_lt_transitive(key_of(a, key), key_of(b, key), key_of(c, key));
    } else {
        lemma_not_lt_transitive(key_of(c, key), key_of(b, key), key_of(a, key));
    }
}

proof fn lemma_before_total(a: Entry, b: Entry, key: SortKey, ascending: bool)
    requires
        key_of(a, key) != key_of(b, key),
    ensures
        goes_before(a, b, key, ascending) || goes_before(b, a, key, ascending),
{
    lemma_seq_lt_total(key_of(a, key), key_of(b, key));
}

fn key_text(e: &Entry, key: SortKey) -> (r: &str)
    ensures
        r@ == key_of(*e, key),
{
    match key {
        SortKey::Path => e.path.as_str(),
        SortKey::LastModified => match &e.last_modified {
            Some(t) => t.as_str(),
            None => {
                proof {
                    reveal_strlit("");
                }
                ""
            },
        },
    }
}

fn entry_goes_before(a: &Entry, b: &Entry, key: SortKey, ascending: bool) -> (r: bool)
    ensures
        r == goes_before(*a, *b, key, ascending),
{
    if ascending {
        str_lt(key_text(a, key), key_text(b, key))
    } else {
        str_lt(key_text(b, key), key_text(a, key))
    }
}

/// Reorders `v` by `key` in the given direction; entries with equal keys keep
/// their relative order.
pub fn sort_entries(v: &mut Vec<Entry>, key: SortKey, ascending: bool)
    ensures
        is_sorted_permutation(old(v)@, final(v)@, key, ascending),
{
    broadcast use to_multiset_insert;

    let mut rest: Vec<Entry> = Vec::new();
    std::mem::swap(v, &mut rest);
    let ghost all = rest@;
    let mut out: Vec<Entry> = Vec::new();
    assert(rest@.to_multiset().add(out@.to_multiset()) =~= all.to_multiset()) by {
        broadcast use vstd::multiset::group_multiset_axioms;
        to_multiset_len(out@);
        assert(out@.to_multiset() =~= Multiset::empty());
    }
    while rest.len() > 0
        invariant
            all == old(v)@,
            rest@.to_multiset().add(out@.to_multiset()) == all.to_multiset(),
            is_sorted_by(out@, key, ascending),
        decreases rest.len(),
    {
        let ghost before_pop = rest@;
        let e = rest.pop().unwrap();
        proof {
            broadcast use vstd::multiset::group_multiset_axioms;
            assert(before_pop =~= rest@.push(e));
            vstd::seq_lib::to_multiset_build(rest@, e);
        }
        let mut p: usize = 0;
        while p < out.len() && entry_goes_before(&out[p], &e, key, ascending)
            invariant
                p <= out.len(),
                forall|i: int| 0 <= i < p ==> goes_before(#[trigger] out@[i], e, key, ascending),
            decreases out.len() - p,
        {
            p = p + 1;
        }
        let ghost prev = out@;
        out.insert(p, e);
        proof {
            assert forall|i: int, j: int| 0 <= i < j < out@.len() implies
                !goes_before(#[trigger] out@[j], #[trigger] out@[i], key, ascending) by {
                if j < p {
                    assert(out@[i] == prev[i] && out@[j] == prev[j]);
                } else if j == p {
                    lemma_before_asymmetric(prev[i], e, key, ascending);
                } else if i == p {
                    assert(out@[j] == prev[j - 1]);
                    if j - 1 > p {
                        assert(!goes_before(prev[j - 1], prev[p as int], key, ascending));
                    }
                    if j - 1 == p {
                        crate::text::lemma_seq_lt_irreflexive(key_of(prev[p as int], key));
                    }
                    lemma_not_before_transitive(prev[j - 1], prev[p as int], e, key, ascending);
                } else if i < p {
                    assert(out@[i] == prev[i] && out@[j] == prev[j - 1]);
                } else {
                    assert(out@[i] == prev[i - 1] && out@[j] == prev[j - 1]);
                }
            }
            broadcast use vstd::multiset::group_multiset_axioms;
            to_multiset_insert(prev, p as int, e);
            assert(rest@.to_multiset().add(out@.to_multiset()) =~= all.to_multiset());
        }
    }
    proof {
        broadcast use vstd::multiset::group_multiset_axioms;
        assert(rest@ =~= Seq::<Entry>::empty());
        to_multiset_len(rest@);
        assert(rest@.to_multiset() =~= Multiset::empty());
        assert(out@.to_multiset() =~= all.to_multiset());
    }
    *v = out;
}

/// Reversing a sorted sequence sorts it in the other direction.
pub proof fn lemma_reverse_sorted(s: Seq<Entry>, key: SortKey, ascending: bool)
    requires
        is_sorted_by(s, key, ascending),
    ensures
        is_sorted_by(s.reverse(), key, !ascending),
{
    let r = s.reverse();
    assert forall|i: int, j: int| 0 <= i < j < r.len() implies
        !goes_before(#[trigger] r[j], #[trigger] r[i], key, !ascending) by {
        assert(r[i] == s[s.len() - 1 - i] && r[j] == s[s.len() - 1 - j]);
        assert(!goes_before(s[s.len() - 1 - i], s[s.len() - 1 - j], key, ascending));
    }
}

/// With distinct keys there is only one sorted order of a collection of
/// entries.
pub proof fn lemma_sorted_unique(a: Seq<Entry>, b: Seq<Entry>, key: SortKey, ascending: bool)
    requires
        is_sorted_by(a, key, ascending),
        is_sorted_by(b, key, ascending),
        a.to_multiset() == b.to_multiset(),
        keys_distinct(a, key),
    ensures
        a == b,
    decreases a.len(),
{
    broadcast use to_multiset_contains;

    to_multiset_len(a);
    to_multiset_len(b);
    if a.len() == 0 {
        assert(a =~= b);
    } else {
        let n = a.len() - 1;
        let la = a[n];
        let lb = b[n];
        assert(b.contains(lb));
        assert(b.to_multiset().count(lb) > 0);
        assert(a.contains(la));
        assert(a.to_multiset().count(la) > 0);
        assert(a.contains(lb));
        assert(b.contains(la));
        if la != lb {
            let j = choose|j: int| 0 <= j < a.len() && a[j] == lb;
            let k = choose|k: int| 0 <= k < b.len() && b[k] == la;
            assert(!goes_before(a[n], a[j], key, ascending));
            assert(!goes_before(b[n], b[k], key, ascending));
            lemma_before_total(la, lb, key, ascending);
        }
        to_multiset_remove(a, n);
        to_multiset_remove(b, n);
        assert(a.remove(n) =~= a.drop_last());
        assert(b.remove(n) =~= b.drop_last());
        let a2 = a.drop_last();
        let b2 = b.drop_last();
        assert forall|x: Entry, y: Entry| #[trigger] a2.contains(x) && #[trigger] a2.contains(y) && x != y
            implies key_of(x, key) != key_of(y, key) by {
            let i = choose|i: int| 0 <= i < a2.len() && a2[i] == x;
            let i2 = choose|i2: int| 0 <= i2 < a2.len() && a2[i2] == y;
            assert(a.contains(x) && a[i] == x);
            assert(a.contains(y) && a[i2] == y);
        }
        assert(is_sorted_by(a2, key, ascending)) by {
            assert forall|i: int, j: int| 0 <= i < j < a2.len() implies
                !goes_before(#[trigger] a2[j], #[trigger] a2[i], key, ascending) by {
                assert(a2[i] == a[i] && a2[j] == a[j]);
            }
        }
        assert(is_sorted_by(b2, key, ascending)) by {
            assert forall|i: int, j: int| 0 <= i < j < b2.len() implies
                !goes_before(#[trigger] b2[j], #[trigger] b2[i], key, ascending) by {
                assert(b2[i] == b[i] && b2[j] == b[j]);
            }
        }
        lemma_sorted_unique(a2, b2, key, ascending);
        assert(a =~= a2.push(la));
        assert(b =~= b2.push(lb));
    }
}

/// Sorting a collection with distinct keys in one direction and then in the
/// other reverses it, and sorting again in the first direction restores it.
pub proof fn lemma_resort_reverses(
    s: Seq<Entry>,
    first: Seq<Entry>,
    second: Seq<Entry>,
    third: Seq<Entry>,
    key: SortKey,
    ascending: bool,
)
    requires
        keys_distinct(s, key),
        is_sorted_permutation(s, first, key, ascending),
        is_sorted_permutation(first, second, key, !ascending),
        is_sorted_permutation(second, third, key, ascending),
    ensures
        second == first.reverse(),
        third == first,
{
    broadcast use to_multiset_contains;

    assert forall|x: Entry| #[trigger] first.contains(x) implies s.contains(x) by {
        assert(first.to_multiset().count(x) > 0);
    }
    assert(keys_distinct(first, key));
    assert forall|x: Entry| #[trigger] first.reverse().contains(x) implies first.contains(x) by {
        let i = choose|i: int| 0 <= i < first.len() && first.reverse()[i] == x;
        assert(first[first.len() - 1 - i] == x);
    }
    assert(keys_distinct(first.reverse(), key));
    lemma_reverse_sorted(first, key, ascending);
    first.lemma_reverse_to_multiset();
    lemma_sorted_unique(first.reverse(), second, key, !ascending);
    lemma_sorted_unique(first, third, key, ascending);
}

} // verus!
