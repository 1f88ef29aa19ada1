//! Stable descending order by an integer key.
//!
//! Listings are returned sorted by a key, largest first; rows of equal
//! key keep the order the store holds them in.

use vstd::prelude::*;

use vstd::seq_lib::lemma_seq_union_to_multiset_commutative;

verus! {

/// Places `x` after every element whose key is at least as large: a
/// stable insertion into a sequence sorted by descending key.
pub open spec fn insert_desc<T>(s: Seq<T>, x: T, key: spec_fn(T) -> u64) -> Seq<T>
    decreases s.len(),
{
    if s.len() == 0 {
        seq![x]
    } else if key(s[0]) >= key(x) {
        seq![s[0]] + insert_desc(s.drop_first(), x, key)
    } else {
        seq![x] + s
    }
}

/// The stable descending sort by `key`: elements are inserted in their
/// original order, each after those of equal key.
pub open spec fn sort_desc<T>(s: Seq<T>, key: spec_fn(T) -> u64) -> Seq<T>
    decreases s.len(),
{
    if s.len() == 0 {
        Seq::<T>::empty()
    } else {
        insert_desc(sort_desc(s.drop_last(), key), s.last(), key)
    }
}

/// Keys never grow along the sequence.
pub open spec fn sorted_desc<T>(s: Seq<T>, key: spec_fn(T) -> u64) -> bool {
    forall|a: int, b: int| 0 <= a <= b < s.len() ==> key(#[trigger] s[a]) >= key(#[trigger] s[b])
}

proof fn lemma_insert_desc_bound<T>(s: Seq<T>, x: T, key: spec_fn(T) -> u64, c: u64)
    requires
        key(x) <= c,
        forall|i: int| 0 <= i < s.len() ==> key(#[trigger] s[i]) <= c,
    ensures
        insert_desc(s, x, key).len() == s.len() + 1,
        forall|i: int|
            0 <= i < insert_desc(s, x, key).len() ==> key(#[trigger] insert_desc(s, x, key)[i])
                <= c,
    decreases s.len(),
{
    if s.len() > 0 && key(s[0]) >= key(x) {
        assert(forall|i: int|
            0 <= i < s.drop_first().len() ==> key(#[trigger] s.drop_first()[i]) <= c);
        lemma_insert_desc_bound(s.drop_first(), x, key, c);
    }
}

/// Law: a stable insertion keeps the sequence sorted.
pub proof fn lemma_insert_desc_sorted<T>(s: Seq<T>, x: T, key: spec_fn(T) -> u64)
    requires
        sorted_desc(s, key),
    ensures
        sorted_desc(insert_desc(s, x, key), key),
        insert_desc(s, x, key).len() == s.len() + 1,
    decreases s.len(),
{
    if s.len() == 0 {
    } else if key(s[0]) >= key(x) {
        let t = s.drop_first();
        assert(sorted_desc(t, key)) by {
            assert(forall|i: int| 0 <= i < t.len() ==> (#[trigger] t[i]) == s[i + 1]);
        }
        lemma_insert_desc_sorted(t, x, key);
        assert(forall|i: int| 0 <= i < t.len() ==> key(#[trigger] t[i]) <= key(s[0]));
        lemma_insert_desc_bound(t, x, key, key(s[0]));
        let r = insert_desc(s, x, key);
        let w = insert_desc(t, x, key);
        assert(forall|i: int| 1 <= i < r.len() ==> (#[trigger] r[i]) == w[i - 1]);
        assert(forall|a: int, b: int|
            0 <= a <= b < r.len() ==> key(#[trigger] r[a]) >= key(#[trigger] r[b])) by {
            assert(forall|b: int| 1 <= b < r.len() ==> key(#[trigger] r[b]) <= key(s[0]));
        }
    } else {
        let r = insert_desc(s, x, key);
        assert(forall|i: int| 1 <= i < r.len() ==> (#[trigger] r[i]) == s[i - 1]);
        assert(forall|i: int| 0 <= i < s.len() ==> key(#[trigger] s[i]) <= key(s[0]));
    }
}

/// Law: the sort yields a sequence sorted by descending key.
pub proof fn lemma_sort_desc_sorted<T>(s: Seq<T>, key: spec_fn(T) -> u64)
    ensures
        sorted_desc(sort_desc(s, key), key),
        sort_desc(s, key).len() == s.len(),
    decreases s.len(),
{
    if s.len() > 0 {
        lemma_sort_desc_sorted(s.drop_last(), key);
        lemma_insert_desc_sorted(sort_desc(s.drop_last(), key), s.last(), key);
    }
}

proof fn lemma_insert_desc_multiset<T>(s: Seq<T>, x: T, key: spec_fn(T) -> u64)
    ensures
        insert_desc(s, x, key).to_multiset() == s.to_multiset().insert(x),
    decreases s.len(),
{
    broadcast use vstd::seq_lib::group_to_multiset_ensures;

    if s.len() == 0 {
        assert(insert_desc(s, x, key) =~= Seq::<T>::empty().push(x));
        assert(s =~= Seq::<T>::empty());
        assert(insert_desc(s, x, key).to_multiset() =~= s.to_multiset().insert(x));
    } else if key(s[0]) >= key(x) {
        let t = s.drop_first();
        lemma_insert_desc_multiset(t, x, key);
        let w = insert_desc(t, x, key);
        lemma_seq_union_to_multiset_commutative(seq![s[0]], w);
        assert(w + seq![s[0]] =~= w.push(s[0]));
        lemma_seq_union_to_multiset_commutative(seq![s[0]], t);
        assert(seq![s[0]] + t =~= s);
        assert(t + seq![s[0]] =~= t.push(s[0]));
        assert(t.to_multiset().insert(x).insert(s[0]) =~= t.to_multiset().insert(s[0]).insert(
            x,
        ));
        assert(insert_desc(s, x, key).to_multiset() =~= s.to_multiset().insert(x));
    } else {
        assert(insert_desc(s, x, key) =~= seq![x] + s);
        lemma_seq_union_to_multiset_commutative(seq![x], s);
        assert(s + seq![x] =~= s.push(x));
        assert(insert_desc(s, x, key).to_multiset() =~= s.to_multiset().insert(x));
    }
}

/// Law: the sort is a permutation — no row appears, disappears or is
/// duplicated by ordering a listing.
pub proof fn lemma_sort_desc_permutes<T>(s: Seq<T>, key: spec_fn(T) -> u64)
    ensures
        sort_desc(s, key).to_multiset() == s.to_multiset(),
    decreases s.len(),
{
    broadcast use vstd::seq_lib::group_to_multiset_ensures;

    if s.len() > 0 {
        lemma_sort_desc_permutes(s.drop_last(), key);
        lemma_insert_desc_multiset(sort_desc(s.drop_last(), key), s.last(), key);
        assert(s.drop_last().push(s.last()) =~= s);
        assert(sort_desc(s, key).to_multiset() =~= s.to_multiset());
    }
}

/// Where a stable insertion lands: at the first position whose key is
/// smaller, after every position whose key is at least as large.
pub proof fn lemma_insert_desc_at<T>(s: Seq<T>, x: T, key: spec_fn(T) -> u64, j: int)
    requires
        0 <= j <= s.len(),
        forall|t: int| 0 <= t < j ==> key(#[trigger] s[t]) >= key(x),
        j < s.len() ==> key(s[j]) < key(x),
    ensures
        insert_desc(s, x, key) == s.subrange(0, j) + seq![x] + s.subrange(j, s.len() as int),
    decreases s.len(),
{
    if s.len() == 0 {
        assert(insert_desc(s, x, key) =~= s.subrange(0, j) + seq![x] + s.subrange(
            j,
            s.len() as int,
        ));
    } else if j == 0 {
        assert(key(s[0]) < key(x));
        assert(s.subrange(0, 0) =~= Seq::<T>::empty());
        assert(s.subrange(0, s.len() as int) =~= s);
        assert(insert_desc(s, x, key) =~= s.subrange(0, j) + seq![x] + s.subrange(
            j,
            s.len() as int,
        ));
    } else {
        let t = s.drop_first();
        assert(forall|i: int| 0 <= i < t.len() ==> (#[trigger] t[i]) == s[i + 1]);
        lemma_insert_desc_at(t, x, key, j - 1);
        assert(t.subrange(0, j - 1) =~= s.subrange(1, j));
        assert(t.subrange(j - 1, t.len() as int) =~= s.subrange(j, s.len() as int));
        assert(insert_desc(s, x, key) =~= s.subrange(0, j) + seq![x] + s.subrange(
            j,
            s.len() as int,
        ));
    }
}

} // verus!
