//! A stable sort into descending order of a key, as a specification: each item, from
//! the first, goes after every item whose key is at least its own.

use vstd::prelude::*;

verus! {

/// Where an item with key `k` goes among `s`: after the leading items whose key is at
/// least `k`.
pub open spec fn insert_pos_by<T>(s: Seq<T>, key: spec_fn(T) -> int, k: int) -> int
    decreases s.len(),
{
    if s.len() == 0 {
        0
    } else if key(s[0]) < k {
        0
    } else {
        1 + insert_pos_by(s.drop_first(), key, k)
    }
}

/// `s` sorted by `key`, largest first, items with equal keys in their first order.
pub open spec fn sort_desc_by<T>(s: Seq<T>, key: spec_fn(T) -> int) -> Seq<T>
    decreases s.len(),
{
    if s.len() == 0 {
        seq![]
    } else {
        let sorted = sort_desc_by(s.drop_last(), key);
        sorted.insert(insert_pos_by(sorted, key, key(s.last())), s.last())
    }
}

/// The items are in descending order of `key`.
pub open spec fn is_desc_by<T>(s: Seq<T>, key: spec_fn(T) -> int) -> bool {
    forall|i: int, j: int| 0 <= i < j < s.len() ==> key(#[trigger] s[i]) >= key(#[trigger] s[j])
}

/// The place `insert_pos_by` gives is the one past the leading items with a key of at
/// least `k`.
pub proof fn lemma_insert_pos_by<T>(s: Seq<T>, key: spec_fn(T) -> int, k: int, p: int)
    requires
        0 <= p <= s.len(),
        forall|i: int| 0 <= i < p ==> key(#[trigger] s[i]) >= k,
        p == s.len() || key(s[p]) < k,
    ensures
        insert_pos_by(s, key, k) == p,
    decreases p,
{
    if p > 0 {
        let t = s.drop_first();
        assert forall|i: int| 0 <= i < p - 1 implies key(#[trigger] t[i]) >= k by {
            assert(t[i] == s[i + 1]);
        }
        if p < s.len() {
            assert(t[p - 1] == s[p]);
        }
        lemma_insert_pos_by(t, key, k, p - 1);
    }
}

/// Where `insert_pos_by` lands: past every item with a key of at least `k`, before the
/// first with a smaller one.
pub proof fn lemma_insert_pos_by_bounds<T>(s: Seq<T>, key: spec_fn(T) -> int, k: int)
    ensures
        0 <= insert_pos_by(s, key, k) <= s.len(),
        forall|i: int| 0 <= i < insert_pos_by(s, key, k) ==> key(#[trigger] s[i]) >= k,
        insert_pos_by(s, key, k) < s.len() ==> key(s[insert_pos_by(s, key, k)]) < k,
    decreases s.len(),
{
    if s.len() > 0 && key(s[0]) >= k {
        let t = s.drop_first();
        lemma_insert_pos_by_bounds(t, key, k);
        assert forall|i: int| 0 <= i < insert_pos_by(s, key, k) implies key(#[trigger] s[i])
            >= k by {
            if i > 0 {
                assert(s[i] == t[i - 1]);
            }
        }
        if insert_pos_by(s, key, k) < s.len() {
            assert(s[insert_pos_by(s, key, k)] == t[insert_pos_by(t, key, k)]);
        }
    }
}

/// Sorting gives the same items, each as often as before, in descending order of the
/// key.
pub proof fn lemma_sort_desc_by<T>(s: Seq<T>, key: spec_fn(T) -> int)
    ensures
        sort_desc_by(s, key).to_multiset() == s.to_multiset(),
        sort_desc_by(s, key).len() == s.len(),
        is_desc_by(sort_desc_by(s, key), key),
    decreases s.len(),
{
    broadcast use vstd::seq_lib::to_multiset_build, vstd::seq_lib::to_multiset_insert;

    if s.len() == 0 {
        assert(s =~= Seq::<T>::empty());
        assert(sort_desc_by(s, key) =~= Seq::<T>::empty());
    } else {
        let t = s.drop_last();
        let x = s.last();
        let sorted = sort_desc_by(t, key);
        lemma_sort_desc_by(t, key);
        let p = insert_pos_by(sorted, key, key(x));
        lemma_insert_pos_by_bounds(sorted, key, key(x));
        let r = sorted.insert(p, x);
        assert(r == sort_desc_by(s, key));
        assert(t.push(x) =~= s);
        assert(r.to_multiset() == sorted.to_multiset().insert(x));
        assert(s.to_multiset() == t.push(x).to_multiset());
        assert(t.push(x).to_multiset() == t.to_multiset().insert(x));
        assert forall|i: int, j: int| 0 <= i < j < r.len() implies key(#[trigger] r[i]) >= key(
            #[trigger] r[j],
        ) by {
            if j < p {
                assert(r[i] == sorted[i] && r[j] == sorted[j]);
            } else if j == p {
                assert(r[i] == sorted[i]);
            } else if i < p {
                assert(r[i] == sorted[i] && r[j] == sorted[j - 1]);
            } else if i == p {
                assert(r[j] == sorted[j - 1]);
                assert(key(sorted[p]) >= key(sorted[j - 1]));
            } else {
                assert(r[i] == sorted[i - 1] && r[j] == sorted[j - 1]);
            }
        }
    }
}


/// The items of `s` whose key is `v`, in their order in `s`.
pub open spec fn with_key<T>(s: Seq<T>, key: spec_fn(T) -> int, v: int) -> Seq<T>
    decreases s.len(),
{
    if s.len() == 0 {
        seq![]
    } else if key(s.last()) == v {
        with_key(s.drop_last(), key, v).push(s.last())
    } else {
        with_key(s.drop_last(), key, v)
    }
}

proof fn lemma_with_key_concat<T>(a: Seq<T>, b: Seq<T>, key: spec_fn(T) -> int, v: int)
    ensures
        with_key(a + b, key, v) == with_key(a, key, v) + with_key(b, key, v),
    decreases b.len(),
{
    if b.len() == 0 {
        assert(a + b =~= a);
        assert(with_key(a, key, v) + with_key(b, key, v) =~= with_key(a, key, v));
    } else {
        assert((a + b).drop_last() =~= a + b.drop_last());
        assert((a + b).last() == b.last());
        lemma_with_key_concat(a, b.drop_last(), key, v);
        if key(b.last()) == v {
            assert(with_key(a, key, v) + with_key(b.drop_last(), key, v).push(b.last()) =~= (
            with_key(a, key, v) + with_key(b.drop_last(), key, v)).push(b.last()));
        }
    }
}

proof fn lemma_with_key_none<T>(s: Seq<T>, key: spec_fn(T) -> int, v: int)
    requires
        forall|i: int| 0 <= i < s.len() ==> key(#[trigger] s[i]) < v,
    ensures
        with_key(s, key, v) == Seq::<T>::empty(),
    decreases s.len(),
{
    if s.len() > 0 {
        assert(key(s[s.len() - 1]) < v);
        assert forall|i: int| 0 <= i < s.drop_last().len() implies key(#[trigger] s.drop_last()[i])
            < v by {
            assert(s.drop_last()[i] == s[i]);
        }
        lemma_with_key_none(s.drop_last(), key, v);
    }
}

/// The sort is stable: the items that share a key come out in the order they went in.
pub proof fn law_sort_stable<T>(s: Seq<T>, key: spec_fn(T) -> int, v: int)
    ensures
        with_key(sort_desc_by(s, key), key, v) == with_key(s, key, v),
    decreases s.len(),
{
    if s.len() > 0 {
        let t = s.drop_last();
        let x = s.last();
        let sorted = sort_desc_by(t, key);
        law_sort_stable(t, key, v);
        lemma_sort_desc_by(t, key);
        let p = insert_pos_by(sorted, key, key(x));
        lemma_insert_pos_by_bounds(sorted, key, key(x));
        let a = sorted.subrange(0, p);
        let b = sorted.subrange(p, sorted.len() as int);
        let r = sorted.insert(p, x);
        assert(r =~= a + seq![x] + b);
        assert(sorted =~= a + b);
        lemma_with_key_concat(a + seq![x], b, key, v);
        lemma_with_key_concat(a, seq![x], key, v);
        lemma_with_key_concat(a, b, key, v);
        let one = seq![x];
        assert(one.drop_last() =~= Seq::<T>::empty());
        assert(one.last() == x);
        assert(with_key(Seq::<T>::empty(), key, v) =~= Seq::<T>::empty());
        assert(with_key(one.drop_last(), key, v) =~= Seq::<T>::empty());
        if key(x) == v {
            assert forall|i: int| 0 <= i < b.len() implies key(#[trigger] b[i]) < v by {
                assert(b[i] == sorted[p + i]);
                if i > 0 {
                    assert(key(sorted[p]) >= key(sorted[p + i]));
                }
            }
            lemma_with_key_none(b, key, v);
            assert(with_key(one, key, v) == with_key(one.drop_last(), key, v).push(x));
            assert(with_key(one, key, v) =~= seq![x]);
            assert(with_key(r, key, v) =~= with_key(sorted, key, v).push(x));
        } else {
            assert(with_key(one, key, v) == with_key(one.drop_last(), key, v));
            assert(with_key(one, key, v) =~= Seq::<T>::empty());
            assert(with_key(r, key, v) =~= with_key(sorted, key, v));
        }
        assert(r == sort_desc_by(s, key));
    }
}
} // verus!
