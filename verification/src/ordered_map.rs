//! A map from public keys to values that is walked in canonical key order.
//!
//! The entries stand in a vector sorted by key, each key once. Contracts
//! speak of the map through its view, the sequence of `(key bytes, value)`
//! pairs in that order.

use crate::keys::{
    lemma_lex_lt_asymmetric, lemma_lex_lt_irreflexive, lemma_lex_lt_transitive, lemma_lex_total,
    lex_lt, KeyOrder, PublicKey,
};
use vstd::prelude::*;

verus! {

/// The keys of `s` strictly increase.
pub open spec fn sorted_by_key<V>(s: Seq<(Seq<u8>, V)>) -> bool {
    forall|i: int, j: int| 0 <= i < j < s.len() ==> lex_lt(#[trigger] s[i].0, #[trigger] s[j].0)
}

/// The number of entries of `s` whose key comes before `key`. In a sorted
/// sequence this is the place of `key`, present or not.
pub open spec fn rank<V>(s: Seq<(Seq<u8>, V)>, key: Seq<u8>) -> int
    decreases s.len(),
{
    if s.len() == 0 {
        0
    } else {
        rank(s.drop_last(), key) + if lex_lt(s.last().0, key) {
            1int
        } else {
            0int
        }
    }
}

/// `key` has an entry in the sorted sequence `s`.
pub open spec fn has_key<V>(s: Seq<(Seq<u8>, V)>, key: Seq<u8>) -> bool {
    0 <= rank(s, key) < s.len() && s[rank(s, key)].0 == key
}

/// The value that the sorted sequence `s` holds for `key`.
pub open spec fn get<V>(s: Seq<(Seq<u8>, V)>, key: Seq<u8>) -> Option<V> {
    if has_key(s, key) {
        Some(s[rank(s, key)].1)
    } else {
        None
    }
}

/// The sorted sequence `s` with `value` stored for `key`, in place of the
/// value it held or at the place that keeps the keys sorted.
pub open spec fn put<V>(s: Seq<(Seq<u8>, V)>, key: Seq<u8>, value: V) -> Seq<(Seq<u8>, V)> {
    if has_key(s, key) {
        s.update(rank(s, key), (key, value))
    } else {
        s.insert(rank(s, key), (key, value))
    }
}

pub proof fn lemma_rank_bounds<V>(s: Seq<(Seq<u8>, V)>, key: Seq<u8>)
    ensures
        0 <= rank(s, key) <= s.len(),
    decreases s.len(),
{
    if s.len() > 0 {
        lemma_rank_bounds(s.drop_last(), key);
    }
}

/// Where every key of `s` before `i` comes before `key` and none from `i`
/// on does, `i` is the rank of `key`.
pub proof fn lemma_rank_is<V>(s: Seq<(Seq<u8>, V)>, key: Seq<u8>, i: int)
    requires
        0 <= i <= s.len(),
        forall|j: int| 0 <= j < i ==> lex_lt(#[trigger] s[j].0, key),
        forall|j: int| i <= j < s.len() ==> !lex_lt(#[trigger] s[j].0, key),
    ensures
        rank(s, key) == i,
    decreases s.len(),
{
    if s.len() > 0 {
        let t = s.drop_last();
        if i == s.len() {
            assert forall|j: int| 0 <= j < i - 1 implies lex_lt(#[trigger] t[j].0, key) by {
                assert(t[j] == s[j]);
            }
            lemma_rank_is(t, key, i - 1);
        } else {
            assert forall|j: int| 0 <= j < i implies lex_lt(#[trigger] t[j].0, key) by {
                assert(t[j] == s[j]);
            }
            assert forall|j: int| i <= j < t.len() implies !lex_lt(#[trigger] t[j].0, key) by {
                assert(t[j] == s[j]);
            }
            lemma_rank_is(t, key, i);
        }
    }
}

/// In a sorted sequence the keys before the rank of `key` come before it,
/// and the keys from the rank on do not.
pub proof fn lemma_rank_splits<V>(s: Seq<(Seq<u8>, V)>, key: Seq<u8>)
    requires
        sorted_by_key(s),
    ensures
        0 <= rank(s, key) <= s.len(),
        forall|j: int| 0 <= j < rank(s, key) ==> lex_lt(#[trigger] s[j].0, key),
        forall|j: int| rank(s, key) <= j < s.len() ==> !lex_lt(#[trigger] s[j].0, key),
    decreases s.len(),
{
    if s.len() > 0 {
        let t = s.drop_last();
        let last = s.len() - 1;
        assert forall|i: int, j: int| 0 <= i < j < t.len() implies lex_lt(
            #[trigger] t[i].0,
            #[trigger] t[j].0,
        ) by {
            assert(t[i] == s[i] && t[j] == s[j]);
        }
        lemma_rank_splits(t, key);
        assert forall|j: int| 0 <= j < t.len() implies t[j] == s[j] by {}
        if lex_lt(s[last].0, key) {
            assert forall|j: int| 0 <= j < last implies lex_lt(#[trigger] t[j].0, key) by {
                lemma_lex_lt_transitive(s[j].0, s[last].0, key);
            }
            assert forall|j: int| t.len() <= j < t.len() implies !lex_lt(#[trigger] t[j].0, key) by {}
            lemma_rank_is(t, key, last);
        }
    }
}

/// In a sorted sequence an entry stands at the rank of its own key.
pub proof fn lemma_rank_of_entry<V>(s: Seq<(Seq<u8>, V)>, i: int)
    requires
        sorted_by_key(s),
        0 <= i < s.len(),
    ensures
        rank(s, s[i].0) == i,
        has_key(s, s[i].0),
{
    let key = s[i].0;
    assert forall|j: int| i <= j < s.len() implies !lex_lt(#[trigger] s[j].0, key) by {
        if j == i {
            lemma_lex_lt_irreflexive(key);
        } else {
            lemma_lex_lt_asymmetric(key, s[j].0);
        }
    }
    lemma_rank_is(s, key, i);
}

/// A key without an entry differs from every key of the sorted sequence.
pub proof fn lemma_absent<V>(s: Seq<(Seq<u8>, V)>, key: Seq<u8>)
    requires
        sorted_by_key(s),
        !has_key(s, key),
    ensures
        forall|j: int| 0 <= j < s.len() ==> (#[trigger] s[j]).0 != key,
{
    assert forall|j: int| 0 <= j < s.len() implies (#[trigger] s[j]).0 != key by {
        if s[j].0 == key {
            lemma_rank_of_entry(s, j);
        }
    }
}

/// Storing a value keeps the keys sorted, and the map then holds that
/// value for the key.
pub proof fn lemma_put<V>(s: Seq<(Seq<u8>, V)>, key: Seq<u8>, value: V)
    requires
        sorted_by_key(s),
    ensures
        sorted_by_key(put(s, key, value)),
        rank(put(s, key, value), key) == rank(s, key),
        get(put(s, key, value), key) == Some(value),
        put(s, key, value).len() == if has_key(s, key) {
            s.len()
        } else {
            s.len() + 1
        },
{
    let r = rank(s, key);
    let p = put(s, key, value);
    lemma_rank_splits(s, key);
    if has_key(s, key) {
        assert forall|i: int, j: int| 0 <= i < j < p.len() implies lex_lt(
            #[trigger] p[i].0,
            #[trigger] p[j].0,
        ) by {
            assert(p[i].0 == s[i].0 && p[j].0 == s[j].0);
        }
        lemma_rank_of_entry(p, r);
    } else {
        assert forall|j: int| r <= j < s.len() implies lex_lt(key, #[trigger] s[j].0) by {
            lemma_key_after(s, key, j);
        }
        assert forall|i: int, j: int| 0 <= i < j < p.len() implies lex_lt(
            #[trigger] p[i].0,
            #[trigger] p[j].0,
        ) by {
            if j < r {
                assert(p[i] == s[i] && p[j] == s[j]);
            } else if j == r {
                assert(p[i] == s[i]);
            } else if i < r {
                assert(p[i] == s[i] && p[j] == s[j - 1]);
            } else if i == r {
                assert(p[j] == s[j - 1]);
            } else {
                assert(p[i] == s[i - 1] && p[j] == s[j - 1]);
            }
        }
        lemma_rank_of_entry(p, r);
    }
}

/// In a sorted sequence without `key`, the keys from its rank on come
/// after it.
pub proof fn lemma_key_after<V>(s: Seq<(Seq<u8>, V)>, key: Seq<u8>, j: int)
    requires
        sorted_by_key(s),
        !has_key(s, key),
        rank(s, key) <= j < s.len(),
    ensures
        lex_lt(key, s[j].0),
{
    lemma_rank_splits(s, key);
    lemma_absent(s, key);
    lemma_lex_total(s[j].0, key);
}

/// Storing a value for one key leaves what the map holds for another.
pub proof fn lemma_put_other<V>(s: Seq<(Seq<u8>, V)>, key: Seq<u8>, value: V, other: Seq<u8>)
    requires
        sorted_by_key(s),
        other != key,
    ensures
        get(put(s, key, value), other) == get(s, other),
        has_key(put(s, key, value), other) == has_key(s, other),
{
    let r = rank(s, key);
    let p = put(s, key, value);
    let q = rank(s, other);
    lemma_put(s, key, value);
    lemma_rank_splits(s, key);
    lemma_rank_splits(s, other);
    lemma_rank_splits(p, other);
    if has_key(s, key) {
        assert forall|j: int| 0 <= j < p.len() implies (#[trigger] p[j]).0 == s[j].0 by {}
        assert forall|j: int| 0 <= j < q implies lex_lt(#[trigger] p[j].0, other) by {
            assert(p[j].0 == s[j].0);
        }
        assert forall|j: int| q <= j < p.len() implies !lex_lt(#[trigger] p[j].0, other) by {
            assert(p[j].0 == s[j].0);
        }
        lemma_rank_is(p, other, q);
    } else {
        lemma_lex_total(key, other);
        if lex_lt(other, key) {
            // `other` stands before the new entry
            assert(q <= r) by {
                if q > r {
                    lemma_key_after(s, key, r);
                    lemma_lex_lt_transitive(key, s[r].0, other);
                    lemma_lex_lt_asymmetric(key, other);
                }
            }
            assert forall|j: int| 0 <= j < q implies lex_lt(#[trigger] p[j].0, other) by {
                assert(p[j] == s[j]);
            }
            assert forall|j: int| q <= j < p.len() implies !lex_lt(#[trigger] p[j].0, other) by {
                if j < r {
                    assert(p[j] == s[j]);
                } else if j == r {
                    lemma_lex_lt_asymmetric(other, key);
                } else {
                    assert(p[j] == s[j - 1]);
                }
            }
            lemma_rank_is(p, other, q);
            if q < r {
                assert(p[q] == s[q]);
            } else {
                if q < s.len() {
                    lemma_key_after(s, key, q);
                    if s[q].0 == other {
                        lemma_lex_lt_asymmetric(other, key);
                    }
                }
            }
        } else {
            // `other` stands after the new entry
            assert(r <= q) by {
                if q < r {
                    lemma_lex_lt_transitive(s[q].0, key, other);
                }
            }
            assert forall|j: int| 0 <= j < q + 1 implies lex_lt(#[trigger] p[j].0, other) by {
                if j < r {
                    assert(p[j] == s[j]);
                } else if j > r {
                    assert(p[j] == s[j - 1]);
                }
            }
            assert forall|j: int| q + 1 <= j < p.len() implies !lex_lt(#[trigger] p[j].0, other) by {
                assert(p[j] == s[j - 1]);
            }
            lemma_rank_is(p, other, q + 1);
        }
    }
}

/// Storing a value under a key that comes after every key appends it.
pub proof fn lemma_put_last<V>(s: Seq<(Seq<u8>, V)>, key: Seq<u8>, value: V)
    requires
        forall|j: int| 0 <= j < s.len() ==> lex_lt(#[trigger] s[j].0, key),
    ensures
        put(s, key, value) == s.push((key, value)),
{
    lemma_rank_is(s, key, s.len() as int);
}

/// The rank of a key depends on the keys of a sequence alone.
pub proof fn lemma_rank_same_keys<V, W>(s: Seq<(Seq<u8>, V)>, t: Seq<(Seq<u8>, W)>, key: Seq<u8>)
    requires
        s.len() == t.len(),
        forall|i: int| 0 <= i < s.len() ==> (#[trigger] s[i]).0 == (#[trigger] t[i]).0,
    ensures
        rank(s, key) == rank(t, key),
        has_key(s, key) == has_key(t, key),
        sorted_by_key(s) == sorted_by_key(t),
    decreases s.len(),
{
    if s.len() > 0 {
        assert forall|i: int| 0 <= i < s.drop_last().len() implies (#[trigger] s.drop_last()[i]).0 == (
        #[trigger] t.drop_last()[i]).0 by {
            assert(s.drop_last()[i] == s[i]);
        }
        lemma_rank_same_keys(s.drop_last(), t.drop_last(), key);
        assert(s.last().0 == t.last().0) by {
            assert(s[s.len() - 1].0 == t[s.len() - 1].0);
        }
    }
    lemma_rank_bounds(s, key);
    if sorted_by_key(s) {
        assert forall|i: int, j: int| 0 <= i < j < t.len() implies lex_lt(
            #[trigger] t[i].0,
            #[trigger] t[j].0,
        ) by {
            assert(lex_lt(s[i].0, s[j].0));
        }
    }
    if sorted_by_key(t) {
        assert forall|i: int, j: int| 0 <= i < j < s.len() implies lex_lt(
            #[trigger] s[i].0,
            #[trigger] s[j].0,
        ) by {
            assert(lex_lt(t[i].0, t[j].0));
        }
    }
}

/// A map from public keys to values, kept in canonical key order.
pub struct OrderedMap<V> {
    entries: Vec<(PublicKey, V)>,
}

impl<V> View for OrderedMap<V> {
    type V = Seq<(Seq<u8>, V)>;

    closed spec fn view(&self) -> Seq<(Seq<u8>, V)> {
        self.entries@.map_values(|e: (PublicKey, V)| (e.0@, e.1))
    }
}

impl<V> OrderedMap<V> {
    /// The keys strictly increase, so each key has at most one entry.
    pub open spec fn wf(&self) -> bool {
        sorted_by_key(self@)
    }

    pub fn new() -> (map: Self)
        ensures
            map@ == Seq::<(Seq<u8>, V)>::empty(),
            map.wf(),
    {
        let map = OrderedMap { entries: Vec::new() };
        map
    }

    pub fn len(&self) -> (len: usize)
        ensures
            len == self@.len(),
    {
        self.entries.len()
    }

    /// Looks `key` up by bisection: `Ok` with the index of its entry, or
    /// `Err` with the index at which an entry for it would stand.
    pub fn search(&self, key: &PublicKey) -> (found: Result<usize, usize>)
        requires
            self.wf(),
        ensures
            match found {
                Ok(i) => has_key(self@, key@) && i == rank(self@, key@),
                Err(i) => !has_key(self@, key@) && i == rank(self@, key@),
            },
            0 <= rank(self@, key@) <= self@.len(),
    {
        let mut lo: usize = 0;
        let mut hi: usize = self.entries.len();
        while lo < hi
            invariant
                0 <= lo <= hi <= self@.len(),
                self@.len() == self.entries@.len(),
                self.wf(),
                forall|j: int| 0 <= j < lo ==> lex_lt(#[trigger] self@[j].0, key@),
                forall|j: int| hi <= j < self@.len() ==> lex_lt(key@, #[trigger] self@[j].0),
            decreases hi - lo,
        {
            let mid = lo + (hi - lo) / 2;
            let found = self.entries[mid].0.order(key);
            match found {
                KeyOrder::Before => {
                    proof {
                        assert forall|j: int| 0 <= j < mid + 1 implies lex_lt(
                            #[trigger] self@[j].0,
                            key@,
                        ) by {
                            if j < mid {
                                lemma_lex_lt_transitive(self@[j].0, self@[mid as int].0, key@);
                            }
                        }
                    }
                    lo = mid + 1;
                },
                KeyOrder::Same => {
                    proof {
                        lemma_rank_of_entry(self@, mid as int);
                    }
                    return Ok(mid);
                },
                KeyOrder::After => {
                    proof {
                        assert forall|j: int| mid <= j < self@.len() implies lex_lt(
                            key@,
                            #[trigger] self@[j].0,
                        ) by {
                            if j > mid {
                                lemma_lex_lt_transitive(key@, self@[mid as int].0, self@[j].0);
                            }
                        }
                    }
                    hi = mid;
                },
            }
        }
        proof {
            assert forall|j: int| lo <= j < self@.len() implies !lex_lt(
                #[trigger] self@[j].0,
                key@,
            ) by {
                lemma_lex_lt_asymmetric(key@, self@[j].0);
            }
            lemma_rank_is(self@, key@, lo as int);
            if lo < self@.len() {
                lemma_lex_lt_irreflexive(key@);
            }
        }
        Err(lo)
    }

    pub fn key_at(&self, i: usize) -> (key: PublicKey)
        requires
            i < self@.len(),
        ensures
            key@ == self@[i as int].0,
    {
        self.entries[i].0
    }

    pub fn value_at(&self, i: usize) -> (value: &V)
        requires
            i < self@.len(),
        ensures
            *value == self@[i as int].1,
    {
        &self.entries[i].1
    }

    /// Hands out the value of entry `i` for change; its key stays.
    pub fn value_at_mut(&mut self, i: usize) -> (value: &mut V)
        requires
            i < old(self)@.len(),
        ensures
            *value == old(self)@[i as int].1,
            final(self)@ == old(self)@.update(i as int, (old(self)@[i as int].0, *final(value))),
    {
        let entry = &mut self.entries[i];
        &mut entry.1
    }

    /// The value stored for `key`, if any.
    pub fn get(&self, key: &PublicKey) -> (value: Option<&V>)
        requires
            self.wf(),
        ensures
            match value {
                Some(v) => get(self@, key@) == Some(*v),
                None => get(self@, key@).is_none(),
            },
    {
        match self.search(key) {
            Ok(i) => {
                Some(&self.entries[i].1)
            },
            Err(_) => None,
        }
    }

    /// Appends an entry whose key comes after every key of the map.
    pub fn push_last(&mut self, key: PublicKey, value: V)
        requires
            old(self).wf(),
            forall|j: int| 0 <= j < old(self)@.len() ==> lex_lt(#[trigger] old(self)@[j].0, key@),
        ensures
            final(self).wf(),
            final(self)@ == old(self)@.push((key@, value)),
    {
        self.entries.push((key, value));
    }

    /// Stores `value` for `key` and returns the index of the entry.
    pub fn insert(&mut self, key: PublicKey, value: V) -> (index: usize)
        requires
            old(self).wf(),
        ensures
            final(self).wf(),
            final(self)@ == put(old(self)@, key@, value),
            index == rank(old(self)@, key@),
            index < final(self)@.len(),
    {
        proof {
            lemma_put(self@, key@, value);
        }
        match self.search(&key) {
            Ok(i) => {
                self.entries[i] = (key, value);
                assert(self@ =~= old(self)@.update(i as int, (key@, value)));
                i
            },
            Err(i) => {
                self.entries.insert(i, (key, value));
                assert(self@ =~= old(self)@.insert(i as int, (key@, value)));
                i
            },
        }
    }
}

} // verus!
