//! A stable sort by transaction position, for outcomes and executions.
use vstd::prelude::*;
use vstd::std_specs::iter::IteratorSpec;
use crate::model::{TxExecution, TxOutcome};

verus! {

/// Something that carries the position of a transaction in its block.
pub trait HasIndex {
    spec fn index_key(&self) -> int;

    fn index_of(&self) -> (r: usize)
        ensures
            r == self.index_key(),
    ;
}

impl HasIndex for TxOutcome {
    open spec fn index_key(&self) -> int {
        self.index as int
    }

    fn index_of(&self) -> (r: usize) {
        self.index
    }
}

impl HasIndex for TxExecution {
    open spec fn index_key(&self) -> int {
        self.outcome.index as int
    }

    fn index_of(&self) -> (r: usize) {
        self.outcome.index
    }
}

/// `s` with `x` placed after every element whose key is at most `x`'s
/// (for a sorted `s`: after all equal keys, before all greater ones).
pub open spec fn insert_by<T>(s: Seq<T>, x: T, key: spec_fn(T) -> int) -> Seq<T>
    decreases s.len(),
{
    if s.len() == 0 {
        seq![x]
    } else if key(s.last()) <= key(x) {
        s.push(x)
    } else {
        insert_by(s.drop_last(), x, key).push(s.last())
    }
}

/// The stable sort of `s` by `key`: insertion of each element in turn.
pub open spec fn sort_by<T>(s: Seq<T>, key: spec_fn(T) -> int) -> Seq<T>
    decreases s.len(),
{
    if s.len() == 0 {
        Seq::empty()
    } else {
        insert_by(sort_by(s.drop_last(), key), s.last(), key)
    }
}

/// Keys never decrease along `s`.
pub open spec fn nondecreasing_by<T>(s: Seq<T>, key: spec_fn(T) -> int) -> bool {
    forall|i: int, j: int| 0 <= i <= j < s.len() ==> key(#[trigger] s[i]) <= key(#[trigger] s[j])
}

/// The key of a sortable element.
pub open spec fn index_key_fn<T: HasIndex>() -> spec_fn(T) -> int {
    |x: T| x.index_key()
}

/// Inserting at the first position whose key exceeds `x`'s.
pub proof fn lemma_insert_by_at<T>(s: Seq<T>, x: T, key: spec_fn(T) -> int, pos: int)
    requires
        0 <= pos <= s.len(),
        forall|j: int| pos <= j < s.len() ==> key(#[trigger] s[j]) > key(x),
        pos == 0 || key(s[pos - 1]) <= key(x),
    ensures
        insert_by(s, x, key) == s.take(pos).push(x) + s.skip(pos),
    decreases s.len(),
{
    if s.len() == 0 {
        assert(s.take(pos).push(x) + s.skip(pos) =~= seq![x]);
    } else if pos == s.len() {
        assert(s.take(pos).push(x) + s.skip(pos) =~= s.push(x));
    } else {
        assert(key(s.last()) > key(x));
        lemma_insert_by_at(s.drop_last(), x, key, pos);
        assert(s.take(pos).push(x) + s.skip(pos) =~= (s.drop_last().take(pos).push(x) + s.drop_last().skip(pos)).push(
            s.last(),
        ));
    }
}

pub proof fn lemma_insert_by_keeps_sorted<T>(s: Seq<T>, x: T, key: spec_fn(T) -> int)
    requires
        nondecreasing_by(s, key),
    ensures
        nondecreasing_by(insert_by(s, x, key), key),
        insert_by(s, x, key).len() == s.len() + 1,
    decreases s.len(),
{
    if s.len() > 0 && key(s.last()) > key(x) {
        lemma_insert_by_keeps_sorted(s.drop_last(), x, key);
        let t = insert_by(s.drop_last(), x, key);
        lemma_insert_by_members(s.drop_last(), x, key);
        assert forall|i: int, j: int| 0 <= i <= j < t.push(s.last()).len() implies key(
            #[trigger] t.push(s.last())[i],
        ) <= key(#[trigger] t.push(s.last())[j]) by {
            if j == t.len() && i < t.len() {
                let e = t[i];
                if e != x {
                    let k = choose|k: int| 0 <= k < s.drop_last().len() && s.drop_last()[k] == e;
                    assert(key(s[k]) <= key(s[s.len() - 1]));
                }
            }
        }
    }
}

/// Every element of an insertion is `x` or an element of `s`.
pub proof fn lemma_insert_by_members<T>(s: Seq<T>, x: T, key: spec_fn(T) -> int)
    ensures
        forall|i: int|
            0 <= i < insert_by(s, x, key).len() ==> #[trigger] insert_by(s, x, key)[i] == x || exists|k: int|
                0 <= k < s.len() && s[k] == insert_by(s, x, key)[i],
        insert_by(s, x, key).len() == s.len() + 1,
    decreases s.len(),
{
    if s.len() > 0 && key(s.last()) > key(x) {
        lemma_insert_by_members(s.drop_last(), x, key);
        let t = insert_by(s.drop_last(), x, key);
        assert forall|i: int| 0 <= i < t.push(s.last()).len() implies #[trigger] t.push(s.last())[i] == x
            || exists|k: int| 0 <= k < s.len() && s[k] == t.push(s.last())[i] by {
            if i < t.len() {
                if t[i] != x {
                    let k = choose|k: int| 0 <= k < s.drop_last().len() && s.drop_last()[k] == t[i];
                    assert(s[k] == t.push(s.last())[i]);
                }
            } else {
                assert(s[s.len() - 1] == t.push(s.last())[i]);
            }
        }
    } else if s.len() > 0 {
        assert forall|i: int| 0 <= i < s.push(x).len() implies #[trigger] s.push(x)[i] == x || exists|k: int|
            0 <= k < s.len() && s[k] == s.push(x)[i] by {
            if i < s.len() {
                assert(s[i] == s.push(x)[i]);
            }
        }
    }
}

pub proof fn lemma_sort_by_sorted<T>(s: Seq<T>, key: spec_fn(T) -> int)
    ensures
        nondecreasing_by(sort_by(s, key), key),
        sort_by(s, key).len() == s.len(),
    decreases s.len(),
{
    if s.len() > 0 {
        lemma_sort_by_sorted(s.drop_last(), key);
        lemma_insert_by_keeps_sorted(sort_by(s.drop_last(), key), s.last(), key);
    }
}

/// Inserting `x` adds it to the multiset of elements.
pub proof fn lemma_insert_by_to_multiset<T>(s: Seq<T>, x: T, key: spec_fn(T) -> int)
    ensures
        insert_by(s, x, key).to_multiset() =~= s.to_multiset().insert(x),
    decreases s.len(),
{
    broadcast use vstd::seq_lib::group_to_multiset_ensures;

    if s.len() == 0 {
        assert(seq![x] =~= Seq::<T>::empty().push(x));
    } else if key(s.last()) <= key(x) {
    } else {
        lemma_insert_by_to_multiset(s.drop_last(), x, key);
        assert(s =~= s.drop_last().push(s.last()));
        assert(s.drop_last().to_multiset().insert(x).insert(s.last()) =~= s.drop_last().to_multiset().insert(
            s.last(),
        ).insert(x));
    }
}

/// Sorting keeps the multiset of elements.
pub proof fn lemma_sort_by_to_multiset<T>(s: Seq<T>, key: spec_fn(T) -> int)
    ensures
        sort_by(s, key).to_multiset() =~= s.to_multiset(),
    decreases s.len(),
{
    broadcast use vstd::seq_lib::group_to_multiset_ensures;

    if s.len() == 0 {
        assert(sort_by(s, key) =~= s);
    } else {
        lemma_sort_by_to_multiset(s.drop_last(), key);
        lemma_insert_by_to_multiset(sort_by(s.drop_last(), key), s.last(), key);
        assert(s =~= s.drop_last().push(s.last()));
    }
}

/// Sorting what is already in order changes nothing.
pub proof fn lemma_sort_by_identity<T>(s: Seq<T>, key: spec_fn(T) -> int)
    requires
        nondecreasing_by(s, key),
    ensures
        sort_by(s, key) == s,
    decreases s.len(),
{
    if s.len() > 0 {
        let p = s.drop_last();
        assert(nondecreasing_by(p, key)) by {
            assert forall|i: int, j: int| 0 <= i <= j < p.len() implies key(#[trigger] p[i]) <= key(#[trigger] p[j]) by {
                assert(p[i] == s[i] && p[j] == s[j]);
            }
        }
        lemma_sort_by_identity(p, key);
        if p.len() > 0 {
            assert(key(s[p.len() - 1]) <= key(s[s.len() - 1]));
        }
        assert(p.push(s.last()) =~= s);
    }
}

/// Sorting commutes with a map that keeps the keys.
pub proof fn lemma_sort_by_map<T, U>(s: Seq<T>, key: spec_fn(T) -> int, f: spec_fn(T) -> U, key2: spec_fn(U) -> int)
    requires
        forall|x: T| #[trigger] key2(f(x)) == key(x),
    ensures
        sort_by(s, key).map_values(f) == sort_by(s.map_values(f), key2),
    decreases s.len(),
{
    if s.len() > 0 {
        lemma_sort_by_map(s.drop_last(), key, f, key2);
        assert(s.map_values(f).drop_last() =~= s.drop_last().map_values(f));
        lemma_insert_by_map(sort_by(s.drop_last(), key), s.last(), key, f, key2);
    }
}

pub proof fn lemma_insert_by_map<T, U>(s: Seq<T>, x: T, key: spec_fn(T) -> int, f: spec_fn(T) -> U, key2: spec_fn(U) -> int)
    requires
        forall|x: T| #[trigger] key2(f(x)) == key(x),
    ensures
        insert_by(s, x, key).map_values(f) == insert_by(s.map_values(f), f(x), key2),
    decreases s.len(),
{
    if s.len() == 0 {
        assert(seq![x].map_values(f) =~= seq![f(x)]);
    } else {
        assert(s.map_values(f).last() == f(s.last()));
        assert(s.map_values(f).drop_last() =~= s.drop_last().map_values(f));
        if key(s.last()) <= key(x) {
            assert(s.push(x).map_values(f) =~= s.map_values(f).push(f(x)));
        } else {
            lemma_insert_by_map(s.drop_last(), x, key, f, key2);
            assert(insert_by(s.drop_last(), x, key).push(s.last()).map_values(f) =~= insert_by(
                s.drop_last(),
                x,
                key,
            ).map_values(f).push(f(s.last())));
        }
    }
}

/// Sorts by transaction position, keeping the order of equal positions.
pub fn sort_by_index<T: HasIndex>(v: Vec<T>) -> (r: Vec<T>)
    ensures
        r@ == sort_by(v@, index_key_fn::<T>()),
{
    let ghost key = index_key_fn::<T>();
    let ghost initial = v@;
    let mut out: Vec<T> = Vec::new();
    let iter = v.into_iter();
    proof {
        assert(iter.remaining() == initial);
        assert(initial.take(initial.len() as int) =~= initial);
    }
    proof {
        assert(initial.take(0) =~= Seq::<T>::empty());
    }
    for x in it: iter
        invariant
            it.seq() == initial,
            initial.take(initial.len() as int) == initial,
            key == index_key_fn::<T>(),
            out@ == sort_by(initial.take(it.index() as int), key),
        ensures
            out@ == sort_by(initial, key),
    {
        let ghost idx = it.index() as int;
        proof {
            assert(initial.take(idx + 1).drop_last() =~= initial.take(idx));
            assert(initial.take(idx + 1).last() == x);
            lemma_sort_by_sorted(initial.take(idx), key);
        }
        let k = x.index_of();
        let mut pos = out.len();
        while pos > 0 && out[pos - 1].index_of() > k
            invariant
                0 <= pos <= out.len(),
                forall|j: int| pos <= j < out.len() ==> key(#[trigger] out@[j]) > key(x),
                key == index_key_fn::<T>(),
                k == x.index_key(),
            decreases pos,
        {
            pos = pos - 1;
        }
        proof {
            if pos > 0 {
                assert(key(out@[pos - 1]) <= key(x));
            }
            lemma_insert_by_at(out@, x, key, pos as int);
        }
        out.insert(pos, x);
        proof {
            assert(out@ =~= sort_by(initial.take(idx + 1), key));
        }
    }
    out
}

} // verus!
