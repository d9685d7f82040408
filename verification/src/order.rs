//! Strictly sorted sequences: a finite set has at most one listing in
//! increasing order, which is what makes the state's encoding canonical.
use vstd::prelude::*;

verus! {

/// `lt` is a strict total order.
pub open spec fn strict_total_order<K>(lt: spec_fn(K, K) -> bool) -> bool {
    &&& forall|a: K| !#[trigger] lt(a, a)
    &&& forall|a: K, b: K, c: K| #[trigger] lt(a, b) && #[trigger] lt(b, c) ==> lt(a, c)
    &&& forall|a: K, b: K| a != b ==> #[trigger] lt(a, b) || lt(b, a)
}

/// Every element of `s` is below every later one.
pub open spec fn strictly_sorted<K>(s: Seq<K>, lt: spec_fn(K, K) -> bool) -> bool {
    forall|i: int, j: int| 0 <= i < j < s.len() ==> #[trigger] lt(s[i], s[j])
}

/// The keys of a sequence of entries.
pub open spec fn entry_keys<K, V>(s: Seq<(K, V)>) -> Seq<K> {
    s.map_values(|e: (K, V)| e.0)
}

/// `s` lists the entries of `m` in increasing key order, each once.
pub open spec fn lists_entries<K, V>(s: Seq<(K, V)>, m: Map<K, V>, lt: spec_fn(K, K) -> bool) -> bool {
    &&& strictly_sorted(entry_keys(s), lt)
    &&& forall|i: int| 0 <= i < s.len() ==> #[trigger] m.contains_key(s[i].0) && m[s[i].0] == s[i].1
    &&& forall|k: K| #[trigger] m.contains_key(k) ==> entry_keys(s).contains(k)
}

/// `s` lists the elements of `set` in increasing order, each once.
pub open spec fn lists_elements<K>(s: Seq<K>, set: Set<K>, lt: spec_fn(K, K) -> bool) -> bool {
    &&& strictly_sorted(s, lt)
    &&& s.to_set() == set
}

/// The entries of `m` in increasing key order.
pub open spec fn sorted_entries<K, V>(m: Map<K, V>, lt: spec_fn(K, K) -> bool) -> Seq<(K, V)> {
    choose|s: Seq<(K, V)>| lists_entries(s, m, lt)
}

/// The elements of `set` in increasing order.
pub open spec fn sorted_elements<K>(set: Set<K>, lt: spec_fn(K, K) -> bool) -> Seq<K> {
    choose|s: Seq<K>| lists_elements(s, set, lt)
}

/// The usual order on 64-bit integers.
pub open spec fn u64_lt() -> spec_fn(u64, u64) -> bool {
    |a: u64, b: u64| a < b
}

pub proof fn lemma_u64_lt_total()
    ensures
        strict_total_order(u64_lt()),
{
}

/// Two strictly sorted sequences with the same elements are equal.
pub proof fn lemma_sorted_unique<K>(a: Seq<K>, b: Seq<K>, lt: spec_fn(K, K) -> bool)
    requires
        strict_total_order(lt),
        strictly_sorted(a, lt),
        strictly_sorted(b, lt),
        a.to_set() == b.to_set(),
    ensures
        a == b,
    decreases a.len(),
{
    if a.len() == 0 {
        if b.len() > 0 {
            assert(b.to_set().contains(b[0]));
            assert(!a.to_set().contains(b[0]));
        }
        assert(a =~= b);
    } else if b.len() == 0 {
        assert(a.to_set().contains(a[0]));
    } else {
        // The first elements are both the least element of the common set.
        assert(a.to_set().contains(a[0]));
        assert(b.to_set().contains(b[0]));
        let ia = choose|i: int| 0 <= i < a.len() && a[i] == b[0];
        let ib = choose|i: int| 0 <= i < b.len() && b[i] == a[0];
        if a[0] != b[0] {
            assert(ia > 0);
            assert(ib > 0);
            assert(lt(a[0], a[ia]));
            assert(lt(b[0], b[ib]));
            assert(lt(a[0], a[0]));
        }
        let a1 = a.drop_first();
        let b1 = b.drop_first();
        assert forall|x: K| a1.to_set().contains(x) implies b1.to_set().contains(x) by {
            let i = choose|i: int| 0 <= i < a1.len() && a1[i] == x;
            assert(a.to_set().contains(a[i + 1]));
            assert(b.to_set().contains(x));
            let j = choose|j: int| 0 <= j < b.len() && b[j] == x;
            assert(lt(a[0], a[i + 1]));
            if j == 0 {
                assert(x == a[0]);
            }
            assert(b1[j - 1] == x);
        }
        assert forall|x: K| b1.to_set().contains(x) implies a1.to_set().contains(x) by {
            let j = choose|j: int| 0 <= j < b1.len() && b1[j] == x;
            assert(b.to_set().contains(b[j + 1]));
            assert(a.to_set().contains(x));
            let i = choose|i: int| 0 <= i < a.len() && a[i] == x;
            assert(lt(b[0], b[j + 1]));
            if i == 0 {
                assert(x == b[0]);
            }
            assert(a1[i - 1] == x);
        }
        assert(a1.to_set() =~= b1.to_set());
        lemma_sorted_unique(a1, b1, lt);
        assert(a =~= b) by {
            assert forall|i: int| 0 <= i < a.len() implies a[i] == b[i] by {
                if i > 0 {
                    assert(a[i] == a1[i - 1]);
                }
            }
        }
    }
}

/// A listing of a set's elements in increasing order is the listing.
pub proof fn lemma_lists_elements_is_sorted<K>(s: Seq<K>, set: Set<K>, lt: spec_fn(K, K) -> bool)
    requires
        strict_total_order(lt),
        lists_elements(s, set, lt),
    ensures
        sorted_elements(set, lt) == s,
{
    let c = sorted_elements(set, lt);
    assert(lists_elements(c, set, lt));
    lemma_sorted_unique(c, s, lt);
}

/// A listing of a map's entries in increasing key order is the listing.
pub proof fn lemma_lists_entries_is_sorted<K, V>(s: Seq<(K, V)>, m: Map<K, V>, lt: spec_fn(K, K) -> bool)
    requires
        strict_total_order(lt),
        lists_entries(s, m, lt),
    ensures
        sorted_entries(m, lt) == s,
{
    let c = sorted_entries(m, lt);
    assert(lists_entries(c, m, lt));
    let kc = entry_keys(c);
    let ks = entry_keys(s);
    assert forall|x: K| kc.to_set().contains(x) implies ks.to_set().contains(x) by {
        let i = choose|i: int| 0 <= i < kc.len() && kc[i] == x;
        assert(m.contains_key(c[i].0));
        assert(ks.contains(x));
    }
    assert forall|x: K| ks.to_set().contains(x) implies kc.to_set().contains(x) by {
        let i = choose|i: int| 0 <= i < ks.len() && ks[i] == x;
        assert(m.contains_key(s[i].0));
        assert(kc.contains(x));
    }
    assert(kc.to_set() =~= ks.to_set());
    lemma_sorted_unique(kc, ks, lt);
    assert forall|i: int| 0 <= i < c.len() implies c[i] == s[i] by {
        assert(kc[i] == ks[i]);
        assert(m.contains_key(c[i].0));
        assert(m.contains_key(s[i].0));
    }
    assert(c =~= s);
}

} // verus!
