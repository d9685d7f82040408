//! Small sets of state keys, held as vectors without repeats.
use vstd::prelude::*;
use crate::model::StateKey;

verus! {

/// `v` holds each key of `set` exactly once.
pub open spec fn holds_set(v: Seq<StateKey>, set: Set<StateKey>) -> bool {
    v.no_duplicates() && v.to_set() == set
}

/// Whether `keys` holds `key`.
pub fn has_key(keys: &Vec<StateKey>, key: &StateKey) -> (r: bool)
    ensures
        r == keys@.contains(*key),
{
    let mut i: usize = 0;
    while i < keys.len()
        invariant
            i <= keys.len(),
            forall|j: int| 0 <= j < i ==> keys@[j] != *key,
        decreases keys.len() - i,
    {
        if keys[i] == *key {
            return true;
        }
        i = i + 1;
    }
    false
}

/// Adds to `set` each key of `keys` that it does not hold yet.
pub fn add_keys(set: &mut Vec<StateKey>, keys: &Vec<StateKey>)
    requires
        old(set)@.no_duplicates(),
    ensures
        holds_set(final(set)@, old(set)@.to_set().union(keys@.to_set())),
{
    let ghost start = set@.to_set();
    for i in 0..keys.len()
        invariant
            set@.no_duplicates(),
            set@.to_set() == start.union(keys@.take(i as int).to_set()),
    {
        let k = keys[i];
        proof {
            assert(keys@.take(i + 1) =~= keys@.take(i as int).push(k));
            keys@.take(i as int).lemma_push_to_set_commute(k);
        }
        if !has_key(set, &k) {
            let ghost before = set@;
            set.push(k);
            proof {
                before.lemma_push_to_set_commute(k);
                assert forall|a: int, b: int| 0 <= a < set@.len() && 0 <= b < set@.len() && a != b implies set@[a]
                    != set@[b] by {
                    if a == before.len() {
                        assert(before.contains(set@[b]));
                    } else if b == before.len() {
                        assert(before.contains(set@[a]));
                    }
                }
                assert(set@.to_set() =~= start.union(keys@.take(i + 1).to_set()));
            }
        } else {
            proof {
                assert(set@.to_set() =~= start.union(keys@.take(i + 1).to_set()));
            }
        }
    }
    proof {
        assert(keys@.take(keys@.len() as int) =~= keys@);
    }
}

/// The distinct keys of `keys`, in order of first appearance.
pub fn distinct_keys(keys: &Vec<StateKey>) -> (r: Vec<StateKey>)
    ensures
        holds_set(r@, keys@.to_set()),
{
    let mut r: Vec<StateKey> = Vec::new();
    add_keys(&mut r, keys);
    proof {
        assert(Seq::<StateKey>::empty().to_set() =~= Set::<StateKey>::empty());
        assert(Set::<StateKey>::empty().union(keys@.to_set()) =~= keys@.to_set());
    }
    r
}

/// The number of keys of `a` that `b` also holds: the size of the
/// intersection of the two sets.
pub fn count_common(a: &Vec<StateKey>, b: &Vec<StateKey>) -> (r: u64)
    requires
        a@.no_duplicates(),
    ensures
        r == a@.to_set().intersect(b@.to_set()).len(),
{
    let mut count: u64 = 0;
    proof {
        assert(a@.take(0).to_set().intersect(b@.to_set()) =~= Set::<StateKey>::empty());
    }
    for i in 0..a.len()
        invariant
            a@.no_duplicates(),
            count == a@.take(i as int).to_set().intersect(b@.to_set()).len(),
            count <= i,
    {
        let k = a[i];
        let ghost before = a@.take(i as int);
        proof {
            assert(a@.take(i + 1) =~= before.push(k));
            before.lemma_push_to_set_commute(k);
            before.lemma_cardinality_of_set();
            vstd::set_lib::lemma_len_intersect(before.to_set(), b@.to_set());
            assert(!before.contains(k)) by {
                if before.contains(k) {
                    let j = choose|j: int| 0 <= j < before.len() && before[j] == k;
                    assert(a@[j] == a@[i as int]);
                }
            }
        }
        if has_key(b, &k) {
            proof {
                assert(before.push(k).to_set().intersect(b@.to_set()) =~= before.to_set().intersect(
                    b@.to_set(),
                ).insert(k));
                assert(!before.to_set().intersect(b@.to_set()).contains(k));
            }
            count = count + 1;
        } else {
            proof {
                assert(before.push(k).to_set().intersect(b@.to_set()) =~= before.to_set().intersect(
                    b@.to_set(),
                ));
            }
        }
    }
    proof {
        assert(a@.take(a@.len() as int) =~= a@);
    }
    count
}

/// Whether the two vectors share a key.
pub fn shares_key(a: &Vec<StateKey>, b: &Vec<StateKey>) -> (r: bool)
    ensures
        r == exists|k: StateKey| a@.contains(k) && b@.contains(k),
{
    let mut i: usize = 0;
    while i < a.len()
        invariant
            i <= a.len(),
            forall|j: int| 0 <= j < i ==> !b@.contains(#[trigger] a@[j]),
        decreases a.len() - i,
    {
        if has_key(b, &a[i]) {
            return true;
        }
        i = i + 1;
    }
    proof {
        assert forall|k: StateKey| !(a@.contains(k) && b@.contains(k)) by {
            if a@.contains(k) {
                let j = choose|j: int| 0 <= j < a@.len() && a@[j] == k;
                assert(!b@.contains(a@[j]));
            }
        }
    }
    false
}

} // verus!
