//! Version counters: how many times each key of the state has been written.
use std::collections::BTreeMap;
use vstd::prelude::*;
use vstd::std_specs::iter::IteratorSpec;
use crate::model::{StateKey, Version, key_code, code_key, is_key_code, key_lt, code_lt,
    lemma_key_code_roundtrip, lemma_code_key_roundtrip, lemma_key_code_injective};
use crate::order::{lists_entries, sorted_entries, strict_total_order, strictly_sorted, entry_keys,
    lemma_lists_entries_is_sorted};

verus! {

broadcast use {vstd::std_specs::btree::group_btree_axioms, vstd::laws_cmp::group_laws_cmp};

/// The version of `k` in `m`: 0 for a key never written.
pub open spec fn version_in(m: Map<StateKey, Version>, k: StateKey) -> Version {
    if m.contains_key(k) {
        m[k]
    } else {
        0
    }
}

/// A version after one more write (counters wrap around, as unchecked
/// addition does in a release build).
pub open spec fn next_version(v: Version) -> Version {
    if v == u64::MAX {
        0
    } else {
        (v + 1) as u64
    }
}

/// The order of keys, as a function value.
pub open spec fn key_order() -> spec_fn(StateKey, StateKey) -> bool {
    |a: StateKey, b: StateKey| key_lt(a, b)
}

pub proof fn lemma_key_order_total()
    ensures
        strict_total_order(key_order()),
{
    assert forall|a: StateKey, b: StateKey| a != b implies #[trigger] key_order()(a, b) || key_order()(b, a) by {
        lemma_key_code_injective(a, b);
    }
}

/// The table's entries in increasing key order.
pub open spec fn sorted_versions(m: Map<StateKey, Version>) -> Seq<(StateKey, Version)> {
    sorted_entries(m, key_order())
}

/// The version of every key that has been written, kept under the key's
/// code so that the entries come out in key order.
#[derive(Debug, PartialEq, Eq)]
pub struct VersionTable {
    entries: BTreeMap<(u8, u64, u64), Version>,
}

impl VersionTable {
    #[verifier::type_invariant]
    spec fn codes_are_keys(self) -> bool {
        forall|c: (u8, u64, u64)| #[trigger] self.entries@.contains_key(c) ==> is_key_code(c)
    }
}

impl Clone for VersionTable {
    fn clone(&self) -> (r: Self)
        ensures
            r@ == self@,
    {
        self.duplicate()
    }
}

impl View for VersionTable {
    type V = Map<StateKey, Version>;

    closed spec fn view(&self) -> Map<StateKey, Version> {
        Map::new(
            |k: StateKey| self.entries@.contains_key(key_code(k)),
            |k: StateKey| self.entries@[key_code(k)],
        )
    }
}

impl VersionTable {
    /// The table in which no key has been written.
    pub fn new() -> (r: Self)
        ensures
            r@ == Map::<StateKey, Version>::empty(),
    {
        let r = VersionTable { entries: BTreeMap::new() };
        assert(r@ =~= Map::<StateKey, Version>::empty());
        r
    }

    /// The version of `key`.
    pub fn get(&self, key: &StateKey) -> (r: Version)
        ensures
            r == version_in(self@, *key),
    {
        let code = key.code();
        match self.entries.get(&code) {
            Some(v) => *v,
            None => 0,
        }
    }

    /// Records one more write of `key`.
    pub fn bump(&mut self, key: StateKey)
        ensures
            final(self)@ == old(self)@.insert(key, next_version(version_in(old(self)@, key))),
    {
        proof {
            use_type_invariant(&*self);
        }
        let current = self.get(&key);
        let next = if current == u64::MAX {
            0
        } else {
            current + 1
        };
        let code = key.code();
        proof {
            lemma_key_code_roundtrip(key);
        }
        let mut entries = BTreeMap::new();
        std::mem::swap(&mut entries, &mut self.entries);
        entries.insert(code, next);
        self.entries = entries;
        proof {
            assert forall|k: StateKey| #![auto] self@.contains_key(k) == old(self)@.insert(key, next).contains_key(k)
                && (self@.contains_key(k) ==> self@[k] == old(self)@.insert(key, next)[k]) by {
                lemma_key_code_injective(k, key);
            }
            assert(self@ =~= old(self)@.insert(key, next));
        }
    }

    /// A copy of this table.
    pub fn duplicate(&self) -> (r: Self)
        ensures
            r@ == self@,
    {
        proof {
            use_type_invariant(self);
        }
        let r = VersionTable { entries: self.entries.clone() };
        assert(r@ =~= self@);
        r
    }

    /// The written keys with their versions, in increasing key order.
    pub fn sorted_entries(&self) -> (r: Vec<(StateKey, Version)>)
        ensures
            lists_entries(r@, self@, key_order()),
            r@ == sorted_versions(self@),
    {
        proof {
            use_type_invariant(self);
        }
        let mut r: Vec<(StateKey, Version)> = Vec::new();
        let iter = self.entries.iter();
        let ghost g = iter.remaining();
        let ghost codes = g.map_values(|kv: (&(u8, u64, u64), &Version)| *kv.0);
        proof {
            assert(vstd::std_specs::btree::increasing_seq(codes));
            assert forall|i: int, j: int| 0 <= i < j < codes.len() implies code_lt(#[trigger] codes[i], #[trigger] codes[j]) by {
                Self::lemma_increasing_codes(codes, i, j);
            }
        }
        for entry in it: iter
            invariant
                it.seq() == g,
                codes == g.map_values(|kv: (&(u8, u64, u64), &Version)| *kv.0),
                forall|i: int, j: int| 0 <= i < j < codes.len() ==> code_lt(#[trigger] codes[i], #[trigger] codes[j]),
                forall|i: int| 0 <= i < g.len() ==> #[trigger] self.entries@.contains_key(*g[i].0) && self.entries@[*g[i].0] == *g[i].1,
                forall|c: (u8, u64, u64)| #[trigger] self.entries@.contains_key(c) ==> is_key_code(c),
                r.len() == it.index(),
                forall|i: int| 0 <= i < it.index() ==> #[trigger] r@[i] == (code_key(*g[i].0), *g[i].1),
        {
            let (code, version) = entry;
            proof {
                assert(self.entries@.contains_key(*g[it.index() as int].0));
            }
            let key = StateKey::from_code(*code);
            r.push((key, *version));
        }
        proof {
            lemma_key_order_total();
            let ks = entry_keys(r@);
            assert forall|i: int, j: int| 0 <= i < j < ks.len() implies #[trigger] key_order()(ks[i], ks[j]) by {
                assert(self.entries@.contains_key(*g[i].0));
                assert(self.entries@.contains_key(*g[j].0));
                assert(codes[i] == *g[i].0);
                assert(codes[j] == *g[j].0);
                assert(code_lt(codes[i], codes[j]));
                lemma_code_key_roundtrip(*g[i].0);
                lemma_code_key_roundtrip(*g[j].0);
            }
            assert forall|i: int| 0 <= i < r@.len() implies #[trigger] self@.contains_key(r@[i].0) && self@[r@[i].0] == r@[i].1 by {
                assert(self.entries@.contains_key(*g[i].0));
                lemma_code_key_roundtrip(*g[i].0);
            }
            assert forall|k: StateKey| #[trigger] self@.contains_key(k) implies entry_keys(r@).contains(k) by {
                let c = key_code(k);
                assert(self.entries@.contains_key(c));
                assert(g.contains((&c, &self.entries@[c])));
                let i = choose|i: int| 0 <= i < g.len() && g[i] == (&c, &self.entries@[c]);
                lemma_key_code_roundtrip(k);
                assert(entry_keys(r@)[i] == k);
            }
            lemma_lists_entries_is_sorted(r@, self@, key_order());
        }
        r
    }

    proof fn lemma_increasing_codes(codes: Seq<(u8, u64, u64)>, i: int, j: int)
        requires
            vstd::std_specs::btree::increasing_seq(codes),
            0 <= i < j < codes.len(),
        ensures
            code_lt(codes[i], codes[j]),
    {
        assert(vstd::laws_cmp::obeys_cmp::<(u8, u64, u64)>());
        assert(vstd::std_specs::cmp::OrdSpec::cmp_spec(&codes[i], &codes[j]) is Less);
    }
}

} // verus!
