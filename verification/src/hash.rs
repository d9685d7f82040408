//! The state's fingerprint: BLAKE3 over a canonical JSON encoding of the
//! state, in which maps and sets are listed in increasing key order, so that
//! two states with the same contents have the same fingerprint whatever order
//! their entries were inserted in.
use std::collections::{BTreeSet, HashMap, HashSet};
use vstd::prelude::*;
use vstd::std_specs::iter::IteratorSpec;
use vstd::string::StringSliceAdditionalSpecFns;
use crate::model::{Account, ProgramModel, ProgramState, StateKey, Version};
use crate::order::{lists_elements, sorted_elements, strictly_sorted, u64_lt, lemma_u64_lt_total,
    lemma_lists_elements_is_sorted};
use crate::state::{program_models, State, StateModel};
use crate::text::{decimal_bytes, push_decimal, signed_decimal_bytes};
use crate::versions::sorted_versions;

verus! {

broadcast use {vstd::std_specs::hash::group_hash_axioms, vstd::std_specs::btree::group_btree_axioms};

/// The BLAKE3 digest of `bytes` as lowercase hexadecimal text.
pub uninterp spec fn blake3_hex_digest(bytes: Seq<u8>) -> Seq<char>;

/// `blake3::hash`, then `Hash::to_hex`: the BLAKE3 digest of `bytes`, as
/// 64 lowercase hexadecimal digits. The digest itself is not stated, only
/// named: the same bytes give the same text.
#[verifier::external_body]
fn blake3_hex(bytes: &[u8]) -> (r: String)
    ensures
        r@ == blake3_hex_digest(bytes@),
        r@.len() == 64,
        forall|i: int| 0 <= i < r@.len() ==> ('0' <= #[trigger] r@[i] <= '9' || 'a' <= r@[i] <= 'f'),
{
    blake3::hash(bytes).to_hex().to_string()
}

/// Items separated by commas.
pub open spec fn comma_list(items: Seq<Seq<u8>>) -> Seq<u8>
    decreases items.len(),
{
    if items.len() == 0 {
        Seq::empty()
    } else if items.len() == 1 {
        items[0]
    } else {
        comma_list(items.drop_last()) + seq![44u8] + items.last()
    }
}

/// `{` items `}`
pub open spec fn json_object(items: Seq<Seq<u8>>) -> Seq<u8> {
    seq![123u8] + comma_list(items) + seq![125u8]
}

/// `[` items `]`
pub open spec fn json_array(items: Seq<Seq<u8>>) -> Seq<u8> {
    seq![91u8] + comma_list(items) + seq![93u8]
}

/// A member of an object whose name is the number `k`: `"k":value`.
pub open spec fn member(k: u64, value: Seq<u8>) -> Seq<u8> {
    seq![34u8] + decimal_bytes(k as nat) + seq![34u8, 58u8] + value
}

/// The keys of `m` in increasing order.
pub open spec fn sorted_keys<V>(m: Map<u64, V>) -> Seq<u64> {
    sorted_elements(m.dom(), u64_lt())
}

pub open spec fn account_json(a: Account) -> Seq<u8> {
    "{\"balance\":".spec_bytes() + signed_decimal_bytes(a.balance) + seq![125u8]
}

pub open spec fn accounts_json(m: Map<u64, Account>) -> Seq<u8> {
    json_object(sorted_keys(m).map_values(|k: u64| member(k, account_json(m[k]))))
}

pub open spec fn nonces_json(m: Map<u64, u64>) -> Seq<u8> {
    json_object(sorted_keys(m).map_values(|k: u64| member(k, decimal_bytes(m[k] as nat))))
}

pub open spec fn numbers_json(s: Seq<u64>) -> Seq<u8> {
    json_array(s.map_values(|n: u64| decimal_bytes(n as nat)))
}

pub open spec fn storage_json(m: Map<u64, i64>) -> Seq<u8> {
    json_object(sorted_keys(m).map_values(|k: u64| member(k, signed_decimal_bytes(m[k]))))
}

pub open spec fn program_json(p: ProgramModel) -> Seq<u8> {
    "{\"storage\":".spec_bytes() + storage_json(p.storage) + ",\"deployed_at\":".spec_bytes()
        + decimal_bytes(p.deployed_at as nat) + seq![125u8]
}

pub open spec fn programs_json(m: Map<u64, ProgramModel>) -> Seq<u8> {
    json_object(sorted_keys(m).map_values(|k: u64| member(k, program_json(m[k]))))
}

/// A key as serde writes an enum: a unit variant as its quoted name, a
/// variant with one field as `{"Name":field}`, the struct variant as
/// `{"ProgramState":{"program":p,"key":k}}`.
pub open spec fn key_json(k: StateKey) -> Seq<u8> {
    match k {
        StateKey::AccountBalance(a) => "{\"AccountBalance\":".spec_bytes() + decimal_bytes(a as nat) + seq![125u8],
        StateKey::AccountNonce(a) => "{\"AccountNonce\":".spec_bytes() + decimal_bytes(a as nat) + seq![125u8],
        StateKey::Nullifier(n) => "{\"Nullifier\":".spec_bytes() + decimal_bytes(n as nat) + seq![125u8],
        StateKey::CommitmentSlot(s) => "{\"CommitmentSlot\":".spec_bytes() + decimal_bytes(s as nat) + seq![125u8],
        StateKey::CommitmentRoot => "\"CommitmentRoot\"".spec_bytes(),
        StateKey::ProgramCode(p) => "{\"ProgramCode\":".spec_bytes() + decimal_bytes(p as nat) + seq![125u8],
        StateKey::ProgramState { program, key } => "{\"ProgramState\":{\"program\":".spec_bytes()
            + decimal_bytes(program as nat) + ",\"key\":".spec_bytes() + decimal_bytes(key as nat)
            + seq![125u8, 125u8],
        StateKey::SystemClock => "\"SystemClock\"".spec_bytes(),
        StateKey::GlobalConfig => "\"GlobalConfig\"".spec_bytes(),
    }
}

pub open spec fn version_entry_json(e: (StateKey, Version)) -> Seq<u8> {
    seq![91u8] + key_json(e.0) + seq![44u8] + decimal_bytes(e.1 as nat) + seq![93u8]
}

pub open spec fn versions_json(m: Map<StateKey, Version>) -> Seq<u8> {
    json_array(sorted_versions(m).map_values(|e: (StateKey, Version)| version_entry_json(e)))
}

/// The canonical encoding of a state: the JSON object that serde_json writes
/// for the state with its maps and sets listed in increasing key order.
#[verifier::opaque]
pub open spec fn canonical_bytes(s: StateModel) -> Seq<u8> {
    "{\"accounts\":".spec_bytes() + accounts_json(s.accounts)
        + ",\"nonces\":".spec_bytes() + nonces_json(s.nonces)
        + ",\"nullifiers\":".spec_bytes() + numbers_json(sorted_elements(s.nullifiers, u64_lt()))
        + ",\"commitments\":".spec_bytes() + numbers_json(s.commitments)
        + ",\"programs\":".spec_bytes() + programs_json(s.programs)
        + ",\"system_clock\":".spec_bytes() + decimal_bytes(s.system_clock as nat)
        + ",\"global_config\":".spec_bytes() + decimal_bytes(s.global_config as nat)
        + ",\"versions\":".spec_bytes() + versions_json(s.versions)
        + seq![125u8]
}

/// The fingerprint of a state.
pub open spec fn state_hash_spec(s: StateModel) -> Seq<char> {
    blake3_hex_digest(canonical_bytes(s))
}

/// Appends the bytes of `text`.
fn push_text(out: &mut Vec<u8>, text: &str)
    ensures
        final(out)@ == old(out)@ + text.spec_bytes(),
{
    let bytes = text.as_bytes();
    let ghost start = out@;
    for i in 0..bytes.len()
        invariant
            bytes@ == text.spec_bytes(),
            out@ == start + bytes@.subrange(0, i as int),
    {
        out.push(bytes[i]);
        proof {
            assert(out@ =~= start + bytes@.subrange(0, i + 1));
        }
    }
    proof {
        assert(bytes@.subrange(0, bytes@.len() as int) =~= bytes@);
    }
}

/// Appends the decimal notation of `v`, with a minus sign when negative.
fn push_signed(out: &mut Vec<u8>, v: i64)
    ensures
        final(out)@ == old(out)@ + signed_decimal_bytes(v),
{
    if v < 0 {
        out.push(45);
        let magnitude: u64 = if v == i64::MIN {
            9_223_372_036_854_775_808u64
        } else {
            (0 - v) as u64
        };
        push_decimal(out, magnitude);
        proof {
            assert(final(out)@ =~= old(out)@ + signed_decimal_bytes(v));
        }
    } else {
        push_decimal(out, v as u64);
    }
}

/// Appends `"k":`.
fn push_member_name(out: &mut Vec<u8>, k: u64)
    ensures
        final(out)@ == old(out)@ + seq![34u8] + decimal_bytes(k as nat) + seq![34u8, 58u8],
{
    out.push(34);
    push_decimal(out, k);
    out.push(34);
    out.push(58);
    proof {
        assert(final(out)@ =~= old(out)@ + seq![34u8] + decimal_bytes(k as nat) + seq![34u8, 58u8]);
    }
}

pub proof fn lemma_comma_list_step(items: Seq<Seq<u8>>, i: int)
    requires
        0 <= i < items.len(),
    ensures
        comma_list(items.take(i + 1)) == comma_list(items.take(i)) + (if i == 0 {
            Seq::<u8>::empty()
        } else {
            seq![44u8]
        }) + items[i],
{
    let t = items.take(i + 1);
    assert(t.drop_last() =~= items.take(i));
    if i == 0 {
        assert(comma_list(items.take(0)) =~= Seq::<u8>::empty());
        assert(comma_list(t) == t[0]);
        assert(comma_list(t) =~= comma_list(items.take(i)) + Seq::<u8>::empty() + items[i]);
    }
}

/// Appends a comma unless this is the first item.
fn push_separator(out: &mut Vec<u8>, i: usize)
    ensures
        final(out)@ == old(out)@ + (if i == 0 {
            Seq::<u8>::empty()
        } else {
            seq![44u8]
        }),
{
    if i > 0 {
        out.push(44);
    }
    proof {
        assert(final(out)@ =~= old(out)@ + (if i == 0 {
            Seq::<u8>::empty()
        } else {
            seq![44u8]
        }));
    }
}

/// The keys of a map in increasing order.
fn sorted_map_keys<V>(m: &HashMap<u64, V>) -> (r: Vec<u64>)
    ensures
        lists_elements(r@, m@.dom(), u64_lt()),
        r@ == sorted_keys(m@),
{
    let mut set: BTreeSet<u64> = BTreeSet::new();
    let iter = m.iter();
    let ghost g = iter.remaining();
    for entry in it: iter
        invariant
            it.seq() == g,
            forall|i: int| 0 <= i < g.len() ==> #[trigger] m@.contains_key(*g[i].0),
            forall|k: u64| #[trigger] m@.contains_key(k) ==> g.contains((&k, &m@[k])),
            forall|k: u64| #[trigger] set@.contains(k) ==> m@.contains_key(k),
            forall|i: int| 0 <= i < it.index() ==> #[trigger] set@.contains(*g[i].0),
    {
        let (k, _) = entry;
        set.insert(*k);
    }
    proof {
        assert forall|k: u64| #[trigger] m@.contains_key(k) implies set@.contains(k) by {
            let i = choose|i: int| 0 <= i < g.len() && g[i] == (&k, &m@[k]);
            assert(set@.contains(*g[i].0));
        }
        assert(set@ =~= m@.dom());
    }
    sorted_set_elements(&set)
}

/// The elements of a hash set in increasing order.
fn sorted_hash_set<'a>(s: &'a HashSet<u64>) -> (r: Vec<u64>)
    ensures
        lists_elements(r@, s@, u64_lt()),
        r@ == sorted_elements(s@, u64_lt()),
{
    let mut set: BTreeSet<u64> = BTreeSet::new();
    let iter = s.iter();
    let ghost g = iter.remaining();
    proof {
        assert forall|i: int| 0 <= i < g.len() implies #[trigger] s@.contains(*g[i]) by {
            assert(g.unref()[i] == *g[i]);
            assert(g.unref().to_set().contains(g.unref()[i]));
        }
    }
    for x in it: iter
        invariant
            it.seq() == g,
            g.unref().to_set() == s@,
            forall|i: int| 0 <= i < g.len() ==> #[trigger] s@.contains(*g[i]),
            forall|k: u64| #[trigger] set@.contains(k) ==> s@.contains(k),
            forall|i: int| 0 <= i < it.index() ==> #[trigger] set@.contains(*g[i]),
    {
        set.insert(*x);
    }
    proof {
        assert forall|k: u64| #[trigger] s@.contains(k) implies set@.contains(k) by {
            assert(g.unref().to_set().contains(k));
            let i = choose|i: int| 0 <= i < g.len() && #[trigger] g.unref()[i] == k;
            assert(set@.contains(*g[i]));
        }
        assert(set@ =~= s@);
    }
    sorted_set_elements(&set)
}

proof fn lemma_increasing_refs(s: Seq<&u64>, i: int, j: int)
    requires
        vstd::std_specs::btree::increasing_seq(s),
        0 <= i < j < s.len(),
    ensures
        *s[i] < *s[j],
{
    broadcast use vstd::laws_cmp::group_laws_cmp;
    assert(vstd::laws_cmp::obeys_cmp::<&u64>());
    assert(vstd::std_specs::cmp::OrdSpec::cmp_spec(&s[i], &s[j]) is Less);
}

/// The elements of an ordered set, in its (increasing) order.
fn sorted_set_elements(set: &BTreeSet<u64>) -> (r: Vec<u64>)
    ensures
        lists_elements(r@, set@, u64_lt()),
        r@ == sorted_elements(set@, u64_lt()),
{
    let mut r: Vec<u64> = Vec::new();
    let iter = set.iter();
    let ghost g = iter.remaining();
    proof {
        assert forall|i: int, j: int| 0 <= i < j < g.len() implies *g[i] < *g[j] by {
            lemma_increasing_refs(g, i, j);
        }
    }
    for x in it: iter
        invariant
            it.seq() == g,
            r@ == g.unref().take(it.index() as int),
        ensures
            r@ == g.unref(),
    {
        r.push(*x);
        proof {
            assert(r@ =~= g.unref().take(it.index() + 1));
        }
    }
    proof {
        assert(r@ =~= g.unref());
        lemma_u64_lt_total();
        assert(strictly_sorted(r@, u64_lt())) by {
            assert forall|i: int, j: int| 0 <= i < j < r@.len() implies #[trigger] u64_lt()(r@[i], r@[j]) by {
                assert(*g[i] < *g[j]);
            }
        }
        lemma_lists_elements_is_sorted(r@, set@, u64_lt());
    }
    r
}

/// Appends `accounts_json(accounts@)`.
fn push_accounts(out: &mut Vec<u8>, accounts: &HashMap<u64, Account>)
    ensures
        final(out)@ == old(out)@ + accounts_json(accounts@),
{
    let keys = sorted_map_keys(accounts);
    let ghost items = keys@.map_values(|k: u64| member(k, account_json(accounts@[k])));
    let ghost start = out@;
    out.push(123);
    for i in 0..keys.len()
        invariant
            lists_elements(keys@, accounts@.dom(), u64_lt()),
            items == keys@.map_values(|k: u64| member(k, account_json(accounts@[k]))),
            out@ == start + seq![123u8] + comma_list(items.take(i as int)),
    {
        let k = keys[i];
        proof {
            lemma_comma_list_step(items, i as int);
            assert(keys@.to_set().contains(keys@[i as int]));
        }
        push_separator(out, i);
        push_member_name(out, k);
        let balance = match accounts.get(&k) {
            Some(a) => a.balance,
            None => 0,
        };
        push_text(out, "{\"balance\":");
        push_signed(out, balance);
        out.push(125);
        proof {
            assert(out@ =~= start + seq![123u8] + comma_list(items.take(i + 1)));
        }
    }
    out.push(125);
    proof {
        assert(items.take(keys@.len() as int) =~= items);
        assert(out@ =~= start + accounts_json(accounts@));
    }
}

/// Appends `nonces_json(nonces@)`.
fn push_nonces(out: &mut Vec<u8>, nonces: &HashMap<u64, u64>)
    ensures
        final(out)@ == old(out)@ + nonces_json(nonces@),
{
    let keys = sorted_map_keys(nonces);
    let ghost items = keys@.map_values(|k: u64| member(k, decimal_bytes(nonces@[k] as nat)));
    let ghost start = out@;
    out.push(123);
    for i in 0..keys.len()
        invariant
            lists_elements(keys@, nonces@.dom(), u64_lt()),
            items == keys@.map_values(|k: u64| member(k, decimal_bytes(nonces@[k] as nat))),
            out@ == start + seq![123u8] + comma_list(items.take(i as int)),
    {
        let k = keys[i];
        proof {
            lemma_comma_list_step(items, i as int);
            assert(keys@.to_set().contains(keys@[i as int]));
        }
        push_separator(out, i);
        push_member_name(out, k);
        let nonce = match nonces.get(&k) {
            Some(n) => *n,
            None => 0,
        };
        push_decimal(out, nonce);
        proof {
            assert(out@ =~= start + seq![123u8] + comma_list(items.take(i + 1)));
        }
    }
    out.push(125);
    proof {
        assert(items.take(keys@.len() as int) =~= items);
        assert(out@ =~= start + nonces_json(nonces@));
    }
}

/// Appends `storage_json(storage@)`.
fn push_storage(out: &mut Vec<u8>, storage: &HashMap<u64, i64>)
    ensures
        final(out)@ == old(out)@ + storage_json(storage@),
{
    let keys = sorted_map_keys(storage);
    let ghost items = keys@.map_values(|k: u64| member(k, signed_decimal_bytes(storage@[k])));
    let ghost start = out@;
    out.push(123);
    for i in 0..keys.len()
        invariant
            lists_elements(keys@, storage@.dom(), u64_lt()),
            items == keys@.map_values(|k: u64| member(k, signed_decimal_bytes(storage@[k]))),
            out@ == start + seq![123u8] + comma_list(items.take(i as int)),
    {
        let k = keys[i];
        proof {
            lemma_comma_list_step(items, i as int);
            assert(keys@.to_set().contains(keys@[i as int]));
        }
        push_separator(out, i);
        push_member_name(out, k);
        let value = match storage.get(&k) {
            Some(v) => *v,
            None => 0,
        };
        push_signed(out, value);
        proof {
            assert(out@ =~= start + seq![123u8] + comma_list(items.take(i + 1)));
        }
    }
    out.push(125);
    proof {
        assert(items.take(keys@.len() as int) =~= items);
        assert(out@ =~= start + storage_json(storage@));
    }
}

/// Appends the canonical encoding of one program.
fn canonical_program(out: &mut Vec<u8>, program: &ProgramState)
    ensures
        final(out)@ == old(out)@ + program_json(program@),
{
    push_text(out, "{\"storage\":");
    push_storage(out, &program.storage);
    push_text(out, ",\"deployed_at\":");
    push_decimal(out, program.deployed_at);
    out.push(125);
    proof {
        assert(final(out)@ =~= old(out)@ + program_json(program@));
    }
}

/// Appends `programs_json` of the programs' views.
fn push_programs(out: &mut Vec<u8>, programs: &HashMap<u64, ProgramState>)
    ensures
        final(out)@ == old(out)@ + programs_json(program_models(programs@)),
{
    let ghost models = program_models(programs@);
    let keys = sorted_map_keys(programs);
    proof {
        assert(programs@.dom() =~= models.dom());
    }
    let ghost items = keys@.map_values(|k: u64| member(k, program_json(models[k])));
    let ghost start = out@;
    out.push(123);
    for i in 0..keys.len()
        invariant
            models == program_models(programs@),
            lists_elements(keys@, programs@.dom(), u64_lt()),
            items == keys@.map_values(|k: u64| member(k, program_json(models[k]))),
            out@ == start + seq![123u8] + comma_list(items.take(i as int)),
    {
        let k = keys[i];
        proof {
            lemma_comma_list_step(items, i as int);
            assert(keys@.to_set().contains(keys@[i as int]));
        }
        push_separator(out, i);
        push_member_name(out, k);
        match programs.get(&k) {
            Some(p) => canonical_program(out, p),
            None => {},
        }
        proof {
            assert(out@ =~= start + seq![123u8] + comma_list(items.take(i + 1)));
        }
    }
    out.push(125);
    proof {
        assert(items.take(keys@.len() as int) =~= items);
        assert(sorted_keys(models) == keys@);
        assert(out@ =~= start + programs_json(models));
    }
}

/// Appends `numbers_json(numbers@)`.
fn push_numbers(out: &mut Vec<u8>, numbers: &Vec<u64>)
    ensures
        final(out)@ == old(out)@ + numbers_json(numbers@),
{
    let ghost items = numbers@.map_values(|n: u64| decimal_bytes(n as nat));
    let ghost start = out@;
    out.push(91);
    for i in 0..numbers.len()
        invariant
            items == numbers@.map_values(|n: u64| decimal_bytes(n as nat)),
            out@ == start + seq![91u8] + comma_list(items.take(i as int)),
    {
        proof {
            lemma_comma_list_step(items, i as int);
        }
        push_separator(out, i);
        push_decimal(out, numbers[i]);
        proof {
            assert(out@ =~= start + seq![91u8] + comma_list(items.take(i + 1)));
        }
    }
    out.push(93);
    proof {
        assert(items.take(numbers@.len() as int) =~= items);
        assert(out@ =~= start + numbers_json(numbers@));
    }
}

/// Appends `key_json(key)`.
fn push_key(out: &mut Vec<u8>, key: &StateKey)
    ensures
        final(out)@ == old(out)@ + key_json(*key),
{
    match *key {
        StateKey::AccountBalance(a) => {
            push_text(out, "{\"AccountBalance\":");
            push_decimal(out, a);
            out.push(125);
        },
        StateKey::AccountNonce(a) => {
            push_text(out, "{\"AccountNonce\":");
            push_decimal(out, a);
            out.push(125);
        },
        StateKey::Nullifier(n) => {
            push_text(out, "{\"Nullifier\":");
            push_decimal(out, n);
            out.push(125);
        },
        StateKey::CommitmentSlot(slot) => {
            push_text(out, "{\"CommitmentSlot\":");
            push_decimal(out, slot);
            out.push(125);
        },
        StateKey::CommitmentRoot => {
            push_text(out, "\"CommitmentRoot\"");
        },
        StateKey::ProgramCode(p) => {
            push_text(out, "{\"ProgramCode\":");
            push_decimal(out, p);
            out.push(125);
        },
        StateKey::ProgramState { program, key } => {
            push_text(out, "{\"ProgramState\":{\"program\":");
            push_decimal(out, program);
            push_text(out, ",\"key\":");
            push_decimal(out, key);
            out.push(125);
            out.push(125);
        },
        StateKey::SystemClock => {
            push_text(out, "\"SystemClock\"");
        },
        StateKey::GlobalConfig => {
            push_text(out, "\"GlobalConfig\"");
        },
    }
    proof {
        assert(final(out)@ =~= old(out)@ + key_json(*key));
    }
}

/// Appends `versions_json` of the state's versions.
fn push_versions(out: &mut Vec<u8>, state: &State)
    ensures
        final(out)@ == old(out)@ + versions_json(state@.versions),
{
    let entries = state.versions.sorted_entries();
    let ghost items = entries@.map_values(|e: (StateKey, Version)| version_entry_json(e));
    let ghost start = out@;
    out.push(91);
    for i in 0..entries.len()
        invariant
            entries@ == sorted_versions(state@.versions),
            items == entries@.map_values(|e: (StateKey, Version)| version_entry_json(e)),
            out@ == start + seq![91u8] + comma_list(items.take(i as int)),
    {
        proof {
            lemma_comma_list_step(items, i as int);
        }
        push_separator(out, i);
        let (key, version) = entries[i];
        out.push(91);
        push_key(out, &key);
        out.push(44);
        push_decimal(out, version);
        out.push(93);
        proof {
            assert(out@ =~= start + seq![91u8] + comma_list(items.take(i + 1)));
        }
    }
    out.push(93);
    proof {
        assert(items.take(entries@.len() as int) =~= items);
        assert(out@ =~= start + versions_json(state@.versions));
    }
}

/// The canonical encoding of `state`.
pub fn canonical_state(state: &State) -> (r: Vec<u8>)
    ensures
        r@ == canonical_bytes(state@),
{
    let mut out: Vec<u8> = Vec::new();
    push_text(&mut out, "{\"accounts\":");
    push_accounts(&mut out, &state.accounts);
    push_text(&mut out, ",\"nonces\":");
    push_nonces(&mut out, &state.nonces);
    push_text(&mut out, ",\"nullifiers\":");
    let nullifiers = sorted_hash_set(&state.nullifiers);
    push_numbers(&mut out, &nullifiers);
    push_text(&mut out, ",\"commitments\":");
    push_numbers(&mut out, &state.commitments);
    push_text(&mut out, ",\"programs\":");
    push_programs(&mut out, &state.programs);
    push_text(&mut out, ",\"system_clock\":");
    push_decimal(&mut out, state.system_clock);
    push_text(&mut out, ",\"global_config\":");
    push_decimal(&mut out, state.global_config);
    push_text(&mut out, ",\"versions\":");
    push_versions(&mut out, state);
    out.push(125);
    proof {
        reveal(canonical_bytes);
        assert(out@ =~= canonical_bytes(state@));
    }
    out
}

/// The fingerprint of `state`: the BLAKE3 digest of its canonical encoding,
/// in hexadecimal. It depends only on what the state holds.
pub fn hash_state(state: &State) -> (r: String)
    ensures
        r@ == state_hash_spec(state@),
        r@.len() == 64,
        forall|i: int| 0 <= i < r@.len() ==> ('0' <= #[trigger] r@[i] <= '9' || 'a' <= r@[i] <= 'f'),
{
    let bytes = canonical_state(state);
    blake3_hex(bytes.as_slice())
}

impl State {
    /// The fingerprint of this state (see `hash_state`).
    pub fn state_hash(&self) -> (r: String)
        ensures
            r@ == state_hash_spec(self@),
            r@.len() == 64,
            forall|i: int| 0 <= i < r@.len() ==> ('0' <= #[trigger] r@[i] <= '9' || 'a' <= r@[i] <= 'f'),
    {
        hash_state(self)
    }
}

} // verus!
