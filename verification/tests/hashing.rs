use cape::hash::{canonical_state, hash_state};
use cape::model::{StateKey, Transaction};
use cape::state::State;
use cape::tx::execute_transaction;
use serde_json::Value;

fn object(members: Vec<(&str, Value)>) -> Value {
    let mut map = serde_json::Map::new();
    for (name, value) in members {
        map.insert(name.to_string(), value);
    }
    Value::Object(map)
}

fn tagged(name: &str, value: Value) -> Value {
    object(vec![(name, value)])
}

/// The JSON of a key, in serde's form for an externally tagged enum.
fn key_value(key: &StateKey) -> Value {
    match key {
        StateKey::AccountBalance(a) => tagged("AccountBalance", Value::from(*a)),
        StateKey::AccountNonce(a) => tagged("AccountNonce", Value::from(*a)),
        StateKey::Nullifier(n) => tagged("Nullifier", Value::from(*n)),
        StateKey::CommitmentSlot(s) => tagged("CommitmentSlot", Value::from(*s)),
        StateKey::CommitmentRoot => Value::from("CommitmentRoot"),
        StateKey::ProgramCode(p) => tagged("ProgramCode", Value::from(*p)),
        StateKey::ProgramState { program, key } => tagged(
            "ProgramState",
            object(vec![("program", Value::from(*program)), ("key", Value::from(*key))]),
        ),
        StateKey::SystemClock => Value::from("SystemClock"),
        StateKey::GlobalConfig => Value::from("GlobalConfig"),
    }
}

/// The canonical JSON of a state, built the way serde_json writes the
/// state's sorted maps and sets.
fn expected_json(state: &State) -> Vec<u8> {
    let mut accounts: Vec<_> = state.accounts.iter().map(|(k, a)| (*k, a.balance)).collect();
    accounts.sort();
    let mut nonces: Vec<_> = state.nonces.iter().map(|(k, n)| (*k, *n)).collect();
    nonces.sort();
    let mut nullifiers: Vec<_> = state.nullifiers.iter().copied().collect();
    nullifiers.sort();
    let mut programs: Vec<_> = state.programs.iter().collect();
    programs.sort_by_key(|(id, _)| **id);
    let versions = state.versions.sorted_entries();

    let accounts_json = {
        let mut map = serde_json::Map::new();
        for (k, balance) in accounts {
            map.insert(k.to_string(), object(vec![("balance", Value::from(balance))]));
        }
        Value::Object(map)
    };
    let nonces_json = {
        let mut map = serde_json::Map::new();
        for (k, n) in nonces {
            map.insert(k.to_string(), Value::from(n));
        }
        Value::Object(map)
    };
    let programs_json = {
        let mut map = serde_json::Map::new();
        for (id, program) in programs {
            let mut storage: Vec<_> = program.storage.iter().map(|(k, v)| (*k, *v)).collect();
            storage.sort();
            let mut storage_map = serde_json::Map::new();
            for (k, v) in storage {
                storage_map.insert(k.to_string(), Value::from(v));
            }
            map.insert(
                id.to_string(),
                object(vec![
                    ("storage", Value::Object(storage_map)),
                    ("deployed_at", Value::from(program.deployed_at)),
                ]),
            );
        }
        Value::Object(map)
    };
    let versions_json = Value::Array(
        versions
            .iter()
            .map(|(key, version)| Value::Array(vec![key_value(key), Value::from(*version)]))
            .collect(),
    );
    let whole = object(vec![
        ("accounts", accounts_json),
        ("nonces", nonces_json),
        (
            "nullifiers",
            Value::Array(nullifiers.into_iter().map(Value::from).collect()),
        ),
        (
            "commitments",
            Value::Array(state.commitments.iter().map(|c| Value::from(*c)).collect()),
        ),
        ("programs", programs_json),
        ("system_clock", Value::from(state.system_clock)),
        ("global_config", Value::from(state.global_config)),
        ("versions", versions_json),
    ]);
    serde_json::to_vec(&whole).unwrap()
}

fn busy_state() -> State {
    let mut state = State::default();
    state.set_account_balance(20, 300);
    state.set_account_balance(3, -7);
    state.set_account_balance(11, i64::MIN);
    state.set_nonce(3, 2);
    let block = vec![
        Transaction::private_transfer(1, 0, 3, 900, 5000, 1),
        Transaction::private_transfer(2, 1, 3, 12, 5001, 1),
        Transaction::program_deployment(3, 2, 20, 77, 1),
        Transaction::program_call(4, 3, 20, 77, 9, -42, 1),
        Transaction::program_call(5, 4, 20, 77, 2, 8, 1),
        Transaction::public_transfer(6, 5, 20, 3, 100, 1),
        Transaction::system(7, 6, 1),
    ];
    for tx in &block {
        let execution = execute_transaction(tx, &state);
        state.apply_diff(&execution.diff).unwrap();
    }
    state.bump_version(StateKey::GlobalConfig);
    state.bump_version(StateKey::CommitmentRoot);
    state
}

#[test]
fn canonical_json_of_empty_state() {
    let state = State::default();
    let bytes = canonical_state(&state);
    assert_eq!(
        String::from_utf8(bytes).unwrap(),
        "{\"accounts\":{},\"nonces\":{},\"nullifiers\":[],\"commitments\":[],\"programs\":{},\
         \"system_clock\":0,\"global_config\":0,\"versions\":[]}"
    );
}

#[test]
fn canonical_json_of_small_state() {
    let mut state = State::default();
    state.set_account_balance(2, 250);
    state.set_account_balance(1, -100);
    state.set_nonce(1, 3);
    state.bump_version(StateKey::ProgramState { program: 4, key: 5 });
    state.bump_version(StateKey::AccountBalance(9));
    let bytes = canonical_state(&state);
    assert_eq!(
        String::from_utf8(bytes).unwrap(),
        "{\"accounts\":{\"1\":{\"balance\":-100},\"2\":{\"balance\":250}},\"nonces\":{\"1\":3},\
         \"nullifiers\":[],\"commitments\":[],\"programs\":{},\"system_clock\":0,\"global_config\":0,\
         \"versions\":[[{\"AccountBalance\":9},1],[{\"ProgramState\":{\"program\":4,\"key\":5}},1]]}"
    );
}

#[test]
fn canonical_json_matches_serde_json() {
    let state = busy_state();
    assert_eq!(canonical_state(&state), expected_json(&state));
}

#[test]
fn hash_is_blake3_of_canonical_json() {
    let state = busy_state();
    let bytes = canonical_state(&state);
    let expected = blake3::hash(&bytes).to_hex().to_string();
    assert_eq!(hash_state(&state), expected);
    assert_eq!(state.state_hash(), expected);
    assert_eq!(expected.len(), 64);
    assert!(expected.chars().all(|c| c.is_ascii_hexdigit() && !c.is_ascii_uppercase()));
}

#[test]
fn hash_of_empty_state_is_fixed() {
    let state = State::default();
    let expected = blake3::hash(
        b"{\"accounts\":{},\"nonces\":{},\"nullifiers\":[],\"commitments\":[],\"programs\":{},\"system_clock\":0,\"global_config\":0,\"versions\":[]}",
    )
    .to_hex()
    .to_string();
    assert_eq!(state.state_hash(), expected);
}

#[test]
fn hash_changes_with_contents() {
    let mut left = State::default();
    left.set_account_balance(1, 100);
    let mut right = State::default();
    right.set_account_balance(1, 101);
    assert_ne!(left.state_hash(), right.state_hash());
    let empty = State::default();
    assert_ne!(left.state_hash(), empty.state_hash());
}
