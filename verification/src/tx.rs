//! Executing one transaction against a state: its outcome, the diff it
//! would apply, and the versions of the keys it read.
use std::collections::HashMap;
use vstd::prelude::*;
use vstd::string::StringExecFns;
use crate::model::{
    accepted_model, empty_diff, rejected_model, DiffModel, OutcomeModel, StateDiff, StateKey,
    Transaction, TxExecution, TxKind, TxModel, TxOutcome, Version,
};
use crate::state::{balance_in, State, StateModel};
use crate::text::{decimal_chars, decimal_string};
use crate::timing::{nanos_since, now};
use crate::versions::version_in;

verus! {

broadcast use vstd::std_specs::hash::group_hash_axioms;

/// The balance changes of a transfer of `amount` from `signer` to `receiver`.
pub open spec fn transfer_deltas(signer: u64, receiver: u64, amount: i64) -> Map<u64, i64> {
    if signer == receiver {
        map![signer => 0i64]
    } else {
        map![signer => (-amount) as i64, receiver => amount]
    }
}

/// A refusal: the outcome names the reason and nothing changes.
pub open spec fn refusal(tx: TxModel, reason: Seq<char>) -> (OutcomeModel, DiffModel) {
    (rejected_model(tx, reason), empty_diff())
}

/// The diff of an accepted transaction that only writes `written` and bumps
/// the signer's nonce.
pub open spec fn nonce_diff(tx: TxModel) -> DiffModel {
    DiffModel { nonce_delta: map![tx.signer => 1u64], written_keys: tx.writes, ..empty_diff() }
}

pub open spec fn public_transfer_result(tx: TxModel, s: StateModel) -> (OutcomeModel, DiffModel) {
    match tx.receiver {
        None => refusal(tx, "missing receiver"@),
        Some(receiver) => if tx.amount <= 0 {
            refusal(tx, "transfer amount must be positive"@)
        } else if balance_in(s.accounts, tx.signer) < tx.amount {
            refusal(tx, "insufficient balance"@)
        } else {
            (
                accepted_model(tx),
                DiffModel {
                    balance_delta: transfer_deltas(tx.signer, receiver, tx.amount),
                    ..nonce_diff(tx)
                },
            )
        },
    }
}

/// The first of `nullifiers` that `used` holds.
pub open spec fn first_used(nullifiers: Seq<u64>, used: Set<u64>) -> Option<u64>
    decreases nullifiers.len(),
{
    if nullifiers.len() == 0 {
        None
    } else if used.contains(nullifiers[0]) {
        Some(nullifiers[0])
    } else {
        first_used(nullifiers.drop_first(), used)
    }
}

/// Why a private transfer that reuses `n` is refused.
pub open spec fn reused_nullifier_reason(n: u64) -> Seq<char> {
    "nullifier "@ + decimal_chars(n as nat) + " already used"@
}

pub open spec fn private_transfer_result(tx: TxModel, s: StateModel) -> (OutcomeModel, DiffModel) {
    match first_used(tx.nullifiers, s.nullifiers) {
        Some(n) => refusal(tx, reused_nullifier_reason(n)),
        None => (
            accepted_model(tx),
            DiffModel {
                nullifiers_to_add: tx.nullifiers,
                commitments_to_append: tx.commitments,
                ..nonce_diff(tx)
            },
        ),
    }
}

pub open spec fn program_call_result(tx: TxModel, s: StateModel) -> (OutcomeModel, DiffModel) {
    match tx.program_id {
        None => refusal(tx, "missing program id"@),
        Some(program) => match tx.program_key {
            None => refusal(tx, "missing program key"@),
            Some(key) => if !s.programs.contains_key(program) {
                refusal(tx, "program is not deployed"@)
            } else {
                (accepted_model(tx), DiffModel { program_writes: seq![(program, key, tx.amount)], ..nonce_diff(tx) })
            },
        },
    }
}

pub open spec fn program_deployment_result(tx: TxModel, s: StateModel) -> (OutcomeModel, DiffModel) {
    match tx.program_id {
        None => refusal(tx, "missing program id"@),
        Some(program) => if s.programs.contains_key(program) {
            refusal(tx, "program already deployed"@)
        } else {
            (
                accepted_model(tx),
                DiffModel { programs_to_deploy: seq![program], written_keys: tx.writes, ..empty_diff() },
            )
        },
    }
}

pub open spec fn system_result(tx: TxModel) -> (OutcomeModel, DiffModel) {
    (accepted_model(tx), DiffModel { system_clock_delta: 1, written_keys: tx.writes, ..empty_diff() })
}

/// What executing `tx` against `s` yields: its outcome and its diff.
pub open spec fn tx_result(tx: TxModel, s: StateModel) -> (OutcomeModel, DiffModel) {
    match tx.kind {
        TxKind::PublicTransfer => public_transfer_result(tx, s),
        TxKind::PrivateTransfer => private_transfer_result(tx, s),
        TxKind::ProgramCall => program_call_result(tx, s),
        TxKind::ProgramDeployment => program_deployment_result(tx, s),
        TxKind::System => system_result(tx),
    }
}

/// The version of each key in `keys`, in order.
pub open spec fn versions_of(keys: Seq<StateKey>, versions: Map<StateKey, Version>) -> Seq<(StateKey, Version)> {
    keys.map_values(|k: StateKey| (k, version_in(versions, k)))
}

/// Whether every recorded version is still the current one.
pub open spec fn versions_current(read_versions: Seq<(StateKey, Version)>, versions: Map<StateKey, Version>) -> bool {
    forall|i: int| 0 <= i < read_versions.len() ==> version_in(versions, #[trigger] read_versions[i].0) == read_versions[i].1
}

/// What an execution of `tx` against `s` holds, apart from its timing.
pub open spec fn executes_as(e: TxExecution, tx: TxModel, s: StateModel) -> bool {
    &&& e.outcome@ == tx_result(tx, s).0
    &&& e.diff@ == tx_result(tx, s).1
    &&& e.read_versions@ == versions_of(tx.reads, s.versions)
    &&& e.read_keys@ == tx.reads
    &&& e.write_keys@ == tx.writes
}

/// `std::hint::black_box`: keeps the optimizer from removing the work that
/// produced `value`. It has no effect that the contracts could see.
#[verifier::external_body]
fn black_box_u64(value: u64) {
    std::hint::black_box(value);
}

/// Spends time in proportion to `iterations`, with no visible effect.
fn burn_compute(iterations: u64, seed: u64) {
    let mut value = seed ^ 0x9e37_79b9_7f4a_7c15u64;
    for i in 0..iterations {
        value = value.wrapping_mul(6364136223846793005u64).wrapping_add(i ^ 1442695040888963407u64);
    }
    black_box_u64(value);
}

fn refuse(tx: &Transaction, reason: &str) -> (r: (TxOutcome, StateDiff))
    ensures
        r.0@ == refusal(tx@, reason@).0,
        r.1@ == refusal(tx@, reason@).1,
{
    (TxOutcome::rejected(tx, String::from_str(reason)), StateDiff::empty())
}

fn nonce_only_diff(tx: &Transaction) -> (r: StateDiff)
    ensures
        r@ == nonce_diff(tx@),
{
    let mut diff = StateDiff::empty();
    diff.nonce_delta.insert(tx.signer, 1);
    diff.written_keys = tx.write_keys();
    proof {
        assert(diff@.nonce_delta =~= map![tx.signer => 1u64]);
    }
    diff
}

fn execute_public_transfer(tx: &Transaction, state: &State) -> (r: (TxOutcome, StateDiff))
    ensures
        r.0@ == public_transfer_result(tx@, state@).0,
        r.1@ == public_transfer_result(tx@, state@).1,
{
    let receiver = match tx.receiver {
        Some(receiver) => receiver,
        None => {
            return refuse(tx, "missing receiver");
        },
    };
    if tx.amount <= 0 {
        return refuse(tx, "transfer amount must be positive");
    }
    if state.balance_of(tx.signer) < tx.amount {
        return refuse(tx, "insufficient balance");
    }
    let mut diff = nonce_only_diff(tx);
    diff.balance_delta.insert(tx.signer, 0 - tx.amount);
    let to_receiver = match diff.balance_delta.get(&receiver) {
        Some(current) => *current + tx.amount,
        None => tx.amount,
    };
    diff.balance_delta.insert(receiver, to_receiver);
    proof {
        assert(diff@.balance_delta =~= transfer_deltas(tx.signer, receiver, tx.amount));
    }
    (TxOutcome::accepted(tx), diff)
}

fn find_used_nullifier(tx: &Transaction, state: &State) -> (r: Option<u64>)
    ensures
        r == first_used(tx@.nullifiers, state@.nullifiers),
{
    let mut i: usize = 0;
    proof {
        assert(tx@.nullifiers.subrange(0, tx@.nullifiers.len() as int) =~= tx@.nullifiers);
    }
    while i < tx.consumed_nullifiers.len()
        invariant
            i <= tx.consumed_nullifiers.len(),
            first_used(tx@.nullifiers, state@.nullifiers) == first_used(
                tx@.nullifiers.subrange(i as int, tx@.nullifiers.len() as int),
                state@.nullifiers,
            ),
        decreases tx.consumed_nullifiers.len() - i,
    {
        let n = tx.consumed_nullifiers[i];
        let ghost rest = tx@.nullifiers.subrange(i as int, tx@.nullifiers.len() as int);
        proof {
            assert(rest[0] == n);
            assert(rest.drop_first() =~= tx@.nullifiers.subrange(i + 1, tx@.nullifiers.len() as int));
        }
        if state.nullifiers.contains(&n) {
            return Some(n);
        }
        i = i + 1;
    }
    proof {
        assert(tx@.nullifiers.subrange(i as int, tx@.nullifiers.len() as int).len() == 0);
    }
    None
}

fn execute_private_transfer(tx: &Transaction, state: &State) -> (r: (TxOutcome, StateDiff))
    ensures
        r.0@ == private_transfer_result(tx@, state@).0,
        r.1@ == private_transfer_result(tx@, state@).1,
{
    if let Some(used) = find_used_nullifier(tx, state) {
        let mut reason = String::from_str("nullifier ");
        let digits = decimal_string(used);
        reason.append(digits.as_str());
        reason.append(" already used");
        return (TxOutcome::rejected(tx, reason), StateDiff::empty());
    }
    let mut diff = nonce_only_diff(tx);
    diff.nullifiers_to_add = crate::model::copy_u64s(&tx.consumed_nullifiers);
    diff.commitments_to_append = crate::model::copy_u64s(&tx.produced_commitments);
    (TxOutcome::accepted(tx), diff)
}

fn execute_program_call(tx: &Transaction, state: &State) -> (r: (TxOutcome, StateDiff))
    ensures
        r.0@ == program_call_result(tx@, state@).0,
        r.1@ == program_call_result(tx@, state@).1,
{
    let program_id = match tx.program_id {
        Some(id) => id,
        None => {
            return refuse(tx, "missing program id");
        },
    };
    let key = match tx.program_key {
        Some(key) => key,
        None => {
            return refuse(tx, "missing program key");
        },
    };
    if !state.programs.contains_key(&program_id) {
        return refuse(tx, "program is not deployed");
    }
    let mut diff = nonce_only_diff(tx);
    diff.program_writes = vec![(program_id, key, tx.amount)];
    (TxOutcome::accepted(tx), diff)
}

fn execute_program_deployment(tx: &Transaction, state: &State) -> (r: (TxOutcome, StateDiff))
    ensures
        r.0@ == program_deployment_result(tx@, state@).0,
        r.1@ == program_deployment_result(tx@, state@).1,
{
    let program_id = match tx.program_id {
        Some(id) => id,
        None => {
            return refuse(tx, "missing program id");
        },
    };
    if state.programs.contains_key(&program_id) {
        return refuse(tx, "program already deployed");
    }
    let mut diff = StateDiff::empty();
    diff.programs_to_deploy = vec![program_id];
    diff.written_keys = tx.write_keys();
    (TxOutcome::accepted(tx), diff)
}

fn execute_system(tx: &Transaction) -> (r: (TxOutcome, StateDiff))
    ensures
        r.0@ == system_result(tx@).0,
        r.1@ == system_result(tx@).1,
{
    let mut diff = StateDiff::empty();
    diff.system_clock_delta = 1;
    diff.written_keys = tx.write_keys();
    (TxOutcome::accepted(tx), diff)
}

/// Executes `tx` against `state` without changing it. The result holds the
/// outcome, the diff to apply, the current version of each declared read
/// key, the declared keys, and how long the execution took.
pub fn execute_transaction(tx: &Transaction, state: &State) -> (r: TxExecution)
    ensures
        executes_as(r, tx@, state@),
{
    let start = now();
    burn_compute(tx.compute_cost, tx.id);

    let read_keys = tx.read_keys();
    let write_keys = tx.write_keys();
    let mut read_versions: Vec<(StateKey, Version)> = Vec::with_capacity(read_keys.len());
    for i in 0..read_keys.len()
        invariant
            read_keys@ == tx@.reads,
            read_versions@ == versions_of(tx@.reads, state@.versions).subrange(0, i as int),
    {
        let key = read_keys[i];
        read_versions.push((key, state.version_of(&key)));
        proof {
            assert(read_versions@ =~= versions_of(tx@.reads, state@.versions).subrange(0, i + 1));
        }
    }
    proof {
        assert(read_versions@ =~= versions_of(tx@.reads, state@.versions));
    }

    let (outcome, diff) = match tx.kind {
        TxKind::PublicTransfer => execute_public_transfer(tx, state),
        TxKind::PrivateTransfer => execute_private_transfer(tx, state),
        TxKind::ProgramCall => execute_program_call(tx, state),
        TxKind::ProgramDeployment => execute_program_deployment(tx, state),
        TxKind::System => execute_system(tx),
    };

    TxExecution { outcome, diff, read_versions, read_keys, write_keys, execution_ns: nanos_since(&start) }
}

/// Whether every version that `execution` read is still the current version
/// of its key in `state`.
pub fn read_versions_still_valid(execution: &TxExecution, state: &State) -> (r: bool)
    ensures
        r == versions_current(execution.read_versions@, state@.versions),
{
    let mut i: usize = 0;
    while i < execution.read_versions.len()
        invariant
            i <= execution.read_versions.len(),
            forall|j: int|
                0 <= j < i ==> version_in(state@.versions, #[trigger] execution.read_versions@[j].0)
                    == execution.read_versions@[j].1,
        decreases execution.read_versions.len() - i,
    {
        let (key, version) = execution.read_versions[i];
        if state.version_of(&key) != version {
            return false;
        }
        i = i + 1;
    }
    true
}

} // verus!
