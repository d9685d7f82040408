use cape::model::{StateDiff, StateKey, Transaction, TxKind, TxOutcome, TxStatus};
use cape::state::State;
use cape::tx::execute_transaction;

fn reason_of(tx: &Transaction, state: &State) -> String {
    let execution = execute_transaction(tx, state);
    assert_eq!(execution.diff, StateDiff::default());
    match execution.outcome.status {
        TxStatus::Rejected(reason) => reason,
        TxStatus::Accepted => panic!("expected a refusal"),
    }
}

#[test]
fn transfer_without_receiver_is_refused() {
    let mut state = State::default();
    state.set_account_balance(1, 10);
    let tx = Transaction {
        receiver: None,
        ..Transaction::public_transfer(1, 0, 1, 2, 5, 1)
    };
    assert_eq!(reason_of(&tx, &state), "missing receiver");
}

#[test]
fn transfer_of_nothing_is_refused() {
    let mut state = State::default();
    state.set_account_balance(1, 10);
    assert_eq!(
        reason_of(&Transaction::public_transfer(1, 0, 1, 2, 0, 1), &state),
        "transfer amount must be positive"
    );
    assert_eq!(
        reason_of(&Transaction::public_transfer(1, 0, 1, 2, -3, 1), &state),
        "transfer amount must be positive"
    );
}

#[test]
fn transfer_beyond_balance_is_refused() {
    let mut state = State::default();
    state.set_account_balance(1, 10);
    assert_eq!(
        reason_of(&Transaction::public_transfer(1, 0, 1, 2, 11, 1), &state),
        "insufficient balance"
    );
    let exact = execute_transaction(&Transaction::public_transfer(1, 0, 1, 2, 10, 1), &state);
    assert_eq!(exact.outcome.status, TxStatus::Accepted);
}

#[test]
fn program_transactions_without_ids_are_refused() {
    let state = State::default();
    let call = Transaction {
        program_id: None,
        ..Transaction::program_call(1, 0, 1, 5, 6, 7, 1)
    };
    assert_eq!(reason_of(&call, &state), "missing program id");
    let call = Transaction {
        program_key: None,
        ..Transaction::program_call(1, 0, 1, 5, 6, 7, 1)
    };
    assert_eq!(reason_of(&call, &state), "missing program key");
    let deploy = Transaction {
        program_id: None,
        ..Transaction::program_deployment(1, 0, 1, 5, 1)
    };
    assert_eq!(reason_of(&deploy, &state), "missing program id");
    assert_eq!(
        reason_of(&Transaction::program_call(1, 0, 1, 5, 6, 7, 1), &state),
        "program is not deployed"
    );
}

#[test]
fn reused_nullifier_is_named() {
    let mut state = State::default();
    state.nullifiers.insert(18446744073709551615);
    assert_eq!(
        reason_of(&Transaction::private_transfer(1, 0, 1, u64::MAX, 2, 1), &state),
        "nullifier 18446744073709551615 already used"
    );
}

#[test]
fn outcomes_name_their_transaction() {
    let tx = Transaction::system(9, 4, 1);
    let accepted = TxOutcome::accepted(&tx);
    assert_eq!((accepted.tx_id, accepted.index, accepted.status), (9, 4, TxStatus::Accepted));
    let rejected = TxOutcome::rejected(&tx, "no".to_string());
    assert_eq!(rejected.status, TxStatus::Rejected("no".to_string()));
    assert_eq!(rejected.index, 4);
}

#[test]
fn declared_keys_of_each_kind() {
    let t = Transaction::public_transfer(1, 0, 3, 4, 5, 1);
    assert_eq!(t.kind, TxKind::PublicTransfer);
    assert_eq!(
        t.read_keys(),
        vec![StateKey::AccountBalance(3), StateKey::AccountBalance(4), StateKey::AccountNonce(3)]
    );
    assert!(!t.is_barrier());
    let s = Transaction::system(2, 1, 1);
    assert!(s.is_barrier());
    assert_eq!(s.write_keys(), vec![StateKey::SystemClock, StateKey::GlobalConfig]);
    let c = Transaction::program_call(3, 2, 1, 8, 9, 1, 1);
    assert!(c.write_keys().contains(&StateKey::ProgramState { program: 8, key: 9 }));
    let d = Transaction::program_deployment(4, 3, 1, 8, 1);
    assert!(d.write_keys().contains(&StateKey::ProgramCode(8)));
    assert!(d.is_barrier());
}
