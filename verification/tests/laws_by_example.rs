use cape::executor::static_scheduler::{build_static_batches, build_static_batches_with_conflicts, conflict};
use cape::executor::{
    count_outcomes, sequential_reference, ExecutionConfig, Executor, OptimisticExecutor,
    SequentialExecutor, StaticSchedulerExecutor,
};
use cape::model::{StateKey, Transaction, TxOutcome, TxStatus};
use cape::state::State;
use cape::tx::{execute_transaction, read_versions_still_valid};
use cape::workload::hotspot::HotspotWorkload;
use cape::workload::private_state::PrivateStateWorkload;
use cape::workload::{WorkloadConfig, WorkloadGenerator};

fn funded(accounts: &[(u64, i64)]) -> State {
    let mut state = State::default();
    for &(a, b) in accounts {
        state.set_account_balance(a, b);
    }
    state
}

fn apply(state: &mut State, tx: &Transaction) -> TxOutcome {
    let execution = execute_transaction(tx, state);
    state.apply_diff(&execution.diff).unwrap();
    execution.outcome
}

fn mixed_block() -> Vec<Transaction> {
    vec![
        Transaction::public_transfer(1, 0, 1, 2, 30, 3),
        Transaction::private_transfer(2, 1, 3, 500, 9000, 3),
        Transaction::program_deployment(3, 2, 4, 8, 3),
        Transaction::public_transfer(4, 3, 2, 1, 10, 3),
        Transaction::program_call(5, 4, 4, 8, 1, 6, 3),
        Transaction::system(6, 5, 3),
        Transaction::private_transfer(7, 6, 1, 500, 9001, 3),
        Transaction::public_transfer(8, 7, 5, 6, 1, 3),
        Transaction::program_call(9, 8, 5, 8, 1, -2, 3),
        Transaction::public_transfer(10, 9, 6, 7, 1_000, 3),
        Transaction::program_deployment(11, 10, 6, 8, 3),
    ]
}

fn mixed_state() -> State {
    funded(&[(1, 100), (2, 50), (3, 10), (4, 0), (5, 5), (6, 1), (7, 0)])
}

#[test]
fn refused_transaction_changes_nothing_on_a_state() {
    let mut state = funded(&[(1, 10), (2, 0)]);
    let before = state.state_hash();
    let tx = Transaction::public_transfer(1, 0, 1, 2, 11, 1);
    let outcome = apply(&mut state, &tx);
    assert_eq!(outcome.status, TxStatus::Rejected("insufficient balance".to_string()));
    assert_eq!(state.state_hash(), before);
    assert_eq!(state.version_of(&StateKey::AccountBalance(1)), 0);
}

#[test]
fn transfer_moves_amount_and_keeps_total() {
    let mut state = funded(&[(1, 100), (2, 5), (3, 7)]);
    let tx = Transaction::public_transfer(1, 0, 1, 2, 60, 1);
    let outcome = apply(&mut state, &tx);
    assert_eq!(outcome.status, TxStatus::Accepted);
    assert_eq!(state.balance_of(1), 40);
    assert_eq!(state.balance_of(2), 65);
    assert_eq!(state.balance_of(3), 7);
    assert_eq!(state.nonce_of(1), 1);
    assert_eq!(state.nonce_of(2), 0);
    for key in tx.write_keys() {
        assert_eq!(state.version_of(&key), 1);
    }
}

#[test]
fn transfer_to_oneself_keeps_the_balance() {
    let mut state = funded(&[(1, 100)]);
    let tx = Transaction::public_transfer(1, 0, 1, 1, 60, 1);
    assert_eq!(apply(&mut state, &tx).status, TxStatus::Accepted);
    assert_eq!(state.balance_of(1), 100);
    assert_eq!(state.nonce_of(1), 1);
}

#[test]
fn nullifier_spent_once_is_refused_with_its_number() {
    let mut state = State::default();
    let first = Transaction::private_transfer(1, 0, 1, 41, 7, 1);
    assert_eq!(apply(&mut state, &first).status, TxStatus::Accepted);
    assert!(state.nullifiers.contains(&41));
    assert_eq!(state.commitments, vec![7]);
    let second = Transaction::private_transfer(2, 1, 2, 41, 8, 1);
    let outcome = apply(&mut state, &second);
    assert_eq!(outcome.status, TxStatus::Rejected("nullifier 41 already used".to_string()));
    assert_eq!(state.commitments, vec![7]);
}

#[test]
fn deployed_program_stays_deployed() {
    let mut state = State::default();
    state.system_clock = 5;
    let deploy = Transaction::program_deployment(1, 0, 1, 3, 1);
    assert_eq!(apply(&mut state, &deploy).status, TxStatus::Accepted);
    assert_eq!(state.programs.get(&3).unwrap().deployed_at, 5);
    let tick = Transaction::system(2, 1, 1);
    assert_eq!(apply(&mut state, &tick).status, TxStatus::Accepted);
    assert_eq!(state.system_clock, 6);
    let again = Transaction::program_deployment(3, 2, 2, 3, 1);
    assert_eq!(
        apply(&mut state, &again).status,
        TxStatus::Rejected("program already deployed".to_string())
    );
    assert_eq!(state.programs.get(&3).unwrap().deployed_at, 5);
    let call = Transaction::program_call(4, 3, 2, 3, 10, 4, 1);
    assert_eq!(apply(&mut state, &call).status, TxStatus::Accepted);
    let call = Transaction::program_call(5, 4, 2, 3, 10, 4, 1);
    assert_eq!(apply(&mut state, &call).status, TxStatus::Accepted);
    assert_eq!(state.programs.get(&3).unwrap().storage.get(&10), Some(&8));
}

#[test]
fn hash_ignores_insertion_order_of_every_part() {
    let mut left = State::default();
    left.set_account_balance(5, 1);
    left.set_account_balance(9, 2);
    left.set_nonce(9, 4);
    left.set_nonce(5, 3);
    left.bump_version(StateKey::Nullifier(3));
    left.bump_version(StateKey::AccountNonce(1));
    left.nullifiers.insert(8);
    left.nullifiers.insert(2);

    let mut right = State::default();
    right.nullifiers.insert(2);
    right.nullifiers.insert(8);
    right.bump_version(StateKey::AccountNonce(1));
    right.bump_version(StateKey::Nullifier(3));
    right.set_nonce(5, 3);
    right.set_nonce(9, 4);
    right.set_account_balance(9, 2);
    right.set_account_balance(5, 1);

    assert_eq!(left.state_hash(), right.state_hash());
}

#[test]
fn independent_transfers_commute() {
    let a = Transaction::public_transfer(1, 0, 1, 2, 5, 1);
    let b = Transaction::public_transfer(2, 1, 3, 4, 6, 1);
    let mut first = funded(&[(1, 10), (2, 0), (3, 10), (4, 0)]);
    apply(&mut first, &a);
    apply(&mut first, &b);
    let mut second = funded(&[(1, 10), (2, 0), (3, 10), (4, 0)]);
    apply(&mut second, &b);
    apply(&mut second, &a);
    assert!(!conflict(&a, &b));
    assert_eq!(first.state_hash(), second.state_hash());
}

#[test]
fn static_batches_cut_the_block_in_order() {
    let block = mixed_block();
    let (batches, conflicts) = build_static_batches_with_conflicts(&block);
    let flattened: Vec<Transaction> = batches.iter().flatten().cloned().collect();
    assert_eq!(flattened, block);
    for batch in &batches {
        assert!(!batch.is_empty());
        if batch.iter().any(|tx| tx.is_barrier()) {
            assert_eq!(batch.len(), 1);
        }
        for i in 0..batch.len() {
            for j in (i + 1)..batch.len() {
                assert!(!conflict(&batch[i], &batch[j]));
            }
        }
    }
    assert!(conflicts > 0);
    assert_eq!(build_static_batches(&block).len(), batches.len());
}

#[test]
fn empty_block_has_no_batches() {
    let (batches, conflicts) = build_static_batches_with_conflicts(&[]);
    assert!(batches.is_empty());
    assert_eq!(conflicts, 0);
}

#[test]
fn executors_agree_on_a_mixed_block() {
    let state = mixed_state();
    let block = mixed_block();
    let config = ExecutionConfig { threads: 3 };
    let seq = SequentialExecutor.execute(&state, &block, &config);
    let sta = StaticSchedulerExecutor.execute(&state, &block, &config);
    let opt = OptimisticExecutor.execute(&state, &block, &config);
    assert_eq!(seq.final_state_hash, seq.final_state.state_hash());
    assert_eq!(sta.final_state_hash, seq.final_state_hash);
    assert_eq!(opt.final_state_hash, seq.final_state_hash);
    assert_eq!(sta.outcomes, seq.outcomes);
    assert_eq!(opt.outcomes, seq.outcomes);
    assert_eq!(seq.metrics.correct_vs_sequential, Some(true));
    assert_eq!(sta.metrics.correct_vs_sequential, Some(true));
    assert_eq!(opt.metrics.correct_vs_sequential, Some(true));
    let (hash, outcomes) = sequential_reference(&state, &block);
    assert_eq!(hash, seq.final_state_hash);
    assert_eq!(outcomes, seq.outcomes);
    let (accepted, rejected) = count_outcomes(&seq.outcomes);
    assert_eq!(accepted + rejected, block.len());
    assert_eq!(seq.metrics.accepted_txs, accepted);
    assert_eq!(rejected, 3);
    assert_eq!(seq.metrics.block_size, block.len());
    assert_eq!(opt.metrics.threads, 3);
    assert_eq!(sta.metrics.threads, 3);
    assert_eq!(seq.metrics.executor, "sequential");
    assert_eq!(sta.metrics.executor, "static");
    assert_eq!(opt.metrics.executor, "optimistic");
}

#[test]
fn executors_agree_on_hotspot_and_private_blocks() {
    let config = WorkloadConfig {
        block_size: 48,
        accounts: 16,
        seed: 7,
        compute_cost: 2,
        duplicate_nullifier_threshold: 1 << 52,
    };
    for scenario in [HotspotWorkload.generate(&config), PrivateStateWorkload.generate(&config)] {
        for threads in [1, 2, 4] {
            let exec = ExecutionConfig { threads };
            let seq = SequentialExecutor.execute(&scenario.initial_state, &scenario.block, &exec);
            let sta = StaticSchedulerExecutor.execute(&scenario.initial_state, &scenario.block, &exec);
            let opt = OptimisticExecutor.execute(&scenario.initial_state, &scenario.block, &exec);
            assert_eq!(sta.final_state_hash, seq.final_state_hash);
            assert_eq!(opt.final_state_hash, seq.final_state_hash);
            assert_eq!(sta.outcomes, seq.outcomes);
            assert_eq!(opt.outcomes, seq.outcomes);
        }
    }
}

#[test]
fn hotspot_block_makes_the_scheduler_and_validator_work() {
    let config = WorkloadConfig {
        block_size: 20,
        accounts: 8,
        seed: 1,
        compute_cost: 1,
        duplicate_nullifier_threshold: 0,
    };
    let scenario = HotspotWorkload.generate(&config);
    let exec = ExecutionConfig { threads: 2 };
    let sta = StaticSchedulerExecutor.execute(&scenario.initial_state, &scenario.block, &exec);
    let opt = OptimisticExecutor.execute(&scenario.initial_state, &scenario.block, &exec);
    // Every transaction sends from account 0, so each conflicts with the
    // one before it and every speculation after the first is stale.
    assert!(sta.metrics.conflicts_detected >= 19);
    assert_eq!(opt.metrics.reexecutions, 19);
    assert_eq!(sta.metrics.reexecutions, 0);
}

#[test]
fn stale_reads_are_detected() {
    let mut state = funded(&[(1, 10), (2, 0)]);
    let tx = Transaction::public_transfer(1, 0, 1, 2, 1, 1);
    let speculative = execute_transaction(&tx, &state);
    assert!(read_versions_still_valid(&speculative, &state));
    state.set_account_balance(1, 50);
    assert!(read_versions_still_valid(&speculative, &state));
    state.bump_version(StateKey::AccountBalance(1));
    assert!(!read_versions_still_valid(&speculative, &state));
}

#[test]
fn conflict_is_symmetric_and_barriers_conflict_with_all() {
    let block = mixed_block();
    for a in &block {
        for b in &block {
            assert_eq!(conflict(a, b), conflict(b, a));
            if a.is_barrier() {
                assert!(conflict(a, b));
            }
        }
    }
    let read_only_overlap = Transaction::program_call(1, 0, 1, 8, 1, 1, 1);
    let deploy_reader = Transaction::program_call(2, 1, 2, 8, 2, 1, 1);
    // Both read the program's code; neither writes it, and their slots differ.
    assert!(!conflict(&read_only_overlap, &deploy_reader));
}

#[test]
fn static_outcomes_are_one_per_transaction_in_position_order() {
    // Positions out of order: the outcomes still cover the block, sorted.
    let block = vec![
        Transaction::public_transfer(10, 2, 1, 2, 1, 1),
        Transaction::public_transfer(11, 0, 3, 4, 1, 1),
        Transaction::public_transfer(12, 1, 1, 5, 1, 1),
    ];
    let state = funded(&[(1, 10), (3, 10)]);
    let report = StaticSchedulerExecutor.execute(&state, &block, &ExecutionConfig { threads: 2 });
    let positions: Vec<(u64, usize)> = report.outcomes.iter().map(|o| (o.tx_id, o.index)).collect();
    assert_eq!(positions, vec![(11, 0), (12, 1), (10, 2)]);
    assert_eq!(report.metrics.accepted_txs + report.metrics.rejected_txs, 3);
    assert_eq!(report.metrics.threads, 2);
}
