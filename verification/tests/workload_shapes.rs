use cape::executor::static_scheduler::conflict;
use cape::model::{StateKey, TxKind};
use cape::workload::hotspot::HotspotWorkload;
use cape::workload::no_conflict::NoConflictWorkload;
use cape::workload::private_state::PrivateStateWorkload;
use cape::workload::token_transfer::TokenTransferWorkload;
use cape::workload::zipfian::ZipfianWorkload;
use cape::workload::{initial_state, WorkloadConfig, WorkloadGenerator};
use std::collections::HashSet;

fn config(block_size: usize, accounts: usize, threshold: u64) -> WorkloadConfig {
    WorkloadConfig {
        block_size,
        accounts,
        seed: 42,
        compute_cost: 3,
        duplicate_nullifier_threshold: threshold,
    }
}

#[test]
fn default_settings() {
    let c = WorkloadConfig::default();
    assert_eq!(c.block_size, 1000);
    assert_eq!(c.accounts, 1000);
    assert_eq!(c.seed, 42);
    assert_eq!(c.compute_cost, 1000);
    // 0.15 of 2^53 chances, rounded up.
    assert_eq!(c.duplicate_nullifier_threshold, (0.15f64 * 9007199254740992.0).ceil() as u64);
    assert_eq!(cape::executor::ExecutionConfig::default().threads, 1);
}

#[test]
fn initial_state_funds_each_account() {
    let state = initial_state(3);
    assert_eq!(state.accounts.len(), 3);
    for a in 0..3 {
        assert_eq!(state.balance_of(a), 1_000_000);
    }
    assert_eq!(state.balance_of(3), 0);
    assert!(state.nonces.is_empty());
}

#[test]
fn no_conflict_uses_disjoint_pairs_and_enough_accounts() {
    let scenario = NoConflictWorkload.generate(&config(5, 3, 0));
    assert_eq!(scenario.name, "no-conflict");
    assert_eq!(scenario.accounts, 12);
    assert_eq!(scenario.initial_state.accounts.len(), 12);
    for (i, tx) in scenario.block.iter().enumerate() {
        assert_eq!(tx.kind, TxKind::PublicTransfer);
        assert_eq!(tx.index, i);
        assert_eq!(tx.id, i as u64);
        assert_eq!(tx.signer, 2 * i as u64);
        assert_eq!(tx.receiver, Some(2 * i as u64 + 1));
        assert_eq!(tx.amount, 1);
        assert_eq!(tx.compute_cost, 3);
    }
    let wide = NoConflictWorkload.generate(&config(5, 100, 0));
    assert_eq!(wide.accounts, 100);
}

#[test]
fn hotspot_sends_from_account_zero() {
    let scenario = HotspotWorkload.generate(&config(40, 1, 0));
    assert_eq!(scenario.name, "hotspot");
    assert_eq!(scenario.accounts, 2);
    for tx in &scenario.block {
        assert_eq!(tx.signer, 0);
        assert_eq!(tx.receiver, Some(1));
    }
    for pair in scenario.block.windows(2) {
        assert!(conflict(&pair[0], &pair[1]));
    }
}

#[test]
fn token_transfers_stay_among_the_accounts() {
    let scenario = TokenTransferWorkload.generate(&config(64, 10, 0));
    assert_eq!(scenario.name, "token-transfer");
    assert_eq!(scenario.block.len(), 64);
    for tx in &scenario.block {
        assert_eq!(tx.kind, TxKind::PublicTransfer);
        assert!(tx.signer < 10);
        let receiver = tx.receiver.unwrap();
        assert!(receiver < 10);
        assert_ne!(receiver, tx.signer);
        assert!(tx.amount >= 1);
    }
}

#[test]
fn private_state_without_duplicate_chance_spends_fresh_nullifiers() {
    let scenario = PrivateStateWorkload.generate(&config(30, 4, 0));
    assert_eq!(scenario.name, "private-state");
    let mut seen = HashSet::new();
    for (i, tx) in scenario.block.iter().enumerate() {
        assert_eq!(tx.kind, TxKind::PrivateTransfer);
        assert_eq!(tx.consumed_nullifiers.len(), 1);
        let fresh = 42u64.wrapping_mul(1_000_003).wrapping_add(i as u64);
        assert_eq!(tx.consumed_nullifiers[0], fresh);
        assert_eq!(tx.produced_commitments, vec![42u64.wrapping_mul(2_000_003).wrapping_add(i as u64)]);
        assert!(tx.signer < 4);
        assert!(seen.insert(fresh));
        assert!(tx.declared_writes.contains(&StateKey::Nullifier(fresh)));
    }
}

#[test]
fn private_state_with_certain_duplicates_reuses_the_first_nullifier() {
    let scenario = PrivateStateWorkload.generate(&config(20, 4, 1 << 53));
    let first = scenario.block[0].consumed_nullifiers[0];
    assert_eq!(first, 42_000_126);
    // Only the first transaction spends fresh; the rest reuse spent ones.
    for tx in &scenario.block[1..] {
        assert_eq!(tx.consumed_nullifiers[0], first);
    }
}

#[test]
fn zipfian_blocks_never_send_to_the_sender() {
    let cfg = config(4, 3, 0);
    let draws = [(0u64, 1u64), (2, 2), (1, 1), (0, 0)];
    let scenario = ZipfianWorkload.assemble(&cfg, &draws);
    assert_eq!(scenario.name, ZipfianWorkload.name());
    assert_eq!(scenario.accounts, 3);
    let pairs: Vec<(u64, u64)> = scenario
        .block
        .iter()
        .map(|tx| (tx.signer, tx.receiver.unwrap()))
        .collect();
    assert_eq!(pairs, vec![(0, 1), (2, 0), (1, 2), (0, 1)]);
    assert_eq!(ZipfianWorkload.accounts(&config(1, 0, 0)), 2);
}

#[test]
fn token_transfer_block_from_given_draws() {
    let cfg = config(3, 4, 0);
    let scenario = TokenTransferWorkload.assemble(&cfg, &[(0, 2, 5), (3, 3, 1), (1, 1, 24)]);
    let triples: Vec<(u64, u64, i64)> = scenario
        .block
        .iter()
        .map(|tx| (tx.signer, tx.receiver.unwrap(), tx.amount))
        .collect();
    assert_eq!(triples, vec![(0, 2, 5), (3, 0, 1), (1, 2, 24)]);
    assert_eq!(scenario.name, "token-transfer");
}

#[test]
fn private_state_block_from_given_draws() {
    // Threshold 1 << 52: bits below 1 << 63 reuse (their top 53 bits fall below it).
    let cfg = config(5, 4, 1 << 52);
    let reuse = 0u64;
    let fresh = u64::MAX;
    let draws = [(1u64, fresh, 0usize), (2, fresh, 0), (3, reuse, 1), (0, fresh, 0), (1, reuse, 0)];
    let scenario = PrivateStateWorkload.assemble(&cfg, &draws);
    let nullifiers: Vec<u64> = scenario.block.iter().map(|tx| tx.consumed_nullifiers[0]).collect();
    let f = |i: u64| 42u64.wrapping_mul(1_000_003).wrapping_add(i);
    assert_eq!(nullifiers, vec![f(0), f(1), f(1), f(3), f(0)]);
    let signers: Vec<u64> = scenario.block.iter().map(|tx| tx.signer).collect();
    assert_eq!(signers, vec![1, 2, 3, 0, 1]);
}
