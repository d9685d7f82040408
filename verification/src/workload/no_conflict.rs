//! Transfers between disjoint pairs of accounts: no two transactions touch
//! the same key.
use vstd::prelude::*;
use vstd::string::StringExecFns;
use crate::executor::static_scheduler::conflict_spec;
use crate::model::{public_transfer_model, tx_models, StateKey, Transaction, TxModel};
use crate::laws::runs_as_sequential;
use crate::workload::{lemma_generated_block, well_positioned, WorkloadGenerator, funded_state, initial_state, WorkloadConfig, WorkloadScenario};

verus! {

pub struct NoConflictWorkload;

/// Transaction `i` of a no-conflict block: 1 from account `2i` to `2i + 1`.
pub open spec fn pair_transfer(i: int, compute_cost: u64) -> TxModel {
    public_transfer_model(i as u64, i as usize, (2 * i) as u64, (2 * i + 1) as u64, 1, compute_cost)
}

/// The keys of a public transfer are those of its two accounts.
proof fn lemma_transfer_keys(tx: TxModel, k: StateKey)
    requires
        tx == public_transfer_model(tx.id, tx.index, tx.signer, tx.receiver->0, tx.amount, tx.compute_cost),
    ensures
        tx.writes.contains(k) || tx.reads.contains(k) ==> k == StateKey::AccountBalance(tx.signer) || k
            == StateKey::AccountBalance(tx.receiver->0) || k == StateKey::AccountNonce(tx.signer),
{
    if tx.writes.contains(k) {
        let i = choose|i: int| 0 <= i < tx.writes.len() && tx.writes[i] == k;
        assert(0 <= i < 3);
    }
    if tx.reads.contains(k) {
        let i = choose|i: int| 0 <= i < tx.reads.len() && tx.reads[i] == k;
        assert(0 <= i < 3);
    }
}

/// Two transactions of a no-conflict block never conflict.
proof fn lemma_pairs_do_not_conflict(i: int, j: int, compute_cost: u64)
    requires
        0 <= i < j,
        2 * j + 1 <= u64::MAX,
        j <= usize::MAX,
    ensures
        !conflict_spec(pair_transfer(i, compute_cost), pair_transfer(j, compute_cost)),
{
    let a = pair_transfer(i, compute_cost);
    let b = pair_transfer(j, compute_cost);
    assert forall|k: StateKey| !(a.writes.contains(k) && (b.writes.contains(k) || b.reads.contains(k))) by {
        lemma_transfer_keys(a, k);
        lemma_transfer_keys(b, k);
    }
    assert forall|k: StateKey| !(a.reads.contains(k) && b.writes.contains(k)) by {
        lemma_transfer_keys(a, k);
        lemma_transfer_keys(b, k);
    }
    assert forall|w: int| 0 <= w < a.writes.len() implies !(#[trigger] a.writes[w] is SystemClock
        || a.writes[w] is GlobalConfig) by {
        assert(0 <= w < 3);
    }
    assert forall|w: int| 0 <= w < b.writes.len() implies !(#[trigger] b.writes[w] is SystemClock
        || b.writes[w] is GlobalConfig) by {
        assert(0 <= w < 3);
    }
}

impl WorkloadGenerator for NoConflictWorkload {
    fn name(&self) -> (r: &'static str)
        ensures
            r@ == "no-conflict"@,
    {
        "no-conflict"
    }

    /// Transaction `i` moves 1 from account `2i` to account `2i + 1`; the
    /// state funds enough accounts for all of them.
    fn generate(&self, config: &WorkloadConfig) -> (r: WorkloadScenario)
        ensures
            r.name@ == "no-conflict"@,
            r.accounts == (if config.accounts > config.block_size * 2 + 2 {
                config.accounts as int
            } else {
                config.block_size * 2 + 2
            }),
            r.initial_state@ == funded_state(r.accounts as nat),
            r.block.len() == config.block_size,
            runs_as_sequential(r.initial_state@, tx_models(r.block@)),
            forall|i: int|
                0 <= i < config.block_size ==> #[trigger] r.block@[i]@ == public_transfer_model(
                    i as u64,
                    i as usize,
                    (2 * i) as u64,
                    (2 * i + 1) as u64,
                    1,
                    config.compute_cost,
                ),
            forall|i: int, j: int|
                0 <= i < j < config.block_size ==> !conflict_spec(#[trigger] r.block@[i]@, #[trigger] r.block@[j]@),
    {
        let needed = config.block_size * 2 + 2;
        let accounts = if config.accounts > needed {
            config.accounts
        } else {
            needed
        };
        let mut block: Vec<Transaction> = Vec::with_capacity(config.block_size);
        for i in 0..config.block_size
            invariant
                config.block_size * 2 + 2 <= usize::MAX,
                block.len() == i,
                well_positioned(block@),
                config.block_size <= usize::MAX / 4,
                forall|j: int|
                    0 <= j < i ==> #[trigger] block@[j]@ == public_transfer_model(
                        j as u64,
                        j as usize,
                        (2 * j) as u64,
                        (2 * j + 1) as u64,
                        1,
                        config.compute_cost,
                    ),
        {
            let sender = (i * 2) as u64;
            let receiver = (i * 2 + 1) as u64;
            block.push(Transaction::public_transfer(i as u64, i, sender, receiver, 1, config.compute_cost));
        }
        proof {
            assert forall|i: int, j: int| 0 <= i < j < config.block_size implies !conflict_spec(
                #[trigger] block@[i]@,
                #[trigger] block@[j]@,
            ) by {
                assert(block@[i]@ == pair_transfer(i, config.compute_cost));
                assert(block@[j]@ == pair_transfer(j, config.compute_cost));
                lemma_pairs_do_not_conflict(i, j, config.compute_cost);
            }
        }
        proof {
            lemma_generated_block(accounts as nat, block@);
        }
        WorkloadScenario {
            name: String::from_str(self.name()),
            initial_state: initial_state(accounts),
            block,
            accounts,
        }
    }
}

} // verus!
