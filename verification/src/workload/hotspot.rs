//! Every transaction sends from the same account: a single hot key.
use vstd::prelude::*;
use vstd::string::StringExecFns;
use crate::executor::static_scheduler::conflict_spec;
use crate::model::{public_transfer_model, tx_models, StateKey, Transaction};
use crate::workload::rng::{random_u64_in, seeded};
use crate::laws::runs_as_sequential;
use crate::workload::{lemma_generated_block, well_positioned, WorkloadGenerator, funded_state, initial_state, WorkloadConfig, WorkloadScenario};

verus! {

pub struct HotspotWorkload;

impl WorkloadGenerator for HotspotWorkload {
    fn name(&self) -> (r: &'static str)
        ensures
            r@ == "hotspot"@,
    {
        "hotspot"
    }

    /// Transaction `i` moves 1 from account 0 to an account drawn from
    /// `1..accounts`, with at least two accounts.
    fn generate(&self, config: &WorkloadConfig) -> (r: WorkloadScenario)
        ensures
            r.name@ == "hotspot"@,
            r.accounts == (if config.accounts > 2 {
                config.accounts
            } else {
                2
            }),
            r.initial_state@ == funded_state(r.accounts as nat),
            r.block.len() == config.block_size,
            runs_as_sequential(r.initial_state@, tx_models(r.block@)),
            forall|i: int|
                0 <= i < config.block_size ==> {
                    &&& (#[trigger] r.block@[i]@).receiver is Some
                    &&& 1 <= r.block@[i]@.receiver->0 < r.accounts
                    &&& r.block@[i]@ == public_transfer_model(
                        i as u64,
                        i as usize,
                        0,
                        r.block@[i]@.receiver->0,
                        1,
                        config.compute_cost,
                    )
                },
            forall|i: int, j: int|
                0 <= i < j < config.block_size ==> conflict_spec(#[trigger] r.block@[i]@, #[trigger] r.block@[j]@),
    {
        let accounts = if config.accounts > 2 {
            config.accounts
        } else {
            2
        };
        let mut rng = seeded(config.seed);
        let mut block: Vec<Transaction> = Vec::with_capacity(config.block_size);
        for i in 0..config.block_size
            invariant
                accounts >= 2,
                block.len() == i,
                well_positioned(block@),
                config.block_size <= usize::MAX / 4,
                forall|j: int|
                    0 <= j < i ==> {
                        &&& (#[trigger] block@[j]@).receiver is Some
                        &&& 1 <= block@[j]@.receiver->0 < accounts
                        &&& block@[j]@ == public_transfer_model(
                            j as u64,
                            j as usize,
                            0,
                            block@[j]@.receiver->0,
                            1,
                            config.compute_cost,
                        )
                    },
        {
            let receiver = random_u64_in(&mut rng, 1, accounts as u64);
            block.push(Transaction::public_transfer(i as u64, i, 0, receiver, 1, config.compute_cost));
        }
        proof {
            assert forall|i: int, j: int| 0 <= i < j < config.block_size implies conflict_spec(
                #[trigger] block@[i]@,
                #[trigger] block@[j]@,
            ) by {
                let k = StateKey::AccountBalance(0);
                assert(block@[i]@.writes[0] == k);
                assert(block@[j]@.writes[0] == k);
                assert(block@[i]@.writes.contains(k) && block@[j]@.writes.contains(k));
            }
        }
        proof {
            lemma_generated_block(accounts as nat, block@);
        }
        WorkloadScenario {
            name: String::from_str(self.name()),
            initial_state: initial_state(accounts),
            block,
            accounts,
        }
    }
}

} // verus!
