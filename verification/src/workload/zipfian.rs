//! Transfers between accounts drawn with Zipf weights, so that a few
//! accounts take most of the traffic. The weights are floating point and
//! the draws are made by the caller; the block is built here from them.
use vstd::prelude::*;
use vstd::string::StringExecFns;
use crate::model::{public_transfer_model, tx_models, Transaction};
use crate::laws::runs_as_sequential;
use crate::workload::{lemma_generated_block, well_positioned, funded_state, initial_state, WorkloadConfig, WorkloadScenario};

verus! {

pub struct ZipfianWorkload;

/// The receiver of a transfer whose two draws were `sender` and `receiver`:
/// when they coincide, the next account, wrapping around to 0.
pub open spec fn distinct_receiver(sender: u64, receiver: u64, accounts: nat) -> u64 {
    if receiver == sender {
        ((receiver + 1) % (accounts as int)) as u64
    } else {
        receiver
    }
}

impl ZipfianWorkload {
    pub fn name(&self) -> (r: &'static str)
        ensures
            r@ == "zipfian"@,
    {
        "zipfian"
    }

    /// The accounts a Zipfian workload uses: at least two.
    pub fn accounts(&self, config: &WorkloadConfig) -> (r: usize)
        ensures
            r == (if config.accounts > 2 {
                config.accounts
            } else {
                2
            }),
    {
        if config.accounts > 2 {
            config.accounts
        } else {
            2
        }
    }

    /// The scenario built from one pair of account draws per transaction:
    /// transaction `i` moves 1 from the first draw to the second, or to the
    /// account after the first when both draws are the same account.
    pub fn assemble(&self, config: &WorkloadConfig, draws: &[(u64, u64)]) -> (r: WorkloadScenario)
        requires
            draws.len() == config.block_size,
            config.block_size <= usize::MAX / 4,
            forall|i: int|
                0 <= i < draws.len() ==> (#[trigger] draws@[i]).0 < self.accounts_spec(*config) && draws@[i].1
                    < self.accounts_spec(*config),
        ensures
            r.name@ == "zipfian"@,
            r.accounts == self.accounts_spec(*config),
            r.initial_state@ == funded_state(r.accounts as nat),
            r.block.len() == config.block_size,
            runs_as_sequential(r.initial_state@, tx_models(r.block@)),
            forall|i: int|
                0 <= i < config.block_size ==> #[trigger] r.block@[i]@ == public_transfer_model(
                    i as u64,
                    i as usize,
                    draws@[i].0,
                    distinct_receiver(draws@[i].0, draws@[i].1, r.accounts as nat),
                    1,
                    config.compute_cost,
                ),
            forall|i: int| 0 <= i < config.block_size ==> r.block@[i]@.signer != #[trigger] r.block@[i]@.receiver->0,
    {
        let accounts = self.accounts(config);
        let n = accounts as u64;
        let mut block: Vec<Transaction> = Vec::with_capacity(config.block_size);
        for i in 0..config.block_size
            invariant
                n == accounts,
                accounts == self.accounts_spec(*config),
                accounts >= 2,
                draws.len() == config.block_size,
                forall|k: int|
                    0 <= k < draws.len() ==> (#[trigger] draws@[k]).0 < accounts && draws@[k].1 < accounts,
                block.len() == i,
                well_positioned(block@),
                config.block_size <= usize::MAX / 4,
                forall|j: int|
                    0 <= j < i ==> #[trigger] block@[j]@ == public_transfer_model(
                        j as u64,
                        j as usize,
                        draws@[j].0,
                        distinct_receiver(draws@[j].0, draws@[j].1, accounts as nat),
                        1,
                        config.compute_cost,
                    ),
                forall|j: int| 0 <= j < i ==> block@[j]@.signer != #[trigger] block@[j]@.receiver->0,
        {
            let (sender, drawn) = draws[i];
            let receiver = if drawn == sender {
                let next = (drawn + 1) % n;
                assert(next != sender) by (nonlinear_arith)
                    requires
                        next == (drawn + 1) % (n as int),
                        drawn == sender,
                        sender < n,
                        n >= 2,
                {
                    if drawn + 1 < n {
                        vstd::arithmetic::div_mod::lemma_small_mod((drawn + 1) as nat, n as nat);
                    } else {
                        vstd::arithmetic::div_mod::lemma_mod_self_0(n as int);
                    }
                }
                next
            } else {
                drawn
            };
            block.push(Transaction::public_transfer(i as u64, i, sender, receiver, 1, config.compute_cost));
        }
        proof {
            lemma_generated_block(accounts as nat, block@);
        }
        WorkloadScenario {
            name: String::from_str(self.name()),
            initial_state: initial_state(accounts),
            block,
            accounts,
        }
    }

    pub open spec fn accounts_spec(&self, config: WorkloadConfig) -> usize {
        if config.accounts > 2 {
            config.accounts
        } else {
            2
        }
    }
}

} // verus!
