//! Transfers of small amounts between random pairs of distinct accounts.
use vstd::prelude::*;
use vstd::string::StringExecFns;
use crate::laws::runs_as_sequential;
use crate::model::{public_transfer_model, tx_models, Transaction, TxModel};
use crate::workload::rng::{random_i64_in, random_u64_in, seeded};
use crate::workload::zipfian::distinct_receiver;
use crate::workload::{
    funded_state, initial_state, lemma_generated_block, well_positioned, WorkloadConfig, WorkloadGenerator,
    WorkloadScenario,
};

verus! {

pub struct TokenTransferWorkload;

/// A transfer between two distinct accounts below `accounts`, of an amount
/// in `1..25`, for position `i`.
pub open spec fn is_token_transfer(tx: TxModel, i: int, accounts: int, compute_cost: u64) -> bool {
    &&& tx.receiver is Some
    &&& tx.signer < accounts
    &&& tx.receiver->0 < accounts
    &&& tx.signer != tx.receiver->0
    &&& 1 <= tx.amount < 25
    &&& tx == public_transfer_model(i as u64, i as usize, tx.signer, tx.receiver->0, tx.amount, compute_cost)
}

/// Transaction `i` of a token-transfer block whose draw was `draw`: the
/// amount from the first drawn account to the second, or to the account
/// after the first when both draws are the same account.
pub open spec fn drawn_transfer(draw: (u64, u64, i64), i: int, accounts: nat, compute_cost: u64) -> TxModel {
    public_transfer_model(i as u64, i as usize, draw.0, distinct_receiver(draw.0, draw.1, accounts), draw.2, compute_cost)
}

impl TokenTransferWorkload {
    /// The accounts a token-transfer workload uses: at least two.
    pub open spec fn accounts_spec(&self, config: WorkloadConfig) -> usize {
        if config.accounts > 2 {
            config.accounts
        } else {
            2
        }
    }

    /// The scenario built from one draw per transaction (sender, receiver,
    /// amount): see `drawn_transfer`.
    pub fn assemble(&self, config: &WorkloadConfig, draws: &[(u64, u64, i64)]) -> (r: WorkloadScenario)
        requires
            draws.len() == config.block_size,
            config.block_size <= usize::MAX / 4,
            forall|i: int|
                0 <= i < draws.len() ==> (#[trigger] draws@[i]).0 < self.accounts_spec(*config) && draws@[i].1
                    < self.accounts_spec(*config),
        ensures
            r.name@ == "token-transfer"@,
            r.accounts == self.accounts_spec(*config),
            r.initial_state@ == funded_state(r.accounts as nat),
            r.block.len() == config.block_size,
            runs_as_sequential(r.initial_state@, tx_models(r.block@)),
            forall|i: int|
                0 <= i < config.block_size ==> #[trigger] r.block@[i]@ == drawn_transfer(
                    draws@[i],
                    i,
                    r.accounts as nat,
                    config.compute_cost,
                ),
            forall|i: int| 0 <= i < config.block_size ==> r.block@[i]@.signer != #[trigger] r.block@[i]@.receiver->0,
    {
        let accounts = if config.accounts > 2 {
            config.accounts
        } else {
            2
        };
        let n = accounts as u64;
        let mut block: Vec<Transaction> = Vec::with_capacity(config.block_size);
        for i in 0..config.block_size
            invariant
                n == accounts,
                accounts == self.accounts_spec(*config),
                accounts >= 2,
                draws.len() == config.block_size,
                config.block_size <= usize::MAX / 4,
                forall|k: int| 0 <= k < draws.len() ==> (#[trigger] draws@[k]).0 < accounts && draws@[k].1 < accounts,
                block.len() == i,
                well_positioned(block@),
                forall|j: int|
                    0 <= j < i ==> #[trigger] block@[j]@ == drawn_transfer(
                        draws@[j],
                        j,
                        accounts as nat,
                        config.compute_cost,
                    ),
                forall|j: int| 0 <= j < i ==> block@[j]@.signer != #[trigger] block@[j]@.receiver->0,
        {
            let (sender, drawn, amount) = draws[i];
            let receiver = if drawn == sender {
                let next = (drawn + 1) % n;
                assert(next != sender) by (nonlinear_arith)
                    requires
                        next == (drawn + 1) % (n as int),
                        drawn == sender,
                        sender < n,
                        n >= 2,
                {
                    if drawn + 1 < n {
                        vstd::arithmetic::div_mod::lemma_small_mod((drawn + 1) as nat, n as nat);
                    } else {
                        vstd::arithmetic::div_mod::lemma_mod_self_0(n as int);
                    }
                }
                next
            } else {
                drawn
            };
            block.push(Transaction::public_transfer(i as u64, i, sender, receiver, amount, config.compute_cost));
        }
        proof {
            lemma_generated_block(accounts as nat, block@);
        }
        WorkloadScenario {
            name: String::from_str(self.name()),
            initial_state: initial_state(accounts),
            block,
            accounts,
        }
    }
}

impl WorkloadGenerator for TokenTransferWorkload {
    fn name(&self) -> (r: &'static str)
        ensures
            r@ == "token-transfer"@,
    {
        "token-transfer"
    }

    /// Draws, for each transaction in turn, a sender and a receiver among
    /// the accounts and an amount in `1..25`, and builds the block from the
    /// draws (see `assemble`).
    fn generate(&self, config: &WorkloadConfig) -> (r: WorkloadScenario)
        ensures
            r.name@ == "token-transfer"@,
            r.accounts == self.accounts_spec(*config),
            r.initial_state@ == funded_state(r.accounts as nat),
            r.block.len() == config.block_size,
            runs_as_sequential(r.initial_state@, tx_models(r.block@)),
            forall|i: int|
                0 <= i < config.block_size ==> is_token_transfer(
                    #[trigger] r.block@[i]@,
                    i,
                    r.accounts as int,
                    config.compute_cost,
                ),
    {
        let accounts = if config.accounts > 2 {
            config.accounts
        } else {
            2
        };
        let n = accounts as u64;
        let mut rng = seeded(config.seed);
        let mut draws: Vec<(u64, u64, i64)> = Vec::with_capacity(config.block_size);
        for i in 0..config.block_size
            invariant
                n == accounts,
                accounts == self.accounts_spec(*config),
                accounts >= 2,
                draws.len() == i,
                forall|k: int|
                    0 <= k < i ==> (#[trigger] draws@[k]).0 < accounts && draws@[k].1 < accounts && 1 <= draws@[k].2
                        < 25,
        {
            let sender = random_u64_in(&mut rng, 0, n);
            let receiver = random_u64_in(&mut rng, 0, n);
            let amount = random_i64_in(&mut rng, 1, 25);
            draws.push((sender, receiver, amount));
        }
        let r = self.assemble(config, draws.as_slice());
        proof {
            assert forall|i: int| 0 <= i < config.block_size implies is_token_transfer(
                #[trigger] r.block@[i]@,
                i,
                r.accounts as int,
                config.compute_cost,
            ) by {
                assert(r.block@[i]@ == drawn_transfer(draws@[i], i, r.accounts as nat, config.compute_cost));
                assert(draws@[i].1 < accounts);
                if draws@[i].1 == draws@[i].0 {
                    assert(((draws@[i].1 + 1) % (accounts as int)) < accounts) by (nonlinear_arith)
                        requires
                            accounts >= 2,
                    ;
                }
            }
        }
        r
    }
}

} // verus!
