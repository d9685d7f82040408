//! Shielded transfers, some of which reuse a nullifier spent earlier in the
//! block (and so must be refused).
use vstd::prelude::*;
use vstd::string::StringExecFns;
use crate::model::{private_transfer_model, tx_models, Transaction, TxModel};
use crate::workload::rng::{random_bits, random_u64_in, random_usize_in, seeded};
use crate::laws::runs_as_sequential;
use crate::workload::{lemma_generated_block, well_positioned, WorkloadGenerator, funded_state, initial_state, WorkloadConfig, WorkloadScenario};

verus! {

/// The number of chances a duplicate threshold is out of: 2^53.
pub const CHANCES: u64 = 0x20_0000_0000_0000;

/// The nullifier that transaction `i` spends when it does not reuse one.
pub open spec fn fresh_nullifier(seed: u64, i: int) -> u64 {
    vstd::wrapping::u64_specs::wrapping_add(vstd::wrapping::u64_specs::wrapping_mul(seed, 1_000_003), i as u64)
}

/// The commitment that transaction `i` produces.
pub open spec fn commitment_for(seed: u64, i: int) -> u64 {
    vstd::wrapping::u64_specs::wrapping_add(vstd::wrapping::u64_specs::wrapping_mul(seed, 2_000_003), i as u64)
}

/// Transaction `j` of `block` spent its own fresh nullifier.
pub open spec fn spent_fresh(block: Seq<TxModel>, j: int, seed: u64) -> bool {
    block[j].nullifiers[0] == fresh_nullifier(seed, j)
}

/// Transaction `i` of `block` spends the nullifier that an earlier
/// transaction of the block spent fresh.
pub open spec fn reuses_spent(block: Seq<TxModel>, i: int, seed: u64) -> bool {
    exists|j: int| 0 <= j < i && #[trigger] spent_fresh(block, j, seed) && block[i].nullifiers[0] == block[j].nullifiers[0]
}

/// What transaction `i` of a private-state block is: a private transfer by
/// an account below `accounts` that spends its own fresh nullifier or one
/// that an earlier transaction of the block spent fresh; never a reuse when
/// the duplicate threshold is 0, and always one after the first transaction
/// when the threshold is all the chances.
pub open spec fn is_private_step(block: Seq<TxModel>, i: int, accounts: int, config: WorkloadConfig) -> bool {
    let tx = block[i];
    &&& tx.nullifiers.len() == 1
    &&& tx.signer < accounts
    &&& tx == private_transfer_model(
        i as u64,
        i as usize,
        tx.signer,
        tx.nullifiers[0],
        commitment_for(config.seed, i),
        config.compute_cost,
    )
    &&& (spent_fresh(block, i, config.seed) || reuses_spent(block, i, config.seed))
    &&& config.duplicate_nullifier_threshold == 0 ==> spent_fresh(block, i, config.seed)
    &&& (config.duplicate_nullifier_threshold >= CHANCES && i > 0) ==> reuses_spent(block, i, config.seed)
}

pub struct PrivateStateWorkload;

/// Whether transaction `i`, with draws `draws`, reuses a spent nullifier:
/// it is not the first, and the top 53 bits of its draw fall below the
/// threshold.
pub open spec fn draws_reuse(threshold: u64, draws: Seq<(u64, u64, usize)>, i: int) -> bool {
    i > 0 && (draws[i].1 >> 11u64) < threshold
}

/// The nullifiers that the first `n` transactions spend fresh, in order.
pub open spec fn spent_nullifiers(seed: u64, threshold: u64, draws: Seq<(u64, u64, usize)>, n: nat) -> Seq<u64>
    decreases n,
{
    if n == 0 {
        Seq::empty()
    } else {
        let before = spent_nullifiers(seed, threshold, draws, (n - 1) as nat);
        if draws_reuse(threshold, draws, n - 1) {
            before
        } else {
            before.push(fresh_nullifier(seed, n - 1))
        }
    }
}

/// The nullifier that transaction `i` spends: the spent one its draw picks
/// when it reuses one, else its own fresh one.
pub open spec fn drawn_nullifier(seed: u64, threshold: u64, draws: Seq<(u64, u64, usize)>, i: int) -> u64 {
    if draws_reuse(threshold, draws, i) {
        spent_nullifiers(seed, threshold, draws, i as nat)[draws[i].2 as int]
    } else {
        fresh_nullifier(seed, i)
    }
}

/// The spent nullifiers depend only on the draws of the transactions
/// before.
proof fn lemma_spent_prefix(seed: u64, threshold: u64, d1: Seq<(u64, u64, usize)>, d2: Seq<(u64, u64, usize)>, n: nat)
    requires
        n <= d1.len(),
        n <= d2.len(),
        forall|j: int| 0 <= j < n ==> d1[j] == d2[j],
    ensures
        spent_nullifiers(seed, threshold, d1, n) == spent_nullifiers(seed, threshold, d2, n),
    decreases n,
{
    if n > 0 {
        lemma_spent_prefix(seed, threshold, d1, d2, (n - 1) as nat);
        assert(d1[n - 1] == d2[n - 1]);
    }
}

/// The spent nullifiers grow by one with each fresh one.
proof fn lemma_spent_len(seed: u64, threshold: u64, draws: Seq<(u64, u64, usize)>, n: nat)
    ensures
        spent_nullifiers(seed, threshold, draws, n).len() <= n,
        n > 0 ==> spent_nullifiers(seed, threshold, draws, n).len() > 0,
    decreases n,
{
    if n > 0 {
        lemma_spent_len(seed, threshold, draws, (n - 1) as nat);
    }
}

impl PrivateStateWorkload {
    /// The accounts a private-state workload uses: at least two.
    pub open spec fn accounts_spec(&self, config: WorkloadConfig) -> usize {
        if config.accounts > 2 {
            config.accounts
        } else {
            2
        }
    }

    /// The scenario built from one draw per transaction: its signer, 64
    /// random bits, and which spent nullifier it picks when it reuses one.
    /// Transaction `i` spends `drawn_nullifier` of the draws.
    pub fn assemble(&self, config: &WorkloadConfig, draws: &[(u64, u64, usize)]) -> (r: WorkloadScenario)
        requires
            draws.len() == config.block_size,
            config.block_size <= usize::MAX / 4,
            forall|i: int| 0 <= i < draws.len() ==> (#[trigger] draws@[i]).0 < self.accounts_spec(*config),
            forall|i: int|
                0 <= i < draws.len() && draws_reuse(config.duplicate_nullifier_threshold, draws@, i) ==> (
                #[trigger] draws@[i]).2 < spent_nullifiers(
                    config.seed,
                    config.duplicate_nullifier_threshold,
                    draws@,
                    i as nat,
                ).len(),
        ensures
            r.name@ == "private-state"@,
            r.accounts == self.accounts_spec(*config),
            r.initial_state@ == funded_state(r.accounts as nat),
            r.block.len() == config.block_size,
            runs_as_sequential(r.initial_state@, tx_models(r.block@)),
            forall|i: int|
                0 <= i < config.block_size ==> #[trigger] r.block@[i]@ == private_transfer_model(
                    i as u64,
                    i as usize,
                    draws@[i].0,
                    drawn_nullifier(config.seed, config.duplicate_nullifier_threshold, draws@, i),
                    commitment_for(config.seed, i),
                    config.compute_cost,
                ),
            forall|i: int|
                0 <= i < config.block_size ==> is_private_step(tx_models(r.block@), i, r.accounts as int, *config),
            config.duplicate_nullifier_threshold >= CHANCES ==> forall|i: int|
                0 <= i < config.block_size ==> (#[trigger] r.block@[i]@).nullifiers[0] == fresh_nullifier(config.seed, 0),
    {
        let accounts = if config.accounts > 2 {
            config.accounts
        } else {
            2
        };
        let mut block: Vec<Transaction> = Vec::with_capacity(config.block_size);
        let mut previous_nullifiers: Vec<u64> = Vec::new();
        // For each spent nullifier, the index of the transaction that spent it fresh.
        let ghost mut origins: Seq<int> = Seq::empty();
        // For each transaction, the index of the one that spent its nullifier fresh.
        let ghost mut sources: Seq<int> = Seq::empty();
        for i in 0..config.block_size
            invariant
                accounts == self.accounts_spec(*config),
                accounts >= 2,
                draws.len() == config.block_size,
                forall|k: int| 0 <= k < draws.len() ==> (#[trigger] draws@[k]).0 < accounts,
                forall|k: int|
                    0 <= k < draws.len() && draws_reuse(config.duplicate_nullifier_threshold, draws@, k) ==> (
                    #[trigger] draws@[k]).2 < spent_nullifiers(config.seed, config.duplicate_nullifier_threshold, draws@, k as nat).len(),
                block.len() == i,
                previous_nullifiers@ == spent_nullifiers(config.seed, config.duplicate_nullifier_threshold, draws@, i as nat),
                forall|j: int|
                    0 <= j < i ==> #[trigger] block@[j]@ == private_transfer_model(
                        j as u64,
                        j as usize,
                        draws@[j].0,
                        drawn_nullifier(config.seed, config.duplicate_nullifier_threshold, draws@, j),
                        commitment_for(config.seed, j),
                        config.compute_cost,
                    ),
                well_positioned(block@),
                config.block_size <= usize::MAX / 4,
                i > 0 <==> previous_nullifiers.len() > 0,
                origins.len() == previous_nullifiers.len(),
                forall|k: int|
                    0 <= k < origins.len() ==> 0 <= #[trigger] origins[k] < i
                        && previous_nullifiers@[k] == fresh_nullifier(config.seed, origins[k])
                        && block@[origins[k]]@.nullifiers[0] == fresh_nullifier(config.seed, origins[k])
                        && (config.duplicate_nullifier_threshold >= CHANCES ==> origins[k] == 0),
                sources.len() == i,
                forall|j: int|
                    0 <= j < i ==> {
                        &&& 0 <= #[trigger] sources[j] <= j
                        &&& block@[j]@.nullifiers.len() == 1
                        &&& block@[j]@.signer < accounts
                        &&& block@[j]@ == private_transfer_model(
                            j as u64,
                            j as usize,
                            block@[j]@.signer,
                            block@[j]@.nullifiers[0],
                            commitment_for(config.seed, j),
                            config.compute_cost,
                        )
                        &&& block@[j]@.nullifiers[0] == fresh_nullifier(config.seed, sources[j])
                        &&& block@[sources[j]]@.nullifiers[0] == fresh_nullifier(config.seed, sources[j])
                        &&& config.duplicate_nullifier_threshold == 0 ==> sources[j] == j
                        &&& (config.duplicate_nullifier_threshold >= CHANCES && j > 0) ==> sources[j] < j
                        &&& config.duplicate_nullifier_threshold >= CHANCES ==> sources[j] == 0
                    },
        {
            let (signer, bits, pick) = draws[i];
            let mut duplicate = false;
            if previous_nullifiers.len() > 0 {
                proof {
                    assert((bits >> 11u64) < 0x20_0000_0000_0000u64) by (bit_vector);
                }
                duplicate = (bits >> 11) < config.duplicate_nullifier_threshold;
            }
            proof {
                assert(duplicate == draws_reuse(config.duplicate_nullifier_threshold, draws@, i as int));
            }
            let nullifier = if duplicate {
                let idx = pick;
                proof {
                    let j = origins[idx as int];
                    assert(previous_nullifiers@[idx as int] == fresh_nullifier(config.seed, j));
                    sources = sources.push(j);
                }
                previous_nullifiers[idx]
            } else {
                let value = config.seed.wrapping_mul(1_000_003).wrapping_add(i as u64);
                previous_nullifiers.push(value);
                proof {
                    origins = origins.push(i as int);
                    sources = sources.push(i as int);
                }
                value
            };
            let commitment = config.seed.wrapping_mul(2_000_003).wrapping_add(i as u64);
            let tx = Transaction::private_transfer(i as u64, i, signer, nullifier, commitment, config.compute_cost);
            proof {
                assert(tx@.nullifiers[0] == nullifier);
            }
            block.push(tx);
        }
        proof {
            lemma_generated_block(accounts as nat, block@);
            let txs = tx_models(block@);
            assert forall|i: int| 0 <= i < config.block_size implies is_private_step(txs, i, accounts as int, *config) by {
                let j = sources[i];
                assert(txs[i] == block@[i]@);
                assert(txs[j] == block@[j]@);
                assert(spent_fresh(txs, j, config.seed));
            }
            if config.duplicate_nullifier_threshold >= CHANCES {
                assert forall|i: int| 0 <= i < config.block_size implies (#[trigger] block@[i]@).nullifiers[0]
                    == fresh_nullifier(config.seed, 0) by {
                    assert(sources[i] == 0);
                }
            }
        }
        WorkloadScenario {
            name: String::from_str(self.name()),
            initial_state: initial_state(accounts),
            block,
            accounts,
        }
    }
}

impl WorkloadGenerator for PrivateStateWorkload {
    fn name(&self) -> (r: &'static str)
        ensures
            r@ == "private-state"@,
    {
        "private-state"
    }

    /// Draws, for each transaction in turn, its signer among the accounts;
    /// once a nullifier has been spent, 64 random bits, and, when their top
    /// 53 fall below the duplicate threshold, which spent nullifier to
    /// reuse. The block is built from the draws (see `assemble`).
    fn generate(&self, config: &WorkloadConfig) -> (r: WorkloadScenario)
        ensures
            r.name@ == "private-state"@,
            r.accounts == self.accounts_spec(*config),
            r.initial_state@ == funded_state(r.accounts as nat),
            r.block.len() == config.block_size,
            runs_as_sequential(r.initial_state@, tx_models(r.block@)),
            forall|i: int|
                0 <= i < config.block_size ==> is_private_step(tx_models(r.block@), i, r.accounts as int, *config),
            config.duplicate_nullifier_threshold >= CHANCES ==> forall|i: int|
                0 <= i < config.block_size ==> (#[trigger] r.block@[i]@).nullifiers[0] == fresh_nullifier(config.seed, 0),
    {
        let accounts = if config.accounts > 2 {
            config.accounts
        } else {
            2
        };
        let n = accounts as u64;
        let threshold = config.duplicate_nullifier_threshold;
        let mut rng = seeded(config.seed);
        let mut draws: Vec<(u64, u64, usize)> = Vec::with_capacity(config.block_size);
        let mut spent: usize = 0;
        for i in 0..config.block_size
            invariant
                n == accounts,
                accounts == self.accounts_spec(*config),
                threshold == config.duplicate_nullifier_threshold,
                draws.len() == i,
                spent <= i,
                i > 0 <==> spent > 0,
                spent == spent_nullifiers(config.seed, threshold, draws@, i as nat).len(),
                forall|k: int| 0 <= k < i ==> (#[trigger] draws@[k]).0 < accounts,
                forall|k: int|
                    0 <= k < i && draws_reuse(threshold, draws@, k) ==> (#[trigger] draws@[k]).2 < spent_nullifiers(
                        config.seed,
                        threshold,
                        draws@,
                        k as nat,
                    ).len(),
        {
            let signer = random_u64_in(&mut rng, 0, n);
            let mut bits: u64 = 0;
            let mut duplicate = false;
            if spent > 0 {
                bits = random_bits(&mut rng);
                duplicate = (bits >> 11) < threshold;
            }
            let pick = if duplicate {
                random_usize_in(&mut rng, 0, spent)
            } else {
                0
            };
            let ghost before = draws@;
            draws.push((signer, bits, pick));
            proof {
                assert(duplicate == draws_reuse(threshold, draws@, i as int));
                assert forall|k: int| 0 <= k <= i implies spent_nullifiers(config.seed, threshold, draws@, k as nat)
                    == #[trigger] spent_nullifiers(config.seed, threshold, before, k as nat) by {
                    lemma_spent_prefix(config.seed, threshold, draws@, before, k as nat);
                }
                assert forall|k: int| 0 <= k <= i implies #[trigger] draws@[k] == if k < i {
                    before[k]
                } else {
                    (signer, bits, pick)
                } by {}
            }
            if !duplicate {
                spent = spent + 1;
            }
            proof {
                lemma_spent_len(config.seed, threshold, draws@, (i + 1) as nat);
            }
        }
        self.assemble(config, draws.as_slice())
    }
}

} // verus!
