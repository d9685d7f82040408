//! Generated blocks of transactions over a funded state.
pub mod hotspot;
pub mod no_conflict;
pub mod private_state;
pub mod rng;
pub mod token_transfer;
pub mod zipfian;

use vstd::prelude::*;
use vstd::string::StringExecFns;
use crate::bench::listed_names;
use crate::laws::{lemma_fresh_block_runs_as_sequential, runs_as_sequential};
use crate::model::{declares_footprint, tx_models, Account, Transaction};
use crate::state::{empty_state, State, StateModel};
use crate::text::{same_text, split_trimmed};

verus! {

/// The integer settings of a generated workload. A probability is held as
/// a number of chances out of 2^53: a draw of 53 random bits below it
/// succeeds, exactly as a random `f64` in `[0, 1)` falls below the
/// probability it stands for.
#[derive(Debug, Clone, Copy)]
pub struct WorkloadConfig {
    pub block_size: usize,
    pub accounts: usize,
    pub seed: u64,
    pub compute_cost: u64,
    /// How likely a private transfer is to reuse an earlier nullifier, out of 2^53.
    pub duplicate_nullifier_threshold: u64,
}

impl Default for WorkloadConfig {
    /// A thousand transactions over a thousand accounts, seed 42, a compute
    /// cost of 1000, and a duplicate chance of 0.15.
    fn default() -> (r: Self)
        ensures
            r.block_size == 1000,
            r.accounts == 1000,
            r.seed == 42,
            r.compute_cost == 1000,
            r.duplicate_nullifier_threshold == 1_351_079_888_211_149,
    {
        WorkloadConfig {
            block_size: 1000,
            accounts: 1000,
            seed: 42,
            compute_cost: 1000,
            duplicate_nullifier_threshold: 1_351_079_888_211_149,
        }
    }
}

/// The balance every account of a generated state starts with.
pub const STARTING_BALANCE: i64 = 1_000_000;

/// The state in which accounts `0..accounts` hold the starting balance.
pub open spec fn funded_state(accounts: nat) -> StateModel {
    StateModel {
        accounts: Map::new(|a: u64| a < accounts, |a: u64| Account { balance: STARTING_BALANCE }),
        ..empty_state()
    }
}

/// A generated workload: its name, the state it starts from, its block, and
/// how many accounts it uses.
#[derive(Debug, Clone)]
pub struct WorkloadScenario {
    pub name: String,
    pub initial_state: State,
    pub block: Vec<Transaction>,
    pub accounts: usize,
}

/// Something that generates a workload from its settings. A block is held
/// in one allocation of at most `isize::MAX` bytes, and a transaction takes
/// far more than eight bytes, so a block holds fewer than a quarter of
/// `usize::MAX` transactions.
pub trait WorkloadGenerator {
    fn name(&self) -> &'static str;

    fn generate(&self, config: &WorkloadConfig) -> WorkloadScenario
        requires
            config.block_size <= usize::MAX / 4,
    ;
}

/// Transaction `i` of `block` is at position `i`, declares its footprint,
/// and declares at most four writes.
pub open spec fn well_positioned(block: Seq<Transaction>) -> bool {
    forall|i: int|
        0 <= i < block.len() ==> {
            &&& declares_footprint(#[trigger] block[i]@)
            &&& block[i]@.index == i
            &&& block[i]@.writes.len() <= 4
        }
}

/// A well-positioned block run from a funded state runs, on both parallel
/// executors, as the sequential executor runs it.
pub proof fn lemma_generated_block(accounts: nat, block: Seq<Transaction>)
    requires
        well_positioned(block),
        4 * block.len() <= u64::MAX,
    ensures
        runs_as_sequential(funded_state(accounts), tx_models(block)),
{
    let txs = tx_models(block);
    assert forall|i: int|
        0 <= i < txs.len() implies {
            &&& declares_footprint(#[trigger] txs[i])
            &&& txs[i].index == i
            &&& txs[i].writes.len() <= 4
        } by {
        assert(txs[i] == block[i]@);
    }
    lemma_fresh_block_runs_as_sequential(funded_state(accounts), txs);
}

/// The state in which accounts `0..accounts` hold the starting balance.
pub fn initial_state(accounts: usize) -> (r: State)
    ensures
        r@ == funded_state(accounts as nat),
{
    let mut state = State::new();
    let n = accounts as u64;
    let mut account: u64 = 0;
    while account < n
        invariant
            n == accounts,
            account <= n,
            state@ == (StateModel {
                accounts: Map::new(|a: u64| a < account, |a: u64| Account { balance: STARTING_BALANCE }),
                ..empty_state()
            }),
        decreases n - account,
    {
        state.set_account_balance(account, STARTING_BALANCE);
        proof {
            assert(state@.accounts =~= Map::new(
                |a: u64| a < account + 1,
                |a: u64| Account { balance: STARTING_BALANCE },
            ));
        }
        account = account + 1;
    }
    proof {
        assert(state@ =~= funded_state(accounts as nat));
    }
    state
}

/// The workloads a selection names: all five for "all", else the listed names.
pub fn workload_names(selection: &str) -> (r: Vec<String>)
    ensures
        r@.map_values(|n: String| n@) == (if selection@ == "all"@ {
            seq!["no-conflict"@, "hotspot"@, "zipfian"@, "token-transfer"@, "private-state"@]
        } else {
            listed_names(selection@)
        }),
{
    if same_text(selection, "all") {
        let r = vec![
            String::from_str("no-conflict"),
            String::from_str("hotspot"),
            String::from_str("zipfian"),
            String::from_str("token-transfer"),
            String::from_str("private-state"),
        ];
        proof {
            assert(r@.map_values(|n: String| n@) =~= seq![
                "no-conflict"@,
                "hotspot"@,
                "zipfian"@,
                "token-transfer"@,
                "private-state"@,
            ]);
        }
        r
    } else {
        split_trimmed(selection)
    }
}

} // verus!
