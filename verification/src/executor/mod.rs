//! Executors of a block of transactions, and what they share.
pub mod optimistic;
pub mod sequential;
pub mod static_scheduler;

use vstd::prelude::*;
use crate::metrics::{unlabelled, RunMetrics};
use crate::model::{outcome_models, tx_models, OutcomeModel, StatusModel, Transaction, TxModel, TxOutcome, TxStatus};
use crate::state::{apply_diff_spec, State, StateModel};
use crate::tx::tx_result;
use crate::hash::state_hash_spec;

pub use optimistic::OptimisticExecutor;
pub use sequential::SequentialExecutor;
pub use static_scheduler::StaticSchedulerExecutor;

verus! {

/// How an executor may run.
#[derive(Debug, Clone, Copy)]
pub struct ExecutionConfig {
    /// The number of worker threads (at least one is used).
    pub threads: usize,
}

impl Default for ExecutionConfig {
    fn default() -> (r: Self)
        ensures
            r.threads == 1,
    {
        ExecutionConfig { threads: 1 }
    }
}

/// What running a block produced.
#[derive(Debug, Clone)]
pub struct ExecutionReport {
    pub final_state: State,
    pub final_state_hash: String,
    pub outcomes: Vec<TxOutcome>,
    pub metrics: RunMetrics,
}

/// Something that runs a block of transactions from an initial state.
/// Whatever the schedule, the report's fingerprint is that of its final
/// state, its counts add up to the outcomes, and it says whether the run
/// agrees with the sequential one.
pub trait Executor {
    fn name(&self) -> &'static str;

    fn execute(&self, initial_state: &State, block: &[Transaction], config: &ExecutionConfig) -> (r:
        ExecutionReport)
        ensures
            r.final_state_hash@ == state_hash_spec(r.final_state@),
            r.metrics.block_size == block.len(),
            unlabelled(r.metrics),
            r.metrics.final_state_hash@ == r.final_state_hash@,
            r.metrics.accepted_txs == accepted_count(outcome_models(r.outcomes@)),
            r.metrics.accepted_txs + r.metrics.rejected_txs == r.outcomes.len(),
            r.metrics.correct_vs_sequential == Some(
                r.final_state_hash@ == state_hash_spec(seq_run(initial_state@, tx_models(block@)).0)
                    && outcome_models(r.outcomes@) == seq_run(initial_state@, tx_models(block@)).1,
            ),
    ;
}

/// Running `txs` one after another from `s`: each transaction is executed
/// against the state the previous ones left, and its diff applied.
/// Returns the final state and the outcomes in block order.
pub open spec fn seq_run(s: StateModel, txs: Seq<TxModel>) -> (StateModel, Seq<OutcomeModel>)
    decreases txs.len(),
{
    if txs.len() == 0 {
        (s, Seq::empty())
    } else {
        let (mid, outs) = seq_run(s, txs.drop_last());
        let (outcome, diff) = tx_result(txs.last(), mid);
        (apply_diff_spec(mid, diff), outs.push(outcome))
    }
}

pub proof fn lemma_seq_run_len(s: StateModel, txs: Seq<TxModel>)
    ensures
        seq_run(s, txs).1.len() == txs.len(),
    decreases txs.len(),
{
    if txs.len() > 0 {
        lemma_seq_run_len(s, txs.drop_last());
    }
}

/// How many outcomes are acceptances.
pub open spec fn accepted_count(outs: Seq<OutcomeModel>) -> nat
    decreases outs.len(),
{
    if outs.len() == 0 {
        0
    } else {
        accepted_count(outs.drop_last()) + if outs.last().status is Accepted {
            1nat
        } else {
            0nat
        }
    }
}

pub proof fn lemma_accepted_count_bound(outs: Seq<OutcomeModel>)
    ensures
        accepted_count(outs) <= outs.len(),
    decreases outs.len(),
{
    if outs.len() > 0 {
        lemma_accepted_count_bound(outs.drop_last());
    }
}

/// The number of accepted and of rejected outcomes.
pub fn count_outcomes(outcomes: &[TxOutcome]) -> (r: (usize, usize))
    ensures
        r.0 == accepted_count(outcome_models(outcomes@)),
        r.0 + r.1 == outcomes.len(),
{
    let mut accepted: usize = 0;
    let mut i: usize = 0;
    while i < outcomes.len()
        invariant
            i <= outcomes.len(),
            accepted == accepted_count(outcome_models(outcomes@).take(i as int)),
            accepted <= i,
        decreases outcomes.len() - i,
    {
        proof {
            assert(outcome_models(outcomes@).take(i + 1).drop_last() =~= outcome_models(outcomes@).take(i as int));
        }
        match outcomes[i].status {
            TxStatus::Accepted => {
                accepted = accepted + 1;
            },
            _ => {},
        }
        i = i + 1;
    }
    proof {
        assert(outcome_models(outcomes@).take(outcomes@.len() as int) =~= outcome_models(outcomes@));
    }
    (accepted, outcomes.len() - accepted)
}

/// The fingerprint of the final state and the outcomes of running `block`
/// sequentially from `initial_state`.
pub fn sequential_reference(initial_state: &State, block: &[Transaction]) -> (r: (String, Vec<TxOutcome>))
    ensures
        r.0@ == state_hash_spec(seq_run(initial_state@, tx_models(block@)).0),
        outcome_models(r.1@) == seq_run(initial_state@, tx_models(block@)).1,
{
    let report = SequentialExecutor.execute(initial_state, block, &ExecutionConfig::default());
    (report.final_state_hash, report.outcomes)
}

/// Whether a run's fingerprint and outcomes are those of the sequential run.
pub(crate) fn matches_reference(
    initial_state: &State,
    block: &[Transaction],
    final_state_hash: &String,
    outcomes: &Vec<TxOutcome>,
) -> (r: bool)
    ensures
        r == (final_state_hash@ == state_hash_spec(seq_run(initial_state@, tx_models(block@)).0)
            && outcome_models(outcomes@) == seq_run(initial_state@, tx_models(block@)).1),
{
    let (seq_hash, seq_outcomes) = sequential_reference(initial_state, block);
    let same_hash = final_state_hash.eq(&seq_hash);
    let same = crate::model::same_outcomes(outcomes, &seq_outcomes);
    same_hash && same
}

} // verus!
