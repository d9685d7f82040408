//! The reference executor: one transaction after another.
use vstd::prelude::*;
use vstd::string::StringExecFns;
use crate::executor::{Executor, accepted_count, count_outcomes, seq_run, ExecutionConfig, ExecutionReport};
use crate::hash::state_hash_spec;
use crate::metrics::RunMetrics;
use crate::model::{outcome_models, tx_models, Transaction, TxOutcome};
use crate::state::State;
use crate::timing::{nanos_since, now};
use crate::tx::{execute_transaction, executes_as};

verus! {

/// Runs `block` in order from `initial_state`: the final state, the
/// outcomes, and the time spent executing and committing.
fn run_in_order(initial_state: &State, block: &[Transaction]) -> (r: (State, Vec<TxOutcome>, u128, u128))
    ensures
        r.0@ == seq_run(initial_state@, tx_models(block@)).0,
        outcome_models(r.1@) == seq_run(initial_state@, tx_models(block@)).1,
        r.1.len() == block.len(),
{
    let mut execution_ns: u128 = 0;
    let mut commit_ns: u128 = 0;
    let mut state = initial_state.snapshot();
    let mut outcomes: Vec<TxOutcome> = Vec::with_capacity(block.len());
    let ghost txs = tx_models(block@);

    for i in 0..block.len()
        invariant
            txs == tx_models(block@),
            state@ == seq_run(initial_state@, txs.take(i as int)).0,
            outcome_models(outcomes@) == seq_run(initial_state@, txs.take(i as int)).1,
    {
        proof {
            assert(txs.take(i + 1).drop_last() =~= txs.take(i as int));
            assert(txs.take(i + 1).last() == block@[i as int]@);
        }
        let execution = execute_transaction(&block[i], &state);
        execution_ns = execution_ns.saturating_add(execution.execution_ns);
        let commit_started = now();
        let _ = state.apply_diff(&execution.diff);
        commit_ns = commit_ns.saturating_add(nanos_since(&commit_started));
        outcomes.push(execution.outcome);
        proof {
            assert(outcome_models(outcomes@) =~= seq_run(initial_state@, txs.take(i + 1)).1);
        }
    }
    proof {
        assert(txs.take(block@.len() as int) =~= txs);
        crate::executor::lemma_seq_run_len(initial_state@, txs);
        assert(outcome_models(outcomes@).len() == outcomes@.len());
    }
    (state, outcomes, execution_ns, commit_ns)
}

pub struct SequentialExecutor;

impl Executor for SequentialExecutor {
    fn name(&self) -> (r: &'static str)
        ensures
            r@ == "sequential"@,
    {
        "sequential"
    }

    /// Executes each transaction of `block` against the state the previous
    /// ones left, applying its diff before the next.
    fn execute(&self, initial_state: &State, block: &[Transaction], config: &ExecutionConfig) -> (r:
        ExecutionReport)
        ensures
            r.final_state@ == seq_run(initial_state@, tx_models(block@)).0,
            outcome_models(r.outcomes@) == seq_run(initial_state@, tx_models(block@)).1,
            r.final_state_hash@ == state_hash_spec(r.final_state@),
            r.metrics.executor@ == "sequential"@,
            r.metrics.block_size == block.len(),
            r.metrics.scheduling_ns == 0,
            r.metrics.validation_ns == 0,
            r.metrics.threads == 0,
            r.metrics.accepted_txs == accepted_count(outcome_models(r.outcomes@)),
            r.metrics.accepted_txs + r.metrics.rejected_txs == block.len(),
            r.metrics.conflicts_detected == 0,
            r.metrics.reexecutions == 0,
            r.metrics.final_state_hash@ == r.final_state_hash@,
            r.metrics.correct_vs_sequential == Some(true),
    {
        let started = now();
        let (state, outcomes, execution_ns, commit_ns) = run_in_order(initial_state, block);
        let final_state_hash = state.state_hash();
        let (accepted_txs, rejected_txs) = count_outcomes(outcomes.as_slice());
        let mut metrics = RunMetrics::empty();
        metrics.executor = String::from_str(self.name());
        metrics.block_size = block.len();
        metrics.elapsed_ns = nanos_since(&started);
        metrics.execution_ns = execution_ns;
        metrics.commit_ns = commit_ns;
        metrics.accepted_txs = accepted_txs;
        metrics.rejected_txs = rejected_txs;
        metrics.final_state_hash = final_state_hash.clone();
        metrics.correct_vs_sequential = Some(true);

        ExecutionReport { final_state: state, final_state_hash, outcomes, metrics }
    }
}

} // verus!
