//! The optimistic executor: every transaction is first executed in parallel
//! against the initial state; then, in block order, each speculative result
//! is kept if every version it read is still current, and is otherwise
//! replaced by a fresh execution against the current state.
use vstd::prelude::*;
use vstd::string::StringExecFns;
use crate::executor::{Executor, accepted_count, count_outcomes, matches_reference, seq_run, ExecutionConfig, ExecutionReport};
use crate::hash::state_hash_spec;
use crate::laws::{all_declare_footprint, optimistic_run_is_sequential, versions_have_room};
use crate::metrics::RunMetrics;
use crate::model::{outcome_models, tx_models, OutcomeModel, Transaction, TxModel, TxOutcome};
use crate::parallel::{build_pool, execute_against};
use crate::state::{apply_diff_spec, State, StateModel};
use crate::timing::{nanos_since, now};
use crate::tx::{execute_transaction, executes_as, read_versions_still_valid, tx_result, versions_current, versions_of};

verus! {

/// The optimistic run of `txs` from `current`, with speculation against
/// `initial`: the state reached, the outcomes, and how many transactions
/// had to be executed again.
pub open spec fn optimistic_fold(initial: StateModel, txs: Seq<TxModel>) -> (StateModel, Seq<OutcomeModel>, nat)
    decreases txs.len(),
{
    if txs.len() == 0 {
        (initial, Seq::empty(), 0)
    } else {
        let (mid, outs, n) = optimistic_fold(initial, txs.drop_last());
        let tx = txs.last();
        if versions_current(versions_of(tx.reads, initial.versions), mid.versions) {
            let (o, d) = tx_result(tx, initial);
            (apply_diff_spec(mid, d), outs.push(o), n)
        } else {
            let (o, d) = tx_result(tx, mid);
            (apply_diff_spec(mid, d), outs.push(o), n + 1)
        }
    }
}

pub proof fn lemma_optimistic_fold_counts(initial: StateModel, txs: Seq<TxModel>)
    ensures
        optimistic_fold(initial, txs).2 <= txs.len(),
        optimistic_fold(initial, txs).1.len() == txs.len(),
    decreases txs.len(),
{
    if txs.len() > 0 {
        lemma_optimistic_fold_counts(initial, txs.drop_last());
    }
}

/// Validates and commits the speculative executions in block order.
fn commit_in_order(
    initial_state: &State,
    block: &[Transaction],
    speculative: &Vec<crate::model::TxExecution>,
) -> (r: (State, Vec<TxOutcome>, u64, u128, u128, u128))
    requires
        speculative.len() == block.len(),
        forall|i: int| 0 <= i < block.len() ==> executes_as(#[trigger] speculative@[i], block@[i]@, initial_state@),
    ensures
        r.0@ == optimistic_fold(initial_state@, tx_models(block@)).0,
        outcome_models(r.1@) == optimistic_fold(initial_state@, tx_models(block@)).1,
        r.2 == optimistic_fold(initial_state@, tx_models(block@)).2,
{
    let ghost txs = tx_models(block@);
    let ghost s0 = initial_state@;
    let mut state = initial_state.snapshot();
    let mut outcomes: Vec<TxOutcome> = Vec::with_capacity(block.len());
    let mut reexecutions: u64 = 0;
    let mut execution_ns: u128 = 0;
    let mut validation_ns: u128 = 0;
    let mut commit_ns: u128 = 0;
    proof {
        assert(outcome_models(outcomes@) =~= Seq::<OutcomeModel>::empty());
    }
    for i in 0..block.len()
        invariant
            txs == tx_models(block@),
            s0 == initial_state@,
            speculative.len() == block.len(),
            forall|j: int| 0 <= j < block.len() ==> executes_as(#[trigger] speculative@[j], block@[j]@, s0),
            state@ == optimistic_fold(s0, txs.take(i as int)).0,
            outcome_models(outcomes@) == optimistic_fold(s0, txs.take(i as int)).1,
            reexecutions == optimistic_fold(s0, txs.take(i as int)).2,
    {
        proof {
            assert(txs.take(i + 1).drop_last() =~= txs.take(i as int));
            assert(txs.take(i + 1).last() == block@[i as int]@);
            lemma_optimistic_fold_counts(s0, txs.take(i as int));
            assert(executes_as(speculative@[i as int], block@[i as int]@, s0));
        }
        let ghost prev = outcomes@;
        let speculative_execution = &speculative[i];
        let validation_started = now();
        let valid = read_versions_still_valid(speculative_execution, &state);
        validation_ns = validation_ns.saturating_add(nanos_since(&validation_started));
        if valid {
            let commit_started = now();
            let _ = state.apply_diff(&speculative_execution.diff);
            commit_ns = commit_ns.saturating_add(nanos_since(&commit_started));
            outcomes.push(speculative_execution.outcome.duplicate());
        } else {
            reexecutions = reexecutions + 1;
            let fresh = execute_transaction(&block[i], &state);
            execution_ns = execution_ns.saturating_add(fresh.execution_ns);
            let commit_started = now();
            let _ = state.apply_diff(&fresh.diff);
            commit_ns = commit_ns.saturating_add(nanos_since(&commit_started));
            outcomes.push(fresh.outcome);
        }
        proof {
            assert(outcome_models(outcomes@) =~= outcome_models(prev).push(outcomes@[i as int]@));
            assert(outcome_models(outcomes@) =~= optimistic_fold(s0, txs.take(i + 1)).1);
        }
    }
    proof {
        assert(txs.take(block@.len() as int) =~= txs);
    }
    (state, outcomes, reexecutions, execution_ns, validation_ns, commit_ns)
}

pub struct OptimisticExecutor;

impl Executor for OptimisticExecutor {
    fn name(&self) -> (r: &'static str)
        ensures
            r@ == "optimistic"@,
    {
        "optimistic"
    }

    /// Executes every transaction of `block` in parallel against the
    /// initial state, then commits them in block order, executing again
    /// against the current state each one whose read versions changed. The
    /// report says whether the fingerprint and outcomes equal those of the
    /// sequential run.
    fn execute(&self, initial_state: &State, block: &[Transaction], config: &ExecutionConfig) -> (r:
        ExecutionReport)
        ensures
            r.final_state@ == optimistic_fold(initial_state@, tx_models(block@)).0,
            outcome_models(r.outcomes@) == optimistic_fold(initial_state@, tx_models(block@)).1,
            r.final_state_hash@ == state_hash_spec(r.final_state@),
            r.metrics.executor@ == "optimistic"@,
            r.metrics.block_size == block.len(),
            r.metrics.scheduling_ns == 0,
            r.metrics.threads == config.threads,
            r.metrics.conflicts_detected == 0,
            r.metrics.reexecutions == optimistic_fold(initial_state@, tx_models(block@)).2,
            r.metrics.accepted_txs == accepted_count(outcome_models(r.outcomes@)),
            r.metrics.accepted_txs + r.metrics.rejected_txs == r.outcomes.len(),
            r.metrics.final_state_hash@ == r.final_state_hash@,
            r.metrics.correct_vs_sequential == Some(
                r.final_state_hash@ == state_hash_spec(seq_run(initial_state@, tx_models(block@)).0)
                    && outcome_models(r.outcomes@) == seq_run(initial_state@, tx_models(block@)).1,
            ),
            all_declare_footprint(tx_models(block@)) && versions_have_room(initial_state@, tx_models(block@)) ==> r.metrics.correct_vs_sequential == Some(true),
    {
        let started = now();
        let threads = if config.threads > 1 {
            config.threads
        } else {
            1
        };
        let pool = build_pool(threads);
        let snapshot = initial_state.snapshot();
        let speculative = execute_against(&pool, block, &snapshot);
        let mut execution_ns: u128 = 0;
        for i in 0..speculative.len() {
            execution_ns = execution_ns.saturating_add(speculative[i].execution_ns);
        }

        let (state, outcomes, reexecutions, fresh_ns, validation_ns, commit_ns) = commit_in_order(
            initial_state,
            block,
            &speculative,
        );
        execution_ns = execution_ns.saturating_add(fresh_ns);

        let final_state_hash = state.state_hash();
        let elapsed_ns = nanos_since(&started);
        let correct = matches_reference(initial_state, block, &final_state_hash, &outcomes);
        let (accepted_txs, rejected_txs) = count_outcomes(outcomes.as_slice());
        let mut metrics = RunMetrics::empty();
        metrics.executor = String::from_str(self.name());
        metrics.block_size = block.len();
        metrics.threads = config.threads;
        metrics.elapsed_ns = elapsed_ns;
        metrics.execution_ns = execution_ns;
        metrics.validation_ns = validation_ns;
        metrics.commit_ns = commit_ns;
        metrics.reexecutions = reexecutions;
        metrics.accepted_txs = accepted_txs;
        metrics.rejected_txs = rejected_txs;
        metrics.final_state_hash = final_state_hash.clone();
        metrics.correct_vs_sequential = Some(correct);

        proof {
            if all_declare_footprint(tx_models(block@)) && versions_have_room(initial_state@, tx_models(block@)) {
                optimistic_run_is_sequential(initial_state@, tx_models(block@));
            }
        }
        ExecutionReport { final_state: state, final_state_hash, outcomes, metrics }
    }
}

} // verus!
