//! The static scheduler: the block is cut, in order, into batches of
//! transactions whose declared keys do not conflict; each batch runs in
//! parallel against the state that the previous batches left.
use rayon::ThreadPool;
use vstd::prelude::*;
use vstd::string::StringExecFns;
use crate::executor::{Executor, accepted_count, count_outcomes, matches_reference, seq_run, ExecutionConfig, ExecutionReport};
use crate::hash::state_hash_spec;
use crate::laws::{
    all_declare_footprint, position_of, positions_nondecreasing, static_outcomes_cover_the_block, static_run_is_sequential,
    tx_position_of,
};
use crate::sorting::nondecreasing_by;
use crate::metrics::RunMetrics;
use crate::model::{outcome_models, DiffModel, OutcomeModel, TxExecution, TxOutcome};
use crate::parallel::{build_pool, execute_against};
use crate::sorting::{index_key_fn, lemma_sort_by_map, sort_by, sort_by_index};
use crate::state::{apply_diff_spec, State, StateModel};
use crate::timing::{nanos_since, now};
use crate::tx::{executes_as, tx_result};
use crate::keyset::{add_keys, count_common, distinct_keys, holds_set, shares_key};
use crate::model::{is_barrier_spec, tx_models, StateKey, Transaction, TxModel};

verus! {

/// Where batch building stands after some of the block: the finished
/// batches, the batch being filled, the keys it reads and writes, and the
/// conflicts counted so far.
pub struct BatchBuild {
    pub batches: Seq<Seq<TxModel>>,
    pub current: Seq<TxModel>,
    pub reads: Set<StateKey>,
    pub writes: Set<StateKey>,
    pub conflicts: nat,
}

/// How many of `tx`'s keys clash with a batch reading `reads` and writing
/// `writes`: its writes that the batch writes, its writes that the batch
/// reads, and its reads that the batch writes, each key counted once.
pub open spec fn batch_conflicts(tx: TxModel, reads: Set<StateKey>, writes: Set<StateKey>) -> nat {
    tx.writes.to_set().intersect(writes).len() + tx.writes.to_set().intersect(reads).len()
        + tx.reads.to_set().intersect(writes).len()
}

/// One step of batch building. A barrier closes the open batch (if any) and
/// forms a batch of its own. Another transaction that clashes with the open
/// batch closes it and opens a new one; otherwise it joins the open batch.
pub open spec fn batch_step(b: BatchBuild, tx: TxModel) -> BatchBuild {
    if is_barrier_spec(tx) {
        if b.current.len() > 0 {
            BatchBuild {
                batches: b.batches.push(b.current).push(seq![tx]),
                current: Seq::empty(),
                reads: Set::empty(),
                writes: Set::empty(),
                conflicts: b.conflicts,
            }
        } else {
            BatchBuild { batches: b.batches.push(seq![tx]), ..b }
        }
    } else {
        let c = batch_conflicts(tx, b.reads, b.writes);
        if c > 0 {
            BatchBuild {
                batches: b.batches.push(b.current),
                current: seq![tx],
                reads: tx.reads.to_set(),
                writes: tx.writes.to_set(),
                conflicts: b.conflicts + c,
            }
        } else {
            BatchBuild {
                batches: b.batches,
                current: b.current.push(tx),
                reads: b.reads.union(tx.reads.to_set()),
                writes: b.writes.union(tx.writes.to_set()),
                conflicts: b.conflicts,
            }
        }
    }
}

pub open spec fn batch_fold(txs: Seq<TxModel>) -> BatchBuild
    decreases txs.len(),
{
    if txs.len() == 0 {
        BatchBuild {
            batches: Seq::empty(),
            current: Seq::empty(),
            reads: Set::empty(),
            writes: Set::empty(),
            conflicts: 0,
        }
    } else {
        batch_step(batch_fold(txs.drop_last()), txs.last())
    }
}

/// The batches of a block.
pub open spec fn static_batches(txs: Seq<TxModel>) -> Seq<Seq<TxModel>> {
    let b = batch_fold(txs);
    if b.current.len() > 0 {
        b.batches.push(b.current)
    } else {
        b.batches
    }
}

/// The conflicts counted while building the batches of a block.
pub open spec fn conflict_count(txs: Seq<TxModel>) -> nat {
    batch_fold(txs).conflicts
}

/// `n`, or the largest `u64` if it does not fit.
pub open spec fn saturated(n: nat) -> u64 {
    if n > u64::MAX {
        u64::MAX
    } else {
        n as u64
    }
}

/// The views of a sequence of batches.
pub open spec fn batch_models(batches: Seq<Vec<Transaction>>) -> Seq<Seq<TxModel>> {
    batches.map_values(|b: Vec<Transaction>| tx_models(b@))
}

/// The batches of `block` and the number of conflicts counted (saturated at
/// the largest `u64`).
pub fn build_static_batches_with_conflicts(block: &[Transaction]) -> (r: (Vec<Vec<Transaction>>, u64))
    ensures
        batch_models(r.0@) == static_batches(tx_models(block@)),
        r.1 == saturated(conflict_count(tx_models(block@))),
{
    let ghost txs = tx_models(block@);
    let mut batches: Vec<Vec<Transaction>> = Vec::new();
    let mut current: Vec<Transaction> = Vec::new();
    let mut batch_reads: Vec<StateKey> = Vec::new();
    let mut batch_writes: Vec<StateKey> = Vec::new();
    let mut conflicts: u64 = 0;
    proof {
        assert(batch_models(batches@) =~= Seq::<Seq<TxModel>>::empty());
        assert(tx_models(current@) =~= Seq::<TxModel>::empty());
        assert(batch_reads@.to_set() =~= Set::<StateKey>::empty());
        assert(batch_writes@.to_set() =~= Set::<StateKey>::empty());
        assert(txs.take(0) =~= Seq::<TxModel>::empty());
    }
    for i in 0..block.len()
        invariant
            txs == tx_models(block@),
            batch_models(batches@) == batch_fold(txs.take(i as int)).batches,
            tx_models(current@) == batch_fold(txs.take(i as int)).current,
            holds_set(batch_reads@, batch_fold(txs.take(i as int)).reads),
            holds_set(batch_writes@, batch_fold(txs.take(i as int)).writes),
            conflicts == saturated(batch_fold(txs.take(i as int)).conflicts),
    {
        let tx = &block[i];
        let ghost before = batch_fold(txs.take(i as int));
        proof {
            assert(txs.take(i + 1).drop_last() =~= txs.take(i as int));
            assert(txs.take(i + 1).last() == tx@);
        }
        if tx.is_barrier() {
            if current.len() > 0 {
                batches.push(current);
                current = Vec::new();
                batch_reads.clear();
                batch_writes.clear();
                proof {
                    assert(batch_reads@.to_set() =~= Set::<StateKey>::empty());
                    assert(batch_writes@.to_set() =~= Set::<StateKey>::empty());
                    assert(tx_models(current@) =~= Seq::<TxModel>::empty());
                }
            }
            let alone = vec![tx.duplicate()];
            proof {
                assert(tx_models(alone@) =~= seq![tx@]);
            }
            batches.push(alone);
            proof {
                assert(batch_models(batches@) =~= batch_fold(txs.take(i + 1)).batches);
            }
        } else {
            let tx_reads = distinct_keys(&tx.declared_reads);
            let tx_writes = distinct_keys(&tx.declared_writes);
            let c1 = count_common(&tx_writes, &batch_writes);
            let c2 = count_common(&tx_writes, &batch_reads);
            let c3 = count_common(&tx_reads, &batch_writes);
            let batch_conflicts = c1.saturating_add(c2).saturating_add(c3);
            proof {
                assert(batch_conflicts == saturated(crate::executor::static_scheduler::batch_conflicts(
                    tx@,
                    before.reads,
                    before.writes,
                )));
            }
            if batch_conflicts > 0 {
                conflicts = conflicts.saturating_add(batch_conflicts);
                batches.push(current);
                current = vec![tx.duplicate()];
                batch_reads = tx_reads;
                batch_writes = tx_writes;
                proof {
                    assert(tx_models(current@) =~= seq![tx@]);
                    assert(batch_models(batches@) =~= batch_fold(txs.take(i + 1)).batches);
                }
            } else {
                add_keys(&mut batch_reads, &tx_reads);
                add_keys(&mut batch_writes, &tx_writes);
                current.push(tx.duplicate());
                proof {
                    assert(tx_models(current@) =~= before.current.push(tx@));
                }
            }
        }
    }
    proof {
        assert(txs.take(block@.len() as int) =~= txs);
    }
    if current.len() > 0 {
        batches.push(current);
        proof {
            assert(batch_models(batches@) =~= static_batches(txs));
        }
    }
    (batches, conflicts)
}

/// The batches of `block`.
pub fn build_static_batches(block: &[Transaction]) -> (r: Vec<Vec<Transaction>>)
    ensures
        batch_models(r@) == static_batches(tx_models(block@)),
{
    build_static_batches_with_conflicts(block).0
}

/// Whether two transactions conflict: either is a barrier, one writes a key
/// the other reads or writes, or they consume a common nullifier.
pub open spec fn conflict_spec(left: TxModel, right: TxModel) -> bool {
    ||| is_barrier_spec(left)
    ||| is_barrier_spec(right)
    ||| exists|k: StateKey| left.writes.contains(k) && right.writes.contains(k)
    ||| exists|k: StateKey| left.writes.contains(k) && right.reads.contains(k)
    ||| exists|k: StateKey| left.reads.contains(k) && right.writes.contains(k)
    ||| exists|n: u64| left.nullifiers.contains(n) && right.nullifiers.contains(n)
}

fn nullifier_overlap(left: &Transaction, right: &Transaction) -> (r: bool)
    ensures
        r == exists|n: u64| left@.nullifiers.contains(n) && right@.nullifiers.contains(n),
{
    let mut i: usize = 0;
    while i < left.consumed_nullifiers.len()
        invariant
            i <= left.consumed_nullifiers.len(),
            forall|j: int| 0 <= j < i ==> !right@.nullifiers.contains(#[trigger] left@.nullifiers[j]),
        decreases left.consumed_nullifiers.len() - i,
    {
        let n = left.consumed_nullifiers[i];
        let mut j: usize = 0;
        while j < right.consumed_nullifiers.len()
            invariant
                j <= right.consumed_nullifiers.len(),
                i < left.consumed_nullifiers.len(),
                n == left@.nullifiers[i as int],
                forall|m: int| 0 <= m < j ==> right@.nullifiers[m] != n,
            decreases right.consumed_nullifiers.len() - j,
        {
            if right.consumed_nullifiers[j] == n {
                proof {
                    assert(right@.nullifiers[j as int] == n);
                    assert(right@.nullifiers.contains(n));
                    assert(left@.nullifiers[i as int] == n);
                    assert(left@.nullifiers.contains(n));
                }
                return true;
            }
            j = j + 1;
        }
        proof {
            assert(!right@.nullifiers.contains(left@.nullifiers[i as int]));
        }
        i = i + 1;
    }
    proof {
        assert forall|n: u64| !(left@.nullifiers.contains(n) && right@.nullifiers.contains(n)) by {
            if left@.nullifiers.contains(n) {
                let j = choose|j: int| 0 <= j < left@.nullifiers.len() && left@.nullifiers[j] == n;
                assert(!right@.nullifiers.contains(left@.nullifiers[j]));
            }
        }
    }
    false
}

/// Whether `left` and `right` conflict (see `conflict_spec`).
pub fn conflict(left: &Transaction, right: &Transaction) -> (r: bool)
    ensures
        r == conflict_spec(left@, right@),
{
    if left.is_barrier() || right.is_barrier() {
        return true;
    }
    shares_key(&left.declared_writes, &right.declared_writes) || shares_key(
        &left.declared_writes,
        &right.declared_reads,
    ) || shares_key(&left.declared_reads, &right.declared_writes) || nullifier_overlap(left, right)
}

/// The position of the transaction an outcome is for.
pub open spec fn outcome_key() -> spec_fn(OutcomeModel) -> int {
    |o: OutcomeModel| o.index as int
}

/// The position of the transaction a result is for.
pub open spec fn result_key() -> spec_fn((OutcomeModel, DiffModel)) -> int {
    |r: (OutcomeModel, DiffModel)| r.0.index as int
}

/// Each transaction of a batch executed against the same state `s`.
pub open spec fn batch_results(batch: Seq<TxModel>, s: StateModel) -> Seq<(OutcomeModel, DiffModel)> {
    batch.map_values(|tx: TxModel| tx_result(tx, s))
}

/// Applying results' diffs in order from `s`: the state reached and the outcomes.
pub open spec fn apply_results(s: StateModel, rs: Seq<(OutcomeModel, DiffModel)>) -> (StateModel, Seq<OutcomeModel>)
    decreases rs.len(),
{
    if rs.len() == 0 {
        (s, Seq::empty())
    } else {
        let (mid, outs) = apply_results(s, rs.drop_last());
        (apply_diff_spec(mid, rs.last().1), outs.push(rs.last().0))
    }
}

/// Running batches in turn: each batch is executed against the state the
/// previous batches left, its results are put in order of position, and
/// their diffs applied in that order.
pub open spec fn static_fold(s: StateModel, batches: Seq<Seq<TxModel>>) -> (StateModel, Seq<OutcomeModel>)
    decreases batches.len(),
{
    if batches.len() == 0 {
        (s, Seq::empty())
    } else {
        let (mid, outs) = static_fold(s, batches.drop_last());
        let (fin, more) = apply_results(mid, sort_by(batch_results(batches.last(), mid), result_key()));
        (fin, outs + more)
    }
}

/// The static scheduler's run of a block: the final state, and the outcomes
/// put in order of position.
pub open spec fn static_run(s: StateModel, txs: Seq<TxModel>) -> (StateModel, Seq<OutcomeModel>) {
    let (fin, outs) = static_fold(s, static_batches(txs));
    (fin, sort_by(outs, outcome_key()))
}

/// The view of an execution's result.
pub open spec fn execution_result(e: TxExecution) -> (OutcomeModel, DiffModel) {
    (e.outcome@, e.diff@)
}

/// The results of a sequence of executions.
pub open spec fn execution_results(es: Seq<TxExecution>) -> Seq<(OutcomeModel, DiffModel)> {
    es.map_values(|e: TxExecution| execution_result(e))
}

/// Runs one batch against `state`, appending the outcomes.
fn run_batch(
    state: &mut State,
    outcomes: &mut Vec<TxOutcome>,
    batch: &Vec<Transaction>,
    pool: &Option<ThreadPool>,
) -> (r: (u128, u128))
    ensures
        final(state)@ == apply_results(
            old(state)@,
            sort_by(batch_results(tx_models(batch@), old(state)@), result_key()),
        ).0,
        outcome_models(final(outcomes)@) == outcome_models(old(outcomes)@) + apply_results(
            old(state)@,
            sort_by(batch_results(tx_models(batch@), old(state)@), result_key()),
        ).1,
{
    let ghost start = state@;
    let ghost outs_before = outcome_models(outcomes@);
    let snapshot = state.snapshot();
    let executions = execute_against(pool, batch.as_slice(), &snapshot);
    let ghost rs = batch_results(tx_models(batch@), start);
    proof {
        assert(execution_results(executions@) =~= rs) by {
            assert forall|i: int| 0 <= i < executions@.len() implies #[trigger] execution_results(executions@)[i]
                == rs[i] by {
                assert(executes_as(executions@[i], batch@[i]@, snapshot@));
            }
        }
    }
    let sorted = sort_by_index(executions);
    let ghost sorted_rs = sort_by(rs, result_key());
    proof {
        lemma_sort_by_map(
            executions@,
            index_key_fn::<TxExecution>(),
            |e: TxExecution| execution_result(e),
            result_key(),
        );
        assert(execution_results(sorted@) == sorted_rs);
        assert(sorted_rs.len() == sorted@.len());
    }
    let mut execution_ns: u128 = 0;
    let mut commit_ns: u128 = 0;
    for j in 0..sorted.len()
        invariant
            execution_results(sorted@) == sorted_rs,
            state@ == apply_results(start, sorted_rs.take(j as int)).0,
            outcome_models(outcomes@) == outs_before + apply_results(start, sorted_rs.take(j as int)).1,
    {
        proof {
            assert(sorted_rs.take(j + 1).drop_last() =~= sorted_rs.take(j as int));
            assert(sorted_rs.take(j + 1).last() == execution_result(sorted@[j as int]));
        }
        let execution = &sorted[j];
        let ghost prev = outcomes@;
        execution_ns = execution_ns.saturating_add(execution.execution_ns);
        let commit_started = now();
        let _ = state.apply_diff(&execution.diff);
        commit_ns = commit_ns.saturating_add(nanos_since(&commit_started));
        outcomes.push(execution.outcome.duplicate());
        proof {
            assert(apply_results(start, sorted_rs.take(j + 1)).1 == apply_results(start, sorted_rs.take(j as int)).1.push(
                sorted@[j as int].outcome@,
            ));
            assert(outcome_models(outcomes@) =~= outcome_models(prev).push(sorted@[j as int].outcome@));
            assert(outcome_models(outcomes@) =~= outs_before + apply_results(start, sorted_rs.take(j + 1)).1);
        }
    }
    proof {
        assert(sorted_rs.take(sorted@.len() as int) =~= sorted_rs);
    }
    (execution_ns, commit_ns)
}

/// Runs the batches in turn from `initial_state`.
fn run_batches(initial_state: &State, batches: &Vec<Vec<Transaction>>, pool: &Option<ThreadPool>) -> (r: (
    State,
    Vec<TxOutcome>,
    u128,
    u128,
))
    ensures
        r.0@ == static_fold(initial_state@, batch_models(batches@)).0,
        outcome_models(r.1@) == static_fold(initial_state@, batch_models(batches@)).1,
{
    let ghost bm = batch_models(batches@);
    let mut state = initial_state.snapshot();
    let mut outcomes: Vec<TxOutcome> = Vec::new();
    let mut execution_ns: u128 = 0;
    let mut commit_ns: u128 = 0;
    proof {
        assert(outcome_models(outcomes@) =~= Seq::<OutcomeModel>::empty());
    }
    for b in 0..batches.len()
        invariant
            bm == batch_models(batches@),
            state@ == static_fold(initial_state@, bm.take(b as int)).0,
            outcome_models(outcomes@) == static_fold(initial_state@, bm.take(b as int)).1,
    {
        proof {
            assert(bm.take(b + 1).drop_last() =~= bm.take(b as int));
            assert(bm.take(b + 1).last() == tx_models(batches@[b as int]@));
        }
        let (e, c) = run_batch(&mut state, &mut outcomes, &batches[b], pool);
        execution_ns = execution_ns.saturating_add(e);
        commit_ns = commit_ns.saturating_add(c);
    }
    proof {
        assert(bm.take(batches@.len() as int) =~= bm);
    }
    (state, outcomes, execution_ns, commit_ns)
}

/// Puts outcomes in order of position, keeping the order of equal positions.
fn order_outcomes(outcomes: Vec<TxOutcome>) -> (r: Vec<TxOutcome>)
    ensures
        outcome_models(r@) == sort_by(outcome_models(outcomes@), outcome_key()),
{
    let ghost before = outcomes@;
    let sorted = sort_by_index(outcomes);
    proof {
        lemma_sort_by_map(before, index_key_fn::<TxOutcome>(), |o: TxOutcome| o@, outcome_key());
        assert(outcome_models(sorted@) =~= sort_by(before, index_key_fn::<TxOutcome>()).map_values(|o: TxOutcome| o@));
        assert(outcome_models(before) =~= before.map_values(|o: TxOutcome| o@));
    }
    sorted
}

pub struct StaticSchedulerExecutor;

impl Executor for StaticSchedulerExecutor {
    fn name(&self) -> (r: &'static str)
        ensures
            r@ == "static"@,
    {
        "static"
    }

    /// Cuts `block` into batches (see `build_static_batches`), runs each
    /// batch in parallel against the state the previous batches left,
    /// applies the batch's diffs in order of transaction position, and
    /// finally orders all outcomes by position. The report says whether the
    /// fingerprint and outcomes equal those of the sequential run.
    fn execute(&self, initial_state: &State, block: &[Transaction], config: &ExecutionConfig) -> (r:
        ExecutionReport)
        ensures
            r.final_state@ == static_run(initial_state@, tx_models(block@)).0,
            outcome_models(r.outcomes@) == static_run(initial_state@, tx_models(block@)).1,
            r.outcomes.len() == block.len(),
            nondecreasing_by(outcome_models(r.outcomes@), outcome_key()),
            outcome_models(r.outcomes@).map_values(position_of()).to_multiset() == tx_models(block@).map_values(
                tx_position_of(),
            ).to_multiset(),
            r.final_state_hash@ == state_hash_spec(r.final_state@),
            r.metrics.executor@ == "static"@,
            r.metrics.block_size == block.len(),
            r.metrics.validation_ns == 0,
            r.metrics.threads == config.threads,
            r.metrics.conflicts_detected == saturated(conflict_count(tx_models(block@))),
            r.metrics.reexecutions == 0,
            r.metrics.accepted_txs == accepted_count(outcome_models(r.outcomes@)),
            r.metrics.accepted_txs + r.metrics.rejected_txs == r.outcomes.len(),
            r.metrics.final_state_hash@ == r.final_state_hash@,
            r.metrics.correct_vs_sequential == Some(
                r.final_state_hash@ == state_hash_spec(seq_run(initial_state@, tx_models(block@)).0)
                    && outcome_models(r.outcomes@) == seq_run(initial_state@, tx_models(block@)).1,
            ),
            all_declare_footprint(tx_models(block@)) && positions_nondecreasing(tx_models(block@)) ==> r.metrics.correct_vs_sequential == Some(true),
    {
        let started = now();
        let scheduling_started = now();
        let (batches, conflicts_detected) = build_static_batches_with_conflicts(block);
        let scheduling_ns = nanos_since(&scheduling_started);

        let threads = if config.threads > 1 {
            config.threads
        } else {
            1
        };
        let pool = build_pool(threads);
        let (state, outcomes, execution_ns, commit_ns) = run_batches(initial_state, &batches, &pool);
        let outcomes = order_outcomes(outcomes);

        let final_state_hash = state.state_hash();
        let elapsed_ns = nanos_since(&started);
        let correct = matches_reference(initial_state, block, &final_state_hash, &outcomes);
        let (accepted_txs, rejected_txs) = count_outcomes(outcomes.as_slice());
        let mut metrics = RunMetrics::empty();
        metrics.executor = String::from_str(self.name());
        metrics.block_size = block.len();
        metrics.threads = config.threads;
        metrics.elapsed_ns = elapsed_ns;
        metrics.scheduling_ns = scheduling_ns;
        metrics.execution_ns = execution_ns;
        metrics.commit_ns = commit_ns;
        metrics.conflicts_detected = conflicts_detected;
        metrics.accepted_txs = accepted_txs;
        metrics.rejected_txs = rejected_txs;
        metrics.final_state_hash = final_state_hash.clone();
        metrics.correct_vs_sequential = Some(correct);

        proof {
            static_outcomes_cover_the_block(initial_state@, tx_models(block@));
            if all_declare_footprint(tx_models(block@)) && positions_nondecreasing(tx_models(block@)) {
                static_run_is_sequential(initial_state@, tx_models(block@));
            }
        }
        ExecutionReport { final_state: state, final_state_hash, outcomes, metrics }
    }
}

} // verus!
