//! What a run of an executor measured.
use vstd::prelude::*;

verus! {

/// The measurements of one run. Times are in nanoseconds; a time that is
/// not measured by the executor stays 0.
#[derive(Debug, Clone)]
pub struct RunMetrics {
    pub run_id: String,
    pub seed: u64,
    pub executor: String,
    pub workload: String,
    pub block_size: usize,
    pub num_accounts: usize,
    pub threads: usize,
    pub compute_cost: u64,
    pub elapsed_ns: u128,
    pub scheduling_ns: u128,
    pub execution_ns: u128,
    pub validation_ns: u128,
    pub commit_ns: u128,
    pub conflicts_detected: u64,
    pub reexecutions: u64,
    pub accepted_txs: usize,
    pub rejected_txs: usize,
    pub final_state_hash: String,
    pub correct_vs_sequential: Option<bool>,
}

/// The run's labels are not filled in: no run id, seed, workload, account
/// count or compute cost. The caller that knows them sets them.
pub open spec fn unlabelled(m: RunMetrics) -> bool {
    &&& m.run_id@ == Seq::<char>::empty()
    &&& m.seed == 0
    &&& m.workload@ == Seq::<char>::empty()
    &&& m.num_accounts == 0
    &&& m.compute_cost == 0
}

impl RunMetrics {
    /// Metrics with every count and time 0 and every text empty.
    pub fn empty() -> (r: Self)
        ensures
            r.run_id@ == Seq::<char>::empty(),
            r.seed == 0,
            r.executor@ == Seq::<char>::empty(),
            r.workload@ == Seq::<char>::empty(),
            r.block_size == 0,
            r.num_accounts == 0,
            r.threads == 0,
            r.compute_cost == 0,
            r.elapsed_ns == 0,
            r.scheduling_ns == 0,
            r.execution_ns == 0,
            r.validation_ns == 0,
            r.commit_ns == 0,
            r.conflicts_detected == 0,
            r.reexecutions == 0,
            r.accepted_txs == 0,
            r.rejected_txs == 0,
            r.final_state_hash@ == Seq::<char>::empty(),
            r.correct_vs_sequential is None,
    {
        RunMetrics {
            run_id: String::new(),
            seed: 0,
            executor: String::new(),
            workload: String::new(),
            block_size: 0,
            num_accounts: 0,
            threads: 0,
            compute_cost: 0,
            elapsed_ns: 0,
            scheduling_ns: 0,
            execution_ns: 0,
            validation_ns: 0,
            commit_ns: 0,
            conflicts_detected: 0,
            reexecutions: 0,
            accepted_txs: 0,
            rejected_txs: 0,
            final_state_hash: String::new(),
            correct_vs_sequential: None,
        }
    }
}

impl Default for RunMetrics {
    fn default() -> (r: Self)
        ensures
            r.block_size == 0,
            r.threads == 0,
            r.correct_vs_sequential is None,
    {
        RunMetrics::empty()
    }
}

} // verus!
