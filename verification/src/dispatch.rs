//! Choosing a workload generator or an executor by its name.
use vstd::prelude::*;
use crate::executor::{
    accepted_count, seq_run, ExecutionConfig, ExecutionReport, Executor, OptimisticExecutor, SequentialExecutor,
    StaticSchedulerExecutor,
};
use crate::hash::state_hash_spec;
use crate::laws::runs_as_sequential;
use crate::metrics::unlabelled;
use crate::model::{outcome_models, tx_models, Transaction};
use crate::state::State;
use crate::text::same_text;
use crate::workload::hotspot::HotspotWorkload;
use crate::workload::no_conflict::NoConflictWorkload;
use crate::workload::private_state::PrivateStateWorkload;
use crate::workload::token_transfer::TokenTransferWorkload;
use crate::workload::{funded_state, WorkloadConfig, WorkloadGenerator, WorkloadScenario};

verus! {

/// The workloads the benchmark knows.
#[derive(Debug, Clone, Copy, PartialEq, Eq, Structural)]
pub enum WorkloadKind {
    NoConflict,
    Hotspot,
    Zipfian,
    TokenTransfer,
    PrivateState,
}

/// The executors the benchmark knows.
#[derive(Debug, Clone, Copy, PartialEq, Eq, Structural)]
pub enum ExecutorKind {
    Sequential,
    Static,
    Optimistic,
}

/// The workload a name selects, if any.
pub open spec fn workload_kind_spec(name: Seq<char>) -> Option<WorkloadKind> {
    if name == "no-conflict"@ {
        Some(WorkloadKind::NoConflict)
    } else if name == "hotspot"@ {
        Some(WorkloadKind::Hotspot)
    } else if name == "zipfian"@ {
        Some(WorkloadKind::Zipfian)
    } else if name == "token-transfer"@ {
        Some(WorkloadKind::TokenTransfer)
    } else if name == "private-state"@ {
        Some(WorkloadKind::PrivateState)
    } else {
        None
    }
}

/// The executor a name selects, if any.
pub open spec fn executor_kind_spec(name: Seq<char>) -> Option<ExecutorKind> {
    if name == "sequential"@ {
        Some(ExecutorKind::Sequential)
    } else if name == "static"@ {
        Some(ExecutorKind::Static)
    } else if name == "optimistic"@ {
        Some(ExecutorKind::Optimistic)
    } else {
        None
    }
}

/// The name of a workload.
pub open spec fn workload_kind_name(k: WorkloadKind) -> Seq<char> {
    match k {
        WorkloadKind::NoConflict => "no-conflict"@,
        WorkloadKind::Hotspot => "hotspot"@,
        WorkloadKind::Zipfian => "zipfian"@,
        WorkloadKind::TokenTransfer => "token-transfer"@,
        WorkloadKind::PrivateState => "private-state"@,
    }
}

/// The workload named `name`, if there is one.
pub fn workload_kind(name: &str) -> (r: Option<WorkloadKind>)
    ensures
        r == workload_kind_spec(name@),
{
    if same_text(name, "no-conflict") {
        Some(WorkloadKind::NoConflict)
    } else if same_text(name, "hotspot") {
        Some(WorkloadKind::Hotspot)
    } else if same_text(name, "zipfian") {
        Some(WorkloadKind::Zipfian)
    } else if same_text(name, "token-transfer") {
        Some(WorkloadKind::TokenTransfer)
    } else if same_text(name, "private-state") {
        Some(WorkloadKind::PrivateState)
    } else {
        None
    }
}

/// The executor named `name`, if there is one.
pub fn executor_kind(name: &str) -> (r: Option<ExecutorKind>)
    ensures
        r == executor_kind_spec(name@),
{
    if same_text(name, "sequential") {
        Some(ExecutorKind::Sequential)
    } else if same_text(name, "static") {
        Some(ExecutorKind::Static)
    } else if same_text(name, "optimistic") {
        Some(ExecutorKind::Optimistic)
    } else {
        None
    }
}

/// Generates workload `kind`; the Zipfian one comes from `zipfian`, whose
/// weights are floating point. The others are built here, named after
/// their kind, with the block size asked for, from a funded state, and run
/// by both parallel executors as the sequential one runs them.
pub fn generate_workload<Z: WorkloadGenerator>(kind: WorkloadKind, config: &WorkloadConfig, zipfian: &Z) -> (r:
    WorkloadScenario)
    requires
        config.block_size <= usize::MAX / 4,
    ensures
        kind != WorkloadKind::Zipfian ==> {
            &&& r.name@ == workload_kind_name(kind)
            &&& r.block.len() == config.block_size
            &&& r.initial_state@ == funded_state(r.accounts as nat)
            &&& runs_as_sequential(r.initial_state@, tx_models(r.block@))
        },
{
    match kind {
        WorkloadKind::NoConflict => NoConflictWorkload.generate(config),
        WorkloadKind::Hotspot => HotspotWorkload.generate(config),
        WorkloadKind::Zipfian => zipfian.generate(config),
        WorkloadKind::TokenTransfer => TokenTransferWorkload.generate(config),
        WorkloadKind::PrivateState => PrivateStateWorkload.generate(config),
    }
}

/// Runs `block` from `initial_state` on executor `kind`. The report holds
/// all that every executor promises, names the executor, and says the run
/// agrees with the sequential one on a block that runs as it does.
pub fn run_executor(kind: ExecutorKind, initial_state: &State, block: &[Transaction], config: &ExecutionConfig) -> (r:
    ExecutionReport)
    ensures
        r.final_state_hash@ == state_hash_spec(r.final_state@),
        r.metrics.block_size == block.len(),
        unlabelled(r.metrics),
        r.metrics.final_state_hash@ == r.final_state_hash@,
        r.metrics.accepted_txs == accepted_count(outcome_models(r.outcomes@)),
        r.metrics.accepted_txs + r.metrics.rejected_txs == r.outcomes.len(),
        r.metrics.correct_vs_sequential == Some(
            r.final_state_hash@ == state_hash_spec(seq_run(initial_state@, tx_models(block@)).0)
                && outcome_models(r.outcomes@) == seq_run(initial_state@, tx_models(block@)).1,
        ),
        runs_as_sequential(initial_state@, tx_models(block@)) ==> r.metrics.correct_vs_sequential == Some(true),
        r.metrics.executor@ == match kind {
            ExecutorKind::Sequential => "sequential"@,
            ExecutorKind::Static => "static"@,
            ExecutorKind::Optimistic => "optimistic"@,
        },
{
    match kind {
        ExecutorKind::Sequential => SequentialExecutor.execute(initial_state, block, config),
        ExecutorKind::Static => StaticSchedulerExecutor.execute(initial_state, block, config),
        ExecutorKind::Optimistic => OptimisticExecutor.execute(initial_state, block, config),
    }
}

} // verus!
