//! Reading the benchmark's command-line lists, and labelling its runs.
use vstd::prelude::*;
use vstd::string::StringExecFns;
use crate::dispatch::{
    executor_kind, executor_kind_spec, generate_workload, run_executor, workload_kind, workload_kind_name,
    workload_kind_spec, ExecutorKind, WorkloadKind,
};
use crate::executor::ExecutionConfig;
use crate::metrics::RunMetrics;
use crate::workload::{workload_names, WorkloadConfig, WorkloadGenerator, WorkloadScenario};
use crate::text::{comma_pieces, decimal_chars, decimal_string, parse_usize, parse_usize_spec, same_text, split_trimmed,
    trimmed};

verus! {

/// The names listed in a selection: the pieces between commas, trimmed.
pub open spec fn listed_names(selection: Seq<char>) -> Seq<Seq<char>> {
    comma_pieces(selection).map_values(|p: Seq<char>| trimmed(p))
}

/// The executors a selection names: all three for "all", else the listed names.
pub fn executor_names(selection: &str) -> (r: Vec<String>)
    ensures
        r@.map_values(|n: String| n@) == (if selection@ == "all"@ {
            seq!["sequential"@, "static"@, "optimistic"@]
        } else {
            listed_names(selection@)
        }),
{
    if same_text(selection, "all") {
        let r = vec![String::from_str("sequential"), String::from_str("static"), String::from_str("optimistic")];
        proof {
            assert(r@.map_values(|n: String| n@) =~= seq!["sequential"@, "static"@, "optimistic"@]);
        }
        r
    } else {
        split_trimmed(selection)
    }
}

/// The numbers among `pieces`, in order: each piece that parses as a
/// `usize`, and nothing for the others.
pub open spec fn parsed_numbers(pieces: Seq<Seq<char>>) -> Seq<usize>
    decreases pieces.len(),
{
    if pieces.len() == 0 {
        Seq::empty()
    } else {
        let before = parsed_numbers(pieces.drop_last());
        match parse_usize_spec(pieces.last()) {
            Some(n) => before.push(n),
            None => before,
        }
    }
}

/// The numbers in a comma-separated list; pieces that are not numbers are
/// left out.
pub fn parse_usize_list(input: &str) -> (r: Vec<usize>)
    ensures
        r@ == parsed_numbers(listed_names(input@)),
{
    let pieces = split_trimmed(input);
    let ghost names = listed_names(input@);
    let mut r: Vec<usize> = Vec::new();
    for i in 0..pieces.len()
        invariant
            pieces@.map_values(|p: String| p@) == names,
            r@ == parsed_numbers(names.take(i as int)),
    {
        proof {
            assert(names.take(i + 1).drop_last() =~= names.take(i as int));
            assert(names.take(i + 1).last() == pieces@[i as int]@);
        }
        match parse_usize(pieces[i].as_str()) {
            Some(n) => {
                r.push(n);
            },
            None => {},
        }
    }
    proof {
        assert(names.take(names.len() as int) =~= names);
    }
    r
}

/// The label of one run: repetition, workload, executor, threads and block
/// size, separated by hyphens.
pub open spec fn run_label(
    repetition: usize,
    workload: Seq<char>,
    executor: Seq<char>,
    threads: usize,
    block_size: usize,
) -> Seq<char> {
    decimal_chars(repetition as nat) + "-"@ + workload + "-"@ + executor + "-"@ + decimal_chars(threads as nat)
        + "-"@ + decimal_chars(block_size as nat)
}

/// The label of one run, as `run_label` spells it.
pub fn run_id(repetition: usize, workload: &str, executor: &str, threads: usize, block_size: usize) -> (r: String)
    ensures
        r@ == run_label(repetition, workload@, executor@, threads, block_size),
{
    let mut r = decimal_string(repetition as u64);
    r.append("-");
    r.append(workload);
    r.append("-");
    r.append(executor);
    r.append("-");
    let t = decimal_string(threads as u64);
    r.append(t.as_str());
    r.append("-");
    let b = decimal_string(block_size as u64);
    r.append(b.as_str());
    r
}

/// The seed of repetition `repetition` of a benchmark seeded with `seed`.
pub fn repetition_seed(seed: u64, repetition: usize) -> (r: u64)
    requires
        seed + repetition <= u64::MAX,
    ensures
        r == seed + repetition,
{
    seed + repetition as u64
}

/// Fills in the labels of one run's metrics: its id, the workload's seed,
/// the executor's name, the scenario's name, size and accounts, the threads
/// and compute cost asked for, and the final fingerprint. Every
/// measurement stays as the executor left it.
pub fn label_run(
    metrics: &mut RunMetrics,
    repetition: usize,
    seed: u64,
    workload_name: &str,
    executor_name: &str,
    scenario: &WorkloadScenario,
    threads: usize,
    block_size: usize,
    compute_cost: u64,
    final_state_hash: &String,
)
    ensures
        final(metrics).run_id@ == run_label(repetition, workload_name@, executor_name@, threads, block_size),
        final(metrics).seed == seed,
        final(metrics).executor@ == executor_name@,
        final(metrics).workload@ == scenario.name@,
        final(metrics).block_size == scenario.block.len(),
        final(metrics).num_accounts == scenario.accounts,
        final(metrics).threads == threads,
        final(metrics).compute_cost == compute_cost,
        final(metrics).final_state_hash@ == final_state_hash@,
        final(metrics).elapsed_ns == old(metrics).elapsed_ns,
        final(metrics).scheduling_ns == old(metrics).scheduling_ns,
        final(metrics).execution_ns == old(metrics).execution_ns,
        final(metrics).validation_ns == old(metrics).validation_ns,
        final(metrics).commit_ns == old(metrics).commit_ns,
        final(metrics).conflicts_detected == old(metrics).conflicts_detected,
        final(metrics).reexecutions == old(metrics).reexecutions,
        final(metrics).accepted_txs == old(metrics).accepted_txs,
        final(metrics).rejected_txs == old(metrics).rejected_txs,
        final(metrics).correct_vs_sequential == old(metrics).correct_vs_sequential,
{
    metrics.run_id = run_id(repetition, workload_name, executor_name, threads, block_size);
    metrics.seed = seed;
    metrics.executor = String::from_str(executor_name);
    metrics.workload = scenario.name.clone();
    metrics.block_size = scenario.block.len();
    metrics.num_accounts = scenario.accounts;
    metrics.threads = threads;
    metrics.compute_cost = compute_cost;
    metrics.final_state_hash = final_state_hash.clone();
}

/// The integer settings of a benchmark run: which executors and workloads
/// (a comma-separated list, or "all"), the block size, accounts, threads,
/// first seed, compute cost, number of repetitions, and the duplicate
/// threshold of the private-state workload (out of 2^53).
#[derive(Debug, Clone)]
pub struct BenchmarkPlan {
    pub executor: String,
    pub workload: String,
    pub block_size: usize,
    pub accounts: usize,
    pub threads: usize,
    pub seed: u64,
    pub compute_cost: u64,
    pub repetitions: usize,
    pub duplicate_nullifier_threshold: u64,
}

/// A benchmark plan as the contracts see it.
pub struct PlanModel {
    pub executor: Seq<char>,
    pub workload: Seq<char>,
    pub block_size: usize,
    pub accounts: usize,
    pub threads: usize,
    pub seed: u64,
    pub compute_cost: u64,
    pub repetitions: usize,
    pub duplicate_nullifier_threshold: u64,
}

impl View for BenchmarkPlan {
    type V = PlanModel;

    open spec fn view(&self) -> PlanModel {
        PlanModel {
            executor: self.executor@,
            workload: self.workload@,
            block_size: self.block_size,
            accounts: self.accounts,
            threads: self.threads,
            seed: self.seed,
            compute_cost: self.compute_cost,
            repetitions: self.repetitions,
            duplicate_nullifier_threshold: self.duplicate_nullifier_threshold,
        }
    }
}

/// The workloads a selection names.
pub open spec fn workload_list(selection: Seq<char>) -> Seq<Seq<char>> {
    if selection == "all"@ {
        seq!["no-conflict"@, "hotspot"@, "zipfian"@, "token-transfer"@, "private-state"@]
    } else {
        listed_names(selection)
    }
}

/// The executors a selection names.
pub open spec fn executor_list(selection: Seq<char>) -> Seq<Seq<char>> {
    if selection == "all"@ {
        seq!["sequential"@, "static"@, "optimistic"@]
    } else {
        listed_names(selection)
    }
}

/// The first name that names no workload.
pub open spec fn first_unknown_workload(names: Seq<Seq<char>>) -> Option<Seq<char>>
    decreases names.len(),
{
    if names.len() == 0 {
        None
    } else if workload_kind_spec(names[0]) is None {
        Some(names[0])
    } else {
        first_unknown_workload(names.drop_first())
    }
}

/// The first name that names no executor.
pub open spec fn first_unknown_executor(names: Seq<Seq<char>>) -> Option<Seq<char>>
    decreases names.len(),
{
    if names.len() == 0 {
        None
    } else if executor_kind_spec(names[0]) is None {
        Some(names[0])
    } else {
        first_unknown_executor(names.drop_first())
    }
}

/// Why a plan cannot run, if it cannot: the first unknown name that the
/// runs meet in their order. Workloads come in turn, and the first known
/// one runs every executor; with no repetition nothing is run or checked.
pub open spec fn plan_error(plan: PlanModel) -> Option<Seq<char>> {
    let ws = workload_list(plan.workload);
    let es = executor_list(plan.executor);
    if plan.repetitions == 0 || ws.len() == 0 {
        None
    } else if workload_kind_spec(ws[0]) is None {
        Some("unknown workload: "@ + ws[0])
    } else if first_unknown_executor(es) is Some {
        Some("unknown executor: "@ + first_unknown_executor(es)->0)
    } else if first_unknown_workload(ws) is Some {
        Some("unknown workload: "@ + first_unknown_workload(ws)->0)
    } else {
        None
    }
}

/// Where the row of repetition `rep`, workload `w` and executor `e` stands
/// among the rows, with `wn` workloads and `en` executors.
pub open spec fn row_index(rep: int, w: int, e: int, wn: int, en: int) -> int {
    (rep * wn + w) * en + e
}

/// The number of rows of a plan.
pub open spec fn row_count(plan: PlanModel) -> int {
    plan.repetitions * workload_list(plan.workload).len() * executor_list(plan.executor).len()
}

/// What the row of repetition `rep`, workload `w` and executor `e` holds:
/// its label, the repetition's seed, the executor's name, the threads and
/// compute cost asked for. For a workload built here (all but the Zipfian
/// one) also the workload's name, the block size asked for, and a run that
/// agrees with the sequential one.
pub open spec fn row_matches(plan: PlanModel, row: RunMetrics, rep: int, w: Seq<char>, e: Seq<char>) -> bool {
    &&& row.run_id@ == run_label(rep as usize, w, e, plan.threads, plan.block_size)
    &&& row.seed == plan.seed + rep
    &&& row.executor@ == e
    &&& row.threads == plan.threads
    &&& row.compute_cost == plan.compute_cost
    &&& workload_kind_spec(w) != Some(WorkloadKind::Zipfian) ==> {
        &&& row.workload@ == w
        &&& row.block_size == plan.block_size
        &&& row.correct_vs_sequential == Some(true)
    }
}

/// The rows of a plan: one for each repetition, workload and executor, in
/// that order of nesting.
pub open spec fn plan_rows(plan: PlanModel, rows: Seq<RunMetrics>) -> bool {
    let ws = workload_list(plan.workload);
    let es = executor_list(plan.executor);
    &&& rows.len() == row_count(plan)
    &&& forall|rep: int, w: int, e: int|
        0 <= rep < plan.repetitions && 0 <= w < ws.len() && 0 <= e < es.len() ==> row_matches(
            plan,
            #[trigger] rows[row_index(rep, w, e, ws.len() as int, es.len() as int)],
            rep,
            ws[w],
            es[e],
        )
}

/// Rows come in lexicographic order of repetition, workload and executor.
proof fn lemma_row_index_order(a: int, b: int, c: int, x: int, y: int, z: int, wn: int, en: int)
    requires
        0 <= a,
        0 <= b < wn,
        0 <= c < en,
        0 <= x,
        0 <= y <= wn,
        0 <= z <= en,
        a < x || (a == x && b < y) || (a == x && b == y && c < z),
    ensures
        row_index(a, b, c, wn, en) < row_index(x, y, z, wn, en),
{
    if a < x {
        assert(row_index(a, b, c, wn, en) < (a * wn + b + 1) * en) by (nonlinear_arith)
            requires
                0 <= c < en,
        {}
        assert((a + 1) * wn <= x * wn) by (nonlinear_arith)
            requires
                0 <= a < x,
                0 <= wn,
        {}
        assert((a + 1) * wn == a * wn + wn) by (nonlinear_arith);
        assert(a * wn + b + 1 <= x * wn);
        assert((a * wn + b + 1) * en <= (x * wn) * en) by (nonlinear_arith)
            requires
                a * wn + b + 1 <= x * wn,
                0 <= en,
        {}
        assert((x * wn) * en <= row_index(x, y, z, wn, en)) by (nonlinear_arith)
            requires
                0 <= y,
                0 <= z,
                0 <= en,
        {}
    } else if b < y {
        assert(row_index(a, b, c, wn, en) < (a * wn + b + 1) * en) by (nonlinear_arith)
            requires
                0 <= c < en,
        {}
        assert((a * wn + b + 1) * en <= (x * wn + y) * en) by (nonlinear_arith)
            requires
                a == x,
                b < y,
                0 <= en,
        {}
    }
}

/// The kinds of the named workloads, or the position of the first name
/// that names none.
fn workload_kinds(names: &Vec<String>) -> (r: Result<Vec<WorkloadKind>, usize>)
    ensures
        match r {
            Ok(v) => {
                &&& v.len() == names.len()
                &&& forall|i: int| 0 <= i < names.len() ==> workload_kind_spec(names@[i]@) == Some(#[trigger] v@[i])
                &&& first_unknown_workload(names@.map_values(|n: String| n@)) is None
            },
            Err(i) => {
                &&& i < names.len()
                &&& first_unknown_workload(names@.map_values(|n: String| n@)) == Some(names@[i as int]@)
                &&& workload_kind_spec(names@[i as int]@) is None
                &&& forall|j: int| 0 <= j < i ==> workload_kind_spec(#[trigger] names@[j]@) is Some
            },
        },
{
    let ghost all = names@.map_values(|n: String| n@);
    let mut v: Vec<WorkloadKind> = Vec::new();
    proof {
        assert(all.subrange(0, all.len() as int) =~= all);
    }
    for i in 0..names.len()
        invariant
            all == names@.map_values(|n: String| n@),
            v.len() == i,
            forall|j: int| 0 <= j < i ==> workload_kind_spec(names@[j]@) == Some(#[trigger] v@[j]),
            first_unknown_workload(all) == first_unknown_workload(all.subrange(i as int, all.len() as int)),
    {
        let ghost rest = all.subrange(i as int, all.len() as int);
        proof {
            assert(rest[0] == names@[i as int]@);
            assert(rest.drop_first() =~= all.subrange(i + 1, all.len() as int));
        }
        match workload_kind(names[i].as_str()) {
            Some(k) => v.push(k),
            None => {
                proof {
                    assert forall|j: int| 0 <= j < i implies workload_kind_spec(#[trigger] names@[j]@) is Some by {
                        assert(workload_kind_spec(names@[j]@) == Some(v@[j]));
                    }
                }
                return Err(i);
            },
        }
    }
    proof {
        assert(all.subrange(names.len() as int, all.len() as int).len() == 0);
    }
    Ok(v)
}

/// The kinds of the named executors, or the position of the first name
/// that names none.
fn executor_kinds(names: &Vec<String>) -> (r: Result<Vec<ExecutorKind>, usize>)
    ensures
        match r {
            Ok(v) => {
                &&& v.len() == names.len()
                &&& forall|i: int| 0 <= i < names.len() ==> executor_kind_spec(names@[i]@) == Some(#[trigger] v@[i])
                &&& first_unknown_executor(names@.map_values(|n: String| n@)) is None
            },
            Err(i) => {
                &&& i < names.len()
                &&& first_unknown_executor(names@.map_values(|n: String| n@)) == Some(names@[i as int]@)
                &&& executor_kind_spec(names@[i as int]@) is None
                &&& forall|j: int| 0 <= j < i ==> executor_kind_spec(#[trigger] names@[j]@) is Some
            },
        },
{
    let ghost all = names@.map_values(|n: String| n@);
    let mut v: Vec<ExecutorKind> = Vec::new();
    proof {
        assert(all.subrange(0, all.len() as int) =~= all);
    }
    for i in 0..names.len()
        invariant
            all == names@.map_values(|n: String| n@),
            v.len() == i,
            forall|j: int| 0 <= j < i ==> executor_kind_spec(names@[j]@) == Some(#[trigger] v@[j]),
            first_unknown_executor(all) == first_unknown_executor(all.subrange(i as int, all.len() as int)),
    {
        let ghost rest = all.subrange(i as int, all.len() as int);
        proof {
            assert(rest[0] == names@[i as int]@);
            assert(rest.drop_first() =~= all.subrange(i + 1, all.len() as int));
        }
        match executor_kind(names[i].as_str()) {
            Some(k) => v.push(k),
            None => {
                proof {
                    assert forall|j: int| 0 <= j < i implies executor_kind_spec(#[trigger] names@[j]@) is Some by {
                        assert(executor_kind_spec(names@[j]@) == Some(v@[j]));
                    }
                }
                return Err(i);
            },
        }
    }
    proof {
        assert(all.subrange(names.len() as int, all.len() as int).len() == 0);
    }
    Ok(v)
}

/// `prefix` followed by `name`.
fn message(prefix: &str, name: &String) -> (r: String)
    ensures
        r@ == prefix@ + name@,
{
    let mut r = String::from_str(prefix);
    r.append(name.as_str());
    r
}

/// The rows of a benchmark plan: for each repetition, each selected
/// workload (generated once per repetition, with seed `seed + repetition`),
/// and each selected executor, the executor's labelled measurements of
/// running the workload's block. The Zipfian workload comes from
/// `zipfian`. A name that selects nothing is refused, as the runs would
/// meet it, before anything runs.
pub fn run_benchmark_rows<Z: WorkloadGenerator>(plan: &BenchmarkPlan, zipfian: &Z) -> (r: Result<
    Vec<RunMetrics>,
    String,
>)
    requires
        plan.seed + plan.repetitions <= u64::MAX + 1,
        plan.block_size <= usize::MAX / 4,
    ensures
        match r {
            Ok(rows) => plan_error(plan@) is None && plan_rows(plan@, rows@),
            Err(m) => plan_error(plan@) == Some(m@),
        },
{
    let workloads = workload_names(plan.workload.as_str());
    let executors = executor_names(plan.executor.as_str());
    let ghost ws = workload_list(plan.workload@);
    let ghost es = executor_list(plan.executor@);
    let ghost wn = ws.len() as int;
    let ghost en = es.len() as int;
    proof {
        assert(workloads@.map_values(|n: String| n@) == ws);
        assert(executors@.map_values(|n: String| n@) == es);
    }
    if plan.repetitions == 0 || workloads.len() == 0 {
        let rows: Vec<RunMetrics> = Vec::new();
        proof {
            assert(plan.repetitions * wn * en == 0) by (nonlinear_arith)
                requires
                    plan.repetitions == 0 || wn == 0,
            {}
        }
        return Ok(rows);
    }
    let wkinds = match workload_kinds(&workloads) {
        Ok(v) => v,
        Err(i) => {
            if i == 0 {
                return Err(message("unknown workload: ", &workloads[0]));
            }
            proof {
                assert(ws[0] == workloads@[0]@);
            }
            match executor_kinds(&executors) {
                Ok(_) => {
                    return Err(message("unknown workload: ", &workloads[i]));
                },
                Err(j) => {
                    return Err(message("unknown executor: ", &executors[j]));
                },
            }
        },
    };
    proof {
        assert(ws[0] == workloads@[0]@);
    }
    let ekinds = match executor_kinds(&executors) {
        Ok(v) => v,
        Err(j) => {
            return Err(message("unknown executor: ", &executors[j]));
        },
    };
    let exec_config = ExecutionConfig { threads: plan.threads };
    let mut rows: Vec<RunMetrics> = Vec::new();
    proof {
        assert(row_index(0, 0, 0, wn, en) == 0) by (nonlinear_arith);
    }
    for rep in 0..plan.repetitions
        invariant
            plan.seed + plan.repetitions <= u64::MAX + 1,
            plan.block_size <= usize::MAX / 4,
            exec_config.threads == plan.threads,
            ws == workload_list(plan.workload@),
            es == executor_list(plan.executor@),
            workloads@.map_values(|n: String| n@) == ws,
            executors@.map_values(|n: String| n@) == es,
            wn == ws.len(),
            en == es.len(),
            wkinds.len() == wn,
            ekinds.len() == en,
            forall|j: int| 0 <= j < wn ==> workload_kind_spec(workloads@[j]@) == Some(#[trigger] wkinds@[j]),
            forall|j: int| 0 <= j < en ==> executor_kind_spec(executors@[j]@) == Some(#[trigger] ekinds@[j]),
            rows.len() == row_index(rep as int, 0, 0, wn, en),
            forall|a: int, b: int, c: int|
                0 <= a < rep && 0 <= b < wn && 0 <= c < en ==> row_matches(
                    plan@,
                    #[trigger] rows@[row_index(a, b, c, wn, en)],
                    a,
                    ws[b],
                    es[c],
                ),
    {
        let seed = repetition_seed(plan.seed, rep);
        for wi in 0..workloads.len()
            invariant
                plan.seed + plan.repetitions <= u64::MAX + 1,
                plan.block_size <= usize::MAX / 4,
                exec_config.threads == plan.threads,
                rep < plan.repetitions,
                seed == plan.seed + rep,
                workloads@.map_values(|n: String| n@) == ws,
                executors@.map_values(|n: String| n@) == es,
                wn == ws.len(),
                en == es.len(),
                wkinds.len() == wn,
                ekinds.len() == en,
                forall|j: int| 0 <= j < wn ==> workload_kind_spec(workloads@[j]@) == Some(#[trigger] wkinds@[j]),
                forall|j: int| 0 <= j < en ==> executor_kind_spec(executors@[j]@) == Some(#[trigger] ekinds@[j]),
                rows.len() == row_index(rep as int, wi as int, 0, wn, en),
                forall|a: int, b: int, c: int|
                    0 <= a < plan.repetitions && 0 <= b < wn && 0 <= c < en && (a < rep || (a == rep && b < wi))
                        ==> row_matches(plan@, #[trigger] rows@[row_index(a, b, c, wn, en)], a, ws[b], es[c]),
        {
            let config = WorkloadConfig {
                block_size: plan.block_size,
                accounts: plan.accounts,
                seed,
                compute_cost: plan.compute_cost,
                duplicate_nullifier_threshold: plan.duplicate_nullifier_threshold,
            };
            let kind = wkinds[wi];
            let scenario = generate_workload(kind, &config, zipfian);
            proof {
                assert(ws[wi as int] == workloads@[wi as int]@);
            }
            for ei in 0..executors.len()
                invariant
                    plan.seed + plan.repetitions <= u64::MAX + 1,
                    exec_config.threads == plan.threads,
                    rep < plan.repetitions,
                    wi < wn,
                    seed == plan.seed + rep,
                    config.block_size == plan.block_size,
                    workloads@.map_values(|n: String| n@) == ws,
                    executors@.map_values(|n: String| n@) == es,
                    wn == ws.len(),
                    en == es.len(),
                    ekinds.len() == en,
                    forall|j: int| 0 <= j < en ==> executor_kind_spec(executors@[j]@) == Some(#[trigger] ekinds@[j]),
                    workload_kind_spec(ws[wi as int]) == Some(kind),
                    kind != WorkloadKind::Zipfian ==> {
                        &&& scenario.name@ == workload_kind_name(kind)
                        &&& scenario.block.len() == config.block_size
                        &&& crate::laws::runs_as_sequential(
                            scenario.initial_state@,
                            crate::model::tx_models(scenario.block@),
                        )
                    },
                    rows.len() == row_index(rep as int, wi as int, ei as int, wn, en),
                    forall|a: int, b: int, c: int|
                        0 <= a < plan.repetitions && 0 <= b < wn && 0 <= c < en && (a < rep || (a == rep && b < wi) || (
                        a == rep && b == wi && c < ei)) ==> row_matches(
                            plan@,
                            #[trigger] rows@[row_index(a, b, c, wn, en)],
                            a,
                            ws[b],
                            es[c],
                        ),
            {
                let report = run_executor(ekinds[ei], &scenario.initial_state, scenario.block.as_slice(), &exec_config);
                let mut metrics = report.metrics;
                label_run(
                    &mut metrics,
                    rep,
                    seed,
                    workloads[wi].as_str(),
                    executors[ei].as_str(),
                    &scenario,
                    plan.threads,
                    plan.block_size,
                    plan.compute_cost,
                    &report.final_state_hash,
                );
                let ghost at = rows.len() as int;
                proof {
                    assert(es[ei as int] == executors@[ei as int]@);
                    let k = ekinds@[ei as int];
                    assert(executor_kind_spec(es[ei as int]) == Some(k));
                    assert(row_matches(plan@, metrics, rep as int, ws[wi as int], es[ei as int]));
                }
                rows.push(metrics);
                proof {
                    assert forall|a: int, b: int, c: int|
                        0 <= a < plan.repetitions && 0 <= b < wn && 0 <= c < en && (a < rep || (a == rep && b < wi)
                            || (a == rep && b == wi && c < ei + 1)) implies row_matches(
                        plan@,
                        #[trigger] rows@[row_index(a, b, c, wn, en)],
                        a,
                        ws[b],
                        es[c],
                    ) by {
                        if a == rep && b == wi && c == ei {
                            assert(row_index(a, b, c, wn, en) == at);
                        } else {
                            lemma_row_index_order(a, b, c, rep as int, wi as int, ei as int, wn, en);
                        }
                    }
                }
            }
            proof {
                assert(row_index(rep as int, wi as int, en, wn, en) == row_index(rep as int, wi + 1, 0, wn, en))
                    by (nonlinear_arith);
            }
        }
        proof {
            assert(row_index(rep as int, wn, 0, wn, en) == row_index(rep + 1, 0, 0, wn, en)) by (nonlinear_arith);
        }
    }
    proof {
        assert(row_index(plan.repetitions as int, 0, 0, wn, en) == plan.repetitions * wn * en) by (nonlinear_arith);
    }
    Ok(rows)
}

/// Parts come in lexicographic order of block size and thread count.
proof fn lemma_matrix_start_order(b: int, t: int, x: int, y: int, tn: int, k: int)
    requires
        0 <= b,
        0 <= t < tn,
        0 <= x,
        0 <= y,
        0 <= k,
        b < x || (b == x && t < y),
    ensures
        (b * tn + t) * k + k <= (x * tn + y) * k,
        0 <= (b * tn + t) * k,
{
    assert(b * tn + t + 1 <= x * tn + y) by (nonlinear_arith)
        requires
            0 <= b,
            0 <= t < tn,
            0 <= y,
            b < x || (b == x && t < y),
    {
        if b < x {
            assert((b + 1) * tn <= x * tn) by (nonlinear_arith)
                requires
                    b + 1 <= x,
                    0 <= tn,
            ;
        }
    }
    assert((b * tn + t + 1) * k <= (x * tn + y) * k) by (nonlinear_arith)
        requires
            b * tn + t + 1 <= x * tn + y,
            0 <= k,
    ;
    assert((b * tn + t + 1) * k == (b * tn + t) * k + k) by (nonlinear_arith);
    assert(0 <= (b * tn + t) * k) by (nonlinear_arith)
        requires
            0 <= b,
            0 <= t,
            0 <= tn,
            0 <= k,
    ;
}

/// A plan with another block size and thread count.
pub open spec fn with_sizes(plan: PlanModel, block_size: usize, threads: usize) -> PlanModel {
    PlanModel { block_size, threads, ..plan }
}

/// The rows that the run for block size `b` and thread count `t` takes up
/// among the rows of a matrix with `tn` thread counts and `k` rows a run.
pub open spec fn matrix_part(rows: Seq<RunMetrics>, b: int, t: int, tn: int, k: int) -> Seq<RunMetrics> {
    rows.subrange((b * tn + t) * k, (b * tn + t) * k + k)
}

/// The rows of a matrix: the rows of the plan for each block size and,
/// within it, each thread count, one run after the other.
pub open spec fn matrix_rows(base: PlanModel, sizes: Seq<usize>, threads: Seq<usize>, rows: Seq<RunMetrics>) -> bool {
    let k = row_count(base);
    &&& rows.len() == sizes.len() * threads.len() * k
    &&& forall|b: int, t: int|
        0 <= b < sizes.len() && 0 <= t < threads.len() ==> plan_rows(
            with_sizes(base, sizes[b], threads[t]),
            #[trigger] matrix_part(rows, b, t, threads.len() as int, k),
        )
}

/// The rows of the plan `base` run for each block size of `block_sizes`
/// and, within each, each thread count of `thread_counts`. A plan that
/// cannot run is refused before any run, unless there is no run at all.
pub fn run_matrix_rows<Z: WorkloadGenerator>(
    base: &BenchmarkPlan,
    block_sizes: &[usize],
    thread_counts: &[usize],
    zipfian: &Z,
) -> (r: Result<Vec<RunMetrics>, String>)
    requires
        base.seed + base.repetitions <= u64::MAX + 1,
        forall|i: int| 0 <= i < block_sizes.len() ==> #[trigger] block_sizes@[i] <= usize::MAX / 4,
    ensures
        match r {
            Ok(rows) => {
                &&& (block_sizes.len() == 0 || thread_counts.len() == 0 || plan_error(base@) is None)
                &&& matrix_rows(base@, block_sizes@, thread_counts@, rows@)
            },
            Err(m) => block_sizes.len() > 0 && thread_counts.len() > 0 && plan_error(base@) == Some(m@),
        },
{
    let ghost k = row_count(base@);
    let ghost tn = thread_counts.len() as int;
    let mut rows: Vec<RunMetrics> = Vec::new();
    proof {
        assert((0 * tn) * k == 0) by (nonlinear_arith);
    }
    for bi in 0..block_sizes.len()
        invariant
            base.seed + base.repetitions <= u64::MAX + 1,
            forall|i: int| 0 <= i < block_sizes.len() ==> #[trigger] block_sizes@[i] <= usize::MAX / 4,
            k == row_count(base@),
            tn == thread_counts.len(),
            k >= 0,
            rows.len() == (bi * tn) * k,
            bi > 0 && tn > 0 ==> plan_error(base@) is None,
            forall|b: int, t: int|
                0 <= b < bi && 0 <= t < tn ==> plan_rows(
                    with_sizes(base@, block_sizes@[b], thread_counts@[t]),
                    #[trigger] matrix_part(rows@, b, t, tn, k),
                ),
    {
        for ti in 0..thread_counts.len()
            invariant
                base.seed + base.repetitions <= u64::MAX + 1,
                bi < block_sizes.len(),
                block_sizes@[bi as int] <= usize::MAX / 4,
                k == row_count(base@),
                tn == thread_counts.len(),
                k >= 0,
                rows.len() == (bi * tn + ti) * k,
                (bi > 0 && tn > 0) || ti > 0 ==> plan_error(base@) is None,
                forall|b: int, t: int|
                    0 <= b < block_sizes.len() && 0 <= t < tn && (b < bi || (b == bi && t < ti)) ==> plan_rows(
                        with_sizes(base@, block_sizes@[b], thread_counts@[t]),
                        #[trigger] matrix_part(rows@, b, t, tn, k),
                    ),
        {
            let plan = BenchmarkPlan {
                executor: base.executor.clone(),
                workload: base.workload.clone(),
                block_size: block_sizes[bi],
                accounts: base.accounts,
                threads: thread_counts[ti],
                seed: base.seed,
                compute_cost: base.compute_cost,
                repetitions: base.repetitions,
                duplicate_nullifier_threshold: base.duplicate_nullifier_threshold,
            };
            proof {
                assert(plan@ == with_sizes(base@, block_sizes@[bi as int], thread_counts@[ti as int]));
            }
            match run_benchmark_rows(&plan, zipfian) {
                Ok(more) => {
                    let ghost before = rows@;
                    let ghost added = more@;
                    let mut more = more;
                    rows.append(&mut more);
                    proof {
                        let at = (bi * tn + ti) * k;
                        assert(row_count(plan@) == k);
                        assert(added.len() == k);
                        assert(at + k == (bi * tn + ti + 1) * k) by (nonlinear_arith)
                            requires
                                at == (bi * tn + ti) * k,
                        ;
                        assert(matrix_part(rows@, bi as int, ti as int, tn, k) =~= rows@.subrange(at, at + k));
                        assert forall|b: int, t: int|
                            0 <= b < block_sizes.len() && 0 <= t < tn && (b < bi || (b == bi && t < ti + 1)) implies plan_rows(
                            with_sizes(base@, block_sizes@[b], thread_counts@[t]),
                            #[trigger] matrix_part(rows@, b, t, tn, k),
                        ) by {
                            if b == bi && t == ti {
                                assert(matrix_part(rows@, b, t, tn, k) =~= rows@.subrange(at, at + k));
                                assert(rows@.subrange(at, at + k) =~= added);
                            } else {
                                lemma_matrix_start_order(b, t, bi as int, ti as int, tn, k);
                                assert(matrix_part(rows@, b, t, tn, k) =~= matrix_part(before, b, t, tn, k));
                            }
                        }
                    }
                },
                Err(m) => {
                    return Err(m);
                },
            }
        }
        proof {
            assert((bi * tn + tn) * k == ((bi + 1) * tn) * k) by (nonlinear_arith);
        }
    }
    proof {
        assert((block_sizes.len() * tn) * k == block_sizes.len() * thread_counts.len() * k) by (nonlinear_arith)
            requires
                tn == thread_counts.len(),
        ;
    }
    Ok(rows)
}

} // verus!
