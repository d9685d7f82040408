use cape::bench::{run_benchmark_rows, run_matrix_rows, BenchmarkPlan};
use cape::workload::zipfian::ZipfianWorkload;
use cape::workload::{WorkloadConfig, WorkloadGenerator, WorkloadScenario};

/// Zipfian draws fixed in advance: every transfer goes from account 0 to 1.
struct FixedZipfian;

impl WorkloadGenerator for FixedZipfian {
    fn name(&self) -> &'static str {
        ZipfianWorkload.name()
    }

    fn generate(&self, config: &WorkloadConfig) -> WorkloadScenario {
        let draws = vec![(0u64, 1u64); config.block_size];
        ZipfianWorkload.assemble(config, &draws)
    }
}

fn plan(executor: &str, workload: &str, repetitions: usize) -> BenchmarkPlan {
    BenchmarkPlan {
        executor: executor.to_string(),
        workload: workload.to_string(),
        block_size: 12,
        accounts: 16,
        threads: 2,
        seed: 40,
        compute_cost: 1,
        repetitions,
        duplicate_nullifier_threshold: 1 << 52,
    }
}

#[test]
fn rows_come_by_repetition_then_workload_then_executor() {
    let rows = run_benchmark_rows(&plan("all", "hotspot,private-state", 2), &FixedZipfian).unwrap();
    assert_eq!(rows.len(), 2 * 2 * 3);
    let mut i = 0;
    for rep in 0..2 {
        for workload in ["hotspot", "private-state"] {
            for executor in ["sequential", "static", "optimistic"] {
                let row = &rows[i];
                assert_eq!(row.run_id, format!("{rep}-{workload}-{executor}-2-12"));
                assert_eq!(row.seed, 40 + rep as u64);
                assert_eq!(row.workload, workload);
                assert_eq!(row.executor, executor);
                assert_eq!(row.block_size, 12);
                assert_eq!(row.threads, 2);
                assert_eq!(row.compute_cost, 1);
                assert_eq!(row.num_accounts, 16);
                assert_eq!(row.correct_vs_sequential, Some(true));
                i += 1;
            }
        }
    }
}

#[test]
fn all_workloads_run_including_the_zipfian_one() {
    let rows = run_benchmark_rows(&plan("static", "all", 1), &FixedZipfian).unwrap();
    let names: Vec<&str> = rows.iter().map(|r| r.workload.as_str()).collect();
    assert_eq!(names, vec!["no-conflict", "hotspot", "zipfian", "token-transfer", "private-state"]);
    assert!(rows.iter().all(|r| r.correct_vs_sequential == Some(true)));
}

#[test]
fn unknown_names_are_refused_as_the_runs_meet_them() {
    assert_eq!(
        run_benchmark_rows(&plan("all", "bogus,hotspot", 1), &FixedZipfian).unwrap_err(),
        "unknown workload: bogus"
    );
    assert_eq!(
        run_benchmark_rows(&plan("static,fast", "hotspot,bogus", 1), &FixedZipfian).unwrap_err(),
        "unknown executor: fast"
    );
    assert_eq!(
        run_benchmark_rows(&plan("static", "hotspot,bogus", 1), &FixedZipfian).unwrap_err(),
        "unknown workload: bogus"
    );
    // With no repetition nothing runs, so nothing is refused.
    assert!(run_benchmark_rows(&plan("fast", "bogus", 0), &FixedZipfian).unwrap().is_empty());
}

#[test]
fn matrix_runs_each_block_size_then_each_thread_count() {
    let base = plan("sequential", "no-conflict", 1);
    let rows = run_matrix_rows(&base, &[4, 6], &[1, 3], &FixedZipfian).unwrap();
    let ids: Vec<&str> = rows.iter().map(|r| r.run_id.as_str()).collect();
    assert_eq!(
        ids,
        vec![
            "0-no-conflict-sequential-1-4",
            "0-no-conflict-sequential-3-4",
            "0-no-conflict-sequential-1-6",
            "0-no-conflict-sequential-3-6",
        ]
    );
    assert_eq!(rows[2].block_size, 6);
    assert_eq!(rows[3].threads, 3);
    assert_eq!(
        run_matrix_rows(&plan("x", "all", 1), &[4], &[1], &FixedZipfian).unwrap_err(),
        "unknown executor: x"
    );
    assert!(run_matrix_rows(&plan("x", "all", 1), &[], &[1], &FixedZipfian).unwrap().is_empty());
}
