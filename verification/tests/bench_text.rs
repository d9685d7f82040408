use cape::bench::{executor_names, label_run, parse_usize_list, repetition_seed, run_id};
use cape::executor::{ExecutionConfig, Executor, SequentialExecutor};
use cape::workload::hotspot::HotspotWorkload;
use cape::workload::{WorkloadConfig, WorkloadGenerator};
use cape::text::{decimal_string, parse_usize, split_trimmed};
use cape::workload::workload_names;

#[test]
fn all_executors_are_listed_in_order() {
    assert_eq!(executor_names("all"), vec!["sequential", "static", "optimistic"]);
}

#[test]
fn listed_executors_are_trimmed() {
    assert_eq!(executor_names(" static ,optimistic"), vec!["static", "optimistic"]);
    assert_eq!(executor_names("All"), vec!["All"]);
    assert_eq!(executor_names(""), vec![""]);
    assert_eq!(executor_names("a,,b"), vec!["a", "", "b"]);
}

#[test]
fn all_workloads_are_listed_in_order() {
    assert_eq!(
        workload_names("all"),
        vec!["no-conflict", "hotspot", "zipfian", "token-transfer", "private-state"]
    );
    assert_eq!(workload_names("hotspot,\tzipfian "), vec!["hotspot", "zipfian"]);
}

#[test]
fn number_lists_skip_what_is_not_a_number() {
    assert_eq!(parse_usize_list("1000,5000"), vec![1000, 5000]);
    assert_eq!(parse_usize_list(" 1, 2 ,x, 3,"), vec![1, 2, 3]);
    assert_eq!(parse_usize_list("+4,-4,4.0"), vec![4]);
    assert_eq!(parse_usize_list(""), Vec::<usize>::new());
    assert_eq!(
        parse_usize_list("18446744073709551615,18446744073709551616"),
        vec![18446744073709551615]
    );
}

#[test]
fn numbers_parse_as_usize_does() {
    for text in ["0", "007", "+12", "", "+", "-1", " 1", "1 ", "12a", "99999999999999999999"] {
        assert_eq!(parse_usize(text), text.parse::<usize>().ok(), "{text:?}");
    }
}

#[test]
fn pieces_are_split_at_commas_and_trimmed() {
    assert_eq!(split_trimmed(" a , b,c "), vec!["a", "b", "c"]);
    assert_eq!(split_trimmed("\u{2003}x\u{a0}"), vec!["x"]);
}

#[test]
fn decimal_notation() {
    assert_eq!(decimal_string(0), "0");
    assert_eq!(decimal_string(907), "907");
    assert_eq!(decimal_string(u64::MAX), u64::MAX.to_string());
}

#[test]
fn run_ids_join_the_settings_with_hyphens() {
    assert_eq!(run_id(0, "token-transfer", "static", 4, 1000), "0-token-transfer-static-4-1000");
    assert_eq!(run_id(12, "", "x", 0, 7), "12--x-0-7");
}

#[test]
fn runs_are_labelled_and_measurements_kept() {
    assert_eq!(repetition_seed(42, 2), 44);
    let config = WorkloadConfig {
        block_size: 6,
        accounts: 5,
        seed: repetition_seed(42, 2),
        compute_cost: 9,
        duplicate_nullifier_threshold: 0,
    };
    let scenario = HotspotWorkload.generate(&config);
    let report = SequentialExecutor.execute(&scenario.initial_state, &scenario.block, &ExecutionConfig::default());
    let mut metrics = report.metrics.clone();
    label_run(&mut metrics, 2, config.seed, "hotspot", "sequential", &scenario, 3, 6, 9, &report.final_state_hash);
    assert_eq!(metrics.run_id, "2-hotspot-sequential-3-6");
    assert_eq!(metrics.seed, 44);
    assert_eq!(metrics.executor, "sequential");
    assert_eq!(metrics.workload, "hotspot");
    assert_eq!(metrics.block_size, 6);
    assert_eq!(metrics.num_accounts, 5);
    assert_eq!(metrics.threads, 3);
    assert_eq!(metrics.compute_cost, 9);
    assert_eq!(metrics.final_state_hash, report.final_state_hash);
    assert_eq!(metrics.elapsed_ns, report.metrics.elapsed_ns);
    assert_eq!(metrics.accepted_txs, report.metrics.accepted_txs);
    assert_eq!(metrics.correct_vs_sequential, Some(true));
}
