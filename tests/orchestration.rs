use backend_comparison::catalog::{
    all_backends, all_benchmarks, backend_from_name, benchmark_from_name, BackendValues, BenchmarkValues,
};
use backend_comparison::orchestrator::{
    exit_code, handoff_path, handoff_temp_path, merge_cell, run_status, selection_cells, Cell, CellState, ChildReport,
    RunStatus,
};
use backend_comparison::results::{CellFailure, Outcome, ResultSet};
use backend_comparison::engine::Measurement;
use backend_comparison::{execute, Command, Dispatch};

fn child_result(bench: &str, backend: &str, durations: Vec<u64>) -> ResultSet {
    let mut rs = ResultSet::new(5, "child".to_string(), "rev".to_string());
    rs.record(Measurement {
        spec_name: bench.to_string(),
        backend_id: backend.to_string(),
        durations,
        device_sync_included: true,
    });
    rs
}

#[test]
fn one_failed_cell_is_reported_beside_the_successful_one() {
    let mut merged = ResultSet::new(10, "host".to_string(), "rev".to_string());
    merge_cell(&mut merged, "unary", "ndarray", ChildReport::ExitedAbnormally);
    merge_cell(&mut merged, "unary", "wgpu", ChildReport::Finished(Ok(child_result("unary", "wgpu", vec![3, 4]))));
    assert_eq!(merged.entries.len(), 2);
    let a = merged.find("unary", "ndarray").unwrap();
    assert!(matches!(merged.entries[a].outcome, Outcome::Failed(CellFailure::IsolationFailure)));
    let b = merged.find("unary", "wgpu").unwrap();
    match &merged.entries[b].outcome {
        Outcome::Succeeded(m) => assert_eq!(m.durations, vec![3, 4]),
        Outcome::Failed(_) => panic!("expected a measurement"),
    }
    let status = run_status(&merged);
    assert_eq!(status, RunStatus::PartialFailure);
    assert_ne!(exit_code(status), 0);
}

#[test]
fn missing_cell_in_artifact_is_an_isolation_failure() {
    let mut merged = ResultSet::new(0, String::new(), String::new());
    merge_cell(&mut merged, "binary", "wgpu", ChildReport::Finished(Ok(child_result("unary", "wgpu", vec![1]))));
    assert!(matches!(merged.entries[0].outcome, Outcome::Failed(CellFailure::IsolationFailure)));
    merge_cell(&mut merged, "data", "wgpu", ChildReport::Finished(Err(CellFailure::SerializationFailure)));
    assert!(matches!(merged.entries[1].outcome, Outcome::Failed(CellFailure::SerializationFailure)));
    merge_cell(&mut merged, "matmul", "wgpu", ChildReport::Cancelled);
    assert!(matches!(merged.entries[2].outcome, Outcome::Failed(CellFailure::Cancelled)));
    merge_cell(&mut merged, "unary", "wgpu", ChildReport::LaunchFailed);
    assert!(matches!(merged.entries[3].outcome, Outcome::Failed(CellFailure::IsolationFailure)));
    assert_eq!(run_status(&merged), RunStatus::AllFailed);
    assert_eq!(exit_code(RunStatus::AllFailed), 1);
}

#[test]
fn status_of_empty_and_full_success() {
    let empty = ResultSet::new(0, String::new(), String::new());
    assert_eq!(run_status(&empty), RunStatus::NothingRun);
    assert_eq!(exit_code(RunStatus::NothingRun), 0);
    let mut merged = ResultSet::new(0, String::new(), String::new());
    merge_cell(&mut merged, "unary", "wgpu", ChildReport::Finished(Ok(child_result("unary", "wgpu", vec![1]))));
    assert_eq!(run_status(&merged), RunStatus::AllSucceeded);
    assert_eq!(exit_code(RunStatus::AllSucceeded), 0);
    assert_eq!(exit_code(RunStatus::PartialFailure), 2);
}

#[test]
fn cells_are_backend_major() {
    let backends = vec![BackendValues::Ndarray, BackendValues::Wgpu];
    let benches = vec![BenchmarkValues::Unary, BenchmarkValues::Matmul, BenchmarkValues::Data];
    let cells = selection_cells(&backends, &benches);
    assert_eq!(cells.len(), 6);
    assert_eq!(cells[0], Cell { backend: BackendValues::Ndarray, benchmark: BenchmarkValues::Unary });
    assert_eq!(cells[2], Cell { backend: BackendValues::Ndarray, benchmark: BenchmarkValues::Data });
    assert_eq!(cells[4], Cell { backend: BackendValues::Wgpu, benchmark: BenchmarkValues::Matmul });
}

#[test]
fn handoff_paths() {
    assert_eq!(handoff_path("wgpu-fusion", "matmul"), "results/wgpu-fusion/matmul.json");
    assert_eq!(handoff_temp_path("ndarray", "unary"), "results/ndarray/unary.json.tmp");
}

#[test]
fn catalog_names_round_trip() {
    let backends = all_backends();
    assert_eq!(backends.len(), 11);
    for b in backends {
        assert_eq!(backend_from_name(&b.name()), Some(b));
    }
    for b in all_benchmarks() {
        assert_eq!(benchmark_from_name(&b.name()), Some(b));
    }
    assert_eq!(BackendValues::NdarrayBlasOpenblas.name(), "ndarray-blas-openblas");
    assert_eq!(BenchmarkValues::CustomGelu.name(), "custom_gelu");
    assert_eq!(backend_from_name("cuda"), None);
    assert_eq!(benchmark_from_name(""), None);
}

#[test]
fn execute_dispatches() {
    assert!(matches!(execute(Command::Auth), Dispatch::Authenticate));
    match execute(Command::List) {
        Dispatch::List { backends, benchmarks } => {
            assert_eq!(backends[0], "candle-cpu");
            assert_eq!(backends[10], "wgpu-fusion");
            assert_eq!(benchmarks, vec!["binary", "custom_gelu", "data", "matmul", "unary"]);
        }
        _ => panic!("expected a listing"),
    }
    let r = execute(Command::Run { backends: vec![], benches: vec![BenchmarkValues::Unary] });
    assert!(matches!(r, Dispatch::NothingSelected));
    let r = execute(Command::Run { backends: vec![BackendValues::Wgpu], benches: vec![] });
    assert!(matches!(r, Dispatch::NothingSelected));
    match execute(Command::Run { backends: vec![BackendValues::TchGpu], benches: vec![BenchmarkValues::Binary] }) {
        Dispatch::Run(cells) => {
            assert_eq!(cells, vec![Cell { backend: BackendValues::TchGpu, benchmark: BenchmarkValues::Binary }])
        }
        _ => panic!("expected cells"),
    }
}

#[test]
fn cell_state_transitions() {
    let launched = CellState::Pending.on_launch(true);
    assert_eq!(launched, CellState::Launched);
    assert_eq!(CellState::Pending.on_launch(false), CellState::Failed(CellFailure::IsolationFailure));
    assert_eq!(launched.on_outcome(&Outcome::Failed(CellFailure::ExecutionFailure)), CellState::Failed(CellFailure::ExecutionFailure));
    let m = Measurement { spec_name: "unary".to_string(), backend_id: "wgpu".to_string(), durations: vec![1], device_sync_included: true };
    let done = launched.on_outcome(&Outcome::Succeeded(m));
    assert_eq!(done, CellState::Succeeded);
    assert_eq!(done.on_cancel(), CellState::Succeeded);
    assert_eq!(done.on_launch(true), CellState::Succeeded);
    assert_eq!(launched.on_cancel(), CellState::Failed(CellFailure::Cancelled));
    assert_eq!(CellState::Pending.on_outcome(&Outcome::Failed(CellFailure::Cancelled)), CellState::Pending);
}
