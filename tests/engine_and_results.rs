use backend_comparison::engine::{Action, BenchmarkSpec, EngineError, Event, MeasurementRun, Phase};
use backend_comparison::results::{cell_failure, CellFailure, Entry, Outcome, ResultSet};

fn spec(name: &str, repeats: usize) -> BenchmarkSpec {
    BenchmarkSpec { name: name.to_string(), input_shapes: vec![vec![32, 512, 1024]], repeat_count: repeats }
}

fn complete_run(name: &str, backend: &str, samples: &[u64]) -> backend_comparison::engine::Measurement {
    let mut run = MeasurementRun::start(&spec(name, samples.len()), backend).ok().unwrap();
    assert!(matches!(run.step(Event::Prepared), Action::TimeRepeat(0)));
    let mut last = None;
    for (k, d) in samples.iter().enumerate() {
        match run.step(Event::Timed(*d)) {
            Action::TimeRepeat(next) => assert_eq!(next, k + 1),
            Action::Complete(m) => last = Some(m),
            _ => panic!("unexpected action"),
        }
    }
    last.unwrap()
}

#[test]
fn zero_repeats_is_a_contract_violation() {
    let r = MeasurementRun::start(&spec("unary", 0), "ndarray");
    assert!(matches!(r, Err(EngineError::ContractViolation)));
}

#[test]
fn empty_name_is_a_contract_violation() {
    let r = MeasurementRun::start(&spec("", 3), "ndarray");
    assert!(matches!(r, Err(EngineError::ContractViolation)));
}

#[test]
fn measurement_has_one_sample_per_repeat_in_order() {
    let m = complete_run("unary", "wgpu", &[30, 10, 20]);
    assert_eq!(m.durations, vec![30, 10, 20]);
    assert_eq!(m.spec_name, "unary");
    assert_eq!(m.backend_id, "wgpu");
    assert!(m.device_sync_included);
}

#[test]
fn single_repeat_is_valid() {
    let m = complete_run("matmul", "tch-cpu", &[0]);
    assert_eq!(m.durations, vec![0]);
}

#[test]
fn failing_execute_discards_partial_samples() {
    let mut run = MeasurementRun::start(&spec("unary", 4), "candle-cpu").ok().unwrap();
    run.step(Event::Prepared);
    assert!(matches!(run.step(Event::Timed(5)), Action::TimeRepeat(1)));
    assert!(matches!(run.step(Event::Timed(6)), Action::TimeRepeat(2)));
    assert!(matches!(run.step(Event::ExecuteFailed), Action::Abort(EngineError::ExecutionFailure)));
    assert!(run.samples.is_empty());
    assert_eq!(run.phase, Phase::Failed(EngineError::ExecutionFailure));
    assert!(matches!(run.step(Event::Timed(7)), Action::Ignore));
    assert!(run.samples.is_empty());
}

#[test]
fn failing_prepare_aborts_the_cell() {
    let mut run = MeasurementRun::start(&spec("data", 2), "ndarray").ok().unwrap();
    assert!(matches!(run.step(Event::Timed(1)), Action::Ignore));
    assert!(matches!(run.step(Event::PrepareFailed), Action::Abort(EngineError::PreparationFailure)));
    assert_eq!(run.phase, Phase::Failed(EngineError::PreparationFailure));
    assert!(run.samples.is_empty());
}

#[test]
fn rerecording_a_key_overwrites() {
    let mut rs = ResultSet::new(1700000000, "host".to_string(), "abc123".to_string());
    rs.record(complete_run("unary", "wgpu", &[1, 2]));
    rs.record(complete_run("unary", "ndarray", &[3]));
    assert_eq!(rs.entries.len(), 2);
    rs.record(complete_run("unary", "wgpu", &[9, 8, 7]));
    assert_eq!(rs.entries.len(), 2);
    let i = rs.find("unary", "wgpu").unwrap();
    match &rs.entries[i].outcome {
        Outcome::Succeeded(m) => assert_eq!(m.durations, vec![9, 8, 7]),
        Outcome::Failed(_) => panic!("expected a measurement"),
    }
    assert_eq!(rs.find("binary", "wgpu"), None);
}

#[test]
fn a_failure_overwrites_a_measurement() {
    let mut rs = ResultSet::new(0, String::new(), String::new());
    rs.record(complete_run("matmul", "wgpu", &[4]));
    rs.insert_entry(Entry {
        spec_name: "matmul".to_string(),
        backend_id: "wgpu".to_string(),
        outcome: Outcome::Failed(CellFailure::ExecutionFailure),
    });
    assert_eq!(rs.entries.len(), 1);
    assert!(matches!(rs.entries[0].outcome, Outcome::Failed(CellFailure::ExecutionFailure)));
}

#[test]
fn engine_errors_become_cell_failures() {
    assert_eq!(cell_failure(EngineError::ContractViolation), CellFailure::ContractViolation);
    assert_eq!(cell_failure(EngineError::PreparationFailure), CellFailure::PreparationFailure);
    assert_eq!(cell_failure(EngineError::ExecutionFailure), CellFailure::ExecutionFailure);
}

#[test]
fn recorded_failure_replaces_and_is_kept() {
    let mut rs = ResultSet::new(0, String::new(), String::new());
    rs.record(complete_run("binary", "tch-cpu", &[2, 2]));
    rs.record_failure("binary", "tch-cpu", CellFailure::PreparationFailure);
    rs.record_failure("data", "tch-cpu", CellFailure::ContractViolation);
    assert_eq!(rs.entries.len(), 2);
    assert!(matches!(rs.entries[0].outcome, Outcome::Failed(CellFailure::PreparationFailure)));
    assert_eq!(rs.entries[1].spec_name, "data");
    assert!(matches!(rs.entries[1].outcome, Outcome::Failed(CellFailure::ContractViolation)));
}

#[test]
fn interleaved_runs_on_disjoint_devices_match_sequential_runs() {
    let mut a = MeasurementRun::start(&spec("unary", 3), "wgpu").ok().unwrap();
    let mut b = MeasurementRun::start(&spec("unary", 2), "tch-gpu").ok().unwrap();
    a.step(Event::Prepared);
    b.step(Event::Prepared);
    a.step(Event::Timed(11));
    b.step(Event::Timed(21));
    a.step(Event::Timed(12));
    let mb = match b.step(Event::Timed(22)) {
        Action::Complete(m) => m,
        _ => panic!("expected a complete measurement"),
    };
    let ma = match a.step(Event::Timed(13)) {
        Action::Complete(m) => m,
        _ => panic!("expected a complete measurement"),
    };
    let sa = complete_run("unary", "wgpu", &[11, 12, 13]);
    let sb = complete_run("unary", "tch-gpu", &[21, 22]);
    assert_eq!(ma.durations, sa.durations);
    assert_eq!(mb.durations, sb.durations);
    assert_eq!((ma.backend_id, mb.backend_id), (sa.backend_id, sb.backend_id));
}
