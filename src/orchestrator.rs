use vstd::prelude::*;
use crate::catalog::{BackendValues, BenchmarkValues};
use crate::results::{key_of, entry_consistent, recorded, CellFailure, Entry, Outcome, ResultSet};

verus! {

/// One (backend, benchmark) combination of the selection matrix.
#[derive(Clone, Copy, Debug, PartialEq, Eq, Structural)]
pub struct Cell {
    pub backend: BackendValues,
    pub benchmark: BenchmarkValues,
}

/// The cells of a selection, backend by backend, each with every benchmark in
/// the order selected.
pub open spec fn cells_spec(backends: Seq<BackendValues>, benches: Seq<BenchmarkValues>) -> Seq<Cell> {
    Seq::new(
        (backends.len() * benches.len()) as nat,
        |k: int| Cell { backend: backends[k / benches.len() as int], benchmark: benches[k % benches.len() as int] },
    )
}

/// Expands a selection into its cells: the cross product of the backends and
/// the benchmarks, backend-major.
pub fn selection_cells(backends: &Vec<BackendValues>, benches: &Vec<BenchmarkValues>) -> (r: Vec<Cell>)
    requires
        backends@.len() * benches@.len() <= usize::MAX,
    ensures
        r@ == cells_spec(backends@, benches@),
{
    let nb = backends.len();
    let n = benches.len();
    let mut r: Vec<Cell> = Vec::new();
    let mut i: usize = 0;
    while i < nb
        invariant
            nb == backends@.len(),
            n == benches@.len(),
            nb * n <= usize::MAX,
            i <= nb,
            r@.len() == i * n,
            forall|k: int| 0 <= k < r@.len() ==> #[trigger] r@[k] == (Cell { backend: backends@[k / n as int], benchmark: benches@[k % n as int] }),
        decreases nb - i,
    {
        let mut j: usize = 0;
        while j < n
            invariant
                nb == backends@.len(),
                n == benches@.len(),
                nb * n <= usize::MAX,
                i < nb,
                j <= n,
                r@.len() == i * n + j,
                forall|k: int| 0 <= k < r@.len() ==> #[trigger] r@[k] == (Cell { backend: backends@[k / n as int], benchmark: benches@[k % n as int] }),
            decreases n - j,
        {
            proof {
                vstd::arithmetic::div_mod::lemma_fundamental_div_mod_converse(
                    (i * n + j) as int, n as int, i as int, j as int);
                vstd::arithmetic::mul::lemma_mul_is_distributive_add_other_way(n as int, i as int, 1);
                vstd::arithmetic::mul::lemma_mul_inequality(i as int + 1, nb as int, n as int);
            }
            r.push(Cell { backend: backends[i], benchmark: benches[j] });
            j = j + 1;
        }
        proof {
            vstd::arithmetic::mul::lemma_mul_is_distributive_add_other_way(n as int, i as int, 1);
        }
        i = i + 1;
    }
    assert(r@ =~= cells_spec(backends@, benches@));
    r
}

/// How the isolated run of one cell ended, as the driver observed it.
pub enum ChildReport {
    /// The isolated context could not be started.
    LaunchFailed,
    /// The operator interrupted the run.
    Cancelled,
    /// Non-zero status or a signal.
    ExitedAbnormally,
    /// Clean exit; the handoff artifact, decoded, or why it could not be.
    Finished(Result<ResultSet, CellFailure>),
}

/// The outcome that a report files under its cell's key, given the entry the
/// child's result set holds under that key, if any.
pub open spec fn reported_outcome(report: ChildReport, found: Option<Entry>) -> Outcome {
    match report {
        ChildReport::LaunchFailed => Outcome::Failed(CellFailure::IsolationFailure),
        ChildReport::Cancelled => Outcome::Failed(CellFailure::Cancelled),
        ChildReport::ExitedAbnormally => Outcome::Failed(CellFailure::IsolationFailure),
        ChildReport::Finished(Err(f)) => Outcome::Failed(f),
        ChildReport::Finished(Ok(_)) => match found {
            Some(e) => e.outcome,
            None => Outcome::Failed(CellFailure::IsolationFailure),
        },
    }
}

/// The entry filed under `key` in `entries`, if any.
pub open spec fn entry_under(entries: Seq<Entry>, key: (Seq<char>, Seq<char>)) -> Option<Entry> {
    if exists|i: int| 0 <= i < entries.len() && key_of(entries[i]) == key {
        Some(entries[choose|i: int| 0 <= i < entries.len() && key_of(entries[i]) == key])
    } else {
        None
    }
}

/// The entry that a child's report yields for its cell.
pub open spec fn found_for(report: ChildReport, key: (Seq<char>, Seq<char>)) -> Option<Entry> {
    match report {
        ChildReport::Finished(Ok(rs)) => entry_under(rs.entries@, key),
        _ => None,
    }
}

/// Folds the report of one cell's isolated run into the merged result set. A
/// failed cell is filed as a failure, never dropped, and never disturbs the
/// entries of other cells.
pub fn merge_cell(merged: &mut ResultSet, spec_name: &str, backend_id: &str, report: ChildReport)
    requires
        old(merged).wf(),
        report matches ChildReport::Finished(Ok(rs)) ==> rs.wf(),
    ensures
        final(merged).wf(),
        final(merged).timestamp == old(merged).timestamp,
        exists|e: Entry| {
            &&& key_of(e) == (spec_name@, backend_id@)
            &&& e.outcome == reported_outcome(report, found_for(report, (spec_name@, backend_id@)))
            &&& final(merged).entries@ == recorded(old(merged).entries@, e)
        },
{
    let ghost key = (spec_name@, backend_id@);
    let ghost found = found_for(report, key);
    let ghost expected = reported_outcome(report, found);
    let outcome = match report {
        ChildReport::LaunchFailed => Outcome::Failed(CellFailure::IsolationFailure),
        ChildReport::Cancelled => Outcome::Failed(CellFailure::Cancelled),
        ChildReport::ExitedAbnormally => Outcome::Failed(CellFailure::IsolationFailure),
        ChildReport::Finished(Err(f)) => Outcome::Failed(f),
        ChildReport::Finished(Ok(mut rs)) => {
            match rs.find(spec_name, backend_id) {
                Some(i) => {
                    proof {
                        let j = choose|j: int| 0 <= j < rs.entries@.len() && key_of(rs.entries@[j]) == key;
                        assert(j == i as int);
                    }
                    let e = rs.entries.remove(i);
                    assert(entry_consistent(e));
                    e.outcome
                },
                None => {
                    proof {
                        assert(!exists|j: int| 0 <= j < rs.entries@.len() && key_of(rs.entries@[j]) == key) by {
                            assert(forall|j: int| 0 <= j < rs.entries@.len() ==> key_of(#[trigger] rs.entries@[j]) != key);
                        }
                    }
                    Outcome::Failed(CellFailure::IsolationFailure)
                },
            }
        },
    };
    assert(outcome == expected);
    let e = Entry { spec_name: spec_name.to_owned(), backend_id: backend_id.to_owned(), outcome };
    assert(entry_consistent(e));
    merged.insert_entry(e);
}

/// Where one cell stands: `Pending`, then `Launched`, then `Succeeded` or
/// `Failed`. Both last states are terminal; a failed cell is not retried.
#[derive(Clone, Copy, Debug, PartialEq, Eq, Structural)]
pub enum CellState {
    Pending,
    Launched,
    Succeeded,
    Failed(CellFailure),
}

impl CellState {
    /// The state after an attempt to start the cell's isolated run.
    pub fn on_launch(self, started: bool) -> (r: CellState)
        ensures
            r == match self {
                CellState::Pending => if started {
                    CellState::Launched
                } else {
                    CellState::Failed(CellFailure::IsolationFailure)
                },
                _ => self,
            },
    {
        match self {
            CellState::Pending => if started {
                CellState::Launched
            } else {
                CellState::Failed(CellFailure::IsolationFailure)
            },
            _ => self,
        }
    }

    /// The state after the cell's outcome is known.
    pub fn on_outcome(self, outcome: &Outcome) -> (r: CellState)
        ensures
            r == match self {
                CellState::Launched => match outcome {
                    Outcome::Succeeded(_) => CellState::Succeeded,
                    Outcome::Failed(f) => CellState::Failed(*f),
                },
                _ => self,
            },
    {
        match self {
            CellState::Launched => match outcome {
                Outcome::Succeeded(_) => CellState::Succeeded,
                Outcome::Failed(f) => CellState::Failed(*f),
            },
            _ => self,
        }
    }

    /// The state after the operator interrupts the run: an unfinished cell
    /// fails as cancelled, a finished one keeps its state.
    pub fn on_cancel(self) -> (r: CellState)
        ensures
            r == match self {
                CellState::Pending | CellState::Launched => CellState::Failed(CellFailure::Cancelled),
                _ => self,
            },
    {
        match self {
            CellState::Pending | CellState::Launched => CellState::Failed(CellFailure::Cancelled),
            _ => self,
        }
    }
}

/// How a whole orchestrated run ended.
#[derive(Clone, Copy, Debug, PartialEq, Eq, Structural)]
pub enum RunStatus {
    NothingRun,
    AllSucceeded,
    PartialFailure,
    AllFailed,
}

/// The number of entries that hold a measurement.
pub open spec fn n_succeeded(entries: Seq<Entry>) -> nat
    decreases entries.len(),
{
    if entries.len() == 0 {
        0
    } else {
        n_succeeded(entries.drop_last()) + if entries.last().outcome is Succeeded { 1nat } else { 0nat }
    }
}

pub open spec fn status_spec(entries: Seq<Entry>) -> RunStatus {
    if entries.len() == 0 {
        RunStatus::NothingRun
    } else if n_succeeded(entries) == entries.len() {
        RunStatus::AllSucceeded
    } else if n_succeeded(entries) == 0 {
        RunStatus::AllFailed
    } else {
        RunStatus::PartialFailure
    }
}

proof fn lemma_n_succeeded_bound(entries: Seq<Entry>)
    ensures
        n_succeeded(entries) <= entries.len(),
    decreases entries.len(),
{
    if entries.len() > 0 {
        lemma_n_succeeded_bound(entries.drop_last());
    }
}

/// Summarizes a merged result set: whether every cell succeeded, some failed,
/// or all did.
pub fn run_status(rs: &ResultSet) -> (r: RunStatus)
    ensures
        r == status_spec(rs.entries@),
{
    let n = rs.entries.len();
    let mut ok: usize = 0;
    let mut i: usize = 0;
    while i < n
        invariant
            n == rs.entries@.len(),
            i <= n,
            ok as nat == n_succeeded(rs.entries@.subrange(0, i as int)),
            ok <= i,
        decreases n - i,
    {
        proof {
            let s = rs.entries@.subrange(0, i as int + 1);
            assert(s.drop_last() =~= rs.entries@.subrange(0, i as int));
        }
        if let Outcome::Succeeded(_) = &rs.entries[i].outcome {
            ok = ok + 1;
        }
        i = i + 1;
    }
    assert(rs.entries@.subrange(0, n as int) =~= rs.entries@);
    if n == 0 {
        RunStatus::NothingRun
    } else if ok == n {
        RunStatus::AllSucceeded
    } else if ok == 0 {
        RunStatus::AllFailed
    } else {
        RunStatus::PartialFailure
    }
}

/// The process exit status for a run: zero only when no cell failed.
pub fn exit_code(status: RunStatus) -> (r: i32)
    ensures
        r == match status {
            RunStatus::NothingRun => 0i32,
            RunStatus::AllSucceeded => 0i32,
            RunStatus::AllFailed => 1i32,
            RunStatus::PartialFailure => 2i32,
        },
{
    match status {
        RunStatus::NothingRun => 0,
        RunStatus::AllSucceeded => 0,
        RunStatus::AllFailed => 1,
        RunStatus::PartialFailure => 2,
    }
}

/// Where the isolated run of a cell leaves its result set:
/// `results/<backend_id>/<benchmark_name>.json`.
pub fn handoff_path(backend_id: &str, benchmark_name: &str) -> (r: String)
    ensures
        r@ == "results/"@ + backend_id@ + "/"@ + benchmark_name@ + ".json"@,
{
    let r = String::from_str("results/").concat(backend_id).concat("/").concat(benchmark_name).concat(".json");
    proof { reveal_strlit("results/"); reveal_strlit("/"); reveal_strlit(".json"); }
    r
}

/// Where the artifact is written before it is renamed onto the handoff path,
/// so that a reader never sees it half written.
pub fn handoff_temp_path(backend_id: &str, benchmark_name: &str) -> (r: String)
    ensures
        r@ == "results/"@ + backend_id@ + "/"@ + benchmark_name@ + ".json.tmp"@,
{
    let r = String::from_str("results/").concat(backend_id).concat("/").concat(benchmark_name).concat(".json.tmp");
    r
}

} // verus!
