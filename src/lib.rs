use vstd::prelude::*;

/// The credential cache's contents and the header that presents a token.
pub mod auth;
/// The backends and benchmarks that can be selected, and their identifiers.
pub mod catalog;
/// The byte encoding of result sets, and its round trip.
pub mod codec;
/// The timing protocol that measures one benchmark on one backend.
pub mod engine;
/// Expansion of a selection into cells, and merging of their results.
pub mod orchestrator;
/// Result sets keyed by benchmark name and backend identity.
pub mod results;

use crate::catalog::{
    all_backends, all_backends_spec, all_benchmarks, all_benchmarks_spec, backend_name_spec,
    benchmark_name_spec, BackendValues, BenchmarkValues,
};
use crate::orchestrator::{cells_spec, selection_cells, Cell};

verus! {

/// A request of the operator.
pub enum Command {
    /// Obtain and store an access token.
    Auth,
    /// List the available backends and benchmarks.
    List,
    /// Run every selected benchmark on every selected backend.
    Run { backends: Vec<BackendValues>, benches: Vec<BenchmarkValues> },
}

/// What carrying out a command amounts to.
pub enum Dispatch {
    /// Run the device authorization flow and store the token.
    Authenticate,
    /// Show these backend and benchmark identifiers.
    List { backends: Vec<String>, benchmarks: Vec<String> },
    /// The selection is empty on one axis: nothing runs, and the operator is told.
    NothingSelected,
    /// Run these cells, each in isolation.
    Run(Vec<Cell>),
}

/// The names hold every backend identifier, then every benchmark identifier,
/// in catalog order.
pub open spec fn lists_catalog(backends: Seq<String>, benchmarks: Seq<String>) -> bool {
    &&& backends.len() == all_backends_spec().len()
    &&& forall|k: int| 0 <= k < backends.len() ==> #[trigger] backends[k]@ == backend_name_spec(all_backends_spec()[k])
    &&& benchmarks.len() == all_benchmarks_spec().len()
    &&& forall|k: int| 0 <= k < benchmarks.len() ==> #[trigger] benchmarks[k]@ == benchmark_name_spec(all_benchmarks_spec()[k])
}

/// Decides what a command amounts to.
pub fn execute(command: Command) -> (r: Dispatch)
    requires
        command matches Command::Run { backends, benches } ==> backends@.len() * benches@.len()
            <= usize::MAX,
    ensures
        match command {
            Command::Auth => r is Authenticate,
            Command::List => r matches Dispatch::List { backends, benchmarks } && lists_catalog(
                backends@,
                benchmarks@,
            ),
            Command::Run { backends, benches } => if backends@.len() == 0 || benches@.len() == 0 {
                r is NothingSelected
            } else {
                r matches Dispatch::Run(cells) && cells@ == cells_spec(backends@, benches@)
            },
        },
{
    match command {
        Command::Auth => Dispatch::Authenticate,
        Command::List => Dispatch::List { backends: backend_names(), benchmarks: benchmark_names() },
        Command::Run { backends, benches } => {
            if backends.len() == 0 || benches.len() == 0 {
                Dispatch::NothingSelected
            } else {
                Dispatch::Run(selection_cells(&backends, &benches))
            }
        },
    }
}

/// The identifiers of every backend, in catalog order.
fn backend_names() -> (r: Vec<String>)
    ensures
        r@.len() == all_backends_spec().len(),
        forall|k: int| 0 <= k < r@.len() ==> #[trigger] r@[k]@ == backend_name_spec(all_backends_spec()[k]),
{
    let all = all_backends();
    let mut r: Vec<String> = Vec::new();
    let mut i: usize = 0;
    while i < all.len()
        invariant
            all@ == all_backends_spec(),
            i <= all@.len(),
            r@.len() == i,
            forall|k: int| 0 <= k < i ==> #[trigger] r@[k]@ == backend_name_spec(all@[k]),
        decreases all@.len() - i,
    {
        let n = all[i].name();
        r.push(n);
        i = i + 1;
    }
    r
}

/// The identifiers of every benchmark, in catalog order.
fn benchmark_names() -> (r: Vec<String>)
    ensures
        r@.len() == all_benchmarks_spec().len(),
        forall|k: int| 0 <= k < r@.len() ==> #[trigger] r@[k]@ == benchmark_name_spec(all_benchmarks_spec()[k]),
{
    let all = all_benchmarks();
    let mut r: Vec<String> = Vec::new();
    let mut i: usize = 0;
    while i < all.len()
        invariant
            all@ == all_benchmarks_spec(),
            i <= all@.len(),
            r@.len() == i,
            forall|k: int| 0 <= k < i ==> #[trigger] r@[k]@ == benchmark_name_spec(all@[k]),
        decreases all@.len() - i,
    {
        let n = all[i].name();
        r.push(n);
        i = i + 1;
    }
    r
}

} // verus!
