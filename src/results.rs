use vstd::prelude::*;
use crate::engine::{EngineError, Measurement};

verus! {

/// Why a cell of the selection matrix produced no measurement.
#[derive(Clone, Copy, Debug, PartialEq, Eq, Structural)]
pub enum CellFailure {
    ContractViolation,
    PreparationFailure,
    ExecutionFailure,
    /// The isolated run could not be launched, exited abnormally or left no
    /// handoff artifact.
    IsolationFailure,
    /// The handoff artifact could not be decoded.
    SerializationFailure,
    /// The operator interrupted the run.
    Cancelled,
}

/// The cell failure that an engine error stands for.
pub fn cell_failure(e: EngineError) -> (r: CellFailure)
    ensures
        r == match e {
            EngineError::ContractViolation => CellFailure::ContractViolation,
            EngineError::PreparationFailure => CellFailure::PreparationFailure,
            EngineError::ExecutionFailure => CellFailure::ExecutionFailure,
        },
{
    match e {
        EngineError::ContractViolation => CellFailure::ContractViolation,
        EngineError::PreparationFailure => CellFailure::PreparationFailure,
        EngineError::ExecutionFailure => CellFailure::ExecutionFailure,
    }
}

/// What a cell came to.
pub enum Outcome {
    Succeeded(Measurement),
    Failed(CellFailure),
}

/// One cell of a result set, keyed by benchmark name and backend identity.
pub struct Entry {
    pub spec_name: String,
    pub backend_id: String,
    pub outcome: Outcome,
}

/// The measurements and failures of a run, at most one per key, with the
/// metadata of the environment that produced them.
pub struct ResultSet {
    pub entries: Vec<Entry>,
    pub timestamp: u64,
    pub host: String,
    pub git_revision: String,
}

/// The key of an entry.
pub open spec fn key_of(e: Entry) -> (Seq<char>, Seq<char>) {
    (e.spec_name@, e.backend_id@)
}

/// No two entries share a key.
pub open spec fn keys_unique(entries: Seq<Entry>) -> bool {
    forall|i: int, j: int|
        0 <= i < entries.len() && 0 <= j < entries.len() && i != j ==> key_of(#[trigger] entries[i])
            != key_of(#[trigger] entries[j])
}

/// A measurement is filed under its own benchmark name and backend.
pub open spec fn entry_consistent(e: Entry) -> bool {
    e.outcome matches Outcome::Succeeded(m) ==> (m.spec_name@ == e.spec_name@ && m.backend_id@
        == e.backend_id@)
}

/// The entries after `e` is recorded into `entries`: it replaces the entry of
/// the same key, or is appended when there is none.
pub open spec fn recorded(entries: Seq<Entry>, e: Entry) -> Seq<Entry> {
    if exists|i: int| 0 <= i < entries.len() && key_of(entries[i]) == key_of(e) {
        let i = choose|i: int| 0 <= i < entries.len() && key_of(entries[i]) == key_of(e);
        entries.update(i, e)
    } else {
        entries.push(e)
    }
}

impl ResultSet {
    pub open spec fn wf(&self) -> bool {
        &&& keys_unique(self.entries@)
        &&& forall|i: int| 0 <= i < self.entries@.len() ==> entry_consistent(#[trigger] self.entries@[i])
    }

    /// An empty result set stamped with the given environment metadata.
    pub fn new(timestamp: u64, host: String, git_revision: String) -> (r: ResultSet)
        ensures
            r.wf(),
            r.entries@.len() == 0,
            r.timestamp == timestamp,
            r.host == host,
            r.git_revision == git_revision,
    {
        ResultSet { entries: Vec::new(), timestamp, host, git_revision }
    }

    /// The position of the entry filed under the given key, if any.
    pub fn find(&self, spec_name: &str, backend_id: &str) -> (r: Option<usize>)
        requires
            self.wf(),
        ensures
            r matches Some(i) ==> i < self.entries@.len() && key_of(self.entries@[i as int]) == (
            spec_name@, backend_id@),
            r is None ==> forall|i: int|
                0 <= i < self.entries@.len() ==> key_of(#[trigger] self.entries@[i]) != (
                spec_name@, backend_id@),
    {
        let mut i: usize = 0;
        while i < self.entries.len()
            invariant
                i <= self.entries@.len(),
                forall|k: int|
                    0 <= k < i ==> key_of(#[trigger] self.entries@[k]) != (spec_name@, backend_id@),
            decreases self.entries@.len() - i,
        {
            let e = &self.entries[i];
            if str_eq(e.spec_name.as_str(), spec_name) && str_eq(e.backend_id.as_str(), backend_id) {
                return Some(i);
            }
            i = i + 1;
        }
        None
    }

    /// Files an entry under its key. An entry already filed under that key is
    /// replaced (last write wins); the number of entries then stays the same.
    pub fn insert_entry(&mut self, e: Entry)
        requires
            old(self).wf(),
            entry_consistent(e),
        ensures
            final(self).wf(),
            final(self).entries@ == recorded(old(self).entries@, e),
            final(self).timestamp == old(self).timestamp,
            final(self).host == old(self).host,
            final(self).git_revision == old(self).git_revision,
            (exists|i: int| 0 <= i < old(self).entries@.len() && key_of(old(self).entries@[i]) == key_of(e))
                ==> final(self).entries@.len() == old(self).entries@.len(),
            (forall|i: int| 0 <= i < old(self).entries@.len() ==> key_of(#[trigger] old(self).entries@[i]) != key_of(e))
                ==> final(self).entries@.len() == old(self).entries@.len() + 1,
    {
        let found = self.find(e.spec_name.as_str(), e.backend_id.as_str());
        match found {
            Some(i) => {
                proof {
                    let j = choose|j: int| 0 <= j < self.entries@.len() && key_of(self.entries@[j]) == key_of(e);
                    assert(j == i as int);
                }
                self.entries.set(i, e);
            },
            None => {
                self.entries.push(e);
                proof {
                    assert(!exists|j: int| 0 <= j < old(self).entries@.len() && key_of(old(self).entries@[j]) == key_of(e)) by {
                        assert(forall|j: int| 0 <= j < old(self).entries@.len() ==> key_of(#[trigger] old(self).entries@[j]) != key_of(e));
                    }
                }
            },
        }
    }

    /// Records a measurement under its benchmark name and backend identity,
    /// replacing a previous entry of that key.
    pub fn record(&mut self, m: Measurement)
        requires
            old(self).wf(),
        ensures
            final(self).wf(),
            final(self).entries@ == recorded(
                old(self).entries@,
                Entry { spec_name: m.spec_name, backend_id: m.backend_id, outcome: Outcome::Succeeded(m) },
            ),
            (exists|i: int| 0 <= i < old(self).entries@.len() && key_of(old(self).entries@[i]) == (m.spec_name@, m.backend_id@))
                ==> final(self).entries@.len() == old(self).entries@.len(),
            (forall|i: int| 0 <= i < old(self).entries@.len() ==> key_of(#[trigger] old(self).entries@[i]) != (m.spec_name@, m.backend_id@))
                ==> final(self).entries@.len() == old(self).entries@.len() + 1,
    {
        let e = Entry { spec_name: m.spec_name.clone(), backend_id: m.backend_id.clone(), outcome: Outcome::Succeeded(m) };
        self.insert_entry(e);
    }

    /// Records that a cell failed, replacing a previous entry of its key.
    pub fn record_failure(&mut self, spec_name: &str, backend_id: &str, failure: CellFailure)
        requires
            old(self).wf(),
        ensures
            final(self).wf(),
            exists|e: Entry| {
                &&& key_of(e) == (spec_name@, backend_id@)
                &&& e.outcome == Outcome::Failed(failure)
                &&& final(self).entries@ == recorded(old(self).entries@, e)
            },
    {
        let e = Entry { spec_name: spec_name.to_owned(), backend_id: backend_id.to_owned(), outcome: Outcome::Failed(failure) };
        self.insert_entry(e);
    }
}

/// Whether two strings hold the same characters.
pub fn str_eq(a: &str, b: &str) -> (r: bool)
    ensures
        r == (a@ == b@),
{
    let n = a.unicode_len();
    if n != b.unicode_len() {
        return false;
    }
    let mut i: usize = 0;
    while i < n
        invariant
            n == a@.len(),
            n == b@.len(),
            i <= n,
            forall|k: int| 0 <= k < i ==> a@[k] == b@[k],
        decreases n - i,
    {
        if a.get_char(i) != b.get_char(i) {
            return false;
        }
        i = i + 1;
    }
    assert(a@ =~= b@);
    true
}

} // verus!
