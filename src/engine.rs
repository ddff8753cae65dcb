use vstd::prelude::*;

verus! {

/// A workload as its author declares it: a name, the input shapes used for
/// labelling, and how many timed repeats one measurement takes.
pub struct BenchmarkSpec {
    pub name: String,
    pub input_shapes: Vec<Vec<usize>>,
    pub repeat_count: usize,
}

/// The timed samples of one (benchmark, backend) cell, in execution order.
pub struct Measurement {
    pub spec_name: String,
    pub backend_id: String,
    pub durations: Vec<u64>,
    pub device_sync_included: bool,
}

/// Why the engine gave up on a cell.
#[derive(Clone, Copy, Debug, PartialEq, Eq, Structural)]
pub enum EngineError {
    /// The benchmark declared zero repeats or an empty name.
    ContractViolation,
    /// Preparing the input failed.
    PreparationFailure,
    /// An execution or a device synchronization failed.
    ExecutionFailure,
}

/// Where a measurement run stands.
#[derive(Clone, Copy, Debug, PartialEq, Eq, Structural)]
pub enum Phase {
    Preparing,
    Timing,
    Finished,
    Failed(EngineError),
}

/// What the driver observed since the last step.
#[derive(Clone, Copy, Debug, PartialEq, Eq, Structural)]
pub enum Event {
    /// The input was prepared on the device.
    Prepared,
    /// The input could not be prepared.
    PrepareFailed,
    /// One repeat ran: execute, then sync, inside the timed window.
    Timed(u64),
    /// Execute or sync failed during a repeat.
    ExecuteFailed,
}

/// What the driver must do next.
pub enum Action {
    /// Time the repeat of this index: start the clock, execute, sync, stop the clock.
    TimeRepeat(usize),
    /// All repeats ran; the measurement is complete.
    Complete(Measurement),
    /// The cell failed; no samples are kept.
    Abort(EngineError),
    /// The event does not apply to the current phase; nothing changed.
    Ignore,
}

/// The state of the timing protocol for one cell: prepare once, then
/// `repeat_count` timed repeats that reuse the prepared input.
pub struct MeasurementRun {
    pub spec_name: String,
    pub backend_id: String,
    pub repeat_count: usize,
    pub samples: Vec<u64>,
    pub phase: Phase,
}

impl MeasurementRun {
    pub open spec fn wf(&self) -> bool {
        &&& self.repeat_count >= 1
        &&& self.samples@.len() <= self.repeat_count
        &&& (self.phase == Phase::Preparing ==> self.samples@.len() == 0)
        &&& (self.phase == Phase::Timing ==> self.samples@.len() < self.repeat_count)
        &&& (self.phase is Failed ==> self.samples@.len() == 0)
    }

    /// Checks the benchmark's declared contract and opens a run that waits for
    /// the input to be prepared. Nothing is timed before this succeeds.
    pub fn start(spec: &BenchmarkSpec, backend_id: &str) -> (r: Result<MeasurementRun, EngineError>)
        ensures
            (spec.repeat_count == 0 || spec.name@.len() == 0) <==> r is Err,
            r is Err ==> r == Err::<MeasurementRun, EngineError>(EngineError::ContractViolation),
            r matches Ok(run) ==> {
                &&& run.wf()
                &&& run.phase == Phase::Preparing
                &&& run.repeat_count == spec.repeat_count
                &&& run.spec_name@ == spec.name@
                &&& run.backend_id@ == backend_id@
                &&& run.samples@.len() == 0
            },
    {
        if spec.repeat_count == 0 || spec.name.unicode_len() == 0 {
            return Err(EngineError::ContractViolation);
        }
        Ok(MeasurementRun {
            spec_name: spec.name.clone(),
            backend_id: backend_id.to_owned(),
            repeat_count: spec.repeat_count,
            samples: Vec::new(),
            phase: Phase::Preparing,
        })
    }

    /// Advances the protocol by one observed event and says what to do next.
    pub fn step(&mut self, event: Event) -> (action: Action)
        requires
            old(self).wf(),
        ensures
            final(self).wf(),
            final(self).repeat_count == old(self).repeat_count,
            final(self).spec_name == old(self).spec_name,
            final(self).backend_id == old(self).backend_id,
            match (old(self).phase, event) {
                (Phase::Preparing, Event::Prepared) => {
                    &&& final(self).phase == Phase::Timing
                    &&& final(self).samples@ == old(self).samples@
                    &&& action == Action::TimeRepeat(0)
                },
                (Phase::Preparing, Event::PrepareFailed) => {
                    &&& final(self).phase == Phase::Failed(EngineError::PreparationFailure)
                    &&& final(self).samples@.len() == 0
                    &&& action == Action::Abort(EngineError::PreparationFailure)
                },
                (Phase::Timing, Event::Timed(d)) => {
                    &&& final(self).samples@ == old(self).samples@.push(d)
                    &&& if final(self).samples@.len() == final(self).repeat_count {
                        &&& final(self).phase == Phase::Finished
                        &&& action matches Action::Complete(m)
                        &&& m.spec_name@ == old(self).spec_name@
                        &&& m.backend_id@ == old(self).backend_id@
                        &&& m.durations@ == final(self).samples@
                        &&& m.durations@.len() == old(self).repeat_count
                        &&& m.device_sync_included
                    } else {
                        &&& final(self).phase == Phase::Timing
                        &&& action == Action::TimeRepeat(final(self).samples@.len() as usize)
                    }
                },
                (Phase::Timing, Event::ExecuteFailed) => {
                    &&& final(self).phase == Phase::Failed(EngineError::ExecutionFailure)
                    &&& final(self).samples@.len() == 0
                    &&& action == Action::Abort(EngineError::ExecutionFailure)
                },
                _ => {
                    &&& final(self).phase == old(self).phase
                    &&& final(self).samples@ == old(self).samples@
                    &&& action == Action::Ignore
                },
            },
    {
        match (self.phase, event) {
            (Phase::Preparing, Event::Prepared) => {
                self.phase = Phase::Timing;
                Action::TimeRepeat(0)
            },
            (Phase::Preparing, Event::PrepareFailed) => {
                self.phase = Phase::Failed(EngineError::PreparationFailure);
                Action::Abort(EngineError::PreparationFailure)
            },
            (Phase::Timing, Event::Timed(d)) => {
                self.samples.push(d);
                if self.samples.len() == self.repeat_count {
                    self.phase = Phase::Finished;
                    Action::Complete(Measurement {
                        spec_name: self.spec_name.clone(),
                        backend_id: self.backend_id.clone(),
                        durations: self.samples.clone(),
                        device_sync_included: true,
                    })
                } else {
                    Action::TimeRepeat(self.samples.len())
                }
            },
            (Phase::Timing, Event::ExecuteFailed) => {
                self.samples = Vec::new();
                self.phase = Phase::Failed(EngineError::ExecutionFailure);
                Action::Abort(EngineError::ExecutionFailure)
            },
            _ => Action::Ignore,
        }
    }
}

} // verus!
