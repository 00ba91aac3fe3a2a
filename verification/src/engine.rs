//! The simulation engine: it owns the live state of a run and advances it one
//! step at a time, publishing a snapshot after each step.
//!
//! Besides the two kernels of a step, the engine uses a third one:
//! `clock(step_index, time_step)` returns the simulated time of a step.

use vstd::prelude::*;
use crate::body::{copy_bodies, Body, Snapshot, SnapshotView, Vector2};
use crate::config::SimulationConfig;
use crate::dynamics::{advance, drift_total, kick_total, singular_at, stepped};

verus! {

/// Why a run was aborted.
#[derive(Clone, Copy, Debug, PartialEq, Eq)]
pub enum SimulationError {
    /// At step `step_index` the force of body `source` on body `target` was
    /// undefined: the two bodies were too close.
    Singularity { step_index: u64, target: usize, source: usize },
}

/// The mathematical content of an [`Engine`].
pub struct EngineView<S> {
    pub time_step: S,
    pub total_steps: nat,
    /// The number of steps taken so far, which is the index of the next step.
    pub step_index: nat,
    /// The live state: the bodies after the steps taken so far.
    pub bodies: Seq<Body<S>>,
}

/// The engine of one run.
#[derive(Debug)]
pub struct Engine<S> {
    time_step: S,
    total_steps: u64,
    step_index: u64,
    bodies: Vec<Body<S>>,
}

impl<S> View for Engine<S> {
    type V = EngineView<S>;

    closed spec fn view(&self) -> EngineView<S> {
        EngineView {
            time_step: self.time_step,
            total_steps: self.total_steps as nat,
            step_index: self.step_index as nat,
            bodies: self.bodies@,
        }
    }
}

impl<S> Engine<S> {
    #[verifier::type_invariant]
    spec fn well_formed(self) -> bool {
        self.step_index <= self.total_steps
    }
}

/// `clock` accepts every step index and every time step.
pub open spec fn clock_total<S, C: Fn(u64, S) -> S>(clock: C) -> bool {
    forall|step_index: u64, time_step: S| call_requires(clock, (step_index, time_step))
}

/// `snapshot` is what the engine publishes after taking step `before.step_index`
/// from the state `before` to the state `after`.
pub open spec fn publishes<S, C: Fn(u64, S) -> S>(
    clock: C,
    before: EngineView<S>,
    after: EngineView<S>,
    snapshot: SnapshotView<S>,
) -> bool {
    &&& snapshot.step_index == before.step_index
    &&& snapshot.bodies == after.bodies
    &&& call_ensures(clock, (before.step_index as u64, before.time_step), snapshot.time)
}

/// What a call of `Engine::step` can do to the engine and return.
pub open spec fn step_outcome<
    S,
    K: Fn(Body<S>, Body<S>, S) -> Option<Vector2<S>>,
    D: Fn(Body<S>, S) -> Vector2<S>,
    C: Fn(u64, S) -> S,
>(
    kick: K,
    drift: D,
    clock: C,
    before: EngineView<S>,
    after: EngineView<S>,
    result: Result<Option<SnapshotView<S>>, SimulationError>,
) -> bool {
    if before.step_index >= before.total_steps {
        // The run is over: nothing happens.
        result == Ok::<Option<SnapshotView<S>>, SimulationError>(None) && after == before
    } else {
        match result {
            Ok(Some(snapshot)) => {
                &&& after.time_step == before.time_step
                &&& after.total_steps == before.total_steps
                &&& after.step_index == before.step_index + 1
                &&& stepped(kick, drift, before.bodies, before.time_step, after.bodies)
                &&& publishes(clock, before, after, snapshot)
            },
            Ok(None) => false,
            Err(SimulationError::Singularity { step_index, target, source }) => {
                &&& after == before
                &&& step_index == before.step_index
                &&& singular_at(
                    kick,
                    before.bodies,
                    before.time_step,
                    target as int,
                    source as int,
                )
            },
        }
    }
}

/// The view of what `Engine::step` returned.
pub open spec fn step_result_view<S>(
    result: Result<Option<Snapshot<S>>, SimulationError>,
) -> Result<Option<SnapshotView<S>>, SimulationError> {
    match result {
        Ok(Some(snapshot)) => Ok(Some(snapshot@)),
        Ok(None) => Ok(None),
        Err(error) => Err(error),
    }
}

impl<S: Copy> Engine<S> {
    /// An engine at the start of the run that `config` describes. The engine
    /// works on its own copy of the initial bodies.
    pub fn new(config: &SimulationConfig<S>) -> (engine: Engine<S>)
        ensures
            engine@ == (EngineView {
                time_step: config@.time_step,
                total_steps: config@.total_steps,
                step_index: 0,
                bodies: config@.initial_bodies,
            }),
    {
        Engine {
            time_step: config.time_step(),
            total_steps: config.total_steps(),
            step_index: 0,
            bodies: copy_bodies(config.initial_bodies()),
        }
    }

    /// The number of steps taken so far.
    pub fn step_index(&self) -> (step_index: u64)
        ensures
            step_index == self@.step_index,
            step_index <= self@.total_steps,
    {
        proof {
            use_type_invariant(self);
        }
        self.step_index
    }

    /// The number of steps of the run.
    pub fn total_steps(&self) -> (total_steps: u64)
        ensures
            total_steps == self@.total_steps,
    {
        self.total_steps
    }

    /// The time step of the run.
    pub fn time_step(&self) -> (time_step: S)
        ensures
            time_step == self@.time_step,
    {
        self.time_step
    }

    /// The live state: the bodies after the steps taken so far.
    pub fn bodies(&self) -> (bodies: &Vec<Body<S>>)
        ensures
            bodies@ == self@.bodies,
    {
        &self.bodies
    }

    /// Whether all steps of the run have been taken.
    pub fn is_finished(&self) -> (finished: bool)
        ensures
            finished == (self@.step_index == self@.total_steps),
            self@.step_index <= self@.total_steps,
    {
        proof {
            use_type_invariant(self);
        }
        self.step_index >= self.total_steps
    }

    /// Takes the next step of the run and returns its snapshot, or `None` when
    /// the run is over.
    ///
    /// The snapshot is a copy of the state after the step and carries the index
    /// of the step and its time. When the step meets a singular pair of bodies
    /// the engine is left as it was and the error names the step and the pair.
    pub fn step<
        K: Fn(Body<S>, Body<S>, S) -> Option<Vector2<S>>,
        D: Fn(Body<S>, S) -> Vector2<S>,
        C: Fn(u64, S) -> S,
    >(&mut self, kick: &K, drift: &D, clock: &C) -> (result: Result<
        Option<Snapshot<S>>,
        SimulationError,
    >)
        requires
            kick_total(*kick),
            drift_total(*drift),
            clock_total(*clock),
        ensures
            step_outcome(
                *kick,
                *drift,
                *clock,
                old(self)@,
                final(self)@,
                step_result_view(result),
            ),
    {
        proof {
            use_type_invariant(&*self);
        }
        if self.step_index >= self.total_steps {
            return Ok(None);
        }
        match advance(&self.bodies, self.time_step, kick, drift) {
            Err(pair) => Err(
                SimulationError::Singularity {
                    step_index: self.step_index,
                    target: pair.target,
                    source: pair.source,
                },
            ),
            Ok(next) => {
                let time = clock(self.step_index, self.time_step);
                let snapshot = Snapshot {
                    time,
                    step_index: self.step_index,
                    bodies: copy_bodies(&next),
                };
                self.bodies = next;
                self.step_index = self.step_index + 1;
                Ok(Some(snapshot))
            },
        }
    }
}

/// Snapshot isolation. A snapshot is a value of its own: when the engine
/// takes a further step from `between` to `end`, whatever the outcome, the
/// snapshot that the step before published still holds the index of its step
/// and the state `between`. A snapshot that the further step publishes carries
/// the next index.
pub proof fn lemma_snapshot_outlives_later_step<
    S,
    K: Fn(Body<S>, Body<S>, S) -> Option<Vector2<S>>,
    D: Fn(Body<S>, S) -> Vector2<S>,
    C: Fn(u64, S) -> S,
>(
    kick: K,
    drift: D,
    clock: C,
    start: EngineView<S>,
    between: EngineView<S>,
    end: EngineView<S>,
    snapshot: SnapshotView<S>,
    later: Result<Option<SnapshotView<S>>, SimulationError>,
)
    requires
        step_outcome(kick, drift, clock, start, between, Ok(Some(snapshot))),
        step_outcome(kick, drift, clock, between, end, later),
    ensures
        snapshot.step_index == start.step_index,
        snapshot.bodies == between.bodies,
        later matches Ok(Some(next)) ==> next.step_index == snapshot.step_index + 1 && next.bodies
            == end.bodies,
{
}

} // verus!
