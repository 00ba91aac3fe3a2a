//! A whole run: the engine takes every step, the sampler decides which
//! snapshots are kept.

use vstd::prelude::*;
use crate::body::{snapshot_views, Body, Snapshot, SnapshotView, Vector2};
use crate::config::{ConfigView, SimulationConfig};
use crate::dynamics::{body_stepped, drift_total, kick_total, singular_at, stepped};
use crate::engine::{clock_total, Engine, SimulationError};
use crate::sampler::{
    is_retained, lemma_count_after_step, lemma_rank_within_run, lemma_ranks_increase,
    lemma_retained_is_multiple, lemma_retained_steps, lemma_sampled_prefix, retained_count,
    sampled, Sampler,
};

verus! {

/// The state `states[k + 1]` follows from `states[k]` by one step.
pub open spec fn step_link<
    S,
    K: Fn(Body<S>, Body<S>, S) -> Option<Vector2<S>>,
    D: Fn(Body<S>, S) -> Vector2<S>,
>(kick: K, drift: D, time_step: S, states: Seq<Seq<Body<S>>>, k: int) -> bool {
    stepped(kick, drift, states[k], time_step, states[k + 1])
}

/// `states` is a course that the system can take from `initial`: `states[k]`
/// is the state after `k` steps.
pub open spec fn trajectory<
    S,
    K: Fn(Body<S>, Body<S>, S) -> Option<Vector2<S>>,
    D: Fn(Body<S>, S) -> Vector2<S>,
>(kick: K, drift: D, initial: Seq<Body<S>>, time_step: S, states: Seq<Seq<Body<S>>>) -> bool {
    &&& states.len() >= 1
    &&& states[0] == initial
    &&& forall|k: int|
        0 <= k < states.len() - 1 ==> #[trigger] step_link(kick, drift, time_step, states, k)
}

/// `snapshot` is the snapshot of step `step_index` on the course `states`: it
/// carries that index, the time that `clock` gives for it, and the state after
/// the step.
pub open spec fn snapshot_of<S, C: Fn(u64, S) -> S>(
    clock: C,
    time_step: S,
    states: Seq<Seq<Body<S>>>,
    step_index: int,
    snapshot: SnapshotView<S>,
) -> bool {
    &&& snapshot.step_index == step_index
    &&& snapshot.bodies == states[step_index + 1]
    &&& call_ensures(clock, (step_index as u64, time_step), snapshot.time)
}

/// The run took all its steps along `states` and retained, in this order, the
/// snapshots of the steps `0`, `stride`, `2 * stride`, ... below `total_steps`.
pub open spec fn run_completed<
    S,
    K: Fn(Body<S>, Body<S>, S) -> Option<Vector2<S>>,
    D: Fn(Body<S>, S) -> Vector2<S>,
    C: Fn(u64, S) -> S,
>(
    kick: K,
    drift: D,
    clock: C,
    config: ConfigView<S>,
    stride: nat,
    states: Seq<Seq<Body<S>>>,
    retained: Seq<SnapshotView<S>>,
) -> bool {
    &&& trajectory(kick, drift, config.initial_bodies, config.time_step, states)
    &&& states.len() == config.total_steps + 1
    &&& retained.len() == retained_count(config.total_steps, stride)
    &&& forall|rank: int|
        0 <= rank < retained.len() ==> snapshot_of(
            clock,
            config.time_step,
            states,
            rank * stride,
            #[trigger] retained[rank],
        )
}

/// The run followed `states` for `step_index` steps and was aborted in the
/// next one, at the singular pair that `error` names.
pub open spec fn run_failed<
    S,
    K: Fn(Body<S>, Body<S>, S) -> Option<Vector2<S>>,
    D: Fn(Body<S>, S) -> Vector2<S>,
>(kick: K, drift: D, config: ConfigView<S>, states: Seq<Seq<Body<S>>>, error: SimulationError) -> bool {
    match error {
        SimulationError::Singularity { step_index, target, source } => {
            &&& trajectory(kick, drift, config.initial_bodies, config.time_step, states)
            &&& states.len() == step_index + 1
            &&& step_index < config.total_steps
            &&& singular_at(
                kick,
                states[step_index as int],
                config.time_step,
                target as int,
                source as int,
            )
        },
    }
}

/// The run can take all its steps and retain `retained`.
pub open spec fn can_complete<
    S,
    K: Fn(Body<S>, Body<S>, S) -> Option<Vector2<S>>,
    D: Fn(Body<S>, S) -> Vector2<S>,
    C: Fn(u64, S) -> S,
>(
    kick: K,
    drift: D,
    clock: C,
    config: ConfigView<S>,
    stride: nat,
    retained: Seq<SnapshotView<S>>,
) -> bool {
    exists|states: Seq<Seq<Body<S>>>| #[trigger]
        run_completed(kick, drift, clock, config, stride, states, retained)
}

/// The run can be aborted with `error`.
pub open spec fn can_fail<
    S,
    K: Fn(Body<S>, Body<S>, S) -> Option<Vector2<S>>,
    D: Fn(Body<S>, S) -> Vector2<S>,
>(kick: K, drift: D, config: ConfigView<S>, error: SimulationError) -> bool {
    exists|states: Seq<Seq<Body<S>>>| #[trigger] run_failed(kick, drift, config, states, error)
}

/// What `run` can return for a configuration and a stride.
pub open spec fn run_outcome<
    S,
    K: Fn(Body<S>, Body<S>, S) -> Option<Vector2<S>>,
    D: Fn(Body<S>, S) -> Vector2<S>,
    C: Fn(u64, S) -> S,
>(
    kick: K,
    drift: D,
    clock: C,
    config: ConfigView<S>,
    stride: nat,
    result: Result<Seq<SnapshotView<S>>, SimulationError>,
) -> bool {
    match result {
        Ok(retained) => can_complete(kick, drift, clock, config, stride, retained),
        Err(error) => can_fail(kick, drift, config, error),
    }
}

/// The view of what `run` returned.
pub open spec fn run_result_view<S>(
    result: Result<Vec<Snapshot<S>>, SimulationError>,
) -> Result<Seq<SnapshotView<S>>, SimulationError> {
    match result {
        Ok(retained) => Ok(snapshot_views(retained@)),
        Err(error) => Err(error),
    }
}

/// Runs the simulation that `config` describes from its first step to its
/// last and returns the snapshots that `sampler` retains, in the order of
/// their steps.
///
/// Every step is computed, whatever the stride. A step that cannot be carried
/// out aborts the run: no snapshot is returned, and the error names the step
/// and the pair of bodies.
pub fn run<
    S: Copy,
    K: Fn(Body<S>, Body<S>, S) -> Option<Vector2<S>>,
    D: Fn(Body<S>, S) -> Vector2<S>,
    C: Fn(u64, S) -> S,
>(config: &SimulationConfig<S>, sampler: &Sampler, kick: &K, drift: &D, clock: &C) -> (result:
    Result<Vec<Snapshot<S>>, SimulationError>)
    requires
        kick_total(*kick),
        drift_total(*drift),
        clock_total(*clock),
    ensures
        run_outcome(
            *kick,
            *drift,
            *clock,
            config@,
            sampler.spec_stride(),
            run_result_view(result),
        ),
{
    let mut engine = Engine::new(config);
    let mut retained: Vec<Snapshot<S>> = Vec::new();
    let ghost mut states: Seq<Seq<Body<S>>> = seq![config@.initial_bodies];
    let stride = sampler.stride();
    loop
        invariant
            kick_total(*kick),
            drift_total(*drift),
            clock_total(*clock),
            stride == sampler.spec_stride(),
            stride >= 1,
            engine@.time_step == config@.time_step,
            engine@.total_steps == config@.total_steps,
            engine@.step_index <= engine@.total_steps,
            states.len() == engine@.step_index + 1,
            states[engine@.step_index as int] == engine@.bodies,
            trajectory(*kick, *drift, config@.initial_bodies, config@.time_step, states),
            retained.len() == retained_count(engine@.step_index, stride as nat),
            forall|rank: int|
                0 <= rank < retained.len() ==> snapshot_of(
                    *clock,
                    config@.time_step,
                    states,
                    rank * stride,
                    #[trigger] retained@[rank]@,
                ),
        decreases engine@.total_steps - engine@.step_index,
    {
        let ghost before = engine@;
        let ghost course = states;
        match engine.step(kick, drift, clock) {
            Err(error) => {
                proof {
                    assert(run_failed(*kick, *drift, config@, states, error));
                }
                return Err(error);
            },
            Ok(None) => {
                proof {
                    let views = snapshot_views(retained@);
                    assert forall|rank: int| 0 <= rank < views.len() implies snapshot_of(
                        *clock,
                        config@.time_step,
                        states,
                        rank * stride,
                        #[trigger] views[rank],
                    ) by {
                        assert(views[rank] == retained@[rank]@);
                    }
                    assert(run_completed(
                        *kick,
                        *drift,
                        *clock,
                        config@,
                        sampler.spec_stride(),
                        states,
                        views,
                    ));
                }
                return Ok(retained);
            },
            Ok(Some(snapshot)) => {
                proof {
                    states = states.push(engine@.bodies);
                    assert forall|k: int| 0 <= k < states.len() - 1 implies #[trigger] step_link(
                        *kick,
                        *drift,
                        config@.time_step,
                        states,
                        k,
                    ) by {
                        if k < course.len() - 1 {
                            assert(step_link(*kick, *drift, config@.time_step, course, k));
                        }
                    }
                    lemma_count_after_step(before.step_index, stride as nat);
                    assert forall|rank: int| 0 <= rank < retained.len() implies snapshot_of(
                        *clock,
                        config@.time_step,
                        states,
                        rank * stride,
                        #[trigger] retained@[rank]@,
                    ) by {
                        lemma_rank_within_run(before.step_index, stride as nat, rank as nat);
                        assert(snapshot_of(
                            *clock,
                            config@.time_step,
                            course,
                            rank * stride,
                            retained@[rank]@,
                        ));
                    }
                }
                if sampler.retains(snapshot.step_index) {
                    retained.push(snapshot);
                }
            },
        }
    }
}

/// Monotonic time. Under a stride of one every step is retained, and the
/// snapshot at position `k` is the snapshot of step `k`: it carries the index
/// `k`, the time that the clock gives for step `k`, and the state after that
/// step.
pub proof fn lemma_unsampled_run_is_indexed_by_step<
    S,
    K: Fn(Body<S>, Body<S>, S) -> Option<Vector2<S>>,
    D: Fn(Body<S>, S) -> Vector2<S>,
    C: Fn(u64, S) -> S,
>(
    kick: K,
    drift: D,
    clock: C,
    config: ConfigView<S>,
    states: Seq<Seq<Body<S>>>,
    retained: Seq<SnapshotView<S>>,
    k: int,
)
    requires
        run_completed(kick, drift, clock, config, 1, states, retained),
        0 <= k < config.total_steps,
    ensures
        retained.len() == config.total_steps,
        retained[k].step_index == k,
        retained[k].bodies == states[k + 1],
        call_ensures(clock, (k as u64, config.time_step), retained[k].time),
{
    assert(snapshot_of(clock, config.time_step, states, k * 1, retained[k]));
}

/// The retained snapshots of a completed run are in strictly increasing order
/// of their steps, and all of their steps lie within the run.
pub proof fn lemma_retained_in_step_order<
    S,
    K: Fn(Body<S>, Body<S>, S) -> Option<Vector2<S>>,
    D: Fn(Body<S>, S) -> Vector2<S>,
    C: Fn(u64, S) -> S,
>(
    kick: K,
    drift: D,
    clock: C,
    config: ConfigView<S>,
    stride: nat,
    states: Seq<Seq<Body<S>>>,
    retained: Seq<SnapshotView<S>>,
    earlier: int,
    later: int,
)
    requires
        stride > 0,
        run_completed(kick, drift, clock, config, stride, states, retained),
        0 <= earlier < later < retained.len(),
    ensures
        retained[earlier].step_index < retained[later].step_index < config.total_steps,
{
    assert(snapshot_of(clock, config.time_step, states, earlier * stride, retained[earlier]));
    assert(snapshot_of(clock, config.time_step, states, later * stride, retained[later]));
    lemma_ranks_increase(stride, earlier as nat, later as nat);
    lemma_rank_within_run(config.total_steps, stride, later as nat);
}

/// Sampler stride correctness. A step of a completed run has its snapshot
/// retained exactly when it is a multiple of the stride, and it is then found
/// at the position of its rank, the quotient of the step by the stride.
pub proof fn lemma_retained_exactly_multiples<
    S,
    K: Fn(Body<S>, Body<S>, S) -> Option<Vector2<S>>,
    D: Fn(Body<S>, S) -> Vector2<S>,
    C: Fn(u64, S) -> S,
>(
    kick: K,
    drift: D,
    clock: C,
    config: ConfigView<S>,
    stride: nat,
    states: Seq<Seq<Body<S>>>,
    retained: Seq<SnapshotView<S>>,
    step_index: nat,
)
    requires
        stride > 0,
        run_completed(kick, drift, clock, config, stride, states, retained),
        step_index < config.total_steps,
    ensures
        is_retained(stride, step_index) <==> exists|rank: int|
            0 <= rank < retained.len() && (#[trigger] retained[rank]).step_index == step_index,
        is_retained(stride, step_index) ==> step_index / stride < retained.len() && retained[(
        step_index / stride) as int].step_index == step_index,
{
    lemma_retained_steps(config.total_steps, stride, step_index);
    if is_retained(stride, step_index) {
        let rank = (step_index / stride) as int;
        assert(snapshot_of(clock, config.time_step, states, rank * stride, retained[rank]));
    }
    if exists|rank: int|
        0 <= rank < retained.len() && (#[trigger] retained[rank]).step_index == step_index {
        let rank = choose|rank: int|
            0 <= rank < retained.len() && (#[trigger] retained[rank]).step_index == step_index;
        assert(snapshot_of(clock, config.time_step, states, rank * stride, retained[rank]));
        lemma_retained_is_multiple(stride, step_index);
        assert(step_index == (rank as nat) * stride);
    }
}

/// The sampler only selects. Sampling the record of an unsampled run gives a
/// record of the sampled run along the same course: the physics is the same
/// whatever the stride, only fewer snapshots are kept.
pub proof fn lemma_sampling_commutes_with_run<
    S,
    K: Fn(Body<S>, Body<S>, S) -> Option<Vector2<S>>,
    D: Fn(Body<S>, S) -> Vector2<S>,
    C: Fn(u64, S) -> S,
>(
    kick: K,
    drift: D,
    clock: C,
    config: ConfigView<S>,
    stride: nat,
    states: Seq<Seq<Body<S>>>,
    unsampled: Seq<SnapshotView<S>>,
)
    requires
        stride > 0,
        run_completed(kick, drift, clock, config, 1, states, unsampled),
    ensures
        run_completed(kick, drift, clock, config, stride, states, sampled(unsampled, stride)),
{
    assert forall|k: int| 0 <= k < unsampled.len() implies (#[trigger] unsampled[k]).step_index
        == k by {
        assert(snapshot_of(clock, config.time_step, states, k * 1, unsampled[k]));
    }
    lemma_sampled_prefix(unsampled, stride, unsampled.len());
    assert(unsampled.take(unsampled.len() as int) == unsampled);
    let retained = sampled(unsampled, stride);
    assert forall|rank: int| 0 <= rank < retained.len() implies snapshot_of(
        clock,
        config.time_step,
        states,
        rank * stride,
        #[trigger] retained[rank],
    ) by {
        let step = rank * stride;
        lemma_rank_within_run(config.total_steps, stride, rank as nat);
        assert(retained[rank] == unsampled[step]);
        assert(snapshot_of(clock, config.time_step, states, step * 1, unsampled[step]));
    }
}

/// The bodies of a run are stable. Every state on a course has the bodies of
/// the initial state: as many, at the same indices, with the same masses.
pub proof fn lemma_course_keeps_bodies<
    S,
    K: Fn(Body<S>, Body<S>, S) -> Option<Vector2<S>>,
    D: Fn(Body<S>, S) -> Vector2<S>,
>(kick: K, drift: D, initial: Seq<Body<S>>, time_step: S, states: Seq<Seq<Body<S>>>, k: int)
    requires
        trajectory(kick, drift, initial, time_step, states),
        0 <= k < states.len(),
    ensures
        states[k].len() == initial.len(),
        forall|i: int| 0 <= i < initial.len() ==> (#[trigger] states[k][i]).mass == initial[i].mass,
    decreases k,
{
    if k > 0 {
        lemma_course_keeps_bodies(kick, drift, initial, time_step, states, k - 1);
        assert(step_link(kick, drift, time_step, states, k - 1));
        assert forall|i: int| 0 <= i < initial.len() implies (#[trigger] states[k][i]).mass
            == initial[i].mass by {
            assert(body_stepped(kick, drift, states[k - 1], time_step, i, states[k][i]));
            assert(states[k - 1][i].mass == initial[i].mass);
        }
    }
}

} // verus!
