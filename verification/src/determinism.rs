//! Determinism: when each kernel returns one result for one input, a step has
//! one outcome and a run has one result.

use vstd::prelude::*;
use crate::body::{Body, SnapshotView, Vector2};
use crate::config::ConfigView;
use crate::dynamics::{
    blocked_at, body_stepped, fully_kicked, kick_link, kick_trace, kicked, singular_at, stepped,
};
use crate::engine::SimulationError;
use crate::sampler::lemma_rank_within_run;
use crate::simulation::{
    run_completed, run_failed, run_outcome, snapshot_of, step_link, trajectory,
};

verus! {

/// `kick` returns at most one result for each input.
pub open spec fn kick_deterministic<S, K: Fn(Body<S>, Body<S>, S) -> Option<Vector2<S>>>(
    kick: K,
) -> bool {
    forall|
        target: Body<S>,
        source: Body<S>,
        time_step: S,
        a: Option<Vector2<S>>,
        b: Option<Vector2<S>>,
    |
        #![trigger
            call_ensures(kick, (target, source, time_step), a),
            call_ensures(kick, (target, source, time_step), b)
        ]
        call_ensures(kick, (target, source, time_step), a) && call_ensures(
            kick,
            (target, source, time_step),
            b,
        ) ==> a == b
}

/// `drift` returns at most one result for each input.
pub open spec fn drift_deterministic<S, D: Fn(Body<S>, S) -> Vector2<S>>(drift: D) -> bool {
    forall|body: Body<S>, time_step: S, a: Vector2<S>, b: Vector2<S>|
        #![trigger
            call_ensures(drift, (body, time_step), a),
            call_ensures(drift, (body, time_step), b)
        ]
        call_ensures(drift, (body, time_step), a) && call_ensures(drift, (body, time_step), b)
            ==> a == b
}

/// `clock` returns at most one result for each input.
pub open spec fn clock_deterministic<S, C: Fn(u64, S) -> S>(clock: C) -> bool {
    forall|step_index: u64, time_step: S, a: S, b: S|
        #![trigger
            call_ensures(clock, (step_index, time_step), a),
            call_ensures(clock, (step_index, time_step), b)
        ]
        call_ensures(clock, (step_index, time_step), a) && call_ensures(
            clock,
            (step_index, time_step),
            b,
        ) ==> a == b
}

/// Two records of how the velocity of one body evolved agree as far as both
/// reach.
pub proof fn lemma_traces_agree<S, K: Fn(Body<S>, Body<S>, S) -> Option<Vector2<S>>>(
    kick: K,
    prior: Seq<Body<S>>,
    time_step: S,
    i: int,
    upto_a: int,
    a: Seq<Vector2<S>>,
    upto_b: int,
    b: Seq<Vector2<S>>,
    j: int,
)
    requires
        kick_deterministic(kick),
        kick_trace(kick, prior, time_step, i, upto_a, a),
        kick_trace(kick, prior, time_step, i, upto_b, b),
        0 <= j <= upto_a,
        j <= upto_b,
    ensures
        a[j] == b[j],
    decreases j,
{
    if j > 0 {
        lemma_traces_agree(kick, prior, time_step, i, upto_a, a, upto_b, b, j - 1);
        assert(kick_link(kick, prior, time_step, i, a, j - 1));
        assert(kick_link(kick, prior, time_step, i, b, j - 1));
        if j - 1 != i {
            let target = prior[i].with_velocity(a[j - 1]);
            assert(call_ensures(kick, (target, prior[j - 1], time_step), Some(a[j])));
            assert(call_ensures(kick, (target, prior[j - 1], time_step), Some(b[j])));
            assert(Some(a[j]) == Some(b[j]));
        }
    }
}

/// A body that every other body has pulled on has one velocity.
pub proof fn lemma_kicked_unique<S, K: Fn(Body<S>, Body<S>, S) -> Option<Vector2<S>>>(
    kick: K,
    prior: Seq<Body<S>>,
    time_step: S,
    i: int,
    a: Vector2<S>,
    b: Vector2<S>,
)
    requires
        kick_deterministic(kick),
        kicked(kick, prior, time_step, i, a),
        kicked(kick, prior, time_step, i, b),
    ensures
        a == b,
{
    let n = prior.len() as int;
    let trace_a = choose|velocities: Seq<Vector2<S>>|
        #[trigger] kick_trace(kick, prior, time_step, i, n, velocities) && velocities[n] == a;
    let trace_b = choose|velocities: Seq<Vector2<S>>|
        #[trigger] kick_trace(kick, prior, time_step, i, n, velocities) && velocities[n] == b;
    lemma_traces_agree(kick, prior, time_step, i, n, trace_a, n, trace_b, n);
}

/// An encounter that was declared singular cannot also have gone through:
/// when body `i` is blocked at `j`, no record of its velocity reaches beyond
/// `j`.
pub proof fn lemma_blocked_excludes_trace<S, K: Fn(Body<S>, Body<S>, S) -> Option<Vector2<S>>>(
    kick: K,
    prior: Seq<Body<S>>,
    time_step: S,
    i: int,
    j: int,
    upto: int,
    velocities: Seq<Vector2<S>>,
)
    requires
        kick_deterministic(kick),
        blocked_at(kick, prior, time_step, i, j),
        kick_trace(kick, prior, time_step, i, upto, velocities),
    ensures
        upto <= j,
{
    if j < upto {
        let halted = choose|halted: Seq<Vector2<S>>|
            #[trigger] kick_trace(kick, prior, time_step, i, j, halted) && call_ensures(
                kick,
                (prior[i].with_velocity(halted[j]), prior[j], time_step),
                None,
            );
        lemma_traces_agree(kick, prior, time_step, i, j, halted, upto, velocities, j);
        assert(kick_link(kick, prior, time_step, i, velocities, j));
        let target = prior[i].with_velocity(velocities[j]);
        assert(call_ensures(kick, (target, prior[j], time_step), Some(velocities[j + 1])));
        assert(call_ensures(kick, (target, prior[j], time_step), None));
        assert(Some(velocities[j + 1]) == None::<Vector2<S>>);
    }
}

/// A body that is blocked at some encounter was not pulled on by every other
/// body.
pub proof fn lemma_blocked_excludes_kicked<S, K: Fn(Body<S>, Body<S>, S) -> Option<Vector2<S>>>(
    kick: K,
    prior: Seq<Body<S>>,
    time_step: S,
    i: int,
    j: int,
)
    requires
        kick_deterministic(kick),
        blocked_at(kick, prior, time_step, i, j),
    ensures
        !fully_kicked(kick, prior, time_step, i),
{
    if fully_kicked(kick, prior, time_step, i) {
        let n = prior.len() as int;
        let velocity = choose|velocity: Vector2<S>| #[trigger]
            kicked(kick, prior, time_step, i, velocity);
        let trace = choose|velocities: Seq<Vector2<S>>|
            #[trigger] kick_trace(kick, prior, time_step, i, n, velocities) && velocities[n]
                == velocity;
        lemma_blocked_excludes_trace(kick, prior, time_step, i, j, n, trace);
    }
}

/// One state has one successor.
pub proof fn lemma_stepped_unique<
    S,
    K: Fn(Body<S>, Body<S>, S) -> Option<Vector2<S>>,
    D: Fn(Body<S>, S) -> Vector2<S>,
>(kick: K, drift: D, prior: Seq<Body<S>>, time_step: S, a: Seq<Body<S>>, b: Seq<Body<S>>)
    requires
        kick_deterministic(kick),
        drift_deterministic(drift),
        stepped(kick, drift, prior, time_step, a),
        stepped(kick, drift, prior, time_step, b),
    ensures
        a == b,
{
    assert forall|i: int| 0 <= i < a.len() implies a[i] == b[i] by {
        assert(body_stepped(kick, drift, prior, time_step, i, a[i]));
        assert(body_stepped(kick, drift, prior, time_step, i, b[i]));
        lemma_kicked_unique(kick, prior, time_step, i, a[i].velocity, b[i].velocity);
        let moving = prior[i].with_velocity(a[i].velocity);
        assert(call_ensures(drift, (moving, time_step), a[i].position));
        assert(call_ensures(drift, (moving, time_step), b[i].position));
    }
    assert(a =~= b);
}

/// A step that fails does not also succeed.
pub proof fn lemma_singular_excludes_stepped<
    S,
    K: Fn(Body<S>, Body<S>, S) -> Option<Vector2<S>>,
    D: Fn(Body<S>, S) -> Vector2<S>,
>(kick: K, drift: D, prior: Seq<Body<S>>, time_step: S, i: int, j: int, next: Seq<Body<S>>)
    requires
        kick_deterministic(kick),
        singular_at(kick, prior, time_step, i, j),
    ensures
        !stepped(kick, drift, prior, time_step, next),
{
    if stepped(kick, drift, prior, time_step, next) {
        assert(body_stepped(kick, drift, prior, time_step, i, next[i]));
        assert(kicked(kick, prior, time_step, i, next[i].velocity));
        lemma_blocked_excludes_kicked(kick, prior, time_step, i, j);
    }
}

/// A step that fails, fails at one pair.
pub proof fn lemma_singular_unique<S, K: Fn(Body<S>, Body<S>, S) -> Option<Vector2<S>>>(
    kick: K,
    prior: Seq<Body<S>>,
    time_step: S,
    i_a: int,
    j_a: int,
    i_b: int,
    j_b: int,
)
    requires
        kick_deterministic(kick),
        singular_at(kick, prior, time_step, i_a, j_a),
        singular_at(kick, prior, time_step, i_b, j_b),
    ensures
        i_a == i_b,
        j_a == j_b,
{
    if i_a < i_b {
        assert(fully_kicked(kick, prior, time_step, i_a));
        lemma_blocked_excludes_kicked(kick, prior, time_step, i_a, j_a);
    } else if i_b < i_a {
        assert(fully_kicked(kick, prior, time_step, i_b));
        lemma_blocked_excludes_kicked(kick, prior, time_step, i_b, j_b);
    } else if j_a < j_b {
        let halted = choose|halted: Seq<Vector2<S>>|
            #[trigger] kick_trace(kick, prior, time_step, i_b, j_b, halted) && call_ensures(
                kick,
                (prior[i_b].with_velocity(halted[j_b]), prior[j_b], time_step),
                None,
            );
        lemma_blocked_excludes_trace(kick, prior, time_step, i_a, j_a, j_b, halted);
    } else if j_b < j_a {
        let halted = choose|halted: Seq<Vector2<S>>|
            #[trigger] kick_trace(kick, prior, time_step, i_a, j_a, halted) && call_ensures(
                kick,
                (prior[i_a].with_velocity(halted[j_a]), prior[j_a], time_step),
                None,
            );
        lemma_blocked_excludes_trace(kick, prior, time_step, i_b, j_b, j_a, halted);
    }
}

/// Two courses from one initial state agree as far as both reach.
pub proof fn lemma_trajectories_agree<
    S,
    K: Fn(Body<S>, Body<S>, S) -> Option<Vector2<S>>,
    D: Fn(Body<S>, S) -> Vector2<S>,
>(
    kick: K,
    drift: D,
    initial: Seq<Body<S>>,
    time_step: S,
    a: Seq<Seq<Body<S>>>,
    b: Seq<Seq<Body<S>>>,
    k: int,
)
    requires
        kick_deterministic(kick),
        drift_deterministic(drift),
        trajectory(kick, drift, initial, time_step, a),
        trajectory(kick, drift, initial, time_step, b),
        0 <= k < a.len(),
        k < b.len(),
    ensures
        a[k] == b[k],
    decreases k,
{
    if k > 0 {
        lemma_trajectories_agree(kick, drift, initial, time_step, a, b, k - 1);
        assert(step_link(kick, drift, time_step, a, k - 1));
        assert(step_link(kick, drift, time_step, b, k - 1));
        lemma_stepped_unique(kick, drift, a[k - 1], time_step, a[k], b[k]);
    }
}

/// A course cannot go beyond the step at which a run from the same initial
/// state was aborted.
pub proof fn lemma_failure_bounds_course<
    S,
    K: Fn(Body<S>, Body<S>, S) -> Option<Vector2<S>>,
    D: Fn(Body<S>, S) -> Vector2<S>,
>(
    kick: K,
    drift: D,
    config: ConfigView<S>,
    failing: Seq<Seq<Body<S>>>,
    error: SimulationError,
    other: Seq<Seq<Body<S>>>,
)
    requires
        kick_deterministic(kick),
        drift_deterministic(drift),
        run_failed(kick, drift, config, failing, error),
        trajectory(kick, drift, config.initial_bodies, config.time_step, other),
    ensures
        other.len() <= failing.len(),
{
    if other.len() > failing.len() {
        let k = failing.len() - 1;
        lemma_trajectories_agree(
            kick,
            drift,
            config.initial_bodies,
            config.time_step,
            failing,
            other,
            k,
        );
        assert(step_link(kick, drift, config.time_step, other, k));
        match error {
            SimulationError::Singularity { step_index, target, source } => {
                lemma_singular_excludes_stepped(
                    kick,
                    drift,
                    failing[k],
                    config.time_step,
                    target as int,
                    source as int,
                    other[k + 1],
                );
            },
        }
    }
}

/// Two completed runs of one configuration retain the same snapshots.
pub proof fn lemma_completed_unique<
    S,
    K: Fn(Body<S>, Body<S>, S) -> Option<Vector2<S>>,
    D: Fn(Body<S>, S) -> Vector2<S>,
    C: Fn(u64, S) -> S,
>(
    kick: K,
    drift: D,
    clock: C,
    config: ConfigView<S>,
    stride: nat,
    states_a: Seq<Seq<Body<S>>>,
    a: Seq<SnapshotView<S>>,
    states_b: Seq<Seq<Body<S>>>,
    b: Seq<SnapshotView<S>>,
)
    requires
        stride > 0,
        kick_deterministic(kick),
        drift_deterministic(drift),
        clock_deterministic(clock),
        run_completed(kick, drift, clock, config, stride, states_a, a),
        run_completed(kick, drift, clock, config, stride, states_b, b),
    ensures
        a == b,
{
    assert forall|rank: int| 0 <= rank < a.len() implies a[rank] == b[rank] by {
        let step = rank * stride;
        lemma_rank_within_run(config.total_steps, stride, rank as nat);
        assert(snapshot_of(clock, config.time_step, states_a, step, a[rank]));
        assert(snapshot_of(clock, config.time_step, states_b, step, b[rank]));
        lemma_trajectories_agree(
            kick,
            drift,
            config.initial_bodies,
            config.time_step,
            states_a,
            states_b,
            step + 1,
        );
        assert(call_ensures(clock, (step as u64, config.time_step), a[rank].time));
        assert(call_ensures(clock, (step as u64, config.time_step), b[rank].time));
    }
    assert(a =~= b);
}

/// Step determinism. When each kernel returns one result for one input, two
/// runs of the same configuration under the same stride have the same
/// result: the same retained snapshots, equal in every field, or the same
/// error.
pub proof fn lemma_run_deterministic<
    S,
    K: Fn(Body<S>, Body<S>, S) -> Option<Vector2<S>>,
    D: Fn(Body<S>, S) -> Vector2<S>,
    C: Fn(u64, S) -> S,
>(
    kick: K,
    drift: D,
    clock: C,
    config: ConfigView<S>,
    stride: nat,
    a: Result<Seq<SnapshotView<S>>, SimulationError>,
    b: Result<Seq<SnapshotView<S>>, SimulationError>,
)
    requires
        stride > 0,
        kick_deterministic(kick),
        drift_deterministic(drift),
        clock_deterministic(clock),
        run_outcome(kick, drift, clock, config, stride, a),
        run_outcome(kick, drift, clock, config, stride, b),
    ensures
        a == b,
{
    match (a, b) {
        (Ok(retained_a), Ok(retained_b)) => {
            let states_a = choose|states: Seq<Seq<Body<S>>>| #[trigger]
                run_completed(kick, drift, clock, config, stride, states, retained_a);
            let states_b = choose|states: Seq<Seq<Body<S>>>| #[trigger]
                run_completed(kick, drift, clock, config, stride, states, retained_b);
            lemma_completed_unique(
                kick,
                drift,
                clock,
                config,
                stride,
                states_a,
                retained_a,
                states_b,
                retained_b,
            );
        },
        (Ok(retained_a), Err(error_b)) => {
            let states_a = choose|states: Seq<Seq<Body<S>>>| #[trigger]
                run_completed(kick, drift, clock, config, stride, states, retained_a);
            let states_b = choose|states: Seq<Seq<Body<S>>>| #[trigger]
                run_failed(kick, drift, config, states, error_b);
            lemma_failure_bounds_course(kick, drift, config, states_b, error_b, states_a);
        },
        (Err(error_a), Ok(retained_b)) => {
            let states_a = choose|states: Seq<Seq<Body<S>>>| #[trigger]
                run_failed(kick, drift, config, states, error_a);
            let states_b = choose|states: Seq<Seq<Body<S>>>| #[trigger]
                run_completed(kick, drift, clock, config, stride, states, retained_b);
            lemma_failure_bounds_course(kick, drift, config, states_a, error_a, states_b);
        },
        (Err(error_a), Err(error_b)) => {
            let states_a = choose|states: Seq<Seq<Body<S>>>| #[trigger]
                run_failed(kick, drift, config, states, error_a);
            let states_b = choose|states: Seq<Seq<Body<S>>>| #[trigger]
                run_failed(kick, drift, config, states, error_b);
            lemma_failure_bounds_course(kick, drift, config, states_a, error_a, states_b);
            lemma_failure_bounds_course(kick, drift, config, states_b, error_b, states_a);
            let k = states_a.len() - 1;
            lemma_trajectories_agree(
                kick,
                drift,
                config.initial_bodies,
                config.time_step,
                states_a,
                states_b,
                k,
            );
            match (error_a, error_b) {
                (
                    SimulationError::Singularity { step_index: _, target: i_a, source: j_a },
                    SimulationError::Singularity { step_index: _, target: i_b, source: j_b },
                ) => {
                    lemma_singular_unique(
                        kick,
                        states_a[k],
                        config.time_step,
                        i_a as int,
                        j_a as int,
                        i_b as int,
                        j_b as int,
                    );
                },
            }
        },
    }
}

} // verus!
