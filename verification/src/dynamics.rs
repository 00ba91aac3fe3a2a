//! One step of the integration: every body is accelerated by every other body,
//! then every body is moved with its new velocity.
//!
//! The arithmetic is done by two kernels that the caller supplies:
//!
//! * `kick(target, source, time_step)` returns the velocity of `target` after
//!   `source` has pulled on it for one time step, or `None` when the two bodies
//!   are too close for the force between them to be defined;
//! * `drift(body, time_step)` returns the position of `body` after it has moved
//!   with its velocity for one time step.
//!
//! What a step computes is stated relative to what the kernels promise
//! (`call_ensures`). Forces are always evaluated on the positions that the
//! bodies had when the step began.

use vstd::prelude::*;
use crate::body::{Body, Vector2};

verus! {

/// The pair of bodies at which a step could not be carried out: the force of
/// `source` on `target` is undefined.
#[derive(Clone, Copy, Debug, PartialEq, Eq)]
pub struct SingularPair {
    pub target: usize,
    pub source: usize,
}

/// `kick` accepts every pair of bodies and every time step.
pub open spec fn kick_total<S, K: Fn(Body<S>, Body<S>, S) -> Option<Vector2<S>>>(kick: K) -> bool {
    forall|target: Body<S>, source: Body<S>, time_step: S|
        call_requires(kick, (target, source, time_step))
}

/// `drift` accepts every body and every time step.
pub open spec fn drift_total<S, D: Fn(Body<S>, S) -> Vector2<S>>(drift: D) -> bool {
    forall|body: Body<S>, time_step: S| call_requires(drift, (body, time_step))
}

/// With `velocities[j]` the velocity of body `i` before it meets body `j`,
/// `velocities[j + 1]` is its velocity afterwards: unchanged for `j == i`,
/// else what `kick` returned for the pair.
pub open spec fn kick_link<S, K: Fn(Body<S>, Body<S>, S) -> Option<Vector2<S>>>(
    kick: K,
    prior: Seq<Body<S>>,
    time_step: S,
    i: int,
    velocities: Seq<Vector2<S>>,
    j: int,
) -> bool {
    if j == i {
        velocities[j + 1] == velocities[j]
    } else {
        call_ensures(
            kick,
            (prior[i].with_velocity(velocities[j]), prior[j], time_step),
            Some(velocities[j + 1]),
        )
    }
}

/// `velocities` records how the velocity of body `i` evolved while the bodies
/// `0 .. upto` pulled on it in turn, starting from its velocity in `prior`.
pub open spec fn kick_trace<S, K: Fn(Body<S>, Body<S>, S) -> Option<Vector2<S>>>(
    kick: K,
    prior: Seq<Body<S>>,
    time_step: S,
    i: int,
    upto: int,
    velocities: Seq<Vector2<S>>,
) -> bool {
    &&& velocities.len() == upto + 1
    &&& velocities[0] == prior[i].velocity
    &&& forall|j: int|
        0 <= j < upto ==> #[trigger] kick_link(kick, prior, time_step, i, velocities, j)
}

/// `velocity` is a velocity that body `i` can have after every other body has
/// pulled on it, in the order of their indices.
pub open spec fn kicked<S, K: Fn(Body<S>, Body<S>, S) -> Option<Vector2<S>>>(
    kick: K,
    prior: Seq<Body<S>>,
    time_step: S,
    i: int,
    velocity: Vector2<S>,
) -> bool {
    exists|velocities: Seq<Vector2<S>>|
        #[trigger] kick_trace(kick, prior, time_step, i, prior.len() as int, velocities)
            && velocities[prior.len() as int] == velocity
}

/// Every other body could pull on body `i`: none of its encounters was
/// declared singular.
pub open spec fn fully_kicked<S, K: Fn(Body<S>, Body<S>, S) -> Option<Vector2<S>>>(
    kick: K,
    prior: Seq<Body<S>>,
    time_step: S,
    i: int,
) -> bool {
    exists|velocity: Vector2<S>| #[trigger] kicked(kick, prior, time_step, i, velocity)
}

/// Body `i` was accelerated by the bodies before `j`, and `kick` then declared
/// its encounter with body `j` singular.
pub open spec fn blocked_at<S, K: Fn(Body<S>, Body<S>, S) -> Option<Vector2<S>>>(
    kick: K,
    prior: Seq<Body<S>>,
    time_step: S,
    i: int,
    j: int,
) -> bool {
    &&& 0 <= i < prior.len()
    &&& 0 <= j < prior.len()
    &&& i != j
    &&& exists|velocities: Seq<Vector2<S>>|
        #[trigger] kick_trace(kick, prior, time_step, i, j, velocities) && call_ensures(
            kick,
            (prior[i].with_velocity(velocities[j]), prior[j], time_step),
            None,
        )
}

/// Accelerates body `i` by every other body of `prior`, in the order of their
/// indices, and returns its new velocity; or the index of the first body whose
/// pull on it is undefined.
pub fn accelerate<S: Copy, K: Fn(Body<S>, Body<S>, S) -> Option<Vector2<S>>>(
    prior: &Vec<Body<S>>,
    time_step: S,
    i: usize,
    kick: &K,
) -> (result: Result<Vector2<S>, usize>)
    requires
        i < prior.len(),
        kick_total(*kick),
    ensures
        match result {
            Ok(velocity) => kicked(*kick, prior@, time_step, i as int, velocity),
            Err(j) => blocked_at(*kick, prior@, time_step, i as int, j as int),
        },
{
    let n = prior.len();
    let mut velocity = prior[i].velocity;
    let ghost mut velocities: Seq<Vector2<S>> = seq![velocity];
    let mut j: usize = 0;
    while j < n
        invariant
            n == prior.len(),
            i < n,
            j <= n,
            kick_total(*kick),
            kick_trace(*kick, prior@, time_step, i as int, j as int, velocities),
            velocities[j as int] == velocity,
        decreases n - j,
    {
        let ghost before = velocities;
        if j != i {
            let target = Body {
                mass: prior[i].mass,
                position: prior[i].position,
                velocity,
            };
            match kick(target, prior[j], time_step) {
                Some(kicked_velocity) => {
                    velocity = kicked_velocity;
                },
                None => {
                    return Err(j);
                },
            }
        }
        proof {
            velocities = velocities.push(velocity);
            assert forall|k: int| 0 <= k < j + 1 implies #[trigger] kick_link(
                *kick,
                prior@,
                time_step,
                i as int,
                velocities,
                k,
            ) by {
                if k < j {
                    assert(kick_link(*kick, prior@, time_step, i as int, before, k));
                }
            }
        }
        j = j + 1;
    }
    Ok(velocity)
}

/// `body` is a state that body `i` of `prior` can have after one step: the
/// same mass, a velocity accumulated from the pulls of all other bodies, and
/// the position that `drift` gives for the prior position and that new velocity.
pub open spec fn body_stepped<
    S,
    K: Fn(Body<S>, Body<S>, S) -> Option<Vector2<S>>,
    D: Fn(Body<S>, S) -> Vector2<S>,
>(kick: K, drift: D, prior: Seq<Body<S>>, time_step: S, i: int, body: Body<S>) -> bool {
    &&& body.mass == prior[i].mass
    &&& kicked(kick, prior, time_step, i, body.velocity)
    &&& call_ensures(drift, (prior[i].with_velocity(body.velocity), time_step), body.position)
}

/// `next` is a state that the system can have one step after `prior`: the same
/// bodies in the same order, each of them stepped.
pub open spec fn stepped<
    S,
    K: Fn(Body<S>, Body<S>, S) -> Option<Vector2<S>>,
    D: Fn(Body<S>, S) -> Vector2<S>,
>(kick: K, drift: D, prior: Seq<Body<S>>, time_step: S, next: Seq<Body<S>>) -> bool {
    &&& next.len() == prior.len()
    &&& forall|i: int|
        0 <= i < prior.len() ==> #[trigger] body_stepped(kick, drift, prior, time_step, i, next[i])
}

/// The step from `prior` fails at the pair `(i, j)`: every body before `i` was
/// accelerated by all others, and body `i` by those before `j`, when `kick`
/// declared the encounter of `i` with `j` singular.
pub open spec fn singular_at<S, K: Fn(Body<S>, Body<S>, S) -> Option<Vector2<S>>>(
    kick: K,
    prior: Seq<Body<S>>,
    time_step: S,
    i: int,
    j: int,
) -> bool {
    &&& blocked_at(kick, prior, time_step, i, j)
    &&& forall|earlier: int|
        0 <= earlier < i ==> #[trigger] fully_kicked(kick, prior, time_step, earlier)
}

/// Advances the system by one time step.
///
/// First every body is accelerated by every other one, on the positions of
/// `prior`; then every body is moved with its new velocity. The result is a
/// fresh list, `prior` is only read. When some pair is singular the step is
/// abandoned and the first such pair, in the order of evaluation, is returned.
pub fn advance<
    S: Copy,
    K: Fn(Body<S>, Body<S>, S) -> Option<Vector2<S>>,
    D: Fn(Body<S>, S) -> Vector2<S>,
>(prior: &Vec<Body<S>>, time_step: S, kick: &K, drift: &D) -> (result: Result<
    Vec<Body<S>>,
    SingularPair,
>)
    requires
        kick_total(*kick),
        drift_total(*drift),
    ensures
        match result {
            Ok(next) => stepped(*kick, *drift, prior@, time_step, next@),
            Err(pair) => singular_at(
                *kick,
                prior@,
                time_step,
                pair.target as int,
                pair.source as int,
            ),
        },
{
    let n = prior.len();
    let mut velocities: Vec<Vector2<S>> = Vec::new();
    let mut i: usize = 0;
    while i < n
        invariant
            n == prior.len(),
            i <= n,
            kick_total(*kick),
            velocities.len() == i,
            forall|b: int|
                0 <= b < i ==> #[trigger] kicked(*kick, prior@, time_step, b, velocities@[b]),
        decreases n - i,
    {
        match accelerate(prior, time_step, i, kick) {
            Ok(velocity) => {
                velocities.push(velocity);
            },
            Err(j) => {
                proof {
                    assert forall|earlier: int| 0 <= earlier < i implies #[trigger] fully_kicked(
                        *kick,
                        prior@,
                        time_step,
                        earlier,
                    ) by {
                        assert(kicked(*kick, prior@, time_step, earlier, velocities@[earlier]));
                    }
                }
                return Err(SingularPair { target: i, source: j });
            },
        }
        i = i + 1;
    }
    let mut next: Vec<Body<S>> = Vec::new();
    let mut i: usize = 0;
    while i < n
        invariant
            n == prior.len(),
            i <= n,
            drift_total(*drift),
            velocities.len() == n,
            forall|b: int|
                0 <= b < n ==> #[trigger] kicked(*kick, prior@, time_step, b, velocities@[b]),
            next.len() == i,
            forall|b: int|
                0 <= b < i ==> #[trigger] body_stepped(
                    *kick,
                    *drift,
                    prior@,
                    time_step,
                    b,
                    next@[b],
                ),
        decreases n - i,
    {
        let moving = Body {
            mass: prior[i].mass,
            position: prior[i].position,
            velocity: velocities[i],
        };
        let position = drift(moving, time_step);
        next.push(Body { mass: moving.mass, position, velocity: moving.velocity });
        proof {
            assert(kicked(*kick, prior@, time_step, i as int, velocities@[i as int]));
        }
        i = i + 1;
    }
    Ok(next)
}

} // verus!
