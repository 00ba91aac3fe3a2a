use three_body::body::{copy_bodies, Body, Vector2};
use three_body::config::SimulationConfig;
use three_body::dynamics::{accelerate, advance, SingularPair};
use three_body::engine::SimulationError;
use three_body::sampler::Sampler;
use three_body::simulation::run;

// Kernels on whole numbers, chosen so that the order of the encounters and the
// values that each kernel is given show in the result.

fn body(mass: i64, x: i64, vx: i64) -> Body<i64> {
    Body { mass, position: Vector2 { x, y: 0 }, velocity: Vector2 { x: vx, y: 0 } }
}

/// Doubles the velocity and adds the mass of the source; counts the
/// encounters in `y`. Bodies at the same place are a singular pair.
fn kick(target: Body<i64>, source: Body<i64>, time_step: i64) -> Option<Vector2<i64>> {
    if target.position.x == source.position.x {
        return None;
    }
    Some(Vector2 {
        x: 2 * target.velocity.x + source.mass * time_step,
        y: target.velocity.y + 1,
    })
}

fn drift(body: Body<i64>, time_step: i64) -> Vector2<i64> {
    Vector2 { x: body.position.x + body.velocity.x * time_step, y: body.position.y }
}

fn clock(step_index: u64, time_step: i64) -> i64 {
    step_index as i64 * time_step
}

fn positive(number: i64) -> bool {
    number > 0
}

#[test]
fn body_is_accelerated_by_the_others_in_the_order_of_their_indices() {
    let bodies = vec![body(1, 0, 1), body(10, 5, 0), body(100, 9, 0)];
    // ((1 * 2 + 10) * 2) + 100
    assert_eq!(accelerate(&bodies, 1, 0, &kick), Ok(Vector2 { x: 124, y: 2 }));
    // (0 * 2 + 1) * 2 + 100
    assert_eq!(accelerate(&bodies, 1, 1, &kick), Ok(Vector2 { x: 102, y: 2 }));
    // (0 * 2 + 1) * 2 + 10
    assert_eq!(accelerate(&bodies, 1, 2, &kick), Ok(Vector2 { x: 12, y: 2 }));
}

#[test]
fn single_body_keeps_its_velocity() {
    let bodies = vec![body(4, 3, 7)];
    assert_eq!(accelerate(&bodies, 1, 0, &kick), Ok(Vector2 { x: 7, y: 0 }));
    assert_eq!(advance(&bodies, 2, &kick, &drift), Ok(vec![body(4, 17, 7)]));
}

#[test]
fn step_moves_every_body_with_its_new_velocity() {
    let bodies = vec![body(1, 0, 1), body(10, 5, 0), body(100, 9, 0)];
    let next = advance(&bodies, 1, &kick, &drift).unwrap();
    let expected = vec![
        Body { mass: 1, position: Vector2 { x: 124, y: 0 }, velocity: Vector2 { x: 124, y: 2 } },
        Body { mass: 10, position: Vector2 { x: 107, y: 0 }, velocity: Vector2 { x: 102, y: 2 } },
        Body { mass: 100, position: Vector2 { x: 21, y: 0 }, velocity: Vector2 { x: 12, y: 2 } },
    ];
    assert_eq!(next, expected);
    // The state that was read is as it was.
    assert_eq!(bodies, vec![body(1, 0, 1), body(10, 5, 0), body(100, 9, 0)]);
}

#[test]
fn forces_are_evaluated_on_the_positions_at_the_start_of_the_step() {
    // Body 0 moves onto the place of body 1 in this step. Body 1 is
    // accelerated after body 0, and still meets it at its old place.
    let bodies = vec![body(1, 0, 2), body(1, 5, 0)];
    let next = advance(&bodies, 1, &kick, &drift).unwrap();
    assert_eq!(next[0].position.x, 5);
    assert_eq!(next[1].velocity, Vector2 { x: 1, y: 1 });
    assert_eq!(next[1].position.x, 6);
}

#[test]
fn empty_system_steps_to_itself() {
    let bodies: Vec<Body<i64>> = Vec::new();
    assert_eq!(advance(&bodies, 1, &kick, &drift), Ok(Vec::new()));
}

#[test]
fn first_singular_pair_in_the_order_of_evaluation_is_reported() {
    let bodies = vec![body(1, 0, 0), body(1, 3, 0), body(1, 3, 0), body(1, 0, 0)];
    assert_eq!(accelerate(&bodies, 1, 0, &kick), Err(3));
    assert_eq!(accelerate(&bodies, 1, 2, &kick), Err(1));
    assert_eq!(advance(&bodies, 1, &kick, &drift), Err(SingularPair { target: 0, source: 3 }));
}

#[test]
fn run_is_aborted_at_the_step_in_which_two_bodies_meet() {
    // Masses of zero leave the velocities as they are: body 0 closes in on
    // body 1 by one unit per step and reaches it in step 2.
    let still = |target: Body<i64>, source: Body<i64>, _time_step: i64| {
        if target.position.x == source.position.x {
            None
        } else {
            Some(target.velocity)
        }
    };
    let accept = |_number: i64| true;
    let bodies = vec![body(0, 0, 1), body(0, 3, 0)];
    let config = SimulationConfig::new(1, 10, bodies, &accept).unwrap();
    let result = run(&config, &Sampler::new(1), &still, &drift, &clock);
    assert_eq!(result, Err(SimulationError::Singularity { step_index: 3, target: 0, source: 1 }));
    let shorter = SimulationConfig::new(1, 3, vec![body(0, 0, 1), body(0, 3, 0)], &accept).unwrap();
    let snapshots = run(&shorter, &Sampler::new(1), &still, &drift, &clock).unwrap();
    let places: Vec<i64> = snapshots.iter().map(|snapshot| snapshot.bodies[0].position.x).collect();
    assert_eq!(places, vec![1, 2, 3]);
}

#[test]
fn snapshot_carries_step_time_and_state() {
    let bodies = vec![body(1, 0, 1), body(10, 5, 0)];
    let config = SimulationConfig::new(3, 4, bodies.clone(), &positive).unwrap();
    let snapshots = run(&config, &Sampler::new(2), &kick, &drift, &clock).unwrap();
    assert_eq!(snapshots.len(), 2);
    assert_eq!(snapshots[0].step_index, 0);
    assert_eq!(snapshots[0].time, 0);
    assert_eq!(snapshots[0].bodies, advance(&bodies, 3, &kick, &drift).unwrap());
    assert_eq!(snapshots[1].step_index, 2);
    assert_eq!(snapshots[1].time, 6);
    let mut state = bodies;
    for _ in 0..3 {
        state = advance(&state, 3, &kick, &drift).unwrap();
    }
    assert_eq!(snapshots[1].bodies, state);
    // Masses and the order of the bodies are those of the start.
    assert_eq!(snapshots[1].bodies[0].mass, 1);
    assert_eq!(snapshots[1].bodies[1].mass, 10);
}

#[test]
fn copy_of_bodies_is_equal_and_independent() {
    let bodies = vec![body(1, 0, 1), body(10, 5, 0)];
    let mut copy = copy_bodies(&bodies);
    assert_eq!(copy, bodies);
    copy[0].position.x = 99;
    assert_eq!(bodies[0].position.x, 0);
}
