use three_body::body::{Body, Snapshot, Vector2};
use three_body::config::SimulationConfig;
use three_body::dynamics::{accelerate, advance};
use three_body::engine::{Engine, SimulationError};
use three_body::sampler::Sampler;
use three_body::simulation::run;

const G: f64 = 6.67430e-11;

fn kick(target: Body<f64>, source: Body<f64>, time_step: f64) -> Option<Vector2<f64>> {
    let dx = source.position.x - target.position.x;
    let dy = source.position.y - target.position.y;
    let r = (dx * dx + dy * dy).sqrt();
    if r < 1e-12 {
        return None;
    }
    let force = G * target.mass * source.mass / r / r;
    let angle = dy.atan2(dx);
    let fx = force * angle.cos();
    let fy = force * angle.sin();
    Some(Vector2 {
        x: target.velocity.x + fx / target.mass * time_step,
        y: target.velocity.y + fy / target.mass * time_step,
    })
}

fn drift(body: Body<f64>, time_step: f64) -> Vector2<f64> {
    Vector2 {
        x: body.position.x + body.velocity.x * time_step,
        y: body.position.y + body.velocity.y * time_step,
    }
}

fn clock(step_index: u64, time_step: f64) -> f64 {
    step_index as f64 * time_step
}

fn positive(number: f64) -> bool {
    number > 0.0
}

fn resting(mass: f64, x: f64, y: f64) -> Body<f64> {
    Body { mass, position: Vector2 { x, y }, velocity: Vector2 { x: 0.0, y: 0.0 } }
}

fn three_bodies() -> Vec<Body<f64>> {
    vec![resting(1.0, 0.309, 0.424), resting(1.0, -0.5, 0.0), resting(1.0, 0.5, 0.0)]
}

fn close(a: f64, b: f64, tolerance: f64) -> bool {
    (a - b).abs() <= tolerance
}

#[test]
fn sampled_run_keeps_every_tenth_step() {
    let config = SimulationConfig::new(0.01, 100, three_bodies(), &positive).unwrap();
    let retained = run(&config, &Sampler::new(10), &kick, &drift, &clock).unwrap();
    let indices: Vec<u64> = retained.iter().map(|snapshot| snapshot.step_index).collect();
    assert_eq!(indices, vec![0, 10, 20, 30, 40, 50, 60, 70, 80, 90]);
}

#[test]
fn unsampled_run_has_one_snapshot_per_step_with_its_time() {
    let config = SimulationConfig::new(0.01, 50, three_bodies(), &positive).unwrap();
    let retained = run(&config, &Sampler::new(1), &kick, &drift, &clock).unwrap();
    assert_eq!(retained.len(), 50);
    for (k, snapshot) in retained.iter().enumerate() {
        assert_eq!(snapshot.step_index, k as u64);
        assert_eq!(snapshot.time, k as f64 * 0.01);
    }
    assert_eq!(retained[0].time, 0.0);
    assert_eq!(retained[25].time, 0.25);
}

#[test]
fn two_runs_of_one_configuration_are_identical() {
    let config = SimulationConfig::new(0.01, 200, three_bodies(), &positive).unwrap();
    let first = run(&config, &Sampler::new(7), &kick, &drift, &clock).unwrap();
    let second = run(&config, &Sampler::new(7), &kick, &drift, &clock).unwrap();
    assert_eq!(first, second);
    assert_eq!(first.len(), 29);
}

#[test]
fn sampled_run_is_the_sample_of_the_unsampled_run() {
    let config = SimulationConfig::new(0.01, 95, three_bodies(), &positive).unwrap();
    let sampler = Sampler::new(10);
    let all = run(&config, &Sampler::new(1), &kick, &drift, &clock).unwrap();
    let retained = run(&config, &sampler, &kick, &drift, &clock).unwrap();
    assert_eq!(sampler.sample(&all), retained);
    assert_eq!(retained.len(), 10);
    assert_eq!(retained[9].step_index, 90);
}

#[test]
fn earlier_snapshot_is_untouched_by_later_steps() {
    let config = SimulationConfig::new(0.5, 10, three_bodies(), &positive).unwrap();
    let mut engine = Engine::new(&config);
    let first = engine.step(&kick, &drift, &clock).unwrap().unwrap();
    let kept: Snapshot<f64> = first.clone();
    assert_eq!(&first.bodies, engine.bodies());
    for _ in 0..5 {
        engine.step(&kick, &drift, &clock).unwrap().unwrap();
    }
    assert_eq!(first, kept);
    assert_ne!(&first.bodies, engine.bodies());
    assert_eq!(first.step_index, 0);
    assert_eq!(engine.step_index(), 6);
}

#[test]
fn engine_yields_one_snapshot_per_step_then_none() {
    let config = SimulationConfig::new(0.01, 3, three_bodies(), &positive).unwrap();
    let mut engine = Engine::new(&config);
    assert_eq!(engine.total_steps(), 3);
    assert_eq!(engine.time_step(), 0.01);
    assert_eq!(engine.bodies(), &three_bodies());
    for k in 0..3u64 {
        assert!(!engine.is_finished());
        assert_eq!(engine.step_index(), k);
        let snapshot = engine.step(&kick, &drift, &clock).unwrap().unwrap();
        assert_eq!(snapshot.step_index, k);
        assert_eq!(&snapshot.bodies, engine.bodies());
    }
    assert!(engine.is_finished());
    let state = engine.bodies().clone();
    assert_eq!(engine.step(&kick, &drift, &clock), Ok(None));
    assert_eq!(engine.bodies(), &state);
    assert_eq!(engine.step_index(), 3);
}

#[test]
fn two_unit_masses_one_apart_pull_with_the_gravitational_constant() {
    let bodies = vec![resting(1.0, 0.0, 0.0), resting(1.0, 1.0, 0.0)];
    let left = accelerate(&bodies, 1.0, 0, &kick).unwrap();
    let right = accelerate(&bodies, 1.0, 1, &kick).unwrap();
    // With unit mass and unit time step the change of velocity is the force.
    assert!(close(left.x, 6.67430e-11, 1e-24));
    assert!(close(left.y, 0.0, 1e-24));
    assert!(close(right.x, -6.67430e-11, 1e-24));
    assert!(close(right.y, 0.0, 1e-24));
}

#[test]
fn forces_between_two_bodies_are_equal_and_opposite() {
    let bodies = vec![
        Body { mass: 3.0, position: Vector2 { x: 0.25, y: -1.5 }, velocity: Vector2 { x: 0.0, y: 0.0 } },
        Body { mass: 5.0, position: Vector2 { x: -2.0, y: 0.75 }, velocity: Vector2 { x: 0.0, y: 0.0 } },
    ];
    let on_first = accelerate(&bodies, 1.0, 0, &kick).unwrap();
    let on_second = accelerate(&bodies, 1.0, 1, &kick).unwrap();
    // force = mass * change of velocity / time step
    let first = (on_first.x * 3.0, on_first.y * 3.0);
    let second = (on_second.x * 5.0, on_second.y * 5.0);
    let magnitude_first = (first.0 * first.0 + first.1 * first.1).sqrt();
    let magnitude_second = (second.0 * second.0 + second.1 * second.1).sqrt();
    assert!(close(magnitude_first, magnitude_second, 1e-22));
    assert!(close(first.0, -second.0, 1e-22));
    assert!(close(first.1, -second.1, 1e-22));
    let angle_first = first.1.atan2(first.0);
    let angle_second = second.1.atan2(second.0);
    let turn = (angle_first - angle_second).abs();
    assert!(close(turn, std::f64::consts::PI, 1e-9));
}

#[test]
fn equilateral_triangle_accelerates_every_body_towards_the_centre() {
    let height = 3.0f64.sqrt() / 2.0;
    let bodies = vec![resting(1.0, -0.5, 0.0), resting(1.0, 0.5, 0.0), resting(1.0, 0.0, height)];
    let centre = (0.0, height / 3.0);
    let next = advance(&bodies, 1.0, &kick, &drift).unwrap();
    // Two pulls of G at sixty degrees to each other add up to G * sqrt(3).
    let expected = G * 3.0f64.sqrt();
    for (before, after) in bodies.iter().zip(next.iter()) {
        let speed = (after.velocity.x * after.velocity.x + after.velocity.y * after.velocity.y).sqrt();
        assert!(speed > 0.0);
        assert!(close(speed, expected, 1e-22));
        let inward = (centre.0 - before.position.x, centre.1 - before.position.y);
        let length = (inward.0 * inward.0 + inward.1 * inward.1).sqrt();
        let along = (after.velocity.x * inward.0 + after.velocity.y * inward.1) / length;
        assert!(close(along, speed, 1e-22));
    }
}

#[test]
fn thousand_steps_of_three_bodies() {
    let config = SimulationConfig::new(0.01, 1000, three_bodies(), &positive).unwrap();
    let retained = run(&config, &Sampler::new(1), &kick, &drift, &clock).unwrap();
    assert_eq!(retained.len(), 1000);
    let last = &retained[999];
    assert_eq!(last.step_index, 999);
    assert_eq!(last.bodies.len(), 3);
    for body in &last.bodies {
        assert!(body.position.x.is_finite());
        assert!(body.position.y.is_finite());
        assert!(body.velocity.x.is_finite());
        assert!(body.velocity.y.is_finite());
        assert_eq!(body.mass, 1.0);
    }
    // The bodies attract each other, so each has left its place, but by very
    // little: the order of the bodies is that of the start.
    let start = three_bodies();
    for (body, initial) in last.bodies.iter().zip(start.iter()) {
        assert_ne!(body.position, initial.position);
        assert!(close(body.position.x, initial.position.x, 1e-6));
        assert!(close(body.position.y, initial.position.y, 1e-6));
    }
}

#[test]
fn coincident_bodies_abort_the_run_at_the_first_step() {
    let bodies = vec![resting(1.0, 0.0, 0.0), resting(1.0, 2.0, 0.0), resting(1.0, 2.0, 0.0)];
    let config = SimulationConfig::new(0.01, 10, bodies, &positive).unwrap();
    let result = run(&config, &Sampler::new(1), &kick, &drift, &clock);
    assert_eq!(result, Err(SimulationError::Singularity { step_index: 0, target: 1, source: 2 }));
}

#[test]
fn failed_step_leaves_the_engine_as_it_was() {
    let bodies = vec![resting(1.0, 1.0, 1.0), resting(2.0, 1.0, 1.0)];
    let config = SimulationConfig::new(0.01, 10, bodies.clone(), &positive).unwrap();
    let mut engine = Engine::new(&config);
    let result = engine.step(&kick, &drift, &clock);
    assert_eq!(result, Err(SimulationError::Singularity { step_index: 0, target: 0, source: 1 }));
    assert_eq!(engine.bodies(), &bodies);
    assert_eq!(engine.step_index(), 0);
    assert!(!engine.is_finished());
}
