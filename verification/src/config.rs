//! The validated description of a run: the time step, the number of steps and
//! the bodies at the start.

use vstd::prelude::*;
use crate::body::Body;

verus! {

/// Why a description of a run was rejected.
#[derive(Clone, Copy, Debug, PartialEq, Eq)]
pub enum ConfigurationError {
    /// The time step is not positive.
    NonPositiveTimeStep,
    /// The run has no steps.
    NoSteps,
    /// The run has no bodies.
    NoBodies,
    /// The mass of the body with this index is not positive.
    NonPositiveMass { body: usize },
}

/// The mathematical content of a [`SimulationConfig`].
pub struct ConfigView<S> {
    pub time_step: S,
    pub total_steps: nat,
    pub initial_bodies: Seq<Body<S>>,
}

/// A description of a run that has passed validation. It is built once and
/// never changes.
#[derive(Debug)]
pub struct SimulationConfig<S> {
    time_step: S,
    total_steps: u64,
    initial_bodies: Vec<Body<S>>,
}

impl<S> View for SimulationConfig<S> {
    type V = ConfigView<S>;

    closed spec fn view(&self) -> ConfigView<S> {
        ConfigView {
            time_step: self.time_step,
            total_steps: self.total_steps as nat,
            initial_bodies: self.initial_bodies@,
        }
    }
}

/// `positive` accepts every number.
pub open spec fn test_total<S, P: Fn(S) -> bool>(positive: P) -> bool {
    forall|number: S| call_requires(positive, (number,))
}

/// `positive` found the masses of the first `count` bodies positive.
pub open spec fn masses_positive<S, P: Fn(S) -> bool>(
    positive: P,
    bodies: Seq<Body<S>>,
    count: int,
) -> bool {
    forall|i: int| 0 <= i < count ==> call_ensures(positive, (#[trigger] bodies[i].mass,), true)
}

/// What `SimulationConfig::new` returns for a description, given what the test
/// `positive` answered. The conditions are examined in this order: the time
/// step, the number of steps, the number of bodies, then the masses in the
/// order of the bodies; the first one violated is reported.
pub open spec fn validated<S, P: Fn(S) -> bool>(
    positive: P,
    time_step: S,
    total_steps: u64,
    initial_bodies: Seq<Body<S>>,
    result: Result<ConfigView<S>, ConfigurationError>,
) -> bool {
    match result {
        Ok(config) => {
            &&& call_ensures(positive, (time_step,), true)
            &&& total_steps > 0
            &&& initial_bodies.len() > 0
            &&& masses_positive(positive, initial_bodies, initial_bodies.len() as int)
            &&& config == ConfigView {
                time_step,
                total_steps: total_steps as nat,
                initial_bodies,
            }
        },
        Err(ConfigurationError::NonPositiveTimeStep) => call_ensures(
            positive,
            (time_step,),
            false,
        ),
        Err(ConfigurationError::NoSteps) => {
            &&& call_ensures(positive, (time_step,), true)
            &&& total_steps == 0
        },
        Err(ConfigurationError::NoBodies) => {
            &&& call_ensures(positive, (time_step,), true)
            &&& total_steps > 0
            &&& initial_bodies.len() == 0
        },
        Err(ConfigurationError::NonPositiveMass { body }) => {
            &&& call_ensures(positive, (time_step,), true)
            &&& total_steps > 0
            &&& body < initial_bodies.len()
            &&& masses_positive(positive, initial_bodies, body as int)
            &&& call_ensures(positive, (initial_bodies[body as int].mass,), false)
        },
    }
}

impl<S> SimulationConfig<S> {
    #[verifier::type_invariant]
    spec fn well_formed(self) -> bool {
        &&& self.total_steps > 0
        &&& self.initial_bodies.len() > 0
    }
}

impl<S: Copy> SimulationConfig<S> {
    /// Validates a description of a run. `positive` decides whether a time
    /// step or a mass is greater than zero.
    pub fn new<P: Fn(S) -> bool>(
        time_step: S,
        total_steps: u64,
        initial_bodies: Vec<Body<S>>,
        positive: &P,
    ) -> (result: Result<SimulationConfig<S>, ConfigurationError>)
        requires
            test_total(*positive),
        ensures
            validated(
                *positive,
                time_step,
                total_steps,
                initial_bodies@,
                match result {
                    Ok(config) => Ok(config@),
                    Err(error) => Err(error),
                },
            ),
    {
        if !positive(time_step) {
            return Err(ConfigurationError::NonPositiveTimeStep);
        }
        if total_steps == 0 {
            return Err(ConfigurationError::NoSteps);
        }
        if initial_bodies.len() == 0 {
            return Err(ConfigurationError::NoBodies);
        }
        let mut i: usize = 0;
        while i < initial_bodies.len()
            invariant
                i <= initial_bodies.len(),
                test_total(*positive),
                call_ensures(*positive, (time_step,), true),
                total_steps > 0,
                masses_positive(*positive, initial_bodies@, i as int),
            decreases initial_bodies.len() - i,
        {
            if !positive(initial_bodies[i].mass) {
                return Err(ConfigurationError::NonPositiveMass { body: i });
            }
            i = i + 1;
        }
        Ok(SimulationConfig { time_step, total_steps, initial_bodies })
    }

    /// The time step, in seconds.
    pub fn time_step(&self) -> (time_step: S)
        ensures
            time_step == self@.time_step,
    {
        self.time_step
    }

    /// The number of steps of the run; at least one.
    pub fn total_steps(&self) -> (total_steps: u64)
        ensures
            total_steps == self@.total_steps,
            total_steps > 0,
    {
        proof {
            use_type_invariant(self);
        }
        self.total_steps
    }

    /// The bodies at the start of the run; at least one.
    pub fn initial_bodies(&self) -> (bodies: &Vec<Body<S>>)
        ensures
            bodies@ == self@.initial_bodies,
            bodies.len() > 0,
    {
        proof {
            use_type_invariant(self);
        }
        &self.initial_bodies
    }
}

} // verus!
