use vstd::prelude::*;

use crate::runner;
use crate::state;
use crate::state::{names, refused_with, taxi_in_world, State};
use crate::world::World;

verus! {

/// The learning methods a run can use.
#[derive(Debug, Clone, Copy, PartialEq, Eq, Structural)]
pub enum SolverChoice {
    Random,
    QLearner,
    RMax,
    FactoredRMax,
    MaxQ,
    DoorMax,
}

impl SolverChoice {
    /// The name under which the method is reported.
    pub fn name(&self) -> (s: &'static str)
        ensures
            s@ == match *self {
                SolverChoice::Random => "Random"@,
                SolverChoice::QLearner => "Q-Learner"@,
                SolverChoice::RMax => "RMax"@,
                SolverChoice::FactoredRMax => "FactoredRMax"@,
                SolverChoice::MaxQ => "MaxQ"@,
                SolverChoice::DoorMax => "DoorMax"@,
            },
    {
        match *self {
            SolverChoice::Random => "Random",
            SolverChoice::QLearner => "Q-Learner",
            SolverChoice::RMax => "RMax",
            SolverChoice::FactoredRMax => "FactoredRMax",
            SolverChoice::MaxQ => "MaxQ",
            SolverChoice::DoorMax => "DoorMax",
        }
    }
}

/// The settings of one learning method: which it is, and whether to report on it.
pub trait ReportConfig {
    fn solver_choice(&self) -> SolverChoice;

    /// Whether to report on the training; by default, no.
    fn report(&self) -> (r: bool)
        default_ensures
            !r,
    {
        false
    }
}

/// The random driver has no settings.
#[derive(Debug)]
pub struct RandomSolverConfig {}

impl ReportConfig for RandomSolverConfig {
    fn solver_choice(&self) -> (c: SolverChoice)
        ensures
            c == SolverChoice::Random,
    {
        SolverChoice::Random
    }
}

/// A probe as the configuration describes it.
#[derive(Debug, Clone, Copy)]
pub struct Probe {
    pub taxi_pos: (i32, i32),
    pub passenger_loc: Option<char>,
    pub destination_loc: char,
    pub max_steps: usize,
}

/// The probe described is a state of the world.
pub open spec fn probe_buildable(world: &World, p: Probe) -> bool {
    &&& taxi_in_world(world@, p.taxi_pos)
    &&& names(world@, p.destination_loc)
    &&& (p.passenger_loc matches Some(id) ==> names(world@, id))
}

/// Builds the probes a configuration describes; the first that is not a state of the
/// world is refused with the error of `State::build`.
pub fn build_probes(world: &World, probes: &[Probe]) -> (r: Result<Vec<runner::Probe>, state::Error>)
    requires
        world.wf(),
    ensures
        match r {
            Ok(built) => {
                &&& built.len() == probes.len()
                &&& forall|k: int|
                    0 <= k < probes.len() ==> {
                        &&& probe_buildable(world, #[trigger] probes[k])
                        &&& built[k].state == (State {
                            taxi: crate::position::Position { x: probes[k].taxi_pos.0, y: probes[k].taxi_pos.1 },
                            passenger: probes[k].passenger_loc,
                            destination: probes[k].destination_loc,
                        })
                        &&& built[k].maximum_steps == probes[k].max_steps
                    }
            },
            Err(e) => exists|k: int|
                0 <= k < probes.len() && !probe_buildable(world, #[trigger] probes[k]) && (forall|j: int|
                    0 <= j < k ==> probe_buildable(world, #[trigger] probes[j])) && refused_with(
                    world,
                    probes[k].taxi_pos,
                    probes[k].passenger_loc,
                    probes[k].destination_loc,
                    &e,
                ),
        },
{
    let mut built: Vec<runner::Probe> = Vec::new();
    let mut k: usize = 0;
    while k < probes.len()
        invariant
            world.wf(),
            k <= probes.len(),
            built.len() == k,
            forall|j: int|
                0 <= j < k ==> {
                    &&& probe_buildable(world, #[trigger] probes[j])
                    &&& built[j].state == (State {
                        taxi: crate::position::Position { x: probes[j].taxi_pos.0, y: probes[j].taxi_pos.1 },
                        passenger: probes[j].passenger_loc,
                        destination: probes[j].destination_loc,
                    })
                    &&& built[j].maximum_steps == probes[j].max_steps
                },
        decreases probes.len() - k,
    {
        let p = probes[k];
        match State::build(world, p.taxi_pos, p.passenger_loc, p.destination_loc) {
            Ok(state) => {
                built.push(runner::Probe::new(state, p.max_steps));
            },
            Err(e) => {
                assert(!probe_buildable(world, probes[k as int]));
                assert(forall|j: int| 0 <= j < k ==> probe_buildable(world, #[trigger] probes[j]));
                return Err(e);
            },
        }
        k = k + 1;
    }
    Ok(built)
}

} // verus!
