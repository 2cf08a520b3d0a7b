use vstd::prelude::*;

use crate::actions::Actions;
use crate::random::Pcg;
use crate::runner::{Attempt, Runner};
use crate::replay::run_actions;
use crate::state::{lemma_apply_keeps_valid, spec_at_destination, valid_state, State};
use crate::world::World;

verus! {

/// A runner that learns nothing and drives at random.
#[derive(Default)]
pub struct RandomSolver {}

impl RandomSolver {
    pub fn new() -> (r: RandomSolver)
        ensures
            r == (RandomSolver {}),
    {
        RandomSolver {  }
    }
}

impl Runner for RandomSolver {
    /// Drives at random from `state`; the step at which the passenger reached its
    /// destination, if it did within `max_steps` steps.
    /// A reported number of steps is that of some sequence of actions that takes the
    /// passenger from `state` to its destination.
    fn learn(&mut self, world: &World, state: State, max_steps: usize, rng: &mut Pcg) -> (r: Option<
        usize,
    >)
        ensures
            r matches Some(n) ==> n < max_steps && exists|acts: Seq<Actions>|
                acts.len() == n && spec_at_destination(#[trigger] run_actions(state, world@, acts)),
            spec_at_destination(state) && max_steps > 0 ==> r == Some(0usize),
    {
        let mut current = state;
        let mut step: usize = 0;
        let ghost mut acts: Seq<Actions> = Seq::empty();
        while step < max_steps
            invariant
                world.wf(),
                valid_state(world@, current),
                step <= max_steps,
                acts.len() == step,
                current == run_actions(state, world@, acts),
                step == 0 ==> current == state,
                step > 0 ==> !spec_at_destination(state),
            decreases max_steps - step,
        {
            if current.at_destination() {
                assert(spec_at_destination(run_actions(state, world@, acts)));
                return Some(step);
            }
            let action = Actions::random(rng);
            proof {
                lemma_apply_keeps_valid(world@, current, action);
                assert(acts.push(action).drop_last() =~= acts);
                acts = acts.push(action);
            }
            current = current.apply_action(world, action);
            step = step + 1;
        }
        None
    }

    /// The attempt stops at the first state where the passenger is delivered, or after
    /// `max_steps` actions, and succeeds exactly when its actions deliver the passenger.
    fn attempt(&self, world: &World, state: State, max_steps: usize, rng: &mut Pcg) -> (a: Attempt)
        ensures
            a.success == spec_at_destination(run_actions(state, world@, a.actions@)),
            forall|k: int|
                0 <= k < a.actions.len() ==> !spec_at_destination(
                    #[trigger] run_actions(state, world@, a.actions@.take(k)),
                ),
            a.actions.len() < max_steps ==> a.success,
    {
        let mut current = state;
        let mut attempt = Attempt::new(current, max_steps);
        let mut step: usize = 0;
        proof {
            assert(attempt.actions@ =~= Seq::<Actions>::empty());
        }
        while step < max_steps
            invariant
                step <= max_steps,
                world.wf(),
                valid_state(world@, current),
                attempt.initial_state == state,
                attempt.actions.len() == step,
                !attempt.success,
                current == run_actions(state, world@, attempt.actions@),
                forall|k: int|
                    0 <= k < attempt.actions.len() ==> !spec_at_destination(
                        #[trigger] run_actions(state, world@, attempt.actions@.take(k)),
                    ),
            ensures
                step <= max_steps,
                step < max_steps ==> spec_at_destination(current),
            decreases max_steps - step,
        {
            if current.at_destination() {
                break;
            }
            let action = Actions::random(rng);
            let ghost before = attempt.actions@;
            attempt.step(action);
            proof {
                lemma_apply_keeps_valid(world@, current, action);
                assert(attempt.actions@.drop_last() =~= before);
                assert forall|k: int| 0 <= k < attempt.actions.len() implies !spec_at_destination(
                    #[trigger] run_actions(state, world@, attempt.actions@.take(k)),
                ) by {
                    if k < before.len() {
                        assert(attempt.actions@.take(k) =~= before.take(k));
                    } else {
                        assert(attempt.actions@.take(k) =~= before);
                    }
                }
            }
            current = current.apply_action(world, action);
            step = step + 1;
        }
        if current.at_destination() {
            attempt.succeeded();
        }
        attempt
    }

    /// Solving means some sequence of at most `max_steps` actions took the passenger
    /// from `state` to its destination.
    fn solves(&self, world: &World, state: State, max_steps: usize, rng: &mut Pcg) -> (b: bool)
        ensures
            b ==> exists|acts: Seq<Actions>|
                acts.len() <= max_steps && spec_at_destination(#[trigger] run_actions(state, world@, acts)),
            spec_at_destination(state) ==> b,
    {
        let mut current = state;
        let mut step: usize = 0;
        let ghost mut acts: Seq<Actions> = Seq::empty();
        while step < max_steps
            invariant
                world.wf(),
                valid_state(world@, current),
                step <= max_steps,
                acts.len() == step,
                current == run_actions(state, world@, acts),
                step == 0 ==> current == state,
                step > 0 ==> !spec_at_destination(state),
            decreases max_steps - step,
        {
            if current.at_destination() {
                assert(spec_at_destination(run_actions(state, world@, acts)));
                return true;
            }
            let action = Actions::random(rng);
            proof {
                lemma_apply_keeps_valid(world@, current, action);
                assert(acts.push(action).drop_last() =~= acts);
                acts = acts.push(action);
            }
            current = current.apply_action(world, action);
            step = step + 1;
        }
        if current.at_destination() {
            assert(spec_at_destination(run_actions(state, world@, acts)));
        }
        current.at_destination()
    }
}

} // verus!
