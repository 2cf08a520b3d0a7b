use vstd::prelude::*;

use crate::actions::Actions;
use crate::state::{spec_cost_kind, CostKind, State};
use crate::world::{
    distinct_locations, find_at, find_id, lemma_find_at, lemma_find_id, lemma_location_named_at, World, WorldView,
};

verus! {

/// How many values a primitive action keeps: a pick-up or a drop-off either succeeds
/// or not, a move always costs the same.
pub open spec fn spec_num_values(action: Actions) -> int {
    match action {
        Actions::PickUp | Actions::DropOff => 2,
        _ => 1,
    }
}

/// Which value of a primitive action a state uses: for a pick-up, 0 where the taxi
/// stands on the waiting passenger's location; for a drop-off, 0 where the passenger
/// rides and the taxi stands on the destination; otherwise 1; a move has one value.
pub open spec fn spec_value_index(action: Actions, v: WorldView, s: State) -> int {
    match action {
        Actions::PickUp => match s.passenger {
            Some(id) => if find_id(v.fixed, id) matches Some(k) && v.fixed[k].position == s.taxi {
                0
            } else {
                1
            },
            None => 1,
        },
        Actions::DropOff => match find_at(v.fixed, s.taxi) {
            Some(k) => if s.passenger is None && v.fixed[k].id == s.destination {
                0
            } else {
                1
            },
            None => 1,
        },
        _ => 0,
    }
}

pub fn num_values(action: Actions) -> (n: usize)
    ensures
        n == spec_num_values(action),
{
    match action {
        Actions::PickUp | Actions::DropOff => 2,
        Actions::North | Actions::South | Actions::East | Actions::West => 1,
    }
}

/// Which value of `action` the state uses; always below the number of values.
pub fn get_value_index(action: Actions, world: &World, state: &State) -> (i: usize)
    ensures
        i == spec_value_index(action, world@, *state),
        i < spec_num_values(action),
{
    match action {
        Actions::PickUp => match state.get_passenger() {
            Some(id) => {
                proof {
                    lemma_find_id(world@.fixed, id);
                }
                match world.get_fixed_position(id) {
                    Some(p) => if *p == *state.get_taxi() {
                        0
                    } else {
                        1
                    },
                    None => 1,
                }
            },
            None => 1,
        },
        Actions::DropOff => {
            proof {
                lemma_find_at(world@.fixed, state.taxi);
            }
            match world.get_fixed_id(state.get_taxi()) {
                Some(id) => if state.get_passenger().is_none() && id == state.get_destination() {
                    0
                } else {
                    1
                },
                None => 1,
            }
        },
        Actions::North | Actions::South | Actions::East | Actions::West => 0,
    }
}


/// A pick-up or a drop-off uses its first value exactly where it is free: where it
/// takes the waiting passenger in, or lets the riding passenger out at the
/// destination; in a world whose locations have distinct names and cells.
pub proof fn lemma_first_value_is_free(action: Actions, v: WorldView, s: State)
    requires
        distinct_locations(v),
        action is PickUp || action is DropOff,
    ensures
        spec_value_index(action, v, s) == 0 <==> spec_cost_kind(s, v, action) == CostKind::Free,
{
    if let Some(id) = s.passenger {
        lemma_location_named_at(v, id, s.taxi);
    }
}

} // verus!
