use vstd::prelude::*;

use crate::random::{gen_index, Pcg};

verus! {

/// The six moves available to the taxi.
#[derive(Debug, Clone, Copy, PartialEq, Eq, Structural)]
pub enum Actions {
    North,
    South,
    East,
    West,
    PickUp,
    DropOff,
}

/// Index of an action in the fixed order North, South, East, West, PickUp, DropOff.
pub open spec fn spec_action_index(a: Actions) -> nat {
    match a {
        Actions::North => 0,
        Actions::South => 1,
        Actions::East => 2,
        Actions::West => 3,
        Actions::PickUp => 4,
        Actions::DropOff => 5,
    }
}

/// The action at a position of the fixed order, if the position is one.
pub open spec fn spec_action_from_index(i: int) -> Option<Actions> {
    if i == 0 {
        Some(Actions::North)
    } else if i == 1 {
        Some(Actions::South)
    } else if i == 2 {
        Some(Actions::East)
    } else if i == 3 {
        Some(Actions::West)
    } else if i == 4 {
        Some(Actions::PickUp)
    } else if i == 5 {
        Some(Actions::DropOff)
    } else {
        None
    }
}

/// The one-letter name of an action.
pub open spec fn spec_action_char(a: Actions) -> char {
    match a {
        Actions::North => 'N',
        Actions::South => 'S',
        Actions::East => 'E',
        Actions::West => 'W',
        Actions::PickUp => 'P',
        Actions::DropOff => 'D',
    }
}

impl Actions {
    pub const NUM_ELEMENTS: usize = 6;

    pub fn to_index(&self) -> (i: usize)
        ensures
            i == spec_action_index(*self),
            i < Actions::NUM_ELEMENTS,
    {
        match *self {
            Actions::North => 0,
            Actions::South => 1,
            Actions::East => 2,
            Actions::West => 3,
            Actions::PickUp => 4,
            Actions::DropOff => 5,
        }
    }

    pub fn from_index(i: usize) -> (a: Option<Actions>)
        ensures
            a == spec_action_from_index(i as int),
            a is Some <==> i < Actions::NUM_ELEMENTS,
    {
        match i {
            0 => Some(Actions::North),
            1 => Some(Actions::South),
            2 => Some(Actions::East),
            3 => Some(Actions::West),
            4 => Some(Actions::PickUp),
            5 => Some(Actions::DropOff),
            _ => None,
        }
    }

    /// Draws an action uniformly from the six.
    pub fn random(rng: &mut Pcg) -> (a: Actions) {
        let i = gen_index(rng, 0, Actions::NUM_ELEMENTS);
        match Actions::from_index(i) {
            Some(a) => a,
            None => Actions::North,
        }
    }

    /// The one-letter name of the action, as it is displayed.
    pub fn to_char(&self) -> (c: char)
        ensures
            c == spec_action_char(*self),
    {
        match *self {
            Actions::North => 'N',
            Actions::South => 'S',
            Actions::East => 'E',
            Actions::West => 'W',
            Actions::PickUp => 'P',
            Actions::DropOff => 'D',
        }
    }
}

/// Reading an action's index back gives the action.
pub proof fn lemma_index_round_trip(a: Actions)
    ensures
        spec_action_from_index(spec_action_index(a) as int) == Some(a),
        spec_action_index(a) < 6,
{
}

/// Every index below six names an action whose index is that number.
pub proof fn lemma_from_index_round_trip(i: int)
    requires
        0 <= i < 6,
    ensures
        spec_action_from_index(i) matches Some(a) && spec_action_index(a) == i,
{
}

/// Distinct actions have distinct indices.
pub proof fn lemma_index_injective(a: Actions, b: Actions)
    requires
        spec_action_index(a) == spec_action_index(b),
    ensures
        a == b,
{
}

} // verus!
