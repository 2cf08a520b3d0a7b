use vstd::prelude::*;

use crate::actions::{spec_action_index, Actions};
use crate::state::State;
use crate::world::{find_id, World, WorldView};

verus! {

/// The number of taxi cells.
pub open spec fn cells(v: WorldView) -> int {
    v.width * v.height
}

/// How many situations the reward of `action` depends on: the taxi's cell for a move,
/// also the passenger for a pick-up, and also the destination for a drop-off.
pub open spec fn spec_num_reward_parents(v: WorldView, action: Actions) -> int {
    let d = v.fixed.len() as int;
    match action {
        Actions::North | Actions::South | Actions::East | Actions::West => cells(v),
        Actions::PickUp => (d + 1) * cells(v),
        Actions::DropOff => d * (d + 1) * cells(v),
    }
}

/// How many situations the rewards of all actions depend on.
pub open spec fn spec_total_reward_parents(v: WorldView) -> int {
    let d = v.fixed.len() as int;
    cells(v) * 4 + (d + 1) * cells(v) + d * (d + 1) * cells(v)
}

/// Where the situations of each action begin, in action order.
pub open spec fn spec_reward_start(v: WorldView, a: int) -> int
    decreases a,
{
    if a <= 0 {
        0
    } else {
        spec_reward_start(v, a - 1) + spec_num_reward_parents(v, Actions::from_index_spec(a - 1))
    }
}

/// The number of the situation of `action` with the taxi at `(x, y)`, the passenger at
/// digit `p` and the destination at digit `d`.
pub open spec fn spec_reward_parent_index(v: WorldView, action: Actions, x: int, y: int, p: int, d: int) -> int {
    match action {
        Actions::North | Actions::South | Actions::East | Actions::West => y * v.width + x,
        Actions::PickUp => (p * v.height + y) * v.width + x,
        Actions::DropOff => ((d * (v.fixed.len() + 1) + p) * v.height + y) * v.width + x,
    }
}

/// The passenger's digit: 0 while it rides, one more than its location's index
/// otherwise.
pub open spec fn spec_passenger_index(v: WorldView, s: State) -> Option<int> {
    match s.passenger {
        None => Some(0),
        Some(id) => match find_id(v.fixed, id) {
            Some(k) => Some(k + 1),
            None => None,
        },
    }
}

/// The rewards can be numbered in `usize`.
pub open spec fn rewards_fit(v: WorldView) -> bool {
    &&& cells(v) <= i32::MAX
    &&& v.fixed.len() < usize::MAX
    &&& v.fixed.len() * (v.fixed.len() + 1) <= usize::MAX
    &&& spec_total_reward_parents(v) <= usize::MAX
}

impl Actions {
    /// The action at a position of the fixed order, for positions below six.
    pub open spec fn from_index_spec(i: int) -> Actions {
        match crate::actions::spec_action_from_index(i) {
            Some(a) => a,
            None => Actions::DropOff,
        }
    }
}

proof fn lemma_sizes(v: WorldView)
    requires
        v.valid(),
        rewards_fit(v),
    ensures
        0 <= cells(v),
        0 <= (v.fixed.len() + 1) * cells(v),
        0 <= v.fixed.len() * (v.fixed.len() + 1) * cells(v),
{
    let d = v.fixed.len() as int;
    assert(0 <= cells(v)) by (nonlinear_arith)
        requires
            v.width >= 0,
            v.height >= 0,
    ;
    assert(0 <= (d + 1) * cells(v)) by (nonlinear_arith)
        requires
            d >= 0,
            cells(v) >= 0,
    ;
    assert(0 <= d * (d + 1) * cells(v)) by (nonlinear_arith)
        requires
            d >= 0,
            cells(v) >= 0,
    ;
}

/// Whether the rewards of `world` can be numbered in `usize`; the sizes are checked
/// without overflow.
pub fn fits_rewards(world: &World) -> (b: bool)
    requires
        world.wf(),
    ensures
        b == rewards_fit(world@),
{
    let ghost v = world@;
    let w = world.width as u64;
    let h = world.height as u64;
    proof {
        assert(w * h <= 0xffff_ffff_ffff_ffffu64) by (nonlinear_arith)
            requires
                w <= 0x7fff_ffff,
                h <= 0x7fff_ffff,
        ;
    }
    let cells64 = w * h;
    if cells64 > 0x7fff_ffffu64 {
        return false;
    }
    let num_cells = cells64 as usize;
    let d = world.fixed_positions.len();
    if d == usize::MAX {
        return false;
    }
    let ghost dd = d as int;
    proof {
        assert(num_cells == cells(v));
        assert(0 <= (dd + 1) * num_cells && 0 <= dd * (dd + 1) * num_cells && 0 <= dd * (dd + 1)) by (nonlinear_arith)
            requires
                0 <= dd,
                0 <= num_cells,
        ;
    }
    let pairs = match d.checked_mul(d + 1) {
        Some(x) => x,
        None => {
            return false;
        },
    };
    let moves = match num_cells.checked_mul(4) {
        Some(x) => x,
        None => {
            return false;
        },
    };
    let pick_ups = match (d + 1).checked_mul(num_cells) {
        Some(x) => x,
        None => {
            return false;
        },
    };
    let drop_offs = match pairs.checked_mul(num_cells) {
        Some(x) => x,
        None => {
            return false;
        },
    };
    match moves.checked_add(pick_ups) {
        Some(x) => x.checked_add(drop_offs).is_some(),
        None => false,
    }
}

pub fn num_reward_parents(world: &World, action: Actions) -> (n: usize)
    requires
        world.wf(),
        rewards_fit(world@),
    ensures
        n == spec_num_reward_parents(world@, action),
{
    proof {
        lemma_sizes(world@);
    }
    let num_taxi_values = (world.width * world.height) as usize;
    let num_destination_values = world.num_fixed_positions();
    let num_passenger_values = num_destination_values + 1;
    match action {
        Actions::North | Actions::South | Actions::East | Actions::West => num_taxi_values,
        Actions::PickUp => num_passenger_values * num_taxi_values,
        Actions::DropOff => num_destination_values * num_passenger_values * num_taxi_values,
    }
}

pub fn total_reward_parents(world: &World) -> (n: usize)
    requires
        world.wf(),
        rewards_fit(world@),
    ensures
        n == spec_total_reward_parents(world@),
{
    proof {
        lemma_sizes(world@);
    }
    let num_taxi_values = (world.width * world.height) as usize;
    let num_destination_values = world.num_fixed_positions();
    let num_passenger_values = num_destination_values + 1;
    num_taxi_values * 4 + num_passenger_values * num_taxi_values + num_destination_values
        * num_passenger_values * num_taxi_values
}

/// Where the situations of each action begin: the situations of all actions, in
/// action order, fill `0..total_reward_parents` without gap or overlap.
pub fn reward_starts(world: &World) -> (starts: [usize; 6])
    requires
        world.wf(),
        rewards_fit(world@),
    ensures
        forall|a: int| 0 <= a < 6 ==> #[trigger] starts@[a] == spec_reward_start(world@, a),
        spec_reward_start(world@, 6) == spec_total_reward_parents(world@),
{
    proof {
        lemma_sizes(world@);
    }
    let mut starts: [usize; 6] = [0; 6];
    let mut next_reward_index: usize = 0;
    let mut action_index: usize = 0;
    while action_index < Actions::NUM_ELEMENTS
        invariant
            world.wf(),
            rewards_fit(world@),
            0 <= cells(world@),
            0 <= (world@.fixed.len() + 1) * cells(world@),
            0 <= world@.fixed.len() * (world@.fixed.len() + 1) * cells(world@),
            action_index <= 6,
            next_reward_index == spec_reward_start(world@, action_index as int),
            forall|a: int| 0 <= a < action_index ==> #[trigger] starts@[a] == spec_reward_start(world@, a),
        decreases 6 - action_index,
    {
        let action = match Actions::from_index(action_index) {
            Some(a) => a,
            None => Actions::DropOff,
        };
        starts[action_index] = next_reward_index;
        proof {
            assert(action == Actions::from_index_spec(action_index as int));
            reveal_with_fuel(spec_reward_start, 7);
        }
        next_reward_index = next_reward_index + num_reward_parents(world, action);
        action_index = action_index + 1;
    }
    proof {
        reveal_with_fuel(spec_reward_start, 7);
    }
    starts
}

/// The number of a situation within those of its action.
pub fn generate_reward_parent_index(
    world: &World,
    action: Actions,
    x_index: usize,
    y_index: usize,
    passenger_index: usize,
    destination_index: usize,
) -> (i: usize)
    requires
        world.wf(),
        rewards_fit(world@),
        x_index < world.width,
        y_index < world.height,
        passenger_index <= world@.fixed.len(),
        destination_index < world@.fixed.len() || action != Actions::DropOff,
    ensures
        i == spec_reward_parent_index(
            world@,
            action,
            x_index as int,
            y_index as int,
            passenger_index as int,
            destination_index as int,
        ),
        i < spec_num_reward_parents(world@, action),
{
    let ghost (w, h, d) = (world.width as int, world.height as int, world@.fixed.len() as int);
    let ghost (x, y, p, dd) = (x_index as int, y_index as int, passenger_index as int, destination_index as int);
    proof {
        lemma_sizes(world@);
        assert(y * w + x < w * h) by (nonlinear_arith)
            requires
                0 <= x < w,
                0 <= y < h,
        ;
        assert((p * h + y) * w + x < (d + 1) * (w * h)) by (nonlinear_arith)
            requires
                0 <= x < w,
                0 <= y < h,
                0 <= p <= d,
        ;
        assert(0 <= p * h + y && 0 <= (p * h + y) * w) by (nonlinear_arith)
            requires
                0 <= y < h,
                0 <= p,
                0 <= w,
        ;
        if action == Actions::DropOff {
            assert(((dd * (d + 1) + p) * h + y) * w + x < d * (d + 1) * (w * h)) by (nonlinear_arith)
                requires
                    0 <= x < w,
                    0 <= y < h,
                    0 <= p <= d,
                    0 <= dd < d,
            ;
            assert(0 <= dd * (d + 1) && 0 <= (dd * (d + 1) + p) * h && 0 <= ((dd * (d + 1) + p) * h
                + y) * w) by (nonlinear_arith)
                requires
                    0 <= y < h,
                    0 <= p,
                    0 <= dd,
                    0 <= d,
                    0 <= w,
            ;
            assert(d * (d + 1) * (w * h) <= spec_total_reward_parents(world@));
        }
        assert((d + 1) * (w * h) <= spec_total_reward_parents(world@));
        assert(p * h <= p * h + y <= (p * h + y) * w) by (nonlinear_arith)
            requires
                0 <= y < h,
                0 <= p,
                1 <= w,
        ;
        if action == Actions::DropOff {
            let a = dd * (d + 1) + p;
            assert(dd * (d + 1) <= d * (d + 1)) by (nonlinear_arith)
                requires
                    0 <= dd < d,
            ;
            assert(a <= a * h <= a * h + y <= (a * h + y) * w) by (nonlinear_arith)
                requires
                    0 <= y < h,
                    0 <= a,
                    1 <= w,
            ;
        }
    }
    match action {
        Actions::North | Actions::South | Actions::East | Actions::West => {
            y_index * (world.width as usize) + x_index
        },
        Actions::PickUp => {
            let mut result = passenger_index;
            result = result * (world.height as usize);
            result = result + y_index;
            result = result * (world.width as usize);
            result = result + x_index;
            result
        },
        Actions::DropOff => {
            let mut result = destination_index;
            result = result * (world.num_fixed_positions() + 1);
            result = result + passenger_index;
            result = result * (world.height as usize);
            result = result + y_index;
            result = result * (world.width as usize);
            result = result + x_index;
            result
        },
    }
}

pub fn generate_passenger_index(world: &World, state: &State) -> (r: Option<usize>)
    requires
        world@.fixed.len() < usize::MAX,
    ensures
        match r {
            Some(i) => spec_passenger_index(world@, *state) == Some(i as int),
            None => spec_passenger_index(world@, *state) is None,
        },
{
    match state.get_passenger() {
        None => Some(0),
        Some(passenger_id) => {
            proof {
                crate::world::lemma_find_id(world@.fixed, passenger_id);
            }
            match world.get_fixed_index(passenger_id) {
                Some(i) => Some(i + 1),
                None => None,
            }
        },
    }
}

pub fn generate_destination_index(world: &World, state: &State) -> (r: Option<usize>)
    ensures
        match r {
            Some(i) => find_id(world@.fixed, state.destination) == Some(i as int),
            None => find_id(world@.fixed, state.destination) is None,
        },
{
    world.get_fixed_index(state.get_destination())
}

/// The situations of the six actions follow each other without gap or overlap, and
/// together make up all situations.
pub proof fn lemma_reward_layout(v: WorldView)
    ensures
        spec_reward_start(v, 0) == 0,
        forall|a: int|
            0 <= a < 6 ==> #[trigger] spec_reward_start(v, a + 1) == spec_reward_start(v, a)
                + spec_num_reward_parents(v, Actions::from_index_spec(a)),
        spec_reward_start(v, 6) == spec_total_reward_parents(v),
{
    reveal_with_fuel(spec_reward_start, 7);
}

} // verus!
