use vstd::prelude::*;

use crate::actions::{spec_action_index, Actions};
use crate::world::{World, WorldView};

verus! {

// The factored model keeps, for each action and each state variable (the taxi's x, its
// y, the passenger and the destination), a count of transitions per "parent"
// situation the variable's next value depends on. Slot `4 * a + var` holds the
// parents of variable `var` under the action at position `a`.

/// The number of cells of the grid.
pub open spec fn cells(v: WorldView) -> int {
    v.width * v.height
}

/// The number of values of variable `var`.
pub open spec fn num_values_of(v: WorldView, var: int) -> int {
    let d = v.fixed.len() as int;
    if var == 0 {
        v.width
    } else if var == 1 {
        v.height
    } else if var == 2 {
        d + 1
    } else {
        d
    }
}

/// The number of parent situations of variable `var` under `action`: a move east or
/// west changes x depending on the whole cell, other actions on x alone; y depends on
/// y; the passenger depends on the cell, the destination and itself for a drop-off, on
/// the cell and itself for a pick-up, on itself otherwise; the destination on itself.
pub open spec fn spec_num_parents(v: WorldView, action: Actions, var: int) -> int {
    let d = v.fixed.len() as int;
    if var == 0 {
        match action {
            Actions::East | Actions::West => cells(v),
            _ => v.width,
        }
    } else if var == 1 {
        v.height
    } else if var == 2 {
        match action {
            Actions::DropOff => cells(v) * d * (d + 1),
            Actions::PickUp => cells(v) * (d + 1),
            _ => d + 1,
        }
    } else {
        d
    }
}

/// The action whose parents fill slot `k`.
pub open spec fn slot_action(k: int) -> Actions {
    match crate::actions::spec_action_from_index(k / 4) {
        Some(a) => a,
        None => Actions::DropOff,
    }
}

/// The number of parents of slot `k`.
pub open spec fn slot_parents(v: WorldView, k: int) -> int {
    spec_num_parents(v, slot_action(k), k % 4)
}

/// Where the parents of slot `k` begin: after all parents of the slots before it.
pub open spec fn parent_start(v: WorldView, k: int) -> int
    decreases k,
{
    if k <= 0 {
        0
    } else {
        parent_start(v, k - 1) + slot_parents(v, k - 1)
    }
}

/// Where the transitions of the first parent of slot `k` begin: each parent has one
/// transition count per value of its variable.
pub open spec fn transition_start(v: WorldView, k: int) -> int
    decreases k,
{
    if k <= 0 {
        0
    } else {
        transition_start(v, k - 1) + slot_parents(v, k - 1) * num_values_of(v, (k - 1) % 4)
    }
}

pub open spec fn spec_total_x_parents(v: WorldView) -> int {
    2 * cells(v) + 4 * v.width
}

pub open spec fn spec_total_y_parents(v: WorldView) -> int {
    6 * v.height
}

pub open spec fn spec_total_passenger_parents(v: WorldView) -> int {
    let d = v.fixed.len() as int;
    cells(v) * d * (d + 1) + cells(v) * (d + 1) + 4 * (d + 1)
}

pub open spec fn spec_total_destination_parents(v: WorldView) -> int {
    6 * (v.fixed.len() as int)
}

pub open spec fn spec_total_variable_parents(v: WorldView) -> int {
    spec_total_x_parents(v) + spec_total_y_parents(v) + spec_total_passenger_parents(v)
        + spec_total_destination_parents(v)
}

pub open spec fn spec_total_transitions(v: WorldView) -> int {
    let d = v.fixed.len() as int;
    spec_total_x_parents(v) * v.width + spec_total_y_parents(v) * v.height
        + spec_total_passenger_parents(v) * (d + 1) + spec_total_destination_parents(v) * d
}

/// The counts of the factored model can be numbered in `usize`.
pub open spec fn layout_fits(v: WorldView) -> bool {
    &&& cells(v) <= i32::MAX
    &&& v.fixed.len() < usize::MAX
    &&& spec_total_variable_parents(v) <= usize::MAX
    &&& spec_total_transitions(v) <= usize::MAX
}

proof fn lemma_nonneg(v: WorldView)
    requires
        v.valid(),
    ensures
        0 <= cells(v),
        forall|k: int| 0 <= k ==> 0 <= #[trigger] slot_parents(v, k),
        forall|k: int| 0 <= k ==> 0 <= #[trigger] (slot_parents(v, k) * num_values_of(v, k % 4)),
{
    let d = v.fixed.len() as int;
    assert(0 <= cells(v)) by (nonlinear_arith)
        requires
            0 <= v.width,
            0 <= v.height,
    ;
    assert(0 <= cells(v) * d * (d + 1) && 0 <= cells(v) * (d + 1)) by (nonlinear_arith)
        requires
            0 <= cells(v),
            0 <= d,
    ;
    assert forall|k: int| 0 <= k implies 0 <= #[trigger] (slot_parents(v, k) * num_values_of(v, k % 4)) by {
        assert(0 <= slot_parents(v, k) * num_values_of(v, k % 4)) by (nonlinear_arith)
            requires
                0 <= slot_parents(v, k),
                0 <= num_values_of(v, k % 4),
        ;
    }
}

/// The parents of the 24 slots fill exactly the parents of all variables, and their
/// transitions exactly all transitions.
pub proof fn lemma_layout_totals(v: WorldView)
    ensures
        parent_start(v, 24) == spec_total_variable_parents(v),
        transition_start(v, 24) == spec_total_transitions(v),
{
    reveal_with_fuel(parent_start, 25);
    reveal_with_fuel(transition_start, 25);
    let d = v.fixed.len() as int;
    let c = cells(v);
    assert(spec_total_x_parents(v) * v.width == 2 * (c * v.width) + 4 * (v.width * v.width))
        by (nonlinear_arith)
        requires
            spec_total_x_parents(v) == 2 * c + 4 * v.width,
    ;
    assert(spec_total_y_parents(v) * v.height == 6 * (v.height * v.height)) by (nonlinear_arith)
        requires
            spec_total_y_parents(v) == 6 * v.height,
    ;
    assert(spec_total_passenger_parents(v) * (d + 1) == (c * d * (d + 1)) * (d + 1) + (c * (d + 1)) * (
    d + 1) + 4 * ((d + 1) * (d + 1))) by (nonlinear_arith)
        requires
            spec_total_passenger_parents(v) == c * d * (d + 1) + c * (d + 1) + 4 * (d + 1),
    ;
    assert(spec_total_destination_parents(v) * d == 6 * (d * d)) by (nonlinear_arith)
        requires
            spec_total_destination_parents(v) == 6 * d,
    ;
}

/// Partial sums of non-negative counts grow.
proof fn lemma_starts_grow(v: WorldView, j: int, k: int)
    requires
        v.valid(),
        0 <= j <= k,
    ensures
        parent_start(v, j) <= parent_start(v, k),
        transition_start(v, j) <= transition_start(v, k),
    decreases k - j,
{
    lemma_nonneg(v);
    if j < k {
        lemma_starts_grow(v, j, k - 1);
    }
}

/// Where the parents of each slot begin, and where the transitions of each parent
/// begin.
#[derive(Debug, Clone)]
pub struct TransitionLayout {
    pub parent_index_starts: [usize; 24],
    pub transition_starts: Vec<usize>,
}

fn add_or_none(a: Option<usize>, b: Option<usize>) -> (r: Option<usize>)
    ensures
        r == match (a, b) {
            (Some(x), Some(y)) => if x + y <= usize::MAX {
                Some((x + y) as usize)
            } else {
                None
            },
            _ => None,
        },
{
    match (a, b) {
        (Some(x), Some(y)) => x.checked_add(y),
        _ => None,
    }
}

fn mul_or_none(a: Option<usize>, b: usize) -> (r: Option<usize>)
    ensures
        r == match a {
            Some(x) => if x * b <= usize::MAX {
                Some((x * b) as usize)
            } else {
                None
            },
            None => None,
        },
{
    match a {
        Some(x) => x.checked_mul(b),
        None => None,
    }
}

/// Whether the counts of the factored model of `world` can be numbered in `usize`; the
/// sizes are checked without overflow.
pub fn fits_layout(world: &World) -> (b: bool)
    requires
        world.wf(),
    ensures
        b == layout_fits(world@),
{
    let ghost v = world@;
    let w64 = world.width as u64;
    let h64 = world.height as u64;
    proof {
        assert(w64 * h64 <= 0xffff_ffff_ffff_ffffu64) by (nonlinear_arith)
            requires
                w64 <= 0x7fff_ffff,
                h64 <= 0x7fff_ffff,
        ;
    }
    let cells64 = w64 * h64;
    if cells64 > 0x7fff_ffffu64 {
        return false;
    }
    let c = cells64 as usize;
    let w = world.width as usize;
    let h = world.height as usize;
    let d = world.fixed_positions.len();
    if d == usize::MAX {
        return false;
    }
    let ghost (ci, wi, hi, di) = (c as int, w as int, h as int, d as int);
    proof {
        assert(ci == cells(v));
        assert(0 <= ci * di && 0 <= ci * di * (di + 1) && 0 <= ci * (di + 1) && ci * di <= ci * di * (di + 1))
            by (nonlinear_arith)
            requires
                0 <= ci,
                0 <= di,
        ;
    }
    // The parents of each variable, summed over the actions.
    let total_x = add_or_none(mul_or_none(Some(c), 2), mul_or_none(Some(w), 4));
    let total_y = mul_or_none(Some(h), 6);
    let total_p = add_or_none(
        add_or_none(mul_or_none(mul_or_none(Some(c), d), d + 1), mul_or_none(Some(c), d + 1)),
        mul_or_none(Some(d + 1), 4),
    );
    let total_d = mul_or_none(Some(d), 6);
    let parents = add_or_none(add_or_none(add_or_none(total_x, total_y), total_p), total_d);
    proof {
        let tx = spec_total_x_parents(v);
        let ty = spec_total_y_parents(v);
        let tp = spec_total_passenger_parents(v);
        let td = spec_total_destination_parents(v);
        assert(total_x is Some ==> total_x == Some(tx as usize));
        assert(total_y is Some ==> total_y == Some(ty as usize));
        assert(total_p is Some ==> total_p == Some(tp as usize));
        assert(total_d is Some ==> total_d == Some(td as usize));
        assert(parents is Some <==> spec_total_variable_parents(v) <= usize::MAX);
    }
    if parents.is_none() {
        return false;
    }
    let transitions = add_or_none(
        add_or_none(
            add_or_none(mul_or_none(total_x, w), mul_or_none(total_y, h)),
            mul_or_none(total_p, d + 1),
        ),
        mul_or_none(total_d, d),
    );
    proof {
        let tx = spec_total_x_parents(v);
        let ty = spec_total_y_parents(v);
        let tp = spec_total_passenger_parents(v);
        let td = spec_total_destination_parents(v);
        assert(0 <= tx * wi && 0 <= ty * hi && 0 <= tp * (di + 1) && 0 <= td * di) by (nonlinear_arith)
            requires
                0 <= tx,
                0 <= ty,
                0 <= tp,
                0 <= td,
                0 <= wi,
                0 <= hi,
                0 <= di,
        ;
        assert(transitions is Some <==> spec_total_transitions(v) <= usize::MAX);
    }
    transitions.is_some()
}

/// The number of parents of variable `var` under `action`.
pub fn num_parents(world: &World, action: Actions, var: usize) -> (n: usize)
    requires
        world.wf(),
        layout_fits(world@),
        var < 4,
    ensures
        n == spec_num_parents(world@, action, var as int),
{
    let ghost v = world@;
    let ghost d = v.fixed.len() as int;
    proof {
        lemma_nonneg(v);
        assert(cells(v) * d <= cells(v) * d * (d + 1)) by (nonlinear_arith)
            requires
                0 <= cells(v),
                0 <= d,
        ;
    }
    let num_destination_states = world.num_fixed_positions();
    let num_passenger_states = num_destination_states + 1;
    let num_taxi_states = (world.height * world.width) as usize;
    proof {
        assert(num_taxi_states == cells(v)) by (nonlinear_arith)
            requires
                num_taxi_states == world.height * world.width,
                v.width == world.width,
                v.height == world.height,
        ;
    }
    if var == 0 {
        match action {
            Actions::East | Actions::West => num_taxi_states,
            _ => world.width as usize,
        }
    } else if var == 1 {
        world.height as usize
    } else if var == 2 {
        match action {
            Actions::DropOff => num_taxi_states * num_destination_states * num_passenger_states,
            Actions::PickUp => num_taxi_states * num_passenger_states,
            _ => num_passenger_states,
        }
    } else {
        num_destination_states
    }
}

/// Appends `count` transition starts, `values` apart, the first at `first`.
fn push_transition_starts(starts: &mut Vec<usize>, count: usize, values: usize, first: usize)
    requires
        first + count * values <= usize::MAX,
    ensures
        final(starts).len() == old(starts).len() + count,
        forall|i: int| 0 <= i < old(starts).len() ==> #[trigger] final(starts)@[i] == old(starts)@[i],
        forall|u: int| 0 <= u < count ==> #[trigger] final(starts)@[old(starts).len() + u] == first + u * values,
{
    let ghost base = starts.len() as int;
    let mut next = first;
    let mut t: usize = 0;
    while t < count
        invariant
            t <= count,
            first + count * values <= usize::MAX,
            starts.len() == base + t,
            base == old(starts).len(),
            next == first + t * values,
            forall|i: int| 0 <= i < base ==> #[trigger] starts@[i] == old(starts)@[i],
            forall|u: int| 0 <= u < t ==> #[trigger] starts@[base + u] == first + u * values,
        decreases count - t,
    {
        proof {
            assert((t + 1) * values <= count * values) by (nonlinear_arith)
                requires
                    t + 1 <= count,
            ;
            assert((t + 1) * values == t * values + values) by (nonlinear_arith);
        }
        starts.push(next);
        next = next + values;
        t = t + 1;
    }
}

impl TransitionLayout {
    /// Lays out the parents of every slot one after the other, and gives each parent
    /// one transition count per value of its variable.
    pub fn new(world: &World) -> (l: TransitionLayout)
        requires
            world.wf(),
            layout_fits(world@),
        ensures
            forall|k: int| 0 <= k < 24 ==> #[trigger] l.parent_index_starts@[k] == parent_start(world@, k),
            l.transition_starts.len() == spec_total_variable_parents(world@),
            forall|k: int, t: int|
                0 <= k < 24 && 0 <= t < slot_parents(world@, k) ==> #[trigger] l.transition_starts@[parent_start(
                    world@,
                    k,
                ) + t] == transition_start(world@, k) + t * num_values_of(world@, k % 4),
    {
        let ghost v = world@;
        proof {
            lemma_nonneg(v);
            lemma_layout_totals(v);
        }
        let num_destination_states = world.num_fixed_positions();
        let mut parent_index_starts: [usize; 24] = [0; 24];
        let mut transition_starts: Vec<usize> = Vec::new();
        let mut next_transition_index: usize = 0;
        let mut slot: usize = 0;
        while slot < 24
            invariant
                world.wf(),
                v == world@,
                layout_fits(v),
                num_destination_states == v.fixed.len(),
                slot <= 24,
                transition_starts.len() == parent_start(v, slot as int),
                next_transition_index == transition_start(v, slot as int),
                forall|k: int| 0 <= k < slot ==> #[trigger] parent_index_starts@[k] == parent_start(v, k),
                forall|k: int, t: int|
                    0 <= k < slot && 0 <= t < slot_parents(v, k) ==> #[trigger] transition_starts@[parent_start(
                        v,
                        k,
                    ) + t] == transition_start(v, k) + t * num_values_of(v, k % 4),
                parent_start(v, 24) == spec_total_variable_parents(v),
                transition_start(v, 24) == spec_total_transitions(v),
            decreases 24 - slot,
        {
            let action = match Actions::from_index(slot / 4) {
                Some(a) => a,
                None => Actions::DropOff,
            };
            let var = slot % 4;
            let count = num_parents(world, action, var);
            let values: usize = if var == 0 {
                world.width as usize
            } else if var == 1 {
                world.height as usize
            } else if var == 2 {
                num_destination_states + 1
            } else {
                num_destination_states
            };
            proof {
                assert(action == slot_action(slot as int));
                assert(count == slot_parents(v, slot as int));
                assert(values == num_values_of(v, (slot % 4) as int));
                lemma_starts_grow(v, slot + 1, 24);
                assert(parent_start(v, slot + 1) == parent_start(v, slot as int) + count);
                assert(transition_start(v, slot + 1) == transition_start(v, slot as int) + count * values);
            }
            parent_index_starts[slot] = transition_starts.len();
            let ghost prev = transition_starts@;
            proof {
                assert(transition_start(v, slot as int) + count * values <= usize::MAX);
            }
            push_transition_starts(&mut transition_starts, count, values, next_transition_index);
            proof {
                assert forall|k: int, u: int|
                    0 <= k < slot + 1 && 0 <= u < slot_parents(v, k) implies #[trigger] transition_starts@[parent_start(
                    v,
                    k,
                ) + u] == transition_start(v, k) + u * num_values_of(v, k % 4) by {
                    lemma_starts_grow(v, 0, k);
                    if k < slot {
                        lemma_starts_grow(v, k + 1, slot as int);
                        assert(transition_starts@[parent_start(v, k) + u] == prev[parent_start(v, k) + u]);
                    }
                }
            }
            next_transition_index = next_transition_index + count * values;
            slot = slot + 1;
        }
        TransitionLayout { parent_index_starts, transition_starts }
    }
}

/// The number of transition counts of the model.
pub fn total_transitions(world: &World) -> (n: usize)
    requires
        world.wf(),
        layout_fits(world@),
    ensures
        n == spec_total_transitions(world@),
{
    TransitionLayout::total_from_starts(world)
}

/// The offset of a parent within its slot: the cell for a move east or west, x
/// otherwise.
pub open spec fn x_offset(v: WorldView, action: Actions, x: int, y: int) -> int {
    match action {
        Actions::East | Actions::West => y * v.width + x,
        _ => x,
    }
}

/// The offset of a passenger parent within its slot.
pub open spec fn passenger_offset(v: WorldView, action: Actions, x: int, y: int, p: int, d: int) -> int {
    let n = v.fixed.len() as int;
    match action {
        Actions::DropOff => ((y * v.width + x) * n + d) * (n + 1) + p,
        Actions::PickUp => (y * v.width + x) * (n + 1) + p,
        _ => p,
    }
}

impl TransitionLayout {
    /// The number of transition counts, as the layout of the 24 slots adds them up.
    fn total_from_starts(world: &World) -> (n: usize)
        requires
            world.wf(),
            layout_fits(world@),
        ensures
            n == spec_total_transitions(world@),
    {
        let ghost v = world@;
        proof {
            lemma_nonneg(v);
            lemma_layout_totals(v);
        }
        let num_destination_states = world.num_fixed_positions();
        let mut total: usize = 0;
        let mut slot: usize = 0;
        while slot < 24
            invariant
                world.wf(),
                v == world@,
                layout_fits(v),
                num_destination_states == v.fixed.len(),
                slot <= 24,
                total == transition_start(v, slot as int),
                transition_start(v, 24) == spec_total_transitions(v),
            decreases 24 - slot,
        {
            let action = match Actions::from_index(slot / 4) {
                Some(a) => a,
                None => Actions::DropOff,
            };
            let var = slot % 4;
            let count = num_parents(world, action, var);
            let values: usize = if var == 0 {
                world.width as usize
            } else if var == 1 {
                world.height as usize
            } else if var == 2 {
                num_destination_states + 1
            } else {
                num_destination_states
            };
            proof {
                assert(action == slot_action(slot as int));
                assert(values == num_values_of(v, (slot % 4) as int));
                lemma_starts_grow(v, slot + 1, 24);
            }
            total = total + count * values;
            slot = slot + 1;
        }
        total
    }

    /// The parent of the taxi's next x under `action`.
    pub fn generate_x_parent_index(&self, world: &World, action: Actions, x_index: usize, y_index: usize) -> (i: usize)
        requires
            world.wf(),
            layout_fits(world@),
            forall|k: int| 0 <= k < 24 ==> #[trigger] self.parent_index_starts@[k] == parent_start(world@, k),
            x_index < world.width,
            y_index < world.height,
        ensures
            i == parent_start(world@, 4 * (spec_action_index(action) as int)) + x_offset(world@, action, x_index as int, y_index as int),
            x_offset(world@, action, x_index as int, y_index as int) < slot_parents(world@, 4 * (spec_action_index(action) as int)),
    {
        let ghost v = world@;
        let slot = action.to_index() * 4;
        proof {
            lemma_nonneg(v);
            lemma_layout_totals(v);
            lemma_starts_grow(v, slot + 1, 24);
            assert(slot_action(slot as int) == action);
            assert(y_index * v.width + x_index < cells(v)) by (nonlinear_arith)
                requires
                    x_index < v.width,
                    y_index < v.height,
            ;
        }
        let offset = match action {
            Actions::East | Actions::West => y_index * (world.width as usize) + x_index,
            _ => x_index,
        };
        self.parent_index_starts[slot] + offset
    }

    /// The parent of the taxi's next y under `action`.
    pub fn generate_y_parent_index(&self, world: &World, action: Actions, y_index: usize) -> (i: usize)
        requires
            world.wf(),
            layout_fits(world@),
            forall|k: int| 0 <= k < 24 ==> #[trigger] self.parent_index_starts@[k] == parent_start(world@, k),
            y_index < world.height,
        ensures
            i == parent_start(world@, 4 * (spec_action_index(action) as int) + 1) + y_index,
            y_index < slot_parents(world@, 4 * (spec_action_index(action) as int) + 1),
    {
        let ghost v = world@;
        let slot = action.to_index() * 4 + 1;
        proof {
            lemma_nonneg(v);
            lemma_layout_totals(v);
            lemma_starts_grow(v, slot + 1, 24);
            assert(slot_action(slot as int) == action);
        }
        self.parent_index_starts[slot] + y_index
    }

    /// The parent of the passenger's next digit under `action`.
    pub fn generate_passenger_parent_index(
        &self,
        world: &World,
        action: Actions,
        x_index: usize,
        y_index: usize,
        passenger_index: usize,
        destination_index: usize,
    ) -> (i: usize)
        requires
            world.wf(),
            layout_fits(world@),
            forall|k: int| 0 <= k < 24 ==> #[trigger] self.parent_index_starts@[k] == parent_start(world@, k),
            x_index < world.width,
            y_index < world.height,
            passenger_index <= world@.fixed.len(),
            destination_index < world@.fixed.len(),
        ensures
            i == parent_start(world@, 4 * (spec_action_index(action) as int) + 2) + passenger_offset(
                world@,
                action,
                x_index as int,
                y_index as int,
                passenger_index as int,
                destination_index as int,
            ),
            passenger_offset(world@, action, x_index as int, y_index as int, passenger_index as int, destination_index as int)
                < slot_parents(world@, 4 * (spec_action_index(action) as int) + 2),
    {
        let ghost v = world@;
        let ghost n = v.fixed.len() as int;
        let slot = action.to_index() * 4 + 2;
        let ghost cell = y_index * v.width + x_index;
        proof {
            lemma_nonneg(v);
            lemma_layout_totals(v);
            lemma_starts_grow(v, slot + 1, 24);
            assert(slot_action(slot as int) == action);
            assert(0 <= cell < cells(v)) by (nonlinear_arith)
                requires
                    x_index < v.width,
                    y_index < v.height,
                    cell == y_index * v.width + x_index,
            ;
            assert(cell * (n + 1) + passenger_index < cells(v) * (n + 1)) by (nonlinear_arith)
                requires
                    0 <= cell < cells(v),
                    0 <= passenger_index <= n,
            ;
            assert((cell * n + destination_index) * (n + 1) + passenger_index < cells(v) * n * (n + 1))
                by (nonlinear_arith)
                requires
                    0 <= cell < cells(v),
                    0 <= passenger_index <= n,
                    0 <= destination_index < n,
            ;
            assert(cell <= cell * n + destination_index <= (cell * n + destination_index) * (n + 1)
                && cell <= cell * (n + 1)) by (nonlinear_arith)
                requires
                    0 <= cell,
                    0 <= destination_index < n,
            ;
        }
        let num_destination_states = world.num_fixed_positions();
        let offset = match action {
            Actions::DropOff => {
                let mut result = y_index;
                result = result * (world.width as usize);
                result = result + x_index;
                result = result * num_destination_states;
                result = result + destination_index;
                result = result * (num_destination_states + 1);
                result = result + passenger_index;
                result
            },
            Actions::PickUp => {
                let mut result = y_index;
                result = result * (world.width as usize);
                result = result + x_index;
                result = result * (num_destination_states + 1);
                result = result + passenger_index;
                result
            },
            _ => passenger_index,
        };
        self.parent_index_starts[slot] + offset
    }

    /// The parent of the destination's next index under `action`.
    pub fn generate_destination_parent_index(&self, world: &World, action: Actions, destination_index: usize) -> (i: usize)
        requires
            world.wf(),
            layout_fits(world@),
            forall|k: int| 0 <= k < 24 ==> #[trigger] self.parent_index_starts@[k] == parent_start(world@, k),
            destination_index < world@.fixed.len(),
        ensures
            i == parent_start(world@, 4 * (spec_action_index(action) as int) + 3) + destination_index,
            destination_index < slot_parents(world@, 4 * (spec_action_index(action) as int) + 3),
    {
        let ghost v = world@;
        let slot = action.to_index() * 4 + 3;
        proof {
            lemma_nonneg(v);
            lemma_layout_totals(v);
            lemma_starts_grow(v, slot + 1, 24);
            assert(slot_action(slot as int) == action);
        }
        self.parent_index_starts[slot] + destination_index
    }
}

} // verus!
