use vstd::prelude::*;

use vstd::arithmetic::div_mod::lemma_fundamental_div_mod_converse;

use crate::position::Position;
use crate::state::{names, valid_state, State};
use crate::world::{find_id, lemma_find_id, World, WorldView};

verus! {

/// Numbers every state of a world: the destination is the most significant digit,
/// then the passenger's location (with one more value for a passenger in the taxi),
/// then the taxi's cell.
#[derive(Debug, Clone, Copy)]
pub struct StateIndexer {
    pub num_taxi_states: usize,
    pub num_passenger_states: usize,
    pub num_destination_states: usize,
}

/// The number of cells of the grid.
pub open spec fn taxi_count(v: WorldView) -> int {
    v.width * v.height
}

/// The cell number of a taxi position, counted row by row.
pub open spec fn taxi_index(v: WorldView, taxi: Position) -> int {
    v.width * taxi.y + taxi.x
}

/// The passenger's digit: the index of its location, or the last value when it rides.
pub open spec fn passenger_digit(v: WorldView, s: State) -> Option<int> {
    match s.passenger {
        Some(id) => find_id(v.fixed, id),
        None => Some(v.fixed.len() as int),
    }
}

/// The number of a state, where its destination and passenger are named.
pub open spec fn spec_index(v: WorldView, s: State) -> Option<int> {
    match find_id(v.fixed, s.destination) {
        None => None,
        Some(d) => match passenger_digit(v, s) {
            None => None,
            Some(p) => Some((d * (v.fixed.len() + 1) as int + p) * taxi_count(v) + taxi_index(v, s.taxi)),
        },
    }
}

/// The state a number stands for, where its destination digit names a location.
pub open spec fn spec_state(v: WorldView, i: int) -> Option<State> {
    let t = i % taxi_count(v);
    let p = (i / taxi_count(v)) % (v.fixed.len() + 1) as int;
    let d = (i / taxi_count(v)) / (v.fixed.len() + 1) as int;
    if d < v.fixed.len() {
        Some(
            State {
                taxi: Position { x: (t % v.width) as i32, y: (t / v.width) as i32 },
                passenger: if p < v.fixed.len() {
                    Some(v.fixed[p].id)
                } else {
                    None
                },
                destination: v.fixed[d].id,
            },
        )
    } else {
        None
    }
}

/// The states of `v` can be numbered in `usize`.
pub open spec fn numbering_fits(v: WorldView) -> bool {
    &&& taxi_count(v) <= i32::MAX
    &&& v.fixed.len() < usize::MAX
    &&& taxi_count(v) * (v.fixed.len() + 1) <= usize::MAX
    &&& taxi_count(v) * (v.fixed.len() + 1) * v.fixed.len() <= usize::MAX
}

/// Whether the states of `world` can be numbered in `usize`; the sizes are checked
/// without overflow.
pub fn fits_numbering(world: &World) -> (b: bool)
    requires
        world.wf(),
    ensures
        b == numbering_fits(world@),
{
    let w = world.width as u64;
    let h = world.height as u64;
    proof {
        assert(w * h <= 0xffff_ffff_ffff_ffffu64) by (nonlinear_arith)
            requires
                w <= 0x7fff_ffff,
                h <= 0x7fff_ffff,
        ;
    }
    let cells64 = w * h;
    if cells64 > 0x7fff_ffffu64 {
        return false;
    }
    let num_cells = cells64 as usize;
    let d = world.fixed_positions.len();
    if d == usize::MAX {
        return false;
    }
    match num_cells.checked_mul(d + 1) {
        Some(x) => x.checked_mul(d).is_some(),
        None => false,
    }
}

/// A mixed-radix number is below the product of its radices.
proof fn lemma_digits_bound(d: int, p: int, t: int, dn: int, pn: int, tn: int)
    requires
        0 <= d < dn,
        0 <= p < pn,
        0 <= t < tn,
    ensures
        0 <= (d * pn + p) * tn + t < dn * pn * tn,
{
    assert(0 <= d * pn + p < dn * pn) by (nonlinear_arith)
        requires
            0 <= d < dn,
            0 <= p < pn,
    ;
    assert(0 <= (d * pn + p) * tn + t < dn * pn * tn) by (nonlinear_arith)
        requires
            0 <= d * pn + p < dn * pn,
            0 <= t < tn,
    ;
}

/// The digits of a mixed-radix number are read back by division and remainder.
proof fn lemma_digits_decode(d: int, p: int, t: int, pn: int, tn: int)
    requires
        0 <= d,
        0 <= p < pn,
        0 <= t < tn,
    ensures
        ((d * pn + p) * tn + t) % tn == t,
        ((d * pn + p) * tn + t) / tn == d * pn + p,
        (d * pn + p) % pn == p,
        (d * pn + p) / pn == d,
{
    lemma_fundamental_div_mod_converse((d * pn + p) * tn + t, tn, d * pn + p, t);
    lemma_fundamental_div_mod_converse(d * pn + p, pn, d, p);
}

impl StateIndexer {
    /// The numbering of the states of `world`.
    pub open spec fn indexes(&self, v: WorldView) -> bool {
        &&& self.num_taxi_states == taxi_count(v)
        &&& self.num_destination_states == v.fixed.len()
        &&& self.num_passenger_states == v.fixed.len() + 1
    }

    /// The number of states, as a mathematical integer.
    pub open spec fn spec_num_states(&self) -> int {
        self.num_taxi_states * self.num_passenger_states * self.num_destination_states
    }

    pub fn new(world: &World) -> (r: StateIndexer)
        requires
            world.wf(),
            world.width * world.height <= i32::MAX,
            world@.fixed.len() < usize::MAX,
        ensures
            r.indexes(world@),
    {
        proof {
            assert(0 <= world.width * world.height) by (nonlinear_arith)
                requires
                    0 <= world.width,
                    0 <= world.height,
            ;
        }
        let num_taxi_states = (world.width * world.height) as usize;
        let num_destination_states = world.num_fixed_positions();
        let num_passenger_states = num_destination_states + 1;
        StateIndexer { num_taxi_states, num_passenger_states, num_destination_states }
    }

    pub fn num_states(&self) -> (n: usize)
        requires
            self.num_taxi_states * self.num_passenger_states <= usize::MAX,
            self.spec_num_states() <= usize::MAX,
        ensures
            n == self.spec_num_states(),
    {
        self.num_taxi_states * self.num_passenger_states * self.num_destination_states
    }

    /// The number of `state`, where its destination and passenger are named.
    pub fn get_index(&self, world: &World, state: &State) -> (r: Option<usize>)
        requires
            world.wf(),
            self.indexes(world@),
            self.spec_num_states() <= usize::MAX,
            i32::MIN <= world.width * state.taxi.y <= i32::MAX,
            0 <= taxi_index(world@, state.taxi) < taxi_count(world@),
            taxi_index(world@, state.taxi) <= i32::MAX,
        ensures
            match r {
                Some(i) => spec_index(world@, *state) == Some(i as int),
                None => spec_index(world@, *state) is None,
            },
    {
        let ghost v = world@;
        proof {
            lemma_find_id(v.fixed, state.destination);
            if let Some(id) = state.passenger {
                lemma_find_id(v.fixed, id);
            }
        }
        if let Some(destination_index) = world.get_fixed_index(state.get_destination()) {
            let passenger_index = match state.get_passenger() {
                Some(passenger_id) => world.get_fixed_index(passenger_id),
                None => Some(self.num_passenger_states - 1),
            };
            if let Some(passenger_index) = passenger_index {
                let taxi_pos = state.get_taxi();
                proof {
                    assert(world.width * taxi_pos.y + taxi_pos.x == taxi_index(v, state.taxi));
                }
                let taxi_index = (world.width * taxi_pos.y + taxi_pos.x) as usize;
                proof {
                    lemma_digits_bound(
                        destination_index as int,
                        passenger_index as int,
                        taxi_index as int,
                        self.num_destination_states as int,
                        self.num_passenger_states as int,
                        self.num_taxi_states as int,
                    );
                    assert(self.num_destination_states * self.num_passenger_states * self.num_taxi_states
                        == self.spec_num_states()) by (nonlinear_arith);
                    assert(destination_index * self.num_passenger_states + passenger_index <= (
                    destination_index * self.num_passenger_states + passenger_index)
                        * self.num_taxi_states) by (nonlinear_arith)
                        requires
                            self.num_taxi_states >= 1,
                            passenger_index >= 0,
                            destination_index >= 0,
                            self.num_passenger_states >= 0,
                    ;
                }
                let mut result = destination_index;
                result = result * self.num_passenger_states;
                result = result + passenger_index;
                result = result * self.num_taxi_states;
                result = result + taxi_index;
                return Some(result);
            }
        }
        None
    }

    /// The state numbered `state_index`, where its destination digit names a location.
    pub fn get_state(&self, world: &World, state_index: usize) -> (r: Option<State>)
        requires
            world.wf(),
            self.indexes(world@),
            self.num_taxi_states > 0,
        ensures
            r == spec_state(world@, state_index as int),
    {
        let ghost v = world@;
        let ghost i = state_index as int;
        let taxi_index = state_index % self.num_taxi_states;
        let rest = state_index / self.num_taxi_states;
        let passenger_index = rest % self.num_passenger_states;
        let destination_index = rest / self.num_passenger_states;
        proof {
            assert(world.width > 0 && world.height > 0) by (nonlinear_arith)
                requires
                    world.width * world.height > 0,
                    world.width >= 0,
                    world.height >= 0,
            ;
            assert((taxi_index as int) / (world.width as int) < world.height) by (nonlinear_arith)
                requires
                    0 <= taxi_index < world.width * world.height,
                    world.width > 0,
            ;
        }
        let taxi_x = taxi_index % (world.width as usize);
        let taxi_y = taxi_index / (world.width as usize);
        if let Some(destination) = world.get_fixed_id_from_index(destination_index) {
            let passenger = if passenger_index < world.num_fixed_positions() {
                world.get_fixed_id_from_index(passenger_index)
            } else {
                None
            };
            proof {
                lemma_find_id(v.fixed, destination);
                assert(names(v, destination)) by {
                    if find_id(v.fixed, destination) is None {
                        assert(v.fixed[destination_index as int].id == destination);
                    }
                }
                if let Some(id) = passenger {
                    lemma_find_id(v.fixed, id);
                    if find_id(v.fixed, id) is None {
                        assert(v.fixed[passenger_index as int].id == id);
                    }
                }
            }
            match State::build(world, (taxi_x as i32, taxi_y as i32), passenger, destination) {
                Ok(s) => Some(s),
                Err(_) => None,
            }
        } else {
            None
        }
    }
}

/// Every state of the world has a number, below the number of states.
pub proof fn lemma_index_in_range(indexer: StateIndexer, v: WorldView, s: State)
    requires
        v.valid(),
        indexer.indexes(v),
        valid_state(v, s),
    ensures
        spec_index(v, s) matches Some(i) && 0 <= i < indexer.spec_num_states(),
{
    lemma_find_id(v.fixed, s.destination);
    if let Some(id) = s.passenger {
        lemma_find_id(v.fixed, id);
    }
    let d = find_id(v.fixed, s.destination)->0;
    let p = passenger_digit(v, s)->0;
    let t = taxi_index(v, s.taxi);
    assert(0 <= t < taxi_count(v)) by (nonlinear_arith)
        requires
            0 <= s.taxi.x < v.width,
            0 <= s.taxi.y < v.height,
            t == v.width * s.taxi.y + s.taxi.x,
    ;
    lemma_digits_bound(d, p, t, v.fixed.len() as int, (v.fixed.len() + 1) as int, taxi_count(v));
    assert(v.fixed.len() * (v.fixed.len() + 1) as int * taxi_count(v) == indexer.spec_num_states())
        by (nonlinear_arith)
        requires
            indexer.num_taxi_states == taxi_count(v),
            indexer.num_destination_states == v.fixed.len(),
            indexer.num_passenger_states == v.fixed.len() + 1,
    ;
}

/// Reading back the number of a state gives the state.
pub proof fn lemma_state_of_index(v: WorldView, s: State)
    requires
        v.valid(),
        valid_state(v, s),
    ensures
        spec_index(v, s) matches Some(i) && spec_state(v, i) == Some(s),
{
    lemma_find_id(v.fixed, s.destination);
    if let Some(id) = s.passenger {
        lemma_find_id(v.fixed, id);
    }
    let n = v.fixed.len() as int;
    let d = find_id(v.fixed, s.destination)->0;
    let p = passenger_digit(v, s)->0;
    let t = taxi_index(v, s.taxi);
    let tn = taxi_count(v);
    assert(0 <= t < tn) by (nonlinear_arith)
        requires
            0 <= s.taxi.x < v.width,
            0 <= s.taxi.y < v.height,
            t == v.width * s.taxi.y + s.taxi.x,
            tn == v.width * v.height,
    ;
    lemma_digits_decode(d, p, t, n + 1, tn);
    assert(t == s.taxi.y * v.width + s.taxi.x) by (nonlinear_arith)
        requires
            t == v.width * s.taxi.y + s.taxi.x,
    ;
    lemma_fundamental_div_mod_converse(t, v.width, s.taxi.y as int, s.taxi.x as int);
    let i = (d * (n + 1) + p) * tn + t;
    assert(spec_index(v, s) == Some(i));
    let r = spec_state(v, i)->0;
    assert(r.taxi == s.taxi);
    assert(r.destination == s.destination);
    assert(r.passenger == s.passenger);
}

/// Distinct states of a world have distinct numbers.
pub proof fn lemma_index_injective(v: WorldView, s: State, t: State)
    requires
        v.valid(),
        valid_state(v, s),
        valid_state(v, t),
        spec_index(v, s) == spec_index(v, t),
    ensures
        s == t,
{
    lemma_state_of_index(v, s);
    lemma_state_of_index(v, t);
}

/// In a world whose locations have distinct names, every number below the number of
/// states is the number of the state it stands for.
pub proof fn lemma_index_of_state(indexer: StateIndexer, v: WorldView, i: int)
    requires
        v.valid(),
        indexer.indexes(v),
        indexer.num_taxi_states > 0,
        0 <= i < indexer.spec_num_states(),
        forall|j: int, k: int|
            0 <= j < k < v.fixed.len() ==> #[trigger] v.fixed[j].id != #[trigger] v.fixed[k].id,
    ensures
        spec_state(v, i) matches Some(s) && valid_state(v, s) && spec_index(v, s) == Some(i),
{
    let n = v.fixed.len() as int;
    let tn = taxi_count(v);
    let t = i % tn;
    let p = (i / tn) % (n + 1);
    let d = (i / tn) / (n + 1);
    assert(i < n * (n + 1) * tn) by (nonlinear_arith)
        requires
            i < indexer.spec_num_states(),
            indexer.num_taxi_states == tn,
            indexer.num_destination_states == n,
            indexer.num_passenger_states == n + 1,
    ;
    assert(v.width > 0) by (nonlinear_arith)
        requires
            v.width * v.height > 0,
            v.width >= 0,
            v.height >= 0,
    ;
    assert(0 <= t < tn && 0 <= p < n + 1 && 0 <= d) by (nonlinear_arith)
        requires
            tn > 0,
            n >= 0,
            0 <= i,
            t == i % tn,
            p == (i / tn) % (n + 1),
            d == (i / tn) / (n + 1),
    ;
    assert(d < n) by (nonlinear_arith)
        requires
            0 <= i < n * (n + 1) * tn,
            tn > 0,
            n >= 0,
            d == (i / tn) / (n + 1),
    ;
    assert(i == (d * (n + 1) + p) * tn + t) by (nonlinear_arith)
        requires
            tn > 0,
            n >= 0,
            t == i % tn,
            p == (i / tn) % (n + 1),
            d == (i / tn) / (n + 1),
    ;
    let x = t % v.width;
    let y = t / v.width;
    assert(0 <= x < v.width && 0 <= y < v.height && t == v.width * y + x) by (nonlinear_arith)
        requires
            v.width > 0,
            0 <= t < v.width * v.height,
            x == t % v.width,
            y == t / v.width,
    ;
    let s = spec_state(v, i)->0;
    assert(s.taxi.x == x && s.taxi.y == y);
    lemma_find_id(v.fixed, s.destination);
    assert(find_id(v.fixed, s.destination) == Some(d));
    if p < n {
        lemma_find_id(v.fixed, v.fixed[p].id);
        assert(find_id(v.fixed, v.fixed[p].id) == Some(p));
    }
    assert(valid_state(v, s));
    assert(spec_index(v, s) == Some(i));
}

} // verus!
