use vstd::prelude::*;

use crate::actions::Actions;
use crate::state::{spec_apply, State};
use crate::text::push_char;
use crate::world::{
    distinct_locations, find_id, lemma_find_id, lemma_location_named_at, spec_affect, ActionAffect, World, WorldView,
};

verus! {

/// The value of each term in a state, indexed by the order of `Term`.
#[derive(Debug, Clone, Copy, Eq)]
pub struct Condition(pub [bool; 7]);

impl PartialEq for Condition {
    fn eq(&self, other: &Self) -> (r: bool) {
        let mut j: usize = 0;
        while j < 7
            invariant
                j <= 7,
                forall|i: int| 0 <= i < j ==> self.0@[i] == other.0@[i],
            decreases 7 - j,
        {
            if self.0[j] != other.0[j] {
                return false;
            }
            j = j + 1;
        }
        assert(self.0@ =~= other.0@);
        true
    }
}

impl vstd::std_specs::cmp::PartialEqSpecImpl for Condition {
    open spec fn obeys_eq_spec() -> bool {
        true
    }

    open spec fn eq_spec(&self, other: &Self) -> bool {
        self.0@ == other.0@
    }
}

/// The character of a term's value.
pub open spec fn bit_char(b: bool) -> char {
    if b {
        '1'
    } else {
        '0'
    }
}

/// A condition written as `Condition(nsew pdh)`: the wall terms, then the others.
pub open spec fn condition_text(c: Seq<bool>) -> Seq<char> {
    "Condition("@ + seq![bit_char(c[0]), bit_char(c[1]), bit_char(c[2]), bit_char(c[3]), ' ']
        + seq![bit_char(c[4]), bit_char(c[5]), bit_char(c[6])] + ")"@
}

fn bit(b: bool) -> (c: char)
    ensures
        c == bit_char(b),
{
    if b {
        '1'
    } else {
        '0'
    }
}

impl Condition {
    /// The condition written as `Condition(nsew pdh)`, one digit per term.
    pub fn to_string(&self) -> (s: String)
        ensures
            s@ == condition_text(self.0@),
    {
        let c = &self.0;
        let mut s = String::new();
        s.append("Condition(");
        push_char(&mut s, bit(c[0]));
        push_char(&mut s, bit(c[1]));
        push_char(&mut s, bit(c[2]));
        push_char(&mut s, bit(c[3]));
        push_char(&mut s, ' ');
        push_char(&mut s, bit(c[4]));
        push_char(&mut s, bit(c[5]));
        push_char(&mut s, bit(c[6]));
        s.append(")");
        assert(s@ =~= condition_text(self.0@));
        s
    }
}

/// The taxi stands on the location named `id`.
pub open spec fn taxi_on(v: WorldView, s: State, id: char) -> bool {
    find_id(v.fixed, id) matches Some(k) && v.fixed[k].position == s.taxi
}

/// The terms of a state: the walls around the taxi, whether it stands on the
/// passenger's location and on the destination, and whether the passenger rides.
pub open spec fn spec_condition(v: WorldView, s: State) -> Seq<bool> {
    let w = v.wall_at(s.taxi);
    seq![
        w.north,
        w.south,
        w.east,
        w.west,
        s.passenger matches Some(id) && taxi_on(v, s, id),
        taxi_on(v, s, s.destination),
        s.passenger is None,
    ]
}

/// In a world whose locations have distinct names and cells, the taxi stands on the
/// passenger's location exactly when a pick-up there takes the passenger in.
pub proof fn lemma_on_passenger_iff_pickup(v: WorldView, s: State)
    requires
        distinct_locations(v),
    ensures
        spec_condition(v, s)[4] <==> (s.passenger is Some && spec_apply(s, v, Actions::PickUp).passenger is None),
{
    if let Some(id) = s.passenger {
        lemma_location_named_at(v, id, s.taxi);
    }
}

/// The other terms against what the actions do: a wall term holds exactly when that
/// move is blocked, wherever the edge of the grid does not already block it; in a
/// world whose locations have distinct names and cells, the destination term holds
/// exactly when a drop-off would act at the destination; the last term holds exactly
/// when the passenger rides.
pub proof fn lemma_condition_terms(v: WorldView, s: State)
    ensures
        s.taxi.y > 0 ==> (spec_condition(v, s)[0] <==> spec_affect(v, s.taxi, Actions::North) is Invalid),
        s.taxi.y < v.height - 1 ==> (spec_condition(v, s)[1] <==> spec_affect(v, s.taxi, Actions::South) is Invalid),
        s.taxi.x < v.width - 1 ==> (spec_condition(v, s)[2] <==> spec_affect(v, s.taxi, Actions::East) is Invalid),
        s.taxi.x > 0 ==> (spec_condition(v, s)[3] <==> spec_affect(v, s.taxi, Actions::West) is Invalid),
        distinct_locations(v) ==> (spec_condition(v, s)[5] <==> spec_affect(v, s.taxi, Actions::DropOff)
            == ActionAffect::DropOff(s.destination)),
        spec_condition(v, s)[6] <==> s.passenger is None,
{
    if distinct_locations(v) {
        lemma_location_named_at(v, s.destination, s.taxi);
    }
}

/// Bit `j` of `k`: the value of term `j` in the `k`-th enumerated condition.
pub open spec fn enumerated_bit(k: u8, j: u8) -> bool {
    (k >> j) & 1u8 == 1u8
}

/// The `k`-th enumerated condition: term `j` is bit `j` of `k`.
pub open spec fn enumerated(k: int) -> Seq<bool> {
    Seq::new(7, |j: int| enumerated_bit(k as u8, j as u8))
}

impl Condition {
    /// The terms of `state` in `world`.
    pub fn new(world: &World, state: &State) -> (c: Condition)
        requires
            world.wf(),
            world@.in_bounds(state.taxi),
        ensures
            c.0@ == spec_condition(world@, *state),
    {
        let taxi_pos = state.get_taxi();
        let walls = world.get_wall(taxi_pos);
        let on_passenger = if let Some(passenger_id) = state.get_passenger() {
            if let Some(passenger_pos) = world.get_fixed_position(passenger_id) {
                *passenger_pos == *taxi_pos
            } else {
                false
            }
        } else {
            false
        };
        let on_destination = if let Some(destination_pos) = world.get_fixed_position(state.get_destination()) {
            *destination_pos == *taxi_pos
        } else {
            false
        };
        let c = Condition(
            [
                walls.north,
                walls.south,
                walls.east,
                walls.west,
                on_passenger,
                on_destination,
                state.get_passenger().is_none(),
            ],
        );
        assert(c.0@ =~= spec_condition(world@, *state));
        c
    }

    /// Every condition, each once: the `k`-th has term `j` set when bit `j` of `k` is.
    pub fn enumerate_all() -> (all: Vec<Condition>)
        ensures
            all.len() == 128,
            forall|k: int| 0 <= k < 128 ==> #[trigger] all[k].0@ == enumerated(k),
    {
        let mut result: Vec<Condition> = Vec::new();
        let mut k: u8 = 0;
        while k < 128
            invariant
                k <= 128,
                result.len() == k,
                forall|i: int| 0 <= i < k ==> #[trigger] result[i].0@ == enumerated(i),
            decreases 128 - k,
        {
            let c = Condition(
                [
                    (k >> 0u8) & 1 == 1,
                    (k >> 1u8) & 1 == 1,
                    (k >> 2u8) & 1 == 1,
                    (k >> 3u8) & 1 == 1,
                    (k >> 4u8) & 1 == 1,
                    (k >> 5u8) & 1 == 1,
                    (k >> 6u8) & 1 == 1,
                ],
            );
            assert(c.0@ =~= enumerated(k as int));
            result.push(c);
            k = k + 1;
        }
        result
    }
}

/// Distinct numbers below 128 enumerate distinct conditions.
pub proof fn lemma_enumerated_distinct(i: int, j: int)
    requires
        0 <= i < j < 128,
    ensures
        enumerated(i) != enumerated(j),
{
    let a = i as u8;
    let b = j as u8;
    assert(a != b);
    assert(a < 128u8 && b < 128u8 && a != b ==> ((a >> 0u8) & 1u8 != (b >> 0u8) & 1u8 || (a >> 1u8)
        & 1u8 != (b >> 1u8) & 1u8 || (a >> 2u8) & 1u8 != (b >> 2u8) & 1u8 || (a >> 3u8) & 1u8 != (b
        >> 3u8) & 1u8 || (a >> 4u8) & 1u8 != (b >> 4u8) & 1u8 || (a >> 5u8) & 1u8 != (b >> 5u8) & 1u8
        || (a >> 6u8) & 1u8 != (b >> 6u8) & 1u8)) by (bit_vector);
    assert(a >> 0u8 & 1u8 == 0u8 || a >> 0u8 & 1u8 == 1u8) by (bit_vector);
    assert(b >> 0u8 & 1u8 == 0u8 || b >> 0u8 & 1u8 == 1u8) by (bit_vector);
    assert(a >> 1u8 & 1u8 == 0u8 || a >> 1u8 & 1u8 == 1u8) by (bit_vector);
    assert(b >> 1u8 & 1u8 == 0u8 || b >> 1u8 & 1u8 == 1u8) by (bit_vector);
    assert(a >> 2u8 & 1u8 == 0u8 || a >> 2u8 & 1u8 == 1u8) by (bit_vector);
    assert(b >> 2u8 & 1u8 == 0u8 || b >> 2u8 & 1u8 == 1u8) by (bit_vector);
    assert(a >> 3u8 & 1u8 == 0u8 || a >> 3u8 & 1u8 == 1u8) by (bit_vector);
    assert(b >> 3u8 & 1u8 == 0u8 || b >> 3u8 & 1u8 == 1u8) by (bit_vector);
    assert(a >> 4u8 & 1u8 == 0u8 || a >> 4u8 & 1u8 == 1u8) by (bit_vector);
    assert(b >> 4u8 & 1u8 == 0u8 || b >> 4u8 & 1u8 == 1u8) by (bit_vector);
    assert(a >> 5u8 & 1u8 == 0u8 || a >> 5u8 & 1u8 == 1u8) by (bit_vector);
    assert(b >> 5u8 & 1u8 == 0u8 || b >> 5u8 & 1u8 == 1u8) by (bit_vector);
    assert(a >> 6u8 & 1u8 == 0u8 || a >> 6u8 & 1u8 == 1u8) by (bit_vector);
    assert(b >> 6u8 & 1u8 == 0u8 || b >> 6u8 & 1u8 == 1u8) by (bit_vector);
    if enumerated(i) == enumerated(j) {
        assert(enumerated(i)[0] == enumerated(j)[0]);
        assert(enumerated(i)[1] == enumerated(j)[1]);
        assert(enumerated(i)[2] == enumerated(j)[2]);
        assert(enumerated(i)[3] == enumerated(j)[3]);
        assert(enumerated(i)[4] == enumerated(j)[4]);
        assert(enumerated(i)[5] == enumerated(j)[5]);
        assert(enumerated(i)[6] == enumerated(j)[6]);
    }
}

/// The enumeration holds every condition: a condition is the enumerated condition
/// whose bits are its terms.
pub proof fn lemma_enumerated_complete(c: Seq<bool>)
    requires
        c.len() == 7,
    ensures
        exists|k: int| 0 <= k < 128 && #[trigger] enumerated(k) == c,
{
    let k: int = (if c[0] { 1int } else { 0 }) + (if c[1] { 2int } else { 0 }) + (if c[2] { 4int } else { 0 })
        + (if c[3] { 8int } else { 0 }) + (if c[4] { 16int } else { 0 }) + (if c[5] { 32int } else { 0 })
        + (if c[6] { 64int } else { 0 });
    let b0: u8 = if c[0] { 1 } else { 0 };
    let b1: u8 = if c[1] { 1 } else { 0 };
    let b2: u8 = if c[2] { 1 } else { 0 };
    let b3: u8 = if c[3] { 1 } else { 0 };
    let b4: u8 = if c[4] { 1 } else { 0 };
    let b5: u8 = if c[5] { 1 } else { 0 };
    let b6: u8 = if c[6] { 1 } else { 0 };
    let a: u8 = (b0 + 2 * b1 + 4 * b2 + 8 * b3 + 16 * b4 + 32 * b5 + 64 * b6) as u8;
    assert(a == k);
    assert(b0 <= 1 && b1 <= 1 && b2 <= 1 && b3 <= 1 && b4 <= 1 && b5 <= 1 && b6 <= 1 && a == (b0 + 2
        * b1 + 4 * b2 + 8 * b3 + 16 * b4 + 32 * b5 + 64 * b6) as u8 ==> (a >> 0u8) & 1u8 == b0 && (a
        >> 1u8) & 1u8 == b1 && (a >> 2u8) & 1u8 == b2 && (a >> 3u8) & 1u8 == b3 && (a >> 4u8) & 1u8
        == b4 && (a >> 5u8) & 1u8 == b5 && (a >> 6u8) & 1u8 == b6) by (bit_vector);
    assert(enumerated(k) =~= c);
}

} // verus!
