use vstd::prelude::*;

use vstd::arithmetic::div_mod::lemma_fundamental_div_mod_converse;

use crate::actions::Actions;
use crate::position::Position;
use crate::random::{gen_coordinate, gen_index, Pcg};
use crate::text::{
    decimal, decimal_chars, join_lines, push_char, push_chars, push_signed_decimal, signed_decimal,
};
use crate::world::{
    affect_defined, display_lines, find_at, find_id, lemma_find_at, lemma_find_id,
    spec_affect, ActionAffect, World, WorldView,
};

verus! {

/// Where the taxi is, where the passenger is, and where the passenger wants to go.
/// `passenger` is the name of the location where the passenger waits, or `None` while
/// the passenger rides in the taxi.
#[derive(Debug, Clone, Copy, PartialEq, Eq, Structural)]
pub struct State {
    pub taxi: Position,
    pub passenger: Option<char>,
    pub destination: char,
}

/// Why a state could not be built.
#[derive(Debug)]
pub enum Error {
    InvalidTaxi { taxi_pos: (i32, i32), world_dims: (i32, i32) },
    InvalidDestination { id: char, world: String },
    InvalidPassenger { id: char, world: String },
    TooFewFixedPositions { num_fixed_positions: usize, world: String },
}

/// The explanation of a refused state; it ends with the world's drawing where it
/// names a location.
pub open spec fn state_error_text(e: &Error) -> Seq<char> {
    match e {
        Error::InvalidTaxi { taxi_pos, world_dims } => "Taxi position ("@ + signed_decimal(taxi_pos.0 as int) + ","@
            + signed_decimal(taxi_pos.1 as int) + ") is invalid, world (width, height) is ("@ + signed_decimal(
            world_dims.0 as int,
        ) + ","@ + signed_decimal(world_dims.1 as int) + ")."@,
        Error::InvalidDestination { id, world } => "Failed to find destination location '"@ + seq![*id]
            + "' in world:\n"@ + world@,
        Error::InvalidPassenger { id, world } => "Failed to find passenger location '"@ + seq![*id]
            + "' in world:\n"@ + world@,
        Error::TooFewFixedPositions { num_fixed_positions, world } =>
            "World does not have enough fixed positions. Need at least 2, but only have "@ + decimal(
            *num_fixed_positions as nat,
        ) + " in world:\n"@ + world@,
    }
}

impl Error {
    /// The explanation of the error.
    pub fn to_string(&self) -> (s: String)
        ensures
            s@ == state_error_text(self),
    {
        let mut s = String::new();
        match self {
            Error::InvalidTaxi { taxi_pos, world_dims } => {
                s.append("Taxi position (");
                push_signed_decimal(&mut s, taxi_pos.0);
                s.append(",");
                push_signed_decimal(&mut s, taxi_pos.1);
                s.append(") is invalid, world (width, height) is (");
                push_signed_decimal(&mut s, world_dims.0);
                s.append(",");
                push_signed_decimal(&mut s, world_dims.1);
                s.append(").");
            },
            Error::InvalidDestination { id, world } => {
                s.append("Failed to find destination location '");
                push_char(&mut s, *id);
                s.append("' in world:\n");
                s.append(world.as_str());
            },
            Error::InvalidPassenger { id, world } => {
                s.append("Failed to find passenger location '");
                push_char(&mut s, *id);
                s.append("' in world:\n");
                s.append(world.as_str());
            },
            Error::TooFewFixedPositions { num_fixed_positions, world } => {
                s.append("World does not have enough fixed positions. Need at least 2, but only have ");
                push_chars(&mut s, decimal_chars(*num_fixed_positions).as_slice());
                s.append(" in world:\n");
                s.append(world.as_str());
            },
        }
        assert(s@ =~= state_error_text(self));
        s
    }
}

/// The position `(x, y)` lies on the grid.
pub open spec fn taxi_in_world(v: WorldView, taxi_pos: (i32, i32)) -> bool {
    0 <= taxi_pos.0 < v.width && 0 <= taxi_pos.1 < v.height
}

/// The world names a location `id`.
pub open spec fn names(v: WorldView, id: char) -> bool {
    find_id(v.fixed, id) is Some
}

/// A state of the world: the taxi on the grid, and the passenger and the destination
/// at named locations.
pub open spec fn valid_state(v: WorldView, s: State) -> bool {
    &&& v.in_bounds(s.taxi)
    &&& names(v, s.destination)
    &&& (s.passenger matches Some(id) ==> names(v, id))
}

/// The state `State::build` makes of its arguments, when it accepts them.
pub open spec fn spec_build(v: WorldView, taxi_pos: (i32, i32), passenger: Option<char>, destination: char) -> Option<State> {
    if taxi_in_world(v, taxi_pos) && names(v, destination) && (passenger matches Some(id) ==> names(v, id)) {
        Some(State { taxi: Position { x: taxi_pos.0, y: taxi_pos.1 }, passenger, destination })
    } else {
        None
    }
}

/// The error `State::build` gives for arguments that are not a state of `world`: a
/// taxi off the grid first, then an unknown destination, then an unknown passenger
/// location; the last two carry the world's drawing.
pub open spec fn refused_with(
    world: &World,
    taxi_pos: (i32, i32),
    passenger_id: Option<char>,
    destination_id: char,
    e: &Error,
) -> bool {
    match e {
        Error::InvalidTaxi { taxi_pos: t, world_dims } => {
            &&& !taxi_in_world(world@, taxi_pos)
            &&& *t == taxi_pos
            &&& *world_dims == (world.width, world.height)
        },
        Error::InvalidDestination { id, world: text } => {
            &&& taxi_in_world(world@, taxi_pos)
            &&& !names(world@, destination_id)
            &&& *id == destination_id
            &&& text@ == world_text(world@)
        },
        Error::InvalidPassenger { id, world: text } => {
            &&& taxi_in_world(world@, taxi_pos)
            &&& names(world@, destination_id)
            &&& passenger_id == Some(*id)
            &&& !names(world@, *id)
            &&& text@ == world_text(world@)
        },
        Error::TooFewFixedPositions { .. } => false,
    }
}

/// The state drawn with the taxi at `(x, y)`, the passenger at location `p` and the
/// destination `offset` locations further on, counting round the list of locations.
pub open spec fn spec_state_from_draws(v: WorldView, x: i32, y: i32, p: int, offset: int) -> State {
    State {
        taxi: Position { x, y },
        passenger: Some(v.fixed[p].id),
        destination: v.fixed[(p + offset) % (v.fixed.len() as int)].id,
    }
}

/// A number below twice `n` wraps round `n` at most once.
proof fn lemma_mod_wrap(a: int, n: int)
    requires
        0 < n,
        0 <= a < 2 * n,
    ensures
        a % n == if a < n {
            a
        } else {
            a - n
        },
{
    if a < n {
        lemma_fundamental_div_mod_converse(a, n, 0, a);
    } else {
        lemma_fundamental_div_mod_converse(a, n, 1, a - n);
    }
}

/// The drawing of the world as one text.
pub open spec fn world_text(v: WorldView) -> Seq<char> {
    join_lines(display_lines(v))
}

/// The character shown for the cell at `position` whose drawn content is `id`.
pub open spec fn spec_cell(s: State, id: char, position: Position) -> char {
    if id == s.destination {
        if s.passenger == Some(s.destination) {
            'D'
        } else {
            'd'
        }
    } else {
        match s.passenger {
            Some(passenger_id) => if passenger_id == id {
                'p'
            } else if s.taxi == position {
                't'
            } else {
                '.'
            },
            None => if s.taxi == position {
                'T'
            } else {
                '.'
            },
        }
    }
}

/// Line `k` of the world's drawing with the state drawn into it: on the lines that
/// draw cells, each cell's content is replaced by what the state shows there.
pub open spec fn state_line(s: State, line: Seq<char>, k: int) -> Seq<char> {
    if k % 2 == 1 {
        Seq::new(
            line.len(),
            |i: int|
                if i % 2 == 1 {
                    spec_cell(s, line[i], Position { x: (i / 2) as i32, y: (k / 2) as i32 })
                } else {
                    line[i]
                },
        )
    } else {
        line
    }
}

/// The drawing of a state in a world.
pub open spec fn state_text(s: State, v: WorldView) -> Seq<char> {
    let lines = display_lines(v);
    join_lines(Seq::new(lines.len(), |k: int| state_line(s, lines[k], k)))
}

/// The state after `action`: the taxi moves where the world lets it; at a named
/// location a pick-up takes in a passenger waiting there and a drop-off lets a riding
/// passenger out; anything else changes nothing.
pub open spec fn spec_apply(s: State, v: WorldView, action: Actions) -> State {
    match spec_affect(v, s.taxi, action) {
        ActionAffect::Invalid => s,
        ActionAffect::Move(delta) => State {
            taxi: Position { x: (s.taxi.x + delta.x) as i32, y: (s.taxi.y + delta.y) as i32 },
            ..s
        },
        ActionAffect::PickUp(id) => if s.passenger == Some(id) {
            State { passenger: None, ..s }
        } else {
            s
        },
        ActionAffect::DropOff(id) => if s.passenger is None {
            State { passenger: Some(id), ..s }
        } else {
            s
        },
    }
}

/// Which cost an action incurs: every move costs the same; a pick-up is free where it
/// takes the passenger in and missed otherwise; a drop-off is empty while the
/// passenger is not in the taxi, free where it lets the passenger out at the
/// destination, and missed otherwise.
#[derive(Debug, Clone, Copy, PartialEq, Eq, Structural)]
pub enum CostKind {
    Movement,
    MissPickup,
    MissDropoff,
    EmptyDropoff,
    Free,
}

pub open spec fn spec_cost_kind(s: State, v: WorldView, action: Actions) -> CostKind {
    match action {
        Actions::PickUp => match spec_affect(v, s.taxi, action) {
            ActionAffect::PickUp(id) => if s.passenger == Some(id) {
                CostKind::Free
            } else {
                CostKind::MissPickup
            },
            _ => CostKind::MissPickup,
        },
        Actions::DropOff => if s.passenger is Some {
            CostKind::EmptyDropoff
        } else {
            match spec_affect(v, s.taxi, action) {
                ActionAffect::DropOff(id) => if id == s.destination {
                    CostKind::Free
                } else {
                    CostKind::MissDropoff
                },
                _ => CostKind::MissDropoff,
            }
        },
        _ => CostKind::Movement,
    }
}

/// The passenger has been let out at the destination.
pub open spec fn spec_at_destination(s: State) -> bool {
    s.passenger == Some(s.destination)
}

impl State {
    /// Builds the state with the taxi at `taxi_pos`, the passenger waiting at the
    /// location `passenger_id` (or riding, for `None`) and going to `destination_id`.
    /// A taxi off the grid is refused first, then an unknown destination, then an
    /// unknown passenger location.
    pub fn build(
        world: &World,
        taxi_pos: (i32, i32),
        passenger_id: Option<char>,
        destination_id: char,
    ) -> (r: Result<State, Error>)
        requires
            world.wf(),
        ensures
            match r {
                Ok(s) => {
                    &&& taxi_in_world(world@, taxi_pos)
                    &&& names(world@, destination_id)
                    &&& (passenger_id matches Some(id) ==> names(world@, id))
                    &&& s == State {
                        taxi: Position { x: taxi_pos.0, y: taxi_pos.1 },
                        passenger: passenger_id,
                        destination: destination_id,
                    }
                },
                Err(e) => refused_with(world, taxi_pos, passenger_id, destination_id, &e),
            },
            match r {
                Ok(s) => spec_build(world@, taxi_pos, passenger_id, destination_id) == Some(s),
                Err(_) => spec_build(world@, taxi_pos, passenger_id, destination_id) is None,
            },
    {
        if taxi_pos.0 < 0 || taxi_pos.0 >= world.width || taxi_pos.1 < 0 || taxi_pos.1 >= world.height {
            Err(Error::InvalidTaxi { taxi_pos, world_dims: (world.width, world.height) })
        } else if world.get_fixed_position(destination_id).is_none() {
            Err(Error::InvalidDestination { id: destination_id, world: world.display() })
        } else {
            match passenger_id {
                Some(id) => {
                    if world.get_fixed_position(id).is_none() {
                        return Err(Error::InvalidPassenger { id, world: world.display() });
                    }
                },
                None => {},
            }
            Ok(
                State {
                    taxi: Position::new(taxi_pos.0, taxi_pos.1),
                    passenger: passenger_id,
                    destination: destination_id,
                },
            )
        }
    }

    /// Draws a state at random: the taxi anywhere on the grid, the passenger at one
    /// named location and the destination at another. A world with fewer than two
    /// named locations is refused.
    pub fn build_random(world: &World, rng: &mut Pcg) -> (r: Result<State, Error>)
        requires
            world.wf(),
            world.width > 0,
            world.height > 0,
        ensures
            match r {
                Ok(s) => {
                    &&& world@.fixed.len() >= 2
                    &&& exists|x: i32, y: i32, p: int, offset: int|
                        0 <= x < world.width && 0 <= y < world.height && 0 <= p < world@.fixed.len() && 1
                            <= offset < world@.fixed.len() && s == #[trigger] spec_state_from_draws(
                            world@,
                            x,
                            y,
                            p,
                            offset,
                        )
                    &&& world@.in_bounds(s.taxi)
                    &&& exists|p: int, d: int|
                        0 <= p < world@.fixed.len() && 0 <= d < world@.fixed.len() && p != d
                            && s.passenger == Some(#[trigger] world@.fixed[p].id) && s.destination
                            == #[trigger] world@.fixed[d].id
                },
                Err(Error::TooFewFixedPositions { num_fixed_positions, world: text }) => {
                    &&& world@.fixed.len() < 2
                    &&& num_fixed_positions == world@.fixed.len()
                    &&& text@ == world_text(world@)
                },
                Err(_) => false,
            },
    {
        let taxi_x = gen_coordinate(rng, 0, world.width);
        let taxi_y = gen_coordinate(rng, 0, world.height);
        let num_fixed_positions = world.fixed_positions.len();
        if num_fixed_positions < 2 {
            return Err(Error::TooFewFixedPositions { num_fixed_positions, world: world.display() });
        }
        let passenger_fp_index = gen_index(rng, 0, num_fixed_positions);
        let offset = gen_index(rng, 1, num_fixed_positions);
        let s = State::state_from_draws(world, taxi_x, taxi_y, passenger_fp_index, offset);
        proof {
            let n = num_fixed_positions as int;
            let d = (passenger_fp_index + offset) % n;
            assert(s == spec_state_from_draws(world@, taxi_x, taxi_y, passenger_fp_index as int, offset as int));
            lemma_mod_wrap(passenger_fp_index + offset, n);
            assert(s.passenger == Some(world@.fixed[passenger_fp_index as int].id));
            assert(s.destination == world@.fixed[d].id);
        }
        Ok(s)
    }

    /// The state that the draws give: the taxi at `(x, y)`, the passenger at location
    /// `p`, and the destination `offset` locations after it, counting round the list.
    pub fn state_from_draws(world: &World, x: i32, y: i32, p: usize, offset: usize) -> (s: State)
        requires
            world.wf(),
            0 <= x < world.width,
            0 <= y < world.height,
            p < world@.fixed.len(),
            1 <= offset < world@.fixed.len(),
        ensures
            s == spec_state_from_draws(world@, x, y, p as int, offset as int),
    {
        let n = world.fixed_positions.len();
        let d = if offset < n - p {
            p + offset
        } else {
            offset - (n - p)
        };
        proof {
            let ni = n as int;
            lemma_mod_wrap(p + offset, ni);
        }
        State {
            taxi: Position::new(x, y),
            passenger: Some(world.fixed_positions[p].id),
            destination: world.fixed_positions[d].id,
        }
    }

    /// The character shown for a cell whose drawn content is `id`.
    pub fn calc_character(&self, id: char, position: &Position) -> (c: char)
        ensures
            c == spec_cell(*self, id, *position),
    {
        if id == self.destination {
            match self.passenger {
                Some(passenger_id) if passenger_id == self.destination => 'D',
                _ => 'd',
            }
        } else {
            match self.passenger {
                Some(passenger_id) => {
                    if passenger_id == id {
                        'p'
                    } else if self.taxi == *position {
                        't'
                    } else {
                        '.'
                    }
                },
                None => {
                    if self.taxi == *position {
                        'T'
                    } else {
                        '.'
                    }
                },
            }
        }
    }

    /// The world drawn with the taxi, the passenger and the destination in it.
    pub fn display(&self, world: &World) -> (text: String)
        requires
            world.wf(),
        ensures
            text@ == state_text(*self, world@),
    {
        let lines = world.display_chars();
        let ghost ls = display_lines(world@);
        let ghost shown = Seq::new(ls.len(), |k: int| state_line(*self, ls[k], k));
        let mut result = String::new();
        let mut y: i32 = 0;
        let mut k: usize = 0;
        proof {
            crate::world::lemma_display_lines_len(world@);
        }
        while k < lines.len()
            invariant
                k <= lines.len(),
                lines.len() == ls.len(),
                ls.len() <= 2 * i32::MAX + 1,
                forall|j: int| 0 <= j < ls.len() ==> #[trigger] ls[j].len() <= 2 * i32::MAX + 1,
                forall|j: int| 0 <= j < lines.len() ==> #[trigger] lines[j]@ == ls[j],
                shown == Seq::new(ls.len(), |j: int| state_line(*self, ls[j], j)),
                y == k / 2,
                result@ == join_lines(shown.take(k as int)),
            decreases lines.len() - k,
        {
            let line = &lines[k];
            if k % 2 == 1 {
                let mut x: i32 = 0;
                let mut i: usize = 0;
                let ghost before = result@;
                while i < line.len()
                    invariant
                        i <= line.len(),
                        line@ == ls[k as int],
                        line.len() <= 2 * i32::MAX + 1,
                        k % 2 == 1,
                        y == k / 2,
                        x as int == i as int / 2,
                        result@ == before + state_line(*self, ls[k as int], k as int).take(i as int),
                    decreases line.len() - i,
                {
                    let c = line[i];
                    if i % 2 == 1 {
                        let shown_char = self.calc_character(c, &Position::new(x, y));
                        push_char(&mut result, shown_char);
                        x = x + 1;
                    } else {
                        push_char(&mut result, c);
                    }
                    proof {
                        let t = state_line(*self, ls[k as int], k as int);
                        assert(t.take(i + 1) =~= t.take(i as int).push(t[i as int]));
                    }
                    i = i + 1;
                }
                proof {
                    let t = state_line(*self, ls[k as int], k as int);
                    assert(t.take(line.len() as int) =~= t);
                }
                y = y + 1;
            } else {
                crate::text::push_chars(&mut result, line.as_slice());
            }
            push_char(&mut result, '\n');
            proof {
                assert(shown.take(k + 1).drop_last() =~= shown.take(k as int));
            }
            k = k + 1;
        }
        proof {
            assert(shown.take(lines.len() as int) =~= shown);
        }
        result
    }

    /// The state after `action`.
    pub fn apply_action(&self, world: &World, action: Actions) -> (s: State)
        requires
            world.wf(),
            affect_defined(world@, self.taxi, action),
        ensures
            s == spec_apply(*self, world@, action),
    {
        match world.determine_affect(&self.taxi, action) {
            ActionAffect::Invalid => *self,
            ActionAffect::Move(delta) => State { taxi: self.taxi + delta, ..*self },
            ActionAffect::PickUp(id) => {
                if self.passenger == Some(id) {
                    State { passenger: None, ..*self }
                } else {
                    *self
                }
            },
            ActionAffect::DropOff(id) => {
                if self.passenger.is_none() {
                    State { passenger: Some(id), ..*self }
                } else {
                    *self
                }
            },
        }
    }

    /// The cost `action` incurs in this state.
    pub fn cost_kind(&self, world: &World, action: Actions) -> (k: CostKind)
        requires
            world.wf(),
        ensures
            k == spec_cost_kind(*self, world@, action),
    {
        match action {
            Actions::PickUp => match world.determine_affect(&self.taxi, action) {
                ActionAffect::PickUp(id) => {
                    if self.passenger == Some(id) {
                        CostKind::Free
                    } else {
                        CostKind::MissPickup
                    }
                },
                _ => CostKind::MissPickup,
            },
            Actions::DropOff => {
                if self.passenger.is_some() {
                    CostKind::EmptyDropoff
                } else {
                    match world.determine_affect(&self.taxi, action) {
                        ActionAffect::DropOff(id) => {
                            if id == self.destination {
                                CostKind::Free
                            } else {
                                CostKind::MissDropoff
                            }
                        },
                        _ => CostKind::MissDropoff,
                    }
                }
            },
            _ => CostKind::Movement,
        }
    }

    /// Whether the passenger has been let out at the destination.
    pub fn at_destination(&self) -> (b: bool)
        ensures
            b == spec_at_destination(*self),
    {
        if let Some(passenger_id) = self.passenger {
            passenger_id == self.destination
        } else {
            false
        }
    }

    pub fn get_taxi(&self) -> (p: &Position)
        ensures
            *p == self.taxi,
    {
        &self.taxi
    }

    pub fn get_passenger(&self) -> (p: Option<char>)
        ensures
            p == self.passenger,
    {
        self.passenger
    }

    pub fn get_destination(&self) -> (d: char)
        ensures
            d == self.destination,
    {
        self.destination
    }
}

/// From a state of the world every action can be taken, and it leads to a state of
/// the world: the taxi stays on the grid and the passenger stays at a named location
/// or in the taxi.
pub proof fn lemma_apply_keeps_valid(v: WorldView, s: State, action: Actions)
    requires
        v.valid(),
        valid_state(v, s),
    ensures
        affect_defined(v, s.taxi, action),
        valid_state(v, spec_apply(s, v, action)),
{
    lemma_find_at(v.fixed, s.taxi);
    if let Some(k) = find_at(v.fixed, s.taxi) {
        let id = v.fixed[k].id;
        lemma_find_id(v.fixed, id);
        assert(names(v, id)) by {
            if find_id(v.fixed, id) is None {
                assert(v.fixed[k].id == id);
            }
        }
    }
}

/// An action that has no effect in the world leaves the state as it was.
pub proof fn lemma_invalid_action_changes_nothing(v: WorldView, s: State, action: Actions)
    requires
        spec_affect(v, s.taxi, action) == ActionAffect::Invalid,
    ensures
        spec_apply(s, v, action) == s,
{
}

/// Letting the passenger out at its destination reaches the goal: a riding passenger
/// dropped off where the destination is named first is at its destination.
pub proof fn lemma_drop_off_at_destination(v: WorldView, s: State)
    requires
        s.passenger is None,
        find_at(v.fixed, s.taxi) matches Some(k) && v.fixed[k].id == s.destination,
    ensures
        spec_at_destination(spec_apply(s, v, Actions::DropOff)),
{
}

/// A free drop-off is exactly one that delivers the passenger, and a free pick-up one
/// that takes the passenger in.
pub proof fn lemma_free_means_progress(v: WorldView, s: State, action: Actions)
    ensures
        action == Actions::DropOff ==> (spec_cost_kind(s, v, action) == CostKind::Free <==> (
        s.passenger is None && spec_at_destination(spec_apply(s, v, action)))),
        action == Actions::PickUp ==> (spec_cost_kind(s, v, action) == CostKind::Free <==> (
        s.passenger is Some && spec_apply(s, v, action).passenger is None)),
{
}


/// Neighbouring cells agree on the wall between them: so do those of every world read
/// from text.
pub open spec fn walls_agree(v: WorldView) -> bool {
    &&& forall|x: int, y: int|
        0 <= x && x + 1 < v.width && 0 <= y < v.height ==> (#[trigger] v.walls[y][x]).east == v.walls[y][x + 1].west
    &&& forall|x: int, y: int|
        0 <= x < v.width && 0 <= y && y + 1 < v.height ==> (#[trigger] v.walls[y][x]).south == v.walls[y + 1][x].north
}

/// A move goes one cell in its direction or nowhere, and changes nothing but the taxi;
/// in a world whose neighbouring cells agree on their walls, the opposite move then
/// leads back.
pub proof fn lemma_moves_undo(v: WorldView, s: State)
    requires
        v.valid(),
        walls_agree(v),
        valid_state(v, s),
    ensures
        ({
            let n = spec_apply(s, v, Actions::North);
            &&& n.passenger == s.passenger && n.destination == s.destination && n.taxi.x == s.taxi.x
            &&& n.taxi.y == s.taxi.y || n.taxi.y == s.taxi.y - 1
            &&& n != s ==> spec_apply(n, v, Actions::South) == s
        }),
        ({
            let n = spec_apply(s, v, Actions::South);
            &&& n.passenger == s.passenger && n.destination == s.destination && n.taxi.x == s.taxi.x
            &&& n.taxi.y == s.taxi.y || n.taxi.y == s.taxi.y + 1
            &&& n != s ==> spec_apply(n, v, Actions::North) == s
        }),
        ({
            let n = spec_apply(s, v, Actions::East);
            &&& n.passenger == s.passenger && n.destination == s.destination && n.taxi.y == s.taxi.y
            &&& n.taxi.x == s.taxi.x || n.taxi.x == s.taxi.x + 1
            &&& n != s ==> spec_apply(n, v, Actions::West) == s
        }),
        ({
            let n = spec_apply(s, v, Actions::West);
            &&& n.passenger == s.passenger && n.destination == s.destination && n.taxi.y == s.taxi.y
            &&& n.taxi.x == s.taxi.x || n.taxi.x == s.taxi.x - 1
            &&& n != s ==> spec_apply(n, v, Actions::East) == s
        }),
{
    let p = s.taxi;
    assert(v.walls[p.y as int][p.x as int] == v.wall_at(p));
    if p.y > 0 {
        assert(v.walls[p.y - 1][p.x as int].south == v.walls[(p.y - 1) + 1][p.x as int].north);
    }
    if p.y + 1 < v.height {
        assert(v.walls[p.y as int][p.x as int].south == v.walls[p.y + 1][p.x as int].north);
    }
    if p.x > 0 {
        assert(v.walls[p.y as int][p.x - 1].east == v.walls[p.y as int][(p.x - 1) + 1].west);
    }
    if p.x + 1 < v.width {
        assert(v.walls[p.y as int][p.x as int].east == v.walls[p.y as int][p.x + 1].west);
    }
}

} // verus!
