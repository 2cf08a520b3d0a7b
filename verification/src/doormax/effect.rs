use vstd::prelude::*;

use crate::state;
use crate::state::{spec_build, state_error_text, State};
use crate::text::{bool_text, push_signed_decimal, signed_decimal};
use crate::world::World;

verus! {

/// Why an effect could not be applied.
#[derive(Debug)]
pub enum Error {
    InvalidState(state::Error),
}

impl Error {
    /// The explanation of the error, with that of the state that could not be built.
    pub fn to_string(&self) -> (s: String)
        ensures
            s@ == match self {
                Error::InvalidState(e) => "Failed to create state from effect: "@ + state_error_text(e),
            },
    {
        match self {
            Error::InvalidState(e) => {
                let mut s = String::new();
                s.append("Failed to create state from effect: ");
                let explanation = e.to_string();
                s.append(explanation.as_str());
                s
            },
        }
    }
}

impl From<state::Error> for Error {
    fn from(error: state::Error) -> (r: Self) {
        Error::InvalidState(error)
    }
}

impl vstd::std_specs::convert::FromSpecImpl<state::Error> for Error {
    open spec fn obeys_from_spec() -> bool {
        true
    }

    open spec fn from_spec(error: state::Error) -> Error {
        Error::InvalidState(error)
    }
}

/// A change that an action makes to one attribute of a state.
pub trait Effect: Sized + Copy {
    /// The two states can be compared without overflow.
    spec fn spec_generable(old_state: State, new_state: State) -> bool;

    /// The change from `old_state` to `new_state` in this attribute, if there is one.
    spec fn spec_generate(old_state: State, new_state: State) -> Option<Self>;

    /// The effect can be applied to `state` without overflow.
    spec fn spec_applicable(&self, state: State) -> bool;

    /// The taxi position, passenger and destination of `state` after the change.
    spec fn spec_target(&self, state: State) -> ((i32, i32), Option<char>, char);

    fn generate_effects(old_state: &State, new_state: &State) -> (r: Option<Self>)
        requires
            Self::spec_generable(*old_state, *new_state),
        ensures
            r == Self::spec_generate(*old_state, *new_state),
    ;

    /// `state` changed by the effect; refused where the result is not a state of the
    /// world.
    fn apply(&self, world: &World, state: &State) -> (r: Result<State, Error>)
        requires
            world.wf(),
            self.spec_applicable(*state),
        ensures
            ({
                let t = self.spec_target(*state);
                match r {
                    Ok(s) => spec_build(world@, t.0, t.1, t.2) == Some(s),
                    Err(_) => spec_build(world@, t.0, t.1, t.2) is None,
                }
            }),
    ;

    /// Whether two effects are the same.
    fn same(&self, other: &Self) -> (b: bool)
        ensures
            b == (*self == *other),
    ;
}

/// Moves the taxi along the x axis by `delta`.
#[derive(Debug, Clone, Copy, PartialEq, Eq, Structural)]
pub struct ChangeTaxiX {
    pub delta: i32,
}

impl ChangeTaxiX {
    pub fn new(delta: i32) -> (e: Self)
        ensures
            e == (ChangeTaxiX { delta }),
    {
        ChangeTaxiX { delta }
    }

    /// The effect written as `ChangeTaxiX(..)`.
    pub fn to_string(&self) -> (s: String)
        ensures
            s@ == "ChangeTaxiX("@ + signed_decimal(self.delta as int) + ")"@,
    {
        let mut s = String::new();
        s.append("ChangeTaxiX(");
        push_signed_decimal(&mut s, self.delta);
        s.append(")");
        s
    }
}

impl Effect for ChangeTaxiX {
    open spec fn spec_generable(old_state: State, new_state: State) -> bool {
        i32::MIN <= new_state.taxi.x - old_state.taxi.x <= i32::MAX
    }

    open spec fn spec_generate(old_state: State, new_state: State) -> Option<Self> {
        if old_state.taxi.x != new_state.taxi.x {
            Some(ChangeTaxiX { delta: (new_state.taxi.x - old_state.taxi.x) as i32 })
        } else {
            None
        }
    }

    open spec fn spec_applicable(&self, state: State) -> bool {
        i32::MIN <= state.taxi.x + self.delta <= i32::MAX
    }

    open spec fn spec_target(&self, state: State) -> ((i32, i32), Option<char>, char) {
        (((state.taxi.x + self.delta) as i32, state.taxi.y), state.passenger, state.destination)
    }

    fn generate_effects(old_state: &State, new_state: &State) -> (r: Option<Self>) {
        let old_x = old_state.get_taxi().x;
        let new_x = new_state.get_taxi().x;
        if old_x != new_x {
            let delta = new_x - old_x;
            Some(ChangeTaxiX::new(delta))
        } else {
            None
        }
    }

    fn apply(&self, world: &World, state: &State) -> (r: Result<State, Error>) {
        let new_taxi_x = state.get_taxi().x + self.delta;
        match State::build(world, (new_taxi_x, state.get_taxi().y), state.get_passenger(), state.get_destination()) {
            Ok(s) => Ok(s),
            Err(e) => Err(Error::from(e)),
        }
    }

    fn same(&self, other: &Self) -> (b: bool) {
        self.delta == other.delta
    }
}

/// Moves the taxi along the y axis by `delta`.
#[derive(Debug, Clone, Copy, PartialEq, Eq, Structural)]
pub struct ChangeTaxiY {
    pub delta: i32,
}

impl ChangeTaxiY {
    pub fn new(delta: i32) -> (e: Self)
        ensures
            e == (ChangeTaxiY { delta }),
    {
        ChangeTaxiY { delta }
    }

    /// The effect written as `ChangeTaxiY(..)`.
    pub fn to_string(&self) -> (s: String)
        ensures
            s@ == "ChangeTaxiY("@ + signed_decimal(self.delta as int) + ")"@,
    {
        let mut s = String::new();
        s.append("ChangeTaxiY(");
        push_signed_decimal(&mut s, self.delta);
        s.append(")");
        s
    }
}

impl Effect for ChangeTaxiY {
    open spec fn spec_generable(old_state: State, new_state: State) -> bool {
        i32::MIN <= new_state.taxi.y - old_state.taxi.y <= i32::MAX
    }

    open spec fn spec_generate(old_state: State, new_state: State) -> Option<Self> {
        if old_state.taxi.y != new_state.taxi.y {
            Some(ChangeTaxiY { delta: (new_state.taxi.y - old_state.taxi.y) as i32 })
        } else {
            None
        }
    }

    open spec fn spec_applicable(&self, state: State) -> bool {
        i32::MIN <= state.taxi.y + self.delta <= i32::MAX
    }

    open spec fn spec_target(&self, state: State) -> ((i32, i32), Option<char>, char) {
        ((state.taxi.x, (state.taxi.y + self.delta) as i32), state.passenger, state.destination)
    }

    fn generate_effects(old_state: &State, new_state: &State) -> (r: Option<Self>) {
        let old_y = old_state.get_taxi().y;
        let new_y = new_state.get_taxi().y;
        if old_y != new_y {
            let delta = new_y - old_y;
            Some(ChangeTaxiY::new(delta))
        } else {
            None
        }
    }

    fn apply(&self, world: &World, state: &State) -> (r: Result<State, Error>) {
        let new_taxi_y = state.get_taxi().y + self.delta;
        match State::build(world, (state.get_taxi().x, new_taxi_y), state.get_passenger(), state.get_destination()) {
            Ok(s) => Ok(s),
            Err(e) => Err(Error::from(e)),
        }
    }

    fn same(&self, other: &Self) -> (b: bool) {
        self.delta == other.delta
    }
}

/// Puts the passenger in the taxi, or (when `on_destination`) lets it out at the
/// destination.
#[derive(Debug, Clone, Copy, PartialEq, Eq, Structural)]
pub struct ChangePassenger {
    pub on_destination: bool,
}

impl ChangePassenger {
    pub fn new(on_destination: bool) -> (e: Self)
        ensures
            e == (ChangePassenger { on_destination }),
    {
        ChangePassenger { on_destination }
    }

    /// The effect written as `ChangePassenger(..)`.
    pub fn to_string(&self) -> (s: String)
        ensures
            s@ == "ChangePassenger("@ + bool_text(self.on_destination) + ")"@,
    {
        let mut s = String::new();
        s.append("ChangePassenger(");
        if self.on_destination {
            s.append("true");
        } else {
            s.append("false");
        }
        s.append(")");
        s
    }
}

impl Effect for ChangePassenger {
    open spec fn spec_generable(old_state: State, new_state: State) -> bool {
        true
    }

    /// A change of the passenger; one that leaves it out of the taxi is taken to leave
    /// it at the destination.
    open spec fn spec_generate(old_state: State, new_state: State) -> Option<Self> {
        if old_state.passenger != new_state.passenger {
            Some(ChangePassenger { on_destination: new_state.passenger is Some })
        } else {
            None
        }
    }

    open spec fn spec_applicable(&self, state: State) -> bool {
        true
    }

    open spec fn spec_target(&self, state: State) -> ((i32, i32), Option<char>, char) {
        (
            (state.taxi.x, state.taxi.y),
            if self.on_destination {
                Some(state.destination)
            } else {
                None
            },
            state.destination,
        )
    }

    fn generate_effects(old_state: &State, new_state: &State) -> (r: Option<Self>) {
        let old_passenger = old_state.get_passenger();
        let new_passenger = new_state.get_passenger();
        if old_passenger != new_passenger {
            Some(ChangePassenger::new(new_passenger.is_some()))
        } else {
            None
        }
    }

    fn apply(&self, world: &World, state: &State) -> (r: Result<State, Error>) {
        let passenger = if self.on_destination {
            Some(state.get_destination())
        } else {
            None
        };
        match State::build(world, (state.get_taxi().x, state.get_taxi().y), passenger, state.get_destination()) {
            Ok(s) => Ok(s),
            Err(e) => Err(Error::from(e)),
        }
    }

    fn same(&self, other: &Self) -> (b: bool) {
        self.on_destination == other.on_destination
    }
}

/// The change in x that a transition makes, applied to the state before it, gives the
/// x after it.
pub proof fn lemma_taxi_x_reproduces(old_state: State, new_state: State)
    requires
        ChangeTaxiX::spec_generable(old_state, new_state),
        old_state.taxi.x != new_state.taxi.x,
    ensures
        ChangeTaxiX::spec_generate(old_state, new_state) matches Some(e) && e.spec_applicable(old_state)
            && e.spec_target(old_state).0.0 == new_state.taxi.x,
{
}

/// The change in y that a transition makes, applied to the state before it, gives the
/// y after it.
pub proof fn lemma_taxi_y_reproduces(old_state: State, new_state: State)
    requires
        ChangeTaxiY::spec_generable(old_state, new_state),
        old_state.taxi.y != new_state.taxi.y,
    ensures
        ChangeTaxiY::spec_generate(old_state, new_state) matches Some(e) && e.spec_applicable(old_state)
            && e.spec_target(old_state).0.1 == new_state.taxi.y,
{
}

/// The change of passenger that a pick-up or a drop-off at the destination makes,
/// applied to the state before it, gives the passenger after it.
pub proof fn lemma_passenger_reproduces(old_state: State, new_state: State)
    requires
        old_state.passenger != new_state.passenger,
        new_state.passenger is None || new_state.passenger == Some(old_state.destination),
    ensures
        ChangePassenger::spec_generate(old_state, new_state) matches Some(e) && e.spec_target(old_state).1
            == new_state.passenger,
{
}

} // verus!
