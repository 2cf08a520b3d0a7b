use vstd::prelude::*;

verus! {

/// The facts about a state that decide what an action does.
#[derive(Debug, Clone, Copy, PartialEq, Eq, Structural)]
pub enum Term {
    TouchWallN,
    TouchWallS,
    TouchWallE,
    TouchWallW,
    OnPassenger,
    OnDestination,
    HasPassenger,
}

/// The number of terms.
pub const NUM_TERMS: usize = 7;

/// The position of a term in the fixed order of the enum.
pub open spec fn spec_term_index(t: Term) -> int {
    match t {
        Term::TouchWallN => 0,
        Term::TouchWallS => 1,
        Term::TouchWallE => 2,
        Term::TouchWallW => 3,
        Term::OnPassenger => 4,
        Term::OnDestination => 5,
        Term::HasPassenger => 6,
    }
}

impl Term {
    /// The position of the term in the fixed order of the enum.
    pub fn index(&self) -> (i: usize)
        ensures
            i == spec_term_index(*self),
            i < NUM_TERMS,
    {
        match *self {
            Term::TouchWallN => 0,
            Term::TouchWallS => 1,
            Term::TouchWallE => 2,
            Term::TouchWallW => 3,
            Term::OnPassenger => 4,
            Term::OnDestination => 5,
            Term::HasPassenger => 6,
        }
    }
}

} // verus!
