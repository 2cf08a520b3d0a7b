use vstd::prelude::*;

verus! {

/// A cell coordinate on the taxi grid, or a displacement between two cells.
#[derive(Debug, Clone, Copy, PartialEq, Eq, Structural)]
pub struct Position {
    pub x: i32,
    pub y: i32,
}

impl Position {
    pub fn new(x: i32, y: i32) -> (p: Position)
        ensures
            p.x == x,
            p.y == y,
    {
        Position { x: x, y: y }
    }

    /// Component-wise sum of two positions, as an integer pair.
    pub open spec fn spec_sum(self, rhs: Position) -> (int, int) {
        (self.x + rhs.x, self.y + rhs.y)
    }

    /// The sum of two positions fits in `i32` on both axes.
    pub open spec fn sum_fits(self, rhs: Position) -> bool {
        &&& i32::MIN <= self.x + rhs.x <= i32::MAX
        &&& i32::MIN <= self.y + rhs.y <= i32::MAX
    }
}

impl std::ops::Add<Position> for Position {
    type Output = Position;

    fn add(self, rhs: Position) -> (r: Position) {
        Position { x: self.x + rhs.x, y: self.y + rhs.y }
    }
}

impl vstd::std_specs::ops::AddSpecImpl<Position> for Position {
    open spec fn obeys_add_spec() -> bool {
        true
    }

    open spec fn add_req(self, rhs: Position) -> bool {
        self.sum_fits(rhs)
    }

    open spec fn add_spec(self, rhs: Position) -> Position {
        Position { x: (self.x + rhs.x) as i32, y: (self.y + rhs.y) as i32 }
    }
}

} // verus!
