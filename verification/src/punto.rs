use vstd::prelude::*;

verus! {

/// A cell coordinate on the board: `x` is the column, `y` the row.
#[derive(Clone, Copy, PartialEq, Eq, Structural, Hash, Debug)]
pub struct Punto {
    pub x: usize,
    pub y: usize,
}

impl Punto {
    /// The mathematical value of the coordinate pair.
    pub open spec fn vista(self) -> (int, int) {
        (self.x as int, self.y as int)
    }
}

} // verus!
