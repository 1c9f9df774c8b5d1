use crate::cell::Cell;
use crate::cell_set::{points, CellSet};
use vstd::prelude::*;

verus! {

/// A named pattern: its live cells, relative to its own origin and in the
/// order the catalogue lists them, and the size of the box that frames it.
/// The size is a hint for the view. The cells are not held to it.
#[derive(Clone, Debug, PartialEq, Eq)]
pub struct Term {
    pub name: String,
    pub cells: Vec<Cell>,
    pub width: usize,
    pub height: usize,
}

impl Term {
    /// The generation that this pattern seeds.
    pub open spec fn seed(&self) -> Set<(int, int)> {
        points(self.cells@)
    }

    /// The pattern as a generation: every listed cell is live and no other.
    /// A cell that is listed more than once is live once; the order of the
    /// list and the declared size make no difference.
    pub fn load(&self) -> (cells: CellSet)
        ensures
            cells@ == self.seed(),
    {
        CellSet::from_cells(&self.cells)
    }
}

} // verus!
