use vstd::prelude::*;

verus! {

/// A position on the grid: column `x`, row `y`.
#[derive(Clone, Copy, Debug, PartialEq, Eq, Structural, Hash)]
pub struct Cell {
    pub x: i64,
    pub y: i64,
}

impl View for Cell {
    type V = (int, int);

    open spec fn view(&self) -> (int, int) {
        (self.x as int, self.y as int)
    }
}

/// The order in which cells are kept: by column first, then by row.
pub open spec fn precedes(a: (int, int), b: (int, int)) -> bool {
    a.0 < b.0 || (a.0 == b.0 && a.1 < b.1)
}

/// Whether both coordinates of `p` fit in a `Cell`.
pub open spec fn representable(p: (int, int)) -> bool {
    i64::MIN <= p.0 <= i64::MAX && i64::MIN <= p.1 <= i64::MAX
}

/// Every point of `s` has coordinates that fit in a `Cell`.
pub open spec fn all_representable(s: Set<(int, int)>) -> bool {
    forall|p: (int, int)| s.contains(p) ==> representable(p)
}

impl Cell {
    /// The cell in column `x` and row `y`.
    pub fn new(x: i64, y: i64) -> (c: Cell)
        ensures
            c.x == x,
            c.y == y,
    {
        Cell { x, y }
    }

    /// Whether this cell comes before `other` in the cell order.
    pub fn precedes(&self, other: &Cell) -> (r: bool)
        ensures
            r == precedes(self@, other@),
    {
        self.x < other.x || (self.x == other.x && self.y < other.y)
    }

    /// The cell `dx` columns and `dy` rows away, where that position is
    /// representable.
    pub fn shifted(&self, dx: i64, dy: i64) -> (r: Option<Cell>)
        ensures
            representable((self.x + dx, self.y + dy)) <==> r is Some,
            r matches Some(c) ==> c@ == (self.x + dx, self.y + dy),
    {
        match (self.x.checked_add(dx), self.y.checked_add(dy)) {
            (Some(x), Some(y)) => Some(Cell { x, y }),
            _ => None,
        }
    }
}

} // verus!
