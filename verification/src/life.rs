use crate::cell::{all_representable, representable, Cell};
use crate::cell_set::{insert_ordered, points, reached, strictly_ordered, CellSet};
use crate::rule::{alive_next, lemma_alive_next_near_live, near, next_generation};
use vstd::prelude::*;

verus! {

/// Decides the fate of the position `dx` columns and `dy` rows from `c`, and
/// records it in `out` where it is live in the next generation.
fn settle(cells: &CellSet, out: &mut Vec<Cell>, c: Cell, dx: i64, dy: i64)
    requires
        strictly_ordered(old(out)@),
        all_representable(next_generation(cells@)),
    ensures
        strictly_ordered(final(out)@),
        points(final(out)@) == if alive_next(cells@, (c.x + dx, c.y + dy)) {
            points(old(out)@).insert((c.x + dx, c.y + dy))
        } else {
            points(old(out)@)
        },
{
    match c.shifted(dx, dy) {
        Some(d) => {
            let n = cells.live_neighbors(d);
            if n == 3 || (n == 2 && cells.contains(d)) {
                insert_ordered(out, d);
            }
        },
        None => {
            assert(!next_generation(cells@).contains((c.x + dx, c.y + dy)));
        },
    }
}

/// Whether the position `dx` columns and `dy` rows from `c` lies outside the
/// coordinate range and yet is live in the next generation.
fn born_outside(cells: &CellSet, c: Cell, dx: i64, dy: i64) -> (born: bool)
    requires
        -1 <= dx <= 1,
        -1 <= dy <= 1,
    ensures
        born == (!representable((c.x + dx, c.y + dy)) && alive_next(
            cells@,
            (c.x + dx, c.y + dy),
        )),
{
    match c.shifted(dx, dy) {
        Some(_) => false,
        None => {
            proof {
                cells.lemma_view_properties();
            }
            cells.live_neighbors_at(c.x as i128 + dx as i128, c.y as i128 + dy as i128) == 3
        },
    }
}

/// Whether every cell of the generation that follows `cells` has coordinates
/// that fit in a `Cell`, which is what `tick` asks for. It fails only where
/// a cell would be born beyond the rim of the coordinate range.
pub fn next_fits(cells: &CellSet) -> (ok: bool)
    ensures
        ok == all_representable(next_generation(cells@)),
{
    let live = cells.to_vec();
    let mut i: usize = 0;
    while i < live.len()
        invariant
            i <= live@.len(),
            points(live@) == cells@,
            forall|p: (int, int)|
                alive_next(cells@, p) && #[trigger] reached(live@, i as int, p) ==> representable(
                    p,
                ),
        decreases live@.len() - i,
    {
        let c = live[i];
        if born_outside(cells, c, -1, -1) || born_outside(cells, c, 0, -1) || born_outside(
            cells,
            c,
            1,
            -1,
        ) || born_outside(cells, c, -1, 0) || born_outside(cells, c, 1, 0) || born_outside(
            cells,
            c,
            -1,
            1,
        ) || born_outside(cells, c, 0, 1) || born_outside(cells, c, 1, 1) {
            proof {
                let p = choose|p: (int, int)| alive_next(cells@, p) && !representable(p);
                assert(next_generation(cells@).contains(p));
            }
            return false;
        }
        i += 1;
        proof {
            assert forall|p: (int, int)|
                alive_next(cells@, p) && #[trigger] reached(
                    live@,
                    i as int,
                    p,
                ) implies representable(p) by {
                let k = choose|k: int| 0 <= k < i && near((#[trigger] live@[k])@, p);
                if k < i - 1 {
                    assert(reached(live@, i - 1, p));
                }
            }
        }
    }
    proof {
        assert forall|p: (int, int)| next_generation(cells@).contains(p) implies representable(
            p,
        ) by {
            lemma_alive_next_near_live(cells@, p);
            let q = choose|q: (int, int)| cells@.contains(q) && near(p, q);
            let k = choose|k: int| 0 <= k < live@.len() && (#[trigger] live@[k])@ == q;
            assert(near(live@[k]@, p));
            assert(reached(live@, live@.len() as int, p));
        }
    }
    true
}

/// The generation that follows `cells`.
///
/// Only the live cells and the positions that touch one are looked at: every
/// other position is dead now and stays dead. The input is left as it is. The
/// grid has no edge: the one demand is that each cell of the result has
/// coordinates that fit in a `Cell`, which `next_fits` tests.
pub fn tick(cells: &CellSet) -> (next: CellSet)
    requires
        all_representable(next_generation(cells@)),
    ensures
        next@ == next_generation(cells@),
{
    let live = cells.to_vec();
    let mut out: Vec<Cell> = Vec::new();
    let mut i: usize = 0;
    while i < live.len()
        invariant
            i <= live@.len(),
            strictly_ordered(out@),
            points(live@) == cells@,
            all_representable(next_generation(cells@)),
            forall|p: (int, int)|
                #[trigger] points(out@).contains(p) <==> alive_next(cells@, p) && reached(
                    live@,
                    i as int,
                    p,
                ),
        decreases live@.len() - i,
    {
        let c = live[i];
        let ghost before = points(out@);
        settle(cells, &mut out, c, -1, -1);
        settle(cells, &mut out, c, 0, -1);
        settle(cells, &mut out, c, 1, -1);
        settle(cells, &mut out, c, -1, 0);
        settle(cells, &mut out, c, 0, 0);
        settle(cells, &mut out, c, 1, 0);
        settle(cells, &mut out, c, -1, 1);
        settle(cells, &mut out, c, 0, 1);
        settle(cells, &mut out, c, 1, 1);
        i += 1;
        proof {
            assert forall|p: (int, int)|
                #[trigger] points(out@).contains(p) <==> alive_next(cells@, p) && reached(
                    live@,
                    i as int,
                    p,
                ) by {
                assert(points(out@).contains(p) <==> before.contains(p) || (alive_next(cells@, p)
                    && near(c@, p)));
                assert(before.contains(p) <==> alive_next(cells@, p) && reached(live@, i - 1, p));
                assert(reached(live@, i as int, p) <==> reached(live@, i - 1, p) || near(c@, p)) by {
                    if reached(live@, i - 1, p) {
                        let k = choose|k: int| 0 <= k < i - 1 && near((#[trigger] live@[k])@, p);
                        assert(near(live@[k]@, p));
                    }
                    if near(c@, p) {
                        assert(near(live@[i - 1]@, p));
                    }
                    if reached(live@, i as int, p) {
                        let k = choose|k: int| 0 <= k < i && near((#[trigger] live@[k])@, p);
                        if k < i - 1 {
                            assert(near(live@[k]@, p));
                        }
                    }
                }
            }
        }
    }
    proof {
        assert forall|p: (int, int)| alive_next(cells@, p) implies reached(
            live@,
            live@.len() as int,
            p,
        ) by {
            lemma_alive_next_near_live(cells@, p);
            let q = choose|q: (int, int)| cells@.contains(q) && near(p, q);
            let k = choose|k: int| 0 <= k < live@.len() && (#[trigger] live@[k])@ == q;
            assert(near(live@[k]@, p));
        }
        assert(points(out@) =~= next_generation(cells@));
    }
    CellSet::from_ordered(out)
}

/// `cells` with `cell` made live as well. The input is left as it is; where
/// `cell` is live already, the result holds the same cells.
pub fn make_cell_alive(cells: &CellSet, cell: Cell) -> (grown: CellSet)
    ensures
        grown@ == cells@.insert(cell@),
{
    let mut grown = cells.clone();
    grown.insert(cell);
    grown
}

} // verus!
