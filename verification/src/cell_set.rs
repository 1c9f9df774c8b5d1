use crate::cell::{all_representable, precedes, Cell};
use crate::rule::{live_neighbors, near, population, translate};
use vstd::prelude::*;
use vstd::std_specs::cmp::PartialEqSpecImpl;

verus! {

/// Each element comes before every later one in the cell order, so no cell
/// occurs twice.
pub open spec fn strictly_ordered(s: Seq<Cell>) -> bool {
    forall|i: int, j: int| #![trigger s[i], s[j]] 0 <= i < j < s.len() ==> precedes(s[i]@, s[j]@)
}

/// The points that the cells of `s` stand on.
pub open spec fn points(s: Seq<Cell>) -> Set<(int, int)> {
    Set::new(|p: (int, int)| exists|i: int| 0 <= i < s.len() && (#[trigger] s[i])@ == p)
}

/// `p` lies within one step of one of the first `n` cells of `live`.
pub open spec fn reached(live: Seq<Cell>, n: int, p: (int, int)) -> bool {
    exists|k: int| 0 <= k < n && near((#[trigger] live[k])@, p)
}

/// A cell appended to a sequence adds its point to the points of the sequence.
pub proof fn lemma_points_push(s: Seq<Cell>, c: Cell)
    ensures
        points(s.push(c)) == points(s).insert(c@),
{
    let t = s.push(c);
    assert forall|p: (int, int)| points(t).contains(p) implies points(s).insert(c@).contains(p) by {
        let i = choose|i: int| 0 <= i < t.len() && (#[trigger] t[i])@ == p;
        if i < s.len() {
            assert(s[i]@ == p);
        }
    }
    assert forall|p: (int, int)| points(s).insert(c@).contains(p) implies points(t).contains(p) by {
        if p == c@ {
            assert(t[s.len() as int]@ == p);
        } else {
            let i = choose|i: int| 0 <= i < s.len() && (#[trigger] s[i])@ == p;
            assert(t[i]@ == p);
        }
    }
    assert(points(t) =~= points(s).insert(c@));
}

/// A sequence stands on finitely many points: no more than it has cells, and
/// exactly as many where it is ordered.
pub proof fn lemma_points_finite(s: Seq<Cell>)
    ensures
        points(s).finite(),
        points(s).len() <= s.len(),
        strictly_ordered(s) ==> points(s).len() == s.len(),
    decreases s.len(),
{
    if s.len() == 0 {
        assert(points(s) =~= Set::empty());
    } else {
        let front = s.drop_last();
        let last = s.last();
        lemma_points_finite(front);
        assert(points(s) =~= points(front).insert(last@)) by {
            assert forall|p: (int, int)| points(s).contains(p) implies points(front).insert(
                last@,
            ).contains(p) by {
                let i = choose|i: int| 0 <= i < s.len() && (#[trigger] s[i])@ == p;
                if i < s.len() - 1 {
                    assert(front[i]@ == p);
                }
            }
            assert forall|p: (int, int)| points(front).insert(last@).contains(p) implies points(
                s,
            ).contains(p) by {
                if p == last@ {
                    assert(s[s.len() - 1]@ == p);
                } else {
                    let i = choose|i: int| 0 <= i < front.len() && (#[trigger] front[i])@ == p;
                    assert(s[i]@ == p);
                }
            }
        }
        if strictly_ordered(s) {
            assert(strictly_ordered(front)) by {
                assert forall|i: int, j: int| 0 <= i < j < front.len() implies precedes(
                    (#[trigger] front[i])@,
                    (#[trigger] front[j])@,
                ) by {
                    assert(precedes(s[i]@, s[j]@));
                }
            }
            if points(front).contains(last@) {
                let i = choose|i: int| 0 <= i < front.len() && (#[trigger] front[i])@ == last@;
                assert(precedes(s[i]@, s[s.len() - 1]@));
            }
        }
    }
}

/// Two ordered sequences that stand on the same points are the same sequence.
pub proof fn lemma_ordered_points_determine(a: Seq<Cell>, b: Seq<Cell>)
    requires
        strictly_ordered(a),
        strictly_ordered(b),
        points(a) == points(b),
    ensures
        a == b,
    decreases a.len(),
{
    if a.len() == 0 {
        if b.len() > 0 {
            assert(points(b).contains(b[0]@));
            assert(points(a).contains(b[0]@));
        }
        assert(a =~= b);
    } else if b.len() == 0 {
        assert(points(a).contains(a[0]@));
        assert(points(b).contains(a[0]@));
    } else {
        let x = a.last();
        let y = b.last();
        assert(points(a).contains(x@)) by {
            assert(a[a.len() - 1]@ == x@);
        }
        assert(points(b).contains(y@)) by {
            assert(b[b.len() - 1]@ == y@);
        }
        let k = choose|k: int| 0 <= k < b.len() && (#[trigger] b[k])@ == x@;
        let m = choose|m: int| 0 <= m < a.len() && (#[trigger] a[m])@ == y@;
        assert(x@ == y@) by {
            if k < b.len() - 1 {
                assert(precedes(b[k]@, b[b.len() - 1]@));
            }
            if m < a.len() - 1 {
                assert(precedes(a[m]@, a[a.len() - 1]@));
            }
        }
        assert(x == y);
        let a2 = a.drop_last();
        let b2 = b.drop_last();
        assert(strictly_ordered(a2)) by {
            assert forall|i: int, j: int| 0 <= i < j < a2.len() implies precedes(
                (#[trigger] a2[i])@,
                (#[trigger] a2[j])@,
            ) by {
                assert(precedes(a[i]@, a[j]@));
            }
        }
        assert(strictly_ordered(b2)) by {
            assert forall|i: int, j: int| 0 <= i < j < b2.len() implies precedes(
                (#[trigger] b2[i])@,
                (#[trigger] b2[j])@,
            ) by {
                assert(precedes(b[i]@, b[j]@));
            }
        }
        assert(points(a2) =~= points(b2)) by {
            assert forall|p: (int, int)| points(a2).contains(p) implies points(b2).contains(p) by {
                let i = choose|i: int| 0 <= i < a2.len() && (#[trigger] a2[i])@ == p;
                assert(a[i]@ == p);
                assert(precedes(a[i]@, a[a.len() - 1]@));
                assert(points(a).contains(p));
                let j = choose|j: int| 0 <= j < b.len() && (#[trigger] b[j])@ == p;
                assert(b2[j]@ == p);
            }
            assert forall|p: (int, int)| points(b2).contains(p) implies points(a2).contains(p) by {
                let i = choose|i: int| 0 <= i < b2.len() && (#[trigger] b2[i])@ == p;
                assert(b[i]@ == p);
                assert(precedes(b[i]@, b[b.len() - 1]@));
                assert(points(b).contains(p));
                let j = choose|j: int| 0 <= j < a.len() && (#[trigger] a[j])@ == p;
                assert(a2[j]@ == p);
            }
        }
        lemma_ordered_points_determine(a2, b2);
        assert(a =~= a2.push(x));
        assert(b =~= b2.push(y));
    }
}

/// The first position in `v` whose cell does not come before `c`.
fn lower_bound(v: &Vec<Cell>, c: Cell) -> (idx: usize)
    requires
        strictly_ordered(v@),
    ensures
        idx <= v@.len(),
        forall|i: int| 0 <= i < idx ==> precedes((#[trigger] v@[i])@, c@),
        forall|i: int| idx <= i < v@.len() ==> !precedes((#[trigger] v@[i])@, c@),
{
    let mut lo: usize = 0;
    let mut hi: usize = v.len();
    while lo < hi
        invariant
            lo <= hi <= v@.len(),
            strictly_ordered(v@),
            forall|i: int| 0 <= i < lo ==> precedes((#[trigger] v@[i])@, c@),
            forall|i: int| hi <= i < v@.len() ==> !precedes((#[trigger] v@[i])@, c@),
        decreases hi - lo,
    {
        let mid: usize = lo + (hi - lo) / 2;
        if v[mid].precedes(&c) {
            assert forall|i: int| 0 <= i < mid + 1 implies precedes((#[trigger] v@[i])@, c@) by {
                if i < mid {
                    assert(precedes(v@[i]@, v@[mid as int]@));
                }
            }
            lo = mid + 1;
        } else {
            assert forall|i: int| mid <= i < v@.len() implies !precedes((#[trigger] v@[i])@, c@) by {
                if mid < i {
                    assert(precedes(v@[mid as int]@, v@[i]@));
                }
            }
            hi = mid;
        }
    }
    lo
}

/// Whether `c` is one of the cells of the ordered vector `v`.
fn holds(v: &Vec<Cell>, c: Cell) -> (found: bool)
    requires
        strictly_ordered(v@),
    ensures
        found == points(v@).contains(c@),
{
    let idx = lower_bound(v, c);
    if idx < v.len() && v[idx] == c {
        assert(v@[idx as int]@ == c@);
        true
    } else {
        proof {
            if points(v@).contains(c@) {
                let k = choose|k: int| 0 <= k < v@.len() && (#[trigger] v@[k])@ == c@;
                if k > idx {
                    assert(precedes(v@[idx as int]@, v@[k]@));
                }
            }
        }
        false
    }
}

/// Puts `c` at its place in the ordered vector `v`, unless it is there already.
pub(crate) fn insert_ordered(v: &mut Vec<Cell>, c: Cell)
    requires
        strictly_ordered(old(v)@),
    ensures
        strictly_ordered(final(v)@),
        points(final(v)@) == points(old(v)@).insert(c@),
{
    let idx = lower_bound(v, c);
    if idx < v.len() && v[idx] == c {
        assert(points(v@) =~= points(v@).insert(c@)) by {
            assert(v@[idx as int]@ == c@);
        }
        return ;
    }
    let ghost before = v@;
    v.insert(idx, c);
    proof {
        let after = v@;
        before.insert_ensures(idx as int, c);
        assert forall|i: int, j: int| 0 <= i < j < after.len() implies precedes(
            (#[trigger] after[i])@,
            (#[trigger] after[j])@,
        ) by {
            if j < idx {
                assert(precedes(before[i]@, before[j]@));
            } else if j == idx {
                assert(after[i] == before[i]);
            } else {
                assert(after[j] == before[j - 1]);
                if idx < j - 1 {
                    assert(precedes(before[idx as int]@, before[j - 1]@));
                }
                assert(!precedes(before[j - 1]@, c@));
                assert(before[j - 1]@ != c@);
                if i < idx {
                    assert(precedes(before[i]@, before[j - 1]@));
                } else if i == idx {
                } else {
                    assert(after[i] == before[i - 1]);
                    assert(precedes(before[i - 1]@, before[j - 1]@));
                }
            }
        }
        assert(points(after) =~= points(before).insert(c@)) by {
            assert forall|p: (int, int)| points(after).contains(p) implies points(before).insert(
                c@,
            ).contains(p) by {
                let i = choose|i: int| 0 <= i < after.len() && (#[trigger] after[i])@ == p;
                if i < idx {
                    assert(before[i]@ == p);
                } else if i > idx {
                    assert(after[i] == before[i - 1]);
                    assert(before[i - 1]@ == p);
                }
            }
            assert forall|p: (int, int)| points(before).insert(c@).contains(p) implies points(
                after,
            ).contains(p) by {
                if p == c@ {
                    assert(after[idx as int]@ == p);
                } else {
                    let i = choose|i: int| 0 <= i < before.len() && (#[trigger] before[i])@ == p;
                    if i < idx {
                        assert(after[i]@ == p);
                    } else {
                        assert(after[i + 1] == before[i]);
                        assert(after[i + 1]@ == p);
                    }
                }
            }
        }
    }
}

/// One generation: the set of live cells. A cell that is not in the set is
/// dead.
#[derive(Debug)]
pub struct CellSet {
    cells: Vec<Cell>,
}

impl View for CellSet {
    type V = Set<(int, int)>;

    closed spec fn view(&self) -> Set<(int, int)> {
        points(self.cells@)
    }
}

impl CellSet {
    #[verifier::type_invariant]
    spec fn well_formed(&self) -> bool {
        strictly_ordered(self.cells@)
    }

    /// A set of live cells is finite, and each of its points fits in a
    /// `Cell`.
    pub proof fn lemma_view_properties(&self)
        ensures
            self@.finite(),
            all_representable(self@),
    {
        lemma_points_finite(self.cells@);
    }

    /// The generation in which every cell is dead.
    pub fn new() -> (s: CellSet)
        ensures
            s@ == Set::<(int, int)>::empty(),
    {
        let s = CellSet { cells: Vec::new() };
        assert(s@ =~= Set::<(int, int)>::empty());
        s
    }

    /// The set of the cells of an ordered vector.
    pub(crate) fn from_ordered(cells: Vec<Cell>) -> (s: CellSet)
        requires
            strictly_ordered(cells@),
        ensures
            s@ == points(cells@),
    {
        CellSet { cells }
    }

    /// The set of the cells listed in `cells`; a cell listed twice counts
    /// once.
    pub fn from_cells(cells: &Vec<Cell>) -> (s: CellSet)
        ensures
            s@ == points(cells@),
    {
        let mut ordered: Vec<Cell> = Vec::new();
        let mut i: usize = 0;
        assert(points(ordered@) =~= points(cells@.take(0)));
        while i < cells.len()
            invariant
                i <= cells@.len(),
                strictly_ordered(ordered@),
                points(ordered@) == points(cells@.take(i as int)),
            decreases cells@.len() - i,
        {
            insert_ordered(&mut ordered, cells[i]);
            proof {
                lemma_points_push(cells@.take(i as int), cells@[i as int]);
                assert(cells@.take(i as int).push(cells@[i as int]) =~= cells@.take(i + 1));
            }
            i += 1;
        }
        assert(cells@.take(i as int) =~= cells@);
        CellSet { cells: ordered }
    }

    /// The number of live cells.
    pub fn len(&self) -> (n: usize)
        ensures
            self@.finite(),
            n == self@.len(),
    {
        proof {
            use_type_invariant(self);
            lemma_points_finite(self.cells@);
        }
        self.cells.len()
    }

    /// Whether every cell is dead.
    pub fn is_empty(&self) -> (b: bool)
        ensures
            b <==> self@ == Set::<(int, int)>::empty(),
    {
        proof {
            if self.cells@.len() == 0 {
                assert(self@ =~= Set::<(int, int)>::empty());
            } else {
                assert(self@.contains(self.cells@[0]@));
            }
        }
        self.cells.len() == 0
    }

    /// Whether `c` is live.
    pub fn contains(&self, c: Cell) -> (b: bool)
        ensures
            b == self@.contains(c@),
    {
        proof {
            use_type_invariant(self);
        }
        holds(&self.cells, c)
    }

    /// Makes `c` live. Nothing changes where it is live already.
    pub fn insert(&mut self, c: Cell)
        ensures
            final(self)@ == old(self)@.insert(c@),
    {
        proof {
            use_type_invariant(&*self);
        }
        let mut cells: Vec<Cell> = Vec::new();
        std::mem::swap(&mut cells, &mut self.cells);
        insert_ordered(&mut cells, c);
        self.cells = cells;
    }

    /// The live cells, each once, by column and then by row.
    pub fn to_vec(&self) -> (v: Vec<Cell>)
        ensures
            strictly_ordered(v@),
            points(v@) == self@,
    {
        proof {
            use_type_invariant(self);
        }
        let v = self.cells.clone();
        assert(v@ =~= self.cells@);
        v
    }

    /// One if the position `(x, y)` is live, zero otherwise. A position
    /// outside the coordinate range is never live.
    fn population(&self, x: i128, y: i128) -> (n: u8)
        ensures
            n == population(self@, x as int, y as int),
    {
        if i64::MIN as i128 <= x && x <= i64::MAX as i128 && i64::MIN as i128 <= y && y
            <= i64::MAX as i128 {
            if self.contains(Cell { x: x as i64, y: y as i64 }) {
                1
            } else {
                0
            }
        } else {
            proof {
                self.lemma_view_properties();
            }
            0
        }
    }

    /// How many of the eight positions around `(x, y)` are live. The
    /// position itself may lie one step outside the coordinate range.
    pub(crate) fn live_neighbors_at(&self, x: i128, y: i128) -> (n: u8)
        requires
            i64::MIN - 1 <= x <= i64::MAX + 1,
            i64::MIN - 1 <= y <= i64::MAX + 1,
        ensures
            n == live_neighbors(self@, (x as int, y as int)),
    {
        let a = self.population(x - 1, y - 1);
        let b = self.population(x, y - 1);
        let d = self.population(x + 1, y - 1);
        let e = self.population(x - 1, y);
        let f = self.population(x + 1, y);
        let g = self.population(x - 1, y + 1);
        let h = self.population(x, y + 1);
        let k = self.population(x + 1, y + 1);
        a + b + d + e + f + g + h + k
    }

    /// How many of the eight cells around `c` are live.
    pub fn live_neighbors(&self, c: Cell) -> (n: u8)
        ensures
            n == live_neighbors(self@, c@),
    {
        self.live_neighbors_at(c.x as i128, c.y as i128)
    }

    /// This generation moved by `dx` columns and `dy` rows, where every moved
    /// cell fits in the coordinate range.
    pub fn translate(&self, dx: i64, dy: i64) -> (r: Option<CellSet>)
        ensures
            r is Some <==> all_representable(translate(self@, dx as int, dy as int)),
            r matches Some(t) ==> t@ == translate(self@, dx as int, dy as int),
    {
        proof {
            use_type_invariant(self);
        }
        let mut moved: Vec<Cell> = Vec::new();
        let mut i: usize = 0;
        while i < self.cells.len()
            invariant
                i <= self.cells@.len(),
                moved@.len() == i,
                strictly_ordered(self.cells@),
                forall|k: int|
                    0 <= k < i ==> (#[trigger] moved@[k])@ == (
                        self.cells@[k].x + dx,
                        self.cells@[k].y + dy,
                    ),
            decreases self.cells@.len() - i,
        {
            match self.cells[i].shifted(dx, dy) {
                Some(c) => {
                    moved.push(c);
                },
                None => {
                    proof {
                        let q = self.cells@[i as int]@;
                        assert(self@.contains(q));
                        assert(translate(self@, dx as int, dy as int).contains(
                            (q.0 + dx, q.1 + dy),
                        ));
                    }
                    return None;
                },
            }
            i += 1;
        }
        proof {
            assert forall|a: int, b: int| 0 <= a < b < moved@.len() implies precedes(
                (#[trigger] moved@[a])@,
                (#[trigger] moved@[b])@,
            ) by {
                assert(precedes(self.cells@[a]@, self.cells@[b]@));
            }
            assert forall|p: (int, int)| points(moved@).contains(p) implies translate(
                self@,
                dx as int,
                dy as int,
            ).contains(p) by {
                let k = choose|k: int| 0 <= k < moved@.len() && (#[trigger] moved@[k])@ == p;
                assert(self.cells@[k]@ == (p.0 - dx, p.1 - dy));
            }
            assert forall|p: (int, int)|
                translate(self@, dx as int, dy as int).contains(p) implies points(
                moved@,
            ).contains(p) by {
                let k = choose|k: int|
                    0 <= k < self.cells@.len() && (#[trigger] self.cells@[k])@ == (
                        p.0 - dx,
                        p.1 - dy,
                    );
                assert(moved@[k]@ == p);
            }
            assert(points(moved@) =~= translate(self@, dx as int, dy as int));
        }
        Some(CellSet { cells: moved })
    }
}

impl PartialEq for CellSet {
    /// Two generations are equal when the same cells are live in both.
    fn eq(&self, other: &CellSet) -> (r: bool) {
        proof {
            use_type_invariant(self);
            use_type_invariant(other);
            if self@ == other@ {
                lemma_ordered_points_determine(self.cells@, other.cells@);
            }
        }
        if self.cells.len() != other.cells.len() {
            return false;
        }
        let mut i: usize = 0;
        while i < self.cells.len()
            invariant
                i <= self.cells@.len(),
                self.cells@.len() == other.cells@.len(),
                self@ == other@ ==> self.cells@ == other.cells@,
                forall|k: int| 0 <= k < i ==> self.cells@[k] == other.cells@[k],
            decreases self.cells@.len() - i,
        {
            if !(self.cells[i] == other.cells[i]) {
                return false;
            }
            i += 1;
        }
        assert(self.cells@ =~= other.cells@);
        true
    }
}

impl PartialEqSpecImpl for CellSet {
    open spec fn obeys_eq_spec() -> bool {
        true
    }

    open spec fn eq_spec(&self, other: &CellSet) -> bool {
        self@ == other@
    }
}

impl Eq for CellSet {

}

impl Clone for CellSet {
    fn clone(&self) -> (s: CellSet)
        ensures
            s@ == self@,
    {
        proof {
            use_type_invariant(self);
        }
        let cells = self.cells.clone();
        assert(cells@ =~= self.cells@);
        CellSet { cells }
    }
}


} // verus!
