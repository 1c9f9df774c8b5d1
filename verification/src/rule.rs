use vstd::prelude::*;

verus! {

/// One if `(x, y)` is live in `s`, zero otherwise.
pub open spec fn population(s: Set<(int, int)>, x: int, y: int) -> int {
    if s.contains((x, y)) {
        1
    } else {
        0
    }
}

/// How many of the eight cells around `p` are live in `s`.
pub open spec fn live_neighbors(s: Set<(int, int)>, p: (int, int)) -> int {
    population(s, p.0 - 1, p.1 - 1) + population(s, p.0, p.1 - 1) + population(s, p.0 + 1, p.1 - 1)
        + population(s, p.0 - 1, p.1) + population(s, p.0 + 1, p.1)
        + population(s, p.0 - 1, p.1 + 1) + population(s, p.0, p.1 + 1)
        + population(s, p.0 + 1, p.1 + 1)
}

/// Whether `p` is live in the generation after `s`: a live cell stays with
/// two or three live neighbours, a dead cell is born with exactly three.
pub open spec fn alive_next(s: Set<(int, int)>, p: (int, int)) -> bool {
    let n = live_neighbors(s, p);
    if s.contains(p) {
        n == 2 || n == 3
    } else {
        n == 3
    }
}

/// The generation that follows `s`.
pub open spec fn next_generation(s: Set<(int, int)>) -> Set<(int, int)> {
    Set::new(|p: (int, int)| alive_next(s, p))
}

/// `s` moved by `dx` columns and `dy` rows.
pub open spec fn translate(s: Set<(int, int)>, dx: int, dy: int) -> Set<(int, int)> {
    Set::new(|p: (int, int)| s.contains((p.0 - dx, p.1 - dy)))
}

/// `p` and `q` are the same cell or touch, sides and corners included.
pub open spec fn near(p: (int, int), q: (int, int)) -> bool {
    p.0 - 1 <= q.0 <= p.0 + 1 && p.1 - 1 <= q.1 <= p.1 + 1
}

/// A cell that is live in the next generation lies within one step of a
/// cell that is live now.
pub proof fn lemma_alive_next_near_live(s: Set<(int, int)>, p: (int, int))
    requires
        alive_next(s, p),
    ensures
        exists|q: (int, int)| s.contains(q) && near(p, q),
{
    if s.contains((p.0 - 1, p.1 - 1)) {
        assert(near(p, (p.0 - 1, p.1 - 1)));
    } else if s.contains((p.0, p.1 - 1)) {
        assert(near(p, (p.0, p.1 - 1)));
    } else if s.contains((p.0 + 1, p.1 - 1)) {
        assert(near(p, (p.0 + 1, p.1 - 1)));
    } else if s.contains((p.0 - 1, p.1)) {
        assert(near(p, (p.0 - 1, p.1)));
    } else if s.contains((p.0 + 1, p.1)) {
        assert(near(p, (p.0 + 1, p.1)));
    } else if s.contains((p.0 - 1, p.1 + 1)) {
        assert(near(p, (p.0 - 1, p.1 + 1)));
    } else if s.contains((p.0, p.1 + 1)) {
        assert(near(p, (p.0, p.1 + 1)));
    } else if s.contains((p.0 + 1, p.1 + 1)) {
        assert(near(p, (p.0 + 1, p.1 + 1)));
    }
}

/// The rule does not depend on where a pattern sits: moving a generation and
/// then advancing it gives the same cells as advancing it and then moving it.
pub proof fn lemma_translation_invariance(s: Set<(int, int)>, dx: int, dy: int)
    ensures
        next_generation(translate(s, dx, dy)) == translate(next_generation(s), dx, dy),
{
    let t = translate(s, dx, dy);
    assert forall|p: (int, int)|
        next_generation(t).contains(p) == translate(next_generation(s), dx, dy).contains(
            p,
        ) by {
        let q = (p.0 - dx, p.1 - dy);
        assert(t.contains(p) == s.contains(q));
        assert(population(t, p.0 - 1, p.1 - 1) == population(s, q.0 - 1, q.1 - 1));
        assert(population(t, p.0, p.1 - 1) == population(s, q.0, q.1 - 1));
        assert(population(t, p.0 + 1, p.1 - 1) == population(s, q.0 + 1, q.1 - 1));
        assert(population(t, p.0 - 1, p.1) == population(s, q.0 - 1, q.1));
        assert(population(t, p.0 + 1, p.1) == population(s, q.0 + 1, q.1));
        assert(population(t, p.0 - 1, p.1 + 1) == population(s, q.0 - 1, q.1 + 1));
        assert(population(t, p.0, p.1 + 1) == population(s, q.0, q.1 + 1));
        assert(population(t, p.0 + 1, p.1 + 1) == population(s, q.0 + 1, q.1 + 1));
        assert(live_neighbors(t, p) == live_neighbors(s, q));
        assert(alive_next(t, p) == alive_next(s, q));
    }
    assert(next_generation(t) =~= translate(next_generation(s), dx, dy));
}

} // verus!
