use crate::cell_set::CellSet;
use std::collections::VecDeque;
use vstd::prelude::*;

verus! {

/// The ring after `generation` is recorded in `ring` under the bound
/// `num_previous`: the new entry goes to the front, and the oldest entries
/// leave from the back until no more than `num_previous` are kept.
pub open spec fn recorded(
    ring: Seq<Set<(int, int)>>,
    generation: Set<(int, int)>,
    num_previous: nat,
) -> Seq<Set<(int, int)>> {
    let grown = seq![generation] + ring;
    if grown.len() > num_previous {
        grown.take(num_previous as int)
    } else {
        grown
    }
}

/// The most recent past generations, newest first.
#[derive(Debug)]
pub struct History {
    past: VecDeque<CellSet>,
}

impl View for History {
    type V = Seq<Set<(int, int)>>;

    closed spec fn view(&self) -> Seq<Set<(int, int)>> {
        Seq::new(self.past@.len(), |i: int| self.past@[i]@)
    }
}

impl History {
    /// A ring that holds nothing.
    pub fn new() -> (h: History)
        ensures
            h@ == Seq::<Set<(int, int)>>::empty(),
    {
        let h = History { past: VecDeque::new() };
        assert(h@ =~= Seq::<Set<(int, int)>>::empty());
        h
    }

    /// Records `previous` as the newest entry and trims the ring to
    /// `num_previous` entries. A bound that has shrunk since the last call
    /// takes effect here.
    pub fn record(&mut self, previous: CellSet, num_previous: usize)
        ensures
            final(self)@ == recorded(old(self)@, previous@, num_previous as nat),
            final(self)@.len() <= num_previous,
    {
        self.past.push_front(previous);
        self.past.truncate(num_previous);
        assert(self@ =~= recorded(old(self)@, previous@, num_previous as nat));
    }

    /// Forgets every entry.
    pub fn clear(&mut self)
        ensures
            final(self)@ == Seq::<Set<(int, int)>>::empty(),
    {
        self.past.clear();
        assert(self@ =~= Seq::<Set<(int, int)>>::empty());
    }

    /// How many generations are kept.
    pub fn len(&self) -> (n: usize)
        ensures
            n == self@.len(),
    {
        self.past.len()
    }

    /// Whether no generation is kept.
    pub fn is_empty(&self) -> (b: bool)
        ensures
            b == (self@.len() == 0),
    {
        self.past.len() == 0
    }

    /// The generation `age` steps back from the newest entry.
    pub fn get(&self, age: usize) -> (generation: Option<&CellSet>)
        ensures
            age < self@.len() <==> generation is Some,
            generation matches Some(g) ==> g@ == self@[age as int],
    {
        if age < self.past.len() {
            Some(&self.past[age])
        } else {
            None
        }
    }

    /// A copy of every kept generation, newest first.
    pub fn to_vec(&self) -> (copies: Vec<CellSet>)
        ensures
            copies@.len() == self@.len(),
            forall|i: int| 0 <= i < copies@.len() ==> (#[trigger] copies@[i])@ == self@[i],
    {
        let mut copies: Vec<CellSet> = Vec::new();
        let mut i: usize = 0;
        while i < self.past.len()
            invariant
                i <= self.past@.len(),
                copies@.len() == i,
                forall|k: int| 0 <= k < i ==> (#[trigger] copies@[k])@ == self.past@[k]@,
            decreases self.past@.len() - i,
        {
            copies.push(self.past[i].clone());
            i += 1;
        }
        copies
    }
}

impl Clone for History {
    fn clone(&self) -> (h: History)
        ensures
            h@ == self@,
    {
        let mut past: VecDeque<CellSet> = VecDeque::new();
        let mut i: usize = 0;
        while i < self.past.len()
            invariant
                i <= self.past@.len(),
                past@.len() == i,
                forall|k: int| 0 <= k < i ==> (#[trigger] past@[k])@ == self.past@[k]@,
            decreases self.past@.len() - i,
        {
            past.push_back(self.past[i].clone());
            i += 1;
        }
        let h = History { past };
        assert(h@ =~= self@);
        h
    }
}

} // verus!
