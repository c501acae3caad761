//! The moves that some worker is exploring right now.

use vstd::prelude::*;
use crate::state::state::Move;

verus! {

/// A set of moves. A worker puts a move in when it starts on the move's
/// subtree and takes it out when the subtree is done; other workers read the
/// set as a hint to try something else first.
pub struct InFlightSet<M: Move> {
    moves: Vec<M>,
}

impl<M: Move> View for InFlightSet<M> {
    type V = Set<M>;

    closed spec fn view(&self) -> Set<M> {
        self.moves@.to_set()
    }
}

impl<M: Move> InFlightSet<M> {
    /// The empty set.
    pub fn new() -> (set: Self)
        ensures
            set@ == Set::<M>::empty(),
    {
        let set = InFlightSet { moves: Vec::new() };
        assert(set@ =~= Set::<M>::empty());
        set
    }

    /// Whether `movement` is in the set.
    pub fn contains(&self, movement: M) -> (found: bool)
        ensures
            found == self@.contains(movement),
    {
        let mut i: usize = 0;
        while i < self.moves.len()
            invariant
                i <= self.moves.len(),
                forall|j: int| 0 <= j < i ==> self.moves@[j] != movement,
            decreases self.moves.len() - i,
        {
            if self.moves[i].same(movement) {
                return true;
            }
            i += 1;
        }
        false
    }

    /// Puts `movement` into the set; a move that is already there stays
    /// there once.
    pub fn insert(&mut self, movement: M)
        ensures
            final(self)@ == old(self)@.insert(movement),
    {
        if self.contains(movement) {
            assert(self@ =~= self@.insert(movement));
        } else {
            self.moves.push(movement);
            assert forall|m: M| self.moves@.contains(m) <==> old(self).moves@.contains(m) || m
                == movement by {
                if old(self).moves@.contains(m) {
                    let j = choose|j: int| 0 <= j < old(self).moves@.len() && old(self).moves@[j] == m;
                    assert(self.moves@[j] == m);
                }
                if m == movement {
                    assert(self.moves@[self.moves@.len() - 1] == m);
                }
            }
            assert(self@ =~= old(self)@.insert(movement));
        }
    }

    /// Takes `movement` out of the set, if it is there.
    pub fn remove(&mut self, movement: M)
        ensures
            final(self)@ == old(self)@.remove(movement),
    {
        let mut kept: Vec<M> = Vec::new();
        let mut i: usize = 0;
        while i < self.moves.len()
            invariant
                i <= self.moves.len(),
                forall|m: M|
                    kept@.contains(m) <==> m != movement && exists|j: int|
                        0 <= j < i && self.moves@[j] == m,
            decreases self.moves.len() - i,
        {
            let candidate = self.moves[i];
            let ghost before = kept@;
            if !candidate.same(movement) {
                kept.push(candidate);
                assert forall|m: M|
                    kept@.contains(m) <==> m != movement && exists|j: int|
                        0 <= j < i + 1 && self.moves@[j] == m by {
                    if kept@.contains(m) {
                        let k = choose|k: int| 0 <= k < kept@.len() && kept@[k] == m;
                        if k < before.len() {
                            assert(before[k] == m);
                            assert(before.contains(m));
                        } else {
                            assert(self.moves@[i as int] == m);
                        }
                    }
                    if m != movement && exists|j: int| 0 <= j < i + 1 && self.moves@[j] == m {
                        let j = choose|j: int| 0 <= j < i + 1 && self.moves@[j] == m;
                        if j < i {
                            assert(before.contains(m));
                            let k = choose|k: int| 0 <= k < before.len() && before[k] == m;
                            assert(kept@[k] == m);
                        } else {
                            assert(kept@[kept@.len() - 1] == m);
                        }
                    }
                }
            } else {
                assert forall|m: M|
                    kept@.contains(m) <==> m != movement && exists|j: int|
                        0 <= j < i + 1 && self.moves@[j] == m by {
                    if m != movement && exists|j: int| 0 <= j < i + 1 && self.moves@[j] == m {
                        let j = choose|j: int| 0 <= j < i + 1 && self.moves@[j] == m;
                        assert(j < i);
                    }
                }
            }
            i += 1;
        }
        assert forall|m: M| kept@.to_set().contains(m) <==> old(self)@.remove(movement).contains(
            m,
        ) by {
            if old(self).moves@.contains(m) {
                let j = choose|j: int| 0 <= j < old(self).moves@.len() && old(self).moves@[j] == m;
                assert(self.moves@[j] == m);
            }
        }
        self.moves = kept;
        assert(self@ =~= old(self)@.remove(movement));
    }
}

} // verus!
