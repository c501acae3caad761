//! What the workers of one search share: the transposition cache and the
//! set of moves in flight, behind one interface for a search that has them
//! to itself and for one that shares them with others.

use vstd::prelude::*;
use crate::engine::cache::{
    lookup_in, scores_within, store_in, TranspositionCache, TranspositionEntry,
};
use crate::engine::engine::{
    defer_move, finished_search, puts_off, starting_search, DEFER_DEPTH,
};
use crate::engine::inflight::InFlightSet;
use crate::score::Score;
use crate::state::state::Move;

verus! {

/// The tables of one search session, as a worker sees them.
///
/// Every score in the cache is one of the `admitted` scores of the session,
/// whoever put it there. Where the tables are `exclusive`, nobody but the
/// holder touches them, and `entries` and `in_flight` say exactly what they
/// hold; where they are shared, these two say nothing, and an answer may
/// be out of date as soon as it is given.
pub trait SearchTables<M: Move>: Sized {
    /// What the tables rely on.
    spec fn wf(&self) -> bool;

    /// The scores that the cache may hold.
    spec fn admitted(&self) -> Set<Score>;

    /// Whether the holder has the tables to itself.
    spec fn exclusive(&self) -> bool;

    /// The cache, where the tables are exclusive.
    spec fn entries(&self) -> Map<u64, TranspositionEntry>;

    /// The moves in flight, where the tables are exclusive.
    spec fn in_flight(&self) -> Set<M>;

    /// Asks the cache for a result for `hash` that is at least `depth`
    /// deep. The tables stay as they are.
    fn probe(&mut self, hash: u64, depth: usize) -> (found: Option<Score>)
        requires
            old(self).wf(),
        ensures
            final(self).wf(),
            final(self).admitted() == old(self).admitted(),
            final(self).exclusive() == old(self).exclusive(),
            found matches Some(score) ==> old(self).admitted().contains(score),
            old(self).exclusive() ==> {
                &&& found == lookup_in(old(self).entries(), hash, depth)
                &&& final(self).entries() == old(self).entries()
                &&& final(self).in_flight() == old(self).in_flight()
            },
    ;

    /// Offers a result to the cache, which keeps the deeper of what it has
    /// and what it is offered.
    fn record(&mut self, hash: u64, depth: usize, score: Score)
        requires
            old(self).wf(),
            old(self).admitted().contains(score),
        ensures
            final(self).wf(),
            final(self).admitted() == old(self).admitted(),
            final(self).exclusive() == old(self).exclusive(),
            old(self).exclusive() ==> {
                &&& final(self).entries() == store_in(old(self).entries(), hash, depth, score)
                &&& final(self).in_flight() == old(self).in_flight()
            },
    ;

    /// Whether to put `movement` off at a node with `depth` plies left.
    /// Below the deferral depth the answer is always no. The tables stay
    /// as they are.
    fn deferred(&mut self, movement: M, depth: usize) -> (put_off: bool)
        requires
            old(self).wf(),
        ensures
            final(self).wf(),
            final(self).admitted() == old(self).admitted(),
            final(self).exclusive() == old(self).exclusive(),
            depth < DEFER_DEPTH ==> !put_off,
            old(self).exclusive() ==> {
                &&& put_off == puts_off(depth, old(self).in_flight(), movement)
                &&& final(self).entries() == old(self).entries()
                &&& final(self).in_flight() == old(self).in_flight()
            },
    ;

    /// Marks `movement` as in flight and says whether the mark is new:
    /// whether the move was not in flight before.
    fn claim(&mut self, movement: M, depth: usize) -> (fresh: bool)
        requires
            old(self).wf(),
        ensures
            final(self).wf(),
            final(self).admitted() == old(self).admitted(),
            final(self).exclusive() == old(self).exclusive(),
            old(self).exclusive() ==> {
                &&& fresh == !old(self).in_flight().contains(movement)
                &&& final(self).entries() == old(self).entries()
                &&& final(self).in_flight() == old(self).in_flight().insert(movement)
            },
    ;

    /// Takes the mark off `movement`.
    fn release(&mut self, movement: M, depth: usize)
        requires
            old(self).wf(),
        ensures
            final(self).wf(),
            final(self).admitted() == old(self).admitted(),
            final(self).exclusive() == old(self).exclusive(),
            old(self).exclusive() ==> {
                &&& final(self).entries() == old(self).entries()
                &&& final(self).in_flight() == old(self).in_flight().remove(movement)
            },
    ;
}

/// Whether `after` are the tables `before` at a later time: still sound,
/// of the same session, and as exclusive as they were.
pub open spec fn same_session<M: Move, T: SearchTables<M>>(before: &T, after: &T) -> bool {
    &&& after.wf()
    &&& after.admitted() == before.admitted()
    &&& after.exclusive() == before.exclusive()
}

/// Tables that one worker at a time holds.
pub struct LocalTables<M: Move> {
    cache: TranspositionCache,
    searching: InFlightSet<M>,
    allowed: Ghost<Set<Score>>,
}

impl<M: Move> LocalTables<M> {
    /// Empty tables for a session whose scores are those of `allowed`.
    pub(crate) fn new(Ghost(allowed): Ghost<Set<Score>>) -> (tables: Self)
        ensures
            tables.wf(),
            tables.exclusive(),
            tables.admitted() == allowed,
            tables.entries() == Map::<u64, TranspositionEntry>::empty(),
            tables.in_flight() == Set::<M>::empty(),
    {
        LocalTables {
            cache: TranspositionCache::new(),
            searching: InFlightSet::new(),
            allowed: Ghost(allowed),
        }
    }
}

impl<M: Move> SearchTables<M> for LocalTables<M> {
    closed spec fn wf(&self) -> bool {
        scores_within(self.cache@, self.allowed@)
    }

    closed spec fn admitted(&self) -> Set<Score> {
        self.allowed@
    }

    open spec fn exclusive(&self) -> bool {
        true
    }

    closed spec fn entries(&self) -> Map<u64, TranspositionEntry> {
        self.cache@
    }

    closed spec fn in_flight(&self) -> Set<M> {
        self.searching@
    }

    fn probe(&mut self, hash: u64, depth: usize) -> (found: Option<Score>) {
        self.cache.lookup(hash, depth)
    }

    fn record(&mut self, hash: u64, depth: usize, score: Score) {
        self.cache.store(hash, depth, score);
    }

    fn deferred(&mut self, movement: M, depth: usize) -> (put_off: bool) {
        defer_move(movement, depth, &self.searching)
    }

    fn claim(&mut self, movement: M, depth: usize) -> (fresh: bool) {
        let held = self.searching.contains(movement);
        starting_search(movement, depth, &mut self.searching);
        !held
    }

    fn release(&mut self, movement: M, depth: usize) {
        finished_search(movement, depth, &mut self.searching);
    }
}

} // verus!
