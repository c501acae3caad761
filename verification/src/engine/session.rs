//! A search session whose workers run at the same time. The cache and the
//! set of moves in flight sit behind read-write locks: any number of
//! workers may probe at once, and a write has the table to itself from its
//! check to its update.

use vstd::prelude::*;
use vstd::rwlock::{RwLock, RwLockPredicate};
use crate::engine::cache::{
    lookup_in, scores_within, store_in, TranspositionCache, TranspositionEntry,
};
use crate::engine::engine::{
    abdada_recurse, defer_move, finished_search, puts_off, starting_search, SearchError,
};
use crate::engine::inflight::InFlightSet;
use crate::engine::tables::SearchTables;
use crate::engine::tree::attainable;
use crate::score::{Score, SCORE_MAX, SCORE_MIN};
use crate::state::state::{Move, State, StateEval};

verus! {

/// What the lock on the cache keeps true: every cached score is one of
/// `allowed`.
pub struct CachedScores {
    pub allowed: Set<Score>,
}

impl RwLockPredicate<TranspositionCache> for CachedScores {
    open spec fn inv(self, cache: TranspositionCache) -> bool {
        scores_within(cache@, self.allowed)
    }
}

/// What the lock on the moves in flight keeps true: nothing. The set is a
/// hint, and any set will do.
pub struct AnyClaims;

impl<M: Move> RwLockPredicate<InFlightSet<M>> for AnyClaims {
    open spec fn inv(self, claims: InFlightSet<M>) -> bool {
        true
    }
}

/// The tables of a session as one of several workers sees them.
///
/// Whatever the worker does to a table, it does while it holds the lock on
/// that table, from what it finds there to what it leaves there. The
/// handle remembers both for the last time it held each lock: the table as
/// the worker met it, and the table as the worker left it. Between two
/// times other workers may have changed the table.
#[verifier::reject_recursive_types(M)]
pub struct SharedTables<'a, M: Move> {
    cache: &'a RwLock<TranspositionCache, CachedScores>,
    searching: &'a RwLock<InFlightSet<M>, AnyClaims>,
    cache_seen: Ghost<(Map<u64, TranspositionEntry>, Map<u64, TranspositionEntry>)>,
    claims_seen: Ghost<(Set<M>, Set<M>)>,
}

impl<'a, M: Move> SharedTables<'a, M> {
    /// The cache as the worker met it when it last held the lock on it.
    pub closed spec fn cache_met(&self) -> Map<u64, TranspositionEntry> {
        self.cache_seen@.0
    }

    /// The cache as the worker left it when it last held the lock on it.
    pub closed spec fn cache_left(&self) -> Map<u64, TranspositionEntry> {
        self.cache_seen@.1
    }

    /// The moves in flight as the worker met them when it last held the
    /// lock on them.
    pub closed spec fn claims_met(&self) -> Set<M> {
        self.claims_seen@.0
    }

    /// The moves in flight as the worker left them when it last held the
    /// lock on them.
    pub closed spec fn claims_left(&self) -> Set<M> {
        self.claims_seen@.1
    }

    /// A worker's handle on the tables behind the two locks. It has held
    /// neither lock yet.
    fn new(
        cache: &'a RwLock<TranspositionCache, CachedScores>,
        searching: &'a RwLock<InFlightSet<M>, AnyClaims>,
    ) -> (tables: Self)
        ensures
            tables.wf(),
            !tables.exclusive(),
            tables.admitted() == cache.pred().allowed,
    {
        SharedTables {
            cache,
            searching,
            cache_seen: Ghost((Map::empty(), Map::empty())),
            claims_seen: Ghost((Set::empty(), Set::empty())),
        }
    }
}

impl<'a, M: Move> SearchTables<M> for SharedTables<'a, M> {
    open spec fn wf(&self) -> bool {
        true
    }

    closed spec fn admitted(&self) -> Set<Score> {
        self.cache.pred().allowed
    }

    open spec fn exclusive(&self) -> bool {
        false
    }

    open spec fn entries(&self) -> Map<u64, TranspositionEntry> {
        Map::empty()
    }

    open spec fn in_flight(&self) -> Set<M> {
        Set::empty()
    }

    /// Under the read lock on the cache: answers as [`lookup_in`] does on
    /// the cache that it meets, and leaves that cache as it is.
    fn probe(&mut self, hash: u64, depth: usize) -> (found: Option<Score>)
        ensures
            found == lookup_in(final(self).cache_met(), hash, depth),
            scores_within(final(self).cache_met(), final(self).admitted()),
            final(self).cache_left() == final(self).cache_met(),
            final(self).claims_met() == old(self).claims_met(),
            final(self).claims_left() == old(self).claims_left(),
    {
        let lock = self.cache;
        let reader = lock.acquire_read();
        let found = reader.borrow().lookup(hash, depth);
        self.cache_seen = Ghost((reader.view()@, reader.view()@));
        reader.release_read();
        found
    }

    /// Under the write lock on the cache, from the check to the update:
    /// leaves what [`store_in`] makes of the cache that it meets.
    fn record(&mut self, hash: u64, depth: usize, score: Score)
        ensures
            final(self).cache_left() == store_in(final(self).cache_met(), hash, depth, score),
            scores_within(final(self).cache_met(), final(self).admitted()),
            scores_within(final(self).cache_left(), final(self).admitted()),
            final(self).claims_met() == old(self).claims_met(),
            final(self).claims_left() == old(self).claims_left(),
    {
        let lock = self.cache;
        let (mut cache, writer) = lock.acquire_write();
        let ghost met = cache@;
        cache.store(hash, depth, score);
        self.cache_seen = Ghost((met, cache@));
        writer.release_write(cache);
    }

    /// Under the read lock on the moves in flight: answers as [`puts_off`]
    /// does on the moves that it meets, and leaves them as they are.
    fn deferred(&mut self, movement: M, depth: usize) -> (put_off: bool)
        ensures
            put_off == puts_off(depth, final(self).claims_met(), movement),
            final(self).claims_left() == final(self).claims_met(),
            final(self).cache_met() == old(self).cache_met(),
            final(self).cache_left() == old(self).cache_left(),
    {
        let lock = self.searching;
        let reader = lock.acquire_read();
        let put_off = defer_move(movement, depth, reader.borrow());
        self.claims_seen = Ghost((reader.view()@, reader.view()@));
        reader.release_read();
        put_off
    }

    /// Under the write lock on the moves in flight, from the look to the
    /// mark: says whether `movement` was missing among the moves that it
    /// meets, and leaves them with `movement` among them.
    fn claim(&mut self, movement: M, depth: usize) -> (fresh: bool)
        ensures
            fresh == !final(self).claims_met().contains(movement),
            final(self).claims_left() == final(self).claims_met().insert(movement),
            final(self).cache_met() == old(self).cache_met(),
            final(self).cache_left() == old(self).cache_left(),
    {
        let lock = self.searching;
        let (mut claims, writer) = lock.acquire_write();
        let ghost met = claims@;
        let held = claims.contains(movement);
        starting_search(movement, depth, &mut claims);
        self.claims_seen = Ghost((met, claims@));
        writer.release_write(claims);
        !held
    }

    /// Under the write lock on the moves in flight: leaves the moves that
    /// it meets without `movement`.
    fn release(&mut self, movement: M, depth: usize)
        ensures
            final(self).claims_left() == final(self).claims_met().remove(movement),
            final(self).cache_met() == old(self).cache_met(),
            final(self).cache_left() == old(self).cache_left(),
    {
        let lock = self.searching;
        let (mut claims, writer) = lock.acquire_write();
        let ghost met = claims@;
        finished_search(movement, depth, &mut claims);
        self.claims_seen = Ghost((met, claims@));
        writer.release_write(claims);
    }
}

/// One search of one position, for workers that run at the same time:
/// the evaluator, the position, the depth, and the tables they share.
pub struct SearchSession<M: Move, S: State<M>, E: StateEval<M, S>> {
    evaluator: E,
    root: S,
    depth: usize,
    cache: RwLock<TranspositionCache, CachedScores>,
    searching: RwLock<InFlightSet<M>, AnyClaims>,
}

impl<M: Move, S: State<M>, E: StateEval<M, S>> SearchSession<M, S, E> {
    #[verifier::type_invariant]
    spec fn sound(&self) -> bool {
        &&& S::legal(self.root@)
        &&& self.cache.pred().allowed == attainable::<M, S, E>(
            &self.evaluator,
            self.root@,
            self.depth as nat,
        )
    }

    /// The position that the session searches.
    pub closed spec fn position(&self) -> S::V {
        self.root@
    }

    /// How many plies deep the session searches.
    pub closed spec fn horizon(&self) -> nat {
        self.depth as nat
    }

    /// The scores that the session can answer: those that its evaluator
    /// gives within its horizon.
    pub closed spec fn scores(&self) -> Set<Score> {
        attainable::<M, S, E>(&self.evaluator, self.root@, self.depth as nat)
    }

    /// A session for `root` with empty tables. A position that is not
    /// legal is refused.
    pub fn new(evaluator: E, root: S, depth: usize) -> (session: Result<Self, SearchError>)
        ensures
            match session {
                Ok(s) => S::legal(root@) && s.position() == root@ && s.horizon() == depth
                    && s.scores() == attainable::<M, S, E>(&evaluator, root@, depth as nat),
                Err(e) => !S::legal(root@) && e == SearchError::InvalidPosition,
            },
    {
        if !root.is_valid() {
            return Err(SearchError::InvalidPosition);
        }
        let ghost allowed = attainable::<M, S, E>(&evaluator, root@, depth as nat);
        let cache = RwLock::new(TranspositionCache::new(), Ghost(CachedScores { allowed }));
        let searching = RwLock::new(InFlightSet::new(), Ghost(AnyClaims));
        Ok(SearchSession { evaluator, root, depth, cache, searching })
    }

    /// The work of one worker: the search from the session's position with
    /// the full window, for the maximizing side. Any number of workers may
    /// do this at the same time. What others do meanwhile decides which
    /// moves are put off and which results come from the cache; whatever
    /// they do, the answer is a score of the session.
    pub fn work(&self) -> (answer: Score)
        ensures
            self.scores().contains(answer),
    {
        proof {
            use_type_invariant(self);
        }
        let mut tables = SharedTables::new(&self.cache, &self.searching);
        abdada_recurse(
            &mut tables,
            SCORE_MIN,
            SCORE_MAX,
            self.depth,
            true,
            &self.evaluator,
            &self.root,
        )
    }

    /// The answer of the session, once its workers are done: what the
    /// cache holds for the session's position, searched as deep as was
    /// asked. That the cache holds no such result is a failure of the
    /// session, and is reported as one.
    pub fn outcome(&self) -> (outcome: Result<Score, SearchError>)
        ensures
            match outcome {
                Ok(answer) => self.scores().contains(answer),
                Err(e) => e == SearchError::CacheFailure,
            },
    {
        proof {
            use_type_invariant(self);
        }
        let mut tables = SharedTables::<M>::new(&self.cache, &self.searching);
        match tables.probe(self.root.hash(), self.depth) {
            Some(answer) => Ok(answer),
            None => Err(SearchError::CacheFailure),
        }
    }
}

} // verus!
