//! The transposition cache: what has been found so far, by position hash.

use vstd::prelude::*;
use std::collections::HashMap;
use crate::score::Score;

verus! {

broadcast use vstd::std_specs::hash::group_hash_axioms;

/// What the cache remembers of one position: how deep it was searched and
/// the score that search gave.
#[derive(Clone, Copy, Debug, PartialEq, Eq, Structural)]
pub struct TranspositionEntry {
    pub depth: usize,
    pub score: Score,
}

/// What a probe for `hash` gives on `entries`: the stored score, if the
/// position was searched at least `min_depth` deep.
pub open spec fn lookup_in(
    entries: Map<u64, TranspositionEntry>,
    hash: u64,
    min_depth: usize,
) -> Option<Score> {
    if entries.contains_key(hash) && entries[hash].depth >= min_depth {
        Some(entries[hash].score)
    } else {
        None
    }
}

/// What `entries` become when `(depth, score)` is offered for `hash`: a new
/// key is taken, a strictly deeper result replaces the old one, and anything
/// else leaves the entries as they are.
pub open spec fn store_in(
    entries: Map<u64, TranspositionEntry>,
    hash: u64,
    depth: usize,
    score: Score,
) -> Map<u64, TranspositionEntry> {
    if entries.contains_key(hash) && entries[hash].depth >= depth {
        entries
    } else {
        entries.insert(hash, TranspositionEntry { depth, score })
    }
}

/// An offer that is no deeper than what is stored for the key leaves the
/// entries as they are.
pub proof fn lemma_store_keeps_deeper(
    entries: Map<u64, TranspositionEntry>,
    hash: u64,
    depth: usize,
    score: Score,
)
    requires
        entries.contains_key(hash),
        depth <= entries[hash].depth,
    ensures
        store_in(entries, hash, depth, score) == entries,
{
}

/// An offer that is deeper than what is stored for the key takes its place,
/// and no other key is touched.
pub proof fn lemma_store_takes_deeper(
    entries: Map<u64, TranspositionEntry>,
    hash: u64,
    depth: usize,
    score: Score,
)
    requires
        entries.contains_key(hash),
        depth > entries[hash].depth,
    ensures
        store_in(entries, hash, depth, score) == entries.insert(
            hash,
            TranspositionEntry { depth, score },
        ),
        store_in(entries, hash, depth, score)[hash] == (TranspositionEntry { depth, score }),
        lookup_in(store_in(entries, hash, depth, score), hash, depth) == Some(score),
{
}

/// Over any run of offers, the depth stored for a key never goes down, and
/// a key once stored stays stored.
pub proof fn lemma_store_depth_grows(
    entries: Map<u64, TranspositionEntry>,
    hash: u64,
    depth: usize,
    score: Score,
    key: u64,
)
    requires
        entries.contains_key(key),
    ensures
        store_in(entries, hash, depth, score).contains_key(key),
        store_in(entries, hash, depth, score)[key].depth >= entries[key].depth,
{
}

/// Whether every score in the cache `entries` is one of `scores`.
pub open spec fn scores_within(entries: Map<u64, TranspositionEntry>, scores: Set<Score>) -> bool {
    forall|hash: u64| #[trigger]
        entries.contains_key(hash) ==> scores.contains(entries[hash].score)
}

/// Whether `after` has kept what `before` held: every key is still there,
/// and none is stored less deep than it was.
pub open spec fn kept(
    before: Map<u64, TranspositionEntry>,
    after: Map<u64, TranspositionEntry>,
) -> bool {
    forall|hash: u64| #[trigger]
        before.contains_key(hash) ==> after.contains_key(hash) && after[hash].depth
            >= before[hash].depth
}

/// Whether `after` differs from `before` at keys of `keys` only.
pub open spec fn changed_within(
    before: Map<u64, TranspositionEntry>,
    after: Map<u64, TranspositionEntry>,
    keys: Set<u64>,
) -> bool {
    forall|hash: u64|
        !keys.contains(hash) ==> {
            &&& #[trigger] after.contains_key(hash) == before.contains_key(hash)
            &&& before.contains_key(hash) ==> after[hash] == before[hash]
        }
}

/// Whether every entry of `after` that is not an entry of `before` is at
/// most `cap` deep.
pub open spec fn capped(
    before: Map<u64, TranspositionEntry>,
    after: Map<u64, TranspositionEntry>,
    cap: usize,
) -> bool {
    forall|hash: u64| #[trigger]
        after.contains_key(hash) ==> (before.contains_key(hash) && before[hash] == after[hash])
            || after[hash].depth <= cap
}

/// A map from position hash to the deepest result seen for that position.
#[derive(Debug)]
pub struct TranspositionCache {
    table: HashMap<u64, TranspositionEntry>,
}

impl View for TranspositionCache {
    type V = Map<u64, TranspositionEntry>;

    closed spec fn view(&self) -> Map<u64, TranspositionEntry> {
        self.table@
    }
}

impl TranspositionCache {
    /// An empty cache.
    pub fn new() -> (cache: Self)
        ensures
            cache@ == Map::<u64, TranspositionEntry>::empty(),
    {
        TranspositionCache { table: HashMap::new() }
    }

    /// The entry stored for `hash`, if there is one.
    pub fn entry(&self, hash: u64) -> (found: Option<TranspositionEntry>)
        ensures
            found == if self@.contains_key(hash) { Some(self@[hash]) } else { None },
    {
        match self.table.get(&hash) {
            Some(e) => Some(*e),
            None => None,
        }
    }

    /// The cached score for `hash`, if the position was searched at least
    /// `min_depth` deep; a shallower entry counts as a miss.
    pub fn lookup(&self, hash: u64, min_depth: usize) -> (found: Option<Score>)
        ensures
            found == lookup_in(self@, hash, min_depth),
    {
        match self.table.get(&hash) {
            Some(e) => if e.depth >= min_depth { Some(e.score) } else { None },
            None => None,
        }
    }

    /// Offers `(depth, score)` for `hash`. A shallower or equally deep
    /// result never replaces what is stored.
    pub fn store(&mut self, hash: u64, depth: usize, score: Score)
        ensures
            final(self)@ == store_in(old(self)@, hash, depth, score),
    {
        let keep = match self.table.get(&hash) {
            Some(e) => e.depth >= depth,
            None => false,
        };
        if !keep {
            self.table.insert(hash, TranspositionEntry { depth, score });
        }
    }
}

} // verus!
