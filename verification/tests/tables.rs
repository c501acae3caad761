use abdada::engine::cache::{TranspositionCache, TranspositionEntry};
use abdada::engine::engine::{defer_move, finished_search, starting_search, DEFER_DEPTH, NUM_THREADS};
use abdada::engine::inflight::InFlightSet;
use abdada::engine::window::Window;
use abdada::score::{pick, SCORE_MAX, SCORE_MIN};
use abdada::state::board::ChessMoveWrapper;

fn step(source: u8, dest: u8) -> ChessMoveWrapper {
    ChessMoveWrapper { source, dest, promotion: None }
}

#[test]
fn a_shallower_result_does_not_replace_a_deeper_one() {
    let hash: u64 = 0x1234_5678_9abc_def0;
    let mut cache = TranspositionCache::new();
    cache.store(hash, 2, 5);
    cache.store(hash, 1, 1);
    assert_eq!(cache.lookup(hash, 0), Some(5));
    assert_eq!(cache.entry(hash), Some(TranspositionEntry { depth: 2, score: 5 }));
}

#[test]
fn an_equally_deep_result_does_not_replace_either() {
    let mut cache = TranspositionCache::new();
    cache.store(7, 2, 5);
    cache.store(7, 2, 9);
    assert_eq!(cache.entry(7), Some(TranspositionEntry { depth: 2, score: 5 }));
}

#[test]
fn a_deeper_result_replaces_a_shallower_one() {
    let mut cache = TranspositionCache::new();
    cache.store(7, 2, 5);
    cache.store(7, 3, -4);
    assert_eq!(cache.entry(7), Some(TranspositionEntry { depth: 3, score: -4 }));
    assert_eq!(cache.lookup(7, 3), Some(-4));
}

#[test]
fn a_probe_wants_its_depth() {
    let mut cache = TranspositionCache::new();
    assert_eq!(cache.lookup(7, 0), None);
    assert_eq!(cache.entry(7), None);
    cache.store(7, 2, 5);
    assert_eq!(cache.lookup(7, 0), Some(5));
    assert_eq!(cache.lookup(7, 2), Some(5));
    assert_eq!(cache.lookup(7, 3), None);
    assert_eq!(cache.lookup(8, 0), None);
}

#[test]
fn keys_do_not_touch_each_other() {
    let mut cache = TranspositionCache::new();
    cache.store(1, 4, 10);
    cache.store(2, 1, 20);
    cache.store(1, 2, 30);
    cache.store(2, 2, 40);
    assert_eq!(cache.entry(1), Some(TranspositionEntry { depth: 4, score: 10 }));
    assert_eq!(cache.entry(2), Some(TranspositionEntry { depth: 2, score: 40 }));
}

#[test]
fn a_set_of_moves_is_a_set() {
    let mut set = InFlightSet::new();
    assert!(!set.contains(step(1, 2)));
    set.insert(step(1, 2));
    set.insert(step(1, 2));
    set.insert(step(3, 4));
    assert!(set.contains(step(1, 2)));
    assert!(set.contains(step(3, 4)));
    assert!(!set.contains(step(2, 1)));
    set.remove(step(1, 2));
    assert!(!set.contains(step(1, 2)));
    assert!(set.contains(step(3, 4)));
    set.remove(step(9, 9));
    assert!(set.contains(step(3, 4)));
}

#[test]
fn the_constants_are_what_they_are() {
    assert_eq!(DEFER_DEPTH, 2);
    assert_eq!(NUM_THREADS, 4);
}

#[test]
fn no_move_is_put_off_below_the_deferral_depth() {
    let mut set = InFlightSet::new();
    set.insert(step(1, 2));
    assert!(!defer_move(step(1, 2), 0, &set));
    assert!(!defer_move(step(1, 2), 1, &set));
    assert!(defer_move(step(1, 2), 2, &set));
    assert!(defer_move(step(1, 2), 7, &set));
    assert!(!defer_move(step(3, 4), 2, &set));
}

#[test]
fn a_claim_is_recorded_at_every_depth() {
    let mut set = InFlightSet::new();
    starting_search(step(1, 2), 1, &mut set);
    assert!(set.contains(step(1, 2)));
    starting_search(step(3, 4), 0, &mut set);
    assert!(set.contains(step(3, 4)));
    starting_search(step(5, 6), 2, &mut set);
    assert!(set.contains(step(5, 6)));
    // the threshold is in the question alone
    assert!(!defer_move(step(1, 2), 1, &set));
    assert!(defer_move(step(1, 2), 2, &set));
    assert!(defer_move(step(5, 6), 3, &set));
}

#[test]
fn a_release_takes_the_claim_away_at_every_depth() {
    let mut set = InFlightSet::new();
    starting_search(step(1, 2), 2, &mut set);
    starting_search(step(3, 4), 2, &mut set);
    finished_search(step(1, 2), 1, &mut set);
    assert!(!set.contains(step(1, 2)));
    assert!(set.contains(step(3, 4)));
    assert!(!defer_move(step(1, 2), 2, &set));
    finished_search(step(3, 4), 5, &mut set);
    assert!(!set.contains(step(3, 4)));
    // releasing what is not claimed changes nothing
    finished_search(step(3, 4), 0, &mut set);
    assert!(!set.contains(step(3, 4)));
}

#[test]
fn the_better_score_depends_on_the_side() {
    assert_eq!(pick(true, 3, 5), 5);
    assert_eq!(pick(true, 5, 3), 5);
    assert_eq!(pick(false, 3, 5), 3);
    assert_eq!(pick(false, 5, 3), 3);
    assert_eq!(pick(true, SCORE_MIN, -7), -7);
    assert_eq!(pick(false, SCORE_MAX, -7), -7);
}

#[test]
fn the_maximizing_side_raises_alpha_and_stops_at_beta() {
    let open = Window::open(true, -10, 10);
    assert_eq!((open.best, open.alpha, open.beta, open.cut), (SCORE_MIN, -10, 10, false));
    let low = open.absorb(true, -20);
    assert_eq!((low.best, low.alpha, low.beta, low.cut), (-20, -10, 10, false));
    let mid = low.absorb(true, 4);
    assert_eq!((mid.best, mid.alpha, mid.beta, mid.cut), (4, 4, 10, false));
    let same = mid.absorb(true, 1);
    assert_eq!((same.best, same.alpha, same.beta, same.cut), (4, 4, 10, false));
    let met = same.absorb(true, 10);
    assert_eq!((met.best, met.beta, met.cut), (10, 10, true));
}

#[test]
fn the_minimizing_side_lowers_beta_and_stops_at_alpha() {
    let open = Window::open(false, -10, 10);
    assert_eq!((open.best, open.alpha, open.beta, open.cut), (SCORE_MAX, -10, 10, false));
    let high = open.absorb(false, 20);
    assert_eq!((high.best, high.alpha, high.beta, high.cut), (20, -10, 10, false));
    let mid = high.absorb(false, 4);
    assert_eq!((mid.best, mid.alpha, mid.beta, mid.cut), (4, -10, 4, false));
    let met = mid.absorb(false, -10);
    assert_eq!((met.best, met.alpha, met.cut), (-10, -10, true));
}
