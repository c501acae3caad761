use abdada::engine::engine::{minimax_naive_recurse, Engine, SearchError};
use abdada::engine::session::SearchSession;
use abdada::evaluators::null::NullEval;
use abdada::score::Score;
use abdada::state::state::{Move, State, StateEval};

/// A step to the left (0) or right (1) child.
#[derive(Clone, Copy, Debug, PartialEq, Eq)]
struct Step(u8);

impl Move for Step {
    fn valid(self) -> bool {
        unreachable!()
    }

    fn is_valid(self) -> bool {
        self.0 < 2
    }

    fn same(self, other: Self) -> bool {
        self == other
    }
}

/// A node of the complete binary tree of height 3, numbered as in a heap:
/// 0 is the root, 7 to 14 are the leaves. Any other number is no node.
#[derive(Clone, Copy, Debug, PartialEq, Eq)]
struct Node(u64);

impl vstd::view::View for Node {
    type V = Node;

    fn view(&self) -> Node {
        unreachable!()
    }
}

impl State<Step> for Node {
    fn legal(_position: Node) -> bool {
        unreachable!()
    }

    fn notation(_position: Node) -> vstd::seq::Seq<char> {
        unreachable!()
    }

    fn key(_position: Node) -> u64 {
        unreachable!()
    }

    fn moves(_position: Node) -> vstd::seq::Seq<Step> {
        unreachable!()
    }

    fn after(_position: Node, _movement: Step) -> Node {
        unreachable!()
    }

    fn is_valid(&self) -> bool {
        self.0 < 15
    }

    fn format(&self) -> String {
        format!("{}", self.0)
    }

    fn hash(&self) -> u64 {
        self.0
    }

    fn make_move(&self, movement: Step) -> Node {
        Node(2 * self.0 + 1 + movement.0 as u64)
    }

    fn legal_moves(&self) -> Vec<Step> {
        if self.0 < 7 {
            vec![Step(0), Step(1)]
        } else {
            Vec::new()
        }
    }
}

/// Scores a leaf by a table and an inner node by its number.
struct Leaves([Score; 8]);

impl StateEval<Step, Node> for Leaves {
    fn value(&self, _position: Node) -> Score {
        unreachable!()
    }

    fn evaluate(&self, state: &Node) -> Score {
        if state.0 >= 7 && state.0 < 15 {
            self.0[(state.0 - 7) as usize]
        } else {
            100 + state.0 as Score
        }
    }
}

struct TreeEngine(Node);

impl Engine<Step, Node> for TreeEngine {
    fn position(&self) -> Node {
        unreachable!()
    }

    fn state(&self) -> Node {
        self.0
    }
}

const TABLE: [Score; 8] = [3, 5, 2, 9, 0, 7, 4, 6];

#[test]
fn minimax_on_a_binary_tree() {
    let leaves = Leaves(TABLE);
    // max(min(max(3,5), max(2,9)), min(max(0,7), max(4,6))) = max(5, 6)
    assert_eq!(minimax_naive_recurse(&leaves, 3, true, Node(0)), 6);
    // min(max(min(3,5), min(2,9)), max(min(0,7), min(4,6))) = min(3, 4)
    assert_eq!(minimax_naive_recurse(&leaves, 3, false, Node(0)), 3);
    // two plies from node 1: max(min(3,5), min(2,9))
    assert_eq!(minimax_naive_recurse(&leaves, 2, true, Node(1)), 3);
    // a search deeper than the tree stops at the leaves
    assert_eq!(minimax_naive_recurse(&leaves, 9, true, Node(0)), 6);
}

#[test]
fn a_shallow_search_scores_the_inner_nodes() {
    let leaves = Leaves(TABLE);
    let engine = TreeEngine(Node(0));
    assert_eq!(engine.minimax_naive(&leaves, 0, true), Ok(100));
    // the children of the root are the nodes 1 and 2
    assert_eq!(engine.minimax_naive(&leaves, 1, true), Ok(102));
    assert_eq!(engine.minimax_naive(&leaves, 1, false), Ok(101));
    // two plies: max(min(103, 104), min(105, 106))
    assert_eq!(engine.minimax_naive(&leaves, 2, true), Ok(105));
    assert_eq!(engine.search_parallel(&leaves, 1, 1), Ok(102));
    assert_eq!(engine.search_parallel(&leaves, 2, 1), Ok(105));
}

#[test]
fn four_workers_agree_with_minimax_on_a_binary_tree() {
    let leaves = Leaves(TABLE);
    let engine = TreeEngine(Node(0));
    let exhaustive = engine.minimax_naive(&leaves, 3, true);
    assert_eq!(exhaustive, Ok(6));
    assert_eq!(engine.search_parallel(&leaves, 3, 4), exhaustive);
    assert_eq!(engine.abdada(&leaves, 3), exhaustive);
}

#[test]
fn any_number_of_workers_agrees_with_minimax() {
    let engine = TreeEngine(Node(0));
    let mut seed: u64 = 0x2545_f491_4f6c_dd1d;
    for _ in 0..200 {
        let mut table = [0 as Score; 8];
        for slot in table.iter_mut() {
            seed = seed.wrapping_mul(6364136223846793005).wrapping_add(1442695040888963407);
            *slot = ((seed >> 33) % 21) as Score - 10;
        }
        let leaves = Leaves(table);
        for depth in 1..=3 {
            let exhaustive = engine.minimax_naive(&leaves, depth, true);
            for workers in [1, 2, 4, 8] {
                assert_eq!(engine.search_parallel(&leaves, depth, workers), exhaustive);
            }
        }
    }
}

#[test]
fn a_position_that_is_not_legal_is_refused() {
    let leaves = Leaves(TABLE);
    let engine = TreeEngine(Node(15));
    assert_eq!(engine.minimax_naive(&leaves, 2, true), Err(SearchError::InvalidPosition));
    assert_eq!(engine.abdada(&leaves, 2), Err(SearchError::InvalidPosition));
    assert_eq!(engine.search_parallel(&leaves, 0, 0), Err(SearchError::InvalidPosition));
    assert!(SearchSession::new(Leaves(TABLE), Node(15), 2).is_err());
}

#[test]
fn the_cache_has_nothing_to_give_where_nothing_was_searched() {
    let leaves = Leaves(TABLE);
    let engine = TreeEngine(Node(0));
    // depth 0
    assert_eq!(engine.abdada(&leaves, 0), Err(SearchError::CacheFailure));
    // no worker
    assert_eq!(engine.search_parallel(&leaves, 3, 0), Err(SearchError::CacheFailure));
    // a leaf has no moves
    assert_eq!(TreeEngine(Node(7)).abdada(&leaves, 3), Err(SearchError::CacheFailure));
    assert_eq!(TreeEngine(Node(7)).minimax_naive(&leaves, 3, true), Ok(3));
}

#[test]
fn a_position_without_moves_is_worth_its_score() {
    let leaves = Leaves(TABLE);
    for depth in 0..5 {
        assert_eq!(TreeEngine(Node(10)).minimax_naive(&leaves, depth, true), Ok(9));
        assert_eq!(TreeEngine(Node(10)).minimax_naive(&leaves, depth, false), Ok(9));
    }
}

#[test]
fn the_zero_evaluator_gives_zero() {
    let engine = TreeEngine(Node(0));
    for depth in 0..5 {
        assert_eq!(engine.minimax_naive(&NullEval, depth, true), Ok(0));
        assert_eq!(engine.minimax_naive(&NullEval, depth, false), Ok(0));
    }
    for depth in 1..5 {
        assert_eq!(engine.abdada(&NullEval, depth), Ok(0));
    }
}

#[test]
fn a_session_answers_when_its_workers_are_done() {
    let session = match SearchSession::new(Leaves(TABLE), Node(0), 3) {
        Ok(session) => session,
        Err(_) => panic!("the root is a node of the tree"),
    };
    // before any worker the cache is empty
    assert_eq!(session.outcome(), Err(SearchError::CacheFailure));
    for _ in 0..4 {
        assert_eq!(session.work(), 6);
    }
    assert_eq!(session.outcome(), Ok(6));
}

/// A move to the node that it names.
#[derive(Clone, Copy, Debug, PartialEq, Eq)]
struct To(u64);

impl Move for To {
    fn valid(self) -> bool {
        unreachable!()
    }

    fn is_valid(self) -> bool {
        true
    }

    fn same(self, other: Self) -> bool {
        self == other
    }
}

/// A node of a small game in which one position can be reached in two
/// ways: node 6 is a child of node 2 and of node 3.
///
/// ```text
/// 0 -- 1 -- 4 -- 8
///   -- 2 -- 5 -- 9
///        -- 6 -- 10, 11
///   -- 3 -- 6
///        -- 7 -- 12, 13
/// ```
#[derive(Clone, Copy, Debug, PartialEq, Eq)]
struct Spot(u64);

impl vstd::view::View for Spot {
    type V = Spot;

    fn view(&self) -> Spot {
        unreachable!()
    }
}

impl State<To> for Spot {
    fn legal(_position: Spot) -> bool {
        unreachable!()
    }

    fn notation(_position: Spot) -> vstd::seq::Seq<char> {
        unreachable!()
    }

    fn key(_position: Spot) -> u64 {
        unreachable!()
    }

    fn moves(_position: Spot) -> vstd::seq::Seq<To> {
        unreachable!()
    }

    fn after(_position: Spot, _movement: To) -> Spot {
        unreachable!()
    }

    fn is_valid(&self) -> bool {
        self.0 < 14
    }

    fn format(&self) -> String {
        format!("{}", self.0)
    }

    fn hash(&self) -> u64 {
        self.0
    }

    fn make_move(&self, movement: To) -> Spot {
        Spot(movement.0)
    }

    fn legal_moves(&self) -> Vec<To> {
        match self.0 {
            0 => vec![To(1), To(2), To(3)],
            1 => vec![To(4)],
            2 => vec![To(5), To(6)],
            3 => vec![To(6), To(7)],
            4 => vec![To(8)],
            5 => vec![To(9)],
            6 => vec![To(10), To(11)],
            7 => vec![To(12), To(13)],
            _ => Vec::new(),
        }
    }
}

/// Scores the ends of the small game.
struct Ends;

impl StateEval<To, Spot> for Ends {
    fn value(&self, _position: Spot) -> Score {
        unreachable!()
    }

    fn evaluate(&self, state: &Spot) -> Score {
        match state.0 {
            8 => 1,
            9 => 2,
            10 => 3,
            11 => 10,
            12 => 5,
            13 => 5,
            _ => 0,
        }
    }
}

struct SpotEngine(Spot);

impl Engine<To, Spot> for SpotEngine {
    fn position(&self) -> Spot {
        unreachable!()
    }

    fn state(&self) -> Spot {
        self.0
    }
}

#[test]
fn a_cut_off_result_met_again_counts_as_the_value() {
    let engine = SpotEngine(Spot(0));
    // node 1 is worth 1, node 2 min(2, max(3, 10)) = 2, node 3 min(max(3, 10), 5) = 5
    assert_eq!(engine.minimax_naive(&Ends, 3, true), Ok(5));
    // Below node 2 the search of node 6 stops at its first child, 3, which
    // is enough there, and the cache keeps 3 for node 6. Below node 3 the
    // cache answers 3 for node 6, and node 3 comes out as 3.
    assert_eq!(engine.search_parallel(&Ends, 3, 1), Ok(3));
    // Without the transposition the searches agree. From node 3 alone, with
    // node 3 to maximize: max(min(3, 10), min(5, 5))
    assert_eq!(SpotEngine(Spot(3)).minimax_naive(&Ends, 2, true), Ok(5));
    assert_eq!(SpotEngine(Spot(3)).search_parallel(&Ends, 2, 4), Ok(5));
}
