use abdada::engine::chess_engine::ChessEngine;
use abdada::engine::engine::{Engine, SearchError};
use abdada::evaluators::end::check_end_pos;
use abdada::evaluators::naive::{weight, NaiveEval};
use abdada::evaluators::null::NullEval;
use abdada::score::{SCORE_MAX, SCORE_MIN};
use abdada::state::board::{find_move, ChessBoard, ChessMoveWrapper, GameStatus};
use abdada::state::state::{Move, State, StateEval};

const START: &str = "rnbqkbnr/pppppppp/8/8/8/8/PPPPPPPP/RNBQKBNR w KQkq - 0 1";

fn board(fen: &str) -> ChessBoard {
    ChessBoard::from_str(fen.to_string()).unwrap()
}

#[test]
fn naive_eval_white_winning() {
    let engine = ChessEngine::from_str(
        "Q5nr/p2qpkbp/1p1p1pp1/2p1N3/2P1P3/P1N1B2P/1PP2PP1/2KR3R b - - 0 14".to_string(),
    )
    .unwrap();
    assert!(engine.minimax_naive(&NaiveEval, 1, true).unwrap() as f64 > 0.0);
    assert!(engine.minimax_naive(&NaiveEval, 2, true).unwrap() as f64 > 0.0);
}

#[test]
fn null_eval_always_zero_minimax_naive() {
    let engine = ChessEngine::new();
    assert!(engine.minimax_naive(&NullEval, 0, true).unwrap() as f64 == 0.0);
    assert!(engine.minimax_naive(&NullEval, 1, true).unwrap() as f64 == 0.0);
    assert!(engine.minimax_naive(&NullEval, 2, true).unwrap() as f64 == 0.0);
}

#[test]
fn null_eval_always_zero_abdada() {
    let engine = ChessEngine::new();
    assert!(engine.abdada(&NullEval, 1).unwrap() as f64 == 0.0);
    assert!(engine.abdada(&NullEval, 2).unwrap() as f64 == 0.0);
}

#[test]
fn deterministic_hash() {
    let engine = ChessEngine::new();
    assert!(engine.board.hash() == engine.board.hash());
    let hash_1: u64 = engine.board.hash();

    let engine = ChessEngine::new();
    assert!(engine.board.hash() == engine.board.hash());
    let hash_2: u64 = engine.board.hash();

    assert!(hash_1 == hash_2);
}

#[test]
fn the_game_starts_at_the_starting_position() {
    let engine = ChessEngine::new();
    assert_eq!(engine.board.format(), START);
    assert_eq!(ChessBoard::default().format(), START);
    assert!(engine.board.is_valid());
    assert!(engine.board.white_to_move());
    assert_eq!(engine.board.status(), GameStatus::Ongoing);
}

#[test]
fn a_position_is_kept_as_the_rules_print_it() {
    let text = "Q5nr/p2qpkbp/1p1p1pp1/2p1N3/2P1P3/P1N1B2P/1PP2PP1/2KR3R b - - 0 14";
    assert_eq!(
        board(text).format(),
        "Q5nr/p2qpkbp/1p1p1pp1/2p1N3/2P1P3/P1N1B2P/1PP2PP1/2KR3R b - - 0 1"
    );
    assert_eq!(board(START).hash(), ChessBoard::default().hash());
}

#[test]
fn texts_that_describe_no_position_are_refused() {
    // no kings at all
    assert!(ChessBoard::from_str("8/8/8/8/8/8/8/8 w - - 0 1".to_string()).is_none());
    // a ninth rank
    assert!(ChessBoard::from_str(
        "rnbqkbnr/pppppppp/8/8/8/8/PPPPPPPP/RNBQKBNR/8 w KQkq - 0 1".to_string()
    )
    .is_none());
    // a rank of nine files
    assert!(ChessBoard::from_str(
        "rnbqkbnr/pppppppp/9/8/8/8/PPPPPPPP/RNBQKBNR w KQkq - 0 1".to_string()
    )
    .is_none());
    // two white kings
    assert!(ChessBoard::from_str("k7/8/8/8/8/8/8/K6K w - - 0 1".to_string()).is_none());
    // a letter that names no piece
    assert!(ChessBoard::from_str("k7/8/8/8/8/8/8/K6x w - - 0 1".to_string()).is_none());
    // more men than a side can have
    assert!(ChessBoard::from_str(
        "7k/8/8/8/NNNNNNNN/NNNNNNNN/NNNNNNNN/K7 w - - 0 1".to_string()
    )
    .is_none());
    assert!(ChessBoard::from_str("k7/8/8/8/8/8/PPPPPPPP/RNBQKBNRN w - - 0 1".to_string())
        .is_none());
    assert!(ChessBoard::from_str("k7/8/8/8/8/7N/PPPPPPPP/RNBQKBNR w - - 0 1".to_string())
        .is_none());
    assert!(ChessBoard::from_str("knnnnnnn/nnnnnnnn/n7/8/8/8/8/K7 w - - 0 1".to_string())
        .is_none());
    // well shaped, but the side that is not to move is in check
    assert!(ChessBoard::from_str("k7/8/8/8/8/8/8/K6r b - - 0 1".to_string()).is_none());
    // well shaped, but nothing says who is to move
    assert!(ChessBoard::from_str("k7/8/8/8/8/8/8/K7".to_string()).is_none());
    assert!(ChessBoard::from_str(String::new()).is_none());
    assert!(ChessEngine::from_str("8/8/8/8/8/8/8/8 w - - 0 1".to_string()).is_none());
}

#[test]
fn update_fen_moves_the_engine_or_leaves_it() {
    let mut engine = ChessEngine::new();
    assert!(!engine.update_fen("not a position".to_string()));
    assert_eq!(engine.board.format(), START);
    assert!(engine.update_fen("k7/8/8/8/8/8/8/K6R w - - 0 1".to_string()));
    assert_eq!(engine.board.format(), "k7/8/8/8/8/8/8/K6R w - - 0 1");
    assert_eq!(engine.state().format(), "k7/8/8/8/8/8/8/K6R w - - 0 1");
}

#[test]
fn the_starting_position_has_twenty_moves() {
    let start = ChessBoard::default();
    let moves = start.legal_moves();
    assert_eq!(moves.len(), 20);
    assert!(moves.iter().all(|m| m.is_valid()));
    // e2 is square 12 and e4 square 28
    let e2e4 = ChessMoveWrapper { source: 12, dest: 28, promotion: None };
    assert!(moves.iter().any(|m| m.same(e2e4)));
    let e2e5 = ChessMoveWrapper { source: 12, dest: 36, promotion: None };
    assert!(!moves.iter().any(|m| m.same(e2e5)));
}

#[test]
fn making_a_move_gives_a_new_position() {
    let start = ChessBoard::default();
    let e2e4 = ChessMoveWrapper { source: 12, dest: 28, promotion: None };
    let next = start.make_move(e2e4);
    assert_eq!(next.format(), "rnbqkbnr/pppppppp/8/8/4P3/8/PPPP1PPP/RNBQKBNR b KQkq - 0 1");
    assert_eq!(start.format(), START);
    assert!(!next.white_to_move());
    assert!(next.hash() != start.hash());
    assert_eq!(next.clone().format(), next.format());
}

#[test]
fn a_move_that_is_not_legal_changes_nothing() {
    let start = ChessBoard::default();
    let e2e5 = ChessMoveWrapper { source: 12, dest: 36, promotion: None };
    assert_eq!(start.make_move(e2e5).format(), START);
}

#[test]
fn a_move_that_leaves_no_board_changes_nothing() {
    // The white king stands where the pawn on d5 would land if it took the
    // pawn on e5 in passing.
    let odd = board("k7/8/4K3/3Pp3/8/8/8/8 w - e6 0 1");
    let before = odd.format();
    for movement in odd.legal_moves() {
        let next = odd.make_move(movement);
        assert!(ChessBoard::from_str(next.format()).is_some());
    }
    // d5 is square 35 and e6 square 44
    let in_passing = ChessMoveWrapper { source: 35, dest: 44, promotion: None };
    assert_eq!(odd.make_move(in_passing).format(), before);
}

#[test]
fn a_side_may_have_sixteen_men() {
    let full = board("knnnnnnn/nnnnnnnn/8/8/8/8/NNNNNNNN/KNNNNNNN w - - 0 1");
    assert_eq!(full.piece_count(true, 1), 15);
    assert_eq!(full.piece_count(false, 1), 15);
    assert!(full.legal_moves().len() > 0);
    assert_eq!(full.status(), GameStatus::Ongoing);
}

#[test]
fn a_move_is_found_by_its_first_place() {
    let a = ChessMoveWrapper { source: 1, dest: 2, promotion: None };
    let b = ChessMoveWrapper { source: 3, dest: 4, promotion: Some(4) };
    let c = ChessMoveWrapper { source: 3, dest: 4, promotion: Some(1) };
    let moves = vec![a, b, a, b];
    assert_eq!(find_move(&moves, a), Some(0));
    assert_eq!(find_move(&moves, b), Some(1));
    assert_eq!(find_move(&moves, c), None);
    assert_eq!(find_move(&Vec::new(), a), None);
    let start = ChessBoard::default();
    let legal = start.legal_moves();
    for (place, movement) in legal.iter().enumerate() {
        assert_eq!(find_move(&legal, *movement), Some(place));
    }
}

#[test]
fn an_engine_keeps_its_cache() {
    let mut engine = ChessEngine::new();
    assert_eq!(engine.cache.entry(engine.board.hash()), None);
    assert_eq!(engine.cache.lookup(0, 0), None);
    engine.cache.store(17, 3, -2);
    assert!(engine.update_fen("k7/8/8/8/8/8/8/K6R w - - 0 1".to_string()));
    assert_eq!(engine.cache.lookup(17, 3), Some(-2));
    assert!(!engine.update_fen("nothing".to_string()));
    assert_eq!(engine.cache.lookup(17, 3), Some(-2));
    // the searches leave it alone
    assert_eq!(engine.abdada(&NaiveEval, 1), Ok(5));
    assert_eq!(engine.cache.entry(engine.board.hash()), None);
    let other = ChessEngine::from_str("k7/8/8/8/8/8/8/K6R w - - 0 1".to_string()).unwrap();
    assert_eq!(other.cache.lookup(17, 0), None);
}

#[test]
fn a_pawn_on_the_seventh_promotes() {
    let before = board("7k/P7/8/8/8/8/8/K7 w - - 0 1");
    let moves = before.legal_moves();
    // a7 is square 48 and a8 square 56; piece 4 is the queen
    let queen = ChessMoveWrapper { source: 48, dest: 56, promotion: Some(4) };
    let knight = ChessMoveWrapper { source: 48, dest: 56, promotion: Some(1) };
    assert!(moves.iter().any(|m| m.same(queen)));
    assert!(moves.iter().any(|m| m.same(knight)));
    assert!(!queen.same(knight));
    assert_eq!(before.make_move(queen).format(), "Q6k/8/8/8/8/8/8/K7 b - - 0 1");
    assert_eq!(before.make_move(knight).format(), "N6k/8/8/8/8/8/8/K7 b - - 0 1");
}

#[test]
fn pieces_are_counted_by_side_and_kind() {
    let start = ChessBoard::default();
    assert_eq!(start.piece_count(true, 0), 8);
    assert_eq!(start.piece_count(false, 0), 8);
    assert_eq!(start.piece_count(true, 1), 2);
    assert_eq!(start.piece_count(true, 4), 1);
    assert_eq!(start.piece_count(false, 5), 1);
    let few = board("k7/8/8/8/8/8/8/K2QR2R w - - 0 1");
    assert_eq!(few.piece_count(true, 3), 2);
    assert_eq!(few.piece_count(true, 4), 1);
    assert_eq!(few.piece_count(false, 3), 0);
    assert_eq!(few.piece_count(false, 0), 0);
    assert_eq!(few.piece_count(true, 6), 0);
}

#[test]
fn pieces_have_their_weights() {
    assert_eq!(weight(0), 1);
    assert_eq!(weight(1), 3);
    assert_eq!(weight(2), 3);
    assert_eq!(weight(3), 5);
    assert_eq!(weight(4), 9);
    assert_eq!(weight(5), 10000);
    assert_eq!(weight(6), 0);
}

#[test]
fn material_is_white_less_black() {
    assert_eq!(NaiveEval.evaluate(&ChessBoard::default()), 0);
    // white: queen 9 and two rooks 10; black: nothing but the king
    assert_eq!(NaiveEval.evaluate(&board("k7/8/8/8/8/8/8/K2QR2R w - - 0 1")), 19);
    // white: a pawn; black: knight 3, bishop 3 and two pawns
    assert_eq!(NaiveEval.evaluate(&board("k1nb4/pp6/8/8/8/8/P7/K7 w - - 0 1")), 1 - 8);
    assert_eq!(
        NaiveEval.evaluate(&board(
            "Q5nr/p2qpkbp/1p1p1pp1/2p1N3/2P1P3/P1N1B2P/1PP2PP1/2KR3R b - - 0 14"
        )),
        // white: Q 9, R R 10, B 3, N N 6, eight pawns; black: Q 9, R 5, B 3, N 3, eight
        36 - 28
    );
    assert_eq!(StateEval::<ChessMoveWrapper, ChessBoard>::evaluate(&NullEval, &board(START)), 0);
}

#[test]
fn a_finished_game_has_its_score() {
    assert_eq!(check_end_pos(&ChessBoard::default()), None);
    // fool's mate: White is mated
    let mated = board("rnb1kbnr/pppp1ppp/8/4p3/6Pq/5P2/PPPPP2P/RNBQKBNR w KQkq - 1 3");
    assert_eq!(mated.status(), GameStatus::Checkmate);
    assert!(mated.white_to_move());
    assert_eq!(check_end_pos(&mated), Some(SCORE_MIN));
    assert_eq!(mated.legal_moves().len(), 0);
    // Black is mated on the back rank
    let black_mated = board("R5k1/5ppp/8/8/8/8/8/K7 b - - 0 1");
    assert_eq!(black_mated.status(), GameStatus::Checkmate);
    assert_eq!(check_end_pos(&black_mated), Some(SCORE_MAX));
    // Black has no move and is not in check
    let stale = board("k7/8/1Q6/8/8/8/8/K7 b - - 0 1");
    assert_eq!(stale.status(), GameStatus::Stalemate);
    assert_eq!(check_end_pos(&stale), Some(0));
}

#[test]
fn a_search_from_a_finished_game_scores_the_position() {
    let engine =
        ChessEngine::from_str("k7/8/1Q6/8/8/8/8/K7 b - - 0 1".to_string()).unwrap();
    assert_eq!(engine.minimax_naive(&NaiveEval, 0, true), Ok(9));
    assert_eq!(engine.minimax_naive(&NaiveEval, 3, true), Ok(9));
    assert_eq!(engine.minimax_naive(&NaiveEval, 3, false), Ok(9));
    // nothing is written to the cache where there is no move to search
    assert_eq!(engine.abdada(&NaiveEval, 3), Err(SearchError::CacheFailure));
}

#[test]
fn one_ply_takes_the_best_capture() {
    // White to move can take the queen on d8 with the rook on d1
    let engine =
        ChessEngine::from_str("3qk3/8/8/8/8/8/8/K2R4 w - - 0 1".to_string()).unwrap();
    assert_eq!(engine.minimax_naive(&NaiveEval, 0, true), Ok(5 - 9));
    assert_eq!(engine.minimax_naive(&NaiveEval, 1, true), Ok(5));
    assert_eq!(engine.abdada(&NaiveEval, 1), Ok(5));
    assert_eq!(engine.search_parallel(&NaiveEval, 1, 1), Ok(5));
    // and Black takes back with the king
    assert_eq!(engine.minimax_naive(&NaiveEval, 2, true), Ok(0));
}

#[test]
fn the_searches_of_a_chess_position_agree() {
    let engine =
        ChessEngine::from_str("3qk3/8/8/8/8/8/8/K2R4 w - - 0 1".to_string()).unwrap();
    let exhaustive = engine.minimax_naive(&NaiveEval, 2, true);
    assert_eq!(engine.abdada(&NaiveEval, 2), exhaustive);
    assert_eq!(engine.search_parallel(&NaiveEval, 2, 8), exhaustive);
    assert_eq!(engine.search_parallel(&NaiveEval, 2, 0), Err(SearchError::CacheFailure));
    assert_eq!(engine.abdada(&NaiveEval, 0), Err(SearchError::CacheFailure));
}

#[test]
fn a_search_repeats_itself() {
    let engine = ChessEngine::new();
    let first = engine.minimax_naive(&NaiveEval, 2, true);
    let second = engine.minimax_naive(&NaiveEval, 2, true);
    assert_eq!(first, second);
    assert_eq!(first, Ok(0));
}
