use abdada::state::fen::check_placement;

#[test]
fn a_full_board_with_two_kings_is_well_shaped() {
    assert!(check_placement("rnbqkbnr/pppppppp/8/8/8/8/PPPPPPPP/RNBQKBNR w KQkq - 0 1"));
    assert!(check_placement("rnbqkbnr/pppppppp/8/8/8/8/PPPPPPPP/RNBQKBNR"));
    assert!(check_placement("k7/8/8/8/8/8/8/K7 b - - 0 1"));
    assert!(check_placement("4k3/8/8/8/8/8/8/4K3 anything may follow the field"));
    assert!(check_placement("1k1p1p1p/8/8/p1p1p1p1/8/8/8/K3R2R w"));
}

#[test]
fn the_field_needs_eight_ranks() {
    assert!(!check_placement(""));
    assert!(!check_placement(" w - - 0 1"));
    assert!(!check_placement("k7/8/8/8/8/8/K7 w - - 0 1"));
    assert!(!check_placement("k7/8/8/8/8/8/8/8/K7 w - - 0 1"));
    assert!(!check_placement("k7/8/8/8/8/8/8/K7/ w - - 0 1"));
}

#[test]
fn a_rank_needs_eight_files() {
    assert!(!check_placement("k6/8/8/8/8/8/8/K7 w - - 0 1"));
    assert!(!check_placement("k8/8/8/8/8/8/8/K7 w - - 0 1"));
    assert!(!check_placement("k7/8/8/44p/8/8/8/K7 w - - 0 1"));
    assert!(!check_placement("k7/8/8/8/8/8/8/K6 w - - 0 1"));
    assert!(!check_placement("k7//8/8/8/8/8/K7 w - - 0 1"));
}

#[test]
fn each_side_needs_its_one_king() {
    assert!(!check_placement("8/8/8/8/8/8/8/8 w - - 0 1"));
    assert!(!check_placement("k7/8/8/8/8/8/8/8 w - - 0 1"));
    assert!(!check_placement("8/8/8/8/8/8/8/K7 w - - 0 1"));
    assert!(!check_placement("kk6/8/8/8/8/8/8/K7 w - - 0 1"));
    assert!(!check_placement("k7/8/8/8/8/8/8/K6K w - - 0 1"));
}

#[test]
fn only_pieces_digits_and_strokes_belong_in_the_field() {
    assert!(!check_placement("k7/8/8/8/8/8/8/K6x w - - 0 1"));
    assert!(!check_placement("k7/8/8/8/8/8/8/K60 w - - 0 1"));
    assert!(!check_placement("k7/8/8/8/8/8/8/K69 w - - 0 1"));
    assert!(!check_placement("k7/8/8/8/8/8/8/K7\n"));
    assert!(!check_placement("k7/8/8/8/8/8/8/K6\u{265a} w"));
}

#[test]
fn a_side_has_at_most_sixteen_men() {
    assert!(check_placement("knnnnnnn/nnnnnnnn/8/8/8/8/NNNNNNNN/KNNNNNNN w - - 0 1"));
    assert!(!check_placement("knnnnnnn/nnnnnnnn/8/8/8/7N/NNNNNNNN/KNNNNNNN w - - 0 1"));
    assert!(!check_placement("knnnnnnn/nnnnnnnn/n7/8/8/8/NNNNNNNN/KNNNNNNN w - - 0 1"));
    assert!(!check_placement("7k/8/8/8/NNNNNNNN/NNNNNNNN/NNNNNNNN/K7 w - - 0 1"));
    assert!(!check_placement("qqqqqqqq/qqqqqqqq/q6k/8/8/8/8/K7 w - - 0 1"));
}
