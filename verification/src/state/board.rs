//! Chess as a game to search. A position is held as its FEN text; the rules
//! of chess come from the `chess` crate, which is asked anew for every
//! question about a position. Every text that is handed to the crate is a
//! full board with one king and at most sixteen men of each colour.

use vstd::prelude::*;
use std::str::FromStr;
use crate::state::fen::{check_placement, letters, placement_ok, white_to_move_in};
use crate::state::state::{Move, State};

verus! {

/// A chess move: the squares it goes from and to, numbered 0 (a1) to 63
/// (h8), and the piece a pawn turns into, numbered 0 (pawn) to 5 (king),
/// where the move promotes.
#[derive(Clone, Copy, Debug)]
pub struct ChessMoveWrapper {
    pub source: u8,
    pub dest: u8,
    pub promotion: Option<u8>,
}

impl Move for ChessMoveWrapper {
    open spec fn valid(self) -> bool {
        true
    }

    fn is_valid(self) -> (ok: bool) {
        true
    }

    fn same(self, other: Self) -> (equal: bool) {
        let promotion_equal = match (self.promotion, other.promotion) {
            (Some(a), Some(b)) => a == b,
            (None, None) => true,
            _ => false,
        };
        self.source == other.source && self.dest == other.dest && promotion_equal
    }
}

/// The text in which the game starts.
pub open spec fn start_position() -> Seq<char> {
    "rnbqkbnr/pppppppp/8/8/8/8/PPPPPPPP/RNBQKBNR w KQkq - 0 1"@
}

/// What `Board::from_str` makes of `text`, written back as FEN by the
/// board's `Display`: `None` where the text is refused.
pub uninterp spec fn fen_position(text: Seq<char>) -> Option<Seq<char>>;

/// What `Board::is_sane` says of the board that `fen` describes; `false`
/// where `fen` describes none.
pub uninterp spec fn fen_sane(fen: Seq<char>) -> bool;

/// What `Board::get_hash` gives for the board that `fen` describes; 0 where
/// `fen` describes none.
pub uninterp spec fn fen_hash(fen: Seq<char>) -> u64;

/// The moves that `MoveGen::new_legal` yields for the board that `fen`
/// describes, in its order; none where `fen` describes no board.
pub uninterp spec fn fen_moves(fen: Seq<char>) -> Seq<ChessMoveWrapper>;

/// The board that `Board::make_move_new` gives for the move number `index`
/// of `MoveGen::new_legal` on the board that `fen` describes, as the
/// board's `Display` prints it; `fen` itself where there is no such board
/// or no such move.
pub uninterp spec fn fen_after(fen: Seq<char>, index: usize) -> Seq<char>;

/// The position after `movement` in the position `fen`. A move that is not
/// among the legal moves leaves the position as it is. The first legal
/// move that equals `movement` is made; should what comes of it not be
/// readable, the position stays as it is, too.
pub open spec fn chess_after(fen: Seq<char>, movement: ChessMoveWrapper) -> Seq<char> {
    match fen_moves(fen).index_of_first(movement) {
        Some(index) => if readable(fen_after(fen, index as usize)) {
            fen_after(fen, index as usize)
        } else {
            fen
        },
        None => fen,
    }
}

/// How a game stands.
#[derive(Clone, Copy, Debug, PartialEq, Eq, Structural)]
pub enum GameStatus {
    /// The side to move has a legal move.
    Ongoing,
    /// The side to move has no legal move and is not in check.
    Stalemate,
    /// The side to move has no legal move and is in check.
    Checkmate,
}

/// What `Board::status` says of the board that `fen` describes; `Ongoing`
/// where `fen` describes none.
pub uninterp spec fn fen_status(fen: Seq<char>) -> GameStatus;

/// The letter that stands in a FEN text for a man of kind `piece`
/// (0 pawn, 1 knight, 2 bishop, 3 rook, 4 queen, 5 king), a capital for a
/// white man.
pub open spec fn man_letter(white: bool, piece: usize) -> char {
    if piece == 0 {
        if white { 'P' } else { 'p' }
    } else if piece == 1 {
        if white { 'N' } else { 'n' }
    } else if piece == 2 {
        if white { 'B' } else { 'b' }
    } else if piece == 3 {
        if white { 'R' } else { 'r' }
    } else if piece == 4 {
        if white { 'Q' } else { 'q' }
    } else {
        if white { 'K' } else { 'k' }
    }
}

/// Whether `fen` is a text that the library takes for a position: a full
/// board with one king and at most sixteen men of each colour that
/// `Board::from_str` accepts.
pub open spec fn readable(fen: Seq<char>) -> bool {
    placement_ok(fen) && fen_position(fen) is Some
}

/// The position that the library reads from `text`: what `Board::from_str`
/// makes of a well-shaped text, printed, if that is readable in its turn.
pub open spec fn chess_position(text: Seq<char>) -> Option<Seq<char>> {
    if placement_ok(text) && fen_position(text) is Some && readable(fen_position(text)->0) {
        fen_position(text)
    } else {
        None
    }
}

/// Reads a position with `Board::from_str` and prints it with the board's
/// `Display`. Trusted: the result is the named value, and what `Display`
/// prints has eight ranks of eight files with the men of the text that
/// was read, one to a square: no more than sixteen of a colour, and, the
/// board having passed `is_sane`, one king of each.
#[verifier::external_body]
fn parse_position(text: &str) -> (fen: Option<String>)
    requires
        placement_ok(text@),
    ensures
        match fen {
            Some(f) => fen_position(text@) == Some(f@) && placement_ok(f@),
            None => fen_position(text@) is None,
        },
{
    match chess::Board::from_str(text) {
        Ok(board) => Some(format!("{}", board)),
        Err(_) => None,
    }
}

/// Prints `Board::default()` with the board's `Display`. Trusted: that is
/// the starting position as written in [`start_position`]; the board is
/// made by `Board::from_str`, which hands out only boards that pass
/// `is_sane`, from this very text; and `MoveGen::new_legal` finds its 20
/// moves.
#[verifier::external_body]
fn initial_position() -> (fen: String)
    ensures
        fen@ == start_position(),
        placement_ok(fen@),
        fen_position(fen@) == Some(fen@),
        fen_sane(fen@),
        fen_moves(fen@).len() == 20,
{
    format!("{}", chess::Board::default())
}

/// Calls `Board::is_sane`. Trusted: the result is the named value.
#[verifier::external_body]
fn position_sane(fen: &str) -> (sane: bool)
    requires
        placement_ok(fen@),
    ensures
        sane == fen_sane(fen@),
{
    match chess::Board::from_str(fen) {
        Ok(board) => board.is_sane(),
        Err(_) => false,
    }
}

/// Calls `Board::get_hash`. Trusted: the result is the named value. The
/// hash is a function of the position: its tables are fixed when the
/// `chess` crate is built.
#[verifier::external_body]
fn position_hash(fen: &str) -> (hash: u64)
    requires
        placement_ok(fen@),
    ensures
        hash == fen_hash(fen@),
{
    match chess::Board::from_str(fen) {
        Ok(board) => board.get_hash(),
        Err(_) => 0,
    }
}

/// Collects `MoveGen::new_legal`, each move by its squares and promotion.
/// Trusted: the result is the named value. The generator has room for the
/// moves of sixteen men and two captures in passing, which is why no
/// position holds more men of a colour.
#[verifier::external_body]
fn position_moves(fen: &str) -> (moves: Vec<ChessMoveWrapper>)
    requires
        placement_ok(fen@),
    ensures
        moves@ == fen_moves(fen@),
{
    match chess::Board::from_str(fen) {
        Ok(board) => chess::MoveGen::new_legal(&board).map(|m| ChessMoveWrapper {
            source: m.get_source().to_int(),
            dest: m.get_dest().to_int(),
            promotion: m.get_promotion().map(|p| p.to_index() as u8),
        }).collect(),
        Err(_) => Vec::new(),
    }
}

/// Calls `Board::make_move_new` with the move number `index` of
/// `MoveGen::new_legal`, and prints the new board. Trusted: the result is
/// the named value. Nothing is claimed of the new board: the caller looks
/// at the text before it takes it for a position.
#[verifier::external_body]
fn position_after(fen: &str, index: usize) -> (next: String)
    requires
        placement_ok(fen@),
        index < fen_moves(fen@).len(),
    ensures
        next@ == fen_after(fen@, index),
{
    match chess::Board::from_str(fen) {
        Ok(board) => match chess::MoveGen::new_legal(&board).nth(index) {
            Some(movement) => format!("{}", board.make_move_new(movement)),
            None => fen.to_string(),
        },
        Err(_) => fen.to_string(),
    }
}

/// Calls `Board::status`. Trusted: the result is the named value.
#[verifier::external_body]
fn position_status(fen: &str) -> (status: GameStatus)
    requires
        placement_ok(fen@),
    ensures
        status == fen_status(fen@),
{
    match chess::Board::from_str(fen).map(|board| board.status()) {
        Ok(chess::BoardStatus::Stalemate) => GameStatus::Stalemate,
        Ok(chess::BoardStatus::Checkmate) => GameStatus::Checkmate,
        Ok(chess::BoardStatus::Ongoing) => GameStatus::Ongoing,
        Err(_) => GameStatus::Ongoing,
    }
}

/// Calls `Board::side_to_move`. Trusted: the side to move of a board that
/// `Board::from_str` made is the side that the second field of the text
/// names.
#[verifier::external_body]
fn position_white_to_move(fen: &str) -> (white: bool)
    requires
        readable(fen@),
    ensures
        white == white_to_move_in(fen@),
{
    match chess::Board::from_str(fen).map(|board| board.side_to_move()) {
        Ok(chess::Color::White) => true,
        Ok(chess::Color::Black) => false,
        Err(_) => true,
    }
}

/// Counts, with `BitBoard::popcnt`, the squares that are both in
/// `Board::color_combined` of the side and in `Board::pieces` of the kind.
/// Trusted: on a board that `Board::from_str` made of a well-shaped text
/// every letter of the placement field is one man on a square of its own,
/// so the count is the number of the man's letters; and a board has 64
/// squares.
#[verifier::external_body]
fn position_piece_count(fen: &str, white: bool, piece: usize) -> (count: u32)
    requires
        readable(fen@),
        piece < 6,
    ensures
        count == letters(fen@, man_letter(white, piece)),
        count <= 64,
{
    let color = if white { chess::Color::White } else { chess::Color::Black };
    match chess::Board::from_str(fen) {
        Ok(board) => (board.color_combined(color) & board.pieces(chess::ALL_PIECES[piece])).popcnt(),
        Err(_) => 0,
    }
}

/// The place of the first of `moves` that equals `movement`.
pub fn find_move(moves: &Vec<ChessMoveWrapper>, movement: ChessMoveWrapper) -> (found: Option<
    usize,
>)
    ensures
        match found {
            Some(index) => index < moves.len() && moves@.index_of_first(movement) == Some(
                index as int,
            ),
            None => moves@.index_of_first(movement) is None,
        },
{
    let mut i: usize = 0;
    while i < moves.len()
        invariant
            i <= moves.len(),
            forall|j: int| 0 <= j < i ==> moves@[j] != movement,
        decreases moves.len() - i,
    {
        if moves[i].same(movement) {
            proof {
                moves@.index_of_first_ensures(movement);
                assert(moves@.contains(movement));
                let first = moves@.index_of_first(movement)->0;
                if first < i {
                    assert(moves@[first] != movement);
                }
                if i < first {
                    assert(moves@[i as int] != movement);
                }
            }
            return Some(i);
        }
        i += 1;
    }
    proof {
        moves@.index_of_first_ensures(movement);
    }
    None
}

/// A chess position.
#[derive(Debug)]
pub struct ChessBoard {
    fen: String,
}

impl View for ChessBoard {
    type V = Seq<char>;

    closed spec fn view(&self) -> Seq<char> {
        self.fen@
    }
}

impl Clone for ChessBoard {
    fn clone(&self) -> (copy: Self)
        ensures
            copy@ == self@,
    {
        proof {
            use_type_invariant(self);
        }
        ChessBoard { fen: self.fen.clone() }
    }
}

impl ChessBoard {
    #[verifier::type_invariant]
    spec fn well_shaped(&self) -> bool {
        readable(self.fen@)
    }

    /// The starting position. It is a legal position, and has 20 legal
    /// moves.
    pub fn default() -> (board: Self)
        ensures
            board@ == start_position(),
            fen_sane(board@),
            fen_moves(board@).len() == 20,
    {
        ChessBoard { fen: initial_position() }
    }

    /// The position that `fen` describes. The text is refused where its
    /// placement field is not a full board with one king and at most
    /// sixteen men each, and where the rules of chess refuse what it
    /// describes.
    pub fn from_str(fen: String) -> (board: Option<Self>)
        ensures
            match board {
                Some(b) => chess_position(fen@) == Some(b@),
                None => chess_position(fen@) is None,
            },
    {
        if !check_placement(fen.as_str()) {
            return None;
        }
        match parse_position(fen.as_str()) {
            Some(text) => match parse_position(text.as_str()) {
                Some(_) => Some(ChessBoard { fen: text }),
                None => None,
            },
            None => None,
        }
    }

    /// Whether the game goes on, and how it ended if it does not.
    pub fn status(&self) -> (status: GameStatus)
        ensures
            status == fen_status(self@),
    {
        proof {
            use_type_invariant(self);
        }
        position_status(self.fen.as_str())
    }

    /// Whether White is to move.
    pub fn white_to_move(&self) -> (white: bool)
        ensures
            white == white_to_move_in(self@),
    {
        proof {
            use_type_invariant(self);
        }
        position_white_to_move(self.fen.as_str())
    }

    /// How many pieces of kind `piece` (0 pawn to 5 king) one side has on
    /// the board: White if `white`, else Black. There are no pieces of any
    /// other kind.
    pub fn piece_count(&self, white: bool, piece: usize) -> (count: u32)
        ensures
            count == if piece < 6 {
                letters(self@, man_letter(white, piece))
            } else {
                0
            },
            count <= 64,
    {
        proof {
            use_type_invariant(self);
        }
        if piece < 6 {
            position_piece_count(self.fen.as_str(), white, piece)
        } else {
            0
        }
    }
}

impl State<ChessMoveWrapper> for ChessBoard {
    open spec fn legal(position: Seq<char>) -> bool {
        fen_sane(position)
    }

    open spec fn notation(position: Seq<char>) -> Seq<char> {
        position
    }

    open spec fn key(position: Seq<char>) -> u64 {
        fen_hash(position)
    }

    open spec fn moves(position: Seq<char>) -> Seq<ChessMoveWrapper> {
        fen_moves(position)
    }

    open spec fn after(position: Seq<char>, movement: ChessMoveWrapper) -> Seq<char> {
        chess_after(position, movement)
    }

    fn is_valid(&self) -> (ok: bool) {
        proof {
            use_type_invariant(self);
        }
        position_sane(self.fen.as_str())
    }

    fn format(&self) -> (text: String) {
        self.fen.clone()
    }

    fn hash(&self) -> (hash: u64) {
        proof {
            use_type_invariant(self);
        }
        position_hash(self.fen.as_str())
    }

    fn make_move(&self, movement: ChessMoveWrapper) -> (next: ChessBoard) {
        proof {
            use_type_invariant(self);
        }
        let moves = position_moves(self.fen.as_str());
        match find_move(&moves, movement) {
            Some(index) => {
                let text = position_after(self.fen.as_str(), index);
                if check_placement(text.as_str()) {
                    match parse_position(text.as_str()) {
                        Some(_) => ChessBoard { fen: text },
                        None => self.clone(),
                    }
                } else {
                    self.clone()
                }
            },
            None => self.clone(),
        }
    }

    fn legal_moves(&self) -> (moves: Vec<ChessMoveWrapper>) {
        proof {
            use_type_invariant(self);
        }
        position_moves(self.fen.as_str())
    }
}

} // verus!
