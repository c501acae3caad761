//! The shape of the piece-placement field of a FEN text: eight ranks of
//! eight files, with one king and at most sixteen men for each side.

use vstd::prelude::*;
use vstd::string::StrSliceExecFns;

verus! {

/// Whether `c` stands for a white man.
pub open spec fn white_man(c: char) -> bool {
    c == 'P' || c == 'N' || c == 'B' || c == 'R' || c == 'Q' || c == 'K'
}

/// Whether `c` stands for a black man.
pub open spec fn black_man(c: char) -> bool {
    c == 'p' || c == 'n' || c == 'b' || c == 'r' || c == 'q' || c == 'k'
}

/// How many files `c` fills in a rank: a digit stands for that many empty
/// squares, a piece letter for one occupied square, anything else has no
/// place in the field.
pub open spec fn files_of(c: char) -> Option<int> {
    if c == '1' {
        Some(1)
    } else if c == '2' {
        Some(2)
    } else if c == '3' {
        Some(3)
    } else if c == '4' {
        Some(4)
    } else if c == '5' {
        Some(5)
    } else if c == '6' {
        Some(6)
    } else if c == '7' {
        Some(7)
    } else if c == '8' {
        Some(8)
    } else if white_man(c) || black_man(c) {
        Some(1)
    } else {
        None
    }
}

/// What has been read of a placement field: `rank` ranks are closed,
/// `file` files of the open rank are filled, and so many kings and men of
/// each colour have been met.
pub struct Tally {
    pub rank: int,
    pub file: int,
    pub white_kings: int,
    pub black_kings: int,
    pub white_men: int,
    pub black_men: int,
}

/// The tally after one more character of a rank.
pub open spec fn tally_with(tally: Tally, c: char, width: int) -> Tally {
    Tally {
        rank: tally.rank,
        file: tally.file + width,
        white_kings: tally.white_kings + if c == 'K' { 1int } else { 0int },
        black_kings: tally.black_kings + if c == 'k' { 1int } else { 0int },
        white_men: tally.white_men + if white_man(c) { 1int } else { 0int },
        black_men: tally.black_men + if black_man(c) { 1int } else { 0int },
    }
}

/// Whether the tally is that of a full board on which each side has its
/// one king and no more than sixteen men.
pub open spec fn tally_full(tally: Tally) -> bool {
    &&& tally.rank == 7
    &&& tally.file == 8
    &&& tally.white_kings == 1
    &&& tally.black_kings == 1
    &&& tally.white_men <= 16
    &&& tally.black_men <= 16
}

/// Whether `text`, read from index `at` on, completes a well-shaped
/// placement field, given the tally of what was read before. The field
/// ends at the first space or at the end of the text.
pub open spec fn placement_from(text: Seq<char>, at: int, tally: Tally) -> bool
    decreases text.len() - at,
{
    if at < 0 {
        false
    } else if at >= text.len() || text[at] == ' ' {
        tally_full(tally)
    } else if text[at] == '/' {
        tally.file == 8 && tally.rank < 7 && placement_from(
            text,
            at + 1,
            Tally { rank: tally.rank + 1, file: 0, ..tally },
        )
    } else {
        match files_of(text[at]) {
            Some(width) => tally.file + width <= 8 && placement_from(
                text,
                at + 1,
                tally_with(tally, text[at], width),
            ),
            None => false,
        }
    }
}

/// Whether the placement field of `text` describes a full board with
/// exactly one king and at most sixteen men of each colour.
pub open spec fn placement_ok(text: Seq<char>) -> bool {
    placement_from(
        text,
        0,
        Tally { rank: 0, file: 0, white_kings: 0, black_kings: 0, white_men: 0, black_men: 0 },
    )
}

/// How often `c` occurs in `text` from index `at` to the end of the
/// placement field.
pub open spec fn letters_from(text: Seq<char>, at: int, c: char) -> nat
    decreases text.len() - at,
{
    if at < 0 || at >= text.len() || text[at] == ' ' {
        0
    } else {
        letters_from(text, at + 1, c) + if text[at] == c { 1nat } else { 0nat }
    }
}

/// How often `c` occurs in the placement field of `text`: how many men of
/// that letter stand on the board.
pub open spec fn letters(text: Seq<char>, c: char) -> nat {
    letters_from(text, 0, c)
}

/// Where the field of `text` that holds index `at` ends: at the first
/// space from `at` on, or at the end of the text.
pub open spec fn field_end(text: Seq<char>, at: int) -> int
    decreases text.len() - at,
{
    if at < 0 || at >= text.len() || text[at] == ' ' {
        at
    } else {
        field_end(text, at + 1)
    }
}

/// Whether the second field of `text`, the one behind the placement field,
/// starts with the letter for White: whether White is to move.
pub open spec fn white_to_move_in(text: Seq<char>) -> bool {
    let side = field_end(text, 0) + 1;
    0 < side < text.len() && (text[side] == 'w' || text[side] == 'W')
}

/// Computes [`white_man`].
fn is_white_man(c: char) -> (white: bool)
    ensures
        white == white_man(c),
{
    c == 'P' || c == 'N' || c == 'B' || c == 'R' || c == 'Q' || c == 'K'
}

/// Computes [`black_man`].
fn is_black_man(c: char) -> (black: bool)
    ensures
        black == black_man(c),
{
    c == 'p' || c == 'n' || c == 'b' || c == 'r' || c == 'q' || c == 'k'
}

/// Computes [`files_of`].
fn files_filled(c: char) -> (width: Option<u8>)
    ensures
        match width {
            Some(w) => files_of(c) == Some(w as int) && 1 <= w <= 8,
            None => files_of(c) is None,
        },
{
    if c == '1' {
        Some(1)
    } else if c == '2' {
        Some(2)
    } else if c == '3' {
        Some(3)
    } else if c == '4' {
        Some(4)
    } else if c == '5' {
        Some(5)
    } else if c == '6' {
        Some(6)
    } else if c == '7' {
        Some(7)
    } else if c == '8' {
        Some(8)
    } else if is_white_man(c) || is_black_man(c) {
        Some(1)
    } else {
        None
    }
}

/// Decides [`placement_ok`].
pub fn check_placement(text: &str) -> (ok: bool)
    ensures
        ok == placement_ok(text@),
{
    let len = text.unicode_len();
    let mut at: usize = 0;
    let mut rank: u8 = 0;
    let mut file: u8 = 0;
    let mut white_kings: u8 = 0;
    let mut black_kings: u8 = 0;
    let mut white_men: u8 = 0;
    let mut black_men: u8 = 0;
    while at < len
        invariant
            len == text@.len(),
            at <= len,
            rank <= 7,
            file <= 8,
            white_kings <= 1,
            black_kings <= 1,
            white_men <= 16,
            black_men <= 16,
            placement_ok(text@) == placement_from(
                text@,
                at as int,
                Tally {
                    rank: rank as int,
                    file: file as int,
                    white_kings: white_kings as int,
                    black_kings: black_kings as int,
                    white_men: white_men as int,
                    black_men: black_men as int,
                },
            ),
        decreases len - at,
    {
        let c = text.get_char(at);
        if c == ' ' {
            return rank == 7 && file == 8 && white_kings == 1 && black_kings == 1;
        } else if c == '/' {
            if file != 8 || rank >= 7 {
                return false;
            }
            rank += 1;
            file = 0;
        } else {
            match files_filled(c) {
                Some(width) => {
                    if file + width > 8 {
                        return false;
                    }
                    let ghost next = tally_with(
                        Tally {
                            rank: rank as int,
                            file: file as int,
                            white_kings: white_kings as int,
                            black_kings: black_kings as int,
                            white_men: white_men as int,
                            black_men: black_men as int,
                        },
                        c,
                        width as int,
                    );
                    if (c == 'K' && white_kings >= 1) || (c == 'k' && black_kings >= 1) || (
                    is_white_man(c) && white_men >= 16) || (is_black_man(c) && black_men >= 16) {
                        proof {
                            lemma_too_many(text@, at as int + 1, next);
                        }
                        return false;
                    }
                    if c == 'K' {
                        white_kings += 1;
                    }
                    if c == 'k' {
                        black_kings += 1;
                    }
                    if is_white_man(c) {
                        white_men += 1;
                    }
                    if is_black_man(c) {
                        black_men += 1;
                    }
                    file += width;
                },
                None => {
                    return false;
                },
            }
        }
        at += 1;
    }
    rank == 7 && file == 8 && white_kings == 1 && black_kings == 1
}

/// Once a side has more than one king or more than sixteen men, no
/// continuation makes the field well shaped.
proof fn lemma_too_many(text: Seq<char>, at: int, tally: Tally)
    requires
        tally.white_kings > 1 || tally.black_kings > 1 || tally.white_men > 16 || tally.black_men
            > 16,
    ensures
        !placement_from(text, at, tally),
    decreases text.len() - at,
{
    if at < 0 {
    } else if at >= text.len() || text[at] == ' ' {
    } else if text[at] == '/' {
        lemma_too_many(text, at + 1, Tally { rank: tally.rank + 1, file: 0, ..tally });
    } else {
        match files_of(text[at]) {
            Some(width) => {
                lemma_too_many(text, at + 1, tally_with(tally, text[at], width));
            },
            None => {},
        }
    }
}

} // verus!
