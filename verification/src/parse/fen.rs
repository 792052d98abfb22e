//! Positions in Forsyth-Edwards notation: six fields separated by single
//! spaces. The piece placement runs from rank 8 to rank 1 with `/` between
//! ranks, a digit for each run of empty squares and a letter for each
//! piece; then the side to move, the castling rights in the order `KQkq`
//! or `-`, the en-passant target square or `-`, the halfmove clock and the
//! fullmove number.

use vstd::prelude::*;
use crate::board::color::Color;
use crate::board::line::{File, Rank};
use crate::board::piece::Piece;
use crate::board::square::Square;
use crate::board::zone::Quadrant;
use crate::game::board_move::lemma_rights_in_code;
use crate::game::position::{
    ep_file_of,
    ep_flag_of,
    fullmove_of,
    halfmove_of,
    lemma_field_ranges,
    GameState,
    FULLMOVE_CTR_MAX,
    HALFMOVE_CTR_MAX,
};
use super::chr::rank_digit_index;
use super::err::{CoordinateError, FenError, FenSection};

verus! {

/// A place in a text as the errors name it: counted from 1, and no larger
/// than the largest 32-bit signed number.
pub open spec fn spec_place(i: int) -> i32 {
    if i > 0x7FFF_FFFF {
        0x7FFF_FFFFi32
    } else {
        i as i32
    }
}

/// A place in a text as the errors name it.
pub fn place(i: usize) -> (at: i32)
    ensures
        at == spec_place(i as int),
{
    if i > 0x7FFF_FFFF {
        0x7FFF_FFFF
    } else {
        i as i32
    }
}

/// What the end of the piece placement means, by the row and column reached.
pub open spec fn board_end(row: int, col: int) -> Result<(), FenError> {
    if row == 0 && col == 8 {
        Ok(())
    } else if row == 0 {
        Err(FenError::TooManyRows)
    } else if col == 8 {
        Err(FenError::IncompleteRow((row - 1) as i32))
    } else {
        Err(FenError::IncompleteRow(row as i32))
    }
}

/// Reads the piece placement from place `i` on, with `row` and `col` the
/// square to fill next: the board it gives and the place after the space
/// that ends the field.
pub open spec fn spec_read_board(
    s: Seq<char>,
    i: int,
    row: int,
    col: int,
    board: Seq<Option<Piece>>,
) -> Result<(Seq<Option<Piece>>, int), FenError>
    decreases s.len() - i,
{
    if i >= s.len() {
        match board_end(row, col) {
            Ok(_) => Ok((board, i)),
            Err(e) => Err(e),
        }
    } else if s[i] == ' ' {
        match board_end(row, col) {
            Ok(_) => Ok((board, i + 1)),
            Err(e) => Err(e),
        }
    } else if s[i] == '/' {
        if row == 0 {
            Err(FenError::TooManyRows)
        } else if col == 8 {
            spec_read_board(s, i + 1, row - 1, 0, board)
        } else {
            Err(FenError::IncompleteRow(row as i32))
        }
    } else if rank_digit_index(s[i]) is Some {
        let run = rank_digit_index(s[i])->0 + 1;
        if col + run > 8 {
            Err(FenError::TooManyColumns(row as i32))
        } else {
            spec_read_board(s, i + 1, row, col + run, board)
        }
    } else {
        match Piece::spec_from_char(s[i]) {
            Err(e) => Err(e),
            Ok(p) => if col >= 8 {
                Err(FenError::TooManyColumns(row as i32))
            } else {
                spec_read_board(s, i + 1, row, col + 1, board.update(8 * row + col, Some(p)))
            },
        }
    }
}

/// Reads the side to move at place `i` and the space after it.
pub open spec fn spec_read_turn(s: Seq<char>, i: int) -> Result<(Color, int), FenError> {
    if i >= s.len() {
        Err(FenError::MissingSection(FenSection::SideToMove))
    } else {
        match Color::spec_from_chr(s[i]) {
            Err(e) => Err(e),
            Ok(c) => if i + 1 >= s.len() {
                Err(FenError::MissingSection(FenSection::Castling))
            } else if s[i + 1] != ' ' {
                Err(FenError::ExpectedSpace(spec_place(i + 2)))
            } else {
                Ok((c, i + 2))
            },
        }
    }
}

/// Reads the castling rights from place `i` on. `low` is the least
/// quadrant index that may still come, 0 while nothing was read; `rights`
/// holds the rights read so far, by quadrant index.
pub open spec fn spec_read_castling(s: Seq<char>, i: int, low: int, rights: Seq<bool>) -> Result<
    (Seq<bool>, int),
    FenError,
>
    decreases s.len() - i,
{
    if i >= s.len() {
        Err(FenError::MissingSection(FenSection::Castling))
    } else if s[i] == ' ' {
        if low == 0 {
            Err(FenError::MissingSection(FenSection::Castling))
        } else {
            Ok((rights, i + 1))
        }
    } else if s[i] == '-' {
        if low == 0 {
            spec_read_castling(s, i + 1, 5, rights)
        } else {
            Err(FenError::InvalidCastling)
        }
    } else {
        match Quadrant::spec_from_char(s[i]) {
            Err(e) => Err(e),
            Ok(q) => if q.spec_index() < low {
                Err(FenError::CastlingOutOfOrder)
            } else {
                spec_read_castling(
                    s,
                    i + 1,
                    q.spec_index() + 1,
                    rights.update(q.spec_index() as int, true),
                )
            },
        }
    }
}

/// The row of an en-passant target when `turn` is to move.
pub open spec fn ep_row_for(turn: Color) -> int {
    match turn {
        Color::White => 5,
        Color::Black => 2,
    }
}

/// Reads the en-passant field at place `i` and the space after it: the
/// file of the target, if there is one.
pub open spec fn spec_read_ep(s: Seq<char>, i: int, turn: Color) -> Result<(Option<File>, int), FenError> {
    if i >= s.len() {
        Err(FenError::MissingSection(FenSection::EnPassant))
    } else if i + 1 >= s.len() {
        if s[i] == '-' {
            Err(FenError::MissingSection(FenSection::HalfmoveCounter))
        } else {
            Err(FenError::CoordinateError(CoordinateError::IncompleteSquare))
        }
    } else if s[i] == '-' && s[i + 1] == ' ' {
        Ok((None, i + 2))
    } else {
        match Rank::spec_from_chr(s[i + 1]) {
            Err(e) => Err(FenError::CoordinateError(e)),
            Ok(r) => if r.spec_index() != ep_row_for(turn) {
                Err(FenError::InvalidEnPassant)
            } else {
                match File::spec_from_chr(s[i]) {
                    Err(e) => Err(FenError::CoordinateError(e)),
                    Ok(f) => if i + 2 >= s.len() {
                        Err(FenError::MissingSection(FenSection::HalfmoveCounter))
                    } else if s[i + 2] != ' ' {
                        Err(FenError::ExpectedSpace(spec_place(i + 3)))
                    } else {
                        Ok((Some(f), i + 3))
                    },
                }
            },
        }
    }
}

/// The value of a decimal digit.
pub open spec fn digit_value(c: char) -> Option<int> {
    if c == '0' {
        Some(0)
    } else if c == '1' {
        Some(1)
    } else if c == '2' {
        Some(2)
    } else if c == '3' {
        Some(3)
    } else if c == '4' {
        Some(4)
    } else if c == '5' {
        Some(5)
    } else if c == '6' {
        Some(6)
    } else if c == '7' {
        Some(7)
    } else if c == '8' {
        Some(8)
    } else if c == '9' {
        Some(9)
    } else {
        None
    }
}

/// The number that a run of decimal digits writes; `None` where a
/// character is no digit. The empty run writes zero.
pub open spec fn digits_value(digits: Seq<char>) -> Option<int>
    decreases digits.len(),
{
    if digits.len() == 0 {
        Some(0)
    } else {
        match (digits_value(digits.drop_last()), digit_value(digits.last())) {
            (Some(v), Some(d)) => Some(10 * v + d),
            _ => None,
        }
    }
}

/// The number that a text writes in decimal digits, if it is one or more
/// digits and the number fits 32 bits.
pub open spec fn spec_parse_u32(digits: Seq<char>) -> Option<u32> {
    if digits.len() == 0 {
        None
    } else {
        match digits_value(digits) {
            Some(v) => if v <= u32::MAX {
                Some(v as u32)
            } else {
                None
            },
            None => None,
        }
    }
}

/// The place of the first space from place `i` on, or the length of the text.
pub open spec fn field_end(s: Seq<char>, i: int) -> int
    decreases s.len() - i,
{
    if i >= s.len() {
        s.len() as int
    } else if s[i] == ' ' {
        i
    } else {
        field_end(s, i + 1)
    }
}

/// Reads the halfmove clock from place `i` on and the space after it.
pub open spec fn spec_read_halfmove(s: Seq<char>, i: int) -> Result<(u32, int), FenError> {
    let end = field_end(s, i);
    if i > s.len() || end >= s.len() {
        Err(FenError::MissingSection(FenSection::FullmoveCounter))
    } else {
        match spec_parse_u32(s.subrange(i, end)) {
            None => Err(FenError::InvalidHalfmove),
            Some(n) => Ok((n, end + 1)),
        }
    }
}

/// Reads the fullmove number, which is the rest of the text from place `i` on.
pub open spec fn spec_read_fullmove(s: Seq<char>, i: int) -> Result<u32, FenError> {
    if i >= s.len() {
        Err(FenError::MissingSection(FenSection::FullmoveCounter))
    } else if field_end(s, i) < s.len() {
        Err(FenError::TooManySections)
    } else {
        match spec_parse_u32(s.subrange(i, s.len() as int)) {
            None => Err(FenError::InvalidFullMove),
            Some(n) => if n == 0 {
                Err(FenError::InvalidFullMove)
            } else {
                Ok(n)
            },
        }
    }
}

/// The board without pieces.
pub open spec fn empty_board() -> Seq<Option<Piece>> {
    Seq::new(64, |s: int| None::<Piece>)
}

/// What a text says as a position: the board, the side to move, the
/// castling rights by quadrant index, the file of the en-passant target,
/// the halfmove clock and the fullmove number; or why it says none.
pub open spec fn spec_from_fen(s: Seq<char>) -> Result<
    (Seq<Option<Piece>>, Color, Seq<bool>, Option<File>, u32, u32),
    FenError,
> {
    match spec_read_board(s, 0, 7, 0, empty_board()) {
        Err(e) => Err(e),
        Ok((board, i)) => match spec_read_turn(s, i) {
            Err(e) => Err(e),
            Ok((turn, j)) => match spec_read_castling(s, j, 0, seq![false, false, false, false]) {
                Err(e) => Err(e),
                Ok((rights, k)) => match spec_read_ep(s, k, turn) {
                    Err(e) => Err(e),
                    Ok((ep, l)) => match spec_read_halfmove(s, l) {
                        Err(e) => Err(e),
                        Ok((half, m)) => match spec_read_fullmove(s, m) {
                            Err(e) => Err(e),
                            Ok(full) => Ok((board, turn, rights, ep, half, full)),
                        },
                    },
                },
            },
        },
    }
}

/// The characters of a text.
pub fn to_chars(text: &str) -> (chars: Vec<char>)
    ensures
        chars@ == text@,
{
    let n = text.unicode_len();
    let mut chars: Vec<char> = Vec::new();
    let mut i: usize = 0;
    while i < n
        invariant
            i <= n,
            n == text@.len(),
            chars@ == text@.subrange(0, i as int),
        decreases n - i,
    {
        chars.push(text.get_char(i));
        proof {
            assert(chars@ =~= text@.subrange(0, i + 1));
        }
        i += 1;
    }
    proof {
        assert(text@.subrange(0, n as int) =~= text@);
    }
    chars
}

/// One step of reading the piece placement.
pub proof fn lemma_read_board_step(
    s: Seq<char>,
    i: int,
    row: int,
    col: int,
    board: Seq<Option<Piece>>,
)
    ensures
        i >= s.len() ==> spec_read_board(s, i, row, col, board) == (match board_end(row, col) {
            Ok(_) => Ok::<(Seq<Option<Piece>>, int), FenError>((board, i)),
            Err(e) => Err(e),
        }),
        i < s.len() && s[i] == ' ' ==> spec_read_board(s, i, row, col, board) == (match board_end(
            row,
            col,
        ) {
            Ok(_) => Ok::<(Seq<Option<Piece>>, int), FenError>((board, i + 1)),
            Err(e) => Err(e),
        }),
        i < s.len() && s[i] == '/' ==> spec_read_board(s, i, row, col, board) == (if row == 0 {
            Err::<(Seq<Option<Piece>>, int), FenError>(FenError::TooManyRows)
        } else if col == 8 {
            spec_read_board(s, i + 1, row - 1, 0, board)
        } else {
            Err(FenError::IncompleteRow(row as i32))
        }),
        i < s.len() && s[i] != ' ' && s[i] != '/' && rank_digit_index(s[i]) is Some
            ==> spec_read_board(s, i, row, col, board) == (if col + rank_digit_index(s[i])->0 + 1
            > 8 {
            Err::<(Seq<Option<Piece>>, int), FenError>(FenError::TooManyColumns(row as i32))
        } else {
            spec_read_board(s, i + 1, row, col + rank_digit_index(s[i])->0 + 1, board)
        }),
        i < s.len() && s[i] != ' ' && s[i] != '/' && rank_digit_index(s[i]) is None
            ==> spec_read_board(s, i, row, col, board) == (match Piece::spec_from_char(s[i]) {
            Err(e) => Err::<(Seq<Option<Piece>>, int), FenError>(e),
            Ok(p) => if col >= 8 {
                Err(FenError::TooManyColumns(row as i32))
            } else {
                spec_read_board(s, i + 1, row, col + 1, board.update(8 * row + col, Some(p)))
            },
        }),
{
}

/// Puts the pieces of the placement field on an empty board.
pub fn read_board(chars: &Vec<char>, state: &mut GameState) -> (next: Result<usize, FenError>)
    requires
        old(state).placement_wf(),
        old(state).board() == empty_board(),
    ensures
        match spec_read_board(chars@, 0, 7, 0, empty_board()) {
            Ok((board, i)) => next == Ok::<usize, FenError>(i as usize) && 0 <= i <= chars@.len()
                && final(state).placement_wf() && final(state).board() == board
                && final(state).fen_info == old(state).fen_info,
            Err(e) => next == Err::<usize, FenError>(e),
        },
{
    let mut row: usize = 7;
    let mut col: usize = 0;
    let mut i: usize = 0;
    let ghost total = spec_read_board(chars@, 0, 7, 0, empty_board());
    while i < chars.len()
        invariant
            i <= chars@.len(),
            row < 8,
            col <= 8,
            state.placement_wf(),
            state.fen_info == old(state).fen_info,
            total == spec_read_board(chars@, 0, 7, 0, empty_board()),
            spec_read_board(chars@, i as int, row as int, col as int, state.board()) == total,
            forall|s: int|
                0 <= s < 64 && (s / 8 < row || (s / 8 == row && s % 8 >= col)) ==> (
                #[trigger] state.board()[s]) is None,
        decreases chars@.len() - i,
    {
        let chr = chars[i];
        proof {
            lemma_read_board_step(chars@, i as int, row as int, col as int, state.board());
        }
        if chr == ' ' {
            if row == 0 && col == 8 {
                return Ok(i + 1);
            } else if row == 0 {
                return Err(FenError::TooManyRows);
            } else if col == 8 {
                return Err(FenError::IncompleteRow((row - 1) as i32));
            } else {
                return Err(FenError::IncompleteRow(row as i32));
            }
        } else if chr == '/' {
            if row == 0 {
                return Err(FenError::TooManyRows);
            } else if col == 8 {
                row = row - 1;
                col = 0;
            } else {
                return Err(FenError::IncompleteRow(row as i32));
            }
        } else {
            match Rank::from_chr(chr) {
                Ok(digit) => {
                    let run = digit.index() + 1;
                    if col + run > 8 {
                        return Err(FenError::TooManyColumns(row as i32));
                    }
                    col = col + run;
                },
                Err(_) => {
                    match Piece::from_char(chr) {
                        Err(e) => {
                            return Err(e);
                        },
                        Ok(piece) => {
                            if col >= 8 {
                                return Err(FenError::TooManyColumns(row as i32));
                            }
                            state.put_piece(piece, Square::from_rc(row, col));
                            col = col + 1;
                        },
                    }
                },
            }
        }
        i += 1;
    }
    proof {
        lemma_read_board_step(chars@, i as int, row as int, col as int, state.board());
    }
    if row == 0 && col == 8 {
        Ok(i)
    } else if row == 0 {
        Err(FenError::TooManyRows)
    } else if col == 8 {
        Err(FenError::IncompleteRow((row - 1) as i32))
    } else {
        Err(FenError::IncompleteRow(row as i32))
    }
}

/// Reads the side to move at place `i` and the space after it.
pub fn read_turn(chars: &Vec<char>, i: usize) -> (turn: Result<(Color, usize), FenError>)
    requires
        i <= chars@.len(),
    ensures
        match spec_read_turn(chars@, i as int) {
            Ok((c, j)) => turn == Ok::<(Color, usize), FenError>((c, j as usize)) && 0 <= j
                <= chars@.len(),
            Err(e) => turn == Err::<(Color, usize), FenError>(e),
        },
{
    if i >= chars.len() {
        return Err(FenError::MissingSection(FenSection::SideToMove));
    }
    match Color::from_chr(chars[i]) {
        Err(e) => Err(e),
        Ok(color) => {
            if i + 1 >= chars.len() {
                Err(FenError::MissingSection(FenSection::Castling))
            } else if chars[i + 1] != ' ' {
                Err(FenError::ExpectedSpace(place(i + 2)))
            } else {
                Ok((color, i + 2))
            }
        },
    }
}

/// One step of reading the castling rights.
pub proof fn lemma_read_castling_step(s: Seq<char>, i: int, low: int, rights: Seq<bool>)
    ensures
        i >= s.len() ==> spec_read_castling(s, i, low, rights) == Err::<(Seq<bool>, int), FenError>(
            FenError::MissingSection(FenSection::Castling),
        ),
        i < s.len() && s[i] == ' ' ==> spec_read_castling(s, i, low, rights) == (if low == 0 {
            Err::<(Seq<bool>, int), FenError>(FenError::MissingSection(FenSection::Castling))
        } else {
            Ok((rights, i + 1))
        }),
        i < s.len() && s[i] == '-' ==> spec_read_castling(s, i, low, rights) == (if low == 0 {
            spec_read_castling(s, i + 1, 5, rights)
        } else {
            Err(FenError::InvalidCastling)
        }),
        i < s.len() && s[i] != ' ' && s[i] != '-' ==> spec_read_castling(s, i, low, rights) == (
        match Quadrant::spec_from_char(s[i]) {
            Err(e) => Err::<(Seq<bool>, int), FenError>(e),
            Ok(q) => if q.spec_index() < low {
                Err(FenError::CastlingOutOfOrder)
            } else {
                spec_read_castling(
                    s,
                    i + 1,
                    q.spec_index() + 1,
                    rights.update(q.spec_index() as int, true),
                )
            },
        }),
{
}

/// Reads the castling rights from place `i` on and the space after them:
/// the rights by quadrant index.
pub fn read_castling(chars: &Vec<char>, i: usize) -> (rights: Result<([bool; 4], usize), FenError>)
    requires
        i <= chars@.len(),
    ensures
        match spec_read_castling(chars@, i as int, 0, seq![false, false, false, false]) {
            Ok((granted, j)) => rights matches Ok((array, next)) && array@ == granted && next == j
                && 0 <= j <= chars@.len(),
            Err(e) => rights == Err::<([bool; 4], usize), FenError>(e),
        },
{
    let mut granted: [bool; 4] = [false; 4];
    let mut low: usize = 0;
    let mut k: usize = i;
    let ghost total = spec_read_castling(chars@, i as int, 0, seq![false, false, false, false]);
    proof {
        assert(granted@ =~= seq![false, false, false, false]);
    }
    while k < chars.len()
        invariant
            i <= k <= chars@.len(),
            low <= 5,
            total == spec_read_castling(chars@, i as int, 0, seq![false, false, false, false]),
            spec_read_castling(chars@, k as int, low as int, granted@) == total,
        decreases chars@.len() - k,
    {
        let chr = chars[k];
        proof {
            lemma_read_castling_step(chars@, k as int, low as int, granted@);
        }
        if chr == ' ' {
            if low == 0 {
                return Err(FenError::MissingSection(FenSection::Castling));
            }
            return Ok((granted, k + 1));
        } else if chr == '-' {
            if low != 0 {
                return Err(FenError::InvalidCastling);
            }
            low = 5;
        } else {
            match Quadrant::from_char(chr) {
                Err(e) => {
                    return Err(e);
                },
                Ok(q) => {
                    if q.index() < low {
                        return Err(FenError::CastlingOutOfOrder);
                    }
                    granted[q.index()] = true;
                    low = q.index() + 1;
                },
            }
        }
        k += 1;
    }
    proof {
        lemma_read_castling_step(chars@, k as int, low as int, granted@);
    }
    Err(FenError::MissingSection(FenSection::Castling))
}

/// Reads the en-passant field at place `i` and the space after it.
pub fn read_en_passant(chars: &Vec<char>, i: usize, turn: Color) -> (target: Result<
    (Option<File>, usize),
    FenError,
>)
    requires
        i <= chars@.len(),
    ensures
        match spec_read_ep(chars@, i as int, turn) {
            Ok((file, j)) => target == Ok::<(Option<File>, usize), FenError>((file, j as usize))
                && 0 <= j <= chars@.len(),
            Err(e) => target == Err::<(Option<File>, usize), FenError>(e),
        },
{
    if i >= chars.len() {
        return Err(FenError::MissingSection(FenSection::EnPassant));
    }
    let first = chars[i];
    if i + 1 >= chars.len() {
        if first == '-' {
            return Err(FenError::MissingSection(FenSection::HalfmoveCounter));
        }
        return Err(FenError::CoordinateError(CoordinateError::IncompleteSquare));
    }
    let second = chars[i + 1];
    if first == '-' && second == ' ' {
        return Ok((None, i + 2));
    }
    let rank = match Rank::from_chr(second) {
        Err(e) => {
            return Err(FenError::CoordinateError(e));
        },
        Ok(r) => r,
    };
    let expected: usize = match turn {
        Color::White => 5,
        Color::Black => 2,
    };
    if rank.index() != expected {
        return Err(FenError::InvalidEnPassant);
    }
    let file = match File::from_chr(first) {
        Err(e) => {
            return Err(FenError::CoordinateError(e));
        },
        Ok(f) => f,
    };
    if i + 2 >= chars.len() {
        Err(FenError::MissingSection(FenSection::HalfmoveCounter))
    } else if chars[i + 2] != ' ' {
        Err(FenError::ExpectedSpace(place(i + 3)))
    } else {
        Ok((Some(file), i + 3))
    }
}

/// The place of the first space from place `i` on, or the length of the text.
pub fn find_field_end(chars: &Vec<char>, i: usize) -> (end: usize)
    requires
        i <= chars@.len(),
    ensures
        end == field_end(chars@, i as int),
        i <= end <= chars@.len(),
{
    let mut k: usize = i;
    while k < chars.len() && chars[k] != ' '
        invariant
            i <= k <= chars@.len(),
            field_end(chars@, k as int) == field_end(chars@, i as int),
        decreases chars@.len() - k,
    {
        k += 1;
    }
    k
}

/// The value of a decimal digit.
pub fn digit_of(chr: char) -> (value: Option<u64>)
    ensures
        match digit_value(chr) {
            Some(v) => value == Some(v as u64),
            None => value is None,
        },
{
    if chr == '0' {
        Some(0)
    } else if chr == '1' {
        Some(1)
    } else if chr == '2' {
        Some(2)
    } else if chr == '3' {
        Some(3)
    } else if chr == '4' {
        Some(4)
    } else if chr == '5' {
        Some(5)
    } else if chr == '6' {
        Some(6)
    } else if chr == '7' {
        Some(7)
    } else if chr == '8' {
        Some(8)
    } else if chr == '9' {
        Some(9)
    } else {
        None
    }
}

/// The number written in decimal digits between two places of a text.
pub fn parse_number(chars: &Vec<char>, start: usize, end: usize) -> (number: Option<u32>)
    requires
        start <= end <= chars@.len(),
    ensures
        number == spec_parse_u32(chars@.subrange(start as int, end as int)),
{
    let mut value: u64 = 0;
    let mut bad = false;
    let mut big = false;
    let mut k: usize = start;
    proof {
        assert(chars@.subrange(start as int, start as int).len() == 0);
    }
    while k < end
        invariant
            start <= k <= end <= chars@.len(),
            value <= u32::MAX,
            match digits_value(chars@.subrange(start as int, k as int)) {
                None => bad,
                Some(v) => !bad && v >= 0 && (if v <= u32::MAX {
                    !big && value == v
                } else {
                    big
                }),
            },
        decreases end - k,
    {
        proof {
            let longer = chars@.subrange(start as int, k + 1);
            assert(longer.drop_last() =~= chars@.subrange(start as int, k as int));
            assert(longer.last() == chars@[k as int]);
        }
        match digit_of(chars[k]) {
            None => {
                bad = true;
            },
            Some(d) => {
                if !bad && !big {
                    let next = 10 * value + d;
                    if next > 0xFFFF_FFFF {
                        big = true;
                    } else {
                        value = next;
                    }
                }
            },
        }
        k += 1;
    }
    if start == end || bad || big {
        None
    } else {
        Some(value as u32)
    }
}

/// Reads the halfmove clock from place `i` on and the space after it.
pub fn read_halfmove(chars: &Vec<char>, i: usize) -> (clock: Result<(u32, usize), FenError>)
    requires
        i <= chars@.len(),
    ensures
        match spec_read_halfmove(chars@, i as int) {
            Ok((n, j)) => clock == Ok::<(u32, usize), FenError>((n, j as usize)) && 0 <= j
                <= chars@.len(),
            Err(e) => clock == Err::<(u32, usize), FenError>(e),
        },
{
    let end = find_field_end(chars, i);
    if end >= chars.len() {
        return Err(FenError::MissingSection(FenSection::FullmoveCounter));
    }
    match parse_number(chars, i, end) {
        None => Err(FenError::InvalidHalfmove),
        Some(n) => Ok((n, end + 1)),
    }
}

/// Reads the fullmove number, which is the rest of the text from place `i` on.
pub fn read_fullmove(chars: &Vec<char>, i: usize) -> (number: Result<u32, FenError>)
    requires
        i <= chars@.len(),
    ensures
        number == spec_read_fullmove(chars@, i as int),
{
    if i >= chars.len() {
        return Err(FenError::MissingSection(FenSection::FullmoveCounter));
    }
    let end = find_field_end(chars, i);
    if end < chars.len() {
        return Err(FenError::TooManySections);
    }
    match parse_number(chars, i, end) {
        None => Err(FenError::InvalidFullMove),
        Some(n) => if n == 0 {
            Err(FenError::InvalidFullMove)
        } else {
            Ok(n)
        },
    }
}

/// The position says what the six fields say.
pub open spec fn holds_fields(
    state: GameState,
    board: Seq<Option<Piece>>,
    turn: Color,
    rights: Seq<bool>,
    ep: Option<File>,
    half: u32,
    full: u32,
) -> bool {
    &&& state.board() == board
    &&& state.spec_turn() == turn
    &&& forall|q: Quadrant| #[trigger] state.spec_can_castle(q) == rights[q.spec_index() as int]
    &&& match ep {
        Some(f) => ep_flag_of(state.fen_info) == 1 && ep_file_of(state.fen_info) == f.spec_index(),
        None => ep_flag_of(state.fen_info) == 0 && ep_file_of(state.fen_info) == 0,
    }
    &&& halfmove_of(state.fen_info) == if half <= HALFMOVE_CTR_MAX {
        half
    } else {
        HALFMOVE_CTR_MAX
    }
    &&& fullmove_of(state.fen_info) == if full <= FULLMOVE_CTR_MAX {
        full
    } else {
        FULLMOVE_CTR_MAX
    }
}

impl GameState {
    /// Sets the four castling rights, by quadrant index.
    pub fn set_castling_rights(&mut self, rights: &[bool; 4])
        ensures
            forall|q: Quadrant|
                #[trigger] final(self).spec_can_castle(q) == rights[q.spec_index() as int],
            crate::game::position::same_but_castling(final(self).fen_info, old(self).fen_info),
            final(self).bitboard == old(self).bitboard,
            final(self).piece_on_square == old(self).piece_on_square,
            final(self).zobrist_hash == old(self).zobrist_hash,
    {
        self.set_castling(Quadrant::WhiteKingside, rights[0]);
        self.set_castling(Quadrant::WhiteQueenside, rights[1]);
        self.set_castling(Quadrant::BlackKingside, rights[2]);
        self.set_castling(Quadrant::BlackQueenside, rights[3]);
    }

    /// Reads a position in Forsyth-Edwards notation. The position is
    /// consistent, but need not be one that can arise in a game: see
    /// [`GameState::validate`]. Counters beyond what the position can hold
    /// are set to the largest it can hold.
    pub fn from_fen(fen: &str) -> (position: Result<GameState, FenError>)
        ensures
            match spec_from_fen(fen@) {
                Ok((board, turn, rights, ep, half, full)) => position matches Ok(state)
                    && state.wf() && holds_fields(state, board, turn, rights, ep, half, full),
                Err(e) => position == Err::<GameState, FenError>(e),
            },
    {
        let chars = to_chars(fen);
        let mut state = GameState::empty();
        proof {
            assert(state.board() =~= empty_board());
        }
        let i = match read_board(&chars, &mut state) {
            Err(e) => {
                return Err(e);
            },
            Ok(i) => i,
        };
        let (turn, j) = match read_turn(&chars, i) {
            Err(e) => {
                return Err(e);
            },
            Ok(pair) => pair,
        };
        let (rights, k) = match read_castling(&chars, j) {
            Err(e) => {
                return Err(e);
            },
            Ok(pair) => pair,
        };
        let (ep, l) = match read_en_passant(&chars, k, turn) {
            Err(e) => {
                return Err(e);
            },
            Ok(pair) => pair,
        };
        let (half, m) = match read_halfmove(&chars, l) {
            Err(e) => {
                return Err(e);
            },
            Ok(pair) => pair,
        };
        let full = match read_fullmove(&chars, m) {
            Err(e) => {
                return Err(e);
            },
            Ok(n) => n,
        };
        proof {
            lemma_field_ranges(0);
        }
        state.set_turn(turn);
        state.set_castling_rights(&rights);
        let ghost granted = state;
        match ep {
            Some(file) => {
                state.set_ep_target(file);
            },
            None => {},
        }
        state.set_halfmove_ctr(half);
        state.set_fullmove_ctr(full);
        state.zobrist_hash = state.compute_zobrist();
        proof {
            lemma_rights_in_code(state, granted);
        }
        Ok(state)
    }
}

/// The character of a decimal digit.
pub open spec fn digit_char(n: int) -> char {
    if n == 0 {
        '0'
    } else if n == 1 {
        '1'
    } else if n == 2 {
        '2'
    } else if n == 3 {
        '3'
    } else if n == 4 {
        '4'
    } else if n == 5 {
        '5'
    } else if n == 6 {
        '6'
    } else if n == 7 {
        '7'
    } else if n == 8 {
        '8'
    } else {
        '9'
    }
}

/// A number in decimal digits, without leading zeros.
pub open spec fn spec_decimal(n: nat) -> Seq<char>
    decreases n,
{
    if n < 10 {
        seq![digit_char(n as int)]
    } else {
        spec_decimal(n / 10).push(digit_char((n % 10) as int))
    }
}

/// The digit for a run of empty squares; nothing for no run.
pub open spec fn blanks_text(blanks: int) -> Seq<char> {
    if blanks > 0 {
        seq![digit_char(blanks)]
    } else {
        Seq::empty()
    }
}

/// The text of a row from column `col` on, after a run of `blanks` empty
/// squares.
pub open spec fn row_text(board: Seq<Option<Piece>>, row: int, col: int, blanks: int) -> Seq<char>
    decreases 8 - col,
{
    if col >= 8 {
        blanks_text(blanks)
    } else {
        match board[8 * row + col] {
            None => row_text(board, row, col + 1, blanks + 1),
            Some(p) => blanks_text(blanks) + seq![p.spec_chr()] + row_text(board, row, col + 1, 0),
        }
    }
}

/// The text of the rows from `row` down to the first, with `/` between them.
pub open spec fn board_text(board: Seq<Option<Piece>>, row: int) -> Seq<char>
    decreases row,
{
    if row <= 0 {
        row_text(board, 0, 0, 0)
    } else {
        row_text(board, row, 0, 0) + seq!['/'] + board_text(board, row - 1)
    }
}

/// The letter of a quadrant if its right is granted.
pub open spec fn right_text(granted: bool, q: Quadrant) -> Seq<char> {
    if granted {
        seq![q.spec_chr()]
    } else {
        Seq::empty()
    }
}

impl GameState {
    /// The castling field: the letters of the rights that are granted, in
    /// the order `KQkq`, or `-` where none is.
    pub open spec fn castling_text(&self) -> Seq<char> {
        let letters = right_text(self.spec_can_castle(Quadrant::WhiteKingside), Quadrant::WhiteKingside)
            + right_text(self.spec_can_castle(Quadrant::WhiteQueenside), Quadrant::WhiteQueenside)
            + right_text(self.spec_can_castle(Quadrant::BlackKingside), Quadrant::BlackKingside)
            + right_text(self.spec_can_castle(Quadrant::BlackQueenside), Quadrant::BlackQueenside);
        if letters.len() == 0 {
            seq!['-']
        } else {
            letters
        }
    }

    /// The en-passant field: the target square, or `-` where there is none.
    pub open spec fn ep_text(&self) -> Seq<char> {
        if self.spec_ep_legal() {
            seq![
                File::spec_from_index(ep_file_of(self.fen_info) as usize).spec_chr(),
                Rank::spec_from_index(self.spec_ep_row() as usize).spec_chr(),
            ]
        } else {
            seq!['-']
        }
    }

    /// The position in Forsyth-Edwards notation.
    pub open spec fn spec_fen(&self) -> Seq<char> {
        board_text(self.board(), 7) + seq![' ', self.spec_turn().spec_chr(), ' ']
            + self.castling_text() + seq![' '] + self.ep_text() + seq![' '] + spec_decimal(
            halfmove_of(self.fen_info) as nat,
        ) + seq![' '] + spec_decimal(fullmove_of(self.fen_info) as nat)
    }
}

/// The character of a decimal digit.
pub fn digit_to_char(n: u32) -> (chr: char)
    requires
        n < 10,
    ensures
        chr == digit_char(n as int),
{
    if n == 0 {
        '0'
    } else if n == 1 {
        '1'
    } else if n == 2 {
        '2'
    } else if n == 3 {
        '3'
    } else if n == 4 {
        '4'
    } else if n == 5 {
        '5'
    } else if n == 6 {
        '6'
    } else if n == 7 {
        '7'
    } else if n == 8 {
        '8'
    } else {
        '9'
    }
}

/// A number in decimal digits, without leading zeros.
pub fn to_decimal(n: u32) -> (digits: Vec<char>)
    ensures
        digits@ == spec_decimal(n as nat),
    decreases n,
{
    if n < 10 {
        let mut digits: Vec<char> = Vec::new();
        digits.push(digit_to_char(n));
        proof {
            assert(digits@ =~= seq![digit_char(n as int)]);
        }
        digits
    } else {
        let mut digits = to_decimal(n / 10);
        digits.push(digit_to_char(n % 10));
        digits
    }
}

/// Appends the characters of `more` to `text`.
pub fn append_chars(text: &mut Vec<char>, more: &Vec<char>)
    ensures
        final(text)@ == old(text)@ + more@,
{
    let mut i: usize = 0;
    proof {
        assert(text@ =~= old(text)@ + more@.subrange(0, 0));
    }
    while i < more.len()
        invariant
            i <= more@.len(),
            text@ == old(text)@ + more@.subrange(0, i as int),
        decreases more@.len() - i,
    {
        text.push(more[i]);
        proof {
            assert(text@ =~= old(text)@ + more@.subrange(0, i + 1));
        }
        i += 1;
    }
    proof {
        assert(more@.subrange(0, more@.len() as int) =~= more@);
    }
}

/// The text that holds the given characters.
///
/// Calls `String::from_iter` of the standard library on the characters.
/// The contract claims what its documentation says: the string is made of
/// these characters, in this order.
#[verifier::external_body]
fn string_from_chars(chars: Vec<char>) -> (text: String)
    ensures
        text@ == chars@,
{
    String::from_iter(chars)
}

impl GameState {
    /// The text of one row of the board.
    pub fn row_chars(&self, row: usize) -> (text: Vec<char>)
        requires
            row < 8,
        ensures
            text@ == row_text(self.board(), row as int, 0, 0),
    {
        let mut text: Vec<char> = Vec::new();
        let mut blanks: u32 = 0;
        let mut col: usize = 0;
        let ghost total = row_text(self.board(), row as int, 0, 0);
        proof {
            assert(text@ + row_text(self.board(), row as int, 0, 0) =~= total);
        }
        while col < 8
            invariant
                row < 8,
                col <= 8,
                blanks <= col,
                total == row_text(self.board(), row as int, 0, 0),
                text@ + row_text(self.board(), row as int, col as int, blanks as int) == total,
            decreases 8 - col,
        {
            let ghost before = text@;
            match self.piece_at_rc(row, col) {
                None => {
                    blanks = blanks + 1;
                },
                Some(piece) => {
                    if blanks > 0 {
                        text.push(digit_to_char(blanks));
                    }
                    text.push(piece.chr());
                    proof {
                        assert(text@ =~= before + blanks_text(blanks as int) + seq![
                            piece.spec_chr(),
                        ]);
                        assert(text@ + row_text(self.board(), row as int, col + 1, 0) =~= before
                            + (blanks_text(blanks as int) + seq![piece.spec_chr()] + row_text(
                            self.board(),
                            row as int,
                            col + 1,
                            0,
                        )));
                    }
                    blanks = 0;
                },
            }
            col += 1;
        }
        if blanks > 0 {
            text.push(digit_to_char(blanks));
        }
        proof {
            assert(text@ =~= total);
        }
        text
    }

    /// The text of the piece placement.
    pub fn board_chars(&self) -> (text: Vec<char>)
        ensures
            text@ == board_text(self.board(), 7),
    {
        let mut text: Vec<char> = Vec::new();
        let mut row: usize = 7;
        let ghost total = board_text(self.board(), 7);
        proof {
            assert(text@ + board_text(self.board(), 7) =~= total);
        }
        while row > 0
            invariant
                row < 8,
                total == board_text(self.board(), 7),
                text@ + board_text(self.board(), row as int) == total,
            decreases row,
        {
            let ghost before = text@;
            let line = self.row_chars(row);
            append_chars(&mut text, &line);
            text.push('/');
            proof {
                assert(text@ + board_text(self.board(), row - 1) =~= before + (row_text(
                    self.board(),
                    row as int,
                    0,
                    0,
                ) + seq!['/'] + board_text(self.board(), row - 1)));
            }
            row = row - 1;
        }
        let line = self.row_chars(0);
        append_chars(&mut text, &line);
        text
    }

    /// The text of the castling field.
    pub fn castling_str(&self) -> (text: Vec<char>)
        ensures
            text@ == self.castling_text(),
    {
        let mut text: Vec<char> = Vec::new();
        if self.can_castle(Quadrant::WhiteKingside) {
            text.push(Quadrant::WhiteKingside.chr());
        }
        if self.can_castle(Quadrant::WhiteQueenside) {
            text.push(Quadrant::WhiteQueenside.chr());
        }
        if self.can_castle(Quadrant::BlackKingside) {
            text.push(Quadrant::BlackKingside.chr());
        }
        if self.can_castle(Quadrant::BlackQueenside) {
            text.push(Quadrant::BlackQueenside.chr());
        }
        proof {
            assert(text@ =~= right_text(
                self.spec_can_castle(Quadrant::WhiteKingside),
                Quadrant::WhiteKingside,
            ) + right_text(self.spec_can_castle(Quadrant::WhiteQueenside), Quadrant::WhiteQueenside)
                + right_text(self.spec_can_castle(Quadrant::BlackKingside), Quadrant::BlackKingside)
                + right_text(
                self.spec_can_castle(Quadrant::BlackQueenside),
                Quadrant::BlackQueenside,
            ));
        }
        if text.len() == 0 {
            text.push('-');
            proof {
                assert(text@ =~= seq!['-']);
            }
        }
        text
    }

    /// The position in Forsyth-Edwards notation.
    pub fn fen(&self) -> (text: String)
        ensures
            text@ == self.spec_fen(),
    {
        let mut text = self.board_chars();
        text.push(' ');
        text.push(self.turn().chr());
        text.push(' ');
        let castling = self.castling_str();
        append_chars(&mut text, &castling);
        text.push(' ');
        let ghost before = text@;
        if self.ep_legal() {
            text.push(self.ep_file().chr());
            text.push(self.ep_rank().chr());
        } else {
            text.push('-');
        }
        proof {
            assert(text@ =~= before + self.ep_text());
        }
        text.push(' ');
        let half = to_decimal(self.halfmove_ctr());
        append_chars(&mut text, &half);
        text.push(' ');
        let full = to_decimal(self.fullmove_ctr());
        append_chars(&mut text, &full);
        proof {
            assert(text@ =~= self.spec_fen());
        }
        string_from_chars(text)
    }
}

} // verus!
