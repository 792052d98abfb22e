//! Writing a position and reading the text again gives the position back.

use vstd::prelude::*;
use crate::board::color::Color;
use crate::board::line::{File, Rank};
use crate::board::piece::Piece;
use crate::board::zone::Quadrant;
use crate::game::position::{
    castling_of,
    ep_file_of,
    ep_flag_of,
    fullmove_of,
    halfmove_of,
    lemma_field_ranges,
    lemma_same_position,
    right_of,
    turn_of,
    GameState,
};
use super::chr::rank_digit_index;
use super::err::FenError;
use super::fen::{
    blanks_text,
    board_text,
    digit_char,
    digit_value,
    digits_value,
    empty_board,
    ep_row_for,
    field_end,
    holds_fields,
    lemma_read_board_step,
    lemma_read_castling_step,
    right_text,
    row_text,
    spec_decimal,
    spec_from_fen,
    spec_read_board,
    spec_read_castling,
    spec_read_ep,
    spec_read_fullmove,
    spec_read_halfmove,
    spec_read_turn,
};

verus! {

/// The text `t` stands in `s` from place `i` on.
pub open spec fn holds_at(s: Seq<char>, i: int, t: Seq<char>) -> bool {
    &&& 0 <= i
    &&& i + t.len() <= s.len()
    &&& forall|j: int| 0 <= j < t.len() ==> s[i + j] == #[trigger] t[j]
}

/// Where two texts in a row stand in `s`, each of them does.
pub proof fn lemma_holds_split(s: Seq<char>, i: int, a: Seq<char>, b: Seq<char>)
    requires
        holds_at(s, i, a + b),
    ensures
        holds_at(s, i, a),
        holds_at(s, i + a.len(), b),
{
    assert forall|j: int| 0 <= j < a.len() implies s[i + j] == #[trigger] a[j] by {
        assert((a + b)[j] == a[j]);
    }
    assert forall|j: int| 0 <= j < b.len() implies s[i + a.len() + j] == #[trigger] b[j] by {
        assert((a + b)[a.len() + j] == b[j]);
    }
}

/// The board as far as the reader has filled it when it is about to read
/// column `c` of row `r`: the rows above and the columns before, the rest
/// empty.
pub open spec fn partial_board(b: Seq<Option<Piece>>, r: int, c: int) -> Seq<Option<Piece>> {
    Seq::new(
        64,
        |sq: int|
            if sq / 8 > r || (sq / 8 == r && sq % 8 < c) {
                b[sq]
            } else {
                None
            },
    )
}

/// The letter of a piece is no space, no slash and no digit, and names the piece.
pub proof fn lemma_piece_letter(p: Piece)
    ensures
        p.spec_chr() != ' ',
        p.spec_chr() != '/',
        rank_digit_index(p.spec_chr()) is None,
        Piece::spec_from_char(p.spec_chr()) == Ok::<Piece, FenError>(p),
{
}

/// The digit of a run of one to eight empty squares is no space and no
/// slash, and names the run.
pub proof fn lemma_run_digit(k: int)
    requires
        1 <= k <= 8,
    ensures
        digit_char(k) != ' ',
        digit_char(k) != '/',
        rank_digit_index(digit_char(k)) == Some((k - 1) as usize),
{
}

/// Column `j` of row `r` is empty.
pub open spec fn empty_at(b: Seq<Option<Piece>>, r: int, j: int) -> bool {
    b[8 * r + j] is None
}

/// Reading the rest of a written row fills the row.
pub proof fn lemma_read_row(s: Seq<char>, i: int, b: Seq<Option<Piece>>, r: int, c: int, k: int)
    requires
        b.len() == 64,
        0 <= r < 8,
        0 <= k <= c <= 8,
        holds_at(s, i, row_text(b, r, c, k)),
        forall|j: int| c - k <= j < c ==> #[trigger] empty_at(b, r, j),
    ensures
        spec_read_board(s, i, r, c - k, partial_board(b, r, c)) == spec_read_board(
            s,
            i + row_text(b, r, c, k).len(),
            r,
            8,
            partial_board(b, r, 8),
        ),
    decreases 8 - c,
{
    let text = row_text(b, r, c, k);
    let acc = partial_board(b, r, c);
    if c >= 8 {
        if k > 0 {
            lemma_run_digit(k);
            assert(s[i + 0] == text[0]);
            lemma_read_board_step(s, i, r, c - k, acc);
        }
    } else {
        match b[8 * r + c] {
            None => {
                assert(partial_board(b, r, c + 1) =~= acc);
                assert(empty_at(b, r, c));
                lemma_read_row(s, i, b, r, c + 1, k + 1);
            },
            Some(p) => {
                let rest = row_text(b, r, c + 1, 0);
                let head = blanks_text(k) + seq![p.spec_chr()];
                assert(text == head + rest);
                lemma_holds_split(s, i, head, rest);
                lemma_holds_split(s, i, blanks_text(k), seq![p.spec_chr()]);
                lemma_piece_letter(p);
                let at: int = i + blanks_text(k).len();
                assert(s[at + 0] == seq![p.spec_chr()][0]);
                if k > 0 {
                    lemma_run_digit(k);
                    assert(s[i + 0] == blanks_text(k)[0]);
                    lemma_read_board_step(s, i, r, c - k, acc);
                }
                lemma_read_board_step(s, at, r, c, acc);
                assert(acc.update(8 * r + c, Some(p)) =~= partial_board(b, r, c + 1));
                lemma_read_row(s, at + 1, b, r, c + 1, 0);
            },
        }
    }
}

/// Reading the written rows from `r` down to the first, and the space
/// after them, gives the board.
pub proof fn lemma_read_rows(s: Seq<char>, i: int, b: Seq<Option<Piece>>, r: int)
    requires
        b.len() == 64,
        0 <= r < 8,
        holds_at(s, i, board_text(b, r)),
        i + board_text(b, r).len() < s.len(),
        s[i + board_text(b, r).len()] == ' ',
    ensures
        spec_read_board(s, i, r, 0, partial_board(b, r, 0)) == Ok::<
            (Seq<Option<Piece>>, int),
            FenError,
        >((b, i + board_text(b, r).len() + 1)),
    decreases r,
{
    let row = row_text(b, r, 0, 0);
    if r == 0 {
        lemma_read_row(s, i, b, 0, 0, 0);
        let at: int = i + row.len();
        lemma_read_board_step(s, at, 0, 8, partial_board(b, 0, 8));
        assert(partial_board(b, 0, 8) =~= b);
    } else {
        let below = board_text(b, r - 1);
        assert(board_text(b, r) == row + seq!['/'] + below);
        lemma_holds_split(s, i, row + seq!['/'], below);
        lemma_holds_split(s, i, row, seq!['/']);
        lemma_read_row(s, i, b, r, 0, 0);
        let at: int = i + row.len();
        assert(s[at + 0] == seq!['/'][0]);
        lemma_read_board_step(s, at, r, 8, partial_board(b, r, 8));
        assert(partial_board(b, r, 8) =~= partial_board(b, r - 1, 0));
        lemma_read_rows(s, at + 1, b, r - 1);
    }
}

/// The letters of the rights granted among the quadrants from `q` on.
pub open spec fn letters_from(state: GameState, q: int) -> Seq<char>
    decreases 4 - q,
{
    if q >= 4 || q < 0 {
        Seq::empty()
    } else {
        right_text(
            state.spec_can_castle(Quadrant::spec_from_index(q as usize)),
            Quadrant::spec_from_index(q as usize),
        ) + letters_from(state, q + 1)
    }
}

/// The rights granted among the quadrants before `q`, by quadrant index.
pub open spec fn rights_before(state: GameState, q: int) -> Seq<bool> {
    Seq::new(
        4,
        |j: int| j < q && state.spec_can_castle(Quadrant::spec_from_index(j as usize)),
    )
}

/// Reading the written letters of the rights from quadrant `q` on, and the
/// space after them, gives the rights.
pub proof fn lemma_read_rights(s: Seq<char>, i: int, state: GameState, q: int, low: int)
    requires
        0 <= q <= 4,
        0 <= low <= q,
        holds_at(s, i, letters_from(state, q)),
        i + letters_from(state, q).len() < s.len(),
        s[i + letters_from(state, q).len()] == ' ',
        low > 0 || letters_from(state, q).len() > 0,
    ensures
        spec_read_castling(s, i, low, rights_before(state, q)) == Ok::<(Seq<bool>, int), FenError>(
            (rights_before(state, 4), i + letters_from(state, q).len() + 1),
        ),
    decreases 4 - q,
{
    let acc = rights_before(state, q);
    lemma_read_castling_step(s, i, low, acc);
    if q == 4 {
    } else {
        let quadrant = Quadrant::spec_from_index(q as usize);
        if state.spec_can_castle(quadrant) {
            let rest = letters_from(state, q + 1);
            lemma_holds_split(s, i, seq![quadrant.spec_chr()], rest);
            assert(s[i + 0] == seq![quadrant.spec_chr()][0]);
            assert(Quadrant::spec_from_char(quadrant.spec_chr()) == Ok::<Quadrant, FenError>(
                quadrant,
            ));
            assert(acc.update(q, true) =~= rights_before(state, q + 1));
            lemma_read_rights(s, i + 1, state, q + 1, q + 1);
        } else {
            assert(letters_from(state, q) =~= letters_from(state, q + 1));
            assert(acc =~= rights_before(state, q + 1));
            lemma_read_rights(s, i, state, q + 1, low);
        }
    }
}

/// A number in decimal digits holds no space, and reads as the number.
pub proof fn lemma_decimal(n: nat)
    ensures
        spec_decimal(n).len() > 0,
        forall|j: int| 0 <= j < spec_decimal(n).len() ==> spec_decimal(n)[j] != ' ',
        digits_value(spec_decimal(n)) == Some(n as int),
    decreases n,
{
    if n < 10 {
        let d = spec_decimal(n);
        assert(d.drop_last() =~= Seq::<char>::empty());
        assert(digits_value(d.drop_last()) == Some(0int));
        assert(digit_value(digit_char(n as int)) == Some(n as int));
    } else {
        lemma_decimal(n / 10);
        let d = spec_decimal(n);
        let front = spec_decimal(n / 10);
        assert(d.drop_last() =~= front);
        assert(d.last() == digit_char((n % 10) as int));
        assert(digit_value(digit_char((n % 10) as int)) == Some((n % 10) as int));
    }
}

/// A text without spaces that stands at place `i` and is followed by a
/// space or by the end is the field at place `i`.
pub proof fn lemma_field_end(s: Seq<char>, i: int, t: Seq<char>, done: int)
    requires
        holds_at(s, i, t),
        0 <= done <= t.len(),
        forall|j: int| 0 <= j < t.len() ==> t[j] != ' ',
        i + t.len() == s.len() || s[i + t.len()] == ' ',
    ensures
        field_end(s, i + done) == i + t.len(),
    decreases t.len() - done,
{
    if done < t.len() {
        assert(s[i + done] == t[done]);
        lemma_field_end(s, i, t, done + 1);
    }
}

proof fn bv_info_fields(a: u32, b: u32)
    by (bit_vector)
    requires
        a & 0xF == b & 0xF,
        (a >> 4) & 1 == (b >> 4) & 1,
        (a >> 5) & 1 == (b >> 5) & 1,
        (a >> 6) & 7 == (b >> 6) & 7,
        (a >> 9) & 0xFF == (b >> 9) & 0xFF,
        a >> 17 == b >> 17,
    ensures
        a == b,
{
}

proof fn bv_rights_code(a: u32, b: u32)
    by (bit_vector)
    requires
        ((a >> 0) & 1 == 1) == ((b >> 0) & 1 == 1),
        ((a >> 1) & 1 == 1) == ((b >> 1) & 1 == 1),
        ((a >> 2) & 1 == 1) == ((b >> 2) & 1 == 1),
        ((a >> 3) & 1 == 1) == ((b >> 3) & 1 == 1),
    ensures
        a & 0xF == b & 0xF,
{
}

impl GameState {
    /// Forsyth-Edwards notation can hold the side info: the fullmove
    /// number is at least one, and there is no en-passant file without an
    /// en-passant target.
    pub open spec fn fen_holds(&self) -> bool {
        fullmove_of(self.fen_info) >= 1 && (!self.spec_ep_legal() ==> ep_file_of(self.fen_info)
            == 0)
    }

    /// The file of the en-passant target, if there is one.
    pub open spec fn spec_ep_target_file(&self) -> Option<File> {
        if self.spec_ep_legal() {
            Some(File::spec_from_index(ep_file_of(self.fen_info) as usize))
        } else {
            None
        }
    }

    /// Where the text before the side to move ends: after the piece
    /// placement and its space.
    pub open spec fn turn_place(&self) -> int {
        board_text(self.board(), 7).len() as int + 1
    }

    /// Where the en-passant field starts in the written position.
    pub open spec fn ep_place(&self) -> int {
        self.turn_place() + 2 + self.castling_text().len() + 1
    }

    /// Where the halfmove clock starts in the written position.
    pub open spec fn halfmove_place(&self) -> int {
        self.ep_place() + self.ep_text().len() + 1
    }

    /// Where the fullmove number starts in the written position.
    pub open spec fn fullmove_place(&self) -> int {
        self.halfmove_place() + spec_decimal(halfmove_of(self.fen_info) as nat).len() + 1
    }

    /// Where each field stands in the written position.
    pub proof fn lemma_layout(&self)
        ensures
            ({
                let s = self.spec_fen();
                let half = spec_decimal(halfmove_of(self.fen_info) as nat);
                let full = spec_decimal(fullmove_of(self.fen_info) as nat);
                &&& holds_at(s, 0, board_text(self.board(), 7))
                &&& holds_at(s, self.turn_place() - 1, seq![' ', self.spec_turn().spec_chr(), ' '])
                &&& holds_at(s, self.turn_place() + 2, self.castling_text())
                &&& holds_at(s, self.ep_place() - 1, seq![' '])
                &&& holds_at(s, self.ep_place(), self.ep_text())
                &&& holds_at(s, self.halfmove_place() - 1, seq![' '])
                &&& holds_at(s, self.halfmove_place(), half)
                &&& holds_at(s, self.fullmove_place() - 1, seq![' '])
                &&& holds_at(s, self.fullmove_place(), full)
                &&& self.fullmove_place() + full.len() == s.len()
            }),
    {
        let s = self.spec_fen();
        let board = board_text(self.board(), 7);
        let turn = seq![' ', self.spec_turn().spec_chr(), ' '];
        let castling = self.castling_text();
        let ep = self.ep_text();
        let half = spec_decimal(halfmove_of(self.fen_info) as nat);
        let full = spec_decimal(fullmove_of(self.fen_info) as nat);
        let space = seq![' '];
        let a2 = board + turn;
        let a3 = a2 + castling;
        let a4 = a3 + space;
        let a5 = a4 + ep;
        let a6 = a5 + space;
        let a7 = a6 + half;
        let a8 = a7 + space;
        assert(s == a8 + full);
        assert(holds_at(s, 0, s));
        lemma_holds_split(s, 0, a8, full);
        lemma_holds_split(s, 0, a7, space);
        lemma_holds_split(s, 0, a6, half);
        lemma_holds_split(s, 0, a5, space);
        lemma_holds_split(s, 0, a4, ep);
        lemma_holds_split(s, 0, a3, space);
        lemma_holds_split(s, 0, a2, castling);
        lemma_holds_split(s, 0, board, turn);
    }

    /// The six fields that the written position says.
    pub proof fn lemma_fen_is_read(&self)
        requires
            self.fen_holds(),
        ensures
            spec_from_fen(self.spec_fen()) == Ok::<
                (Seq<Option<Piece>>, Color, Seq<bool>, Option<File>, u32, u32),
                FenError,
            >(
                (
                    self.board(),
                    self.spec_turn(),
                    rights_before(*self, 4),
                    self.spec_ep_target_file(),
                    halfmove_of(self.fen_info),
                    fullmove_of(self.fen_info),
                ),
            ),
    {
        let s = self.spec_fen();
        let i = self.turn_place();
        self.lemma_layout();
        self.lemma_board_is_read();
        self.lemma_turn_is_read();
        self.lemma_castling_is_read(s, i + 2);
        self.lemma_ep_is_read(s, self.ep_place());
        self.lemma_counters_are_read();
    }

    /// The written piece placement reads as the board of the position.
    pub proof fn lemma_board_is_read(&self)
        ensures
            spec_read_board(self.spec_fen(), 0, 7, 0, empty_board()) == Ok::<
                (Seq<Option<Piece>>, int),
                FenError,
            >((self.board(), self.turn_place())),
    {
        let s = self.spec_fen();
        self.lemma_layout();
        let turn = seq![' ', self.spec_turn().spec_chr(), ' '];
        assert(s[self.turn_place() - 1 + 0] == turn[0]);
        assert(partial_board(self.board(), 7, 0) =~= empty_board());
        lemma_read_rows(s, 0, self.board(), 7);
    }

    /// The written side to move reads as the side to move of the position.
    pub proof fn lemma_turn_is_read(&self)
        ensures
            spec_read_turn(self.spec_fen(), self.turn_place()) == Ok::<(Color, int), FenError>(
                (self.spec_turn(), self.turn_place() + 2),
            ),
    {
        let s = self.spec_fen();
        self.lemma_layout();
        let turn = seq![' ', self.spec_turn().spec_chr(), ' '];
        assert(s[self.turn_place() - 1 + 1] == turn[1]);
        assert(s[self.turn_place() - 1 + 2] == turn[2]);
    }

    /// The written counters read as the counters of the position.
    pub proof fn lemma_counters_are_read(&self)
        requires
            fullmove_of(self.fen_info) >= 1,
        ensures
            spec_read_halfmove(self.spec_fen(), self.halfmove_place()) == Ok::<
                (u32, int),
                FenError,
            >((halfmove_of(self.fen_info), self.fullmove_place())),
            spec_read_fullmove(self.spec_fen(), self.fullmove_place()) == Ok::<u32, FenError>(
                fullmove_of(self.fen_info),
            ),
    {
        let s = self.spec_fen();
        let half = spec_decimal(halfmove_of(self.fen_info) as nat);
        let full = spec_decimal(fullmove_of(self.fen_info) as nat);
        let l = self.halfmove_place();
        let m = self.fullmove_place();
        self.lemma_layout();
        lemma_field_ranges(self.fen_info);
        lemma_decimal(halfmove_of(self.fen_info) as nat);
        lemma_decimal(fullmove_of(self.fen_info) as nat);
        assert(s[m - 1 + 0] == seq![' '][0]);
        lemma_field_end(s, l, half, 0);
        assert(s.subrange(l, l + half.len()) =~= half);
        lemma_field_end(s, m, full, 0);
        assert(s.subrange(m, s.len() as int) =~= full);
    }

    /// The written castling field reads as the rights of the position.
    pub proof fn lemma_castling_is_read(&self, s: Seq<char>, j: int)
        requires
            holds_at(s, j, self.castling_text()),
            holds_at(s, j + self.castling_text().len(), seq![' ']),
        ensures
            spec_read_castling(s, j, 0, seq![false, false, false, false]) == Ok::<
                (Seq<bool>, int),
                FenError,
            >((rights_before(*self, 4), j + self.castling_text().len() + 1)),
    {
        let letters = letters_from(*self, 0);
        reveal_with_fuel(letters_from, 5);
        assert(letters =~= right_text(
            self.spec_can_castle(Quadrant::WhiteKingside),
            Quadrant::WhiteKingside,
        ) + right_text(self.spec_can_castle(Quadrant::WhiteQueenside), Quadrant::WhiteQueenside)
            + right_text(self.spec_can_castle(Quadrant::BlackKingside), Quadrant::BlackKingside)
            + right_text(self.spec_can_castle(Quadrant::BlackQueenside), Quadrant::BlackQueenside));
        let none = seq![false, false, false, false];
        assert(rights_before(*self, 0) =~= none);
        assert(s[j + self.castling_text().len() + 0] == seq![' '][0]);
        if letters.len() == 0 {
            assert(s[j + 0] == seq!['-'][0]);
            lemma_read_castling_step(s, j, 0, none);
            lemma_read_castling_step(s, j + 1, 5, none);
            assert(rights_before(*self, 4) =~= none);
        } else {
            lemma_read_rights(s, j, *self, 0, 0);
        }
    }

    /// The written en-passant field reads as the target of the position.
    pub proof fn lemma_ep_is_read(&self, s: Seq<char>, k: int)
        requires
            holds_at(s, k, self.ep_text()),
            holds_at(s, k + self.ep_text().len(), seq![' ']),
        ensures
            spec_read_ep(s, k, self.spec_turn()) == Ok::<(Option<File>, int), FenError>(
                (self.spec_ep_target_file(), k + self.ep_text().len() + 1),
            ),
    {
        lemma_field_ranges(self.fen_info);
        let text = self.ep_text();
        assert(s[k + 0] == text[0]);
        assert(s[k + text.len() + 0] == seq![' '][0]);
        if self.spec_ep_legal() {
            assert(s[k + 1] == text[1]);
            let file = File::spec_from_index(ep_file_of(self.fen_info) as usize);
            let rank = Rank::spec_from_index(self.spec_ep_row() as usize);
            assert(File::spec_from_chr(file.spec_chr()) == Ok::<
                File,
                super::err::CoordinateError,
            >(file));
            assert(Rank::spec_from_chr(rank.spec_chr()) == Ok::<
                Rank,
                super::err::CoordinateError,
            >(rank));
            assert(rank.spec_index() == ep_row_for(self.spec_turn()));
            assert(file.spec_chr() != '-');
        }
    }
}

/// A position that Forsyth-Edwards notation can hold is the position that
/// reading its text gives.
pub proof fn lemma_fen_round_trip(state: GameState, read: GameState)
    requires
        state.wf(),
        state.fen_holds(),
        read.wf(),
        match spec_from_fen(state.spec_fen()) {
            Ok((board, turn, rights, ep, half, full)) => holds_fields(
                read,
                board,
                turn,
                rights,
                ep,
                half,
                full,
            ),
            Err(_) => false,
        },
    ensures
        read == state,
{
    state.lemma_fen_is_read();
    lemma_field_ranges(state.fen_info);
    lemma_field_ranges(read.fen_info);
    let a = read.fen_info;
    let b = state.fen_info;
    assert(read.spec_can_castle(Quadrant::WhiteKingside) == state.spec_can_castle(
        Quadrant::WhiteKingside,
    ));
    assert(read.spec_can_castle(Quadrant::WhiteQueenside) == state.spec_can_castle(
        Quadrant::WhiteQueenside,
    ));
    assert(read.spec_can_castle(Quadrant::BlackKingside) == state.spec_can_castle(
        Quadrant::BlackKingside,
    ));
    assert(read.spec_can_castle(Quadrant::BlackQueenside) == state.spec_can_castle(
        Quadrant::BlackQueenside,
    ));
    assert(right_of(a, 0) == right_of(b, 0));
    assert(right_of(a, 1) == right_of(b, 1));
    assert(right_of(a, 2) == right_of(b, 2));
    assert(right_of(a, 3) == right_of(b, 3));
    bv_rights_code(a, b);
    assert(castling_of(a) == castling_of(b));
    assert(turn_of(a) == turn_of(b));
    assert(ep_flag_of(a) == ep_flag_of(b));
    assert(ep_file_of(a) == ep_file_of(b));
    bv_info_fields(a, b);
    lemma_same_position(read, state);
}

} // verus!
