//! Pseudo-legal destinations per piece, attack detection, and the legal
//! moves of a position.
//!
//! What a move is and when it is legal is stated over the board as a
//! sequence of squares; the bitboards and the attack tables compute it.

use vstd::prelude::*;
use crate::bits::{bit, lemma_bit_ops, lemma_bits_equal, lemma_zero_iff_no_bits, lowest_bit};
use crate::board::color::Color;
use crate::board::direction::Direction;
use crate::board::piece::{GenericPiece, Moveset, Piece, Promotion};
use crate::board::square::Square;
use crate::board::zone::{FileSide, Quadrant};
use crate::hashing::bitmask;
use crate::hashing::bitmask::{distance, king_step, knight_jump, on_ray, pawn_attack, pawn_push};
use crate::hashing::magic;
use crate::hashing::magic::MagicTables;
use super::board_move::{board_after, fits, lemma_after_then_before, lemma_unpack, Move};
use super::position::{lemma_same_position, GameState};

verus! {

/// A bound on the number of legal moves of any position that can arise in
/// a game. A buffer of this capacity never grows while it takes the legal
/// moves of such a position.
pub const MAX_LEGAL_MOVES: usize = 321;

/// A slider on `s` reaches `t` along `d` on the board: `t` is another
/// square of the ray and every square strictly between the two is empty.
pub open spec fn slides_on(board: Seq<Option<Piece>>, d: Direction, s: int, t: int) -> bool {
    &&& 0 <= t < 64
    &&& t != s
    &&& on_ray(d, s, t)
    &&& forall|u: int|
        0 <= u < 64 && on_ray(d, s, u) && 0 < distance(s, u) < distance(s, t) ==> (
        #[trigger] board[u]) is None
}

pub open spec fn rook_reaches(board: Seq<Option<Piece>>, s: int, t: int) -> bool {
    slides_on(board, Direction::North, s, t) || slides_on(board, Direction::East, s, t)
        || slides_on(board, Direction::South, s, t) || slides_on(board, Direction::West, s, t)
}

pub open spec fn bishop_reaches(board: Seq<Option<Piece>>, s: int, t: int) -> bool {
    slides_on(board, Direction::Northeast, s, t) || slides_on(board, Direction::Southeast, s, t)
        || slides_on(board, Direction::Southwest, s, t) || slides_on(
        board,
        Direction::Northwest,
        s,
        t,
    )
}

/// A piece that moves as `m` does and stands on `s` attacks `t`. A pawn
/// attacks its two forward diagonals, whatever stands there.
pub open spec fn piece_attacks(board: Seq<Option<Piece>>, m: Moveset, s: int, t: int) -> bool {
    0 <= t < 64 && match m {
        Moveset::RookMove => rook_reaches(board, s, t),
        Moveset::KnightMove => knight_jump(s, t),
        Moveset::BishopMove => bishop_reaches(board, s, t),
        Moveset::QueenMove => rook_reaches(board, s, t) || bishop_reaches(board, s, t),
        Moveset::KingMove => king_step(s, t),
        Moveset::WhitePawnMove => pawn_attack(Color::White, s, t),
        Moveset::BlackPawnMove => pawn_attack(Color::Black, s, t),
    }
}

/// The same, with the occupancy as a mask.
pub open spec fn mask_attacks(occ: u64, m: Moveset, s: int, t: int) -> bool {
    0 <= t < 64 && match m {
        Moveset::RookMove => magic::rook_attack(occ, s, t),
        Moveset::KnightMove => knight_jump(s, t),
        Moveset::BishopMove => magic::bishop_attack(occ, s, t),
        Moveset::QueenMove => magic::queen_attack(occ, s, t),
        Moveset::KingMove => king_step(s, t),
        Moveset::WhitePawnMove => pawn_attack(Color::White, s, t),
        Moveset::BlackPawnMove => pawn_attack(Color::Black, s, t),
    }
}

/// The mask holds the squares that are not empty on the board.
pub open spec fn is_occupancy(occ: u64, board: Seq<Option<Piece>>) -> bool {
    forall|u: int| 0 <= u < 64 ==> #[trigger] bit(occ, u) == (board[u] is Some)
}

/// With the occupancy of the board as mask, sliding along a ray is the
/// same on the mask and on the board.
pub proof fn lemma_slides_agree(occ: u64, board: Seq<Option<Piece>>, d: Direction, s: int, t: int)
    requires
        is_occupancy(occ, board),
    ensures
        magic::slides(occ, d, s, t) == slides_on(board, d, s, t),
{
    if 0 <= t < 64 && t != s && on_ray(d, s, t) {
        if magic::slides(occ, d, s, t) {
            assert forall|u: int|
                0 <= u < 64 && on_ray(d, s, u) && 0 < distance(s, u) < distance(s, t) implies (
            #[trigger] board[u]) is None by {
                assert(!bit(occ, u));
            }
        }
        if slides_on(board, d, s, t) {
            assert forall|u: int|
                0 <= u < 64 && on_ray(d, s, u) && 0 < distance(s, u) < distance(
                    s,
                    t,
                ) implies !#[trigger] bit(occ, u) by {
                assert(board[u] is None);
            }
        }
    }
}

/// With the occupancy of the board as mask, attacking is the same on the
/// mask and on the board.
pub proof fn lemma_attacks_agree(occ: u64, board: Seq<Option<Piece>>, m: Moveset, s: int, t: int)
    requires
        is_occupancy(occ, board),
    ensures
        mask_attacks(occ, m, s, t) == piece_attacks(board, m, s, t),
{
    lemma_slides_agree(occ, board, Direction::North, s, t);
    lemma_slides_agree(occ, board, Direction::East, s, t);
    lemma_slides_agree(occ, board, Direction::South, s, t);
    lemma_slides_agree(occ, board, Direction::West, s, t);
    lemma_slides_agree(occ, board, Direction::Northeast, s, t);
    lemma_slides_agree(occ, board, Direction::Southeast, s, t);
    lemma_slides_agree(occ, board, Direction::Southwest, s, t);
    lemma_slides_agree(occ, board, Direction::Northwest, s, t);
}

/// A piece of `color` stands on `a` and attacks `t`.
pub open spec fn attacker(board: Seq<Option<Piece>>, color: Color, a: int, t: int) -> bool {
    &&& 0 <= a < 64
    &&& board[a] is Some
    &&& board[a]->0.spec_color() == color
    &&& piece_attacks(board, board[a]->0.spec_moveset(), a, t)
}

/// A piece of `color` on a square below `bound` attacks `t`.
pub open spec fn attacked_below(board: Seq<Option<Piece>>, color: Color, t: int, bound: int) -> bool {
    exists|a: int| 0 <= a < bound && #[trigger] attacker(board, color, a, t)
}

/// A piece of `color` attacks `t`.
pub open spec fn attacked_by(board: Seq<Option<Piece>>, color: Color, t: int) -> bool {
    attacked_below(board, color, t, 64)
}

/// A king of `color` stands on a square that the other color attacks.
pub open spec fn king_attacked(board: Seq<Option<Piece>>, color: Color) -> bool {
    exists|k: int|
        0 <= k < 64 && board[k] == Some(GenericPiece::King.spec_as_color(color))
            && #[trigger] attacked_by(board, color.spec_inv(), k)
}

impl Moveset {
    /// The squares that a piece of this moveset on `square` attacks when
    /// the occupancy is `blockers`.
    pub fn attacks(self, tables: &MagicTables, blockers: u64, square: Square) -> (mask: u64)
        requires
            tables.wf(),
        ensures
            forall|t: int|
                0 <= t < 64 ==> #[trigger] bit(mask, t) == mask_attacks(
                    blockers,
                    self,
                    square.index() as int,
                    t,
                ),
    {
        let i = square.index();
        match self {
            Moveset::RookMove => magic::get_rook_moves(tables, i, blockers),
            Moveset::KnightMove => bitmask::knight_moves(i),
            Moveset::BishopMove => magic::get_bishop_moves(tables, i, blockers),
            Moveset::QueenMove => magic::get_queen_moves(tables, i, blockers),
            Moveset::KingMove => bitmask::king_moves(i),
            Moveset::WhitePawnMove => bitmask::pawn_attacks(Color::White, i),
            Moveset::BlackPawnMove => bitmask::pawn_attacks(Color::Black, i),
        }
    }

    /// The color of a pawn moveset.
    pub open spec fn pawn_color(self) -> Option<Color> {
        match self {
            Moveset::WhitePawnMove => Some(Color::White),
            Moveset::BlackPawnMove => Some(Color::Black),
            _ => None,
        }
    }

    /// The squares that a piece of this moveset on `square` threatens: the
    /// squares it attacks, and for a pawn only those on which a piece of
    /// the other side stands or which are the en-passant target.
    pub fn pseudo_legal_threats(self, tables: &MagicTables, state: &GameState, square: Square) -> (mask: u64)
        requires
            tables.wf(),
            state.placement_wf(),
        ensures
            forall|t: int|
                0 <= t < 64 ==> #[trigger] bit(mask, t) == state.spec_threat(
                    self,
                    square.index() as int,
                    t,
                ),
    {
        let reach = self.attacks(tables, state.full_occ(), square);
        proof {
            lemma_bit_ops();
            assert forall|t: int| 0 <= t < 64 implies #[trigger] bit(reach, t) == piece_attacks(
                state.board(),
                self,
                square.index() as int,
                t,
            ) by {
                lemma_attacks_agree(
                    state.bitboard[14],
                    state.board(),
                    self,
                    square.index() as int,
                    t,
                );
            }
        }
        match self {
            Moveset::WhitePawnMove => {
                let targets = state.occ(Color::Black) | match state.turn() {
                    Color::White => state.ep_mask(),
                    Color::Black => 0,
                };
                proof {
                    assert(state.bitboard[12 + 1int] == state.bitboard[13]);
                    assert forall|t: int| 0 <= t < 64 implies #[trigger] bit(reach & targets, t)
                        == state.spec_threat(self, square.index() as int, t) by {
                        assert(bit(state.bitboard[12 + 1int], t) == (state.piece_on_square[t] is Some
                            && state.piece_on_square[t]->0.spec_color().spec_index() == 1));
                    }
                }
                reach & targets
            },
            Moveset::BlackPawnMove => {
                let targets = state.occ(Color::White) | match state.turn() {
                    Color::White => 0,
                    Color::Black => state.ep_mask(),
                };
                proof {
                    assert(state.bitboard[12 + 0int] == state.bitboard[12]);
                    assert forall|t: int| 0 <= t < 64 implies #[trigger] bit(reach & targets, t)
                        == state.spec_threat(self, square.index() as int, t) by {
                        assert(bit(state.bitboard[12 + 0int], t) == (state.piece_on_square[t] is Some
                            && state.piece_on_square[t]->0.spec_color().spec_index() == 0));
                    }
                }
                reach & targets
            },
            _ => reach,
        }
    }

    /// The squares to which a piece of this moveset on `square` may go
    /// without threatening them: where a pawn may advance, and where a king
    /// may castle to.
    pub fn pseudo_legal_nonthreats(self, tables: &MagicTables, state: &GameState, square: Square) -> (mask: u64)
        requires
            tables.wf(),
            state.placement_wf(),
        ensures
            forall|t: int|
                0 <= t < 64 ==> #[trigger] bit(mask, t) == state.spec_nonthreat(
                    self,
                    square.index() as int,
                    t,
                ),
    {
        proof {
            lemma_bit_ops();
        }
        match self {
            Moveset::KingMove => {
                let kingside = FileSide::Kingside.to_quadrant(state.turn());
                let queenside = FileSide::Queenside.to_quadrant(state.turn());
                let mut mask: u64 = 0;
                if square == kingside.king_start() && state.may_castle(tables, kingside) {
                    mask = mask | kingside.king_end().mask();
                }
                if square == queenside.king_start() && state.may_castle(tables, queenside) {
                    mask = mask | queenside.king_end().mask();
                }
                mask
            },
            Moveset::WhitePawnMove => {
                let blockers = state.full_occ() & !square.mask();
                let ahead = Direction::North.shift(blockers, 1);
                let pushes = bitmask::pawn_moves(Color::White, square.index());
                proof {
                    let s = square.index() as int;
                    assert forall|t: int| 0 <= t < 64 implies #[trigger] bit(
                        pushes & !blockers & !ahead,
                        t,
                    ) == state.spec_nonthreat(self, s, t) by {
                        assert(bit(ahead, t) == bitmask::shifted_bit(blockers, 1, 0, t));
                        if pawn_push(Color::White, s, t) {
                            assert(bit(state.bitboard[14], t) == (state.piece_on_square[t] is Some));
                            assert(bit(state.bitboard[14], t - 8) == (state.piece_on_square[t - 8] is Some));
                            assert(bit(blockers, t - 8) == (bit(state.bitboard[14], t - 8) && t - 8
                                != s));
                            assert(8 * (t / 8 - 1) + t % 8 == t - 8);
                        }
                    }
                }
                pushes & !blockers & !ahead
            },
            Moveset::BlackPawnMove => {
                let blockers = state.full_occ() & !square.mask();
                let ahead = Direction::South.shift(blockers, 1);
                let pushes = bitmask::pawn_moves(Color::Black, square.index());
                proof {
                    let s = square.index() as int;
                    assert forall|t: int| 0 <= t < 64 implies #[trigger] bit(
                        pushes & !blockers & !ahead,
                        t,
                    ) == state.spec_nonthreat(self, s, t) by {
                        assert(bit(ahead, t) == bitmask::shifted_bit(blockers, -1, 0, t));
                        if pawn_push(Color::Black, s, t) {
                            assert(bit(state.bitboard[14], t) == (state.piece_on_square[t] is Some));
                            assert(bit(state.bitboard[14], t + 8) == (state.piece_on_square[t + 8] is Some));
                            assert(bit(blockers, t + 8) == (bit(state.bitboard[14], t + 8) && t + 8
                                != s));
                            assert(8 * (t / 8 + 1) + t % 8 == t + 8);
                        }
                    }
                }
                pushes & !blockers & !ahead
            },
            _ => 0,
        }
    }

    /// The squares to which a piece of this moveset on `square` may go, as
    /// far as the rules of movement go.
    pub fn pseudo_legal_moves(self, tables: &MagicTables, state: &GameState, square: Square) -> (mask: u64)
        requires
            tables.wf(),
            state.placement_wf(),
        ensures
            forall|t: int|
                0 <= t < 64 ==> #[trigger] bit(mask, t) == state.spec_destination(
                    self,
                    square.index() as int,
                    t,
                ),
    {
        let own = state.self_occ();
        let threats = self.pseudo_legal_threats(tables, state, square);
        let nonthreats = self.pseudo_legal_nonthreats(tables, state, square);
        proof {
            lemma_bit_ops();
            let c = state.spec_turn().spec_index() as int;
            assert(own == state.bitboard[12 + c]);
            assert forall|t: int| 0 <= t < 64 implies #[trigger] bit(
                !own & (threats | nonthreats),
                t,
            ) == state.spec_destination(self, square.index() as int, t) by {
                assert(bit(state.bitboard[12 + c], t) == (state.piece_on_square[t] is Some
                    && state.piece_on_square[t]->0.spec_color().spec_index() == c));
            }
        }
        !own & (threats | nonthreats)
    }
}

impl GameState {
    /// The en-passant target on which a pawn of the side to move may
    /// capture: there is a target, its square is empty, and a pawn of the
    /// other side stands right behind it.
    pub open spec fn spec_ep_target(&self) -> Option<int> {
        let target = self.spec_ep_square_num();
        let behind = target - 8 * self.spec_turn().forward();
        if self.spec_ep_legal() && self.board()[target] is None && self.board()[behind] == Some(
            GenericPiece::Pawn.spec_as_color(self.spec_turn().spec_inv()),
        ) {
            Some(target)
        } else {
            None
        }
    }

    /// The mask of the en-passant target on which the side to move may
    /// capture; empty when there is none.
    pub fn ep_mask(&self) -> (mask: u64)
        ensures
            forall|t: int| 0 <= t < 64 ==> #[trigger] bit(mask, t) == (self.spec_ep_target() == Some(t)),
    {
        proof {
            lemma_bit_ops();
        }
        if !self.ep_legal() {
            return 0;
        }
        proof {
            super::position::lemma_field_ranges(self.fen_info);
        }
        let target = self.ep_square();
        let behind = match self.turn() {
            Color::White => Square::from_index(target.index() - 8),
            Color::Black => Square::from_index(target.index() + 8),
        };
        let pawn = GenericPiece::Pawn.as_color(self.turn().inv());
        match (self.piece_at(target), self.piece_at(behind)) {
            (None, Some(p)) => {
                if p == pawn {
                    target.mask()
                } else {
                    0
                }
            },
            _ => 0,
        }
    }

    /// The castling right of a quadrant is granted.
    pub fn has_castling_rights(&self, castling: Quadrant) -> (granted: bool)
        ensures
            granted == self.spec_can_castle(castling),
    {
        self.can_castle(castling)
    }

    /// A piece of the side to move that moves as `m` and stands on `s`
    /// threatens `t`: it attacks `t`, and if it is a pawn, a piece of the
    /// other side stands on `t` or `t` is the en-passant target.
    pub open spec fn spec_threat(&self, m: Moveset, s: int, t: int) -> bool {
        &&& piece_attacks(self.board(), m, s, t)
        &&& match m.pawn_color() {
            Some(c) => (self.board()[t] is Some && self.board()[t]->0.spec_color() != c) || (c
                == self.spec_turn() && self.spec_ep_target() == Some(t)),
            None => true,
        }
    }

    /// The side to move may castle in the quadrant: the right is granted,
    /// king and rook stand on their starts, the squares between them are
    /// empty, and no square of the king's path is attacked.
    pub open spec fn spec_may_castle(&self, q: Quadrant) -> bool {
        &&& self.spec_can_castle(q)
        &&& q.spec_color() == self.spec_turn()
        &&& self.board()[q.spec_king_start().spec_index() as int] == Some(q.spec_king())
        &&& self.board()[q.spec_rook_start().spec_index() as int] == Some(q.spec_rook())
        &&& forall|t: int| 0 <= t < 64 && q.to_clear(t) ==> (#[trigger] self.board()[t]) is None
        &&& forall|t: int|
            0 <= t < 64 && q.no_attack(t) ==> !#[trigger] attacked_by(
                self.board(),
                q.spec_color().spec_inv(),
                t,
            )
    }

    /// A piece of the side to move that moves as `m` and stands on `s` may
    /// go to `t` without threatening it: a pawn advances onto an empty
    /// square, over an empty square where it advances two; a king castles.
    pub open spec fn spec_nonthreat(&self, m: Moveset, s: int, t: int) -> bool {
        0 <= t < 64 && match m {
            Moveset::WhitePawnMove => pawn_push(Color::White, s, t) && self.board()[t] is None
                && self.board()[s + 8] is None,
            Moveset::BlackPawnMove => pawn_push(Color::Black, s, t) && self.board()[t] is None
                && self.board()[s - 8] is None,
            Moveset::KingMove => {
                let kingside = FileSide::Kingside.spec_to_quadrant(self.spec_turn());
                let queenside = FileSide::Queenside.spec_to_quadrant(self.spec_turn());
                ||| (self.spec_may_castle(kingside) && s == kingside.spec_king_start().spec_index()
                    && t == kingside.spec_king_end().spec_index())
                ||| (self.spec_may_castle(queenside) && s
                    == queenside.spec_king_start().spec_index() && t
                    == queenside.spec_king_end().spec_index())
            },
            _ => false,
        }
    }

    /// A piece of the side to move that moves as `m` and stands on `s` may
    /// go to `t`, as far as the rules of movement go: it threatens `t` or
    /// may go there otherwise, and no piece of its side stands on `t`.
    pub open spec fn spec_destination(&self, m: Moveset, s: int, t: int) -> bool {
        &&& 0 <= t < 64
        &&& !(self.board()[t] is Some && self.board()[t]->0.spec_color() == self.spec_turn())
        &&& (self.spec_threat(m, s, t) || self.spec_nonthreat(m, s, t))
    }

    /// The side to move may castle in the quadrant.
    pub fn may_castle(&self, tables: &MagicTables, q: Quadrant) -> (allowed: bool)
        requires
            tables.wf(),
            self.placement_wf(),
        ensures
            allowed == self.spec_may_castle(q),
    {
        if !self.has_castling_rights(q) || q.color() != self.turn() {
            return false;
        }
        let king_home = match self.piece_at(q.king_start()) {
            Some(p) => p == q.king(),
            None => false,
        };
        let rook_home = match self.piece_at(q.rook_start()) {
            Some(p) => p == q.rook(),
            None => false,
        };
        if !king_home || !rook_home {
            return false;
        }
        let between = q.to_clear_mask() & self.full_occ();
        proof {
            lemma_bit_ops();
            lemma_zero_iff_no_bits(between);
            if between == 0 {
                assert forall|t: int| 0 <= t < 64 && q.to_clear(t) implies (
                #[trigger] self.board()[t]) is None by {
                    assert(!bit(between, t));
                    assert(bit(self.bitboard[14], t) == (self.piece_on_square[t] is Some));
                }
            } else {
                let t = choose|t: int| 0 <= t < 64 && #[trigger] bit(between, t);
                assert(bit(self.bitboard[14], t) == (self.piece_on_square[t] is Some));
                assert(q.to_clear(t) && self.board()[t] is Some);
            }
        }
        if between != 0 {
            return false;
        }
        let threats = self.pseudo_legal_threats(tables, q.color().inv());
        let path = q.no_attack_mask() & threats;
        proof {
            lemma_zero_iff_no_bits(path);
            if path == 0 {
                assert forall|t: int| 0 <= t < 64 && q.no_attack(t) implies !#[trigger] attacked_by(
                    self.board(),
                    q.spec_color().spec_inv(),
                    t,
                ) by {
                    assert(!bit(path, t));
                }
            } else {
                let t = choose|t: int| 0 <= t < 64 && #[trigger] bit(path, t);
                assert(q.no_attack(t) && attacked_by(self.board(), q.spec_color().spec_inv(), t));
            }
        }
        path == 0
    }

    /// The squares that the pieces of `color` attack.
    pub fn pseudo_legal_threats(&self, tables: &MagicTables, color: Color) -> (mask: u64)
        requires
            tables.wf(),
            self.placement_wf(),
        ensures
            forall|t: int| 0 <= t < 64 ==> #[trigger] bit(mask, t) == attacked_by(
                self.board(),
                color,
                t,
            ),
    {
        let occ = self.occ(color);
        let full = self.full_occ();
        let mut mask: u64 = 0;
        let mut rest = occ;
        let ghost mut bound: int = 0;
        proof {
            lemma_bit_ops();
            assert(self.bitboard[12 + color.spec_index() as int] == occ);
        }
        while rest != 0
            invariant
                tables.wf(),
                self.placement_wf(),
                0 <= bound <= 64,
                occ == self.bitboard[12 + color.spec_index() as int],
                full == self.bitboard[14],
                forall|t: int| 0 <= t < 64 ==> #[trigger] bit(rest, t) == (bit(occ, t) && t >= bound),
                forall|t: int|
                    0 <= t < 64 ==> #[trigger] bit(mask, t) == attacked_below(
                        self.board(),
                        color,
                        t,
                        bound,
                    ),
            decreases 64 - bound,
        {
            let i = lowest_bit(rest);
            let square = Square::from_index(i);
            let ghost before = mask;
            let ghost low = bound;
            proof {
                assert(bit(occ, i as int));
                assert(bit(self.bitboard[12 + color.spec_index() as int], i as int));
                assert forall|u: int| low <= u < i implies !#[trigger] bit(
                    self.bitboard[12 + color.spec_index() as int],
                    u,
                ) by {
                    assert(!bit(rest, u));
                }
            }
            match self.piece_at(square) {
                Some(piece) => {
                    let reach = piece.moveset().attacks(tables, full, square);
                    mask = mask | reach;
                    proof {
                        lemma_bit_ops();
                        assert forall|t: int| 0 <= t < 64 implies #[trigger] bit(mask, t)
                            == attacked_below(self.board(), color, t, i + 1) by {
                            lemma_attacks_agree(
                                full,
                                self.board(),
                                piece.spec_moveset(),
                                i as int,
                                t,
                            );
                            assert(bit(mask, t) == (bit(before, t) || bit(reach, t)));
                            assert(bit(reach, t) == attacker(self.board(), color, i as int, t));
                            self.lemma_attacked_step(color, t, low, i as int);
                        }
                    }
                },
                None => {
                    proof {
                        assert(false);
                    }
                },
            }
            rest = rest ^ square.mask();
            proof {
                lemma_bit_ops();
                bound = i + 1;
            }
        }
        proof {
            lemma_bit_ops();
            assert forall|t: int| 0 <= t < 64 implies #[trigger] bit(mask, t) == attacked_by(
                self.board(),
                color,
                t,
            ) by {
                assert forall|u: int| bound <= u < 64 implies !#[trigger] bit(
                    self.bitboard[12 + color.spec_index() as int],
                    u,
                ) by {
                    assert(bit(rest, u) == bit(0, u));
                }
                self.lemma_attacked_step(color, t, bound, 64);
            }
        }
        mask
    }

    /// Where no piece of `color` stands on the squares from `low` up to
    /// `high`, the attackers below `high + 1` are those below `low` and the
    /// piece on `high`.
    pub proof fn lemma_attacked_step(&self, color: Color, t: int, low: int, high: int)
        requires
            self.placement_wf(),
            0 <= low <= high <= 64,
            forall|u: int|
                low <= u < high ==> !#[trigger] bit(
                    self.bitboard[12 + color.spec_index() as int],
                    u,
                ),
        ensures
            high < 64 ==> attacked_below(self.board(), color, t, high + 1) == (attacked_below(
                self.board(),
                color,
                t,
                low,
            ) || attacker(self.board(), color, high, t)),
            attacked_below(self.board(), color, t, high) == attacked_below(
                self.board(),
                color,
                t,
                low,
            ),
    {
        let board = self.board();
        assert forall|a: int| low <= a < high implies !attacker(board, color, a, t) by {
            assert(bit(self.bitboard[12 + color.spec_index() as int], a) == (
            self.piece_on_square[a] is Some && self.piece_on_square[a]->0.spec_color().spec_index()
                == color.spec_index() as int));
        }
        if attacked_below(board, color, t, high) {
            let a = choose|a: int| 0 <= a < high && #[trigger] attacker(board, color, a, t);
            assert(a < low);
        }
        if high < 64 {
            if attacked_below(board, color, t, high + 1) {
                let a = choose|a: int| 0 <= a < high + 1 && #[trigger] attacker(board, color, a, t);
                assert(a < low || a == high);
            }
            if attacker(board, color, high, t) {
                assert(attacked_below(board, color, t, high + 1));
            }
            if attacked_below(board, color, t, low) {
                let a = choose|a: int| 0 <= a < low && #[trigger] attacker(board, color, a, t);
                assert(attacker(board, color, a, t) && a < high + 1);
            }
        }
        if attacked_below(board, color, t, low) {
            let a = choose|a: int| 0 <= a < low && #[trigger] attacker(board, color, a, t);
            assert(attacker(board, color, a, t) && a < high);
        }
    }

    /// A king of `color` is attacked.
    pub fn in_check(&self, tables: &MagicTables, color: Color) -> (check: bool)
        requires
            tables.wf(),
            self.placement_wf(),
        ensures
            check == king_attacked(self.board(), color),
    {
        let king = GenericPiece::King.as_color(color);
        let kings = self.bitboard[king.index()];
        let threats = self.pseudo_legal_threats(tables, color.inv());
        proof {
            lemma_bit_ops();
            let board = self.board();
            if kings & threats != 0 {
                if forall|k: int| 0 <= k < 64 ==> !bit(kings & threats, k) {
                    assert forall|k: int| 0 <= k < 64 implies bit(kings & threats, k) == bit(0, k) by {}
                    lemma_bits_equal(kings & threats, 0);
                }
                let k = choose|k: int| 0 <= k < 64 && bit(kings & threats, k);
                assert(bit(self.bitboard[king.spec_index() as int], k));
                assert(attacked_by(board, color.spec_inv(), k));
            } else {
                if king_attacked(board, color) {
                    let k = choose|k: int|
                        0 <= k < 64 && board[k] == Some(king) && #[trigger] attacked_by(
                            board,
                            color.spec_inv(),
                            k,
                        );
                    assert(bit(self.bitboard[king.spec_index() as int], k));
                    assert(bit(kings & threats, k));
                }
            }
        }
        kings & threats != 0
    }
}

/// A pawn that reaches `d` promotes: `d` lies on the first or the last rank.
pub open spec fn promotes(p: Piece, d: int) -> bool {
    p.spec_as_generic() == GenericPiece::Pawn && (d / 8 == 0 || d / 8 == 7)
}

/// The promotion that a move names: the kind of its destination piece
/// where that is not its origin piece.
pub open spec fn promotion_of(mv: Move) -> Option<Promotion> {
    if mv.destination_piece_code() != mv.origin_piece_code() {
        Some(Promotion::spec_from_index((mv.destination_piece_code() % 6) as usize))
    } else {
        None
    }
}

impl GameState {
    /// Moving what stands on `origin` to `destination` obeys the rules of
    /// movement: a piece of the side to move stands on `origin`, it may go
    /// to `destination`, and a promotion is named exactly where a pawn
    /// reaches the first or the last rank.
    pub open spec fn spec_pseudo_legal(
        &self,
        origin: Square,
        destination: Square,
        promotion: Option<Promotion>,
    ) -> bool {
        let o = origin.spec_index() as int;
        let d = destination.spec_index() as int;
        &&& self.board()[o] is Some
        &&& self.board()[o]->0.spec_color() == self.spec_turn()
        &&& self.spec_destination(self.board()[o]->0.spec_moveset(), o, d)
        &&& (promotion is Some) == promotes(self.board()[o]->0, d)
    }

    /// The move is pseudo-legal: it is the encoding of a move that obeys
    /// the rules of movement in this position.
    pub open spec fn is_pseudo_legal(&self, mv: Move) -> bool {
        &&& self.spec_pseudo_legal(
            mv.spec_origin_square(),
            mv.spec_destination_square(),
            promotion_of(mv),
        )
        &&& mv == Move::spec_new(
            self.board(),
            self.spec_turn(),
            mv.spec_origin_square(),
            mv.spec_destination_square(),
            promotion_of(mv),
        )
    }

    /// The move is legal: it is pseudo-legal, and once it is made no king
    /// of the side that made it is attacked.
    pub open spec fn is_legal_move(&self, mv: Move) -> bool {
        self.is_pseudo_legal(mv) && !king_attacked(
            board_after(self.board(), mv),
            self.spec_turn(),
        )
    }

    /// The encoding of a move that obeys the rules of movement gives back
    /// its origin, its destination and its promotion, and the move fits
    /// the board.
    pub proof fn lemma_new_is_pseudo_legal(
        &self,
        origin: Square,
        destination: Square,
        promotion: Option<Promotion>,
    )
        requires
            self.spec_pseudo_legal(origin, destination, promotion),
        ensures
            ({
                let mv = Move::spec_new(
                    self.board(),
                    self.spec_turn(),
                    origin,
                    destination,
                    promotion,
                );
                &&& mv.spec_origin_square() == origin
                &&& mv.spec_destination_square() == destination
                &&& mv.origin_code() == origin.spec_index()
                &&& mv.destination_code() == destination.spec_index()
                &&& promotion_of(mv) == promotion
                &&& self.is_pseudo_legal(mv)
                &&& fits(self.board(), mv)
            }),
    {
        let board = self.board();
        let turn = self.spec_turn();
        let mv = Move::spec_new(board, turn, origin, destination, promotion);
        let o = origin.spec_index() as int;
        let d = destination.spec_index() as int;
        let p = board[o]->0;
        lemma_new_fields(board, turn, origin, destination, promotion);
        origin.lemma_index_round_trip();
        destination.lemma_index_round_trip();
        assert(o != d);
        assert(promotion_of(mv) == promotion) by {
            match promotion {
                Some(pr) => {
                    assert(pr.spec_as_piece(turn).spec_index() == 6 * turn.spec_index()
                        + pr.spec_index());
                    assert(p.spec_index() == 6 * turn.spec_index() + 5);
                },
                None => {},
            }
        }
        assert(fits(board, mv)) by {
            if board[d] is Some {
            } else if p.spec_as_generic() == GenericPiece::Pawn && origin.spec_col()
                != destination.spec_col() {
                assert(self.spec_ep_target() == Some(d));
                assert(8 * origin.spec_row() + destination.spec_col() == d - 8 * turn.forward());
            } else if mv.spec_is_castling() {
                let q = mv.spec_get_castling();
                assert(!king_step(o, d));
                assert(self.spec_may_castle(q));
                assert(q.to_clear(q.spec_rook_end().spec_index() as int));
            }
        }
    }

    /// A pseudo-legal move fits the board.
    pub proof fn lemma_pseudo_legal_fits(&self, mv: Move)
        requires
            self.is_pseudo_legal(mv),
        ensures
            fits(self.board(), mv),
    {
        self.lemma_new_is_pseudo_legal(
            mv.spec_origin_square(),
            mv.spec_destination_square(),
            promotion_of(mv),
        );
    }
}

/// What a list holds once a move is appended.
pub proof fn lemma_push_contains(list: Seq<Move>, added: Move)
    ensures
        forall|mv: Move| #[trigger]
            list.push(added).contains(mv) <==> (list.contains(mv) || mv == added),
        list.no_duplicates() && !list.contains(added) ==> list.push(added).no_duplicates(),
{
    let longer = list.push(added);
    assert forall|mv: Move| #[trigger] longer.contains(mv) <==> (list.contains(mv) || mv == added) by {
        if longer.contains(mv) {
            let i = choose|i: int| 0 <= i < longer.len() && longer[i] == mv;
            if i < list.len() {
                assert(list[i] == mv);
            }
        }
        if list.contains(mv) {
            let i = choose|i: int| 0 <= i < list.len() && list[i] == mv;
            assert(longer[i] == mv);
        }
        if mv == added {
            assert(longer[list.len() as int] == mv);
        }
    }
    if list.no_duplicates() && !list.contains(added) {
        assert forall|i: int, j: int|
            0 <= i < longer.len() && 0 <= j < longer.len() && i != j implies longer[i]
            != longer[j] by {
            if i < list.len() && j < list.len() {
            } else if i < list.len() {
                assert(list[i] != added);
            } else {
                assert(list[j] != added);
            }
        }
    }
}

/// What a list holds once the move at `i` is replaced by the last and the
/// list shortened by one.
pub proof fn lemma_swap_remove(list: Seq<Move>, i: int)
    requires
        0 <= i < list.len(),
        list.no_duplicates(),
    ensures
        list.update(i, list.last()).drop_last().no_duplicates(),
        forall|mv: Move| #[trigger]
            list.update(i, list.last()).drop_last().contains(mv) <==> (list.contains(mv) && mv
                != list[i]),
        forall|j: int|
            0 <= j < i ==> #[trigger] list.update(i, list.last()).drop_last()[j] == list[j],
{
    let shorter = list.update(i, list.last()).drop_last();
    let last = list.len() - 1;
    assert forall|a: int, b: int|
        0 <= a < shorter.len() && 0 <= b < shorter.len() && a != b implies shorter[a]
        != shorter[b] by {
        let a0 = if a == i {
            last
        } else {
            a
        };
        let b0 = if b == i {
            last
        } else {
            b
        };
        assert(shorter[a] == list[a0] && shorter[b] == list[b0]);
    }
    assert forall|mv: Move| #[trigger] shorter.contains(mv) <==> (list.contains(mv) && mv
        != list[i]) by {
        if shorter.contains(mv) {
            let a = choose|a: int| 0 <= a < shorter.len() && shorter[a] == mv;
            let a0 = if a == i {
                last
            } else {
                a
            };
            assert(list[a0] == mv);
        }
        if list.contains(mv) && mv != list[i] {
            let a = choose|a: int| 0 <= a < list.len() && list[a] == mv;
            if a == last {
                assert(shorter[i] == mv);
            } else {
                assert(shorter[a] == mv);
            }
        }
    }
}

impl GameState {
    /// The pseudo-legal moves from one square to another are the encodings
    /// of that step: one for each promotion where a pawn promotes, else one.
    pub proof fn lemma_moves_between(&self, origin: Square, destination: Square, mv: Move)
        requires
            self.board()[origin.spec_index() as int] is Some,
            self.is_pseudo_legal(mv),
            mv.origin_code() == origin.spec_index(),
            mv.destination_code() == destination.spec_index(),
        ensures
            self.spec_pseudo_legal(origin, destination, promotion_of(mv)),
            mv == Move::spec_new(
                self.board(),
                self.spec_turn(),
                origin,
                destination,
                promotion_of(mv),
            ),
            promotion_of(mv) is Some ==> (promotion_of(mv) == Some(Promotion::Rook) || promotion_of(
                mv,
            ) == Some(Promotion::Knight) || promotion_of(mv) == Some(Promotion::Bishop)
                || promotion_of(mv) == Some(Promotion::Queen)),
    {
        origin.lemma_index_round_trip();
        destination.lemma_index_round_trip();
    }

    /// Where a pawn promotes, the pseudo-legal moves from its square to the
    /// promotion square are four, one for each promotion.
    pub proof fn lemma_promotion_moves(&self, origin: Square, destination: Square)
        requires
            self.board()[origin.spec_index() as int] is Some,
            self.board()[origin.spec_index() as int]->0.spec_color() == self.spec_turn(),
            self.spec_destination(
                self.board()[origin.spec_index() as int]->0.spec_moveset(),
                origin.spec_index() as int,
                destination.spec_index() as int,
            ),
            promotes(self.board()[origin.spec_index() as int]->0, destination.spec_index() as int),
        ensures
            ({
                let rook = Move::spec_new(
                    self.board(),
                    self.spec_turn(),
                    origin,
                    destination,
                    Some(Promotion::Rook),
                );
                let knight = Move::spec_new(
                    self.board(),
                    self.spec_turn(),
                    origin,
                    destination,
                    Some(Promotion::Knight),
                );
                let bishop = Move::spec_new(
                    self.board(),
                    self.spec_turn(),
                    origin,
                    destination,
                    Some(Promotion::Bishop),
                );
                let queen = Move::spec_new(
                    self.board(),
                    self.spec_turn(),
                    origin,
                    destination,
                    Some(Promotion::Queen),
                );
                &&& rook != knight && rook != bishop && rook != queen && knight != bishop && knight
                    != queen && bishop != queen
                &&& forall|mv: Move|
                    (self.is_pseudo_legal(mv) && mv.origin_code() == origin.spec_index()
                        && mv.destination_code() == destination.spec_index()) <==> (mv == rook
                        || mv == knight || mv == bishop || mv == queen)
            }),
    {
        self.lemma_new_is_pseudo_legal(origin, destination, Some(Promotion::Rook));
        self.lemma_new_is_pseudo_legal(origin, destination, Some(Promotion::Knight));
        self.lemma_new_is_pseudo_legal(origin, destination, Some(Promotion::Bishop));
        self.lemma_new_is_pseudo_legal(origin, destination, Some(Promotion::Queen));
        assert forall|mv: Move|
            self.is_pseudo_legal(mv) && mv.origin_code() == origin.spec_index()
                && mv.destination_code() == destination.spec_index() implies mv == Move::spec_new(
            self.board(),
            self.spec_turn(),
            origin,
            destination,
            Some(Promotion::Rook),
        ) || mv == Move::spec_new(
            self.board(),
            self.spec_turn(),
            origin,
            destination,
            Some(Promotion::Knight),
        ) || mv == Move::spec_new(
            self.board(),
            self.spec_turn(),
            origin,
            destination,
            Some(Promotion::Bishop),
        ) || mv == Move::spec_new(
            self.board(),
            self.spec_turn(),
            origin,
            destination,
            Some(Promotion::Queen),
        ) by {
            self.lemma_moves_between(origin, destination, mv);
        }
    }

    /// Where no pawn promotes, the pseudo-legal move from a square to
    /// another is one.
    pub proof fn lemma_plain_move(&self, origin: Square, destination: Square)
        requires
            self.board()[origin.spec_index() as int] is Some,
            self.board()[origin.spec_index() as int]->0.spec_color() == self.spec_turn(),
            self.spec_destination(
                self.board()[origin.spec_index() as int]->0.spec_moveset(),
                origin.spec_index() as int,
                destination.spec_index() as int,
            ),
            !promotes(self.board()[origin.spec_index() as int]->0, destination.spec_index() as int),
        ensures
            forall|mv: Move|
                (self.is_pseudo_legal(mv) && mv.origin_code() == origin.spec_index()
                    && mv.destination_code() == destination.spec_index()) <==> mv
                    == Move::spec_new(self.board(), self.spec_turn(), origin, destination, None),
    {
        self.lemma_new_is_pseudo_legal(origin, destination, None);
        assert forall|mv: Move|
            self.is_pseudo_legal(mv) && mv.origin_code() == origin.spec_index()
                && mv.destination_code() == destination.spec_index() implies mv == Move::spec_new(
            self.board(),
            self.spec_turn(),
            origin,
            destination,
            None,
        ) by {
            self.lemma_moves_between(origin, destination, mv);
        }
    }

    /// Appends the pseudo-legal moves of the piece on `origin` to
    /// `destination`, a square to which it may go: one move for each
    /// promotion where a pawn promotes, else one move.
    pub fn push_moves_to(
        &self,
        origin: Square,
        destination: Square,
        piece: Piece,
        moves: &mut Vec<Move>,
    )
        requires
            self.board()[origin.index() as int] == Some(piece),
            piece.color() == self.spec_turn(),
            self.spec_destination(
                piece.spec_moveset(),
                origin.index() as int,
                destination.index() as int,
            ),
            old(moves)@.no_duplicates(),
            forall|mv: Move|
                old(moves)@.contains(mv) ==> !(mv.origin_code() == origin.index()
                    && mv.destination_code() == destination.index()),
        ensures
            final(moves)@.no_duplicates(),
            forall|mv: Move| #[trigger]
                final(moves)@.contains(mv) <==> (old(moves)@.contains(mv) || (self.is_pseudo_legal(
                    mv,
                ) && mv.origin_code() == origin.index() && mv.destination_code()
                    == destination.index())),
    {
        let ghost before = moves@;
        if piece.as_generic() == GenericPiece::Pawn && destination.is_promotion_square() {
            let rook = Move::new(self, origin, destination, Some(Promotion::Rook));
            let knight = Move::new(self, origin, destination, Some(Promotion::Knight));
            let bishop = Move::new(self, origin, destination, Some(Promotion::Bishop));
            let queen = Move::new(self, origin, destination, Some(Promotion::Queen));
            proof {
                self.lemma_promotion_moves(origin, destination);
                assert(self.is_pseudo_legal(rook) && rook.origin_code() == origin.index());
                assert(self.is_pseudo_legal(knight) && knight.origin_code() == origin.index());
                assert(self.is_pseudo_legal(bishop) && bishop.origin_code() == origin.index());
                assert(self.is_pseudo_legal(queen) && queen.origin_code() == origin.index());
                assert(!before.contains(rook) && !before.contains(knight) && !before.contains(
                    bishop,
                ) && !before.contains(queen));
                lemma_push_contains(before, rook);
                lemma_push_contains(before.push(rook), knight);
                lemma_push_contains(before.push(rook).push(knight), bishop);
                lemma_push_contains(before.push(rook).push(knight).push(bishop), queen);
            }
            moves.push(rook);
            moves.push(knight);
            moves.push(bishop);
            moves.push(queen);
        } else {
            let plain = Move::new(self, origin, destination, None);
            proof {
                self.lemma_plain_move(origin, destination);
                assert(self.is_pseudo_legal(plain) && plain.origin_code() == origin.index());
                assert(!before.contains(plain));
                lemma_push_contains(before, plain);
            }
            moves.push(plain);
        }
    }

    /// A pseudo-legal move goes from a square on which a piece of the side
    /// to move stands to a square to which that piece may go.
    pub proof fn lemma_pseudo_legal_squares(&self, mv: Move)
        requires
            self.is_pseudo_legal(mv),
        ensures
            mv.origin_code() < 64,
            mv.destination_code() < 64,
            self.board()[mv.origin_code() as int] is Some,
            self.board()[mv.origin_code() as int]->0.spec_color() == self.spec_turn(),
            self.spec_destination(
                self.board()[mv.origin_code() as int]->0.spec_moveset(),
                mv.origin_code() as int,
                mv.destination_code() as int,
            ),
    {
        mv.lemma_field_ranges();
        Square::lemma_from_index(mv.origin_code() as usize);
        Square::lemma_from_index(mv.destination_code() as usize);
    }

    /// Appends the pseudo-legal moves of the piece on `origin`, lowest
    /// destination first.
    pub fn generate_moves_from(
        &self,
        tables: &MagicTables,
        origin: Square,
        piece: Piece,
        moves: &mut Vec<Move>,
    )
        requires
            tables.wf(),
            self.placement_wf(),
            self.board()[origin.index() as int] == Some(piece),
            piece.color() == self.spec_turn(),
            old(moves)@.no_duplicates(),
            forall|mv: Move| old(moves)@.contains(mv) ==> mv.origin_code() != origin.index(),
        ensures
            final(moves)@.no_duplicates(),
            forall|mv: Move| #[trigger]
                final(moves)@.contains(mv) <==> (old(moves)@.contains(mv) || (self.is_pseudo_legal(
                    mv,
                ) && mv.origin_code() == origin.index())),
    {
        let reach = piece.moveset().pseudo_legal_moves(tables, self, origin);
        let mut rest = reach;
        let ghost mut bound: int = 0;
        let ghost o = origin.index() as int;
        proof {
            lemma_bit_ops();
        }
        while rest != 0
            invariant
                self.board()[o] == Some(piece),
                o == origin.index(),
                piece.spec_color() == self.spec_turn(),
                0 <= bound <= 64,
                forall|t: int|
                    0 <= t < 64 ==> #[trigger] bit(reach, t) == self.spec_destination(
                        piece.spec_moveset(),
                        o,
                        t,
                    ),
                forall|t: int| 0 <= t < 64 ==> #[trigger] bit(rest, t) == (bit(reach, t) && t >= bound),
                moves@.no_duplicates(),
                forall|mv: Move| old(moves)@.contains(mv) ==> mv.origin_code() != o,
                forall|mv: Move| #[trigger]
                    moves@.contains(mv) <==> (old(moves)@.contains(mv) || (self.is_pseudo_legal(mv)
                        && mv.origin_code() == o && mv.destination_code() < bound)),
            decreases 64 - bound,
        {
            let j = lowest_bit(rest);
            let destination = Square::from_index(j);
            let ghost d = j as int;
            let ghost before = moves@;
            let ghost prev = rest;
            proof {
                assert(bit(reach, d));
            }
            self.push_moves_to(origin, destination, piece, moves);
            rest = rest ^ destination.mask();
            proof {
                lemma_bit_ops();
                assert forall|mv: Move| #[trigger]
                    moves@.contains(mv) <==> (old(moves)@.contains(mv) || (self.is_pseudo_legal(mv)
                        && mv.origin_code() == o && mv.destination_code() < d + 1)) by {
                    if self.is_pseudo_legal(mv) && mv.origin_code() == o && bound
                        <= mv.destination_code() < d {
                        self.lemma_pseudo_legal_squares(mv);
                        let t = mv.destination_code() as int;
                        assert(!bit(prev, t));
                        assert(bit(reach, t));
                    }
                }
                bound = d + 1;
            }
        }
        proof {
            lemma_bit_ops();
            assert forall|mv: Move| #[trigger]
                moves@.contains(mv) <==> (old(moves)@.contains(mv) || (self.is_pseudo_legal(mv)
                    && mv.origin_code() == o)) by {
                if self.is_pseudo_legal(mv) && mv.origin_code() == o && mv.destination_code()
                    >= bound {
                    self.lemma_pseudo_legal_squares(mv);
                    let t = mv.destination_code() as int;
                    assert(bit(rest, t) == bit(0, t));
                    assert(bit(reach, t));
                }
            }
        }
    }

    /// Fills `moves` with the pseudo-legal moves of the position, each
    /// once, and returns how many there are.
    pub fn generate_pseudo_legal_moves(&self, tables: &MagicTables, moves: &mut Vec<Move>) -> (count: usize)
        requires
            tables.wf(),
            self.placement_wf(),
        ensures
            count == final(moves)@.len(),
            final(moves)@.no_duplicates(),
            forall|mv: Move| #[trigger] final(moves)@.contains(mv) <==> self.is_pseudo_legal(mv),
    {
        moves.clear();
        let own = self.self_occ();
        let mut rest = own;
        let ghost mut bound: int = 0;
        let ghost c = self.spec_turn().spec_index() as int;
        proof {
            lemma_bit_ops();
            assert(own == self.bitboard[12 + c]);
        }
        while rest != 0
            invariant
                tables.wf(),
                self.placement_wf(),
                c == self.spec_turn().spec_index(),
                own == self.bitboard[12 + c],
                0 <= bound <= 64,
                forall|t: int| 0 <= t < 64 ==> #[trigger] bit(rest, t) == (bit(own, t) && t >= bound),
                moves@.no_duplicates(),
                forall|mv: Move| #[trigger]
                    moves@.contains(mv) <==> (self.is_pseudo_legal(mv) && mv.origin_code() < bound),
            decreases 64 - bound,
        {
            let i = lowest_bit(rest);
            let origin = Square::from_index(i);
            let ghost before = moves@;
            let ghost prev = rest;
            proof {
                assert(bit(own, i as int));
                assert forall|mv: Move| before.contains(mv) implies mv.origin_code() != i by {}
                assert(bit(self.bitboard[12 + c], i as int) == (self.piece_on_square[i as int] is Some
                    && self.piece_on_square[i as int]->0.spec_color().spec_index() == c));
            }
            match self.piece_at(origin) {
                Some(piece) => {
                    self.generate_moves_from(tables, origin, piece, moves);
                },
                None => {
                    proof {
                        assert(false);
                    }
                },
            }
            rest = rest ^ origin.mask();
            proof {
                lemma_bit_ops();
                assert forall|mv: Move| #[trigger]
                    moves@.contains(mv) <==> (self.is_pseudo_legal(mv) && mv.origin_code() < i
                        + 1) by {
                    if self.is_pseudo_legal(mv) && bound <= mv.origin_code() < i {
                        self.lemma_pseudo_legal_squares(mv);
                        let t = mv.origin_code() as int;
                        assert(bit(self.bitboard[12 + c], t) == (self.piece_on_square[t] is Some
                            && self.piece_on_square[t]->0.spec_color().spec_index() == c));
                        assert(bit(own, t));
                        assert(!bit(prev, t));
                        assert(false);
                    }
                }
                bound = i + 1;
            }
        }
        proof {
            lemma_bit_ops();
            assert forall|mv: Move| #[trigger] moves@.contains(mv) <==> self.is_pseudo_legal(mv) by {
                if self.is_pseudo_legal(mv) && mv.origin_code() >= bound {
                    self.lemma_pseudo_legal_squares(mv);
                    let t = mv.origin_code() as int;
                    assert(bit(rest, t) == bit(0, t));
                    assert(bit(self.bitboard[12 + c], t) == (self.piece_on_square[t] is Some
                        && self.piece_on_square[t]->0.spec_color().spec_index() == c));
                    assert(false);
                }
            }
        }
        moves.len()
    }

    /// The move leaves no king of the side to move attacked. The position
    /// is the same after the call as before.
    pub fn is_legal(&mut self, tables: &MagicTables, mv: Move) -> (legal: bool)
        requires
            tables.wf(),
            old(self).wf(),
            old(self).spec_fits(mv),
        ensures
            *final(self) == *old(self),
            legal == !king_attacked(board_after(old(self).board(), mv), old(self).spec_turn()),
    {
        proof {
            lemma_after_then_before(self.board(), mv);
        }
        self.push_partial(mv);
        let check = self.in_check(tables, self.turn());
        self.pop_partial(mv);
        proof {
            self.lemma_offset_zero();
            old(self).lemma_offset_zero();
            lemma_same_position(*self, *old(self));
        }
        !check
    }

    /// Fills `moves` with the legal moves of the position, each once, and
    /// returns how many there are: the pseudo-legal moves, without those
    /// that leave a king of the side to move attacked. The position is the
    /// same after the call as before.
    pub fn generate_legal_moves(&mut self, tables: &MagicTables, moves: &mut Vec<Move>) -> (count: usize)
        requires
            tables.wf(),
            old(self).wf(),
        ensures
            *final(self) == *old(self),
            count == final(moves)@.len(),
            final(moves)@.no_duplicates(),
            forall|mv: Move| #[trigger] final(moves)@.contains(mv) <==> old(self).is_legal_move(mv),
    {
        let _ = self.generate_pseudo_legal_moves(tables, moves);
        let ghost all = moves@;
        let mut i: usize = 0;
        while i < moves.len()
            invariant
                tables.wf(),
                *self == *old(self),
                self.wf(),
                i <= moves@.len(),
                moves@.no_duplicates(),
                forall|mv: Move| #[trigger] all.contains(mv) <==> self.is_pseudo_legal(mv),
                forall|mv: Move| #[trigger] moves@.contains(mv) ==> all.contains(mv),
                forall|mv: Move|
                    all.contains(mv) && self.is_legal_move(mv) ==> #[trigger] moves@.contains(mv),
                forall|j: int| 0 <= j < i ==> self.is_legal_move(#[trigger] moves@[j]),
            decreases moves@.len() - i,
        {
            let mv = moves[i];
            let ghost before = moves@;
            proof {
                assert(before[i as int] == mv);
                assert(before.contains(mv));
                assert(all.contains(mv));
                self.lemma_pseudo_legal_fits(mv);
            }
            if self.is_legal(tables, mv) {
                i += 1;
            } else {
                moves.swap_remove(i);
                proof {
                    lemma_swap_remove(before, i as int);
                }
            }
        }
        proof {
            assert forall|mv: Move| #[trigger] moves@.contains(mv) <==> self.is_legal_move(mv) by {
                if moves@.contains(mv) {
                    let j = choose|j: int| 0 <= j < moves@.len() && moves@[j] == mv;
                    assert(self.is_legal_move(moves@[j]));
                }
            }
        }
        moves.len()
    }
}

/// The fields of the encoding of a move from a square on which a piece
/// stands: origin and destination, the piece and what it becomes, what it
/// captures and where, and whether it castles.
pub proof fn lemma_new_fields(
    board: Seq<Option<Piece>>,
    turn: Color,
    origin: Square,
    destination: Square,
    promotion: Option<Promotion>,
)
    requires
        board[origin.spec_index() as int] is Some,
    ensures
        ({
            let mv = Move::spec_new(board, turn, origin, destination, promotion);
            let p = board[origin.spec_index() as int]->0;
            let kingside = FileSide::Kingside.spec_to_quadrant(p.spec_color());
            let queenside = FileSide::Queenside.spec_to_quadrant(p.spec_color());
            let quiet = board[destination.spec_index() as int] is None;
            let passing = quiet && p.spec_as_generic() == GenericPiece::Pawn && origin.spec_col()
                != destination.spec_col();
            let king = quiet && p.spec_as_generic() == GenericPiece::King;
            &&& mv.origin_code() == origin.spec_index()
            &&& mv.destination_code() == destination.spec_index()
            &&& mv.origin_piece_code() == p.spec_index()
            &&& mv.destination_piece_code() == match promotion {
                Some(pr) => pr.spec_as_piece(turn).spec_index(),
                None => p.spec_index(),
            }
            &&& mv.wf()
            &&& !quiet ==> mv.captured_code() == destination.spec_index() && mv.spec_captured_piece()
                == board[destination.spec_index() as int]
            &&& passing ==> mv.captured_code() == 8 * origin.spec_row() + destination.spec_col()
                && mv.spec_captured_piece() == Some(p.spec_inv())
            &&& quiet && !passing ==> mv.spec_captured_piece() is None
            &&& mv.spec_is_castling() == (king && ((origin == kingside.spec_king_start()
                && destination == kingside.spec_king_end()) || (origin
                == queenside.spec_king_start() && destination == queenside.spec_king_end())))
            &&& mv.spec_is_castling() ==> mv.spec_get_castling() == (if origin
                == kingside.spec_king_start() && destination == kingside.spec_king_end() {
                kingside
            } else {
                queenside
            })
        }),
{
    let o = origin.spec_index() as u64;
    let d = destination.spec_index() as u64;
    let p = board[o as int]->0;
    let op = p.spec_index() as u64;
    let dp = match promotion {
        Some(pr) => pr.spec_as_piece(turn).spec_index() as u64,
        None => op,
    };
    let kingside = FileSide::Kingside.spec_to_quadrant(p.spec_color());
    let queenside = FileSide::Queenside.spec_to_quadrant(p.spec_color());
    match board[d as int] {
        Some(c) => {
            lemma_unpack(o, op, d, dp, d, c.spec_index() as u64, 0, 0, 0, 0, 0);
        },
        None => {
            if p.spec_as_generic() == GenericPiece::Pawn && origin.spec_col()
                != destination.spec_col() {
                let behind = (8 * origin.spec_row() + destination.spec_col()) as u64;
                lemma_unpack(o, op, d, dp, behind, p.spec_inv().spec_index() as u64, 0, 0, 1, 0, 0);
            } else if p.spec_as_generic() == GenericPiece::Pawn && (origin.spec_row() + 2
                == destination.spec_row() || destination.spec_row() + 2 == origin.spec_row()) {
                lemma_unpack(o, op, d, dp, 0, 15, 1, origin.spec_col() as u64, 0, 0, 0);
            } else if p.spec_as_generic() == GenericPiece::King && origin
                == kingside.spec_king_start() && destination == kingside.spec_king_end() {
                lemma_unpack(o, op, d, dp, 0, 15, 0, 0, 0, 1, kingside.spec_index() as u64);
            } else if p.spec_as_generic() == GenericPiece::King && origin
                == queenside.spec_king_start() && destination == queenside.spec_king_end() {
                lemma_unpack(o, op, d, dp, 0, 15, 0, 0, 0, 1, queenside.spec_index() as u64);
            } else {
                lemma_unpack(o, op, d, dp, 0, 15, 0, 0, 0, 0, 0);
            }
        },
    }
}

} // verus!
