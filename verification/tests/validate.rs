use sublime::board::color::Color;
use sublime::board::piece::Piece;
use sublime::board::square::Square;
use sublime::board::zone::Quadrant;
use sublime::game::position::{GameState, START_FEN};
use sublime::parse::err::{CorruptedBitboard, IllegalPosition};
use sublime::parse::validate::occ_mismatch;

fn position(fen: &str) -> GameState {
    GameState::from_fen(fen).unwrap()
}

fn corrupted(mask: u64) -> Result<(), IllegalPosition> {
    Err(IllegalPosition::CorruptedBitboard(CorruptedBitboard::OccupancyMismatch(mask)))
}

#[test]
fn sound_positions_pass() {
    for fen in [
        START_FEN,
        "r3k2r/p1ppqpb1/bn2pnp1/3PN3/1p2P3/2N2Q1p/PPPBBPPP/R3K2R w KQkq - 0 1",
        "8/2p5/3p4/KP5r/1R3p1k/8/4P1P1/8 w - - 0 1",
        "rnbq1k1r/pp1Pbppp/2p5/8/2B5/8/PPP1NnPP/RNBQK2R w KQ - 1 8",
        "rnbqkbnr/ppp1pppp/8/8/3pP3/8/PPPP1PPP/RNBQKBNR b KQkq e3 0 2",
    ] {
        assert_eq!(position(fen).validate(), Ok(()));
    }
}

#[test]
fn mismatch_names_its_squares() {
    assert_eq!(occ_mismatch(0), Ok(()));
    assert_eq!(occ_mismatch(0x18), corrupted(0x18));
}

#[test]
fn overlapping_bitboards_are_corrupted() {
    let mut state = position(START_FEN);
    state.bitboard[Piece::WhiteKnight.index()] |= 1;
    assert_eq!(state.validate(), corrupted(1));
    let mut state = position(START_FEN);
    state.bitboard[Piece::BlackRook.index()] |= 1u64 << 8;
    assert_eq!(state.validate(), corrupted(1u64 << 8));
    let mut state = position(START_FEN);
    state.bitboard[12] |= 1u64 << 30;
    assert_eq!(state.validate(), corrupted(1u64 << 30));
    let mut state = position(START_FEN);
    state.bitboard[13] ^= 1u64 << 63;
    assert_eq!(state.validate(), corrupted(1u64 << 63));
    let mut state = position(START_FEN);
    state.bitboard[14] = 0;
    assert_eq!(state.validate(), corrupted(0xFFFF_0000_0000_FFFF));
}

#[test]
fn piece_on_square_must_agree_with_the_bitboards() {
    let mut state = position(START_FEN);
    state.piece_on_square[Square::B1.index()] = Some(Piece::WhiteBishop);
    assert_eq!(state.validate(), corrupted(1u64 << 1));
    let mut state = position(START_FEN);
    state.piece_on_square[Square::E4.index()] = Some(Piece::WhitePawn);
    assert_eq!(state.validate(), corrupted(1u64 << 28));
}

#[test]
fn en_passant_target_is_checked() {
    let mut state = position(START_FEN);
    state.fen_info |= 3 << 6;
    assert_eq!(
        state.validate(),
        Err(IllegalPosition::CorruptedBitboard(CorruptedBitboard::InvalidEnPassantCode(3)))
    );
    assert_eq!(
        position("4k3/8/3p4/3pP3/8/8/8/4K3 w - d6 0 1").validate(),
        Err(IllegalPosition::EnPassantSquareOccupied)
    );
    assert_eq!(
        position("4k3/8/8/4P3/8/8/8/4K3 w - d6 0 1").validate(),
        Err(IllegalPosition::NoEnPassantDefender)
    );
    assert_eq!(
        position("4k3/8/8/3p4/8/8/8/4K3 w - d6 0 1").validate(),
        Err(IllegalPosition::NoEnPassantAttacker)
    );
    assert_eq!(
        position("rnbqkbnr/pppppppp/8/8/4P3/8/PPPP1PPP/RNBQKBNR b KQkq e3 0 1").validate(),
        Err(IllegalPosition::NoEnPassantAttacker)
    );
    assert_eq!(position("4k3/8/8/3pP3/8/8/8/4K3 w - d6 0 1").validate(), Ok(()));
    assert_eq!(position("4k3/8/8/8/3pP3/8/8/4K3 b - e3 0 1").validate(), Ok(()));
}

#[test]
fn piece_numbers_are_checked() {
    assert_eq!(
        position("4k3/8/8/8/8/8/8/8 w - - 0 1").validate(),
        Err(IllegalPosition::MissingKing(Color::White))
    );
    assert_eq!(
        position("8/8/8/8/8/8/8/4K3 w - - 0 1").validate(),
        Err(IllegalPosition::MissingKing(Color::Black))
    );
    assert_eq!(
        position("4kk2/8/8/8/8/8/8/4K3 w - - 0 1").validate(),
        Err(IllegalPosition::TooManyPieces(Piece::BlackKing, 2))
    );
    assert_eq!(
        position("4k3/8/8/8/8/P7/PPPPPPPP/4K3 w - - 0 1").validate(),
        Err(IllegalPosition::TooManyPieces(Piece::WhitePawn, 9))
    );
    assert_eq!(
        position("4k3/8/8/8/8/8/PPPPPPPP/QQ2K3 w - - 0 1").validate(),
        Err(IllegalPosition::TooManyPieces(Piece::WhiteQueen, 2))
    );
    assert_eq!(position("4k3/8/8/8/8/8/PPPPPPP1/QQ2K3 w - - 0 1").validate(), Ok(()));
    assert_eq!(
        position("4k3/8/8/8/8/8/PPPPPPP1/QQRRRK2 w - - 0 1").validate(),
        Err(IllegalPosition::TooManyPieces(Piece::WhiteQueen, 2))
    );
    assert_eq!(
        position("rrr1k3/pppppp2/8/8/8/8/8/4K3 w - - 0 1").validate(),
        Ok(())
    );
    assert_eq!(
        position("rrrrrk2/pppppp2/8/8/8/8/8/4K3 w - - 0 1").validate(),
        Err(IllegalPosition::TooManyPieces(Piece::BlackRook, 5))
    );
}

#[test]
fn bishops_on_one_color_need_a_promotion() {
    assert_eq!(
        position("4k3/8/8/8/8/8/PPPPPPPP/B1B1K3 w - - 0 1").validate(),
        Err(IllegalPosition::SameColorBishops(Piece::WhiteBishop, Color::Black))
    );
    assert_eq!(
        position("1b1bk3/pppppppp/8/8/8/8/8/4K3 w - - 0 1").validate(),
        Err(IllegalPosition::SameColorBishops(Piece::BlackBishop, Color::Black))
    );
    assert_eq!(
        position("b1b1k3/pppppppp/8/8/8/8/8/4K3 w - - 0 1").validate(),
        Err(IllegalPosition::SameColorBishops(Piece::BlackBishop, Color::White))
    );
    assert_eq!(position("4k3/8/8/8/8/8/PPPPPPP1/B1B1K3 w - - 0 1").validate(), Ok(()));
    assert_eq!(position("4k3/8/8/8/8/8/PPPPPPPP/BB2K3 w - - 0 1").validate(), Ok(()));
}

#[test]
fn castling_rights_need_king_and_rook_at_home() {
    assert_eq!(
        position("r3k2r/8/8/8/8/8/8/R4K1R w KQkq - 0 1").validate(),
        Err(IllegalPosition::InvalidCastling(Quadrant::WhiteKingside))
    );
    assert_eq!(
        position("r3k2r/8/8/8/8/8/8/4K2R w KQkq - 0 1").validate(),
        Err(IllegalPosition::InvalidCastling(Quadrant::WhiteQueenside))
    );
    assert_eq!(
        position("r3k3/8/8/8/8/8/8/R3K2R w KQkq - 0 1").validate(),
        Err(IllegalPosition::InvalidCastling(Quadrant::BlackKingside))
    );
    assert_eq!(
        position("R3k2r/8/8/8/8/8/8/R3K2R w KQkq - 0 1").validate(),
        Err(IllegalPosition::InvalidCastling(Quadrant::BlackQueenside))
    );
    assert_eq!(position("r3k3/8/8/8/8/8/8/R3K2R w KQq - 0 1").validate(), Ok(()));
}

#[test]
fn hash_must_be_the_hash_of_the_position() {
    let mut state = position(START_FEN);
    let right = state.zobrist_hash;
    state.zobrist_hash ^= 1;
    assert_eq!(
        state.validate(),
        Err(IllegalPosition::CorruptedBitboard(CorruptedBitboard::ZobristMismatch(
            right,
            right ^ 1
        )))
    );
}

#[test]
fn counts_within_a_limit() {
    let state = position(START_FEN);
    assert_eq!(state.count_piece_validate(Piece::WhitePawn, 8), Ok(8));
    assert_eq!(
        state.count_piece_validate(Piece::WhitePawn, 7),
        Err(IllegalPosition::TooManyPieces(Piece::WhitePawn, 8))
    );
    assert_eq!(state.validate_bitboards(), Ok(()));
    assert_eq!(state.validate_squares(), Ok(()));
    assert_eq!(state.validate_en_passant(), Ok(()));
    assert_eq!(state.validate_counts(Color::White), Ok(()));
    assert_eq!(state.validate_castling(), Ok(()));
    assert!(!state.castling_unsupported(Quadrant::WhiteKingside));
}
