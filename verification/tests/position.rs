use sublime::board::color::Color;
use sublime::board::line::{File, Rank};
use sublime::board::piece::Piece;
use sublime::board::square::Square;
use sublime::board::zone::Quadrant;
use sublime::game::position::{GameState, START_FEN};
use sublime::hashing::zobrist;

#[test]
fn empty_position_is_consistent() {
    let state = GameState::empty();
    assert_eq!(state.fen_info, 0);
    assert_eq!(state.full_occ(), 0);
    assert_eq!(state.zobrist_hash, state.compute_zobrist());
    assert_eq!(state.turn(), Color::White);
    assert!(!state.can_castle_any());
    assert!(!state.ep_legal());
    assert_eq!(state.piece_at(Square::E1), None);
}

#[test]
fn put_and_remove_keep_bitboards_and_hash_in_step() {
    let mut state = GameState::empty();
    state.put_piece(Piece::WhiteKing, Square::E1);
    state.put_piece(Piece::BlackQueen, Square::D8);
    assert_eq!(state.piece_at(Square::E1), Some(Piece::WhiteKing));
    assert_eq!(state.piece_at_bitboard(Square::E1), Some(Piece::WhiteKing));
    assert_eq!(state.piece_at_rc(7, 3), Some(Piece::BlackQueen));
    assert_eq!(state.occ(Color::White), 1u64 << 4);
    assert_eq!(state.occ(Color::Black), 1u64 << 59);
    assert_eq!(state.full_occ(), (1u64 << 4) | (1u64 << 59));
    assert_eq!(state.self_occ(), 1u64 << 4);
    assert_eq!(state.enemy_occ(), 1u64 << 59);
    assert_eq!(state.count_piece(Piece::WhiteKing), 1);
    assert_eq!(state.count_piece(Piece::WhiteQueen), 0);
    assert_eq!(state.zobrist_hash, state.compute_zobrist());
    state.remove_piece(Piece::BlackQueen, Square::D8);
    assert_eq!(state.piece_at(Square::D8), None);
    assert_eq!(state.full_occ(), 1u64 << 4);
    assert_eq!(state.zobrist_hash, state.compute_zobrist());
}

#[test]
fn side_info_holds_its_six_fields() {
    let state = GameState::from_fen(START_FEN).unwrap();
    assert_eq!(state.fen_info, 0x2000F);
    assert_eq!(state.castling_code(), 0b1111);
    assert_eq!(state.turn_code(), 0);
    assert_eq!(state.ep_legal_code(), 0);
    assert_eq!(state.ep_code(), 0);
    assert_eq!(state.halfmove_ctr(), 0);
    assert_eq!(state.fullmove_ctr(), 1);
    let other =
        GameState::from_fen("rnbqkbnr/pppp1ppp/8/4p3/4P3/8/PPPP1PPP/RNBQKBNR w Kq e6 37 52")
            .unwrap();
    assert_eq!(other.castling_code(), 0b1001);
    assert!(other.can_castle(Quadrant::WhiteKingside));
    assert!(!other.can_castle(Quadrant::WhiteQueenside));
    assert!(!other.can_castle(Quadrant::BlackKingside));
    assert!(other.can_castle(Quadrant::BlackQueenside));
    assert!(other.ep_legal());
    assert_eq!(other.ep_legal_code(), 32);
    assert_eq!(other.ep_file(), File::EFile);
    assert_eq!(other.ep_file_num(), 4);
    assert_eq!(other.ep_rank(), Rank::Rank6);
    assert_eq!(other.ep_rank_i(), Rank::Rank3);
    assert_eq!(other.ep_square(), Square::E6);
    assert_eq!(other.ep_square_num(), 44);
    assert_eq!(other.halfmove_ctr(), 37);
    assert_eq!(other.fullmove_ctr(), 52);
    assert_eq!(other.fen_info, 0b1001 | (1 << 5) | (4 << 6) | (37 << 9) | (52 << 17));
}

#[test]
fn counters_stop_at_their_limits() {
    let mut state = GameState::empty();
    state.set_halfmove_ctr(99);
    assert!(!state.is_50_move_rule());
    state.inc_halfmove_ctr();
    assert_eq!(state.halfmove_ctr(), 100);
    assert!(state.is_50_move_rule());
    state.set_halfmove_ctr(1000);
    assert_eq!(state.halfmove_ctr(), 255);
    state.inc_halfmove_ctr();
    assert_eq!(state.halfmove_ctr(), 255);
    state.reset_halfmove_ctr();
    assert_eq!(state.halfmove_ctr(), 0);
    state.set_fullmove_ctr(40000);
    assert_eq!(state.fullmove_ctr(), 32767);
    state.set_turn(Color::Black);
    state.zobrist_hash = state.compute_zobrist();
    state.flip_turn();
    assert_eq!(state.fullmove_ctr(), 32767);
    assert_eq!(state.turn(), Color::White);
    assert_eq!(state.halfmove_ctr(), 0);
    assert_eq!(state.zobrist_hash, state.compute_zobrist());
}

#[test]
fn fullmove_grows_after_black() {
    let mut state = GameState::from_fen(START_FEN).unwrap();
    state.flip_turn();
    assert_eq!(state.turn(), Color::Black);
    assert_eq!(state.fullmove_ctr(), 1);
    assert_eq!(state.zobrist_hash, state.compute_zobrist());
    state.flip_turn();
    assert_eq!(state.turn(), Color::White);
    assert_eq!(state.fullmove_ctr(), 2);
    assert_eq!(state.zobrist_hash, state.compute_zobrist());
}

#[test]
fn castling_and_en_passant_setters_keep_the_hash_in_step() {
    let mut state = GameState::from_fen(START_FEN).unwrap();
    state.deny_castling(Quadrant::WhiteQueenside);
    assert_eq!(state.castling_code(), 0b1101);
    assert_eq!(state.zobrist_hash, state.compute_zobrist());
    state.deny_castling(Quadrant::WhiteQueenside);
    assert_eq!(state.castling_code(), 0b1101);
    assert_eq!(state.zobrist_hash, state.compute_zobrist());
    state.set_ep_target(File::CFile);
    assert!(state.ep_legal());
    assert_eq!(state.ep_file(), File::CFile);
    assert_eq!(state.zobrist_hash, state.compute_zobrist());
    state.set_ep_target(File::HFile);
    assert_eq!(state.ep_code(), 7);
    assert_eq!(state.zobrist_hash, state.compute_zobrist());
    state.deny_ep();
    assert!(!state.ep_legal());
    assert_eq!(state.ep_code(), 0);
    assert_eq!(state.zobrist_hash, state.compute_zobrist());
    state.set_castling(Quadrant::WhiteQueenside, true);
    assert_eq!(state.castling_code(), 0b1111);
    state.set_castling(Quadrant::BlackKingside, false);
    assert_eq!(state.castling_code(), 0b1011);
    state.set_fen_bits(0, 4, 0b0110);
    assert_eq!(state.castling_code(), 0b0110);
    assert_eq!(state.fullmove_ctr(), 1);
}

#[test]
fn hash_depends_on_features_not_on_counters() {
    let a = GameState::from_fen("r3k2r/8/8/8/8/8/8/R3K2R w KQkq - 0 1").unwrap();
    let b = GameState::from_fen("r3k2r/8/8/8/8/8/8/R3K2R w KQkq - 77 123").unwrap();
    assert_eq!(a.zobrist_hash, b.zobrist_hash);
    let black = GameState::from_fen("r3k2r/8/8/8/8/8/8/R3K2R b KQkq - 0 1").unwrap();
    assert_eq!(a.zobrist_hash ^ black.zobrist_hash, zobrist::BLACK_TO_MOVE);
    let fewer = GameState::from_fen("r3k2r/8/8/8/8/8/8/R3K2R w KQk - 0 1").unwrap();
    assert_eq!(
        a.zobrist_hash ^ fewer.zobrist_hash,
        zobrist::castling_key(0b1111) ^ zobrist::castling_key(0b0111)
    );
    let moved = GameState::from_fen("r3k2r/8/8/8/8/8/8/R4K1R w KQkq - 0 1").unwrap();
    assert_eq!(
        a.zobrist_hash ^ moved.zobrist_hash,
        zobrist::piece_key(Piece::WhiteKing, Square::E1)
            ^ zobrist::piece_key(Piece::WhiteKing, Square::F1)
    );
}

#[test]
fn en_passant_files_hash_apart() {
    let e = GameState::from_fen("4k3/8/8/3pP3/8/8/8/4K3 w - d6 0 1").unwrap();
    let none = GameState::from_fen("4k3/8/8/3pP3/8/8/8/4K3 w - - 0 1").unwrap();
    assert_eq!(e.zobrist_hash ^ none.zobrist_hash, zobrist::ep_file_key(3));
    assert_ne!(zobrist::ep_file_key(3), zobrist::ep_file_key(4));
    assert_ne!(zobrist::nth_key(0), zobrist::nth_key(1));
    assert_eq!(zobrist::scramble(0), 0);
    assert_ne!(zobrist::scramble(1), 1);
}
