use sublime::board::color::Color;
use sublime::board::piece::{Piece, Promotion};
use sublime::board::square::Square;
use sublime::board::zone::Quadrant;
use sublime::game::board_move::Move;
use sublime::game::position::{GameState, START_FEN};
use sublime::hashing::magic::MagicTables;
use sublime::parse::err::IllegalPosition;

fn position(fen: &str) -> GameState {
    GameState::from_fen(fen).unwrap()
}

#[test]
fn double_pawn_push_is_flagged_with_its_file() {
    let state = position(START_FEN);
    let mv = Move::new(&state, Square::E2, Square::E4, None);
    assert_eq!(mv.0, 0x2_7C05_714C);
    assert_eq!(mv.origin_square(), Square::E2);
    assert_eq!(mv.origin_piece(), Piece::WhitePawn);
    assert_eq!(mv.destination_square(), Square::E4);
    assert_eq!(mv.destination_piece(), Piece::WhitePawn);
    assert_eq!(mv.color(), Color::White);
    assert!(!mv.is_capture());
    assert_eq!(mv.captured_piece(), None);
    assert!(mv.is_double_pawn_push());
    assert!(!mv.is_ep_capture());
    assert!(!mv.is_castling());
}

#[test]
fn quiet_moves_carry_no_flags() {
    let state = position(START_FEN);
    let knight = Move::new(&state, Square::G1, Square::F3, None);
    assert_eq!(knight.0, 0x3C01_5446);
    let pawn = Move::new(&state, Square::E2, Square::E3, None);
    assert!(!pawn.is_double_pawn_push());
    assert_eq!(pawn.origin_piece(), Piece::WhitePawn);
    assert_eq!(pawn.destination_piece(), Piece::WhitePawn);
    assert_eq!(pawn.captured_piece(), None);
}

#[test]
fn captures_name_the_piece_on_the_destination() {
    let state = position("4k3/8/8/3p4/4P3/8/8/4K3 w - - 0 1");
    let mv = Move::new(&state, Square::E4, Square::D5, None);
    assert!(mv.is_capture());
    assert!(!mv.is_ep_capture());
    assert_eq!(mv.captured_square(), Square::D5);
    assert_eq!(mv.captured_piece(), Some(Piece::BlackPawn));
}

#[test]
fn en_passant_captures_beside_the_origin() {
    let state = position("4k3/8/8/3pP3/8/8/8/4K3 w - d6 0 1");
    let mv = Move::new(&state, Square::E5, Square::D6, None);
    assert_eq!(mv.0, 0x4_2E35_AD64);
    assert!(mv.is_ep_capture());
    assert!(mv.is_capture());
    assert_eq!(mv.captured_square(), Square::D5);
    assert_eq!(mv.captured_piece(), Some(Piece::BlackPawn));
    assert_eq!(mv.destination_square(), Square::D6);
}

#[test]
fn promotions_change_the_destination_piece() {
    let state = position("1n2k3/P7/8/8/8/8/8/4K3 w - - 0 1");
    let mv = Move::new(&state, Square::A7, Square::B8, Some(Promotion::Queen));
    assert_eq!(mv.0, 0x1F93_E570);
    assert_eq!(mv.origin_piece(), Piece::WhitePawn);
    assert_eq!(mv.destination_piece(), Piece::WhiteQueen);
    assert_eq!(mv.captured_piece(), Some(Piece::BlackKnight));
    let quiet = Move::new(&state, Square::A7, Square::A8, Some(Promotion::Knight));
    assert_eq!(quiet.destination_piece(), Piece::WhiteKnight);
    assert!(!quiet.is_capture());
}

#[test]
fn castling_names_its_quadrant() {
    let state = position("r3k2r/8/8/8/8/8/8/R3K2R w KQkq - 0 1");
    let short = Move::new(&state, Square::E1, Square::G1, None);
    assert_eq!(short.0, 0x8_3C04_1904);
    assert!(short.is_castling());
    assert_eq!(short.get_castling(), Quadrant::WhiteKingside);
    let black = position("r3k2r/8/8/8/8/8/8/R3K2R b KQkq - 0 1");
    let long = Move::new(&black, Square::E8, Square::C8, None);
    assert_eq!(long.0, 0x38_3C0A_EABC);
    assert!(long.is_castling());
    assert_eq!(long.get_castling(), Quadrant::BlackQueenside);
    let step = Move::new(&state, Square::E1, Square::F1, None);
    assert!(!step.is_castling());
}

#[test]
fn make_moves_the_pieces_and_updates_side_info() {
    let mut state = position(START_FEN);
    let mv = Move::new(&state, Square::E2, Square::E4, None);
    state.push(mv);
    assert_eq!(state.fen(), "rnbqkbnr/pppppppp/8/8/4P3/8/PPPP1PPP/RNBQKBNR b KQkq e3 0 1");
    assert_eq!(state.zobrist_hash, state.compute_zobrist());
    let reply = Move::new(&state, Square::G8, Square::F6, None);
    state.push(reply);
    assert_eq!(state.fen(), "rnbqkb1r/pppppppp/5n2/8/4P3/8/PPPP1PPP/RNBQKBNR w KQkq - 1 2");
    assert_eq!(state.zobrist_hash, state.compute_zobrist());
}

#[test]
fn castling_moves_the_rook_and_takes_both_rights() {
    let mut state = position("r3k2r/8/8/8/8/8/8/R3K2R w KQkq - 4 9");
    let mv = Move::new(&state, Square::E1, Square::G1, None);
    state.push(mv);
    assert_eq!(state.fen(), "r3k2r/8/8/8/8/8/8/R4RK1 b kq - 5 9");
    assert_eq!(state.zobrist_hash, state.compute_zobrist());
    let long = Move::new(&state, Square::E8, Square::C8, None);
    state.push(long);
    assert_eq!(state.fen(), "2kr3r/8/8/8/8/8/8/R4RK1 w - - 6 10");
    assert_eq!(state.zobrist_hash, state.compute_zobrist());
}

#[test]
fn touching_a_corner_takes_one_right() {
    let mut state = position("r3k2r/8/8/8/8/8/8/R3K2R w KQkq - 0 1");
    let mv = Move::new(&state, Square::A1, Square::A8, None);
    state.push(mv);
    assert_eq!(state.fen(), "R3k2r/8/8/8/8/8/8/4K2R b Kk - 1 1");
    assert_eq!(state.zobrist_hash, state.compute_zobrist());
}

#[test]
fn en_passant_removes_the_pawn_beside() {
    let mut state = position("4k3/8/8/3pP3/8/8/8/4K3 w - d6 0 1");
    let mv = Move::new(&state, Square::E5, Square::D6, None);
    state.push(mv);
    assert_eq!(state.fen(), "4k3/8/3P4/8/8/8/8/4K3 b - - 0 1");
    assert_eq!(state.zobrist_hash, state.compute_zobrist());
}

#[test]
fn unmake_restores_every_field() {
    let fens = [
        START_FEN,
        "r3k2r/p1ppqpb1/bn2pnp1/3PN3/1p2P3/2N2Q1p/PPPBBPPP/R3K2R w KQkq - 0 1",
        "4k3/8/8/3pP3/8/8/8/4K3 w - d6 0 1",
        "rnbq1k1r/pp1Pbppp/2p5/8/2B5/8/PPP1NnPP/RNBQK2R w KQ - 1 8",
        "r3k2r/8/8/8/8/8/8/R3K2R b KQkq - 0 1",
    ];
    let tables = MagicTables::new().unwrap();
    for fen in fens {
        let mut state = position(fen);
        let before = state;
        let mut moves: Vec<Move> = Vec::new();
        state.generate_legal_moves(&tables, &mut moves);
        assert_eq!(state, before);
        for mv in moves {
            state.push(mv);
            assert_ne!(state, before);
            assert_eq!(state.zobrist_hash, state.compute_zobrist());
            match state.validate() {
                Ok(()) => {}
                Err(e) => {
                    assert!(mv.is_double_pawn_push());
                    assert_eq!(e, IllegalPosition::NoEnPassantAttacker);
                }
            }
            state.pop(mv, before.fen_info, before.zobrist_hash);
            assert_eq!(state, before);
        }
    }
}

#[test]
fn partial_make_leaves_side_info_alone() {
    let mut state = position(START_FEN);
    let before = state;
    let mv = Move::new(&state, Square::E2, Square::E4, None);
    state.push_partial(mv);
    assert_eq!(state.fen_info, before.fen_info);
    assert_eq!(state.piece_at(Square::E4), Some(Piece::WhitePawn));
    assert_eq!(state.piece_at(Square::E2), None);
    assert_eq!(state.zobrist_hash, state.compute_zobrist());
    state.pop_partial(mv);
    assert_eq!(state, before);
}

#[test]
fn occupancies_follow_every_move() {
    let tables = MagicTables::new().unwrap();
    let mut state =
        position("r3k2r/p1ppqpb1/bn2pnp1/3PN3/1p2P3/2N2Q1p/PPPBBPPP/R3K2R w KQkq - 0 1");
    let before = state;
    let mut moves: Vec<Move> = Vec::new();
    state.generate_legal_moves(&tables, &mut moves);
    for mv in moves {
        state.push(mv);
        let mut white = 0u64;
        let mut black = 0u64;
        for p in 0..6 {
            assert_eq!(white & state.bitboard[p], 0);
            white |= state.bitboard[p];
            assert_eq!(black & state.bitboard[p + 6], 0);
            black |= state.bitboard[p + 6];
        }
        assert_eq!(state.occ(Color::White), white);
        assert_eq!(state.occ(Color::Black), black);
        assert_eq!(white & black, 0);
        assert_eq!(state.full_occ(), white | black);
        state.pop(mv, before.fen_info, before.zobrist_hash);
    }
}
