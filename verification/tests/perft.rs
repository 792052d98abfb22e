use sublime::game::board_move::Move;
use sublime::game::move_gen::MAX_LEGAL_MOVES;
use sublime::game::position::{GameState, START_FEN};
use sublime::hashing::magic::MagicTables;

fn count_leaves(state: &mut GameState, tables: &MagicTables, depth: u32) -> u64 {
    let mut moves: Vec<Move> = Vec::with_capacity(MAX_LEGAL_MOVES);
    let count = state.generate_legal_moves(tables, &mut moves);
    assert!(count <= MAX_LEGAL_MOVES);
    if depth == 1 {
        return count as u64;
    }
    let mut leaves = 0;
    for mv in moves {
        let info = state.fen_info;
        let hash = state.zobrist_hash;
        state.push(mv);
        assert_eq!(state.zobrist_hash, state.compute_zobrist());
        leaves += count_leaves(state, tables, depth - 1);
        state.pop(mv, info, hash);
    }
    leaves
}

fn perft(fen: &str, depth: u32) -> u64 {
    let tables = MagicTables::new().unwrap();
    let mut state = GameState::from_fen(fen).unwrap();
    let before = state;
    let leaves = count_leaves(&mut state, &tables, depth);
    assert_eq!(state, before);
    leaves
}

const KIWIPETE: &str = "r3k2r/p1ppqpb1/bn2pnp1/3PN3/1p2P3/2N2Q1p/PPPBBPPP/R3K2R w KQkq - 0 1";
const ENDGAME: &str = "8/2p5/3p4/KP5r/1R3p1k/8/4P1P1/8 w - - 0 1";
const MIRRORED: &str = "r3k2r/Pppp1ppp/1b3nbN/nP6/BBP1P3/q4N2/Pp1P2PP/R2Q1RK1 w kq - 0 1";
const BLACK_PAWN_ON_G2: &str = "r3k2r/Pppp1ppp/1b3nbN/nP6/BBP1P3/q4N2/Pp1P2pP/R2Q1RK1 w kq - 0 1";
const PROMOTIONS: &str = "rnbq1k1r/pp1Pbppp/2p5/8/2B5/8/PPP1NnPP/RNBQK2R w KQ - 1 8";

#[test]
fn perft_start_depth_1() {
    assert_eq!(perft(START_FEN, 1), 20);
}

#[test]
fn perft_start_depth_2() {
    assert_eq!(perft(START_FEN, 2), 400);
}

#[test]
fn perft_start_depth_3() {
    assert_eq!(perft(START_FEN, 3), 8902);
}

#[test]
fn perft_kiwipete_depth_1() {
    assert_eq!(perft(KIWIPETE, 1), 48);
}

#[test]
fn perft_kiwipete_depth_2() {
    assert_eq!(perft(KIWIPETE, 2), 2039);
}

#[test]
fn perft_kiwipete_depth_3() {
    assert_eq!(perft(KIWIPETE, 3), 97862);
}

#[test]
fn perft_endgame_depth_1() {
    assert_eq!(perft(ENDGAME, 1), 14);
}

#[test]
fn perft_endgame_depth_2() {
    assert_eq!(perft(ENDGAME, 2), 191);
}

#[test]
fn perft_endgame_depth_3() {
    assert_eq!(perft(ENDGAME, 3), 2812);
}

#[test]
fn perft_mirrored_depth_1() {
    assert_eq!(perft(MIRRORED, 1), 6);
}

#[test]
fn perft_mirrored_depth_2() {
    assert_eq!(perft(MIRRORED, 2), 264);
}

#[test]
fn perft_mirrored_depth_3() {
    assert_eq!(perft(MIRRORED, 3), 9467);
}

#[test]
fn perft_promotions_depth_1() {
    assert_eq!(perft(PROMOTIONS, 1), 44);
}

#[test]
fn perft_promotions_depth_2() {
    assert_eq!(perft(PROMOTIONS, 2), 1486);
}

#[test]
fn perft_promotions_depth_3() {
    assert_eq!(perft(PROMOTIONS, 3), 62379);
}

#[test]
fn perft_black_pawn_on_g2_depth_1() {
    assert_eq!(perft(BLACK_PAWN_ON_G2, 1), 6);
}

#[test]
fn perft_black_pawn_on_g2_depth_2() {
    assert_eq!(perft(BLACK_PAWN_ON_G2, 2), 280);
}

#[test]
fn perft_black_pawn_on_g2_depth_3() {
    assert_eq!(perft(BLACK_PAWN_ON_G2, 3), 9346);
}

#[test]
fn legal_moves_come_once_and_leave_the_king_safe() {
    let tables = MagicTables::new().unwrap();
    for fen in [START_FEN, KIWIPETE, ENDGAME, MIRRORED, PROMOTIONS] {
        let mut state = GameState::from_fen(fen).unwrap();
        let mover = state.turn();
        let mut pseudo: Vec<Move> = Vec::new();
        state.generate_pseudo_legal_moves(&tables, &mut pseudo);
        let mut legal: Vec<Move> = Vec::new();
        let count = state.generate_legal_moves(&tables, &mut legal);
        assert_eq!(count, legal.len());
        for (i, a) in legal.iter().enumerate() {
            for b in &legal[i + 1..] {
                assert_ne!(a, b);
            }
        }
        for mv in &pseudo {
            let mut after = state;
            after.push(*mv);
            let safe = !after.in_check(&tables, mover);
            assert_eq!(legal.contains(mv), safe);
            assert_eq!(state.is_legal(&tables, *mv), safe);
        }
        for mv in &legal {
            assert!(pseudo.contains(mv));
        }
    }
}
