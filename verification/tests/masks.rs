use sublime::bits::{count_bits, lowest_bit};
use sublime::board::color::Color;
use sublime::hashing::bitmask;

#[test]
fn bits_are_counted() {
    assert_eq!(count_bits(0), 0);
    assert_eq!(count_bits(1), 1);
    assert_eq!(count_bits(0xFF00), 8);
    assert_eq!(count_bits(u64::MAX), 64);
    assert_eq!(count_bits(0x8000_0000_0000_0001), 2);
}

#[test]
fn lowest_bit_is_found() {
    assert_eq!(lowest_bit(1), 0);
    assert_eq!(lowest_bit(0xFF00), 8);
    assert_eq!(lowest_bit(1u64 << 63), 63);
}

#[test]
fn kings_step_to_their_neighbours() {
    assert_eq!(bitmask::king_moves(28), 0x0000_0038_2838_0000);
    assert_eq!(bitmask::king_moves(0), 0x0000_0000_0000_0302);
    assert_eq!(bitmask::king_moves(63), 0x40C0_0000_0000_0000);
}

#[test]
fn knights_jump() {
    assert_eq!(bitmask::knight_moves(1), 0x0000_0000_0005_0800);
    assert_eq!(bitmask::knight_moves(28), 0x0000_2844_0044_2800);
    assert_eq!(bitmask::knight_moves(63), 0x0020_4000_0000_0000);
}

#[test]
fn pawns_attack_forward_diagonals() {
    assert_eq!(bitmask::pawn_attacks(Color::White, 28), 0x28_0000_0000);
    assert_eq!(bitmask::pawn_attacks(Color::Black, 48), 0x200_0000_0000);
    assert_eq!(bitmask::pawn_attacks(Color::White, 15), 0x40_0000);
    assert_eq!(bitmask::pawn_attacks(Color::White, 60), 0);
    assert_eq!(bitmask::pawn_attacks(Color::Black, 3), 0);
}

#[test]
fn pawns_advance_two_from_home() {
    assert_eq!(bitmask::pawn_moves(Color::White, 12), 0x1010_0000);
    assert_eq!(bitmask::pawn_moves(Color::Black, 52), 0x1010_0000_0000);
    assert_eq!(bitmask::pawn_moves(Color::White, 20), 0x1000_0000);
    assert_eq!(bitmask::pawn_moves(Color::White, 52), 1u64 << 60);
    assert_eq!(bitmask::pawn_moves(Color::Black, 12), 1u64 << 4);
}

#[test]
fn cumulative_masks_grow_from_the_edge() {
    assert_eq!(bitmask::left_files(0), 0);
    assert_eq!(bitmask::left_files(1), 0x0101_0101_0101_0101);
    assert_eq!(bitmask::left_files(8), u64::MAX);
    assert_eq!(bitmask::right_files(1), 0x8080_8080_8080_8080);
    assert_eq!(bitmask::bottom_ranks(2), 0xFFFF);
    assert_eq!(bitmask::top_ranks(1), 0xFF00_0000_0000_0000);
    assert_eq!(bitmask::top_ranks(8), u64::MAX);
}

#[test]
fn generated_tables_match_the_single_masks() {
    let files = bitmask::gen_lines(bitmask::FILE_A, true);
    let ranks = bitmask::gen_lines(bitmask::RANK_1, false);
    for i in 0..8 {
        assert_eq!(files[i], bitmask::file_mask(i));
        assert_eq!(ranks[i], bitmask::rank_mask(i));
    }
    let left = bitmask::cumulative(files, false);
    let right = bitmask::cumulative(files, true);
    let bottom = bitmask::cumulative(ranks, false);
    let top = bitmask::cumulative(ranks, true);
    for n in 0..9 {
        assert_eq!(left[n], bitmask::left_files(n));
        assert_eq!(right[n], bitmask::right_files(n));
        assert_eq!(bottom[n], bitmask::bottom_ranks(n));
        assert_eq!(top[n], bitmask::top_ranks(n));
    }
    let diagonals = bitmask::gen_diags(bitmask::MAIN_DIAGONAL);
    let anti = bitmask::gen_diags(bitmask::MAIN_ANTIDIAGONAL);
    for i in 0..15 {
        assert_eq!(diagonals[i], bitmask::diagonal_mask(i));
        assert_eq!(anti[i], bitmask::anti_diagonal_mask(i));
    }
    let white = bitmask::gen_pawn_attacks(true);
    let black = bitmask::gen_pawn_attacks(false);
    let rook_rays = bitmask::gen_piece_rays(false, true);
    let bishop_rays = bitmask::gen_piece_rays(false, false);
    let rook_relevant = bitmask::gen_piece_rays(true, true);
    let bishop_relevant = bitmask::gen_piece_rays(true, false);
    for s in 0..64 {
        assert_eq!(white[s], bitmask::pawn_attacks(Color::White, s));
        assert_eq!(black[s], bitmask::pawn_attacks(Color::Black, s));
        assert_eq!(rook_rays[s], bitmask::rook_rays(s));
        assert_eq!(bishop_rays[s], bitmask::bishop_rays(s));
        assert_eq!(rook_relevant[s], bitmask::rook_relevant_occupancy(s));
        assert_eq!(bishop_relevant[s], bitmask::bishop_relevant_occupancy(s));
    }
}

#[test]
fn relevant_squares_leave_out_the_ends_of_rays() {
    assert_eq!(bitmask::rook_relevant_occupancy(0), 0x0001_0101_0101_017E);
    assert_eq!(bitmask::bishop_relevant_occupancy(28), 0x0002_4428_0028_4400);
    assert_eq!(bitmask::rook_rays(0), 0x0101_0101_0101_01FF);
}

#[test]
fn named_regions_fit_together() {
    assert_eq!(bitmask::DARK_SQUARES | bitmask::LIGHT_SQUARES, bitmask::ALL_SQUARES);
    assert_eq!(bitmask::DARK_SQUARES & bitmask::LIGHT_SQUARES, bitmask::NO_SQUARES);
    assert_eq!(bitmask::DARK_SQUARES & 1, 1);
    assert_eq!(bitmask::EDGES, bitmask::EDGE_FILES | bitmask::EDGE_RANKS);
    assert_eq!(
        bitmask::WINGS,
        (bitmask::WING_FILES | bitmask::WING_RANKS) & !bitmask::EDGES
    );
    assert_eq!(
        bitmask::FLANKS,
        (bitmask::FLANK_FILES | bitmask::FLANK_RANKS) & !bitmask::EDGES & !bitmask::WINGS
    );
    assert_eq!(bitmask::CENTER, bitmask::CENTER_FILES & bitmask::CENTER_RANKS);
    assert_eq!(bitmask::quadrant_mask(false, false), 0x0F0F_0F0F_0000_0000);
    assert_eq!(bitmask::offset_square(0, true, 1, true, 1), 1u64 << 9);
    assert_eq!(bitmask::offset_square(0, false, 1, true, 1), 0);
}
