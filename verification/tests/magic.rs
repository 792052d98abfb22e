use sublime::bits::count_bits;
use sublime::hashing::bitmask;
use sublime::hashing::magic::{get_bishop_moves, get_queen_moves, get_rook_moves, MagicTables};

#[test]
fn tables_build_with_the_given_multipliers() {
    assert!(MagicTables::new().is_some());
}

#[test]
fn rook_on_a1_sees_along_rank_and_file() {
    let tables = MagicTables::new().unwrap();
    assert_eq!(get_rook_moves(&tables, 0, 0), 0x0101_0101_0101_01FE);
    let blockers = (1u64 << 3) | (1u64 << 16);
    assert_eq!(get_rook_moves(&tables, 0, blockers), 0x0000_0000_0001_010E);
}

#[test]
fn bishop_on_d4_stops_at_blockers() {
    let tables = MagicTables::new().unwrap();
    assert_eq!(get_bishop_moves(&tables, 27, 0), 0x8041_2214_0014_2241);
    let blockers = (1u64 << 45) | (1u64 << 9);
    assert_eq!(get_bishop_moves(&tables, 27, blockers), 0x0001_2214_0014_2240);
}

#[test]
fn queen_is_rook_and_bishop() {
    let tables = MagicTables::new().unwrap();
    let blockers = 0x00FF_0000_0000_FF00u64;
    for square in 0..64 {
        assert_eq!(
            get_queen_moves(&tables, square, blockers),
            get_rook_moves(&tables, square, blockers) | get_bishop_moves(&tables, square, blockers)
        );
    }
}

#[test]
fn relevant_squares_are_counted() {
    assert_eq!(count_bits(bitmask::rook_relevant_occupancy(0)), 12);
    assert_eq!(count_bits(bitmask::rook_relevant_occupancy(27)), 10);
    assert_eq!(count_bits(bitmask::bishop_relevant_occupancy(27)), 9);
    assert_eq!(count_bits(bitmask::bishop_relevant_occupancy(0)), 6);
}
