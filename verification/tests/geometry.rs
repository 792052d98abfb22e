use sublime::board::color::Color;
use sublime::board::direction::Direction;
use sublime::board::line::{AntiDiagonal, Diagonal, File, Rank};
use sublime::board::piece::{GenericPiece, Moveset, Piece, Promotion};
use sublime::board::square::Square;
use sublime::board::zone::{FileSide, Quadrant, RankSide};

#[test]
fn square_index_is_row_major() {
    assert_eq!(Square::A1.index(), 0);
    assert_eq!(Square::H1.index(), 7);
    assert_eq!(Square::A8.index(), 56);
    assert_eq!(Square::H8.index(), 63);
    assert_eq!(Square::E4.row(), 3);
    assert_eq!(Square::E4.col(), 4);
    assert_eq!(Square::E4.rank(), Rank::Rank4);
    assert_eq!(Square::E4.file(), File::EFile);
}

#[test]
fn every_square_is_the_square_of_its_index() {
    for i in 0..64 {
        let square = Square::from_index(i);
        assert_eq!(square.index(), i);
        assert_eq!(Square::from_rc(square.row(), square.col()), square);
        assert_eq!(Square::from_file_rank(square.file(), square.rank()), square);
        assert_eq!(square.mask(), 1u64 << i);
    }
}

#[test]
fn a1_is_a_dark_square() {
    assert_eq!(Square::A1.color(), Color::Black);
    assert_eq!(Square::H1.color(), Color::White);
    assert_eq!(Square::D1.color(), Color::White);
    assert_eq!(Square::H8.color(), Color::Black);
}

#[test]
fn squares_know_their_diagonals() {
    assert_eq!(Square::A1.diag(), Diagonal::A1H8);
    assert_eq!(Square::H8.diag(), Diagonal::A1H8);
    assert_eq!(Square::A8.diag(), Diagonal::A8A8);
    assert_eq!(Square::H1.diag(), Diagonal::H1H1);
    assert_eq!(Square::A8.antidiag(), AntiDiagonal::A8H1);
    assert_eq!(Square::H1.antidiag(), AntiDiagonal::A8H1);
    assert_eq!(Square::A1.antidiag(), AntiDiagonal::A1A1);
    assert_eq!(Square::E4.diag(), Diagonal::B1H7);
    assert_eq!(Square::E4.antidiag(), AntiDiagonal::A8H1);
}

#[test]
fn lines_have_their_masks() {
    assert_eq!(File::EFile.mask(), 0x1010_1010_1010_1010);
    assert_eq!(Rank::Rank4.mask(), 0x0000_0000_FF00_0000);
    assert_eq!(Diagonal::A1H8.mask(), 0x8040_2010_0804_0201);
    assert_eq!(AntiDiagonal::A8H1.mask(), 0x0102_0408_1020_4080);
    assert_eq!(Diagonal::A8A8.mask(), 1u64 << 56);
    assert_eq!(Diagonal::H1H1.mask(), 1u64 << 7);
    assert_eq!(AntiDiagonal::A1A1.mask(), 1);
    assert_eq!(AntiDiagonal::H8H8.mask(), 1u64 << 63);
    assert_eq!(File::CFile.offset(), 2);
    assert_eq!(Rank::Rank3.offset(), 16);
}

#[test]
fn diagonals_have_their_ends() {
    assert_eq!(Diagonal::A1H8.ends(), [Square::A1, Square::H8]);
    assert_eq!(Diagonal::A7B8.ends(), [Square::A7, Square::B8]);
    assert_eq!(Diagonal::G1H2.ends(), [Square::G1, Square::H2]);
    assert_eq!(AntiDiagonal::A8H1.ends(), [Square::A8, Square::H1]);
    assert_eq!(AntiDiagonal::A2B1.ends(), [Square::A2, Square::B1]);
    assert_eq!(AntiDiagonal::G8H7.ends(), [Square::G8, Square::H7]);
}

#[test]
fn files_give_the_skipped_square() {
    assert_eq!(File::EFile.ep_square(Color::White), Square::E3);
    assert_eq!(File::EFile.ep_square(Color::Black), Square::E6);
    assert_eq!(File::AFile.ep_square(Color::Black), Square::A6);
}

#[test]
fn colors_are_inverse_to_each_other() {
    assert_eq!(Color::White.inv(), Color::Black);
    assert_eq!(Color::Black.inv(), Color::White);
    assert_eq!(Color::White.bb_offset(), 0);
    assert_eq!(Color::Black.bb_offset(), 6);
    assert_eq!(Color::White.occ_offset(), 12);
    assert_eq!(Color::Black.occ_offset(), 13);
    assert_eq!(Color::White.pawn_direction(), Direction::North);
    assert_eq!(Color::Black.pawn_direction(), Direction::South);
    assert_eq!(Color::from_index(1), Color::Black);
}

#[test]
fn pieces_are_color_times_six_plus_kind() {
    for i in 0..12 {
        let piece = Piece::from_index(i);
        assert_eq!(piece.index(), i);
        assert_eq!(piece.as_generic().index(), i % 6);
        assert_eq!(piece.color().index(), i / 6);
        assert_eq!(piece.as_generic().as_color(piece.color()), piece);
        assert_eq!(piece.inv().inv(), piece);
        assert_eq!(piece.inv().as_generic(), piece.as_generic());
        assert_eq!(piece.occ_index(), 12 + i / 6);
    }
    assert_eq!(Piece::WhiteKing.inv(), Piece::BlackKing);
    assert_eq!(Piece::BlackPawn.moveset(), Moveset::BlackPawnMove);
    assert_eq!(Piece::WhitePawn.moveset(), Moveset::WhitePawnMove);
    assert_eq!(Piece::BlackQueen.moveset(), Moveset::QueenMove);
    assert_eq!(GenericPiece::from_index(4), GenericPiece::King);
}

#[test]
fn pieces_of_a_color_come_in_kind_order() {
    assert_eq!(
        Piece::pieces_of_color(Color::Black),
        [
            Piece::BlackRook,
            Piece::BlackKnight,
            Piece::BlackBishop,
            Piece::BlackQueen,
            Piece::BlackKing,
            Piece::BlackPawn
        ]
    );
    assert_eq!(Piece::pieces_of_color(Color::White)[5], Piece::WhitePawn);
}

#[test]
fn promotions_become_pieces() {
    assert_eq!(Promotion::Queen.as_piece(Color::White), Piece::WhiteQueen);
    assert_eq!(Promotion::Knight.as_piece(Color::Black), Piece::BlackKnight);
    assert_eq!(Promotion::Rook.as_generic_piece(), GenericPiece::Rook);
    assert_eq!(Promotion::from_index(2), Promotion::Bishop);
    assert_eq!(Promotion::Bishop.index(), 2);
}

#[test]
fn quadrants_know_their_squares() {
    assert_eq!(Quadrant::WhiteKingside.king_start(), Square::E1);
    assert_eq!(Quadrant::WhiteKingside.king_cross(), Square::F1);
    assert_eq!(Quadrant::WhiteKingside.king_end(), Square::G1);
    assert_eq!(Quadrant::WhiteKingside.rook_start(), Square::H1);
    assert_eq!(Quadrant::WhiteKingside.rook_end(), Square::F1);
    assert_eq!(Quadrant::BlackQueenside.king_start(), Square::E8);
    assert_eq!(Quadrant::BlackQueenside.king_end(), Square::C8);
    assert_eq!(Quadrant::BlackQueenside.rook_start(), Square::A8);
    assert_eq!(Quadrant::BlackQueenside.rook_end(), Square::D8);
    assert_eq!(Quadrant::BlackQueenside.king(), Piece::BlackKing);
    assert_eq!(Quadrant::WhiteQueenside.rook(), Piece::WhiteRook);
    assert_eq!(Quadrant::WhiteQueenside.to_clear_mask(), 0xE);
    assert_eq!(Quadrant::BlackKingside.no_attack_mask(), 0x7000_0000_0000_0000);
    assert_eq!(Quadrant::WhiteKingside.mask(), 0x0000_0000_F0F0_F0F0);
}

#[test]
fn quadrants_turn_into_each_other() {
    assert_eq!(Quadrant::WhiteKingside.inv_file(), Quadrant::WhiteQueenside);
    assert_eq!(Quadrant::WhiteKingside.inv_rank(), Quadrant::BlackKingside);
    assert_eq!(Quadrant::WhiteKingside.inv_both(), Quadrant::BlackQueenside);
    assert_eq!(Quadrant::BlackQueenside.color(), Color::Black);
    assert_eq!(Quadrant::BlackQueenside.file_side(), FileSide::Queenside);
    assert_eq!(Quadrant::BlackQueenside.rank_side(), RankSide::BlackSide);
    assert_eq!(
        Quadrant::from_file_rank(FileSide::Queenside, RankSide::WhiteSide),
        Quadrant::WhiteQueenside
    );
    assert_eq!(FileSide::Kingside.to_quadrant(Color::Black), Quadrant::BlackKingside);
    assert_eq!(FileSide::Kingside.inv(), FileSide::Queenside);
    assert_eq!(RankSide::from_color(Color::Black), RankSide::BlackSide);
    assert_eq!(RankSide::BlackSide.color(), Color::Black);
    assert_eq!(RankSide::BlackSide.inv(), RankSide::WhiteSide);
    assert_eq!(Quadrant::from_index(2), Quadrant::BlackKingside);
}

#[test]
fn shifts_do_not_wrap_around_the_edge() {
    let h_file = 0x8080_8080_8080_8080u64;
    let a_file = 0x0101_0101_0101_0101u64;
    assert_eq!(Direction::East.shift(h_file, 1), 0);
    assert_eq!(Direction::West.shift(a_file, 1), 0);
    assert_eq!(Direction::East.shift(a_file, 7), h_file);
    assert_eq!(Direction::North.shift(0xFF, 1), 0xFF00);
    assert_eq!(Direction::North.shift(0xFF00_0000_0000_0000, 1), 0);
    assert_eq!(Direction::South.shift(0xFF, 1), 0);
    assert_eq!(Direction::Northeast.shift(1, 7), 1u64 << 63);
    assert_eq!(Direction::Northwest.shift(1, 1), 0);
    assert_eq!(Direction::Southwest.shift(1u64 << 63, 7), 1);
    assert_eq!(Direction::Southeast.shift(1u64 << 56, 7), 1u64 << 7);
    assert_eq!(Direction::North.shift(0xFF, 8), 0);
    assert_eq!(Direction::East.shift(0xFF, 0), 0xFF);
}

#[test]
fn rays_start_on_their_square() {
    assert_eq!(Direction::North.ray(28), 0x1010_1010_1000_0000);
    assert_eq!(Direction::Northeast.ray(28), 0x0080_4020_1000_0000);
    assert_eq!(Direction::West.ray(28), 0x0000_0000_1F00_0000);
    assert_eq!(Direction::South.ray(0), 1);
    let rays = Direction::East.rays();
    assert_eq!(rays[0], 0xFF);
    assert_eq!(rays[63], 1u64 << 63);
    assert_eq!(Direction::from_index(3), Direction::East);
    assert_eq!(Direction::East.index(), 3);
}
