use sublime::board::color::Color;
use sublime::board::piece::Piece;
use sublime::board::square::Square;
use sublime::game::position::{GameState, START_FEN};
use sublime::parse::err::{CoordinateError, FenError, FenSection};
use sublime::parse::fen::{
    digit_of, digit_to_char, find_field_end, parse_number, place, read_castling, read_en_passant,
    read_fullmove, read_halfmove, read_turn, to_chars, to_decimal,
};

fn error_of(fen: &str) -> FenError {
    GameState::from_fen(fen).unwrap_err()
}

#[test]
fn start_position_is_read() {
    let state = GameState::from_fen(START_FEN).unwrap();
    assert_eq!(state.piece_at(Square::A1), Some(Piece::WhiteRook));
    assert_eq!(state.piece_at(Square::E1), Some(Piece::WhiteKing));
    assert_eq!(state.piece_at(Square::D8), Some(Piece::BlackQueen));
    assert_eq!(state.piece_at(Square::E4), None);
    assert_eq!(state.bitboard[Piece::WhitePawn.index()], 0xFF00);
    assert_eq!(state.bitboard[Piece::BlackPawn.index()], 0x00FF_0000_0000_0000);
    assert_eq!(state.occ(Color::White), 0xFFFF);
    assert_eq!(state.occ(Color::Black), 0xFFFF_0000_0000_0000);
    assert_eq!(state.full_occ(), 0xFFFF_0000_0000_FFFF);
    assert_eq!(state.turn(), Color::White);
    assert_eq!(state.zobrist_hash, state.compute_zobrist());
    assert_eq!(state.validate(), Ok(()));
}

#[test]
fn reading_and_writing_are_inverse() {
    let fens = [
        START_FEN,
        "r3k2r/p1ppqpb1/bn2pnp1/3PN3/1p2P3/2N2Q1p/PPPBBPPP/R3K2R w KQkq - 0 1",
        "8/2p5/3p4/KP5r/1R3p1k/8/4P1P1/8 w - - 0 1",
        "r3k2r/Pppp1ppp/1b3nbN/nP6/BBP1P3/q4N2/Pp1P2PP/R2Q1RK1 w kq - 0 1",
        "rnbq1k1r/pp1Pbppp/2p5/8/2B5/8/PPP1NnPP/RNBQK2R w KQ - 1 8",
        "rnbqkbnr/pppp1ppp/8/4p3/4P3/8/PPPP1PPP/RNBQKBNR w Kq e6 37 52",
        "rnbqkbnr/pppppppp/8/8/4P3/8/PPPP1PPP/RNBQKBNR b KQkq e3 0 1",
        "8/8/8/8/8/8/8/8 b - - 255 32767",
        "k7/8/8/8/8/8/8/7K w - - 100 1000",
    ];
    for fen in fens {
        let state = GameState::from_fen(fen).unwrap();
        assert_eq!(state.fen(), fen);
        assert_eq!(GameState::from_fen(&state.fen()).unwrap(), state);
    }
}

#[test]
fn counters_beyond_the_limits_are_clamped() {
    let state = GameState::from_fen("k7/8/8/8/8/8/8/7K w - - 300 40000").unwrap();
    assert_eq!(state.halfmove_ctr(), 255);
    assert_eq!(state.fullmove_ctr(), 32767);
    assert_eq!(state.fen(), "k7/8/8/8/8/8/8/7K w - - 255 32767");
}

#[test]
fn board_errors_name_the_row() {
    assert_eq!(error_of("8/8/8/8/8/8/8/8/8 w - - 0 1"), FenError::TooManyRows);
    assert_eq!(error_of("8/8/8/8/8/8/8/7 w - - 0 1"), FenError::TooManyRows);
    assert_eq!(error_of("8/8/8/8/8/8/8 w - - 0 1"), FenError::IncompleteRow(0));
    assert_eq!(error_of("8/8/8/8/8/8/8/"), FenError::TooManyRows);
    assert_eq!(error_of("8/7/8/8/8/8/8/8 w - - 0 1"), FenError::IncompleteRow(6));
    assert_eq!(error_of("8/8/4 w - - 0 1"), FenError::IncompleteRow(5));
    assert_eq!(error_of("9/8/8/8/8/8/8/8 w - - 0 1"), FenError::InvalidPiece('9'));
    assert_eq!(error_of("8/44p/8/8/8/8/8/8 w - - 0 1"), FenError::TooManyColumns(6));
    assert_eq!(error_of("8/8/5pp2/8/8/8/8/8 w - - 0 1"), FenError::TooManyColumns(5));
    assert_eq!(error_of("8/8/8/8/8/8/8/4x3 w - - 0 1"), FenError::InvalidPiece('x'));
    assert_eq!(error_of(""), FenError::IncompleteRow(7));
}

#[test]
fn side_to_move_errors() {
    assert_eq!(
        error_of("8/8/8/8/8/8/8/8"),
        FenError::MissingSection(FenSection::SideToMove)
    );
    assert_eq!(
        error_of("8/8/8/8/8/8/8/8 "),
        FenError::MissingSection(FenSection::SideToMove)
    );
    assert_eq!(error_of("8/8/8/8/8/8/8/8 x - - 0 1"), FenError::InvalidColor('x'));
    assert_eq!(
        error_of("8/8/8/8/8/8/8/8 w"),
        FenError::MissingSection(FenSection::Castling)
    );
    assert_eq!(error_of("8/8/8/8/8/8/8/8 wKQ - 0 1"), FenError::ExpectedSpace(18));
}

#[test]
fn castling_errors() {
    assert_eq!(
        error_of("8/8/8/8/8/8/8/8 w "),
        FenError::MissingSection(FenSection::Castling)
    );
    assert_eq!(
        error_of("8/8/8/8/8/8/8/8 w  - 0 1"),
        FenError::MissingSection(FenSection::Castling)
    );
    assert_eq!(
        error_of("8/8/8/8/8/8/8/8 w KQ"),
        FenError::MissingSection(FenSection::Castling)
    );
    assert_eq!(error_of("8/8/8/8/8/8/8/8 w KX - 0 1"), FenError::InvalidCastlingChar('X'));
    assert_eq!(error_of("8/8/8/8/8/8/8/8 w QK - 0 1"), FenError::CastlingOutOfOrder);
    assert_eq!(error_of("8/8/8/8/8/8/8/8 w KK - 0 1"), FenError::CastlingOutOfOrder);
    assert_eq!(error_of("8/8/8/8/8/8/8/8 w -K - 0 1"), FenError::CastlingOutOfOrder);
    assert_eq!(error_of("8/8/8/8/8/8/8/8 w K- - 0 1"), FenError::InvalidCastling);
    assert_eq!(error_of("8/8/8/8/8/8/8/8 w -- - 0 1"), FenError::InvalidCastling);
}

#[test]
fn en_passant_errors() {
    assert_eq!(
        error_of("8/8/8/8/8/8/8/8 w - "),
        FenError::MissingSection(FenSection::EnPassant)
    );
    assert_eq!(
        error_of("8/8/8/8/8/8/8/8 w - -"),
        FenError::MissingSection(FenSection::HalfmoveCounter)
    );
    assert_eq!(
        error_of("8/8/8/8/8/8/8/8 w - e"),
        FenError::CoordinateError(CoordinateError::IncompleteSquare)
    );
    assert_eq!(
        error_of("8/8/8/8/8/8/8/8 w - e9 0 1"),
        FenError::CoordinateError(CoordinateError::InvalidRank('9'))
    );
    assert_eq!(
        error_of("8/8/8/8/8/8/8/8 w - x6 0 1"),
        FenError::CoordinateError(CoordinateError::InvalidFile('x'))
    );
    assert_eq!(error_of("8/8/8/8/8/8/8/8 w - e3 0 1"), FenError::InvalidEnPassant);
    assert_eq!(error_of("8/8/8/8/8/8/8/8 b - e6 0 1"), FenError::InvalidEnPassant);
    assert_eq!(
        error_of("8/8/8/8/8/8/8/8 w - e6"),
        FenError::MissingSection(FenSection::HalfmoveCounter)
    );
    assert_eq!(error_of("8/8/8/8/8/8/8/8 w - e60 1"), FenError::ExpectedSpace(23));
}

#[test]
fn counter_errors() {
    assert_eq!(
        error_of("8/8/8/8/8/8/8/8 w - - "),
        FenError::MissingSection(FenSection::FullmoveCounter)
    );
    assert_eq!(
        error_of("8/8/8/8/8/8/8/8 w - - 0"),
        FenError::MissingSection(FenSection::FullmoveCounter)
    );
    assert_eq!(
        error_of("8/8/8/8/8/8/8/8 w - - 0 "),
        FenError::MissingSection(FenSection::FullmoveCounter)
    );
    assert_eq!(error_of("8/8/8/8/8/8/8/8 w - - x 1"), FenError::InvalidHalfmove);
    assert_eq!(error_of("8/8/8/8/8/8/8/8 w - -  1"), FenError::InvalidHalfmove);
    assert_eq!(error_of("8/8/8/8/8/8/8/8 w - - -1 1"), FenError::InvalidHalfmove);
    assert_eq!(error_of("8/8/8/8/8/8/8/8 w - - 4294967296 1"), FenError::InvalidHalfmove);
    assert_eq!(error_of("8/8/8/8/8/8/8/8 w - - 0 x"), FenError::InvalidFullMove);
    assert_eq!(error_of("8/8/8/8/8/8/8/8 w - - 0 0"), FenError::InvalidFullMove);
    assert_eq!(error_of("8/8/8/8/8/8/8/8 w - - 0 99999999999"), FenError::InvalidFullMove);
    assert_eq!(error_of("8/8/8/8/8/8/8/8 w - - 0 1 "), FenError::TooManySections);
    assert_eq!(error_of("8/8/8/8/8/8/8/8 w - - 0 1 2"), FenError::TooManySections);
}

#[test]
fn numbers_are_written_and_read_in_decimal() {
    assert_eq!(to_decimal(0), vec!['0']);
    assert_eq!(to_decimal(7), vec!['7']);
    assert_eq!(to_decimal(1203), vec!['1', '2', '0', '3']);
    assert_eq!(to_decimal(u32::MAX), to_chars("4294967295"));
    let text = to_chars("x 0042 4294967295 4294967296 12a");
    assert_eq!(parse_number(&text, 2, 6), Some(42));
    assert_eq!(parse_number(&text, 7, 17), Some(u32::MAX));
    assert_eq!(parse_number(&text, 18, 28), None);
    assert_eq!(parse_number(&text, 29, 32), None);
    assert_eq!(parse_number(&text, 29, 31), Some(12));
    assert_eq!(parse_number(&text, 3, 3), None);
    assert_eq!(find_field_end(&text, 2), 6);
    assert_eq!(find_field_end(&text, 29), 32);
    assert_eq!(digit_of('7'), Some(7));
    assert_eq!(digit_of('a'), None);
    assert_eq!(digit_to_char(9), '9');
    assert_eq!(place(5), 5);
}

#[test]
fn fields_are_read_one_by_one() {
    let text = to_chars("b Qk c3 12 7");
    assert_eq!(read_turn(&text, 0), Ok((Color::Black, 2)));
    assert_eq!(read_castling(&text, 2), Ok(([false, true, true, false], 5)));
    assert_eq!(
        read_en_passant(&text, 5, Color::Black).map(|(file, next)| (file.map(|f| f.index()), next)),
        Ok((Some(2), 8))
    );
    assert_eq!(read_halfmove(&text, 8), Ok((12, 11)));
    assert_eq!(read_fullmove(&text, 11), Ok(7));
}
