use sublime::board::color::Color;
use sublime::board::line::{File, Rank};
use sublime::board::piece::{Piece, Promotion};
use sublime::board::square::Square;
use sublime::board::zone::Quadrant;
use sublime::game::board_move::Move;
use sublime::game::position::{GameState, START_FEN};
use sublime::hashing::magic::MagicTables;
use sublime::parse::err::{CoordinateError, FenError, IllegalMove, PacnError};
use sublime::parse::pacn::parse_pacn;

fn resolve(fen: &str, text: &str) -> Result<Move, PacnError> {
    let tables = MagicTables::new().unwrap();
    let state = GameState::from_fen(fen).unwrap();
    Move::from_str(&state, &tables, text)
}

fn illegal(kind: IllegalMove) -> Result<Move, PacnError> {
    Err(PacnError::IllegalMove(kind))
}

#[test]
fn characters_name_colors_files_ranks_and_pieces() {
    assert_eq!(Color::White.chr(), 'w');
    assert_eq!(Color::from_chr('b'), Ok(Color::Black));
    assert_eq!(Color::from_chr('W'), Err(FenError::InvalidColor('W')));
    for i in 0..8 {
        let file = File::from_index(i);
        let rank = Rank::from_index(i);
        assert_eq!(File::from_chr(file.chr()), Ok(file));
        assert_eq!(Rank::from_chr(rank.chr()), Ok(rank));
    }
    assert_eq!(File::HFile.chr(), 'h');
    assert_eq!(Rank::Rank8.chr(), '8');
    assert_eq!(File::from_chr('i'), Err(CoordinateError::InvalidFile('i')));
    assert_eq!(Rank::from_chr('0'), Err(CoordinateError::InvalidRank('0')));
    assert_eq!(Rank::from_chr('9'), Err(CoordinateError::InvalidRank('9')));
    for i in 0..12 {
        let piece = Piece::from_index(i);
        assert_eq!(Piece::from_char(piece.chr()), Ok(piece));
    }
    assert_eq!(Piece::WhiteKnight.chr(), 'N');
    assert_eq!(Piece::BlackQueen.chr(), 'q');
    assert_eq!(Piece::from_char('x'), Err(FenError::InvalidPiece('x')));
    for i in 0..4 {
        let quadrant = Quadrant::from_index(i);
        assert_eq!(Quadrant::from_char(quadrant.chr()), Ok(quadrant));
        let promotion = Promotion::from_index(i);
        assert_eq!(Promotion::from_chr(promotion.chr()), Ok(promotion));
    }
    assert_eq!(Quadrant::BlackKingside.chr(), 'k');
    assert_eq!(Quadrant::from_char('x'), Err(FenError::InvalidCastlingChar('x')));
    assert_eq!(Promotion::from_chr('k'), Err(PacnError::MalformedPacn));
}

#[test]
fn squares_are_named_by_file_then_rank() {
    assert_eq!(Square::E4.chrs(), ['e', '4']);
    assert_eq!(Square::A8.chrs(), ['a', '8']);
    assert_eq!(Square::from_chrs('h', '1'), Ok(Square::H1));
    assert_eq!(Square::from_chrs('x', '1'), Err(CoordinateError::InvalidFile('x')));
    assert_eq!(Square::from_chrs('a', 'x'), Err(CoordinateError::InvalidRank('x')));
    assert_eq!(Square::from_chrs('x', 'y'), Err(CoordinateError::InvalidRank('y')));
    for i in 0..64 {
        let square = Square::from_index(i);
        let [file, rank] = square.chrs();
        assert_eq!(Square::from_chrs(file, rank), Ok(square));
    }
}

#[test]
fn moves_are_parsed() {
    assert_eq!(parse_pacn("e2e4"), Ok((Square::E2, Square::E4, None)));
    assert_eq!(parse_pacn("e7e8q"), Ok((Square::E7, Square::E8, Some(Promotion::Queen))));
    assert_eq!(parse_pacn("a2a1n"), Ok((Square::A2, Square::A1, Some(Promotion::Knight))));
    assert_eq!(parse_pacn(""), Err(PacnError::MalformedPacn));
    assert_eq!(parse_pacn("e2e"), Err(PacnError::MalformedPacn));
    assert_eq!(parse_pacn("e2e4qq"), Err(PacnError::MalformedPacn));
    assert_eq!(parse_pacn("e7e8k"), Err(PacnError::MalformedPacn));
    assert_eq!(parse_pacn("e7e8Q"), Err(PacnError::MalformedPacn));
    assert_eq!(
        parse_pacn("x2e4"),
        Err(PacnError::CoordinateError(CoordinateError::InvalidFile('x')))
    );
    assert_eq!(
        parse_pacn("e9e4"),
        Err(PacnError::CoordinateError(CoordinateError::InvalidRank('9')))
    );
    assert_eq!(
        parse_pacn("e2e0"),
        Err(PacnError::CoordinateError(CoordinateError::InvalidRank('0')))
    );
    assert_eq!(
        parse_pacn("z"),
        Err(PacnError::CoordinateError(CoordinateError::InvalidFile('z')))
    );
}

#[test]
fn legal_moves_resolve() {
    let state = GameState::from_fen(START_FEN).unwrap();
    assert_eq!(
        resolve(START_FEN, "e2e4"),
        Ok(Move::new(&state, Square::E2, Square::E4, None))
    );
    assert_eq!(
        resolve(START_FEN, "g1f3"),
        Ok(Move::new(&state, Square::G1, Square::F3, None))
    );
    let castle = resolve("r3k2r/8/8/8/8/8/8/R3K2R w KQkq - 0 1", "e1c1").unwrap();
    assert!(castle.is_castling());
    assert_eq!(castle.get_castling(), Quadrant::WhiteQueenside);
    let promotion = resolve("1n2k3/P7/8/8/8/8/8/4K3 w - - 0 1", "a7b8q").unwrap();
    assert_eq!(promotion.destination_piece(), Piece::WhiteQueen);
    let passing = resolve("4k3/8/8/3pP3/8/8/8/4K3 w - d6 0 1", "e5d6").unwrap();
    assert!(passing.is_ep_capture());
}

#[test]
fn illegal_moves_say_why() {
    assert_eq!(resolve(START_FEN, "e3e4"), illegal(IllegalMove::EmptySquareMove));
    assert_eq!(resolve(START_FEN, "e7e5"), illegal(IllegalMove::OpponentPieceMove));
    assert_eq!(resolve(START_FEN, "a1a2"), illegal(IllegalMove::AlliedCapture));
    assert_eq!(resolve(START_FEN, "e2e4q"), illegal(IllegalMove::InvalidPromotion));
    assert_eq!(
        resolve("1n2k3/P7/8/8/8/8/8/4K3 w - - 0 1", "a7a8"),
        illegal(IllegalMove::InvalidPromotion)
    );
    assert_eq!(resolve(START_FEN, "e2e5"), illegal(IllegalMove::InvalidMove));
    assert_eq!(resolve(START_FEN, "g1g3"), illegal(IllegalMove::InvalidMove));
    assert_eq!(resolve(START_FEN, "e1g1"), illegal(IllegalMove::AlliedCapture));
    assert_eq!(
        resolve("4k3/8/8/3p4/4P3/8/8/4K3 w - - 0 1", "e4d6"),
        illegal(IllegalMove::InvalidMove)
    );
    assert_eq!(
        resolve("4k3/8/8/8/8/8/4r3/4K2R w K - 0 1", "e1g1"),
        illegal(IllegalMove::CastleOutOfCheck)
    );
    assert_eq!(
        resolve("4k3/8/8/8/8/8/5r2/4K2R w K - 0 1", "e1g1"),
        illegal(IllegalMove::CastleThroughCheck)
    );
    assert_eq!(
        resolve("4k3/8/8/8/8/8/6p1/4K2R w K - 0 1", "e1g1"),
        illegal(IllegalMove::CastleThroughCheck)
    );
    assert_eq!(
        resolve("4k3/8/8/8/8/8/8/4K2R w - - 0 1", "e1g1"),
        illegal(IllegalMove::InvalidMove)
    );
    assert_eq!(
        resolve("4k3/8/8/8/8/8/8/4KN1R w K - 0 1", "e1g1"),
        illegal(IllegalMove::InvalidMove)
    );
    assert_eq!(
        resolve("4k3/4r3/8/8/8/8/4B3/4K3 w - - 0 1", "e2d3"),
        illegal(IllegalMove::InCheck)
    );
    assert_eq!(
        resolve("4k3/4r3/8/8/8/8/8/4K3 w - - 0 1", "e1e2"),
        illegal(IllegalMove::InCheck)
    );
}
