use chessrw::error::{FenError, MoveError};
use chessrw::fen::FENParserBuilder;
use chessrw::position::{
    char_to_piece, char_to_piece_type, other_color, piece_color, piece_to_char, piece_type_to_char,
    piece_type_to_piece, ChessBoard, ChessColor, ChessPosition, Piece, PieceType, Square,
};

fn fen(text: &str) -> ChessPosition {
    FENParserBuilder::new().build().parse(text).unwrap()
}

#[test]
fn apply_move() {
    let mut position = ChessPosition::initial_position();

    position.apply_move("e4");
    assert_eq!(Piece::WhitePawn, position.board.get_piece(5, 4));

    position.apply_move("e6");
    assert_eq!(Piece::BlackPawn, position.board.get_piece(5, 6));

    position.apply_move("Ke2");
    assert_eq!(Piece::WhiteKing, position.board.get_piece(5, 2));

    position.apply_move("Nf6");
    assert_eq!(Piece::BlackKnight, position.board.get_piece(6, 6));

    position.apply_move("Ke3");
    position.apply_move("Bb4");

    assert_eq!(Piece::BlackBishop, position.board.get_piece(2, 4));

    position.apply_move("Qg4");
    assert_eq!(Piece::WhiteQueen, position.board.get_piece(7, 4));

    let mut position_before_moving_rook = position.clone();

    position.apply_move("Rf8");
    assert_eq!(Piece::BlackRook, position.board.get_piece(6, 8));

    position_before_moving_rook.apply_move("O-O");
    assert_eq!(position_before_moving_rook.active_color, ChessColor::White);
    assert_eq!(Piece::BlackRook, position_before_moving_rook.board.get_piece(6, 8));
    assert_eq!(Piece::BlackKing, position_before_moving_rook.board.get_piece(7, 8));
}

#[test]
fn fen_parse() {
    let fen_parser_builder = FENParserBuilder::new();
    let fen_parser = fen_parser_builder.build();
    let chess_position = fen_parser.parse("8/8/7p/5Kpk/8/7P/6P1/8 w - - 0 1").unwrap();

    assert_eq!(chess_position.active_color, ChessColor::White);
    assert_eq!(chess_position.half_move_clock, 0);
    assert_eq!(chess_position.full_move_number, 1);
}

#[test]
fn apply_move_en_passant() {
    let mut position = fen("4k3/8/8/8/4p3/8/5P2/4K3 w - - 1 1");

    position.apply_move("f4");
    assert_eq!(Piece::WhitePawn, position.board.get_piece(6, 4));
    assert_eq!(Some(Square::new(6, 3).unwrap()), position.en_passant_target_square);

    position.apply_move("exf3");
    assert_eq!(Piece::BlackPawn, position.board.get_piece(6, 3));
    assert_eq!(Piece::Empty, position.board.get_piece(6, 4));
}

#[test]
fn apply_move_two_pawns() {
    let mut position = fen("r1bqkb1r/5p1p/p1np1p2/1p1Np3/4P3/N7/PPP2PPP/R2QKB1R b KQkq - 1 10");

    assert_eq!(None, position.apply_move("f5"));

    assert_eq!(Piece::BlackPawn, position.board.get_piece(6, 5));
}

#[test]
fn king_in_check_knight() {
    let position = fen("4k3/8/3N4/8/8/8/8/4K3 w KQkq - 0 1");

    assert_eq!(true, position.king_in_check(ChessColor::Black));
}

#[test]
fn initial_fen_fields() {
    let p = fen("rnbqkbnr/pppppppp/8/8/8/8/PPPPPPPP/RNBQKBNR w KQkq - 0 1");
    assert_eq!(p.active_color, ChessColor::White);
    assert!(p.white_king_side_castling);
    assert!(p.white_queen_side_castling);
    assert!(p.black_king_side_castling);
    assert!(p.black_queen_side_castling);
    assert_eq!(p.half_move_clock, 0);
    assert_eq!(p.full_move_number, 1);
    assert_eq!(p.en_passant_target_square, None);
    assert!(p.board == ChessPosition::initial_position().board);
}

#[test]
fn fen_fields_and_errors() {
    let p = fen("4k3/8/8/8/4Pp2/8/8/4K3 b Kq e3 7 42");
    assert_eq!(p.active_color, ChessColor::Black);
    assert!(p.white_king_side_castling && !p.white_queen_side_castling);
    assert!(!p.black_king_side_castling && p.black_queen_side_castling);
    assert_eq!(p.en_passant_target_square, Some(Square::new(5, 3).unwrap()));
    assert_eq!(p.half_move_clock, 7);
    assert_eq!(p.full_move_number, 42);
    assert_eq!(p.board.get_piece(5, 4), Piece::WhitePawn);
    assert_eq!(p.board.get_piece(6, 4), Piece::BlackPawn);
    let parser = FENParserBuilder::new().build();
    assert_eq!(parser.parse("4k3/8/8/8/8/8/8/4X3 w - - 0 1").err(), Some(FenError::UnknownPiece('X')));
    assert_eq!(parser.parse("4k3/8/8/8/8/8/8/4K3 w - - x 1").err(), Some(FenError::InvalidHalfMoveClock));
    assert_eq!(parser.parse("4k3/8/8/8/8/8/8/4K3 w - - 0 70000").err(), Some(FenError::InvalidFullMoveNumber));
    // unknown castling characters are accepted and ignored
    let q = parser.parse("4k3/8/8/8/8/8/8/4K3 w KZ - 0 1").unwrap();
    assert!(q.white_king_side_castling);
}

#[test]
fn opening_sequence() {
    let mut p = ChessPosition::initial_position();
    for mv in ["e4", "e5", "Nf3", "Nc6", "Bb5"] {
        assert_eq!(p.apply_move(mv), None);
    }
    assert_eq!(p.board.get_piece(2, 5), Piece::WhiteBishop);
    assert_eq!(p.board.get_piece(5, 4), Piece::WhitePawn);
    assert_eq!(p.board.get_piece(5, 5), Piece::BlackPawn);
    assert_eq!(p.board.get_piece(6, 3), Piece::WhiteKnight);
    assert_eq!(p.board.get_piece(3, 6), Piece::BlackKnight);
    assert_eq!(p.board.get_piece(6, 1), Piece::Empty);
    assert_eq!(p.active_color, ChessColor::Black);
    assert_eq!(p.full_move_number, 3);
    assert_eq!(p.half_move_clock, 5);
}

#[test]
fn double_step_sets_en_passant_target() {
    let mut p = ChessPosition::initial_position();
    p.apply_move("d4");
    assert_eq!(p.en_passant_target_square, Some(Square::new(4, 3).unwrap()));
    p.apply_move("Nf6");
    assert_eq!(p.en_passant_target_square, None);
}

#[test]
fn disambiguation_by_file_and_rank() {
    // two white rooks on a1 and h1 can both reach d1
    let mut p = fen("4k3/8/8/8/8/8/8/R3K2R w - - 0 1");
    assert_eq!(p.apply_move("Rad1"), None);
    assert_eq!(p.board.get_piece(4, 1), Piece::WhiteRook);
    assert_eq!(p.board.get_piece(1, 1), Piece::Empty);
    assert_eq!(p.board.get_piece(8, 1), Piece::WhiteRook);
    // two white knights on b1 and b5 can both reach c3
    let mut q = fen("4k3/8/8/1N6/8/8/8/1N2K3 w - - 0 1");
    assert_eq!(q.apply_move("N1c3"), None);
    assert_eq!(q.board.get_piece(3, 3), Piece::WhiteKnight);
    assert_eq!(q.board.get_piece(2, 1), Piece::Empty);
    assert_eq!(q.board.get_piece(2, 5), Piece::WhiteKnight);
    // the origin given whole
    let mut r = ChessPosition::initial_position();
    assert_eq!(r.apply_move("g1f3"), None);
    assert_eq!(r.board.get_piece(6, 3), Piece::WhiteKnight);
}

#[test]
fn disambiguation_by_check() {
    // the knight on e2 is pinned by the rook on e8; only the one on a2 may go to c3
    let mut p = fen("4r2k/8/8/8/8/8/N3N3/4K3 w - - 0 1");
    assert_eq!(p.apply_move("Nc3"), None);
    assert_eq!(p.board.get_piece(3, 3), Piece::WhiteKnight);
    assert_eq!(p.board.get_piece(1, 2), Piece::Empty);
    assert_eq!(p.board.get_piece(5, 2), Piece::WhiteKnight);
}

#[test]
fn disambiguation_errors() {
    // both knights may go to c3
    let mut p = fen("7k/8/8/8/8/8/N3N3/4K3 w - - 0 1");
    let before = p.clone();
    assert_eq!(p.apply_move("Nc3"), Some(MoveError::Ambiguous));
    assert!(p.board == before.board);
    // no knight reaches d5
    let mut q = fen("7k/8/8/8/8/8/N3N3/4K3 w - - 0 1");
    assert_eq!(q.apply_move("Nd5"), Some(MoveError::NoLegalCandidate));
    // bad texts
    let mut r = ChessPosition::initial_position();
    assert_eq!(r.apply_move("Nz3"), Some(MoveError::InvalidSquare));
    assert_eq!(r.apply_move("e9"), Some(MoveError::InvalidSquare));
    assert_eq!(r.apply_move("Nif3"), Some(MoveError::InvalidFileOrRank));
    assert_eq!(r.apply_move("N9f3"), Some(MoveError::InvalidFileOrRank));
    assert_eq!(r.apply_move(""), Some(MoveError::InvalidSquare));
    assert_eq!(r.active_color, ChessColor::White);
}

#[test]
fn castling_and_promotion() {
    let mut p = fen("r3k2r/1P6/8/8/8/8/8/R3K2R w KQkq - 0 1");
    assert_eq!(p.apply_move("O-O-O"), None);
    assert_eq!(p.board.get_piece(3, 1), Piece::WhiteKing);
    assert_eq!(p.board.get_piece(4, 1), Piece::WhiteRook);
    assert!(!p.white_queen_side_castling && p.white_king_side_castling);
    assert_eq!(p.apply_move("0-0"), None);
    assert_eq!(p.board.get_piece(7, 8), Piece::BlackKing);
    assert_eq!(p.board.get_piece(6, 8), Piece::BlackRook);
    assert_eq!(p.full_move_number, 2);
    assert_eq!(p.apply_move("b8=Q+"), None);
    assert_eq!(p.board.get_piece(2, 8), Piece::WhiteQueen);
    assert_eq!(p.board.get_piece(2, 7), Piece::Empty);
}

#[test]
fn safety_of_squares() {
    let p = fen("4k3/8/8/3q4/8/8/1P6/4K3 w - - 0 1");
    let b = &p.board;
    // the queen on d5 attacks along the diagonal to g2 and the file to d1
    assert!(!b.is_safe(&Square::new(7, 2).unwrap(), ChessColor::Black));
    assert!(!b.is_safe(&Square::new(4, 1).unwrap(), ChessColor::Black));
    assert!(b.is_safe(&Square::new(5, 3).unwrap(), ChessColor::Black));
    // the pawn on b2 attacks a3 and c3, not b3
    assert!(!b.is_safe(&Square::new(1, 3).unwrap(), ChessColor::White));
    assert!(!b.is_safe(&Square::new(3, 3).unwrap(), ChessColor::White));
    assert!(b.is_safe(&Square::new(2, 3).unwrap(), ChessColor::White));
    // the king on e1 attacks d2
    assert!(!b.is_safe(&Square::new(4, 2).unwrap(), ChessColor::White));
    assert!(!p.king_in_check(ChessColor::White));
}

#[test]
fn reachable_squares() {
    let corner = Square::new(1, 1).unwrap();
    assert_eq!(ChessBoard::reachable_from_knight(&corner), vec![Square::new(2, 3).unwrap(), Square::new(3, 2).unwrap()]);
    assert_eq!(ChessBoard::reachable_from_king(&corner).len(), 3);
    let board = ChessPosition::initial_position().board;
    let d4 = Square::new(4, 4).unwrap();
    let up = board.reachable_from_direction(&d4, 0, 1);
    assert_eq!(up, vec![Square::new(4, 5).unwrap(), Square::new(4, 6).unwrap(), Square::new(4, 7).unwrap()]);
    assert_eq!(board.reachable_from_sliding_piece(&d4, false, true).len(), 4 + 3 + 3 + 2);
    let e4 = Square::new(5, 4).unwrap();
    assert_eq!(
        board.reachable_from_pawn(&e4, false, ChessColor::White),
        vec![Square::new(5, 3).unwrap(), Square::new(5, 2).unwrap()]
    );
}

#[test]
fn squares_and_pieces() {
    assert_eq!(Square::new(0, 1), Err(MoveError::InvalidSquare));
    assert_eq!(Square::new(8, 9), Err(MoveError::InvalidSquare));
    let e4 = Square::from_string(&"e4".to_string()).unwrap();
    assert_eq!((e4.file(), e4.rank()), (5, 4));
    assert_eq!(Square::from_string(&"i4".to_string()), Err(MoveError::InvalidSquare));
    assert_eq!(Square::from_string(&"e44".to_string()), Err(MoveError::InvalidSquare));
    assert_eq!(e4.north(), Square::new(5, 5));
    assert_eq!(e4.south(), Square::new(5, 3));
    assert_eq!(e4.east(), Square::new(6, 4));
    assert_eq!(e4.west(), Square::new(4, 4));
    assert_eq!(Square::new(8, 8).unwrap().north(), Err(MoveError::InvalidSquare));
    assert_eq!(char_to_piece('n'), Ok(Piece::BlackKnight));
    assert_eq!(char_to_piece('x'), Err('x'));
    assert_eq!(piece_to_char(Piece::WhiteQueen), 'Q');
    assert_eq!(piece_color(&Piece::BlackRook), Some(ChessColor::Black));
    assert_eq!(piece_color(&Piece::Empty), None);
    assert_eq!(char_to_piece_type('R'), PieceType::Rook);
    assert_eq!(char_to_piece_type('r'), PieceType::Unknown);
    assert_eq!(piece_type_to_char(PieceType::King), 'K');
    assert_eq!(piece_type_to_piece(PieceType::Bishop, ChessColor::Black), Piece::BlackBishop);
    assert_eq!(other_color(ChessColor::White), ChessColor::Black);
    let mut board = ChessBoard::new();
    assert_eq!(board.set_piece(9, 1, Piece::WhiteKing), Some(MoveError::InvalidSquare));
    assert_eq!(board.set_piece(3, 2, Piece::WhiteKing), None);
    assert_eq!(board.find_piece(Piece::WhiteKing), vec![Square::new(3, 2).unwrap()]);
}

#[test]
fn board_text() {
    let text = ChessPosition::initial_position().to_string();
    let lines: Vec<&str> = text.lines().collect();
    assert_eq!(lines[0], "White to move");
    assert_eq!(lines[1], "-----------------");
    assert_eq!(lines[2], "|r|n|b|q|k|b|n|r|");
    assert_eq!(lines[6], "| | | | | | | | |");
    assert_eq!(lines[16], "|R|N|B|Q|K|B|N|R|");
    assert_eq!(lines.len(), 18);
}

#[test]
fn find_piece_reading_order() {
    let mut board = ChessBoard::new();
    board.set_piece(1, 1, Piece::WhiteKing);
    board.set_piece(1, 8, Piece::WhiteKing);
    board.set_piece(3, 8, Piece::WhiteKing);
    assert_eq!(
        board.find_piece(Piece::WhiteKing),
        vec![Square::new(1, 8).unwrap(), Square::new(3, 8).unwrap(), Square::new(1, 1).unwrap()]
    );
}
