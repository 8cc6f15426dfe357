use vstd::prelude::*;
use crate::error::FenError;
use crate::position::{empty_board, ChessBoard, ChessColor, ChessPosition, Square, char_to_piece, set_at, spec_char_to_piece, spec_square_of_text};
use crate::text::{spec_parse_unsigned, parse_unsigned};

verus! {

/// What a left-to-right scan of an initial-position text has gathered.
pub struct FenScan {
    /// The field being read: each space starts the next one.
    pub field: nat,
    pub file: int,
    pub rank: int,
    pub board: ChessBoard,
    pub black_to_move: bool,
    pub white_king_side: bool,
    pub black_king_side: bool,
    pub white_queen_side: bool,
    pub black_queen_side: bool,
    pub en_passant: Seq<char>,
    pub half_move_clock: Seq<char>,
    pub full_move_number: Seq<char>,
    /// The first placement character that names no piece.
    pub unknown: Option<char>,
}

pub open spec fn fen_start() -> FenScan {
    FenScan {
        field: 0,
        file: 1,
        rank: 8,
        board: empty_board(),
        black_to_move: false,
        white_king_side: false,
        black_king_side: false,
        white_queen_side: false,
        black_queen_side: false,
        en_passant: Seq::empty(),
        half_move_clock: Seq::empty(),
        full_move_number: Seq::empty(),
        unknown: None,
    }
}

/// One character of the scan. A space moves to the next field; control
/// characters are skipped. In the placement field `/` starts the next rank
/// down, a digit skips that many files, and a piece letter puts the piece on
/// the current square (nothing off the board) and moves one file on; files
/// past the board count as file 9, ranks below it as rank 0. The colour field
/// says Black with `b`; the castling field sets the right of each of `KQkq`
/// and ignores other characters; the en-passant, half-move and full-move
/// fields collect their characters but `-`. Nothing changes once an unknown
/// piece letter is met.
pub open spec fn fen_step(s: FenScan, c: char) -> FenScan {
    if s.unknown is Some {
        s
    } else if c == ' ' {
        FenScan { field: if s.field < 6 { s.field + 1 } else { s.field }, ..s }
    } else if c <= '\n' {
        s
    } else if s.field == 0 {
        if c == '/' {
            FenScan { rank: if s.rank > 0 { s.rank - 1 } else { 0 }, file: 1, ..s }
        } else if '1' <= c && c <= '8' {
            let f = s.file + (c as int - '0' as int);
            FenScan { file: if f > 9 { 9 } else { f }, ..s }
        } else {
            match spec_char_to_piece(c) {
                Some(p) => FenScan {
                    board: set_at(s.board, s.file, s.rank, p),
                    file: if s.file < 9 { s.file + 1 } else { 9 },
                    ..s
                },
                None => FenScan { unknown: Some(c), ..s },
            }
        }
    } else if s.field == 1 {
        FenScan { black_to_move: c == 'b', ..s }
    } else if s.field == 2 {
        if c == 'K' {
            FenScan { white_king_side: true, ..s }
        } else if c == 'k' {
            FenScan { black_king_side: true, ..s }
        } else if c == 'Q' {
            FenScan { white_queen_side: true, ..s }
        } else if c == 'q' {
            FenScan { black_queen_side: true, ..s }
        } else {
            s
        }
    } else if s.field == 3 && c != '-' {
        FenScan { en_passant: s.en_passant.push(c), ..s }
    } else if s.field == 4 && c != '-' {
        FenScan { half_move_clock: s.half_move_clock.push(c), ..s }
    } else if s.field == 5 && c != '-' {
        FenScan { full_move_number: s.full_move_number.push(c), ..s }
    } else {
        s
    }
}

/// The scan of the whole text.
pub open spec fn fen_scan(t: Seq<char>) -> FenScan
    decreases t.len(),
{
    if t.len() == 0 {
        fen_start()
    } else {
        fen_step(fen_scan(t.drop_last()), t.last())
    }
}

/// The position an initial-position text describes: an unknown piece letter
/// is `UnknownPiece`; a half-move clock or full-move number that is not a
/// 16-bit number is `InvalidHalfMoveClock` or `InvalidFullMoveNumber` (when
/// absent they are 0 and 1); an en-passant field that names no square gives
/// no target.
pub open spec fn spec_parse_fen(t: Seq<char>) -> Result<ChessPosition, FenError> {
    let s = fen_scan(t);
    let half = if s.half_move_clock.len() == 0 { Some(0) } else { spec_parse_unsigned(s.half_move_clock, 0xffff) };
    let full = if s.full_move_number.len() == 0 { Some(1) } else { spec_parse_unsigned(s.full_move_number, 0xffff) };
    if s.unknown is Some {
        Err(FenError::UnknownPiece(s.unknown->0))
    } else if half is None {
        Err(FenError::InvalidHalfMoveClock)
    } else if full is None {
        Err(FenError::InvalidFullMoveNumber)
    } else {
        Ok(ChessPosition {
            active_color: if s.black_to_move { ChessColor::Black } else { ChessColor::White },
            half_move_clock: half->0 as u16,
            full_move_number: full->0 as u16,
            white_king_side_castling: s.white_king_side,
            black_king_side_castling: s.black_king_side,
            white_queen_side_castling: s.white_queen_side,
            black_queen_side_castling: s.black_queen_side,
            board: s.board,
            en_passant_target_square: match spec_square_of_text(s.en_passant) {
                Ok(q) => Some(q),
                Err(_) => None,
            },
        })
    }
}

pub struct FENParserBuilder {}

impl FENParserBuilder {
    pub fn new() -> (r: FENParserBuilder) {
        FENParserBuilder {}
    }

    pub fn build(&self) -> (r: FENParser) {
        FENParser {}
    }
}

/// Reads positions in the initial-position text format.
pub struct FENParser {}

impl FENParser {
    /// The position that `fen` describes.
    pub fn parse(&self, fen: &str) -> (r: Result<ChessPosition, FenError>)
        ensures
            r == spec_parse_fen(fen@),
    {
        FENParser::parse_fen(fen)
    }

    /// The position that `fen` describes.
    pub fn parse_fen(fen: &str) -> (r: Result<ChessPosition, FenError>)
        ensures
            r == spec_parse_fen(fen@),
    {
        let t = crate::text::to_chars(fen);
        let mut field: usize = 0;
        let mut file: u8 = 1;
        let mut rank: u8 = 8;
        let mut board = ChessBoard::new();
        let mut black_to_move = false;
        let mut white_king_side = false;
        let mut black_king_side = false;
        let mut white_queen_side = false;
        let mut black_queen_side = false;
        let mut en_passant: Vec<char> = Vec::new();
        let mut half: Vec<char> = Vec::new();
        let mut full: Vec<char> = Vec::new();
        let mut unknown: Option<char> = None;
        let mut i: usize = 0;
        while i < t.len()
            invariant
                i <= t@.len(),
                file <= 9,
                rank <= 8,
                ({
                    let s = fen_scan(t@.subrange(0, i as int));
                    &&& s.field == field
                    &&& s.file == file
                    &&& s.rank == rank
                    &&& s.board == board
                    &&& s.black_to_move == black_to_move
                    &&& s.white_king_side == white_king_side
                    &&& s.black_king_side == black_king_side
                    &&& s.white_queen_side == white_queen_side
                    &&& s.black_queen_side == black_queen_side
                    &&& s.en_passant == en_passant@
                    &&& s.half_move_clock == half@
                    &&& s.full_move_number == full@
                    &&& s.unknown == unknown
                }),
            decreases t@.len() - i,
        {
            let c = t[i];
            assert(t@.subrange(0, i + 1).drop_last() =~= t@.subrange(0, i as int));
            if unknown.is_some() {
            } else if c == ' ' {
                if field < 6 {
                    field = field + 1;
                }
            } else if c <= '\n' {
            } else if field == 0 {
                if c == '/' {
                    if rank > 0 {
                        rank = rank - 1;
                    }
                    file = 1;
                } else if '1' <= c && c <= '8' {
                    let f = file as u32 + (c as u32 - '0' as u32);
                    file = if f > 9 { 9 } else { f as u8 };
                } else {
                    match char_to_piece(c) {
                        Ok(p) => {
                            board.set_piece(file, rank, p);
                            if file < 9 {
                                file = file + 1;
                            }
                        },
                        Err(_) => {
                            unknown = Some(c);
                        },
                    }
                }
            } else if field == 1 {
                black_to_move = c == 'b';
            } else if field == 2 {
                if c == 'K' {
                    white_king_side = true;
                } else if c == 'k' {
                    black_king_side = true;
                } else if c == 'Q' {
                    white_queen_side = true;
                } else if c == 'q' {
                    black_queen_side = true;
                }
            } else if field == 3 && c != '-' {
                en_passant.push(c);
            } else if field == 4 && c != '-' {
                half.push(c);
            } else if field == 5 && c != '-' {
                full.push(c);
            }
            i = i + 1;
        }
        assert(t@.subrange(0, t@.len() as int) =~= t@);
        if let Some(c) = unknown {
            return Err(FenError::UnknownPiece(c));
        }
        let half_move_clock: u16 = if half.len() == 0 {
            0
        } else {
            match parse_unsigned(&half, 0xffff) {
                Some(n) => n as u16,
                None => {
                    return Err(FenError::InvalidHalfMoveClock);
                },
            }
        };
        let full_move_number: u16 = if full.len() == 0 {
            1
        } else {
            match parse_unsigned(&full, 0xffff) {
                Some(n) => n as u16,
                None => {
                    return Err(FenError::InvalidFullMoveNumber);
                },
            }
        };
        let en_passant_target_square = match Square::from_chars(&en_passant) {
            Ok(q) => Some(q),
            Err(_) => None,
        };
        Ok(ChessPosition {
            active_color: if black_to_move { ChessColor::Black } else { ChessColor::White },
            half_move_clock,
            full_move_number,
            white_king_side_castling: white_king_side,
            black_king_side_castling: black_king_side,
            white_queen_side_castling: white_queen_side,
            black_queen_side_castling: black_queen_side,
            board,
            en_passant_target_square,
        })
    }
}

} // verus!
