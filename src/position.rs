use vstd::prelude::*;
use crate::error::MoveError;

verus! {

/// A square's content: empty, or a piece of one kind and one colour.
#[derive(Debug, Clone, Copy, PartialEq, Eq, Structural)]
pub enum Piece {
    Empty,
    WhitePawn,
    BlackPawn,
    WhiteKnight,
    BlackKnight,
    WhiteBishop,
    BlackBishop,
    WhiteRook,
    BlackRook,
    WhiteQueen,
    BlackQueen,
    WhiteKing,
    BlackKing,
}

/// A piece kind without colour, or none.
#[derive(Debug, Clone, Copy, PartialEq, Eq, Structural)]
pub enum PieceType {
    Unknown,
    Pawn,
    Knight,
    Bishop,
    Rook,
    Queen,
    King,
}

#[derive(Debug, Clone, Copy, PartialEq, Eq, Structural)]
pub enum ChessColor {
    White,
    Black,
}

pub open spec fn spec_char_to_piece(c: char) -> Option<Piece> {
    if c == 'P' { Some(Piece::WhitePawn) }
    else if c == 'p' { Some(Piece::BlackPawn) }
    else if c == 'B' { Some(Piece::WhiteBishop) }
    else if c == 'b' { Some(Piece::BlackBishop) }
    else if c == 'N' { Some(Piece::WhiteKnight) }
    else if c == 'n' { Some(Piece::BlackKnight) }
    else if c == 'R' { Some(Piece::WhiteRook) }
    else if c == 'r' { Some(Piece::BlackRook) }
    else if c == 'Q' { Some(Piece::WhiteQueen) }
    else if c == 'q' { Some(Piece::BlackQueen) }
    else if c == 'K' { Some(Piece::WhiteKing) }
    else if c == 'k' { Some(Piece::BlackKing) }
    else if c == ' ' { Some(Piece::Empty) }
    else { None }
}

/// The piece that a placement letter names (upper case white, lower case
/// black); a space is the empty square. Any other character is returned as
/// the error.
pub fn char_to_piece(c: char) -> (r: Result<Piece, char>)
    ensures
        spec_char_to_piece(c) matches Some(p) ==> r == Ok::<Piece, char>(p),
        spec_char_to_piece(c) is None ==> r == Err::<Piece, char>(c),
{
    match c {
        'P' => Ok(Piece::WhitePawn),
        'p' => Ok(Piece::BlackPawn),
        'B' => Ok(Piece::WhiteBishop),
        'b' => Ok(Piece::BlackBishop),
        'N' => Ok(Piece::WhiteKnight),
        'n' => Ok(Piece::BlackKnight),
        'R' => Ok(Piece::WhiteRook),
        'r' => Ok(Piece::BlackRook),
        'Q' => Ok(Piece::WhiteQueen),
        'q' => Ok(Piece::BlackQueen),
        'K' => Ok(Piece::WhiteKing),
        'k' => Ok(Piece::BlackKing),
        ' ' => Ok(Piece::Empty),
        _ => Err(c),
    }
}

pub open spec fn spec_piece_to_char(piece: Piece) -> char {
    match piece {
        Piece::WhitePawn => 'P',
        Piece::BlackPawn => 'p',
        Piece::WhiteBishop => 'B',
        Piece::BlackBishop => 'b',
        Piece::WhiteKnight => 'N',
        Piece::BlackKnight => 'n',
        Piece::WhiteRook => 'R',
        Piece::BlackRook => 'r',
        Piece::WhiteQueen => 'Q',
        Piece::BlackQueen => 'q',
        Piece::WhiteKing => 'K',
        Piece::BlackKing => 'k',
        Piece::Empty => ' ',
    }
}

/// The placement letter of a piece; a space for the empty square.
pub fn piece_to_char(piece: Piece) -> (r: char)
    ensures
        r == spec_piece_to_char(piece),
        spec_char_to_piece(r) == Some(piece),
{
    match piece {
        Piece::WhitePawn => 'P',
        Piece::BlackPawn => 'p',
        Piece::WhiteBishop => 'B',
        Piece::BlackBishop => 'b',
        Piece::WhiteKnight => 'N',
        Piece::BlackKnight => 'n',
        Piece::WhiteRook => 'R',
        Piece::BlackRook => 'r',
        Piece::WhiteQueen => 'Q',
        Piece::BlackQueen => 'q',
        Piece::WhiteKing => 'K',
        Piece::BlackKing => 'k',
        Piece::Empty => ' ',
    }
}

pub open spec fn spec_piece_color(piece: Piece) -> Option<ChessColor> {
    match piece {
        Piece::Empty => None,
        Piece::WhitePawn | Piece::WhiteKnight | Piece::WhiteBishop | Piece::WhiteRook
        | Piece::WhiteQueen | Piece::WhiteKing => Some(ChessColor::White),
        _ => Some(ChessColor::Black),
    }
}

/// The colour of a piece; none for the empty square.
pub fn piece_color(piece: &Piece) -> (r: Option<ChessColor>)
    ensures
        r == spec_piece_color(*piece),
{
    match piece {
        Piece::WhitePawn => Some(ChessColor::White),
        Piece::BlackPawn => Some(ChessColor::Black),
        Piece::WhiteBishop => Some(ChessColor::White),
        Piece::BlackBishop => Some(ChessColor::Black),
        Piece::WhiteKnight => Some(ChessColor::White),
        Piece::BlackKnight => Some(ChessColor::Black),
        Piece::WhiteRook => Some(ChessColor::White),
        Piece::BlackRook => Some(ChessColor::Black),
        Piece::WhiteQueen => Some(ChessColor::White),
        Piece::BlackQueen => Some(ChessColor::Black),
        Piece::WhiteKing => Some(ChessColor::White),
        Piece::BlackKing => Some(ChessColor::Black),
        Piece::Empty => None,
    }
}

pub open spec fn spec_piece_type(piece: Piece) -> PieceType {
    match piece {
        Piece::Empty => PieceType::Unknown,
        Piece::WhitePawn | Piece::BlackPawn => PieceType::Pawn,
        Piece::WhiteKnight | Piece::BlackKnight => PieceType::Knight,
        Piece::WhiteBishop | Piece::BlackBishop => PieceType::Bishop,
        Piece::WhiteRook | Piece::BlackRook => PieceType::Rook,
        Piece::WhiteQueen | Piece::BlackQueen => PieceType::Queen,
        Piece::WhiteKing | Piece::BlackKing => PieceType::King,
    }
}

pub open spec fn spec_piece_of(piece_type: PieceType, color: ChessColor) -> Piece {
    match piece_type {
        PieceType::Unknown => Piece::Empty,
        PieceType::Pawn => if color == ChessColor::White { Piece::WhitePawn } else { Piece::BlackPawn },
        PieceType::Knight => if color == ChessColor::White { Piece::WhiteKnight } else { Piece::BlackKnight },
        PieceType::Bishop => if color == ChessColor::White { Piece::WhiteBishop } else { Piece::BlackBishop },
        PieceType::Rook => if color == ChessColor::White { Piece::WhiteRook } else { Piece::BlackRook },
        PieceType::Queen => if color == ChessColor::White { Piece::WhiteQueen } else { Piece::BlackQueen },
        PieceType::King => if color == ChessColor::White { Piece::WhiteKing } else { Piece::BlackKing },
    }
}

/// The piece of the given kind and colour (the empty square for no kind).
pub fn piece_type_to_piece(piece_type: PieceType, color: ChessColor) -> (r: Piece)
    ensures
        r == spec_piece_of(piece_type, color),
        piece_type != PieceType::Unknown ==> spec_piece_color(r) == Some(color),
        spec_piece_type(r) == piece_type,
{
    let white = match color {
        ChessColor::White => true,
        ChessColor::Black => false,
    };
    match piece_type {
        PieceType::Unknown => Piece::Empty,
        PieceType::Pawn => if white { Piece::WhitePawn } else { Piece::BlackPawn },
        PieceType::Knight => if white { Piece::WhiteKnight } else { Piece::BlackKnight },
        PieceType::Bishop => if white { Piece::WhiteBishop } else { Piece::BlackBishop },
        PieceType::Rook => if white { Piece::WhiteRook } else { Piece::BlackRook },
        PieceType::Queen => if white { Piece::WhiteQueen } else { Piece::BlackQueen },
        PieceType::King => if white { Piece::WhiteKing } else { Piece::BlackKing },
    }
}

pub open spec fn spec_char_to_piece_type(c: char) -> PieceType {
    if c == 'P' { PieceType::Pawn }
    else if c == 'B' { PieceType::Bishop }
    else if c == 'N' { PieceType::Knight }
    else if c == 'R' { PieceType::Rook }
    else if c == 'Q' { PieceType::Queen }
    else if c == 'K' { PieceType::King }
    else { PieceType::Unknown }
}

/// The kind that an upper-case letter names; none for any other character.
pub fn char_to_piece_type(c: char) -> (r: PieceType)
    ensures
        r == spec_char_to_piece_type(c),
{
    match c {
        'P' => PieceType::Pawn,
        'B' => PieceType::Bishop,
        'N' => PieceType::Knight,
        'R' => PieceType::Rook,
        'Q' => PieceType::Queen,
        'K' => PieceType::King,
        _ => PieceType::Unknown,
    }
}

pub open spec fn spec_piece_type_to_char(piece_type: PieceType) -> char {
    match piece_type {
        PieceType::Pawn => 'P',
        PieceType::Bishop => 'B',
        PieceType::Knight => 'N',
        PieceType::Rook => 'R',
        PieceType::Queen => 'Q',
        PieceType::King => 'K',
        PieceType::Unknown => ' ',
    }
}

/// The upper-case letter of a kind; a space for none.
pub fn piece_type_to_char(piece_type: PieceType) -> (r: char)
    ensures
        r == spec_piece_type_to_char(piece_type),
        spec_char_to_piece_type(r) == piece_type,
{
    match piece_type {
        PieceType::Pawn => 'P',
        PieceType::Bishop => 'B',
        PieceType::Knight => 'N',
        PieceType::Rook => 'R',
        PieceType::Queen => 'Q',
        PieceType::King => 'K',
        PieceType::Unknown => ' ',
    }
}

pub open spec fn spec_other_color(color: ChessColor) -> ChessColor {
    if color == ChessColor::White { ChessColor::Black } else { ChessColor::White }
}

/// The opponent's colour.
pub fn other_color(color: ChessColor) -> (r: ChessColor)
    ensures
        r == spec_other_color(color),
{
    match color {
        ChessColor::White => ChessColor::Black,
        ChessColor::Black => ChessColor::White,
    }
}

/// Whether `(file, rank)` lies on the board.
pub open spec fn on_board(file: int, rank: int) -> bool {
    1 <= file <= 8 && 1 <= rank <= 8
}

/// A square of the board, by file (`1` is file a) and rank.
#[derive(Debug, Clone, Copy, PartialEq, Eq, Structural)]
pub struct Square {
    pub file: u8,
    pub rank: u8,
}

/// The square at `(file, rank)`.
pub open spec fn sq(file: int, rank: int) -> Square {
    Square { file: file as u8, rank: rank as u8 }
}

/// The square at `(file, rank)` if that lies on the board, else an
/// `InvalidSquare` error.
pub open spec fn spec_square(file: int, rank: int) -> Result<Square, MoveError> {
    if on_board(file, rank) {
        Ok(sq(file, rank))
    } else {
        Err(MoveError::InvalidSquare)
    }
}

/// The square named by two characters: a file letter `a..=h` and a rank
/// digit `1..=8`.
pub open spec fn spec_square_of_text(t: Seq<char>) -> Result<Square, MoveError> {
    if t.len() == 2 && 'a' <= t[0] && t[0] <= 'h' && '1' <= t[1] && t[1] <= '8' {
        Ok(sq(t[0] as int - 'a' as int + 1, t[1] as int - '0' as int))
    } else {
        Err(MoveError::InvalidSquare)
    }
}

impl Square {
    pub open spec fn wf(self) -> bool {
        on_board(self.file as int, self.rank as int)
    }

    /// The square at `(file, rank)`; `InvalidSquare` off the board.
    pub fn new(file: u8, rank: u8) -> (r: Result<Square, MoveError>)
        ensures
            r == spec_square(file as int, rank as int),
            r matches Ok(s) ==> s.wf(),
    {
        if file >= 1 && file <= 8 && rank >= 1 && rank <= 8 {
            Ok(Square { file, rank })
        } else {
            Err(MoveError::InvalidSquare)
        }
    }

    /// The square named by a text such as `e4`.
    pub fn from_string(square: &String) -> (r: Result<Square, MoveError>)
        ensures
            r == spec_square_of_text(square@),
            r matches Ok(s) ==> s.wf(),
    {
        let chars = crate::text::to_chars(square.as_str());
        Square::from_chars(&chars)
    }

    /// The square named by two characters.
    pub fn from_chars(t: &Vec<char>) -> (r: Result<Square, MoveError>)
        ensures
            r == spec_square_of_text(t@),
            r matches Ok(s) ==> s.wf(),
    {
        if t.len() != 2 {
            return Err(MoveError::InvalidSquare);
        }
        let file_char = t[0];
        let rank_char = t[1];
        if 'a' <= file_char && file_char <= 'h' && '1' <= rank_char && rank_char <= '8' {
            let file = (file_char as u32 - 'a' as u32 + 1) as u8;
            let rank = (rank_char as u32 - '0' as u32) as u8;
            Ok(Square { file, rank })
        } else {
            Err(MoveError::InvalidSquare)
        }
    }

    pub fn file(&self) -> (r: u8)
        ensures
            r == self.file,
    {
        self.file
    }

    pub fn rank(&self) -> (r: u8)
        ensures
            r == self.rank,
    {
        self.rank
    }

    /// The square one rank up.
    pub fn north(&self) -> (r: Result<Square, MoveError>)
        ensures
            r == spec_square(self.file as int, self.rank as int + 1),
    {
        self.mv(0, 1)
    }

    /// The square one rank down.
    pub fn south(&self) -> (r: Result<Square, MoveError>)
        ensures
            r == spec_square(self.file as int, self.rank as int - 1),
    {
        self.mv(0, -1)
    }

    /// The square one file to the right.
    pub fn east(&self) -> (r: Result<Square, MoveError>)
        ensures
            r == spec_square(self.file as int + 1, self.rank as int),
    {
        self.mv(1, 0)
    }

    /// The square one file to the left.
    pub fn west(&self) -> (r: Result<Square, MoveError>)
        ensures
            r == spec_square(self.file as int - 1, self.rank as int),
    {
        self.mv(-1, 0)
    }

    /// The square offset by `(file, rank)`; `InvalidSquare` off the board.
    pub fn mv(&self, file: i8, rank: i8) -> (r: Result<Square, MoveError>)
        ensures
            r == spec_square(self.file as int + file as int, self.rank as int + rank as int),
            r matches Ok(s) ==> s.wf(),
    {
        let f: i16 = self.file as i16 + file as i16;
        let r: i16 = self.rank as i16 + rank as i16;
        if f >= 1 && f <= 8 && r >= 1 && r <= 8 {
            Ok(Square { file: f as u8, rank: r as u8 })
        } else {
            Err(MoveError::InvalidSquare)
        }
    }
}

/// The index in `ChessBoard::pieces` of `(file, rank)`: rank 1 first, file a
/// first within a rank.
pub open spec fn index_of(file: int, rank: int) -> int {
    (rank - 1) * 8 + (file - 1)
}

/// An 8×8 grid of pieces; every cell holds exactly one `Piece` value.
#[derive(Clone, Copy)]
pub struct ChessBoard {
    pub pieces: [Piece; 64],
}

impl PartialEq for ChessBoard {
    fn eq(&self, o: &ChessBoard) -> (r: bool) {
        let mut i: usize = 0;
        while i < 64
            invariant
                i <= 64,
                forall|j: int| 0 <= j < i ==> self.pieces@[j] == o.pieces@[j],
            decreases 64 - i,
        {
            if self.pieces[i] != o.pieces[i] {
                return false;
            }
            i = i + 1;
        }
        assert(self.pieces@ =~= o.pieces@);
        true
    }
}

impl vstd::std_specs::cmp::PartialEqSpecImpl for ChessBoard {
    open spec fn obeys_eq_spec() -> bool {
        true
    }

    open spec fn eq_spec(&self, o: &ChessBoard) -> bool {
        self.pieces@ == o.pieces@
    }
}

/// The board with `(file, rank)` set to `piece`; unchanged off the board.
pub open spec fn set_at(b: ChessBoard, file: int, rank: int, piece: Piece) -> ChessBoard {
    if on_board(file, rank) {
        ChessBoard { pieces: vstd::array::spec_array_update(b.pieces, index_of(file, rank), piece) }
    } else {
        b
    }
}

/// The `k`-th square in reading order: rank 8 first, file a first within a
/// rank.
pub open spec fn reading_square(k: int) -> Square {
    sq(k % 8 + 1, 8 - k / 8)
}

/// The squares holding `piece` among the first `n` squares in reading order.
pub open spec fn squares_with(b: ChessBoard, piece: Piece, n: int) -> Seq<Square>
    decreases n,
{
    if n <= 0 {
        Seq::empty()
    } else {
        let prev = squares_with(b, piece, n - 1);
        if b.at_sq(reading_square(n - 1)) == piece {
            prev.push(reading_square(n - 1))
        } else {
            prev
        }
    }
}

/// The first rank of each side, from file a to file h.
pub open spec fn back_rank(color: ChessColor) -> Seq<Piece> {
    seq![
        spec_piece_of(PieceType::Rook, color),
        spec_piece_of(PieceType::Knight, color),
        spec_piece_of(PieceType::Bishop, color),
        spec_piece_of(PieceType::Queen, color),
        spec_piece_of(PieceType::King, color),
        spec_piece_of(PieceType::Bishop, color),
        spec_piece_of(PieceType::Knight, color),
        spec_piece_of(PieceType::Rook, color),
    ]
}

/// The standard initial placement.
pub open spec fn initial_piece(file: int, rank: int) -> Piece {
    if rank == 1 {
        back_rank(ChessColor::White)[file - 1]
    } else if rank == 2 {
        Piece::WhitePawn
    } else if rank == 7 {
        Piece::BlackPawn
    } else if rank == 8 {
        back_rank(ChessColor::Black)[file - 1]
    } else {
        Piece::Empty
    }
}

/// The board with every square empty.
pub open spec fn empty_board() -> ChessBoard {
    ChessBoard { pieces: vstd::array::spec_array_fill_for_copy_type::<Piece, 64>(Piece::Empty) }
}

impl ChessBoard {
    /// The piece at `(file, rank)`.
    pub open spec fn at(&self, file: int, rank: int) -> Piece {
        self.pieces@[index_of(file, rank)]
    }

    pub open spec fn at_sq(&self, s: Square) -> Piece {
        self.at(s.file as int, s.rank as int)
    }

    /// The empty board.
    pub fn new() -> (r: ChessBoard)
        ensures
            r == empty_board(),
            forall|i: int| 0 <= i < 64 ==> r.pieces@[i] == Piece::Empty,
            forall|f: int, k: int| on_board(f, k) ==> r.at(f, k) == Piece::Empty,
    {
        ChessBoard { pieces: [Piece::Empty; 64] }
    }

    /// The standard initial board.
    pub fn initial() -> (r: ChessBoard)
        ensures
            forall|f: int, k: int| on_board(f, k) ==> r.at(f, k) == initial_piece(f, k),
    {
        let mut b = ChessBoard::new();
        let white = [
            Piece::WhiteRook, Piece::WhiteKnight, Piece::WhiteBishop, Piece::WhiteQueen,
            Piece::WhiteKing, Piece::WhiteBishop, Piece::WhiteKnight, Piece::WhiteRook,
        ];
        let black = [
            Piece::BlackRook, Piece::BlackKnight, Piece::BlackBishop, Piece::BlackQueen,
            Piece::BlackKing, Piece::BlackBishop, Piece::BlackKnight, Piece::BlackRook,
        ];
        let mut f: usize = 0;
        while f < 8
            invariant
                f <= 8,
                white@ == back_rank(ChessColor::White),
                black@ == back_rank(ChessColor::Black),
                forall|i: int| 0 <= i < 64 ==> #[trigger] b.pieces@[i] == (if i % 8 < f {
                    initial_piece(i % 8 + 1, i / 8 + 1)
                } else {
                    Piece::Empty
                }),
            decreases 8 - f,
        {
            b.pieces[f] = white[f];
            b.pieces[8 + f] = Piece::WhitePawn;
            b.pieces[48 + f] = Piece::BlackPawn;
            b.pieces[56 + f] = black[f];
            f = f + 1;
        }
        assert forall|g: int, k: int| on_board(g, k) implies b.at(g, k) == initial_piece(g, k) by {
            let i = index_of(g, k);
            assert(i % 8 == g - 1 && i / 8 == k - 1);
            assert(b.pieces@[i] == initial_piece(g, k));
        }
        b
    }

    /// Puts `piece` on `(file, rank)`; `Some(InvalidSquare)`, with the board
    /// unchanged, off the board.
    pub fn set_piece(&mut self, file: u8, rank: u8, piece: Piece) -> (r: Option<MoveError>)
        ensures
            *final(self) == set_at(*old(self), file as int, rank as int, piece),
            r == (if on_board(file as int, rank as int) { None } else { Some(MoveError::InvalidSquare) }),
    {
        if file < 1 || file > 8 || rank < 1 || rank > 8 {
            return Some(MoveError::InvalidSquare);
        }
        let i = (rank as usize - 1) * 8 + (file as usize - 1);
        self.pieces[i] = piece;
        None
    }

    /// The piece at `(file, rank)`.
    pub fn get_piece(&self, file: u8, rank: u8) -> (r: Piece)
        requires
            on_board(file as int, rank as int),
        ensures
            r == self.at(file as int, rank as int),
    {
        self.pieces[(rank as usize - 1) * 8 + (file as usize - 1)]
    }

    /// Every square holding `piece`, rank 8 first, file a first within a rank.
    pub fn find_piece(&self, piece: Piece) -> (r: Vec<Square>)
        ensures
            r@ == squares_with(*self, piece, 64),
            all_wf(r@),
            forall|i: int| 0 <= i < r@.len() ==> self.at_sq(#[trigger] r@[i]) == piece,
    {
        let mut squares: Vec<Square> = Vec::new();
        let mut i: usize = 0;
        while i < 64
            invariant
                i <= 64,
                squares@ == squares_with(*self, piece, i as int),
                all_wf(squares@),
                forall|j: int| 0 <= j < squares@.len() ==> self.at_sq(#[trigger] squares@[j]) == piece,
            decreases 64 - i,
        {
            let s = Square { file: (i % 8 + 1) as u8, rank: (8 - i / 8) as u8 };
            assert(s == reading_square(i as int));
            if self.get_piece(s.file, s.rank) == piece {
                squares.push(s);
            }
            i = i + 1;
        }
        squares
    }
}

/// The square at `(file, rank)` as a sequence of one, or none off the board.
pub open spec fn opt_sq(file: int, rank: int) -> Seq<Square> {
    if on_board(file, rank) {
        seq![sq(file, rank)]
    } else {
        Seq::empty()
    }
}

/// The squares a king step away from `s`.
pub open spec fn king_reach(s: Square) -> Seq<Square> {
    let f = s.file as int;
    let r = s.rank as int;
    opt_sq(f - 1, r - 1) + opt_sq(f, r - 1) + opt_sq(f + 1, r - 1) + opt_sq(f - 1, r) + opt_sq(f + 1, r)
        + opt_sq(f - 1, r + 1) + opt_sq(f, r + 1) + opt_sq(f + 1, r + 1)
}

/// The squares a knight's jump away from `s`.
pub open spec fn knight_reach(s: Square) -> Seq<Square> {
    let f = s.file as int;
    let r = s.rank as int;
    opt_sq(f - 2, r - 1) + opt_sq(f - 1, r - 2) + opt_sq(f + 1, r - 2) + opt_sq(f + 2, r - 1)
        + opt_sq(f - 2, r + 1) + opt_sq(f - 1, r + 2) + opt_sq(f + 1, r + 2) + opt_sq(f + 2, r + 1)
}

/// The rank step from a destination back toward where a pawn of `color`
/// came from.
pub open spec fn pawn_back(color: ChessColor) -> int {
    if color == ChessColor::White { -1 } else { 1 }
}

/// The squares from which a pawn of `color` reaches `s`: the two diagonal
/// squares behind it for a capture; else the square behind it, and the one
/// behind that when the first is empty and `s` is the rank of a double step.
pub open spec fn pawn_reach(b: ChessBoard, s: Square, capture: bool, color: ChessColor) -> Seq<Square> {
    let f = s.file as int;
    let r = s.rank as int;
    let d = pawn_back(color);
    if capture {
        opt_sq(f + 1, r + d) + opt_sq(f - 1, r + d)
    } else {
        let one = opt_sq(f, r + d);
        if one.len() == 1 && b.at(f, r + d) == Piece::Empty && ((color == ChessColor::White && r
            == 4) || (color == ChessColor::Black && r == 5)) {
            one + opt_sq(f, r + 2 * d)
        } else {
            one
        }
    }
}

/// The squares met walking from `(file, rank)` in steps of `(df, dr)`, at
/// most `fuel` steps, up to and including the first occupied square or until
/// the walk leaves the board.
pub open spec fn ray(b: ChessBoard, file: int, rank: int, df: int, dr: int, fuel: nat) -> Seq<Square>
    decreases fuel,
{
    if fuel == 0 || !on_board(file + df, rank + dr) {
        Seq::empty()
    } else if b.at(file + df, rank + dr) != Piece::Empty {
        seq![sq(file + df, rank + dr)]
    } else {
        seq![sq(file + df, rank + dr)] + ray(b, file + df, rank + dr, df, dr, (fuel - 1) as nat)
    }
}

/// The squares a sliding piece on `s` reaches: the four diagonal walks, then
/// the four straight ones, each as asked.
pub open spec fn sliding_reach(b: ChessBoard, s: Square, diagonal: bool, straight: bool) -> Seq<Square> {
    let f = s.file as int;
    let r = s.rank as int;
    (if diagonal {
        ray(b, f, r, 1, 1, 8) + ray(b, f, r, -1, 1, 8) + ray(b, f, r, 1, -1, 8) + ray(b, f, r, -1, -1, 8)
    } else {
        Seq::empty()
    }) + (if straight {
        ray(b, f, r, 1, 0, 8) + ray(b, f, r, -1, 0, 8) + ray(b, f, r, 0, 1, 8) + ray(b, f, r, 0, -1, 8)
    } else {
        Seq::empty()
    })
}

/// Whether one of `squares` holds `piece`.
pub open spec fn holds_piece(b: ChessBoard, squares: Seq<Square>, piece: Piece) -> bool {
    exists|i: int| 0 <= i < squares.len() && b.at_sq(squares[i]) == piece
}

/// Whether no piece of `attacker` can reach `s`: for each kind, the squares
/// its rule reaches from `s` hold no piece of that kind and colour.
pub open spec fn spec_is_safe(b: ChessBoard, s: Square, attacker: ChessColor) -> bool {
    !holds_piece(b, pawn_reach(b, s, true, attacker), spec_piece_of(PieceType::Pawn, attacker))
        && !holds_piece(b, knight_reach(s), spec_piece_of(PieceType::Knight, attacker))
        && !holds_piece(b, king_reach(s), spec_piece_of(PieceType::King, attacker))
        && !holds_piece(b, sliding_reach(b, s, true, false), spec_piece_of(PieceType::Bishop, attacker))
        && !holds_piece(b, sliding_reach(b, s, false, true), spec_piece_of(PieceType::Rook, attacker))
        && !holds_piece(b, sliding_reach(b, s, true, true), spec_piece_of(PieceType::Queen, attacker))
}

pub open spec fn all_wf(squares: Seq<Square>) -> bool {
    forall|i: int| 0 <= i < squares.len() ==> (#[trigger] squares[i]).wf()
}

pub open spec fn ok_seq(r: Result<Square, MoveError>) -> Seq<Square> {
    match r {
        Ok(s) => seq![s],
        Err(_) => Seq::empty(),
    }
}

impl ChessBoard {
    /// Whether no piece of `attacking_color` can reach `square`.
    pub fn is_safe(&self, square: &Square, attacking_color: ChessColor) -> (r: bool)
        requires
            square.wf(),
        ensures
            r == spec_is_safe(*self, *square, attacking_color),
    {
        let pawn = piece_type_to_piece(PieceType::Pawn, attacking_color);
        if self.any_holds(&self.reachable_from_pawn(square, true, attacking_color), pawn) {
            return false;
        }
        let knight = piece_type_to_piece(PieceType::Knight, attacking_color);
        if self.any_holds(&ChessBoard::reachable_from_knight(square), knight) {
            return false;
        }
        let king = piece_type_to_piece(PieceType::King, attacking_color);
        if self.any_holds(&ChessBoard::reachable_from_king(square), king) {
            return false;
        }
        let bishop = piece_type_to_piece(PieceType::Bishop, attacking_color);
        if self.any_holds(&self.reachable_from_sliding_piece(square, true, false), bishop) {
            return false;
        }
        let rook = piece_type_to_piece(PieceType::Rook, attacking_color);
        if self.any_holds(&self.reachable_from_sliding_piece(square, false, true), rook) {
            return false;
        }
        let queen = piece_type_to_piece(PieceType::Queen, attacking_color);
        if self.any_holds(&self.reachable_from_sliding_piece(square, true, true), queen) {
            return false;
        }
        true
    }

    /// Whether one of `squares` holds `piece`.
    fn any_holds(&self, squares: &Vec<Square>, piece: Piece) -> (r: bool)
        requires
            all_wf(squares@),
        ensures
            r == holds_piece(*self, squares@, piece),
    {
        let mut i: usize = 0;
        while i < squares.len()
            invariant
                i <= squares@.len(),
                all_wf(squares@),
                forall|j: int| 0 <= j < i ==> self.at_sq(#[trigger] squares@[j]) != piece,
            decreases squares@.len() - i,
        {
            let s = squares[i];
            assert(squares@[i as int].wf());
            if self.get_piece(s.file, s.rank) == piece {
                return true;
            }
            i = i + 1;
        }
        false
    }

    /// The squares from which a pawn of `pawn_color` reaches `square`.
    pub fn reachable_from_pawn(&self, square: &Square, capture: bool, pawn_color: ChessColor) -> (r: Vec<Square>)
        requires
            square.wf(),
        ensures
            r@ == pawn_reach(*self, *square, capture, pawn_color),
            all_wf(r@),
    {
        let mut squares: Vec<Square> = Vec::new();
        let rank_dir: i8 = match pawn_color {
            ChessColor::White => -1,
            ChessColor::Black => 1,
        };
        if capture {
            ChessBoard::add_to_squares_if_ok(&mut squares, square.mv(1, rank_dir));
            ChessBoard::add_to_squares_if_ok(&mut squares, square.mv(-1, rank_dir));
        } else {
            ChessBoard::add_to_squares_if_ok(&mut squares, square.mv(0, rank_dir));
            let can_move_forward = squares.len() == 1 && self.get_piece(
                square.file,
                (square.rank as i16 + rank_dir as i16) as u8,
            ) == Piece::Empty;
            let start = match pawn_color {
                ChessColor::White => square.rank == 4,
                ChessColor::Black => square.rank == 5,
            };
            if can_move_forward && start {
                ChessBoard::add_to_squares_if_ok(&mut squares, square.mv(0, 2 * rank_dir));
            }
        }
        assert(squares@ =~= pawn_reach(*self, *square, capture, pawn_color));
        squares
    }

    /// The squares a king step away from `square`.
    pub fn reachable_from_king(square: &Square) -> (r: Vec<Square>)
        ensures
            r@ == king_reach(*square),
            all_wf(r@),
    {
        let mut squares: Vec<Square> = Vec::new();
        ChessBoard::add_to_squares_if_ok(&mut squares, square.mv(-1, -1));
        ChessBoard::add_to_squares_if_ok(&mut squares, square.mv(0, -1));
        ChessBoard::add_to_squares_if_ok(&mut squares, square.mv(1, -1));
        ChessBoard::add_to_squares_if_ok(&mut squares, square.mv(-1, 0));
        ChessBoard::add_to_squares_if_ok(&mut squares, square.mv(1, 0));
        ChessBoard::add_to_squares_if_ok(&mut squares, square.mv(-1, 1));
        ChessBoard::add_to_squares_if_ok(&mut squares, square.mv(0, 1));
        ChessBoard::add_to_squares_if_ok(&mut squares, square.mv(1, 1));
        assert(squares@ =~= king_reach(*square));
        squares
    }

    /// The squares a knight's jump away from `square`.
    pub fn reachable_from_knight(square: &Square) -> (r: Vec<Square>)
        ensures
            r@ == knight_reach(*square),
            all_wf(r@),
    {
        let mut squares: Vec<Square> = Vec::new();
        ChessBoard::add_to_squares_if_ok(&mut squares, square.mv(-2, -1));
        ChessBoard::add_to_squares_if_ok(&mut squares, square.mv(-1, -2));
        ChessBoard::add_to_squares_if_ok(&mut squares, square.mv(1, -2));
        ChessBoard::add_to_squares_if_ok(&mut squares, square.mv(2, -1));
        ChessBoard::add_to_squares_if_ok(&mut squares, square.mv(-2, 1));
        ChessBoard::add_to_squares_if_ok(&mut squares, square.mv(-1, 2));
        ChessBoard::add_to_squares_if_ok(&mut squares, square.mv(1, 2));
        ChessBoard::add_to_squares_if_ok(&mut squares, square.mv(2, 1));
        assert(squares@ =~= knight_reach(*square));
        squares
    }

    fn add_to_squares_if_ok(squares: &mut Vec<Square>, square_result: Result<Square, MoveError>)
        requires
            all_wf(old(squares)@),
            square_result matches Ok(s) ==> s.wf(),
        ensures
            final(squares)@ == old(squares)@ + ok_seq(square_result),
            all_wf(final(squares)@),
    {
        match square_result {
            Ok(s) => squares.push(s),
            Err(_) => {},
        }
        assert(squares@ =~= old(squares)@ + ok_seq(square_result));
    }

    /// The squares a sliding piece on `square` reaches along the diagonals,
    /// the files and ranks, or both.
    pub fn reachable_from_sliding_piece(&self, square: &Square, diagonal: bool, straight: bool) -> (r: Vec<Square>)
        requires
            square.wf(),
        ensures
            r@ == sliding_reach(*self, *square, diagonal, straight),
            all_wf(r@),
    {
        let mut squares: Vec<Square> = Vec::new();
        if diagonal {
            squares.append(&mut self.reachable_from_direction(square, 1, 1));
            squares.append(&mut self.reachable_from_direction(square, -1, 1));
            squares.append(&mut self.reachable_from_direction(square, 1, -1));
            squares.append(&mut self.reachable_from_direction(square, -1, -1));
        }
        if straight {
            squares.append(&mut self.reachable_from_direction(square, 1, 0));
            squares.append(&mut self.reachable_from_direction(square, -1, 0));
            squares.append(&mut self.reachable_from_direction(square, 0, 1));
            squares.append(&mut self.reachable_from_direction(square, 0, -1));
        }
        assert(squares@ =~= sliding_reach(*self, *square, diagonal, straight));
        squares
    }

    /// The squares met walking from `square` in steps of
    /// `(file_offset, rank_offset)`, up to and including the first occupied
    /// square, at most eight steps.
    pub fn reachable_from_direction(&self, square: &Square, file_offset: i8, rank_offset: i8) -> (r: Vec<Square>)
        requires
            square.wf(),
        ensures
            r@ == ray(*self, square.file as int, square.rank as int, file_offset as int, rank_offset as int, 8),
            all_wf(r@),
    {
        let ghost df = file_offset as int;
        let ghost dr = rank_offset as int;
        let mut squares: Vec<Square> = Vec::new();
        let mut cur = *square;
        let mut fuel: usize = 8;
        while fuel > 0
            invariant
                cur.wf(),
                fuel <= 8,
                df == file_offset as int,
                dr == rank_offset as int,
                all_wf(squares@),
                squares@ + ray(*self, cur.file as int, cur.rank as int, df, dr, fuel as nat)
                    == ray(*self, square.file as int, square.rank as int, df, dr, 8),
            decreases fuel,
        {
            let next = cur.mv(file_offset, rank_offset);
            match next {
                Err(_) => {
                    assert(!on_board(cur.file + df, cur.rank + dr));
                    assert(ray(*self, cur.file as int, cur.rank as int, df, dr, fuel as nat) =~= Seq::<Square>::empty());
                    assert(squares@ =~= squares@ + ray(*self, cur.file as int, cur.rank as int, df, dr, fuel as nat));
                    return squares;
                },
                Ok(n) => {
                    let ghost before = squares@;
                    assert(on_board(cur.file + df, cur.rank + dr));
                    assert(n.file as int == cur.file + df && n.rank as int == cur.rank + dr);
                    squares.push(n);
                    if self.get_piece(n.file, n.rank) != Piece::Empty {
                        assert(squares@ =~= before + ray(*self, cur.file as int, cur.rank as int, df, dr, fuel as nat));
                        return squares;
                    }
                    assert(squares@ + ray(*self, n.file as int, n.rank as int, df, dr, (fuel - 1) as nat)
                        =~= before + ray(*self, cur.file as int, cur.rank as int, df, dr, fuel as nat));
                    cur = n;
                    fuel = fuel - 1;
                },
            }
        }
        assert(squares@ =~= squares@ + ray(*self, cur.file as int, cur.rank as int, df, dr, 0));
        squares
    }
}

/// A board with side to move, castling rights, en-passant target and clocks.
#[derive(Clone, Copy)]
pub struct ChessPosition {
    pub active_color: ChessColor,
    pub half_move_clock: u16,
    pub full_move_number: u16,
    pub white_king_side_castling: bool,
    pub black_king_side_castling: bool,
    pub white_queen_side_castling: bool,
    pub black_queen_side_castling: bool,
    pub board: ChessBoard,
    pub en_passant_target_square: Option<Square>,
}

/// A move token read apart: the kind that moves, where it may come from, where
/// it goes, and what it is promoted to.
#[derive(Debug, Clone, Copy, PartialEq, Eq, Structural)]
pub struct SanMove {
    pub piece_type: PieceType,
    /// The origin, when the token gives it whole.
    pub from: Option<Square>,
    /// The origin's file, when the token narrows by file.
    pub from_file: Option<u8>,
    /// The origin's rank, when the token narrows by rank.
    pub from_rank: Option<u8>,
    pub to: Square,
    pub promotion: Option<PieceType>,
}

/// The board with the piece on `from` moved to `to` and `from` emptied.
pub open spec fn moved(b: ChessBoard, from: Square, to: Square) -> ChessBoard {
    set_at(set_at(b, to.file as int, to.rank as int, b.at_sq(from)), from.file as int, from.rank as int, Piece::Empty)
}

/// The position after the side to move has moved: the other side is to
/// move, the full-move number grows after Black's move, and the half-move
/// clock grows by one.
pub open spec fn spec_next_turn(p: ChessPosition) -> ChessPosition {
    ChessPosition {
        active_color: spec_other_color(p.active_color),
        full_move_number: if p.active_color == ChessColor::Black {
            (p.full_move_number + 1) as u16
        } else {
            p.full_move_number
        },
        half_move_clock: (p.half_move_clock + 1) as u16,
        ..p
    }
}

/// King-side castling of the side to move: king from file e to g, rook from
/// file h to f, and that side's king-side right cleared.
pub open spec fn spec_castle_king_side(p: ChessPosition) -> ChessPosition {
    if p.active_color == ChessColor::White {
        ChessPosition {
            board: moved(moved(p.board, sq(5, 1), sq(7, 1)), sq(8, 1), sq(6, 1)),
            white_king_side_castling: false,
            ..p
        }
    } else {
        ChessPosition {
            board: moved(moved(p.board, sq(5, 8), sq(7, 8)), sq(8, 8), sq(6, 8)),
            black_king_side_castling: false,
            ..p
        }
    }
}

/// Queen-side castling of the side to move: king from file e to c, rook from
/// file a to d, and that side's queen-side right cleared.
pub open spec fn spec_castle_queen_side(p: ChessPosition) -> ChessPosition {
    if p.active_color == ChessColor::White {
        ChessPosition {
            board: moved(moved(p.board, sq(5, 1), sq(3, 1)), sq(1, 1), sq(4, 1)),
            white_queen_side_castling: false,
            ..p
        }
    } else {
        ChessPosition {
            board: moved(moved(p.board, sq(5, 8), sq(3, 8)), sq(1, 8), sq(4, 8)),
            black_queen_side_castling: false,
            ..p
        }
    }
}

/// Whether a move of `piece_type` from `from` to `to` is a pawn's double step.
pub open spec fn is_double_step(piece_type: PieceType, from: Square, to: Square) -> bool {
    piece_type == PieceType::Pawn && (from.rank - to.rank == 2 || to.rank - from.rank == 2)
}

/// The move itself, before the turn passes: the piece goes from `from` to
/// `to`; an en-passant capture empties the square one rank behind `to` as
/// seen by the mover; a promotion puts the new piece of the mover's colour on
/// `to`; a double step makes the square passed over the en-passant target,
/// any other move clears it.
pub open spec fn spec_do_move(
    p: ChessPosition,
    from: Square,
    to: Square,
    piece_type: PieceType,
    capture: bool,
    promotion: Option<PieceType>,
) -> ChessPosition {
    let b1 = moved(p.board, from, to);
    let b2 = if capture && piece_type == PieceType::Pawn && p.en_passant_target_square == Some(to) {
        set_at(b1, to.file as int, to.rank + pawn_back(p.active_color), Piece::Empty)
    } else {
        b1
    };
    let b3 = match promotion {
        Some(t) => set_at(b2, to.file as int, to.rank as int, spec_piece_of(t, p.active_color)),
        None => b2,
    };
    ChessPosition {
        board: b3,
        en_passant_target_square: if is_double_step(piece_type, from, to) {
            Some(sq(from.file as int, (from.rank + to.rank) / 2))
        } else {
            None
        },
        ..p
    }
}

/// The characters that decorate a move token without changing it.
pub open spec fn is_decoration(c: char) -> bool {
    c == 'x' || c == '+' || c == '?' || c == '!' || c == '#' || c == '='
}

pub open spec fn not_decoration() -> spec_fn(char) -> bool {
    |c: char| !is_decoration(c)
}

pub open spec fn is_upper(c: char) -> bool {
    'A' <= c && c <= 'Z'
}

/// The move of a token whose decorations are gone and whose kind letter and
/// promotion letter are taken off.
pub open spec fn spec_parse_body(
    piece_type: PieceType,
    promotion: Option<PieceType>,
    body: Seq<char>,
) -> Result<SanMove, MoveError> {
    if body.len() == 4 {
        match spec_square_of_text(body.subrange(0, 2)) {
            Err(e) => Err(e),
            Ok(from) => match spec_square_of_text(body.subrange(2, 4)) {
                Err(e) => Err(e),
                Ok(to) => Ok(
                    SanMove { piece_type, from: Some(from), from_file: None, from_rank: None, to, promotion },
                ),
            },
        }
    } else if body.len() == 3 {
        let c = body[0];
        if (crate::text::is_digit(c) && !('1' <= c && c <= '8')) || (!crate::text::is_digit(c) && !(
        'a' <= c && c <= 'h')) {
            Err(MoveError::InvalidFileOrRank)
        } else {
            match spec_square_of_text(body.drop_first()) {
                Err(e) => Err(e),
                Ok(to) => Ok(
                    SanMove {
                        piece_type,
                        from: None,
                        from_file: if crate::text::is_digit(c) {
                            None
                        } else {
                            Some((c as int - 'a' as int + 1) as u8)
                        },
                        from_rank: if crate::text::is_digit(c) {
                            Some((c as int - '0' as int) as u8)
                        } else {
                            None
                        },
                        to,
                        promotion,
                    },
                ),
            }
        }
    } else {
        match spec_square_of_text(body) {
            Err(e) => Err(e),
            Ok(to) => Ok(SanMove { piece_type, from: None, from_file: None, from_rank: None, to, promotion }),
        }
    }
}

/// A move token without decorations read apart: an upper-case first letter
/// is the kind (a pawn without one); a last character that is not a digit is
/// the promotion kind; what is left is origin and destination (four
/// characters), a file or rank and the destination (three), or the
/// destination.
pub open spec fn spec_parse_san(m: Seq<char>) -> Result<SanMove, MoveError> {
    if m.len() == 0 {
        Err(MoveError::InvalidSquare)
    } else {
        let upper = is_upper(m[0]);
        let piece_type = if upper { spec_char_to_piece_type(m[0]) } else { PieceType::Pawn };
        let rest = if upper { m.drop_first() } else { m };
        if rest.len() == 0 {
            Err(MoveError::InvalidSquare)
        } else if crate::text::is_digit(rest.last()) {
            spec_parse_body(piece_type, None, rest)
        } else {
            spec_parse_body(piece_type, Some(spec_char_to_piece_type(rest.last())), rest.drop_last())
        }
    }
}

/// Whether square `s` agrees with the file or rank that the move narrows by.
pub open spec fn narrows(sm: SanMove, s: Square) -> bool {
    (sm.from_file matches Some(f) ==> s.file == f) && (sm.from_rank matches Some(r) ==> s.rank == r)
}

pub open spec fn narrow_pred(sm: SanMove) -> spec_fn(Square) -> bool {
    |s: Square| narrows(sm, s)
}

/// The squares from which a piece of `piece_type` and `color` reaches `to`.
pub open spec fn spec_reach_for(
    b: ChessBoard,
    piece_type: PieceType,
    to: Square,
    capture: bool,
    color: ChessColor,
) -> Seq<Square> {
    match piece_type {
        PieceType::Pawn => pawn_reach(b, to, capture, color),
        PieceType::King => king_reach(to),
        PieceType::Knight => knight_reach(to),
        PieceType::Bishop => sliding_reach(b, to, true, false),
        PieceType::Rook => sliding_reach(b, to, false, true),
        PieceType::Queen => sliding_reach(b, to, true, true),
        PieceType::Unknown => Seq::empty(),
    }
}

/// Whether `piece` on `from` may go to `to`: a capture needs an opposing
/// piece on `to`, or for a pawn `to` as the en-passant target; a quiet move
/// needs `to` empty.
pub open spec fn spec_valid_move(p: ChessPosition, from: Square, to: Square, piece: Piece, capture: bool) -> bool {
    p.board.at_sq(from) == piece && if capture {
        ((piece == Piece::WhitePawn || piece == Piece::BlackPawn) && p.en_passant_target_square == Some(to))
            || (p.board.at_sq(to) != Piece::Empty && spec_piece_color(p.board.at_sq(to)) == Some(
            spec_other_color(p.active_color),
        ))
    } else {
        p.board.at_sq(to) == Piece::Empty
    }
}

pub open spec fn reach_pred(p: ChessPosition, sm: SanMove, capture: bool) -> spec_fn(Square) -> bool {
    |s: Square|
        spec_reach_for(p.board, sm.piece_type, sm.to, capture, p.active_color).contains(s)
            && spec_valid_move(p, s, sm.to, spec_piece_of(sm.piece_type, p.active_color), capture)
}

/// The squares of the kings of `color`.
pub open spec fn kings(b: ChessBoard, color: ChessColor) -> Seq<Square> {
    squares_with(b, spec_piece_of(PieceType::King, color), 64)
}

/// Whether `color` has exactly one king and it is not attacked.
pub open spec fn king_safe(p: ChessPosition, color: ChessColor) -> bool {
    kings(p.board, color).len() == 1 && spec_is_safe(p.board, kings(p.board, color)[0], spec_other_color(color))
}

pub open spec fn safe_pred(p: ChessPosition, sm: SanMove, capture: bool) -> spec_fn(Square) -> bool {
    |s: Square| king_safe(spec_do_move(p, s, sm.to, sm.piece_type, capture, sm.promotion), p.active_color)
}

/// The origin of a move: given whole by the token; else the single piece of
/// the moving kind and colour that agrees with the narrowing; else the single
/// one of those that reaches the destination by a valid move; else the single
/// one of those whose move leaves its own king safe, no such piece being
/// `NoLegalCandidate` and more than one `Ambiguous`.
pub open spec fn spec_select(p: ChessPosition, sm: SanMove, capture: bool) -> Result<Square, MoveError> {
    match sm.from {
        Some(f) => Ok(f),
        None => {
            let piece = spec_piece_of(sm.piece_type, p.active_color);
            let c = squares_with(p.board, piece, 64).filter(narrow_pred(sm));
            let d = c.filter(reach_pred(p, sm, capture));
            let e = d.filter(safe_pred(p, sm, capture));
            if c.len() == 1 {
                Ok(c[0])
            } else if d.len() == 1 {
                Ok(d[0])
            } else if e.len() == 1 {
                Ok(e[0])
            } else if e.len() == 0 {
                Err(MoveError::NoLegalCandidate)
            } else {
                Err(MoveError::Ambiguous)
            }
        },
    }
}

/// The position after the move token `tok`, or why it cannot be applied.
pub open spec fn spec_apply(p: ChessPosition, tok: Seq<char>) -> Result<ChessPosition, MoveError> {
    let m = tok.filter(not_decoration());
    let capture = tok.contains('x');
    if m == seq!['O', '-', 'O'] || m == seq!['0', '-', '0'] {
        Ok(spec_next_turn(spec_castle_king_side(p)))
    } else if m == seq!['O', '-', 'O', '-', 'O'] || m == seq!['0', '-', '0', '-', '0'] {
        Ok(spec_next_turn(spec_castle_queen_side(p)))
    } else {
        match spec_parse_san(m) {
            Err(e) => Err(e),
            Ok(sm) => match spec_select(p, sm, capture) {
                Err(e) => Err(e),
                Ok(from) => Ok(spec_next_turn(spec_do_move(p, from, sm.to, sm.piece_type, capture, sm.promotion))),
            },
        }
    }
}

/// The standard initial position, White to move.
pub open spec fn is_initial_position(p: ChessPosition) -> bool {
    &&& p.active_color == ChessColor::White
    &&& p.half_move_clock == 0
    &&& p.full_move_number == 1
    &&& p.white_king_side_castling && p.black_king_side_castling
    &&& p.white_queen_side_castling && p.black_queen_side_castling
    &&& p.en_passant_target_square is None
    &&& forall|f: int, k: int| on_board(f, k) ==> p.board.at(f, k) == initial_piece(f, k)
}

/// Whether `c` occurs in `v`.
fn contains_char(v: &Vec<char>, c: char) -> (r: bool)
    ensures
        r == v@.contains(c),
{
    let mut i: usize = 0;
    while i < v.len()
        invariant
            i <= v@.len(),
            forall|j: int| 0 <= j < i ==> v@[j] != c,
        decreases v@.len() - i,
    {
        if v[i] == c {
            return true;
        }
        i = i + 1;
    }
    false
}

/// The token without its decorating characters.
fn strip_decorations(tok: &Vec<char>) -> (r: Vec<char>)
    ensures
        r@ == tok@.filter(not_decoration()),
{
    let mut r: Vec<char> = Vec::new();
    let mut i: usize = 0;
    while i < tok.len()
        invariant
            i <= tok@.len(),
            r@ == tok@.subrange(0, i as int).filter(not_decoration()),
        decreases tok@.len() - i,
    {
        let c = tok[i];
        let ghost pre = tok@.subrange(0, i + 1);
        proof {
            reveal(Seq::filter);
        }
        assert(pre.drop_last() =~= tok@.subrange(0, i as int));
        assert(pre.last() == c);
        assert(not_decoration()(c) == !is_decoration(c));
        assert(pre.filter(not_decoration()) == if not_decoration()(c) {
            pre.drop_last().filter(not_decoration()).push(c)
        } else {
            pre.drop_last().filter(not_decoration())
        });
        if !(c == 'x' || c == '+' || c == '?' || c == '!' || c == '#' || c == '=') {
            r.push(c);
        }
        i = i + 1;
    }
    assert(tok@.subrange(0, tok@.len() as int) =~= tok@);
    r
}

/// Whether `m` is exactly the three or five characters given.
fn is_castling(m: &Vec<char>, castle: char, long: bool) -> (r: bool)
    ensures
        !long ==> r == (m@ == seq![castle, '-', castle]),
        long ==> r == (m@ == seq![castle, '-', castle, '-', castle]),
{
    if !long {
        let r = m.len() == 3 && m[0] == castle && m[1] == '-' && m[2] == castle;
        assert(r ==> m@ =~= seq![castle, '-', castle]);
        r
    } else {
        let r = m.len() == 5 && m[0] == castle && m[1] == '-' && m[2] == castle && m[3] == '-' && m[4]
            == castle;
        assert(r ==> m@ =~= seq![castle, '-', castle, '-', castle]);
        r
    }
}

/// The move that the characters `body` give, for the kind and promotion
/// already read.
fn parse_body(piece_type: PieceType, promotion: Option<PieceType>, body: &Vec<char>) -> (r: Result<SanMove, MoveError>)
    ensures
        r == spec_parse_body(piece_type, promotion, body@),
        r matches Ok(sm) ==> sm.to.wf() && (sm.from matches Some(f) ==> f.wf()),
{
    if body.len() == 4 {
        let from = Square::from_chars(&crate::text::slice_chars(body, 0, 2))?;
        let to = Square::from_chars(&crate::text::slice_chars(body, 2, 4))?;
        Ok(SanMove { piece_type, from: Some(from), from_file: None, from_rank: None, to, promotion })
    } else if body.len() == 3 {
        let c = body[0];
        let digit = '0' <= c && c <= '9';
        if (digit && !('1' <= c && c <= '8')) || (!digit && !('a' <= c && c <= 'h')) {
            return Err(MoveError::InvalidFileOrRank);
        }
        let rest = crate::text::slice_chars(body, 1, 3);
        assert(rest@ =~= body@.drop_first());
        let to = Square::from_chars(&rest)?;
        let (from_file, from_rank) = if digit {
            (None, Some((c as u32 - '0' as u32) as u8))
        } else {
            (Some((c as u32 - 'a' as u32 + 1) as u8), None)
        };
        Ok(SanMove { piece_type, from: None, from_file, from_rank, to, promotion })
    } else {
        let to = Square::from_chars(body)?;
        Ok(SanMove { piece_type, from: None, from_file: None, from_rank: None, to, promotion })
    }
}

/// Reads a move token without decorations apart.
pub fn parse_san(m: &Vec<char>) -> (r: Result<SanMove, MoveError>)
    ensures
        r == spec_parse_san(m@),
        r matches Ok(sm) ==> sm.to.wf() && (sm.from matches Some(f) ==> f.wf()),
{
    if m.len() == 0 {
        return Err(MoveError::InvalidSquare);
    }
    let first = m[0];
    let upper = 'A' <= first && first <= 'Z';
    let piece_type = if upper { char_to_piece_type(first) } else { PieceType::Pawn };
    let rest = if upper { crate::text::slice_chars(m, 1, m.len()) } else { crate::text::slice_chars(m, 0, m.len()) };
    assert(upper ==> rest@ =~= m@.drop_first());
    assert(!upper ==> rest@ =~= m@);
    if rest.len() == 0 {
        return Err(MoveError::InvalidSquare);
    }
    let last = rest[rest.len() - 1];
    if '0' <= last && last <= '9' {
        parse_body(piece_type, None, &rest)
    } else {
        let body = crate::text::slice_chars(&rest, 0, rest.len() - 1);
        assert(body@ =~= rest@.drop_last());
        parse_body(piece_type, Some(char_to_piece_type(last)), &body)
    }
}

/// Whether `s` is one of `squares`.
fn contains_square(squares: &Vec<Square>, s: &Square) -> (r: bool)
    ensures
        r == squares@.contains(*s),
{
    let mut i: usize = 0;
    while i < squares.len()
        invariant
            i <= squares@.len(),
            forall|j: int| 0 <= j < i ==> squares@[j] != *s,
        decreases squares@.len() - i,
    {
        if squares[i] == *s {
            assert(squares@[i as int] == *s);
            return true;
        }
        i = i + 1;
    }
    false
}

impl ChessPosition {
    /// The standard initial position.
    pub fn initial_position() -> (r: ChessPosition)
        ensures
            is_initial_position(r),
    {
        ChessPosition {
            active_color: ChessColor::White,
            half_move_clock: 0,
            full_move_number: 1,
            white_king_side_castling: true,
            black_king_side_castling: true,
            white_queen_side_castling: true,
            black_queen_side_castling: true,
            board: ChessBoard::initial(),
            en_passant_target_square: None,
        }
    }

    fn move_piece(&mut self, from_file: u8, from_rank: u8, to_file: u8, to_rank: u8)
        requires
            on_board(from_file as int, from_rank as int),
            on_board(to_file as int, to_rank as int),
        ensures
            *final(self) == (ChessPosition {
                board: moved(old(self).board, sq(from_file as int, from_rank as int), sq(to_file as int, to_rank as int)),
                ..*old(self)
            }),
    {
        let piece = self.board.get_piece(from_file, from_rank);
        self.board.set_piece(to_file, to_rank, piece);
        self.board.set_piece(from_file, from_rank, Piece::Empty);
    }

    fn next_move(&mut self)
        requires
            old(self).half_move_clock < u16::MAX,
            old(self).full_move_number < u16::MAX,
        ensures
            *final(self) == spec_next_turn(*old(self)),
    {
        match self.active_color {
            ChessColor::White => {
                self.active_color = ChessColor::Black;
            },
            ChessColor::Black => {
                self.active_color = ChessColor::White;
                self.full_move_number = self.full_move_number + 1;
            },
        }
        self.half_move_clock = self.half_move_clock + 1;
    }

    fn queen_side_castling(&mut self)
        ensures
            *final(self) == spec_castle_queen_side(*old(self)),
    {
        match self.active_color {
            ChessColor::White => {
                self.move_piece(5, 1, 3, 1);
                self.move_piece(1, 1, 4, 1);
                self.white_queen_side_castling = false;
            },
            ChessColor::Black => {
                self.move_piece(5, 8, 3, 8);
                self.move_piece(1, 8, 4, 8);
                self.black_queen_side_castling = false;
            },
        }
    }

    fn king_side_castling(&mut self)
        ensures
            *final(self) == spec_castle_king_side(*old(self)),
    {
        match self.active_color {
            ChessColor::White => {
                self.move_piece(5, 1, 7, 1);
                self.move_piece(8, 1, 6, 1);
                self.white_king_side_castling = false;
            },
            ChessColor::Black => {
                self.move_piece(5, 8, 7, 8);
                self.move_piece(8, 8, 6, 8);
                self.black_king_side_castling = false;
            },
        }
    }

    fn do_move(&mut self, from: &Square, to: &Square, piece_type: PieceType, capture: bool, promotion: Option<PieceType>)
        requires
            from.wf(),
            to.wf(),
        ensures
            *final(self) == spec_do_move(*old(self), *from, *to, piece_type, capture, promotion),
    {
        self.move_piece(from.file, from.rank, to.file, to.rank);
        let en_passant = match self.en_passant_target_square {
            Some(t) => t == *to,
            None => false,
        };
        if capture && piece_type == PieceType::Pawn && en_passant {
            match self.active_color {
                ChessColor::White => {
                    self.board.set_piece(to.file, to.rank - 1, Piece::Empty);
                },
                ChessColor::Black => {
                    self.board.set_piece(to.file, to.rank + 1, Piece::Empty);
                },
            }
        }
        match promotion {
            Some(t) => {
                let promoted = piece_type_to_piece(t, self.active_color);
                self.board.set_piece(to.file, to.rank, promoted);
            },
            None => {},
        }
        if piece_type == PieceType::Pawn && (from.rank as i16 - to.rank as i16 == 2 || to.rank as i16
            - from.rank as i16 == 2) {
            self.en_passant_target_square = Some(Square { file: from.file, rank: (from.rank + to.rank) / 2 });
        } else {
            self.en_passant_target_square = None;
        }
    }

    /// Whether the king of `king_color` is attacked.
    pub fn king_in_check(&self, king_color: ChessColor) -> (r: bool)
        requires
            kings(self.board, king_color).len() == 1,
        ensures
            r == !spec_is_safe(self.board, kings(self.board, king_color)[0], spec_other_color(king_color)),
    {
        let king = piece_type_to_piece(PieceType::King, king_color);
        let found = self.board.find_piece(king);
        assert(found@[0].wf());
        !self.board.is_safe(&found[0], other_color(king_color))
    }

    /// Whether `color` has exactly one king and it is not attacked.
    fn king_is_safe(&self, color: ChessColor) -> (r: bool)
        ensures
            r == king_safe(*self, color),
    {
        let king = piece_type_to_piece(PieceType::King, color);
        let found = self.board.find_piece(king);
        if found.len() != 1 {
            return false;
        }
        assert(found@[0].wf());
        self.board.is_safe(&found[0], other_color(color))
    }

    fn valid_move(&self, from: &Square, to: &Square, piece: &Piece, capture: bool) -> (r: bool)
        requires
            from.wf(),
            to.wf(),
        ensures
            r == spec_valid_move(*self, *from, *to, *piece, capture),
    {
        if self.board.get_piece(from.file, from.rank) != *piece {
            false
        } else {
            let to_piece = self.board.get_piece(to.file, to.rank);
            if capture {
                let en_passant = (*piece == Piece::WhitePawn || *piece == Piece::BlackPawn) && match self.en_passant_target_square {
                    Some(t) => t == *to,
                    None => false,
                };
                en_passant || (to_piece != Piece::Empty && piece_color(&to_piece) == Some(other_color(self.active_color)))
            } else {
                to_piece == Piece::Empty
            }
        }
    }

    fn reach_for(&self, piece_type: PieceType, to: &Square, capture: bool) -> (r: Vec<Square>)
        requires
            to.wf(),
        ensures
            r@ == spec_reach_for(self.board, piece_type, *to, capture, self.active_color),
    {
        match piece_type {
            PieceType::Pawn => self.board.reachable_from_pawn(to, capture, self.active_color),
            PieceType::King => ChessBoard::reachable_from_king(to),
            PieceType::Knight => ChessBoard::reachable_from_knight(to),
            PieceType::Bishop => self.board.reachable_from_sliding_piece(to, true, false),
            PieceType::Rook => self.board.reachable_from_sliding_piece(to, false, true),
            PieceType::Queen => self.board.reachable_from_sliding_piece(to, true, true),
            PieceType::Unknown => Vec::new(),
        }
    }
}

impl ChessPosition {
    /// The origin of the move `sm`, chosen as `spec_select` says.
    fn select_from(&self, sm: &SanMove, capture: bool) -> (r: Result<Square, MoveError>)
        requires
            sm.to.wf(),
            sm.from matches Some(f) ==> f.wf(),
        ensures
            r == spec_select(*self, *sm, capture),
            r matches Ok(s) ==> s.wf(),
    {
        if let Some(f) = sm.from {
            return Ok(f);
        }
        let piece = piece_type_to_piece(sm.piece_type, self.active_color);
        let all = self.board.find_piece(piece);
        let mut c: Vec<Square> = Vec::new();
        let mut i: usize = 0;
        while i < all.len()
            invariant
                i <= all@.len(),
                all_wf(all@),
                all_wf(c@),
                c@ == all@.subrange(0, i as int).filter(narrow_pred(*sm)),
            decreases all@.len() - i,
        {
            let s = all[i];
            proof {
                reveal(Seq::filter);
                assert(all@.subrange(0, i + 1).drop_last() =~= all@.subrange(0, i as int));
            }
            let by_file = match sm.from_file {
                Some(f) => s.file == f,
                None => true,
            };
            let by_rank = match sm.from_rank {
                Some(k) => s.rank == k,
                None => true,
            };
            if by_file && by_rank {
                c.push(s);
            }
            i = i + 1;
        }
        assert(all@.subrange(0, all@.len() as int) =~= all@);
        if c.len() == 1 {
            return Ok(c[0]);
        }
        let reach = self.reach_for(sm.piece_type, &sm.to, capture);
        let mut d: Vec<Square> = Vec::new();
        let mut i: usize = 0;
        while i < c.len()
            invariant
                i <= c@.len(),
                all_wf(c@),
                all_wf(d@),
                sm.to.wf(),
                piece == spec_piece_of(sm.piece_type, self.active_color),
                reach@ == spec_reach_for(self.board, sm.piece_type, sm.to, capture, self.active_color),
                d@ == c@.subrange(0, i as int).filter(reach_pred(*self, *sm, capture)),
            decreases c@.len() - i,
        {
            let s = c[i];
            proof {
                reveal(Seq::filter);
                assert(c@.subrange(0, i + 1).drop_last() =~= c@.subrange(0, i as int));
            }
            if contains_square(&reach, &s) && self.valid_move(&s, &sm.to, &piece, capture) {
                d.push(s);
            }
            i = i + 1;
        }
        assert(c@.subrange(0, c@.len() as int) =~= c@);
        if d.len() == 1 {
            return Ok(d[0]);
        }
        let mut e: Vec<Square> = Vec::new();
        let mut i: usize = 0;
        while i < d.len()
            invariant
                i <= d@.len(),
                all_wf(d@),
                all_wf(e@),
                sm.to.wf(),
                e@ == d@.subrange(0, i as int).filter(safe_pred(*self, *sm, capture)),
            decreases d@.len() - i,
        {
            let s = d[i];
            proof {
                reveal(Seq::filter);
                assert(d@.subrange(0, i + 1).drop_last() =~= d@.subrange(0, i as int));
            }
            let mut trial = *self;
            trial.do_move(&s, &sm.to, sm.piece_type, capture, sm.promotion);
            if trial.king_is_safe(self.active_color) {
                e.push(s);
            }
            i = i + 1;
        }
        assert(d@.subrange(0, d@.len() as int) =~= d@);
        if e.len() == 1 {
            Ok(e[0])
        } else if e.len() == 0 {
            Err(MoveError::NoLegalCandidate)
        } else {
            Err(MoveError::Ambiguous)
        }
    }

    /// Applies the move token `san_move` for the side to move. On success
    /// the position becomes the one that `spec_apply` gives and `None` comes
    /// back; on failure the position is unchanged and the error comes back.
    /// Check, mate, capture and annotation marks are not checked against the
    /// position.
    pub fn apply_move(&mut self, san_move: &str) -> (r: Option<MoveError>)
        requires
            old(self).half_move_clock < u16::MAX,
            old(self).full_move_number < u16::MAX,
        ensures
            match spec_apply(*old(self), san_move@) {
                Ok(p) => r is None && *final(self) == p,
                Err(e) => r == Some(e) && *final(self) == *old(self),
            },
    {
        let tok = crate::text::to_chars(san_move);
        let capture = contains_char(&tok, 'x');
        let m = strip_decorations(&tok);
        if is_castling(&m, 'O', false) || is_castling(&m, '0', false) {
            self.king_side_castling();
            self.next_move();
            return None;
        }
        if is_castling(&m, 'O', true) || is_castling(&m, '0', true) {
            self.queen_side_castling();
            self.next_move();
            return None;
        }
        let sm = match parse_san(&m) {
            Ok(sm) => sm,
            Err(e) => {
                return Some(e);
            },
        };
        let from = match self.select_from(&sm, capture) {
            Ok(f) => f,
            Err(e) => {
                return Some(e);
            },
        };
        self.do_move(&from, &sm.to, sm.piece_type, capture, sm.promotion);
        self.next_move();
        None
    }
}

/// The squares from which a piece of kind `t` and colour `c` reaches `s`
/// under the rule of its kind (a pawn by capturing).
pub open spec fn reach_of(b: ChessBoard, t: PieceType, s: Square, c: ChessColor) -> Seq<Square> {
    match t {
        PieceType::Pawn => pawn_reach(b, s, true, c),
        PieceType::Knight => knight_reach(s),
        PieceType::King => king_reach(s),
        PieceType::Bishop => sliding_reach(b, s, true, false),
        PieceType::Rook => sliding_reach(b, s, false, true),
        PieceType::Queen => sliding_reach(b, s, true, true),
        PieceType::Unknown => Seq::empty(),
    }
}

proof fn lemma_piece_of_kind_and_color(piece: Piece, c: ChessColor)
    requires
        spec_piece_color(piece) == Some(c),
    ensures
        piece == spec_piece_of(spec_piece_type(piece), c),
        spec_piece_type(piece) != PieceType::Unknown,
{
}

proof fn lemma_witness(b: ChessBoard, s: Square, c: ChessColor, k: PieceType)
    requires
        k != PieceType::Unknown,
        holds_piece(b, reach_of(b, k, s, c), spec_piece_of(k, c)),
    ensures
        exists|t: Square|
            spec_piece_color(#[trigger] b.at_sq(t)) == Some(c) && reach_of(b, spec_piece_type(b.at_sq(t)), s, c).contains(t),
{
    let sqs = reach_of(b, k, s, c);
    let i = choose|i: int| 0 <= i < sqs.len() && b.at_sq(sqs[i]) == spec_piece_of(k, c);
    let t = sqs[i];
    assert(spec_piece_type(b.at_sq(t)) == k);
    assert(sqs.contains(t));
}

proof fn lemma_attacker_unsafe(b: ChessBoard, s: Square, c: ChessColor, t: Square)
    requires
        spec_piece_color(b.at_sq(t)) == Some(c),
        reach_of(b, spec_piece_type(b.at_sq(t)), s, c).contains(t),
    ensures
        !spec_is_safe(b, s, c),
{
    let kind = spec_piece_type(b.at_sq(t));
    lemma_piece_of_kind_and_color(b.at_sq(t), c);
    let sqs = reach_of(b, kind, s, c);
    let i = choose|i: int| 0 <= i < sqs.len() && sqs[i] == t;
    assert(holds_piece(b, sqs, spec_piece_of(kind, c)));
}

/// A square is unsafe for the side that does not attack exactly when some
/// piece of the attacking colour stands on a square from which the rule of
/// its kind reaches it.
pub proof fn lemma_is_safe_iff_unattacked(b: ChessBoard, s: Square, c: ChessColor)
    ensures
        !spec_is_safe(b, s, c) <==> exists|t: Square|
            spec_piece_color(#[trigger] b.at_sq(t)) == Some(c) && reach_of(b, spec_piece_type(b.at_sq(t)), s, c).contains(t),
{
    if !spec_is_safe(b, s, c) {
        if holds_piece(b, reach_of(b, PieceType::Pawn, s, c), spec_piece_of(PieceType::Pawn, c)) {
            lemma_witness(b, s, c, PieceType::Pawn);
        } else if holds_piece(b, reach_of(b, PieceType::Knight, s, c), spec_piece_of(PieceType::Knight, c)) {
            lemma_witness(b, s, c, PieceType::Knight);
        } else if holds_piece(b, reach_of(b, PieceType::King, s, c), spec_piece_of(PieceType::King, c)) {
            lemma_witness(b, s, c, PieceType::King);
        } else if holds_piece(b, reach_of(b, PieceType::Bishop, s, c), spec_piece_of(PieceType::Bishop, c)) {
            lemma_witness(b, s, c, PieceType::Bishop);
        } else if holds_piece(b, reach_of(b, PieceType::Rook, s, c), spec_piece_of(PieceType::Rook, c)) {
            lemma_witness(b, s, c, PieceType::Rook);
        } else {
            lemma_witness(b, s, c, PieceType::Queen);
        }
    }
    if exists|t: Square| spec_piece_color(#[trigger] b.at_sq(t)) == Some(c) && reach_of(b, spec_piece_type(b.at_sq(t)), s, c).contains(t) {
        let t = choose|t: Square| spec_piece_color(#[trigger] b.at_sq(t)) == Some(c) && reach_of(b, spec_piece_type(b.at_sq(t)), s, c).contains(t);
        lemma_attacker_unsafe(b, s, c, t);
    }
}

/// A pawn's double step makes the square it passed over the en-passant
/// target; a pawn capture of the other side onto that target then empties
/// the square the double-stepping pawn stands on, one rank behind the target,
/// and puts the capturing piece on the target.
pub proof fn lemma_en_passant(p: ChessPosition, from: Square, to: Square, capturer: Square)
    requires
        from.wf(),
        to.wf(),
        capturer.wf(),
        from.file == to.file,
        to.rank - from.rank == -2 * pawn_back(p.active_color),
        capturer != to,
        capturer.file != from.file || capturer.rank != (from.rank + to.rank) / 2,
    ensures
        ({
            let q = spec_next_turn(spec_do_move(p, from, to, PieceType::Pawn, false, None));
            let target = sq(from.file as int, (from.rank + to.rank) / 2);
            let r = spec_do_move(q, capturer, target, PieceType::Pawn, true, None);
            &&& q.en_passant_target_square == Some(target)
            &&& target.rank + pawn_back(q.active_color) == to.rank
            &&& target.file == to.file
            &&& r.board.at_sq(to) == Piece::Empty
            &&& r.board.at_sq(target) == q.board.at_sq(capturer)
            &&& r.board.at_sq(capturer) == Piece::Empty
        }),
{
    let q1 = spec_do_move(p, from, to, PieceType::Pawn, false, None);
    let q = spec_next_turn(q1);
    let target = sq(from.file as int, (from.rank + to.rank) / 2);
    assert(target.wf());
    assert(q1.en_passant_target_square == Some(target));
    assert(q.en_passant_target_square == Some(target));
    assert(target.rank + pawn_back(q.active_color) == to.rank);
    let b1 = moved(q.board, capturer, target);
    let it = index_of(target.file as int, target.rank as int);
    let ic = index_of(capturer.file as int, capturer.rank as int);
    let io = index_of(to.file as int, to.rank as int);
    assert(it != ic && it != io && ic != io);
    assert(b1.pieces@[it] == q.board.pieces@[ic]);
    assert(b1.pieces@[ic] == Piece::Empty);
    let r = spec_do_move(q, capturer, target, PieceType::Pawn, true, None);
    assert(r.board == set_at(b1, to.file as int, to.rank as int, Piece::Empty));
    assert(r.board.pieces@[io] == Piece::Empty);
    assert(r.board.pieces@[it] == q.board.pieces@[ic]);
    assert(r.board.pieces@[ic] == Piece::Empty);
}

/// For a move token that is not castling and applies: the en-passant
/// target afterwards is the square passed over when the move was a pawn's
/// double step, and none otherwise; and a pawn capture onto the en-passant
/// target empties the square one rank behind it as seen by the mover (where
/// the captured pawn stands), puts the capturing pawn on the target, and
/// empties its origin.
pub proof fn lemma_apply_en_passant(p: ChessPosition, tok: Seq<char>)
    requires
        spec_apply(p, tok) is Ok,
        ({
            let m = tok.filter(not_decoration());
            !(m == seq!['O', '-', 'O'] || m == seq!['0', '-', '0'] || m == seq!['O', '-', 'O', '-', 'O'] || m
                == seq!['0', '-', '0', '-', '0'])
        }),
    ensures
        ({
            let m = tok.filter(not_decoration());
            let capture = tok.contains('x');
            let sm = spec_parse_san(m)->Ok_0;
            let from = spec_select(p, sm, capture)->Ok_0;
            let q = spec_apply(p, tok)->Ok_0;
            let to = sm.to;
            let behind = sq(to.file as int, to.rank + pawn_back(p.active_color));
            &&& q.en_passant_target_square == if is_double_step(sm.piece_type, from, to) {
                Some(sq(from.file as int, (from.rank + to.rank) / 2))
            } else {
                None
            }
            &&& (capture && sm.piece_type == PieceType::Pawn && p.en_passant_target_square == Some(to)
                && sm.promotion is None && from.wf() && to.wf() && behind.wf() && from != to && from != behind)
                ==> {
                &&& q.board.at_sq(behind) == Piece::Empty
                &&& q.board.at_sq(to) == p.board.at_sq(from)
                &&& q.board.at_sq(from) == Piece::Empty
            }
        }),
{
    let m = tok.filter(not_decoration());
    let capture = tok.contains('x');
    let sm = spec_parse_san(m)->Ok_0;
    let from = spec_select(p, sm, capture)->Ok_0;
    let to = sm.to;
    let behind = sq(to.file as int, to.rank + pawn_back(p.active_color));
    if capture && sm.piece_type == PieceType::Pawn && p.en_passant_target_square == Some(to) && sm.promotion is None
        && from.wf() && to.wf() && behind.wf() && from != to && from != behind {
        let it = index_of(to.file as int, to.rank as int);
        let f = index_of(from.file as int, from.rank as int);
        let ib = index_of(behind.file as int, behind.rank as int);
        assert(it != f && it != ib && f != ib);
        let b1 = moved(p.board, from, to);
        assert(b1.pieces@[it] == p.board.pieces@[f]);
        assert(b1.pieces@[f] == Piece::Empty);
    }
}

/// For a move token that is not castling and applies: the piece on the
/// chosen origin goes to the destination and leaves its origin empty, and
/// when the narrowing by file or rank leaves a single piece, that piece is
/// the one that moves.
pub proof fn lemma_apply_moves_chosen(p: ChessPosition, tok: Seq<char>)
    requires
        spec_apply(p, tok) is Ok,
        ({
            let m = tok.filter(not_decoration());
            !(m == seq!['O', '-', 'O'] || m == seq!['0', '-', '0'] || m == seq!['O', '-', 'O', '-', 'O'] || m
                == seq!['0', '-', '0', '-', '0'])
        }),
    ensures
        ({
            let m = tok.filter(not_decoration());
            let capture = tok.contains('x');
            let sm = spec_parse_san(m)->Ok_0;
            let from = spec_select(p, sm, capture)->Ok_0;
            let q = spec_apply(p, tok)->Ok_0;
            let piece = spec_piece_of(sm.piece_type, p.active_color);
            let c = squares_with(p.board, piece, 64).filter(narrow_pred(sm));
            &&& (sm.from is None && c.len() == 1 ==> from == c[0])
            &&& (sm.promotion is None && from.wf() && sm.to.wf() && from != sm.to && !(capture && sm.piece_type
                == PieceType::Pawn && p.en_passant_target_square == Some(sm.to)) ==> q.board.at_sq(sm.to)
                == p.board.at_sq(from) && q.board.at_sq(from) == Piece::Empty)
        }),
{
    let m = tok.filter(not_decoration());
    let capture = tok.contains('x');
    let sm = spec_parse_san(m)->Ok_0;
    let from = spec_select(p, sm, capture)->Ok_0;
    if from.wf() && sm.to.wf() && from != sm.to {
        let it = index_of(sm.to.file as int, sm.to.rank as int);
        let f = index_of(from.file as int, from.rank as int);
        assert(it != f);
        let b1 = moved(p.board, from, sm.to);
        assert(b1.pieces@[it] == p.board.pieces@[f]);
        assert(b1.pieces@[f] == Piece::Empty);
    }
}

/// How an origin is chosen: a token that gives it whole gets it; otherwise
/// the chosen square is among the pieces of the moving kind and colour that
/// agree with the narrowing; and when neither the narrowing nor reachability
/// leaves a single candidate, a square is chosen exactly when a single one
/// leaves its own king safe, and that one is chosen.
pub proof fn lemma_select(p: ChessPosition, sm: SanMove, capture: bool)
    ensures
        sm.from matches Some(f) ==> spec_select(p, sm, capture) == Ok::<Square, MoveError>(f),
        ({
            let piece = spec_piece_of(sm.piece_type, p.active_color);
            let c = squares_with(p.board, piece, 64).filter(narrow_pred(sm));
            let d = c.filter(reach_pred(p, sm, capture));
            let e = d.filter(safe_pred(p, sm, capture));
            &&& sm.from is None ==> (spec_select(p, sm, capture) matches Ok(s) ==> c.contains(s) && narrows(sm, s))
            &&& sm.from is None && c.len() != 1 && d.len() != 1 ==> {
                &&& (spec_select(p, sm, capture) is Ok <==> e.len() == 1)
                &&& (spec_select(p, sm, capture) matches Ok(s) ==> king_safe(
                    spec_do_move(p, s, sm.to, sm.piece_type, capture, sm.promotion),
                    p.active_color,
                ))
                &&& (e.len() == 0 ==> spec_select(p, sm, capture) == Err::<Square, MoveError>(MoveError::NoLegalCandidate))
                &&& (e.len() > 1 ==> spec_select(p, sm, capture) == Err::<Square, MoveError>(MoveError::Ambiguous))
            }
        }),
{
    broadcast use vstd::seq_lib::group_filter_ensures;

    let piece = spec_piece_of(sm.piece_type, p.active_color);
    let c = squares_with(p.board, piece, 64).filter(narrow_pred(sm));
    let d = c.filter(reach_pred(p, sm, capture));
    let e = d.filter(safe_pred(p, sm, capture));
    if sm.from is None {
        if c.len() == 1 {
            assert(c.contains(c[0]));
            assert(narrow_pred(sm)(c[0]));
        } else if d.len() == 1 {
            assert(d.contains(d[0]));
            c.lemma_filter_contains_rev(reach_pred(p, sm, capture), d[0]);
            assert(narrow_pred(sm)(d[0])) by {
                let j = choose|j: int| 0 <= j < c.len() && c[j] == d[0];
            }
        } else if e.len() == 1 {
            assert(e.contains(e[0]));
            assert(safe_pred(p, sm, capture)(e[0]));
            d.lemma_filter_contains_rev(safe_pred(p, sm, capture), e[0]);
            c.lemma_filter_contains_rev(reach_pred(p, sm, capture), e[0]);
            assert(narrow_pred(sm)(e[0])) by {
                let j = choose|j: int| 0 <= j < c.len() && c[j] == e[0];
            }
        }
    }
}

/// The cells of `rank` from file a to file `n`, each as its letter and `|`.
pub open spec fn cells_text(b: ChessBoard, rank: int, n: int) -> Seq<char>
    decreases n,
{
    if n <= 0 {
        Seq::empty()
    } else {
        cells_text(b, rank, n - 1) + seq![spec_piece_to_char(b.at(n, rank)), '|']
    }
}

/// The rule line drawn between ranks.
pub open spec fn rule_text() -> Seq<char> {
    "-----------------\n"@
}

/// The first `k` ranks from rank 8 down, each as a rule line and a row.
pub open spec fn rows_text(b: ChessBoard, k: int) -> Seq<char>
    decreases k,
{
    if k <= 0 {
        Seq::empty()
    } else {
        rows_text(b, k - 1) + rule_text() + seq!['|'] + cells_text(b, 9 - k, 8) + seq!['\n']
    }
}

/// The board drawn as text, rank 8 at the top.
pub open spec fn board_text(b: ChessBoard) -> Seq<char> {
    rows_text(b, 8) + rule_text()
}

impl ChessBoard {
    fn write_text(&self, out: &mut Vec<char>)
        ensures
            final(out)@ == old(out)@ + board_text(*self),
    {
        let rule = crate::text::to_chars("-----------------\n");
        let mut k: usize = 0;
        while k < 8
            invariant
                k <= 8,
                rule@ == rule_text(),
                out@ == old(out)@ + rows_text(*self, k as int),
            decreases 8 - k,
        {
            let ghost before = out@;
            crate::text::push_chars(out, &rule);
            out.push('|');
            let rank: u8 = 8 - k as u8;
            let ghost mid = out@;
            let mut f: u8 = 1;
            while f <= 8
                invariant
                    1 <= f <= 9,
                    rank == 8 - k,
                    1 <= rank <= 8,
                    out@ == mid + cells_text(*self, rank as int, f - 1),
                decreases 9 - f,
            {
                out.push(piece_to_char(self.get_piece(f, rank)));
                out.push('|');
                f = f + 1;
            }
            out.push('\n');
            assert(out@ =~= before + rule_text() + seq!['|'] + cells_text(*self, 9 - (k + 1), 8) + seq!['\n']);
            k = k + 1;
        }
        crate::text::push_chars(out, &rule);
    }

    /// The board drawn as text, rank 8 at the top.
    pub fn to_string(&self) -> (r: String)
        ensures
            r@ == board_text(*self),
    {
        let mut out: Vec<char> = Vec::new();
        self.write_text(&mut out);
        assert(out@ =~= board_text(*self));
        crate::text::from_chars(&out)
    }
}

impl ChessPosition {
    /// The side to move on one line, then the board.
    pub fn to_string(&self) -> (r: String)
        ensures
            r@ == (if self.active_color == ChessColor::White {
                "White to move\n"@
            } else {
                "Black to move\n"@
            }) + board_text(self.board),
    {
        let mut out = match self.active_color {
            ChessColor::White => crate::text::to_chars("White to move\n"),
            ChessColor::Black => crate::text::to_chars("Black to move\n"),
        };
        self.board.write_text(&mut out);
        crate::text::from_chars(&out)
    }
}

} // verus!
