use vstd::prelude::*;

verus! {

/// Why a move token could not be applied to a position.
#[derive(Debug, Clone, Copy, PartialEq, Eq, Structural)]
pub enum MoveError {
    /// A file or rank outside `1..=8`, or square text that is not a letter
    /// `a..=h` followed by a digit `1..=8`.
    InvalidSquare,
    /// The disambiguating file letter or rank digit is out of bounds.
    InvalidFileOrRank,
    /// More than one candidate piece leaves its own king safe.
    Ambiguous,
    /// No candidate piece can make the move.
    NoLegalCandidate,
}

/// Why an initial-position text could not be read.
#[derive(Debug, Clone, Copy, PartialEq, Eq, Structural)]
pub enum FenError {
    /// A placement character that names no piece.
    UnknownPiece(char),
    /// The half-move clock field is not a number that fits in 16 bits.
    InvalidHalfMoveClock,
    /// The full-move number field is not a number that fits in 16 bits.
    InvalidFullMoveNumber,
}

} // verus!
