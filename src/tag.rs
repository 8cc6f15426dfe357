use vstd::prelude::*;

verus! {

/// The tag keys of the archive format that the library knows; other keys
/// are kept as they are.
#[derive(Debug, Clone, Copy, PartialEq, Eq, Structural, Hash)]
pub enum Tag {
    Event,
    Site,
    Date,
    Round,
    White,
    Black,
    Result,
    Annotator,
    PlyCount,
    TimeControl,
    Time,
    Termination,
    Mode,
    FEN,
    SetUp,
    ECO,
}

/// Whether the tag belongs to the seven that every game should have.
pub fn mandatory_tag(tag: Tag) -> (r: bool)
    ensures
        r == (tag == Tag::Event || tag == Tag::Site || tag == Tag::Date || tag == Tag::Round || tag == Tag::White
            || tag == Tag::Black || tag == Tag::Result),
{
    tag == Tag::Event || tag == Tag::Site || tag == Tag::Date || tag == Tag::Round || tag == Tag::White || tag
        == Tag::Black || tag == Tag::Result
}

} // verus!
