//! What the map has to be told about the world before it can draw it.

use vstd::prelude::*;

verus! {

/// The panel the paper lays out, as `_MAP:CreatePaper` does it.
///
/// The knight's own token goes at `PaperX + 5, PaperY + 5` in the frame his
/// seat names, the heading fifteen pixels right of the corner and five down,
/// and then `PaperY` takes one step of fifteen before the first line and a
/// step of six after every one of them.
pub struct Paper<'a> {
    /// The knight's name, which `InitPaper` copies out of `[si+0x4c]`.
    pub knight: &'a str,
    pub seat: usize,
    /// The numbered lines, already composed.
    pub lines: &'a [String],
}

/// What the map draws over its picture: `_MAP:DisplayLairs`'s icons, the
/// mark `MOON:CheckLairEncounter` puts on the lairs underfoot, and the
/// paper when there is more than one thing underfoot. There is no status
/// bar, no purse and no message line anywhere on it.
pub struct Marks<'a> {
    /// Every place whose pack gives it an icon frame, as `[x, y, frame]`.
    pub icons: &'a [(i32, i32, usize)],
    /// The lairs the traveller's token overlaps, which take frame 0x1f on
    /// top.
    pub marked: &'a [(i32, i32)],
    /// The paper, when there is more than one thing under your feet.
    pub paper: Option<Paper<'a>>,
}

} // verus!
