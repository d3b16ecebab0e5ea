//! Wire types exchanged with the collaborators around the walk: the title
//! outliner's responses and the feed generator's configuration. The
//! library holds the bare shapes; the serialized twins live with the
//! caller.

use vstd::prelude::*;

verus! {

/// A glyph's bounding box, in font units, y growing downward.
#[derive(Debug, Clone, Copy, PartialEq, Eq, Structural)]
pub struct BBox {
    pub top: i16,
    pub bottom: i16,
    pub left: i16,
    pub right: i16,
}

/// One outlined character: its vector components (each an encoded path),
/// its bounding box and its horizontal advance.
#[derive(Debug, Clone)]
pub struct CharResp {
    pub char: char,
    pub components: Vec<String>,
    pub bbox: BBox,
    pub hadv: u16,
}

/// One segmentation group of a title: its outlined characters, its text,
/// the summed horizontal advance, and whether a line may break after it.
#[derive(Debug, Clone)]
pub struct GroupResp {
    pub chars: Vec<CharResp>,
    pub text: String,
    pub hadv: u64,
    pub break_after: bool,
}

/// An outlined title: its groups and the font's vertical metrics.
#[derive(Debug, Clone)]
pub struct TitleResp {
    pub groups: Vec<GroupResp>,
    pub asc: i16,
    pub des: i16,
    pub em: u16,
}

/// Configuration of the feed generator.
#[derive(Debug, Clone)]
pub struct FeedConfig {
    pub title: String,
    pub description: String,
    pub base: String,
    pub author: String,
}

/// The summed horizontal advance of a group's characters, the group-level
/// metric a title layout runs on.
pub open spec fn spec_group_hadv(chars: Seq<CharResp>) -> int
    decreases chars.len(),
{
    if chars.len() == 0 {
        0
    } else {
        spec_group_hadv(chars.drop_last()) + chars.last().hadv
    }
}

/// Sums the horizontal advances of a group's characters.
pub fn group_hadv(chars: &Vec<CharResp>) -> (r: u64)
    requires
        chars@.len() <= 0x0000_ffff_ffff_ffff,
    ensures
        r == spec_group_hadv(chars@),
{
    proof {
        lemma_group_hadv_bound(chars@);
    }
    let mut total: u64 = 0;
    let mut i: usize = 0;
    while i < chars.len()
        invariant
            i <= chars@.len(),
            chars@.len() <= 0x0000_ffff_ffff_ffff,
            total == spec_group_hadv(chars@.take(i as int)),
        decreases chars.len() - i,
    {
        proof {
            assert(chars@.take(i + 1 as int).drop_last() =~= chars@.take(i as int));
            assert(chars@.take(i + 1 as int).last() == chars@[i as int]);
            lemma_group_hadv_bound(chars@.take(i + 1 as int));
        }
        total = total + (chars[i].hadv as u64);
        i = i + 1;
    }
    proof {
        assert(chars@.take(chars@.len() as int) =~= chars@);
    }
    total
}

proof fn lemma_group_hadv_bound(chars: Seq<CharResp>)
    ensures
        0 <= spec_group_hadv(chars) <= chars.len() * 0x1_0000,
    decreases chars.len(),
{
    if chars.len() == 0 {
    } else {
        lemma_group_hadv_bound(chars.drop_last());
        assert((chars.len() - 1) * 0x1_0000 + 0x1_0000 == chars.len() * 0x1_0000) by (nonlinear_arith);
    }
}

} // verus!
