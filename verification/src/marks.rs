//! Sets of pixels with a flag on each.

use vstd::prelude::*;
use std::collections::HashMap;

verus! {

/// The number under which a pixel is filed: its two coordinates side by
/// side.  No two pixels share one.
pub open spec fn pixel_key(px: (u16, u16)) -> u32 {
    (px.0 as u32 * 65536 + px.1 as u32) as u32
}

/// A set of pixels, each with a flag: the pixels seen so far in a walk over
/// the map, flagged where they were seen a second time.
pub struct PixelMarks {
    pub marks: HashMap<u32, bool>,
}

impl View for PixelMarks {
    type V = Map<(u16, u16), bool>;

    open spec fn view(&self) -> Map<(u16, u16), bool> {
        Map::new(
            |px: (u16, u16)| self.marks@.contains_key(pixel_key(px)),
            |px: (u16, u16)| self.marks@[pixel_key(px)],
        )
    }
}

fn key_of(px: (u16, u16)) -> (key: u32)
    ensures
        key == pixel_key(px),
{
    px.0 as u32 * 65536 + px.1 as u32
}

impl PixelMarks {
    /// The empty set.
    pub fn new() -> (marks: PixelMarks)
        ensures
            marks@ == Map::<(u16, u16), bool>::empty(),
    {
        let marks = PixelMarks { marks: HashMap::new() };
        assert(marks@ =~= Map::<(u16, u16), bool>::empty());
        marks
    }

    /// Whether the set holds `px`.
    pub fn contains_key(&self, px: (u16, u16)) -> (held: bool)
        ensures
            held == self@.contains_key(px),
    {
        self.marks.contains_key(&key_of(px))
    }

    /// The flag of `px`, if the set holds it.
    pub fn get(&self, px: (u16, u16)) -> (flag: Option<bool>)
        ensures
            flag == if self@.contains_key(px) {
                Some(self@[px])
            } else {
                None
            },
    {
        match self.marks.get(&key_of(px)) {
            Some(flag) => Some(*flag),
            None => None,
        }
    }

    /// Puts `px` into the set under `flag`, in place of any flag it had.
    pub fn insert(&mut self, px: (u16, u16), flag: bool)
        ensures
            final(self)@ == old(self)@.insert(px, flag),
    {
        self.marks.insert(key_of(px), flag);
        assert(self@ =~= old(self)@.insert(px, flag)) by {
            assert forall|other: (u16, u16)| other != px implies pixel_key(other) != pixel_key(
                px,
            ) by {}
        }
    }
}

} // verus!
