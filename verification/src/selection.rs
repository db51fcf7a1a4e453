use vstd::prelude::*;

verus! {

/// One cursor range of a selection: an anchor offset and a head offset,
/// equal when the range is collapsed, plus a rendering hint that plays no
/// part in any edit decision.
#[derive(Debug, Clone, Copy, PartialEq, Eq)]
pub struct Range {
    pub anchor: usize,
    pub head: usize,
    pub old_visual_position: Option<(u32, u32)>,
}

impl Range {
    /// The span of the range, as an unsigned distance between its ends.
    pub open spec fn spec_len(self) -> int {
        if self.anchor >= self.head {
            self.anchor - self.head
        } else {
            self.head - self.anchor
        }
    }

    /// A collapsed range at one offset, with no rendering hint.
    pub fn point(offset: usize) -> (r: Range)
        ensures
            r.anchor == offset,
            r.head == offset,
            r.old_visual_position is None,
    {
        Range { anchor: offset, head: offset, old_visual_position: None }
    }

    /// A range between two offsets, with no rendering hint.
    pub fn new(anchor: usize, head: usize) -> (r: Range)
        ensures
            r.anchor == anchor,
            r.head == head,
            r.old_visual_position is None,
    {
        Range { anchor, head, old_visual_position: None }
    }

    /// The caret offset of the range: for a collapsed range the single
    /// offset, otherwise the active end (the head).
    pub fn cursor(&self) -> (c: usize)
        ensures
            c == self.head,
    {
        self.head
    }

    pub fn len(&self) -> (l: usize)
        ensures
            l == self.spec_len(),
    {
        if self.anchor >= self.head {
            self.anchor - self.head
        } else {
            self.head - self.anchor
        }
    }
}

/// An ordered sequence of cursor ranges; the order of the ranges is the
/// order in which their changes appear in a built transaction.
#[derive(Debug, Clone, PartialEq, Eq)]
pub struct Selection {
    pub ranges: Vec<Range>,
}

impl Selection {
    /// A selection of exactly one collapsed range.
    pub fn single(offset: usize) -> (s: Selection)
        ensures
            s.ranges@.len() == 1,
            s.ranges@[0].head == offset,
            s.ranges@[0].anchor == offset,
    {
        let mut ranges: Vec<Range> = Vec::new();
        ranges.push(Range::point(offset));
        Selection { ranges }
    }

    /// A selection made of the given ranges, kept in the given order.
    pub fn from_ranges(ranges: Vec<Range>) -> (s: Selection)
        ensures
            s.ranges@ == ranges@,
    {
        Selection { ranges }
    }

    /// True when every range's ends lie within a document of `text_len`
    /// characters; the engine trusts the editor to hand it only such
    /// selections.
    pub open spec fn in_bounds(self, text_len: int) -> bool {
        forall|i: int|
            0 <= i < self.ranges@.len() ==> (#[trigger] self.ranges@[i]).head <= text_len
                && self.ranges@[i].anchor <= text_len
    }
}

} // verus!
