//! A normalized span of text within one text block.

use vstd::prelude::*;
use crate::ids::BlockId;

verus! {

/// Abstract value of a [`Highlight`].
pub ghost struct HighlightV {
    pub block_id: BlockId,
    pub start: u64,
    pub end: u64,
}

/// A half-open span `[start, end)` of text inside one text block.
///
/// Always normalized: `start <= end`, established at construction by
/// swapping the bounds when they are given in reverse order.  Immutable
/// once constructed.
#[derive(Clone, Copy)]
pub struct Highlight {
    block_id: BlockId,
    start: u64,
    end: u64,
}

impl View for Highlight {
    type V = HighlightV;

    closed spec fn view(&self) -> HighlightV {
        HighlightV { block_id: self.block_id, start: self.start, end: self.end }
    }
}

impl Highlight {
    #[verifier::type_invariant]
    spec fn normalized(self) -> bool {
        self.start <= self.end
    }

    /// Builds the span over `block_id`, swapping `start` and `end` when
    /// given in reverse order.
    pub fn new(block_id: BlockId, start: u64, end: u64) -> (r: Self)
        ensures
            r@.block_id == block_id,
            r@.start == if start <= end { start } else { end },
            r@.end == if start <= end { end } else { start },
            r@.start <= r@.end,
    {
        if start > end {
            Highlight { block_id, start: end, end: start }
        } else {
            Highlight { block_id, start, end }
        }
    }

    /// The number of units covered by the span.
    pub fn len(&self) -> (r: u64)
        ensures
            r == self@.end - self@.start,
            self@.start <= self@.end,
    {
        proof {
            use_type_invariant(self);
        }
        self.end - self.start
    }

    /// The span covers nothing exactly when its bounds coincide.
    pub fn is_empty(&self) -> (r: bool)
        ensures
            r == (self@.start == self@.end),
    {
        self.start == self.end
    }

    /// The text block the span lies in.
    pub fn block_id(&self) -> (r: BlockId)
        ensures
            r == self@.block_id,
    {
        self.block_id
    }

    /// The lower bound of the span.
    pub fn start(&self) -> (r: u64)
        ensures
            r == self@.start,
    {
        self.start
    }

    /// The upper bound of the span.
    pub fn end(&self) -> (r: u64)
        ensures
            r == self@.end,
            self@.start <= self@.end,
    {
        proof {
            use_type_invariant(self);
        }
        self.end
    }
}

} // verus!
