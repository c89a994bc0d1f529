//! Frame advance for the animated ray tiles: a sprite cycles through a
//! fixed index range, wrapping from the last frame back to the first.
use vstd::prelude::*;

verus! {

/// The frame range of one animated sprite sheet.
#[derive(Clone, Copy, PartialEq, Eq, Structural, Debug)]
pub struct AnimationIndex {
    pub first: usize,
    pub last: usize,
}

impl AnimationIndex {
    /// The frame shown after `current` once the animation timer fires:
    /// the next index, wrapping from the last frame back to the first.
    pub fn next_frame(&self, current: usize) -> (n: usize)
        requires
            current == self.last || current < usize::MAX,
        ensures
            n == if current == self.last { self.first as int } else { current + 1 },
    {
        if current == self.last {
            self.first
        } else {
            current + 1
        }
    }
}

} // verus!
