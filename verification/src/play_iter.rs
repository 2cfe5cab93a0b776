use vstd::prelude::*;

verus! {

/// Highest play iteration.
pub const MAX_ITER: u8 = 5;

/// Which pass through repeated music is meant (1 ..= 5).
#[derive(Clone, Copy, Debug, PartialEq, Structural, Eq)]
pub struct PlayIter {
    iter: u8,
}

impl View for PlayIter {
    type V = int;

    closed spec fn view(&self) -> int {
        self.iter as int
    }
}

impl PlayIter {
    #[verifier::type_invariant]
    closed spec fn inv(self) -> bool {
        1 <= self.iter <= MAX_ITER
    }

    /// The pass of the given number clamped into 1 ..= 5.
    pub fn new(iter: u8) -> (r: PlayIter)
        ensures
            r@ == if iter < 1 { 1 } else if MAX_ITER < iter { MAX_ITER as int } else { iter as int },
    {
        let iter = if iter < 1 { 1 } else { iter };
        let iter = if MAX_ITER < iter { MAX_ITER } else { iter };
        PlayIter { iter }
    }

    pub fn iter(self) -> (r: u8)
        ensures
            r == self@,
            1 <= r <= MAX_ITER,
    {
        proof { use_type_invariant(&self); }
        self.iter
    }

    /// Sets the pass when it lies in 1 ..= 5 and tells whether it did.
    pub fn set_iter(&mut self, current_iter: u8) -> (r: bool)
        ensures
            r == (0 < current_iter <= MAX_ITER),
            r ==> final(self)@ == current_iter,
            !r ==> *final(self) == *old(self),
    {
        if 0 < current_iter && current_iter <= MAX_ITER {
            self.iter = current_iter;
            true
        } else {
            false
        }
    }
}

impl Default for PlayIter {
    fn default() -> (r: PlayIter)
        ensures
            r@ == 1,
    {
        PlayIter { iter: 1 }
    }
}

} // verus!
