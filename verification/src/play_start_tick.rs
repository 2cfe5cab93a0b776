use vstd::prelude::*;
use crate::play_iter::PlayIter;
use crate::repeat::{AccumTick, Chunk};

verus! {

/// A place to start playing from: a tick of the score and which pass
/// through it.
#[derive(Clone, Debug, PartialEq, Copy, Structural)]
pub struct PlayStartTick {
    pub tick: u32,
    pub iter: PlayIter,
}

/// The pass asked for is not played: it holds the pass and how many passes
/// there are.
#[derive(Clone, Debug, PartialEq, Copy, Structural)]
pub enum ToAccumTickError {
    CannotFind { specified_iter: PlayIter, max_iter: u8 },
}

/// How many of the chunks hold `tick`.
pub open spec fn passes_over(chunks: Seq<(AccumTick, Chunk)>, tick: u32) -> nat
    decreases chunks.len(),
{
    if chunks.len() == 0 {
        0
    } else {
        passes_over(chunks.drop_last(), tick) + if chunks.last().1.start() <= tick < chunks.last().1.end() { 1nat } else { 0nat }
    }
}

/// Chunk `i` is where playing passes over `tick` for the `n`-th time.
pub open spec fn nth_pass(chunks: Seq<(AccumTick, Chunk)>, tick: u32, i: int, n: int) -> bool {
    &&& 0 <= i < chunks.len()
    &&& chunks[i].1.start() <= tick < chunks[i].1.end()
    &&& passes_over(chunks.take(i), tick) == n - 1
}

impl PlayStartTick {
    /// The start at `tick` in pass `iter` (clamped into 1 ..= 5).
    pub fn new(tick: u32, iter: u8) -> (r: PlayStartTick)
        ensures
            r.tick == tick,
            r.iter@ == if iter < 1 { 1 } else if 5 < iter { 5 } else { iter as int },
    {
        PlayStartTick { tick, iter: PlayIter::new(iter) }
    }

    /// Where playing is when it passes over this start's tick for the asked
    /// time, given the chunks by accumulated tick; fails with the number of
    /// passes when there are fewer.
    pub fn to_accum_tick(&self, chunks: &[(AccumTick, Chunk)]) -> (r: Result<AccumTick, ToAccumTickError>)
        requires
            forall|i: int| nth_pass(chunks@, self.tick, i, self.iter@) ==> chunks@[i].0 + self.tick <= u32::MAX,
        ensures
            match r {
                Ok(a) => exists|i: int| nth_pass(chunks@, self.tick, i, self.iter@)
                    && a == chunks@[i].0 + self.tick - chunks@[i].1.start(),
                Err(e) => (forall|i: int| !nth_pass(chunks@, self.tick, i, self.iter@))
                    && e == ToAccumTickError::CannotFind { specified_iter: self.iter, max_iter: passes_over(chunks@, self.tick) as u8 },
            },
    {
        let mut cur_iter: u8 = 1;
        let want = self.iter.iter();
        let mut k: usize = 0;
        proof { assert(chunks@.take(0) =~= Seq::<(AccumTick, Chunk)>::empty()); }
        while k < chunks.len()
            invariant
                k <= chunks.len(),
                want == self.iter@,
                1 <= want <= 5,
                cur_iter == passes_over(chunks@.take(k as int), self.tick) + 1,
                cur_iter <= want,
                forall|i: int| 0 <= i < k ==> !nth_pass(chunks@, self.tick, i, self.iter@),
                forall|i: int| nth_pass(chunks@, self.tick, i, self.iter@) ==> chunks@[i].0 + self.tick <= u32::MAX,
            decreases chunks.len() - k,
        {
            let (accum_tick, chunk) = chunks[k];
            proof {
                assert(chunks@.take(k + 1).drop_last() =~= chunks@.take(k as int));
                assert(chunks@.take(k + 1).last() == chunks@[k as int]);
            }
            if chunk.contains(self.tick) {
                if cur_iter == want {
                    proof { assert(nth_pass(chunks@, self.tick, k as int, self.iter@)); }
                    return Ok(accum_tick + self.tick - chunk.start_tick());
                }
                cur_iter = cur_iter + 1;
            }
            k = k + 1;
        }
        proof { assert(chunks@.take(chunks.len() as int) =~= chunks@); }
        Err(ToAccumTickError::CannotFind { specified_iter: self.iter, max_iter: cur_iter - 1 })
    }
}

} // verus!
