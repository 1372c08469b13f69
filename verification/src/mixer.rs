//! Per-block sample accumulator: cleared before every block, added into by
//! each voice, then copied out. No state survives a block.

use vstd::prelude::*;

verus! {

/// A block-sized accumulation buffer of Q15 samples.
pub struct Mixer {
    pub buf: Vec<i64>,
}

impl Mixer {
    pub fn new() -> (m: Mixer)
        ensures
            m.buf@.len() == 0,
    {
        Mixer { buf: Vec::new() }
    }

    /// Reset the buffer to `n` zeros.
    pub fn clear(&mut self, n: usize)
        ensures
            final(self).buf@.len() == n,
            forall|i: int| 0 <= i < n ==> final(self).buf@[i] == 0,
    {
        let mut b: Vec<i64> = Vec::new();
        while b.len() < n
            invariant
                b@.len() <= n,
                forall|i: int| 0 <= i < b@.len() ==> b@[i] == 0,
            decreases n - b@.len(),
        {
            b.push(0);
        }
        self.buf = b;
    }

    /// Accumulate `s` into slot `i`.
    pub fn add(&mut self, i: usize, s: i64)
        requires
            i < old(self).buf@.len(),
            i64::MIN <= old(self).buf@[i as int] + s <= i64::MAX,
        ensures
            final(self).buf@ == old(self).buf@.update(i as int, (old(self).buf@[i as int] + s) as i64),
    {
        let cur = self.buf[i];
        self.buf[i] = cur + s;
    }

    /// The accumulated block.
    pub fn output(&self) -> (r: &Vec<i64>)
        ensures
            r@ == self.buf@,
    {
        &self.buf
    }
}

} // verus!
