//! The pull-based stream contract shared by every stage of the pipeline.

use vstd::prelude::*;

verus! {

/// A finite, single-pass stream of bits, pulled one at a time.
///
/// `bits()` is the sequence the stream will still yield. A call to `next`
/// either pops the head of that sequence or, exactly when it is empty,
/// reports exhaustion and leaves the sequence empty.
pub trait BitStream: Sized {
    /// The bits this stream will still yield, in order.
    spec fn bits(&self) -> Seq<bool>;

    /// Internal well-formedness, established at construction and preserved
    /// by every pull.
    spec fn wf(&self) -> bool;

    /// Yield the next bit, or `None` once and only once the stream is
    /// exhausted.
    fn next(&mut self) -> (r: Option<bool>)
        requires
            old(self).wf(),
        ensures
            final(self).wf(),
            match r {
                Some(b) => old(self).bits().len() > 0 && b == old(self).bits()[0]
                    && final(self).bits() == old(self).bits().drop_first(),
                None => old(self).bits().len() == 0 && final(self).bits() == old(self).bits(),
            },
    ;
}

/// A bit stream read straight out of a vector of bits, front to back.
pub struct BitVecSource {
    bits: Vec<bool>,
    pos: usize,
}

impl BitVecSource {
    pub fn from(bits: Vec<bool>) -> (r: Self)
        ensures
            r.wf(),
            r.bits() == bits@,
    {
        let r = BitVecSource { bits, pos: 0 };
        proof {
            assert(r.bits() =~= r.bits@);
        }
        r
    }
}

impl BitStream for BitVecSource {
    closed spec fn bits(&self) -> Seq<bool> {
        self.bits@.skip(self.pos as int)
    }

    closed spec fn wf(&self) -> bool {
        self.pos <= self.bits@.len()
    }

    fn next(&mut self) -> (r: Option<bool>) {
        if self.pos < self.bits.len() {
            let b = self.bits[self.pos];
            self.pos = self.pos + 1;
            proof {
                assert(self.bits() =~= old(self).bits().drop_first());
            }
            Some(b)
        } else {
            None
        }
    }
}

} // verus!
