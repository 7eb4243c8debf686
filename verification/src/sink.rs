//! Packing the physical bit stream back into bytes.

use vstd::prelude::*;
use vstd::arithmetic::power2::{lemma_pow2_strictly_increases, lemma2_to64};
use crate::bits::{pack_bits, value_of_bits, lemma_value_of_bits_bound};
use crate::stream::BitStream;

verus! {

/// Packs the bits pulled from `inner` into bytes, least-significant bit
/// first. A trailing group of fewer than eight bits still yields a byte,
/// its unfilled high positions zero; exhaustion on a byte boundary yields
/// no extra byte.
pub struct BitsToLittleEndianBytes<S> {
    inner: S,
}

impl<S: BitStream> BitsToLittleEndianBytes<S> {
    /// The bytes this stage will still yield.
    pub closed spec fn bytes(&self) -> Seq<u8> {
        pack_bits(self.inner.bits())
    }

    pub closed spec fn wf(&self) -> bool {
        self.inner.wf()
    }

    pub fn from(inner: S) -> (r: Self)
        ensures
            inner.wf() ==> r.wf(),
            r.bytes() == pack_bits(inner.bits()),
    {
        BitsToLittleEndianBytes { inner }
    }

    /// Yield the next packed byte, or `None` once and only once the
    /// upstream stream is exhausted on a byte boundary.
    pub fn next(&mut self) -> (r: Option<u8>)
        requires
            old(self).wf(),
        ensures
            final(self).wf(),
            match r {
                Some(byte) => old(self).bytes().len() > 0 && byte == old(self).bytes()[0]
                    && final(self).bytes() == old(self).bytes().drop_first(),
                None => old(self).bytes().len() == 0 && final(self).bytes() == old(self).bytes(),
            },
    {
        let ghost orig = self.inner.bits();
        let mut got: Vec<bool> = Vec::new();
        let mut done: bool = false;
        while got.len() < 8 && !done
            invariant
                self.wf(),
                got@.len() <= 8,
                got@.len() <= orig.len(),
                got@ == orig.take(got@.len() as int),
                self.inner.bits() == orig.skip(got@.len() as int),
                done ==> got@.len() == orig.len(),
            decreases 8 - got.len(), (if done { 0int } else { 1int }),
        {
            let ghost k = got@.len() as int;
            let ghost pre = self.inner.bits();
            match self.inner.next() {
                Some(b) => {
                    proof {
                        assert(b == orig.skip(k)[0]);
                        assert(got@.push(b) =~= orig.take(k + 1));
                        assert(pre.drop_first() =~= orig.skip(k + 1));
                    }
                    got.push(b);
                },
                None => {
                    done = true;
                },
            }
        }
        if got.len() == 0 {
            return None;
        }
        let n = got.len();
        let mut value: u8 = 0;
        let mut j: usize = n;
        while j > 0
            invariant
                got@.len() == n <= 8,
                j <= n,
                value as nat == value_of_bits(got@.skip(j as int)),
            decreases j,
        {
            j = j - 1;
            let bit = got[j];
            proof {
                let rest = got@.skip(j as int);
                assert(rest[0] == got@[j as int]);
                assert(rest.drop_first() =~= got@.skip(j as int + 1));
                lemma_value_of_bits_bound(rest);
                lemma_pow2_strictly_increases(rest.len(), 9);
                lemma2_to64();
            }
            value = value * 2 + (if bit { 1 } else { 0 });
        }
        proof {
            assert(got@.skip(0) =~= got@);
            if n == 8 {
                assert(old(self).bytes() == pack_bits(orig));
                assert(old(self).bytes()[0] == value_of_bits(orig.take(8)) as u8);
                assert(self.bytes() =~= old(self).bytes().drop_first());
            } else {
                assert(orig.take(n as int) =~= orig);
                assert(got@ == orig);
                assert(self.inner.bits() =~= Seq::<bool>::empty());
                assert(self.bytes() =~= old(self).bytes().drop_first());
            }
        }
        Some(value)
    }
}

} // verus!
