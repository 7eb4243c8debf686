//! The NRZI line encoder with bit stuffing.
//!
//! A logical "1" holds the previous physical level, a logical "0" forces a
//! transition. After six consecutive logical ones — counting the seeded one
//! left over from the synchronization field — one extra forced-transition
//! bit is stuffed into the physical stream, so a receiver always sees a
//! transition often enough to recover the clock.

use vstd::prelude::*;
use crate::stream::BitStream;

verus! {

/// The physical bit produced for logical bit `b` after physical level
/// `prev`: hold the level on a one, flip it on a zero.
pub open spec fn nrzi_level(b: bool, prev: bool) -> bool {
    b == prev
}

/// The NRZI-encoded, bit-stuffed physical stream for the logical stream
/// `bits`, entered with `ones` consecutive logical ones already counted and
/// `prev` as the last physical level driven.
///
/// A count of six emits one stuffed forced-transition bit before any further
/// logical bit is consumed — also when `bits` is already empty, so a run
/// ending the stream still gets its stuffed bit. Otherwise the stream ends
/// exactly when the logical input does.
pub open spec fn encode_bits_spec(bits: Seq<bool>, ones: nat, prev: bool) -> Seq<bool>
    decreases bits.len(), (if ones == 6 { 1int } else { 0int }),
{
    if ones == 6 {
        seq![!prev] + encode_bits_spec(bits, 0, !prev)
    } else if bits.len() == 0 {
        Seq::empty()
    } else {
        let out = nrzi_level(bits[0], prev);
        seq![out] + encode_bits_spec(bits.drop_first(), if bits[0] { ones + 1 } else { 0nat }, out)
    }
}

/// A run of `k` consecutive logical ones.
pub open spec fn ones_run(k: nat) -> Seq<bool> {
    Seq::new(k, |i: int| true)
}

/// Law: a run of logical ones that brings the count of consecutive ones —
/// counting the seeded one — to exactly six makes the encoder hold the line
/// level for each logical one of the run, then insert exactly one
/// additional physical bit that corresponds to no logical bit: a forced
/// transition, after which the run count is reset to zero and the rest of
/// the logical input is encoded as before, untouched by the insertion.
pub proof fn lemma_stuff_after_six_ones(rest: Seq<bool>, ones: nat, prev: bool, k: nat)
    requires
        ones + k == 6,
    ensures
        encode_bits_spec(ones_run(k) + rest, ones, prev) == Seq::new(k, |i: int| prev)
            + seq![!prev] + encode_bits_spec(rest, 0, !prev),
    decreases k,
{
    if k == 0 {
        assert(ones_run(0) + rest =~= rest);
        assert(Seq::new(0nat, |i: int| prev) + seq![!prev] + encode_bits_spec(rest, 0, !prev)
            =~= seq![!prev] + encode_bits_spec(rest, 0, !prev));
    } else {
        let run = ones_run(k) + rest;
        assert(run[0]);
        assert(run.drop_first() =~= ones_run((k - 1) as nat) + rest);
        lemma_stuff_after_six_ones(rest, ones + 1, prev, (k - 1) as nat);
        assert(seq![prev] + (Seq::new((k - 1) as nat, |i: int| prev) + seq![!prev]
            + encode_bits_spec(rest, 0, !prev)) =~= Seq::new(k, |i: int| prev)
            + seq![!prev] + encode_bits_spec(rest, 0, !prev));
    }
}

/// The state owned by the line encoder, seeded as if the synchronization
/// field had just ended: one logical one already counted, line at low level.
#[derive(Clone, Copy, Debug, PartialEq, Eq, Structural)]
pub struct EncoderState {
    /// Consecutive logical ones seen since the last forced transition;
    /// never observed at seven or above.
    pub consecutive_ones: u8,
    /// The last physical level emitted.
    pub previous_output_level: bool,
}

impl EncoderState {
    /// The run counter stays within the range the stuffing rule can reset:
    /// it is inspected before any input bit is consumed and must never be
    /// observed at seven or above.
    pub open spec fn wf(&self) -> bool {
        self.consecutive_ones <= 6
    }

    /// The state at the start of a stream: the synchronization field ends
    /// with an encoded one at low level.
    pub fn initial() -> (r: Self)
        ensures
            r.consecutive_ones == 1,
            !r.previous_output_level,
            r.wf(),
    {
        EncoderState { consecutive_ones: 1, previous_output_level: false }
    }

    /// One ordinary step: consume logical bit `b` and emit its physical
    /// level. The emitted bit and the recorded level stay in lock-step.
    pub fn encode_bit(&mut self, b: bool) -> (out: bool)
        requires
            old(self).consecutive_ones < 6,
        ensures
            out == nrzi_level(b, old(self).previous_output_level),
            final(self).previous_output_level == out,
            final(self).consecutive_ones
                == (if b { old(self).consecutive_ones + 1 } else { 0int }),
            final(self).wf(),
    {
        let out = !(b ^ self.previous_output_level);
        self.consecutive_ones = if b { self.consecutive_ones + 1 } else { 0 };
        self.previous_output_level = out;
        out
    }

    /// One stuffed step: consume nothing, force a transition, reset the run
    /// counter. The emitted bit and the recorded level stay in lock-step.
    pub fn stuff_bit(&mut self) -> (out: bool)
        requires
            old(self).consecutive_ones == 6,
        ensures
            out == !old(self).previous_output_level,
            final(self).previous_output_level == out,
            final(self).consecutive_ones == 0,
            final(self).wf(),
    {
        let out = !self.previous_output_level;
        self.consecutive_ones = 0;
        self.previous_output_level = out;
        out
    }
}

/// The encoding stage: pulls logical bits from `inner` and yields the
/// physical stream.
pub struct UsbEncoder<S> {
    inner: S,
    state: EncoderState,
}

impl<S: BitStream> UsbEncoder<S> {
    pub fn from(inner: S) -> (r: Self)
        ensures
            inner.wf() ==> r.wf(),
            r.bits() == encode_bits_spec(inner.bits(), 1, false),
    {
        UsbEncoder { inner, state: EncoderState::initial() }
    }
}

impl<S: BitStream> BitStream for UsbEncoder<S> {
    closed spec fn bits(&self) -> Seq<bool> {
        encode_bits_spec(
            self.inner.bits(),
            self.state.consecutive_ones as nat,
            self.state.previous_output_level,
        )
    }

    closed spec fn wf(&self) -> bool {
        self.inner.wf() && self.state.wf()
    }

    fn next(&mut self) -> (r: Option<bool>) {
        if self.state.consecutive_ones == 6 {
            let out = self.state.stuff_bit();
            proof {
                assert(old(self).bits() =~= seq![out] + self.bits());
                assert(self.bits() =~= old(self).bits().drop_first());
            }
            Some(out)
        } else {
            match self.inner.next() {
                Some(b) => {
                    let out = self.state.encode_bit(b);
                    proof {
                        assert(old(self).bits() =~= seq![out] + self.bits());
                        assert(self.bits() =~= old(self).bits().drop_first());
                    }
                    Some(out)
                },
                None => None,
            }
        }
    }
}

} // verus!
