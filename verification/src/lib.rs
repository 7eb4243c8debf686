//! Streaming NRZI line encoder with bit stuffing.
//!
//! A byte payload is unpacked into bits (least-significant bit of each byte
//! first), run through an NRZI encoder that inserts a forced-transition bit
//! after every run of six consecutive logical ones, and packed back into
//! bytes. The three stages are pull-based streams sharing one
//! single-item-at-a-time contract; the sink drives the encoder, which
//! drives the source, one bit at a time.

use vstd::prelude::*;

pub mod bits;
pub mod stream;
pub mod source;
pub mod encoder;
pub mod sink;

use crate::bits::{bits_of_bytes, pack_bits};
use crate::encoder::{encode_bits_spec, UsbEncoder};
use crate::sink::BitsToLittleEndianBytes;
use crate::source::LittleEndianBytesToBits;
use crate::stream::{BitStream, BitVecSource};
use vstd::utf8::is_ascii_chars;

verus! {

/// The logical bits meant by a text of '0' and '1' characters.
pub open spec fn bits_of_chars(s: Seq<char>) -> Seq<bool> {
    s.map_values(|c: char| c == '1')
}

/// The text of '0' and '1' characters spelling a bit sequence.
pub open spec fn chars_of_bits(bits: Seq<bool>) -> Seq<char> {
    bits.map_values(|b: bool| if b { '1' } else { '0' })
}

/// The canonical filter: unpack the payload into bits, NRZI-encode with bit
/// stuffing, and pack the physical bits back into bytes.
pub fn encode(input: Vec<u8>) -> (r: Vec<u8>)
    ensures
        r@ == pack_bits(encode_bits_spec(bits_of_bytes(input@), 1, false)),
{
    let ghost input_view = input@;
    let mut sink = BitsToLittleEndianBytes::from(
        UsbEncoder::from(LittleEndianBytesToBits::from(input)),
    );
    let ghost total = sink.bytes();
    let mut out: Vec<u8> = Vec::new();
    let mut done: bool = false;
    while !done
        invariant
            sink.wf(),
            total == out@ + sink.bytes(),
            done ==> sink.bytes().len() == 0,
            total == pack_bits(encode_bits_spec(bits_of_bytes(input_view), 1, false)),
        decreases sink.bytes().len() + (if done { 0int } else { 1int }),
    {
        let ghost pre = sink.bytes();
        match sink.next() {
            Some(byte) => {
                proof {
                    assert(pre =~= seq![byte] + sink.bytes());
                    assert(out@.push(byte) + sink.bytes() =~= out@ + pre);
                }
                out.push(byte);
            },
            None => {
                done = true;
            },
        }
    }
    proof {
        assert(out@ =~= total);
    }
    out
}

/// The textual front-end over the same core: each input character names one
/// logical bit, each output character one physical bit.
pub fn encode_str(s: &str) -> (r: String)
    requires
        forall|i: int| 0 <= i < s@.len() ==> s@[i] == '0' || s@[i] == '1',
    ensures
        r@ == chars_of_bits(encode_bits_spec(bits_of_chars(s@), 1, false)),
{
    proof {
        assert(is_ascii_chars(s@));
        vstd::utf8::is_ascii_chars_encode_utf8(s@);
    }
    let text = s.as_bytes();
    let mut logical: Vec<bool> = Vec::new();
    let mut i: usize = 0;
    while i < text.len()
        invariant
            text@.len() == s@.len(),
            forall|j: int| 0 <= j < s@.len() ==> text@[j] == s@[j] as u8,
            forall|j: int| 0 <= j < s@.len() ==> s@[j] == '0' || s@[j] == '1',
            i <= s@.len(),
            logical@ == bits_of_chars(s@).take(i as int),
        decreases text@.len() - i,
    {
        let b = text[i];
        proof {
            assert((s@[i as int] == '1') == (b == 49));
            assert(logical@.push(b == 49) =~= bits_of_chars(s@).take(i as int + 1));
        }
        logical.push(b == 49);
        i = i + 1;
    }
    proof {
        assert(logical@ =~= bits_of_chars(s@));
    }
    let mut enc = UsbEncoder::from(BitVecSource::from(logical));
    let ghost total = enc.bits();
    let mut ascii: Vec<u8> = Vec::new();
    let mut done: bool = false;
    while !done
        invariant
            enc.wf(),
            ascii@.len() + enc.bits().len() == total.len(),
            enc.bits() == total.skip(ascii@.len() as int),
            forall|j: int|
                0 <= j < ascii@.len() ==> ascii@[j] == (if total[j] {
                    49u8
                } else {
                    48u8
                }),
            done ==> enc.bits().len() == 0,
        decreases enc.bits().len() + (if done { 0int } else { 1int }),
    {
        let ghost pre = enc.bits();
        match enc.next() {
            Some(bit) => {
                proof {
                    assert(pre[0] == total[ascii@.len() as int]);
                    assert(pre.drop_first() =~= total.skip(ascii@.len() as int + 1));
                }
                ascii.push(if bit { 49 } else { 48 });
            },
            None => {
                done = true;
            },
        }
    }
    let r = ascii_string(ascii);
    proof {
        assert(r@ =~= chars_of_bits(total));
    }
    r
}

/// Relies on `String::from_utf8`: bytes below 128 are single-byte UTF-8
/// sequences, so they decode to exactly the characters with the same code
/// points.
#[verifier::external_body]
fn ascii_string(bytes: Vec<u8>) -> (r: String)
    requires
        forall|i: int| 0 <= i < bytes@.len() ==> bytes@[i] < 128,
    ensures
        r@ == bytes@.map_values(|b: u8| b as char),
{
    match String::from_utf8(bytes) {
        Ok(s) => s,
        Err(_) => String::new(),
    }
}

} // verus!
