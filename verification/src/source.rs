//! Unpacking a byte payload into its logical bit stream.

use vstd::prelude::*;
use crate::bits::{bits_of, bits_of_bytes};
use crate::stream::BitStream;

verus! {

/// Unpacks a byte sequence into bits, least-significant bit of each byte
/// first, advancing to the next byte only once all eight bits of the
/// current one have been yielded.
///
/// `current_byte` holds the not-yet-yielded bits of the byte in hand, shifted
/// down so that the next bit to yield is its lowest; `current_index` counts
/// how many bits of that byte have already been yielded.
pub struct LittleEndianBytesToBits {
    bytes: Vec<u8>,
    byte_pos: usize,
    current_index: u8,
    current_byte: u8,
}

impl LittleEndianBytesToBits {
    pub fn from(bytes: Vec<u8>) -> (r: Self)
        ensures
            r.wf(),
            r.bits() == bits_of_bytes(bytes@),
    {
        let r = LittleEndianBytesToBits { bytes, byte_pos: 0, current_index: 8, current_byte: 0 };
        proof {
            assert(r.bytes@.skip(0) =~= r.bytes@);
            assert(r.bits() =~= bits_of_bytes(r.bytes@));
        }
        r
    }
}

impl BitStream for LittleEndianBytesToBits {
    closed spec fn bits(&self) -> Seq<bool> {
        bits_of(self.current_byte as nat, (8 - self.current_index) as nat)
            + bits_of_bytes(self.bytes@.skip(self.byte_pos as int))
    }

    closed spec fn wf(&self) -> bool {
        self.current_index <= 8 && self.byte_pos <= self.bytes@.len()
    }

    fn next(&mut self) -> (r: Option<bool>) {
        if self.current_index < 8 {
            let b = self.current_byte % 2 == 1;
            self.current_byte = self.current_byte / 2;
            self.current_index = self.current_index + 1;
            proof {
                assert(self.bits() =~= old(self).bits().drop_first());
            }
            Some(b)
        } else if self.byte_pos < self.bytes.len() {
            let byte = self.bytes[self.byte_pos];
            self.byte_pos = self.byte_pos + 1;
            self.current_byte = byte / 2;
            self.current_index = 1;
            proof {
                let tail = old(self).bytes@.skip(old(self).byte_pos as int);
                assert(tail[0] == byte);
                assert(tail.drop_first() =~= self.bytes@.skip(self.byte_pos as int));
                assert(old(self).bits() =~= bits_of(byte as nat, 8) + bits_of_bytes(tail.drop_first()));
                assert(self.bits() =~= old(self).bits().drop_first());
            }
            Some(byte % 2 == 1)
        } else {
            proof {
                assert(self.bytes@.skip(self.byte_pos as int) =~= Seq::<u8>::empty());
            }
            None
        }
    }
}

} // verus!
