//! Nibble and most-significant-bit helpers over single bytes.

use vstd::prelude::*;

verus! {

/// High nibble of a byte: the status class of a MIDI status byte.
pub fn msb(target: u8) -> (r: u8)
    ensures
        r == target / 16,
        r < 16,
{
    proof {
        assert(target >> 4 == target / 16 && target >> 4 < 16) by (bit_vector);
    }
    target >> 4
}

/// Low nibble of a byte: the channel of a MIDI channel-voice status byte.
pub fn lsb(target: u8) -> (r: u8)
    ensures
        r == target % 16,
        r < 16,
{
    proof {
        assert(target & 0b1111 == target % 16 && target & 0b1111 < 16) by (bit_vector);
    }
    target & 0b1111
}

/// Whether bit 7 is set: status bytes have it, data bytes do not.
pub fn msb_set(target: u8) -> (r: bool)
    ensures
        r <==> target >= 128,
{
    proof {
        assert((target >> 7) == 1 <==> target >= 128) by (bit_vector);
    }
    (target >> 7) == 1
}

} // verus!
