use crate::bitfield::{le_val, lemma_le_val_unfold_at};
use vstd::prelude::*;

verus! {

/// A byte of the sequence, or zero where the sequence has ended.
pub open spec fn byte_or_zero(s: Seq<u8>, i: int) -> nat {
    if 0 <= i < s.len() {
        s[i] as nat
    } else {
        0
    }
}

/// How many of the leading bytes of the stream feed the 32-bit word: all of
/// them, up to four.
pub open spec fn word_prefix_len(s: Seq<u8>) -> int {
    if s.len() < 4 {
        s.len() as int
    } else {
        4
    }
}

/// A sequence of up to four bytes, read little-endian, is the weighted sum
/// of its bytes, with missing bytes read as zero.
proof fn lemma_le_val_up_to_4(s: Seq<u8>)
    requires
        s.len() <= 4,
    ensures
        le_val(s) == byte_or_zero(s, 0) + 256 * byte_or_zero(s, 1) + 65536 * byte_or_zero(s, 2)
            + 16777216 * byte_or_zero(s, 3),
    decreases s.len(),
{
    if s.len() == 0 {
    } else {
        assert(s.skip(0) =~= s);
        lemma_le_val_unfold_at(s, 0);
        lemma_le_val_up_to_4(s.skip(1));
        assert(forall|i: int| 0 <= i < 3 ==> byte_or_zero(s.skip(1), i) == byte_or_zero(s, i + 1));
        assert(byte_or_zero(s.skip(1), 3) == 0);
    }
}

/// Read the first four bytes of the stream as one little-endian 32-bit word;
/// a shorter stream is read as if padded with zero bytes.
pub fn get_u32_from_bytes(byte_stream: &[u8]) -> (r: u32)
    ensures
        r as nat == le_val(byte_stream@.take(word_prefix_len(byte_stream@))),
{
    let n = byte_stream.len();
    let b0: u8 = if n > 0 {
        byte_stream[0]
    } else {
        0
    };
    let b1: u8 = if n > 1 {
        byte_stream[1]
    } else {
        0
    };
    let b2: u8 = if n > 2 {
        byte_stream[2]
    } else {
        0
    };
    let b3: u8 = if n > 3 {
        byte_stream[3]
    } else {
        0
    };
    let r = (b0 as u32) | ((b1 as u32) << 8) | ((b2 as u32) << 16) | ((b3 as u32) << 24);
    proof {
        let t = byte_stream@.take(word_prefix_len(byte_stream@));
        lemma_le_val_up_to_4(t);
        assert(r == b0 as u32 + 256 * (b1 as u32) + 65536 * (b2 as u32) + 16777216 * (
        b3 as u32)) by (bit_vector)
            requires
                r == (b0 as u32) | ((b1 as u32) << 8) | ((b2 as u32) << 16) | ((b3 as u32) << 24),
        ;
    }
    r
}

} // verus!
