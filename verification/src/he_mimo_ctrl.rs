use crate::bandwidth::{spec_bandwidth_of_code, Bandwidth};
use crate::bitfield::{field_at, le_val, lemma_le_val_unfold_at, lemma_u64_extract};
use crate::errors::BfaExtractionError;
use vstd::arithmetic::div_mod::lemma_mod_bound;
use vstd::arithmetic::power2::{lemma2_to64, lemma_pow2_pos, pow2};
use vstd::prelude::*;

verus! {

/// The twelve sub-fields of the fixed 40-bit HE MIMO Control header, each
/// held as a plain value.
#[derive(Clone, Copy, Debug, PartialEq, Eq, Structural)]
pub struct HeMimoControl {
    pub nc_index: u8,
    pub nr_index: u8,
    pub bandwidth: Bandwidth,
    pub grouping: u8,
    pub codebook_info: u8,
    pub feedback_type: u8,
    pub remaining_feedback_segments: u8,
    pub first_feedback_segments: u8,
    pub ru_start_index: u8,
    pub ru_end_index: u8,
    pub dialog_token_number: u8,
    pub reserved_padding: u8,
}

/// A header sub-field: `width` bits starting `off` bits into the 40-bit
/// little-endian integer held by the first five bytes.
pub open spec fn spec_header_field(bytes: Seq<u8>, off: nat, width: nat) -> u8 {
    field_at(bytes.take(5), off, width) as u8
}

/// The header decoded from the first five bytes of the buffer, each field
/// taken from its fixed bit offset and width.
pub open spec fn spec_he_mimo(bytes: Seq<u8>) -> HeMimoControl {
    HeMimoControl {
        nc_index: spec_header_field(bytes, 0, 3),
        nr_index: spec_header_field(bytes, 3, 3),
        bandwidth: spec_bandwidth_of_code(spec_header_field(bytes, 6, 2)),
        grouping: spec_header_field(bytes, 8, 1),
        codebook_info: spec_header_field(bytes, 9, 1),
        feedback_type: spec_header_field(bytes, 10, 2),
        remaining_feedback_segments: spec_header_field(bytes, 12, 3),
        first_feedback_segments: spec_header_field(bytes, 15, 1),
        ru_start_index: spec_header_field(bytes, 16, 7),
        ru_end_index: spec_header_field(bytes, 23, 7),
        dialog_token_number: spec_header_field(bytes, 30, 6),
        reserved_padding: spec_header_field(bytes, 36, 4),
    }
}

/// Shift-and-mask one sub-field out of the assembled 40-bit header value.
fn extract_sub_field(v: u64, off: u64, width: u64) -> (r: u8)
    requires
        off < 64,
        1 <= width <= 7,
    ensures
        r as nat == ((v as nat) / pow2(off as nat)) % pow2(width as nat),
        r < pow2(width as nat),
{
    let shifted = 1u64 << width;
    proof {
        assert(shifted >= 1) by (bit_vector)
            requires
                shifted == 1u64 << width && width < 64,
        ;
    }
    let mask = shifted - 1;
    let f = (v >> off) & mask;
    proof {
        lemma_u64_extract(v, off, width);
        lemma_pow2_pos(width as nat);
        lemma_mod_bound(((v as nat) / pow2(off as nat)) as int, pow2(width as nat) as int);
        assert(pow2(width as nat) <= 128) by {
            lemma2_to64();
        }
    }
    f as u8
}

impl HeMimoControl {
    /// Decode the HE MIMO Control header from the first five bytes of the
    /// buffer. A buffer shorter than five bytes cannot hold the 40-bit
    /// header and is rejected.
    pub fn from_buf(buf: &[u8]) -> (r: Result<HeMimoControl, BfaExtractionError>)
        ensures
            buf@.len() < 5 ==> r == Err::<HeMimoControl, BfaExtractionError>(
                BfaExtractionError::InsufficientBitsize {
                    required: 40,
                    available: (8 * buf@.len()) as usize,
                },
            ),
            buf@.len() >= 5 ==> r == Ok::<HeMimoControl, BfaExtractionError>(spec_he_mimo(buf@)),
    {
        if buf.len() < 5 {
            return Err(
                BfaExtractionError::InsufficientBitsize {
                    required: 40,
                    available: 8 * buf.len(),
                },
            );
        }
        let b0 = buf[0];
        let b1 = buf[1];
        let b2 = buf[2];
        let b3 = buf[3];
        let b4 = buf[4];
        let v: u64 = (b0 as u64) | ((b1 as u64) << 8) | ((b2 as u64) << 16) | ((b3 as u64) << 24)
            | ((b4 as u64) << 32);
        proof {
            assert(v == b0 as u64 + 256 * (b1 as u64) + 65536 * (b2 as u64) + 16777216 * (
            b3 as u64) + 4294967296 * (b4 as u64)) by (bit_vector)
                requires
                    v == (b0 as u64) | ((b1 as u64) << 8) | ((b2 as u64) << 16) | ((b3 as u64)
                        << 24) | ((b4 as u64) << 32),
            ;
            let t = buf@.take(5);
            assert(t.skip(0) =~= t);
            lemma_le_val_unfold_at(t, 0);
            lemma_le_val_unfold_at(t, 1);
            lemma_le_val_unfold_at(t, 2);
            lemma_le_val_unfold_at(t, 3);
            lemma_le_val_unfold_at(t, 4);
            assert(t.skip(5).len() == 0);
            assert(le_val(t.skip(5)) == 0);
            assert(v as nat == le_val(t));
            assert(pow2(1) == 2 && pow2(2) == 4 && pow2(3) == 8 && pow2(4) == 16 && pow2(6) == 64
                && pow2(7) == 128) by {
                lemma2_to64();
            }
        }
        let code = extract_sub_field(v, 6, 2);
        let bandwidth = match code {
            0 => Bandwidth::Bw20,
            1 => Bandwidth::Bw40,
            2 => Bandwidth::Bw80,
            _ => Bandwidth::Bw160,
        };
        Ok(
            HeMimoControl {
                nc_index: extract_sub_field(v, 0, 3),
                nr_index: extract_sub_field(v, 3, 3),
                bandwidth,
                grouping: extract_sub_field(v, 8, 1),
                codebook_info: extract_sub_field(v, 9, 1),
                feedback_type: extract_sub_field(v, 10, 2),
                remaining_feedback_segments: extract_sub_field(v, 12, 3),
                first_feedback_segments: extract_sub_field(v, 15, 1),
                ru_start_index: extract_sub_field(v, 16, 7),
                ru_end_index: extract_sub_field(v, 23, 7),
                dialog_token_number: extract_sub_field(v, 30, 6),
                reserved_padding: extract_sub_field(v, 36, 4),
            },
        )
    }
}

} // verus!
