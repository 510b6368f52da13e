//! Recovery of compressed beamforming feedback angles from raw IEEE 802.11ax
//! management-frame bytes.
//!
//! The decode pipeline has three stages: decoding the fixed 40-bit HE MIMO
//! Control header into named sub-fields, resolving from those fields the
//! per-frame bitfield layout (angle widths and subcarrier count), and
//! extracting every angle value from the densely bit-packed payload with a
//! sliding sixteen-bit window.

pub mod bandwidth;
pub mod bfi_data;
pub mod bitfield;
pub mod errors;
pub mod extract_bfa;
pub mod he_mimo_ctrl;
pub mod util;

use crate::bfi_data::{SinglePacketBfiData, Timestamp};
use crate::errors::BfaExtractionError;
use crate::extract_bfa::{
    extract_bfa, matrix_view, sat_usize, saturate_to_usize, spec_extract, spec_resolve,
    ExtractionConfig,
};
use crate::he_mimo_ctrl::{spec_he_mimo, HeMimoControl};
use vstd::prelude::*;
use vstd::slice::slice_subrange;

verus! {

/// What decoding one positioned frame yields: the first five buffer bytes
/// hold the header, the bytes after the two-byte SNR field hold the angle
/// payload; the first failed stage decides the error.
pub open spec fn spec_decode_frame(bytes: Seq<u8>, ts: Timestamp) -> Result<
    (Timestamp, u8, Seq<Seq<u16>>),
    BfaExtractionError,
> {
    if bytes.len() < 5 {
        Err(
            BfaExtractionError::InsufficientBitsize {
                required: 40,
                available: (8 * bytes.len()) as usize,
            },
        )
    } else {
        let hdr = spec_he_mimo(bytes);
        match spec_resolve(hdr) {
            Err(e) => Err(e),
            Ok(layout) => if bytes.len() < 7 {
                Err(
                    BfaExtractionError::InsufficientBitsize {
                        required: 56,
                        available: (8 * bytes.len()) as usize,
                    },
                )
            } else {
                match spec_extract(bytes.skip(7), layout.0, layout.1 as nat) {
                    Err(e) => Err(e),
                    Ok(m) => Ok((ts, hdr.dialog_token_number, m)),
                }
            },
        }
    }
}

/// Decode one frame whose buffer is positioned on the HE MIMO Control
/// header: decode the header, resolve the layout, and extract the angle
/// matrix from the payload that follows the two-byte SNR field.
pub fn decode_frame(buffer: &[u8], timestamp: Timestamp) -> (r: Result<
    SinglePacketBfiData,
    BfaExtractionError,
>)
    ensures
        match r {
            Ok(d) => spec_decode_frame(buffer@, timestamp) == Ok::<
                (Timestamp, u8, Seq<Seq<u16>>),
                BfaExtractionError,
            >((d.timestamp, d.token_number, matrix_view(d.bfa_angles@))),
            Err(e) => spec_decode_frame(buffer@, timestamp) == Err::<
                (Timestamp, u8, Seq<Seq<u16>>),
                BfaExtractionError,
            >(e),
        },
{
    let mimo_control = match HeMimoControl::from_buf(buffer) {
        Ok(m) => m,
        Err(e) => {
            return Err(e);
        },
    };
    let config = match ExtractionConfig::from_he_mimo_ctrl(&mimo_control) {
        Ok(c) => c,
        Err(e) => {
            return Err(e);
        },
    };
    if buffer.len() < 7 {
        return Err(
            BfaExtractionError::InsufficientBitsize {
                required: 56,
                available: 8 * buffer.len(),
            },
        );
    }
    let payload = slice_subrange(buffer, 7, buffer.len());
    proof {
        assert(payload@ =~= buffer@.skip(7));
    }
    let token_number = mimo_control.dialog_token_number;
    match extract_bfa(payload, config) {
        Ok(bfa_angles) => Ok(SinglePacketBfiData { timestamp, token_number, bfa_angles }),
        Err(e) => Err(e),
    }
}

/// What decoding a full link-layer packet yields: the link-layer header
/// length read from bytes two and three positions the HE MIMO Control
/// header 26 bytes further on, and the last four bytes are the frame check
/// sequence, cut off the payload.
pub open spec fn spec_extract_from_packet(bytes: Seq<u8>, ts: Timestamp) -> Result<
    (Timestamp, u8, Seq<Seq<u16>>),
    BfaExtractionError,
> {
    if bytes.len() < 4 {
        Err(
            BfaExtractionError::InsufficientBitsize {
                required: 32,
                available: (8 * bytes.len()) as usize,
            },
        )
    } else {
        let start = bytes[2] as int + 256 * bytes[3] as int + 26;
        if bytes.len() < start + 4 {
            Err(
                BfaExtractionError::InsufficientBitsize {
                    required: (8 * (start + 4)) as usize,
                    available: sat_usize((8 * bytes.len()) as nat),
                },
            )
        } else {
            spec_decode_frame(bytes.subrange(start, bytes.len() - 4), ts)
        }
    }
}

/// Decode one captured link-layer packet: locate the HE MIMO Control header
/// behind the link-layer header, drop the trailing frame check sequence,
/// and decode the frame in between.
pub fn extract_from_packet(data: &[u8], timestamp: Timestamp) -> (r: Result<
    SinglePacketBfiData,
    BfaExtractionError,
>)
    ensures
        match r {
            Ok(d) => spec_extract_from_packet(data@, timestamp) == Ok::<
                (Timestamp, u8, Seq<Seq<u16>>),
                BfaExtractionError,
            >((d.timestamp, d.token_number, matrix_view(d.bfa_angles@))),
            Err(e) => spec_extract_from_packet(data@, timestamp) == Err::<
                (Timestamp, u8, Seq<Seq<u16>>),
                BfaExtractionError,
            >(e),
        },
{
    if data.len() < 4 {
        return Err(
            BfaExtractionError::InsufficientBitsize {
                required: 32,
                available: 8 * data.len(),
            },
        );
    }
    let header_length: usize = (data[2] as usize) + 256 * (data[3] as usize);
    let mimo_ctrl_start = header_length + 26;
    if data.len() < mimo_ctrl_start + 4 {
        return Err(
            BfaExtractionError::InsufficientBitsize {
                required: 8 * (mimo_ctrl_start + 4),
                available: saturate_to_usize(8 * (data.len() as u128)),
            },
        );
    }
    let frame = slice_subrange(data, mimo_ctrl_start, data.len() - 4);
    decode_frame(frame, timestamp)
}

/// Decoding holds no hidden state: the result is a function of the buffer
/// and timestamp alone, so two decodes of the same frame agree bit for bit.
pub proof fn lemma_decode_frame_deterministic(
    bytes: Seq<u8>,
    ts: Timestamp,
    r1: Result<(Timestamp, u8, Seq<Seq<u16>>), BfaExtractionError>,
    r2: Result<(Timestamp, u8, Seq<Seq<u16>>), BfaExtractionError>,
)
    requires
        r1 == spec_decode_frame(bytes, ts),
        r2 == spec_decode_frame(bytes, ts),
    ensures
        r1 == r2,
{
}

} // verus!
