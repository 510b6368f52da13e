use crate::bandwidth::Bandwidth;
use crate::bitfield::{field_at, lemma_u16_extract, lemma_window_read};
use crate::errors::BfaExtractionError;
use crate::he_mimo_ctrl::HeMimoControl;
use vstd::arithmetic::mul::{lemma_mul_inequality, lemma_mul_is_commutative};
use vstd::arithmetic::power2::{lemma2_to64, pow2};
use vstd::prelude::*;

verus! {

/// Parameters that drive the angle extraction for one frame: the bit width
/// of every angle within one subcarrier chunk, and how many chunks the
/// frame carries.
#[derive(Clone, Debug, PartialEq, Eq)]
pub struct ExtractionConfig {
    /// Bit width of each angle within one subcarrier chunk, in stream order.
    pub bitfield_pattern: Vec<u8>,
    /// Number of subcarrier chunks to extract.
    pub num_subcarrier: usize,
}

/// The two angle types that compose a compressed steering-matrix entry.
#[derive(Clone, Copy, Debug, PartialEq, Eq, Structural)]
pub enum Angles {
    Phi,
    Psi,
}

/// Sum of the first `i` pattern widths, in bits.
pub open spec fn presum(pattern: Seq<u8>, i: int) -> nat
    decreases i,
{
    if i <= 0 {
        0
    } else {
        presum(pattern, i - 1) + pattern[i - 1] as nat
    }
}

/// Total bits one chunk occupies in the stream.
pub open spec fn pattern_bits(pattern: Seq<u8>) -> nat {
    presum(pattern, pattern.len() as int)
}

/// Largest width among the first `i` pattern entries; zero when there are
/// none.
pub open spec fn max_width(pattern: Seq<u8>, i: int) -> u8
    decreases i,
{
    if i <= 0 {
        0
    } else if pattern[i - 1] > max_width(pattern, i - 1) {
        pattern[i - 1]
    } else {
        max_width(pattern, i - 1)
    }
}

/// A mathematical bit count clipped to what a `usize` can report.
pub open spec fn sat_usize(x: nat) -> usize {
    if x > usize::MAX {
        usize::MAX
    } else {
        x as usize
    }
}

/// Prefix sums of the pattern grow with the prefix.
pub proof fn lemma_presum_monotonic(pattern: Seq<u8>, i: int, j: int)
    requires
        0 <= i <= j,
    ensures
        presum(pattern, i) <= presum(pattern, j),
    decreases j,
{
    if i < j {
        lemma_presum_monotonic(pattern, i, j - 1);
    }
}

/// Every pattern entry is bounded by the running maximum.
pub proof fn lemma_max_width_ge(pattern: Seq<u8>, i: int, j: int)
    requires
        0 <= j < i <= pattern.len(),
    ensures
        pattern[j] <= max_width(pattern, i),
    decreases i,
{
    if j < i - 1 {
        lemma_max_width_ge(pattern, i - 1, j);
    }
}

/// The error-free checks a pattern and chunk count must pass before
/// extraction: the stream holds all the requested bits, and no width
/// exceeds what the sixteen-bit window supports.
pub open spec fn spec_sanity(pattern: Seq<u8>, num_chunks: nat, stream_len: nat) -> Result<
    (),
    BfaExtractionError,
> {
    if pattern_bits(pattern) * num_chunks > 8 * stream_len {
        Err(
            BfaExtractionError::InsufficientBitsize {
                required: sat_usize(pattern_bits(pattern) * num_chunks),
                available: sat_usize(8 * stream_len),
            },
        )
    } else if max_width(pattern, pattern.len() as int) > 9 {
        Err(
            BfaExtractionError::InvalidBitfieldSize {
                given: max_width(pattern, pattern.len() as int),
                allowed: 9,
            },
        )
    } else {
        Ok(())
    }
}

/// The matrix of angle values the stream holds: chunk `c` field `i` is the
/// field of width `pattern[i]` that starts `c` whole chunks plus the first
/// `i` widths into the stream.
pub open spec fn spec_extracted_matrix(bytes: Seq<u8>, pattern: Seq<u8>, num_chunks: nat) -> Seq<
    Seq<u16>,
> {
    Seq::new(
        num_chunks,
        |c: int|
            Seq::new(
                pattern.len(),
                |i: int|
                    field_at(
                        bytes,
                        (c * pattern_bits(pattern) + presum(pattern, i)) as nat,
                        pattern[i] as nat,
                    ) as u16,
            ),
    )
}

/// What `extract_bitfields` returns for every input: the first failed check
/// as an error, otherwise the full angle matrix.
pub open spec fn spec_extract(bytes: Seq<u8>, pattern: Seq<u8>, num_chunks: nat) -> Result<
    Seq<Seq<u16>>,
    BfaExtractionError,
> {
    if bytes.len() < 2 {
        Err(
            BfaExtractionError::InsufficientBitsize {
                required: 16,
                available: sat_usize(8 * bytes.len()),
            },
        )
    } else {
        match spec_sanity(pattern, num_chunks, bytes.len()) {
            Err(e) => Err(e),
            Ok(()) => Ok(spec_extracted_matrix(bytes, pattern, num_chunks)),
        }
    }
}

/// The rows of a vector of vectors, each read as a sequence.
pub open spec fn matrix_view(rows: Seq<Vec<u16>>) -> Seq<Seq<u16>> {
    rows.map_values(|row: Vec<u16>| row@)
}

/// Phi and Psi widths for a codebook/feedback-type pair; the pairs not
/// listed, among them the reserved CQI feedback type, have no defined
/// layout.
pub open spec fn spec_phi_psi_widths(codebook_info: u8, feedback_type: u8) -> Option<(u8, u8)> {
    if codebook_info == 0 && feedback_type == 0 {
        Some((4u8, 2u8))
    } else if codebook_info == 0 && feedback_type == 1 {
        Some((7u8, 5u8))
    } else if codebook_info == 1 && feedback_type == 0 {
        Some((6u8, 4u8))
    } else if codebook_info == 1 && feedback_type == 1 {
        Some((9u8, 7u8))
    } else {
        None
    }
}

/// The order in which Phi and Psi angles appear in one chunk, keyed by the
/// zero-based stream/antenna counts.
pub open spec fn spec_angle_pattern(nr_index: u8, nc_index: u8) -> Option<Seq<Angles>> {
    if (nr_index == 1 && nc_index == 0) || (nr_index == 1 && nc_index == 2) {
        Some(seq![Angles::Phi, Angles::Psi])
    } else if nr_index == 2 && nc_index == 0 {
        Some(seq![Angles::Phi, Angles::Phi, Angles::Psi, Angles::Psi])
    } else if (nr_index == 2 && nc_index == 1) || (nr_index == 2 && nc_index == 2) {
        Some(
            seq![
                Angles::Phi,
                Angles::Phi,
                Angles::Psi,
                Angles::Psi,
                Angles::Phi,
                Angles::Psi,
            ],
        )
    } else if nr_index == 3 && nc_index == 0 {
        Some(
            seq![
                Angles::Phi,
                Angles::Phi,
                Angles::Phi,
                Angles::Psi,
                Angles::Psi,
                Angles::Psi,
            ],
        )
    } else if nr_index == 3 && nc_index == 1 {
        Some(
            seq![
                Angles::Phi,
                Angles::Phi,
                Angles::Phi,
                Angles::Psi,
                Angles::Psi,
                Angles::Psi,
                Angles::Phi,
                Angles::Phi,
                Angles::Psi,
                Angles::Psi,
            ],
        )
    } else if (nr_index == 3 && nc_index == 2) || (nr_index == 3 && nc_index == 3) {
        Some(
            seq![
                Angles::Phi,
                Angles::Phi,
                Angles::Phi,
                Angles::Psi,
                Angles::Psi,
                Angles::Psi,
                Angles::Phi,
                Angles::Phi,
                Angles::Psi,
                Angles::Psi,
                Angles::Phi,
                Angles::Psi,
            ],
        )
    } else {
        None
    }
}

/// Subcarrier count for a grouping/bandwidth pair, per the standard's
/// feedback tables.
pub open spec fn spec_num_subcarriers(grouping: u8, bw: Bandwidth) -> Option<usize> {
    if grouping == 0 {
        Some(
            match bw {
                Bandwidth::Bw20 => 64usize,
                Bandwidth::Bw40 => 122usize,
                Bandwidth::Bw80 => 250usize,
                Bandwidth::Bw160 => 500usize,
            },
        )
    } else if grouping == 1 {
        Some(
            match bw {
                Bandwidth::Bw20 => 50usize,
                Bandwidth::Bw40 => 32usize,
                Bandwidth::Bw80 => 64usize,
                Bandwidth::Bw160 => 160usize,
            },
        )
    } else {
        None
    }
}

/// Each angle symbol replaced by its width in bits.
pub open spec fn spec_widths_of(angles: Seq<Angles>, phi_bit: u8, psi_bit: u8) -> Seq<u8> {
    angles.map_values(
        |a: Angles|
            if a == Angles::Phi {
                phi_bit
            } else {
                psi_bit
            },
    )
}

/// The layout a header resolves to: the widths of one chunk and the chunk
/// count, or the first undefined table combination found.
pub open spec fn spec_resolve(m: HeMimoControl) -> Result<(Seq<u8>, usize), BfaExtractionError> {
    match spec_phi_psi_widths(m.codebook_info, m.feedback_type) {
        None => Err(BfaExtractionError::InvalidHeaderCombination),
        Some(pp) => match spec_angle_pattern(m.nr_index, m.nc_index) {
            None => Err(BfaExtractionError::InvalidHeaderCombination),
            Some(angles) => match spec_num_subcarriers(m.grouping, m.bandwidth) {
                None => Err(BfaExtractionError::InvalidHeaderCombination),
                Some(n) => Ok((spec_widths_of(angles, pp.0, pp.1), n)),
            },
        },
    }
}

impl ExtractionConfig {
    /// The order in which angles appear in the compressed bitstream for the
    /// given stream/antenna counts.
    fn get_pattern(nr_index: u8, nc_index: u8) -> (r: Result<Vec<Angles>, BfaExtractionError>)
        ensures
            match r {
                Ok(v) => spec_angle_pattern(nr_index, nc_index) == Some(v@),
                Err(e) => spec_angle_pattern(nr_index, nc_index) is None && e
                    == BfaExtractionError::InvalidHeaderCombination,
            },
    {
        match (nr_index, nc_index) {
            (1, 0) | (1, 2) => {
                let v = vec![Angles::Phi, Angles::Psi];
                proof {
                    assert(v@ =~= seq![Angles::Phi, Angles::Psi]);
                }
                Ok(v)
            },
            (2, 0) => {
                let v = vec![Angles::Phi, Angles::Phi, Angles::Psi, Angles::Psi];
                proof {
                    assert(v@ =~= seq![Angles::Phi, Angles::Phi, Angles::Psi, Angles::Psi]);
                }
                Ok(v)
            },
            (2, 1) | (2, 2) => {
                let v = vec![
                    Angles::Phi,
                    Angles::Phi,
                    Angles::Psi,
                    Angles::Psi,
                    Angles::Phi,
                    Angles::Psi,
                ];
                proof {
                    assert(v@ =~= seq![
                        Angles::Phi,
                        Angles::Phi,
                        Angles::Psi,
                        Angles::Psi,
                        Angles::Phi,
                        Angles::Psi,
                    ]);
                }
                Ok(v)
            },
            (3, 0) => {
                let v = vec![
                    Angles::Phi,
                    Angles::Phi,
                    Angles::Phi,
                    Angles::Psi,
                    Angles::Psi,
                    Angles::Psi,
                ];
                proof {
                    assert(v@ =~= seq![
                        Angles::Phi,
                        Angles::Phi,
                        Angles::Phi,
                        Angles::Psi,
                        Angles::Psi,
                        Angles::Psi,
                    ]);
                }
                Ok(v)
            },
            (3, 1) => {
                let v = vec![
                    Angles::Phi,
                    Angles::Phi,
                    Angles::Phi,
                    Angles::Psi,
                    Angles::Psi,
                    Angles::Psi,
                    Angles::Phi,
                    Angles::Phi,
                    Angles::Psi,
                    Angles::Psi,
                ];
                proof {
                    assert(v@ =~= seq![
                        Angles::Phi,
                        Angles::Phi,
                        Angles::Phi,
                        Angles::Psi,
                        Angles::Psi,
                        Angles::Psi,
                        Angles::Phi,
                        Angles::Phi,
                        Angles::Psi,
                        Angles::Psi,
                    ]);
                }
                Ok(v)
            },
            (3, 2) | (3, 3) => {
                let v = vec![
                    Angles::Phi,
                    Angles::Phi,
                    Angles::Phi,
                    Angles::Psi,
                    Angles::Psi,
                    Angles::Psi,
                    Angles::Phi,
                    Angles::Phi,
                    Angles::Psi,
                    Angles::Psi,
                    Angles::Phi,
                    Angles::Psi,
                ];
                proof {
                    assert(v@ =~= seq![
                        Angles::Phi,
                        Angles::Phi,
                        Angles::Phi,
                        Angles::Psi,
                        Angles::Psi,
                        Angles::Psi,
                        Angles::Phi,
                        Angles::Phi,
                        Angles::Psi,
                        Angles::Psi,
                        Angles::Phi,
                        Angles::Psi,
                    ]);
                }
                Ok(v)
            },
            _ => Err(BfaExtractionError::InvalidHeaderCombination),
        }
    }

    /// Resolve the extraction layout for a decoded header: look up the
    /// Phi/Psi widths, the angle order and the subcarrier count, and report
    /// the first combination the standard leaves undefined.
    pub fn from_he_mimo_ctrl(mimo_ctrl: &HeMimoControl) -> (r: Result<
        ExtractionConfig,
        BfaExtractionError,
    >)
        ensures
            match r {
                Ok(cfg) => spec_resolve(*mimo_ctrl) == Ok::<(Seq<u8>, usize), BfaExtractionError>(
                    (cfg.bitfield_pattern@, cfg.num_subcarrier),
                ) && cfg.bitfield_pattern@.len() == spec_angle_pattern(
                    mimo_ctrl.nr_index,
                    mimo_ctrl.nc_index,
                ).unwrap().len(),
                Err(e) => spec_resolve(*mimo_ctrl) == Err::<(Seq<u8>, usize), BfaExtractionError>(
                    e,
                ),
            },
    {
        let (phi_bit, psi_bit): (u8, u8) = match (
            mimo_ctrl.codebook_info,
            mimo_ctrl.feedback_type,
        ) {
            (0, 0) => (4, 2),
            (0, 1) => (7, 5),
            (1, 0) => (6, 4),
            (1, 1) => (9, 7),
            _ => {
                return Err(BfaExtractionError::InvalidHeaderCombination);
            },
        };
        let angles = match Self::get_pattern(mimo_ctrl.nr_index, mimo_ctrl.nc_index) {
            Ok(a) => a,
            Err(e) => {
                return Err(e);
            },
        };
        let mut bitfield_pattern: Vec<u8> = Vec::new();
        let mut i: usize = 0;
        while i < angles.len()
            invariant
                i <= angles@.len(),
                bitfield_pattern@.len() == i,
                forall|j: int|
                    0 <= j < i ==> bitfield_pattern@[j] == (if angles@[j] == Angles::Phi {
                        phi_bit
                    } else {
                        psi_bit
                    }),
            decreases angles@.len() - i,
        {
            let w = match angles[i] {
                Angles::Phi => phi_bit,
                Angles::Psi => psi_bit,
            };
            bitfield_pattern.push(w);
            i += 1;
        }
        proof {
            assert(bitfield_pattern@ =~= spec_widths_of(angles@, phi_bit, psi_bit));
        }
        let num_sub: usize = match (mimo_ctrl.grouping, mimo_ctrl.bandwidth) {
            (0, Bandwidth::Bw20) => 64,
            (0, Bandwidth::Bw40) => 122,
            (0, Bandwidth::Bw80) => 250,
            (0, Bandwidth::Bw160) => 500,
            (1, Bandwidth::Bw20) => 50,
            (1, Bandwidth::Bw40) => 32,
            (1, Bandwidth::Bw80) => 64,
            (1, Bandwidth::Bw160) => 160,
            _ => {
                return Err(BfaExtractionError::InvalidHeaderCombination);
            },
        };
        Ok(ExtractionConfig { bitfield_pattern, num_subcarrier: num_sub })
    }
}

/// Check that the stream holds every requested bit and that no pattern
/// width exceeds the nine bits the sixteen-bit window supports.
fn sanity_check_extraction(bitfield_pattern: &[u8], num_chunks: usize, byte_stream_len: usize) -> (r:
    Result<(), BfaExtractionError>)
    ensures
        r == spec_sanity(bitfield_pattern@, num_chunks as nat, byte_stream_len as nat),
{
    let ghost pat = bitfield_pattern@;
    let mut total_bits_per_chunk: u128 = 0;
    let mut i: usize = 0;
    while i < bitfield_pattern.len()
        invariant
            i <= pat.len(),
            pat == bitfield_pattern@,
            total_bits_per_chunk == presum(pat, i as int),
            total_bits_per_chunk <= 255 * i,
        decreases pat.len() - i,
    {
        total_bits_per_chunk = total_bits_per_chunk + (bitfield_pattern[i] as u128);
        i += 1;
    }
    let available_bits: u128 = 8 * (byte_stream_len as u128);
    let needed = total_bits_per_chunk.checked_mul(num_chunks as u128);
    match needed {
        None => {
            proof {
                assert(pattern_bits(pat) * num_chunks > 8 * byte_stream_len);
                assert(pattern_bits(pat) * num_chunks > usize::MAX);
            }
            return Err(
                BfaExtractionError::InsufficientBitsize {
                    required: usize::MAX,
                    available: saturate_to_usize(available_bits),
                },
            );
        },
        Some(needed) => {
            if needed > available_bits {
                return Err(
                    BfaExtractionError::InsufficientBitsize {
                        required: saturate_to_usize(needed),
                        available: saturate_to_usize(available_bits),
                    },
                );
            }
        },
    }
    let mut max_w: u8 = 0;
    let mut k: usize = 0;
    while k < bitfield_pattern.len()
        invariant
            k <= pat.len(),
            pat == bitfield_pattern@,
            max_w == max_width(pat, k as int),
        decreases pat.len() - k,
    {
        if bitfield_pattern[k] > max_w {
            max_w = bitfield_pattern[k];
        }
        k += 1;
    }
    if max_w > 9 {
        return Err(BfaExtractionError::InvalidBitfieldSize { given: max_w, allowed: 9 });
    }
    Ok(())
}

/// Clip a bit count to what a `usize` can report.
pub(crate) fn saturate_to_usize(x: u128) -> (r: usize)
    ensures
        r == sat_usize(x as nat),
{
    if x > usize::MAX as u128 {
        usize::MAX
    } else {
        x as usize
    }
}

/// Walk a bit-level sliding window over the byte stream and collect, for
/// each of `num_chunks` chunks, the fields the pattern describes, in
/// pattern order and LSB-first bit order.
///
/// The window holds sixteen bits because at most seven bits can remain
/// unconsumed before a refill and the widest accepted field is nine bits;
/// wider fields are rejected by the width check.
pub fn extract_bitfields(byte_stream: &[u8], bitfield_pattern: Vec<u8>, num_chunks: usize) -> (result:
    Result<Vec<Vec<u16>>, BfaExtractionError>)
    ensures
        match result {
            Ok(v) => spec_extract(byte_stream@, bitfield_pattern@, num_chunks as nat)
                == Ok::<Seq<Seq<u16>>, BfaExtractionError>(matrix_view(v@)),
            Err(e) => spec_extract(byte_stream@, bitfield_pattern@, num_chunks as nat)
                == Err::<Seq<Seq<u16>>, BfaExtractionError>(e),
        },
{
    if byte_stream.len() < 2 {
        return Err(
            BfaExtractionError::InsufficientBitsize {
                required: 16,
                available: 8 * byte_stream.len(),
            },
        );
    }
    match sanity_check_extraction(bitfield_pattern.as_slice(), num_chunks, byte_stream.len()) {
        Err(e) => {
            return Err(e);
        },
        Ok(()) => {},
    }
    let ghost bytes = byte_stream@;
    let ghost pat = bitfield_pattern@;
    let ghost sbits = pattern_bits(pat);
    proof {
        assert forall|j: int| 0 <= j < pat.len() implies pat[j] <= 9 by {
            lemma_max_width_ge(pat, pat.len() as int, j);
        }
    }
    let num_bytes = byte_stream.len();
    let pattern_len = bitfield_pattern.len();
    let s0 = byte_stream[0];
    let s1 = byte_stream[1];
    let mut bit_window: u16 = (s0 as u16) | ((s1 as u16) << 8);
    let mut window_offset: u16 = 0;
    let mut curr_byte: usize = 2;
    proof {
        assert(bit_window == (s0 as u16) + 256 * (s1 as u16)) by (bit_vector)
            requires
                bit_window == (s0 as u16) | ((s1 as u16) << 8),
        ;
    }
    let mut result: Vec<Vec<u16>> = Vec::new();
    let mut c: usize = 0;
    while c < num_chunks
        invariant
            bytes == byte_stream@,
            pat == bitfield_pattern@,
            sbits == pattern_bits(pat),
            pattern_len == pat.len(),
            num_bytes == bytes.len(),
            2 <= num_bytes,
            forall|j: int| 0 <= j < pat.len() ==> pat[j] <= 9,
            sbits * num_chunks <= 8 * num_bytes,
            c <= num_chunks,
            result@.len() == c,
            forall|cc: int| 0 <= cc < c ==> #[trigger] result@[cc]@.len() == pat.len(),
            forall|cc: int, j: int|
                0 <= cc < c && 0 <= j < pat.len() ==> #[trigger] result@[cc]@[j] == field_at(
                    bytes,
                    (cc * sbits + presum(pat, j)) as nat,
                    pat[j] as nat,
                ) as u16,
            2 <= curr_byte <= num_bytes,
            window_offset <= 16,
            bit_window as nat == bytes[curr_byte - 2] + 256 * bytes[curr_byte - 1],
            8 * (curr_byte - 2) + window_offset == c * sbits,
        decreases num_chunks - c,
    {
        let mut chunk: Vec<u16> = Vec::new();
        let mut i: usize = 0;
        proof {
            assert(c * sbits + presum(pat, 0) == c * sbits);
        }
        while i < pattern_len
            invariant
                bytes == byte_stream@,
                pat == bitfield_pattern@,
                sbits == pattern_bits(pat),
                pattern_len == pat.len(),
                num_bytes == bytes.len(),
                2 <= num_bytes,
                forall|j: int| 0 <= j < pat.len() ==> pat[j] <= 9,
                sbits * num_chunks <= 8 * num_bytes,
                c < num_chunks,
                i <= pattern_len,
                chunk@.len() == i,
                forall|j: int|
                    0 <= j < i ==> #[trigger] chunk@[j] == field_at(
                        bytes,
                        (c * sbits + presum(pat, j)) as nat,
                        pat[j] as nat,
                    ) as u16,
                2 <= curr_byte <= num_bytes,
                window_offset <= 16,
                bit_window as nat == bytes[curr_byte - 2] + 256 * bytes[curr_byte - 1],
                8 * (curr_byte - 2) + window_offset == c * sbits + presum(pat, i as int),
            decreases pattern_len - i,
        {
            let bit_length = bitfield_pattern[i];
            let ghost pos = c * sbits + presum(pat, i as int);
            proof {
                // The bits this field needs all lie within the stream.
                assert(presum(pat, i + 1) == presum(pat, i as int) + pat[i as int]);
                lemma_presum_monotonic(pat, i + 1, pat.len() as int);
                assert(c * sbits + sbits == (c + 1) * sbits) by (nonlinear_arith);
                lemma_mul_inequality(c + 1, num_chunks as int, sbits as int);
                lemma_mul_is_commutative(num_chunks as int, sbits as int);
                assert(pos + bit_length <= 8 * num_bytes);
            }
            let bitfield: u16;
            if bit_length == 0 {
                // A zero-width field holds no bits; its value is zero and
                // the window does not move.
                bitfield = 0;
                proof {
                    assert(pow2(0) == 1) by {
                        lemma2_to64();
                    }
                    assert(field_at(bytes, pos as nat, 0) == 0);
                }
            } else {
                while window_offset + (bit_length as u16) > 16
                    invariant
                        bytes == byte_stream@,
                        num_bytes == bytes.len(),
                        bit_length <= 9,
                        2 <= curr_byte <= num_bytes,
                        window_offset <= 16,
                        bit_window as nat == bytes[curr_byte - 2] + 256 * bytes[curr_byte - 1],
                        8 * (curr_byte - 2) + window_offset == pos,
                        pos + bit_length <= 8 * num_bytes,
                    decreases window_offset,
                {
                    proof {
                        assert(8 * curr_byte < pos + bit_length);
                    }
                    let next_byte = byte_stream[curr_byte];
                    let old_window = bit_window;
                    let ghost b_lo = bytes[curr_byte - 2];
                    let ghost b_hi = bytes[curr_byte - 1];
                    bit_window = (old_window >> 8) | ((next_byte as u16) << 8);
                    proof {
                        assert(bit_window == (b_hi as u16) + 256 * (next_byte as u16)) by (bit_vector)
                            requires
                                bit_window == (old_window >> 8) | ((next_byte as u16) << 8),
                                old_window == (b_lo as u16) + 256 * (b_hi as u16),
                        ;
                    }
                    window_offset = window_offset - 8;
                    curr_byte = curr_byte + 1;
                }
                let shifted = 1u16 << (bit_length as u16);
                proof {
                    assert(shifted >= 1) by (bit_vector)
                        requires
                            shifted == 1u16 << (bit_length as u16),
                            bit_length <= 9,
                    ;
                }
                let mask = shifted - 1;
                bitfield = (bit_window >> window_offset) & mask;
                proof {
                    lemma_u16_extract(bit_window, window_offset, bit_length as u16);
                    lemma_window_read(
                        bytes,
                        (curr_byte - 2) as nat,
                        window_offset as nat,
                        bit_length as nat,
                    );
                    assert(bitfield as nat == field_at(bytes, pos as nat, bit_length as nat));
                }
            }
            chunk.push(bitfield);
            window_offset = window_offset + (bit_length as u16);
            i += 1;
        }
        result.push(chunk);
        c += 1;
        proof {
            assert(c * sbits == (c - 1) * sbits + sbits) by (nonlinear_arith);
        }
    }
    proof {
        let m = spec_extracted_matrix(bytes, pat, num_chunks as nat);
        assert forall|cc: int| 0 <= cc < num_chunks implies matrix_view(result@)[cc] == m[cc] by {
            assert(result@[cc]@ =~= m[cc]);
        }
        assert(matrix_view(result@) =~= m);
    }
    Ok(result)
}

/// Extract the angle matrix of one frame's payload with the layout its
/// header resolved to.
pub fn extract_bfa(bfa_payload: &[u8], extraction_config: ExtractionConfig) -> (result: Result<
    Vec<Vec<u16>>,
    BfaExtractionError,
>)
    ensures
        match result {
            Ok(v) => spec_extract(
                bfa_payload@,
                extraction_config.bitfield_pattern@,
                extraction_config.num_subcarrier as nat,
            ) == Ok::<Seq<Seq<u16>>, BfaExtractionError>(matrix_view(v@)),
            Err(e) => spec_extract(
                bfa_payload@,
                extraction_config.bitfield_pattern@,
                extraction_config.num_subcarrier as nat,
            ) == Err::<Seq<Seq<u16>>, BfaExtractionError>(e),
        },
{
    extract_bitfields(
        bfa_payload,
        extraction_config.bitfield_pattern,
        extraction_config.num_subcarrier,
    )
}

/// Layout resolution holds no hidden state: the layout is a function of
/// the header fields alone, so two resolutions of the same header agree;
/// and a resolved pattern replaces the table-selected symbol sequence
/// symbol for symbol, so their lengths are equal.
pub proof fn lemma_resolve_layout_deterministic(
    m: HeMimoControl,
    r1: Result<(Seq<u8>, usize), BfaExtractionError>,
    r2: Result<(Seq<u8>, usize), BfaExtractionError>,
)
    requires
        r1 == spec_resolve(m),
        r2 == spec_resolve(m),
    ensures
        r1 == r2,
        r1 is Ok ==> r1.unwrap().0.len() == spec_angle_pattern(
            m.nr_index,
            m.nc_index,
        ).unwrap().len(),
{
}

/// Every layout the resolver yields keeps the extraction window's
/// invariant: each width in the pattern lies between one and nine bits, so
/// the extractor's width check can never fire on a resolved layout.
pub proof fn lemma_resolved_widths_in_range(m: HeMimoControl)
    requires
        spec_resolve(m) is Ok,
    ensures
        forall|j: int|
            0 <= j < spec_resolve(m).unwrap().0.len() ==> 1 <= #[trigger] spec_resolve(
                m,
            ).unwrap().0[j] <= 9,
{
    let pp = spec_phi_psi_widths(m.codebook_info, m.feedback_type).unwrap();
    let angles = spec_angle_pattern(m.nr_index, m.nc_index).unwrap();
    let widths = spec_widths_of(angles, pp.0, pp.1);
    assert forall|j: int| 0 <= j < widths.len() implies 1 <= #[trigger] widths[j] <= 9 by {
        assert(widths[j] == (if angles[j] == Angles::Phi {
            pp.0
        } else {
            pp.1
        }));
    }
}

/// A pattern entry wider than nine bits is rejected with the width error
/// before any byte is read: whenever the stream seeds the window and holds
/// the requested bits, the result is the width error, whatever values the
/// bytes hold.
pub proof fn lemma_wide_field_rejected(bytes: Seq<u8>, pattern: Seq<u8>, num_chunks: nat, j: int)
    requires
        2 <= bytes.len(),
        pattern_bits(pattern) * num_chunks <= 8 * bytes.len(),
        0 <= j < pattern.len(),
        pattern[j] > 9,
    ensures
        max_width(pattern, pattern.len() as int) > 9,
        spec_extract(bytes, pattern, num_chunks) == Err::<Seq<Seq<u16>>, BfaExtractionError>(
            BfaExtractionError::InvalidBitfieldSize {
                given: max_width(pattern, pattern.len() as int),
                allowed: 9,
            },
        ),
{
    lemma_max_width_ge(pattern, pattern.len() as int, j);
}

} // verus!
