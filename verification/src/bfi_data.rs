use crate::extract_bfa::matrix_view;
use vstd::prelude::*;

verus! {

/// A capture timestamp: whole seconds and the microseconds within the
/// second, as the capture clock reports them.
#[derive(Clone, Copy, Debug, PartialEq, Eq, Structural)]
pub struct Timestamp {
    pub secs: i64,
    pub micros: i64,
}

/// Data decoded from a single captured packet: when it arrived, which
/// sounding dialog it answers, and the angle matrix it carries.
#[derive(Clone, Debug, PartialEq, Eq)]
pub struct SinglePacketBfiData {
    pub timestamp: Timestamp,
    pub token_number: u8,
    pub bfa_angles: Vec<Vec<u16>>,
}

/// Accumulated data from the packets of a whole capture, one entry per
/// packet in each column.
#[derive(Clone, Debug, PartialEq, Eq)]
pub struct ExtractedBfiData {
    pub timestamps: Vec<Timestamp>,
    pub token_nums: Vec<u8>,
    pub bfa_angles: Vec<Vec<Vec<u16>>>,
}

impl ExtractedBfiData {
    /// An empty accumulator.
    pub fn new() -> (r: Self)
        ensures
            r.timestamps@.len() == 0,
            r.token_nums@.len() == 0,
            r.bfa_angles@.len() == 0,
    {
        Self { timestamps: Vec::new(), token_nums: Vec::new(), bfa_angles: Vec::new() }
    }

    /// Append one packet's data, keeping the three columns aligned.
    pub fn push_packet(&mut self, packet: SinglePacketBfiData)
        ensures
            final(self).timestamps@ == old(self).timestamps@.push(packet.timestamp),
            final(self).token_nums@ == old(self).token_nums@.push(packet.token_number),
            final(self).bfa_angles@ == old(self).bfa_angles@.push(packet.bfa_angles),
    {
        let SinglePacketBfiData { timestamp, token_number, bfa_angles } = packet;
        self.timestamps.push(timestamp);
        self.token_nums.push(token_number);
        self.bfa_angles.push(bfa_angles);
    }
}


/// The angle data of a whole capture, every vector read as a sequence.
pub open spec fn cube_view(frames: Seq<Vec<Vec<u16>>>) -> Seq<Seq<Seq<u16>>> {
    frames.map_values(|f: Vec<Vec<u16>>| matrix_view(f@))
}

/// Largest chunk count among the first `i` frames.
pub open spec fn max_chunk_count(m: Seq<Seq<Seq<u16>>>, i: int) -> nat
    decreases i,
{
    if i <= 0 {
        0
    } else if m[i - 1].len() > max_chunk_count(m, i - 1) {
        m[i - 1].len()
    } else {
        max_chunk_count(m, i - 1)
    }
}

/// Largest angle count among the first `k` chunks of one frame.
pub open spec fn frame_max_angles(f: Seq<Seq<u16>>, k: int) -> nat
    decreases k,
{
    if k <= 0 {
        0
    } else if f[k - 1].len() > frame_max_angles(f, k - 1) {
        f[k - 1].len()
    } else {
        frame_max_angles(f, k - 1)
    }
}

/// Largest angle count among all chunks of the first `i` frames.
pub open spec fn max_angle_count(m: Seq<Seq<Seq<u16>>>, i: int) -> nat
    decreases i,
{
    if i <= 0 {
        0
    } else if frame_max_angles(m[i - 1], m[i - 1].len() as int) > max_angle_count(m, i - 1) {
        frame_max_angles(m[i - 1], m[i - 1].len() as int)
    } else {
        max_angle_count(m, i - 1)
    }
}

/// The value a padded cell holds: the source value where the source frame
/// has one, zero elsewhere.
pub open spec fn padded_at(m: Seq<Seq<Seq<u16>>>, i: int, k: int, l: int) -> u16 {
    if k < m[i].len() && l < m[i][k].len() {
        m[i][k][l]
    } else {
        0
    }
}

/// Pad every frame's angle matrix with zeroes to the largest chunk count
/// and the largest angle count of the capture, so that all frames share
/// one rectangular shape.
pub fn pad_bfa_angles(bfa_angles: &[Vec<Vec<u16>>]) -> (r: Vec<Vec<Vec<u16>>>)
    ensures
        r@.len() == bfa_angles@.len(),
        forall|i: int|
            0 <= i < r@.len() ==> #[trigger] r@[i]@.len() == max_chunk_count(
                cube_view(bfa_angles@),
                bfa_angles@.len() as int,
            ),
        forall|i: int, k: int|
            0 <= i < r@.len() && 0 <= k < r@[i]@.len() ==> #[trigger] r@[i]@[k]@.len()
                == max_angle_count(cube_view(bfa_angles@), bfa_angles@.len() as int),
        forall|i: int, k: int, l: int|
            0 <= i < r@.len() && 0 <= k < r@[i]@.len() && 0 <= l < r@[i]@[k]@.len()
                ==> #[trigger] r@[i]@[k]@[l] == padded_at(cube_view(bfa_angles@), i, k, l),
{
    let ghost src = cube_view(bfa_angles@);
    let n = bfa_angles.len();
    let mut max_len_subcarrier: usize = 0;
    let mut i: usize = 0;
    while i < n
        invariant
            src == cube_view(bfa_angles@),
            n == bfa_angles@.len(),
            i <= n,
            max_len_subcarrier == max_chunk_count(src, i as int),
        decreases n - i,
    {
        proof {
            assert(src[i as int] == matrix_view(bfa_angles@[i as int]@));
        }
        let flen = bfa_angles[i].len();
        if flen > max_len_subcarrier {
            max_len_subcarrier = flen;
        }
        i += 1;
    }
    let mut max_len_angles: usize = 0;
    let mut i: usize = 0;
    while i < n
        invariant
            src == cube_view(bfa_angles@),
            n == bfa_angles@.len(),
            i <= n,
            max_len_angles == max_angle_count(src, i as int),
        decreases n - i,
    {
        proof {
            assert(src[i as int] == matrix_view(bfa_angles@[i as int]@));
        }
        let chunks = bfa_angles[i].len();
        let mut k: usize = 0;
        while k < chunks
            invariant
                src == cube_view(bfa_angles@),
                n == bfa_angles@.len(),
                i < n,
                chunks == src[i as int].len(),
                k <= chunks,
                max_len_angles == (if frame_max_angles(src[i as int], k as int) > max_angle_count(
                    src,
                    i as int,
                ) {
                    frame_max_angles(src[i as int], k as int)
                } else {
                    max_angle_count(src, i as int)
                }),
            decreases chunks - k,
        {
            proof {
                assert(src[i as int] == matrix_view(bfa_angles@[i as int]@));
                assert(src[i as int][k as int] == bfa_angles@[i as int]@[k as int]@);
            }
            let clen = bfa_angles[i][k].len();
            if clen > max_len_angles {
                max_len_angles = clen;
            }
            k += 1;
        }
        i += 1;
    }
    let mut result: Vec<Vec<Vec<u16>>> = Vec::new();
    let mut i: usize = 0;
    while i < n
        invariant
            src == cube_view(bfa_angles@),
            n == bfa_angles@.len(),
            i <= n,
            max_len_subcarrier == max_chunk_count(src, n as int),
            max_len_angles == max_angle_count(src, n as int),
            result@.len() == i,
            forall|ii: int| 0 <= ii < i ==> #[trigger] result@[ii]@.len() == max_len_subcarrier,
            forall|ii: int, k: int|
                0 <= ii < i && 0 <= k < max_len_subcarrier ==> #[trigger] result@[ii]@[k]@.len()
                    == max_len_angles,
            forall|ii: int, k: int, l: int|
                0 <= ii < i && 0 <= k < max_len_subcarrier && 0 <= l < max_len_angles
                    ==> #[trigger] result@[ii]@[k]@[l] == padded_at(src, ii, k, l),
        decreases n - i,
    {
        proof {
            assert(src[i as int] == matrix_view(bfa_angles@[i as int]@));
        }
        let mut padded_outer: Vec<Vec<u16>> = Vec::new();
        let mut k: usize = 0;
        while k < max_len_subcarrier
            invariant
                src == cube_view(bfa_angles@),
                n == bfa_angles@.len(),
                i < n,
                src[i as int] == matrix_view(bfa_angles@[i as int]@),
                padded_outer@.len() == k,
                k <= max_len_subcarrier,
                forall|kk: int|
                    0 <= kk < k ==> #[trigger] padded_outer@[kk]@.len() == max_len_angles,
                forall|kk: int, l: int|
                    0 <= kk < k && 0 <= l < max_len_angles ==> #[trigger] padded_outer@[kk]@[l]
                        == padded_at(src, i as int, kk, l),
            decreases max_len_subcarrier - k,
        {
            let mut inner: Vec<u16> = Vec::new();
            let mut l: usize = 0;
            while l < max_len_angles
                invariant
                    src == cube_view(bfa_angles@),
                    n == bfa_angles@.len(),
                    i < n,
                    src[i as int] == matrix_view(bfa_angles@[i as int]@),
                    inner@.len() == l,
                    l <= max_len_angles,
                    forall|ll: int|
                        0 <= ll < l ==> #[trigger] inner@[ll] == padded_at(src, i as int, k as int, ll),
                decreases max_len_angles - l,
            {
                let v: u16 = if k < bfa_angles[i].len() && l < bfa_angles[i][k].len() {
                    proof {
                        assert(src[i as int][k as int] == bfa_angles@[i as int]@[k as int]@);
                    }
                    bfa_angles[i][k][l]
                } else {
                    proof {
                        if k < bfa_angles@[i as int]@.len() {
                            assert(src[i as int][k as int] == bfa_angles@[i as int]@[k as int]@);
                        }
                    }
                    0
                };
                inner.push(v);
                l += 1;
            }
            padded_outer.push(inner);
            k += 1;
        }
        result.push(padded_outer);
        i += 1;
    }
    result
}

} // verus!
