use crate::errors::BfaExtractionError;
use vstd::prelude::*;

verus! {

/// Channel width named by the two-bit bandwidth code of the HE MIMO Control
/// header.
#[derive(Clone, Copy, Debug, PartialEq, Eq, Structural)]
pub enum Bandwidth {
    Bw20,
    Bw40,
    Bw80,
    Bw160,
}

/// The channel width a two-bit code stands for, in code order 20/40/80/160.
pub open spec fn spec_bandwidth_of_code(code: u8) -> Bandwidth {
    if code == 0 {
        Bandwidth::Bw20
    } else if code == 1 {
        Bandwidth::Bw40
    } else if code == 2 {
        Bandwidth::Bw80
    } else {
        Bandwidth::Bw160
    }
}

/// The width of a channel in megahertz.
pub open spec fn spec_mhz(bw: Bandwidth) -> u32 {
    match bw {
        Bandwidth::Bw20 => 20,
        Bandwidth::Bw40 => 40,
        Bandwidth::Bw80 => 80,
        Bandwidth::Bw160 => 160,
    }
}

impl Bandwidth {
    /// Decode a bandwidth code; codes above 3 have no defined meaning and
    /// are reported as a malformed header field.
    pub fn from_code(value: u8) -> (r: Result<Bandwidth, BfaExtractionError>)
        ensures
            value <= 3 ==> r == Ok::<Bandwidth, BfaExtractionError>(spec_bandwidth_of_code(value)),
            value > 3 ==> r == Err::<Bandwidth, BfaExtractionError>(
                BfaExtractionError::InvalidHeaderField,
            ),
    {
        match value {
            0 => Ok(Bandwidth::Bw20),
            1 => Ok(Bandwidth::Bw40),
            2 => Ok(Bandwidth::Bw80),
            3 => Ok(Bandwidth::Bw160),
            _ => Err(BfaExtractionError::InvalidHeaderField),
        }
    }

    /// The channel width in megahertz.
    pub fn to_mhz(self) -> (r: u32)
        ensures
            r == spec_mhz(self),
    {
        match self {
            Bandwidth::Bw20 => 20,
            Bandwidth::Bw40 => 40,
            Bandwidth::Bw80 => 80,
            Bandwidth::Bw160 => 160,
        }
    }

    /// The channel width in hertz.
    pub fn to_hz(self) -> (r: u32)
        ensures
            r == spec_mhz(self) * 1_000_000,
    {
        self.to_mhz() * 1_000_000
    }
}

} // verus!
