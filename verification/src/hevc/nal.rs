//! NAL unit types of HEVC. The header has two bytes; the type has six bits behind the first.

use vstd::prelude::*;

verus! {

pub const TRAIL_N: u8 = 0;

pub const TRAIL_R: u8 = 1;

pub const BLA_W_LP: u8 = 16;

pub const IDR_W_RADL: u8 = 19;

pub const IDR_N_LP: u8 = 20;

pub const CRA_NUT: u8 = 21;

pub const VPS: u8 = 32;

pub const SPS: u8 = 33;

pub const PPS: u8 = 34;

pub const AUD: u8 = 35;

pub const SEI_PREFIX: u8 = 39;

pub const SEI_SUFFIX: u8 = 40;

/// The Dolby Vision RPU, which passes through untouched.
pub const DV_RPU: u8 = 62;

/// The Dolby Vision enhancement layer.
pub const DV_EL: u8 = 63;

/// The NAL type in the first header byte.
pub fn nal_type(first_byte: u8) -> (r: u8)
    ensures
        r == first_byte / 2 % 64,
{
    first_byte / 2 % 64
}

/// Whether a NAL type is a random access point: IDR, CRA or BLA.
pub fn is_irap(t: u8) -> (r: bool)
    ensures
        r == (16 <= t <= 23),
{
    t >= 16 && t <= 23
}

/// Whether a NAL type is a slice.
pub fn is_vcl(t: u8) -> (r: bool)
    ensures
        r == (t <= 31),
{
    t <= 31
}

} // verus!
