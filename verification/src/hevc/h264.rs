//! NAL unit types of H.264. The header has one byte; its low five bits are the type.

use vstd::prelude::*;

verus! {

pub const NON_IDR_SLICE: u8 = 1;

pub const IDR_SLICE: u8 = 5;

pub const SEI: u8 = 6;

pub const SPS: u8 = 7;

pub const PPS: u8 = 8;

pub const AUD: u8 = 9;

/// The NAL type in the first header byte.
pub fn nal_type(first_byte: u8) -> (r: u8)
    ensures
        r == first_byte % 32,
{
    first_byte % 32
}

/// Whether a NAL type is a random access point.
pub fn is_irap(t: u8) -> (r: bool)
    ensures
        r == (t == 5),
{
    t == IDR_SLICE
}

} // verus!
