//! The Dolby Vision descriptor of the PMT.

use vstd::prelude::*;

use crate::mp4::dvcc;
use crate::mp4::DoviConfig;

verus! {

pub const DOVI_DESCRIPTOR_TAG: u8 = 0xB0;

/// The number of a flag.
pub open spec fn flag(b: bool) -> int {
    if b {
        1
    } else {
        0
    }
}

/// The tag, the length and five bytes laid out like those of `dvcC`.
pub open spec fn dovi_descriptor(c: DoviConfig) -> Seq<u8> {
    seq![
        0xB0u8,
        5u8,
        c.version_major,
        c.version_minor,
        (c.profile as int % 128 * 2 + c.level as int % 64 / 32) as u8,
        (c.level as int % 32 * 8 + flag(c.rpu_present) * 4 + flag(c.el_present) * 2 + flag(
            c.bl_present,
        )) as u8,
        (c.bl_compatibility_id as int % 16 * 16) as u8,
    ]
}

/// The bytes of the descriptor state the configuration in the way of `dvcC`.
pub proof fn law_descriptor_states_configuration(c: DoviConfig)
    requires
        c.fits(),
    ensures
        dvcc::parsed(dovi_descriptor(c).skip(2)) == Some(c),
{
    let p = dovi_descriptor(c).skip(2);
    assert(p.len() == 5);
    assert(dvcc::dovi_of(p).profile == c.profile);
    assert(dvcc::dovi_of(p).level == c.level);
}

/// Every configuration that a `dvcC` states can be stated by the descriptor.
pub proof fn law_parsed_configuration_fits(p: Seq<u8>)
    requires
        p.len() >= 5,
    ensures
        dvcc::dovi_of(p).fits(),
        p[4] as int % 16 == 0 ==> dovi_descriptor(dvcc::dovi_of(p)).skip(2) == p.take(5),
{
    let d = dovi_descriptor(dvcc::dovi_of(p)).skip(2);
    let q = p.take(5);
    assert(d[2] == q[2]);
    assert(d[3] == q[3]);
    if p[4] as int % 16 == 0 {
        assert(d =~= q);
    }
}

fn number(b: bool) -> (r: u8)
    ensures
        r == flag(b),
{
    if b {
        1
    } else {
        0
    }
}

/// Writes the descriptor with its tag and length.
pub fn dolby_vision_descriptor(cfg: &DoviConfig) -> (r: Vec<u8>)
    ensures
        r@ == dovi_descriptor(*cfg),
{
    let mut out: Vec<u8> = Vec::new();
    out.push(DOVI_DESCRIPTOR_TAG);
    out.push(5);
    out.push(cfg.version_major);
    out.push(cfg.version_minor);
    out.push(cfg.profile % 128 * 2 + cfg.level % 64 / 32);
    out.push(
        cfg.level % 32 * 8 + number(cfg.rpu_present) * 4 + number(cfg.el_present) * 2 + number(
            cfg.bl_present,
        ),
    );
    out.push(cfg.bl_compatibility_id % 16 * 16);
    assert(out@ =~= dovi_descriptor(*cfg));
    out
}

} // verus!
