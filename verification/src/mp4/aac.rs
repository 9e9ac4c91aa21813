//! AAC: the AudioSpecificConfig of `esds`, and ADTS headers for raw frames.

use vstd::prelude::*;

use super::boxes;
use crate::wire;

verus! {

/// `esds`
pub const ESDS: [u8; 4] = [0x65, 0x73, 0x64, 0x73];

#[derive(Debug, Clone, Copy, PartialEq, Eq, Structural)]
pub struct AacConfig {
    /// The audio object type: AAC-LC is 2, HE-AAC 5.
    pub object_type: u8,
    /// The index of the sampling rate.
    pub freq_index: u8,
    /// The channel configuration: mono is 1, stereo 2.
    pub channel_config: u8,
}

/// Sampling rates by index.
pub const FREQ_TABLE: [u32; 16] = [
    96000,
    88200,
    64000,
    48000,
    44100,
    32000,
    24000,
    22050,
    16000,
    12000,
    11025,
    8000,
    7350,
    0,
    0,
    0,
];

/// What the first two bytes of an AudioSpecificConfig state.
pub open spec fn asc_of(d: Seq<u8>) -> Option<AacConfig> {
    if d.len() < 2 {
        None
    } else {
        Some(
            AacConfig {
                object_type: (d[0] / 8) as u8,
                freq_index: (d[0] % 8 * 2 + d[1] / 128) as u8,
                channel_config: (d[1] / 8 % 16) as u8,
            },
        )
    }
}

/// A size in groups of 7 bits, of which at most `k` are left to read at `p`, with the value
/// `acc` so far: the size, and where it ends.
pub open spec fn expandable_size(d: Seq<u8>, p: int, k: nat, acc: int) -> Option<(int, int)>
    decreases k,
{
    if k == 0 {
        Some((acc, p))
    } else if p >= d.len() {
        None
    } else {
        let value = acc * 128 + d[p] as int % 128;
        if d[p] < 128 {
            Some((value, p + 1))
        } else {
            expandable_size(d, p + 1, (k - 1) as nat, value)
        }
    }
}

/// The AudioSpecificConfig behind the first tag 5 from `i` on.
pub open spec fn asc_in_esds(d: Seq<u8>, i: int) -> Option<Seq<u8>>
    decreases d.len() - i,
{
    if i < 0 || i >= d.len() {
        None
    } else if d[i] != 5 {
        asc_in_esds(d, i + 1)
    } else {
        match expandable_size(d, i + 1, 4, 0) {
            Some((len, p)) => if len >= 2 && p + len <= d.len() {
                Some(d.subrange(p, p + len))
            } else {
                None
            },
            None => None,
        }
    }
}

/// What the `esds` of an init segment states.
pub open spec fn aac_in_init(init: Seq<u8>) -> Option<AacConfig> {
    match boxes::located(init, ESDS@) {
        Some(p) => match asc_in_esds(p, 4) {
            Some(asc) => asc_of(asc),
            None => None,
        },
        None => None,
    }
}

impl AacConfig {
    /// The two bits of the ADTS profile: the object type less one, AAC-LC where there is none.
    pub open spec fn profile(&self) -> int {
        if self.object_type == 0 {
            1
        } else {
            (self.object_type - 1) % 4
        }
    }

    /// The ADTS header of a frame of `n` bytes.
    pub open spec fn adts_header(&self, n: int) -> Seq<u8> {
        let total = (n + 7) % 8192;
        seq![
            0xFFu8,
            0xF1u8,
            (self.profile() * 64 + self.freq_index as int % 16 * 4 + self.channel_config as int / 4
                % 2) as u8,
            (self.channel_config as int % 4 * 64 + total / 2048) as u8,
            (total / 8 % 256) as u8,
            (total % 8 * 32 + 31) as u8,
            0xFCu8,
        ]
    }

    /// A raw frame behind its ADTS header.
    pub open spec fn adts(&self, frame: Seq<u8>) -> Seq<u8> {
        self.adts_header(frame.len() as int) + frame
    }

    /// The sampling rate.
    pub fn sample_rate(&self) -> (r: u32)
        ensures
            r == if self.freq_index < 16 {
                FREQ_TABLE[self.freq_index as int]
            } else {
                48000
            },
    {
        if self.freq_index < 16 {
            FREQ_TABLE[self.freq_index as usize]
        } else {
            48000
        }
    }

    /// Reads an AudioSpecificConfig.
    pub fn parse_asc(asc: &[u8]) -> (r: Option<Self>)
        ensures
            r == asc_of(asc@),
    {
        if asc.len() < 2 {
            return None;
        }
        Some(
            AacConfig {
                object_type: asc[0] / 8,
                freq_index: asc[0] % 8 * 2 + asc[1] / 128,
                channel_config: asc[1] / 8 % 16,
            },
        )
    }

    /// Reads the AudioSpecificConfig of an init segment.
    pub fn find_in_init(init: &[u8]) -> (r: Option<Self>)
        ensures
            r == aac_in_init(init@),
    {
        match boxes::locate(init, &ESDS) {
            Some(esds) => match extract_asc_from_esds(esds) {
                Some(asc) => Self::parse_asc(asc.as_slice()),
                None => None,
            },
            None => None,
        }
    }

    fn adts_profile(&self) -> (r: u8)
        ensures
            r == self.profile(),
    {
        if self.object_type == 0 {
            1
        } else {
            (self.object_type - 1) % 4
        }
    }

    /// Puts an ADTS header before a raw frame.
    pub fn wrap_adts(&self, frame: &[u8]) -> (r: Vec<u8>)
        ensures
            r@ == self.adts(frame@),
    {
        let total: u16 = frame_length(frame.len());
        let b2: u8 = self.adts_profile() * 64 + self.freq_index % 16 * 4 + self.channel_config / 4
            % 2;
        let b3: u8 = self.channel_config % 4 * 64 + (total / 2048) as u8;
        let b4: u8 = (total / 8 % 256) as u8;
        let b5: u8 = (total % 8 * 32 + 31) as u8;
        let mut out: Vec<u8> = Vec::new();
        out.push(0xFF);
        out.push(0xF1);
        out.push(b2);
        out.push(b3);
        out.push(b4);
        out.push(b5);
        out.push(0xFC);
        assert(out@ =~= self.adts_header(frame@.len() as int));
        wire::append(&mut out, frame);
        out
    }
}

/// The 13 bits that state the length of a frame of `n` bytes with its header.
fn frame_length(n: usize) -> (r: u16)
    ensures
        r == (n + 7) % 8192,
{
    let low: u16 = (n % 8192) as u16;
    assert((n + 7) % 8192 == (low + 7) % 8192);
    (low + 7) % 8192
}

/// The frame length that an ADTS header states counts the header and the frame, where 13 bits
/// can.
pub proof fn law_adts_states_frame_length(cfg: AacConfig, frame: Seq<u8>)
    requires
        frame.len() + 7 < 8192,
    ensures
        ({
            let a = cfg.adts(frame);
            a[3] as int % 4 * 2048 + a[4] as int * 8 + a[5] as int / 32 == a.len()
        }),
{
}

/// The sampling rate, the channels and the frame are read back from an ADTS frame.
pub proof fn law_adts_round_trip(cfg: AacConfig, frame: Seq<u8>)
    requires
        cfg.freq_index < 16,
        cfg.channel_config < 8,
    ensures
        ({
            let a = cfg.adts(frame);
            &&& a[0] == 0xFF && a[1] as int / 16 == 0xF
            &&& a[2] as int / 64 == cfg.profile()
            &&& a[2] as int / 4 % 16 == cfg.freq_index
            &&& a[2] as int % 2 * 4 + a[3] as int / 64 == cfg.channel_config
            &&& a.skip(7) == frame
        }),
{
    let a = cfg.adts(frame);
    assert(a.skip(7) =~= frame);
}

/// The AudioSpecificConfig of an `esds` payload.
pub fn extract_asc_from_esds(esds: &[u8]) -> (r: Option<Vec<u8>>)
    ensures
        match r {
            None => asc_in_esds(esds@, 4) is None,
            Some(a) => asc_in_esds(esds@, 4) == Some(a@),
        },
{
    let n: usize = esds.len();
    let mut i: usize = 4;
    while i < n
        invariant
            n == esds@.len(),
            i >= 4,
            asc_in_esds(esds@, 4) == asc_in_esds(esds@, i as int),
        decreases n - i,
    {
        if esds[i] == 5 {
            let mut p: usize = i + 1;
            let mut len: usize = 0;
            let mut k: u8 = 4;
            let mut done: bool = false;
            while k > 0 && !done
                invariant
                    n == esds@.len(),
                    4 <= i < n,
                    esds@[i as int] == 5,
                    asc_in_esds(esds@, 4) == asc_in_esds(esds@, i as int),
                    p <= n,
                    k <= 4,
                    len < 0x1000_0000,
                    !done ==> k == 4 ==> len == 0,
                    !done ==> k == 3 ==> len < 0x80,
                    !done ==> k == 2 ==> len < 0x4000,
                    !done ==> k == 1 ==> len < 0x20_0000,
                    expandable_size(esds@, i + 1, 4, 0) == if done {
                        Some((len as int, p as int))
                    } else {
                        expandable_size(esds@, p as int, k as nat, len as int)
                    },
                decreases k,
            {
                if p >= n {
                    return None;
                }
                let b: u8 = esds[p];
                len = len * 128 + (b % 128) as usize;
                p = p + 1;
                k = k - 1;
                if b < 128 {
                    done = true;
                }
            }
            assert(expandable_size(esds@, i + 1, 4, 0) == Some((len as int, p as int)));
            if len >= 2 && len <= n - p {
                return Some(wire::copy(vstd::slice::slice_subrange(esds, p, p + len)));
            }
            return None;
        }
        i = i + 1;
    }
    None
}

} // verus!
