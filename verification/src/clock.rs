//! Timescale conversion onto the 90 kHz clock of MPEG-TS.
//!
//! Composition offsets of B-frames may be negative, while MPEG-TS wants `pts >= dts` of every
//! frame. The whole composition timeline is therefore shifted by the smallest offset of the
//! stream, and the audio timeline is shifted with it.

use vstd::prelude::*;

verus! {

/// Timestamps of MPEG-TS have 33 bits.
pub const PTS_MODULO: u64 = 0x2_0000_0000;

/// `v` on the 33-bit timestamp circle.
pub open spec fn on_circle(v: int) -> int {
    v % 0x2_0000_0000
}

/// `ts` ticks of `timescale` per second in ticks of 90 kHz, rounded toward zero.
pub open spec fn to_90k(ts: int, timescale: int) -> int {
    if ts >= 0 {
        ts * 90_000 / timescale
    } else {
        -((-ts) * 90_000 / timescale)
    }
}

/// `ts` ticks of `timescale` per second in ticks of 90 kHz, rounded down, modulo 2^64.
pub fn rescale_90k(ts: u64, timescale: u32) -> (r: u64)
    requires
        timescale > 0,
    ensures
        r == to_90k(ts as int, timescale as int) % 0x1_0000_0000_0000_0000,
        to_90k(ts as int, timescale as int) <= u64::MAX ==> r == to_90k(
            ts as int,
            timescale as int,
        ),
{
    let wide: u128 = (ts as u128 * 90_000) / timescale as u128;
    proof {
        assert(0 <= wide);
        if wide <= u64::MAX {
            vstd::arithmetic::div_mod::lemma_small_mod(wide as nat, 0x1_0000_0000_0000_0000);
        }
    }
    (wide % 0x1_0000_0000_0000_0000) as u64
}

/// The remainder of `v` on the 64-bit circle, as two's complement reads it.
pub open spec fn signed64(v: int) -> int {
    let m = v % 0x1_0000_0000_0000_0000;
    if m < 0x8000_0000_0000_0000 {
        m
    } else {
        m - 0x1_0000_0000_0000_0000
    }
}

/// `ts` ticks of `timescale` per second in ticks of 90 kHz, rounded toward zero, in two's
/// complement of 64 bits.
pub fn rescale_90k_signed(ts: i64, timescale: u32) -> (r: i64)
    requires
        timescale > 0,
    ensures
        r == signed64(to_90k(ts as int, timescale as int)),
        i64::MIN <= to_90k(ts as int, timescale as int) <= i64::MAX ==> r == to_90k(
            ts as int,
            timescale as int,
        ),
{
    let low: u64 = if ts >= 0 {
        rescale_90k(ts as u64, timescale)
    } else {
        let magnitude: u64 = (-(ts as i128)) as u64;
        let m: u64 = rescale_90k(magnitude, timescale);
        if m == 0 {
            0
        } else {
            (0x1_0000_0000_0000_0000u128 - m as u128) as u64
        }
    };
    assert(low == to_90k(ts as int, timescale as int) % 0x1_0000_0000_0000_0000);
    if low < 0x8000_0000_0000_0000 {
        low as i64
    } else {
        (low as i128 - 0x1_0000_0000_0000_0000) as i64
    }
}

/// `v` on the 33-bit timestamp circle.
pub fn wrap33(v: u64) -> (r: u64)
    ensures
        r == on_circle(v as int),
        r < PTS_MODULO,
{
    v % PTS_MODULO
}

/// How a stream's ticks become timestamps.
#[derive(Debug, Clone, Copy)]
pub struct ClockState {
    /// Shift of the composition timeline in source ticks, enough to make every offset
    /// non-negative.
    pub cts_shift: u64,
    /// What is added to every timestamp, in ticks of 90 kHz.
    pub base_offset_90k: u64,
    pub timescale: u32,
}

/// `v` ticks of `timescale` per second in ticks of 90 kHz.
fn scaled(v: u128, timescale: u32) -> (r: u128)
    requires
        v <= 0x2_0000_0000_0000_0000,
        timescale > 0,
    ensures
        r == v * 90_000 / timescale as int,
        r <= v * 90_000,
{
    let whole: u128 = v * 90_000;
    assert(whole as int / timescale as int <= whole) by (nonlinear_arith)
        requires
            timescale >= 1,
            whole >= 0,
    ;
    whole / timescale as u128
}

/// Going back is going on by what is left of the circle.
proof fn lemma_way_back(a: int, b: int)
    ensures
        (a % 0x2_0000_0000 + (0x2_0000_0000 - b % 0x2_0000_0000)) % 0x2_0000_0000 == (a - b)
            % 0x2_0000_0000,
{
}

/// The shift of a composition timeline whose smallest offset is `min_cts`.
pub open spec fn shift_of(min_cts: int) -> int {
    if min_cts < 0 {
        -min_cts
    } else {
        0
    }
}

impl ClockState {
    /// A clock converts only with ticks that have a length.
    pub open spec fn wf(&self) -> bool {
        self.timescale > 0
    }

    /// The decode timestamp before it is put on the circle.
    pub open spec fn dts_line(&self, dts_ts: int) -> int {
        to_90k(dts_ts, self.timescale as int) + self.base_offset_90k
    }

    /// The presentation timestamp before it is put on the circle.
    pub open spec fn pts_line(&self, dts_ts: int, cts_offset: int) -> int {
        self.dts_line(dts_ts) + to_90k(cts_offset + self.cts_shift, self.timescale as int)
    }

    /// The audio timestamp before it is put on the circle.
    pub open spec fn audio_line(&self, pts_ts: int, timescale: int) -> int {
        to_90k(pts_ts, timescale) + to_90k(self.cts_shift as int, self.timescale as int)
            + self.base_offset_90k
    }

    /// `min_cts` is the smallest composition offset of the stream, in source ticks.
    pub fn new(min_cts: i64, timescale: u32, start_buffer_90k: u64) -> (r: Self)
        ensures
            r.cts_shift == if min_cts < 0 {
                -min_cts
            } else {
                0
            },
            r.cts_shift == shift_of(min_cts as int),
            r.base_offset_90k == start_buffer_90k,
            r.timescale == timescale,
    {
        let cts_shift: u64 = if min_cts < 0 {
            (-(min_cts as i128)) as u64
        } else {
            0
        };
        ClockState { cts_shift, base_offset_90k: start_buffer_90k, timescale }
    }

    /// The presentation and decode timestamps of a frame.
    pub fn pts_dts(&self, dts_ts: u64, cts_offset: i64) -> (r: (u64, u64))
        requires
            self.wf(),
        ensures
            r.0 == on_circle(self.pts_line(dts_ts as int, cts_offset as int)),
            r.1 == on_circle(self.dts_line(dts_ts as int)),
            r.0 < PTS_MODULO,
            r.1 < PTS_MODULO,
    {
        let dts_wide: u128 = scaled(dts_ts as u128, self.timescale) + self.base_offset_90k as u128;
        let dts90: u64 = (dts_wide % PTS_MODULO as u128) as u64;
        let shifted: i128 = cts_offset as i128 + self.cts_shift as i128;
        let pts90: u64 = if shifted >= 0 {
            let ahead: u128 = scaled(shifted as u128, self.timescale);
            ((dts_wide + ahead) % PTS_MODULO as u128) as u64
        } else {
            let behind: u128 = scaled((-shifted) as u128, self.timescale);
            let back: u64 = (behind % PTS_MODULO as u128) as u64;
            proof {
                lemma_way_back(dts_wide as int, behind as int);
            }
            (dts90 + (PTS_MODULO - back)) % PTS_MODULO
        };
        (pts90, dts90)
    }

    /// The presentation timestamp of an audio frame of `timescale` ticks per second.
    pub fn audio_pts(&self, pts_ts: u64, timescale: u32) -> (r: u64)
        requires
            self.wf(),
            timescale > 0,
        ensures
            r == on_circle(self.audio_line(pts_ts as int, timescale as int)),
            r < PTS_MODULO,
    {
        let wide: u128 = scaled(pts_ts as u128, timescale) + scaled(
            self.cts_shift as u128,
            self.timescale,
        ) + self.base_offset_90k as u128;
        (wide % PTS_MODULO as u128) as u64
    }
}

/// A clock made from the smallest offset of a stream never puts a frame's presentation before
/// its decoding.
pub proof fn law_pts_not_before_dts(clock: ClockState, min_cts: int, dts_ts: int, cts_offset: int)
    requires
        clock.wf(),
        clock.cts_shift == if min_cts < 0 {
            -min_cts
        } else {
            0
        },
        min_cts <= cts_offset,
    ensures
        clock.pts_line(dts_ts, cts_offset) >= clock.dts_line(dts_ts),
{
    let shifted = cts_offset + clock.cts_shift;
    assert(shifted * 90_000 / (clock.timescale as int) >= 0) by (nonlinear_arith)
        requires
            shifted >= 0,
            clock.timescale > 0,
    ;
}

/// On the circle too, as long as the presentation timestamp has not wrapped.
pub proof fn law_pts_not_before_dts_on_circle(
    clock: ClockState,
    min_cts: int,
    dts_ts: int,
    cts_offset: int,
)
    requires
        clock.wf(),
        clock.cts_shift == if min_cts < 0 {
            -min_cts
        } else {
            0
        },
        min_cts <= cts_offset,
        0 <= dts_ts,
        clock.pts_line(dts_ts, cts_offset) < PTS_MODULO,
    ensures
        on_circle(clock.pts_line(dts_ts, cts_offset)) >= on_circle(clock.dts_line(dts_ts)),
{
    law_pts_not_before_dts(clock, min_cts, dts_ts, cts_offset);
    assert(dts_ts * 90_000 / (clock.timescale as int) >= 0) by (nonlinear_arith)
        requires
            dts_ts >= 0,
            clock.timescale > 0,
    ;
}

/// Audio follows the shift of the composition timeline: an audio frame and a video frame that
/// start together, counted in the same ticks, are presented together when the frame has no
/// offset of its own.
pub proof fn law_audio_follows_composition_shift(clock: ClockState, ts: int)
    requires
        clock.wf(),
    ensures
        clock.audio_line(ts, clock.timescale as int) == clock.pts_line(ts, 0),
{
}

/// Each timestamp is converted on its own, with an error below one tick.
pub proof fn law_rescale_error_below_one_tick(ts: int, timescale: int)
    requires
        ts >= 0,
        timescale > 0,
    ensures
        to_90k(ts, timescale) * timescale <= ts * 90_000,
        ts * 90_000 < (to_90k(ts, timescale) + 1) * timescale,
{
    let q = ts * 90_000 / timescale;
    assert(q * timescale <= ts * 90_000 && ts * 90_000 < (q + 1) * timescale) by (nonlinear_arith)
        requires
            q == ts * 90_000 / timescale,
            timescale > 0,
    ;
}

/// Later ticks are not converted to earlier timestamps.
pub proof fn law_rescale_is_monotone(a: int, b: int, timescale: int)
    requires
        0 <= a <= b,
        timescale > 0,
    ensures
        to_90k(a, timescale) <= to_90k(b, timescale),
{
    vstd::arithmetic::div_mod::lemma_div_is_ordered(a * 90_000, b * 90_000, timescale);
}

/// Whether `v` ticks of 90 kHz are `ts` ticks of `timescale` per second, to less than one tick.
pub open spec fn within_a_tick(v: int, ts: int, timescale: int) -> bool {
    -timescale < v * timescale - ts * 90_000 < timescale
}

/// Signed ticks, too, are converted with an error below one tick, and never away from zero.
pub proof fn law_signed_rescale_error_below_one_tick(ts: int, timescale: int)
    requires
        timescale > 0,
    ensures
        within_a_tick(to_90k(ts, timescale), ts, timescale),
        ts >= 0 ==> 0 <= to_90k(ts, timescale) * timescale <= ts * 90_000,
        ts <= 0 ==> ts * 90_000 <= to_90k(ts, timescale) * timescale <= 0,
{
    let m = if ts >= 0 {
        ts
    } else {
        -ts
    };
    law_rescale_error_below_one_tick(m, timescale);
    let q = to_90k(m, timescale);
    assert((q + 1) * timescale == q * timescale + timescale) by (nonlinear_arith);
    assert((-q) * timescale == -(q * timescale)) by (nonlinear_arith);
    assert(q * timescale >= 0) by (nonlinear_arith)
        requires
            q == m * 90_000 / timescale,
            m >= 0,
            timescale > 0,
    ;
}

/// A frame is presented behind its decoding by its composition offset and the shift of the stream,
/// to less than one tick.
pub proof fn law_delay_is_composition_offset(clock: ClockState, dts_ts: int, cts_offset: int)
    requires
        clock.wf(),
    ensures
        within_a_tick(
            clock.pts_line(dts_ts, cts_offset) - clock.dts_line(dts_ts),
            cts_offset + clock.cts_shift,
            clock.timescale as int,
        ),
{
    law_signed_rescale_error_below_one_tick(
        cts_offset + clock.cts_shift,
        clock.timescale as int,
    );
}

/// Frames decoded at one time are presented as far apart as their composition offsets are, to one
/// tick; and, where the shift covers both offsets, in the order of these.
pub proof fn law_offsets_set_frames_apart(
    clock: ClockState,
    dts_ts: int,
    earlier: int,
    later: int,
)
    requires
        clock.wf(),
        0 <= earlier + clock.cts_shift,
        earlier <= later,
    ensures
        clock.pts_line(dts_ts, earlier) <= clock.pts_line(dts_ts, later),
        within_a_tick(
            clock.pts_line(dts_ts, later) - clock.pts_line(dts_ts, earlier),
            later - earlier,
            clock.timescale as int,
        ),
        (later - earlier) * 90_000 >= clock.timescale ==> clock.pts_line(dts_ts, earlier)
            < clock.pts_line(dts_ts, later),
{
    let s = clock.timescale as int;
    let a = clock.pts_line(dts_ts, earlier) - clock.dts_line(dts_ts);
    let b = clock.pts_line(dts_ts, later) - clock.dts_line(dts_ts);
    law_rescale_error_below_one_tick(earlier + clock.cts_shift, s);
    law_rescale_error_below_one_tick(later + clock.cts_shift, s);
    law_rescale_is_monotone(earlier + clock.cts_shift, later + clock.cts_shift, s);
    assert((a + 1) * s == a * s + s) by (nonlinear_arith);
    assert((b + 1) * s == b * s + s) by (nonlinear_arith);
    assert((b - a) * s == b * s - a * s) by (nonlinear_arith);
    if (later - earlier) * 90_000 >= s && a >= b {
        assert((b - a) * s <= 0) by (nonlinear_arith)
            requires
                b - a <= 0,
                s > 0,
        ;
    }
}

/// A frame is decoded behind the start of the output by its decode time, to less than one tick and
/// never early.
pub proof fn law_decode_time_is_kept(clock: ClockState, dts_ts: int)
    requires
        clock.wf(),
        0 <= dts_ts,
    ensures
        within_a_tick(
            clock.dts_line(dts_ts) - clock.base_offset_90k,
            dts_ts,
            clock.timescale as int,
        ),
        clock.base_offset_90k <= clock.dts_line(dts_ts),
        (clock.dts_line(dts_ts) - clock.base_offset_90k) * clock.timescale <= dts_ts * 90_000,
{
    law_signed_rescale_error_below_one_tick(dts_ts, clock.timescale as int);
    assert(dts_ts * 90_000 / (clock.timescale as int) >= 0) by (nonlinear_arith)
        requires
            dts_ts >= 0,
            clock.timescale > 0,
    ;
}

/// Audio is in step with video: an audio frame of any timescale is presented behind the start of
/// the output by its own time, to less than one tick, and as much later as a video frame without
/// an offset is presented behind its decoding.
pub proof fn law_audio_is_in_step(clock: ClockState, pts_ts: int, timescale: int, dts_ts: int)
    requires
        clock.wf(),
        timescale > 0,
    ensures
        within_a_tick(
            clock.audio_line(pts_ts, timescale) - clock.base_offset_90k - (clock.pts_line(dts_ts, 0)
                - clock.dts_line(dts_ts)),
            pts_ts,
            timescale,
        ),
{
    law_signed_rescale_error_below_one_tick(pts_ts, timescale);
}

/// A timestamp on the circle has 33 bits, and stands for the time it was made from.
pub proof fn law_circle_keeps_time(v: int)
    ensures
        0 <= on_circle(v) < 0x2_0000_0000,
        (v - on_circle(v)) % 0x2_0000_0000 == 0,
{
}

/// The shift makes every offset of the stream non-negative, and is no greater than that takes.
pub proof fn law_shift_just_covers_offsets(min_cts: int, cts_offset: int)
    requires
        min_cts <= cts_offset,
    ensures
        0 <= cts_offset + shift_of(min_cts),
        0 <= shift_of(min_cts),
        shift_of(min_cts) > 0 ==> min_cts + shift_of(min_cts) == 0,
{
}

} // verus!
