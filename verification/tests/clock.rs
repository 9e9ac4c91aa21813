//! The 90 kHz clock.

use dv_hls_gateway::clock::{rescale_90k, wrap33, ClockState, PTS_MODULO};

#[test]
fn rescale_basic() {
    assert_eq!(rescale_90k(24000, 24000), 90000);
    assert_eq!(rescale_90k(1001, 24000), 3753);
    assert_eq!(rescale_90k(10010, 24000), 37537);
}

#[test]
fn bframe_pts_ge_dts() {
    // min_cts = -2002 → cts_shift = 2002
    let clk = ClockState::new(-2002, 24000, 90000);
    let cases = [
        (0u64, 0i64),
        (1001, 4004),
        (2002, 1001),
        (3003, -2002),
        (4004, -2002),
        (5005, -1001),
    ];
    for (dts, cts) in cases {
        let (pts90, dts90) = clk.pts_dts(dts, cts);
        assert!(
            pts90 >= dts90,
            "pts {pts90} < dts {dts90} for dts_ts={dts} cts={cts}"
        );
    }
}

#[test]
fn audio_pts_follows_video_composition_shift() {
    let clk = ClockState::new(-2002, 24000, 90000);
    assert_eq!(clk.audio_pts(0, 48000), 90000 + rescale_90k(2002, 24000));
}

#[test]
fn wrap_33bit() {
    assert_eq!(wrap33(PTS_MODULO), 0);
    assert_eq!(wrap33(PTS_MODULO + 5), 5);
}
