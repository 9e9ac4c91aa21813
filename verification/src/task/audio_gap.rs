//! Audio frames of one segment behind those of another: small gaps are closed, and what overlaps
//! is dropped.

use vstd::prelude::*;

use crate::time;
use crate::ts::muxer;
use crate::ts::muxer::{AudioUnit, AudioUnitView};

verus! {

/// The sum of the first `n`, in 64 bits.
pub open spec fn sum_of(d: Seq<u64>, n: int) -> u64
    decreases n,
{
    if n <= 0 {
        0
    } else {
        time::sum64(sum_of(d, n - 1), d[n - 1])
    }
}

/// Where the next frame should start.
pub open spec fn expected_pts(acc: Seq<AudioUnitView>, duration: u64) -> u64 {
    if acc[0].pts + duration > u64::MAX {
        u64::MAX
    } else {
        (acc[0].pts + duration) as u64
    }
}

/// The duration of a frame.
pub open spec fn frame_ticks(durations: Seq<u64>, timescale: u32) -> int {
    if durations.len() > 0 && durations[0] > 0 {
        durations[0] as int
    } else if timescale / 50 > 1 {
        (timescale / 50) as int
    } else {
        1
    }
}

/// How far frames are moved to close a gap of at most two frames.
pub open spec fn closing_shift(
    expected: u64,
    units: Seq<AudioUnitView>,
    durations: Seq<u64>,
    timescale: u32,
) -> u64 {
    let gap = units[0].pts - expected;
    if gap > 0 && gap <= 2 * frame_ticks(durations, timescale) {
        gap as u64
    } else {
        0
    }
}

/// Frames moved back.
pub open spec fn moved_back(units: Seq<AudioUnitView>, by: u64) -> Seq<AudioUnitView> {
    units.map_values(
        |a: AudioUnitView|
            AudioUnitView {
                pts: if a.pts < by {
                    0
                } else {
                    (a.pts - by) as u64
                },
                ..a
            },
    )
}

/// How many frames from `i` on start before `expected`, up to the first that does not.
pub open spec fn leading(units: Seq<AudioUnitView>, expected: u64, i: int) -> int
    decreases units.len() - i,
{
    if i < 0 || i >= units.len() || units[i].pts >= expected {
        i
    } else {
        leading(units, expected, i + 1)
    }
}

/// Frames and their durations.
pub struct Joined {
    pub units: Seq<AudioUnitView>,
    pub durations: Seq<u64>,
}

/// The frames that go behind those of `acc`, which last `duration`.
pub open spec fn joined(
    acc: Seq<AudioUnitView>,
    duration: u64,
    units: Seq<AudioUnitView>,
    durations: Seq<u64>,
    timescale: u32,
) -> Joined {
    if acc.len() == 0 || units.len() == 0 {
        Joined { units, durations }
    } else {
        let expected = expected_pts(acc, duration);
        let moved = moved_back(units, closing_shift(expected, units, durations, timescale));
        let n = leading(moved, expected, 0);
        Joined { units: moved.skip(n), durations: durations.skip(n) }
    }
}

proof fn lemma_leading(units: Seq<AudioUnitView>, expected: u64, i: int)
    requires
        0 <= i <= units.len(),
    ensures
        i <= leading(units, expected, i) <= units.len(),
        leading(units, expected, i) < units.len() ==> units[leading(units, expected, i)].pts
            >= expected,
    decreases units.len() - i,
{
    if i < units.len() && units[i].pts < expected {
        lemma_leading(units, expected, i + 1);
    }
}

/// No frame is kept that starts before the end of those so far, if the frames come in order.
pub proof fn law_no_audio_overlaps(
    acc: Seq<AudioUnitView>,
    duration: u64,
    units: Seq<AudioUnitView>,
    durations: Seq<u64>,
    timescale: u32,
    i: int,
)
    requires
        acc.len() > 0,
        forall|a: int, b: int| 0 <= a <= b < units.len() ==> units[a].pts <= units[b].pts,
        0 <= i < joined(acc, duration, units, durations, timescale).units.len(),
    ensures
        joined(acc, duration, units, durations, timescale).units[i].pts >= expected_pts(
            acc,
            duration,
        ),
{
    if units.len() > 0 {
        let expected = expected_pts(acc, duration);
        let shift = closing_shift(expected, units, durations, timescale);
        let moved = moved_back(units, shift);
        lemma_leading(moved, expected, 0);
        let n = leading(moved, expected, 0);
        assert(units[n].pts <= units[n + i].pts);
        assert(moved[n].pts <= moved[n + i].pts);
    }
}

fn sum_durations(d: &[u64]) -> (r: u64)
    ensures
        r == sum_of(d@, d@.len() as int),
{
    let mut s: u64 = 0;
    for i in 0..d.len()
        invariant
            s == sum_of(d@, i as int),
    {
        s = time::add64(s, d[i]);
    }
    s
}

fn move_back(units: &mut Vec<AudioUnit>, by: u64)
    ensures
        muxer::audio_views(final(units)@) == moved_back(muxer::audio_views(old(units)@), by),
{
    let ghost was = muxer::audio_views(units@);
    let ghost want = moved_back(was, by);
    let n: usize = units.len();
    for i in 0..n
        invariant
            n == units@.len(),
            n == was.len(),
            want == moved_back(was, by),
            forall|j: int| 0 <= j < i ==> (#[trigger] units@[j])@ == want[j],
            forall|j: int| i <= j < n ==> (#[trigger] units@[j])@ == was[j],
    {
        assert(units@[i as int]@ == was[i as int]);
        let pts: u64 = units[i].pts;
        let moved: u64 = if pts < by {
            0
        } else {
            pts - by
        };
        units[i].pts = moved;
    }
    assert(muxer::audio_views(units@) =~= want);
}

/// Fits frames behind those of `acc`, which last `duration`, and gives the duration of what is
/// left.
pub fn trim_or_close_audio_gap(
    acc: &[AudioUnit],
    duration: u64,
    units: &mut Vec<AudioUnit>,
    durations: &mut Vec<u64>,
    timescale: u32,
) -> (r: u64)
    requires
        old(units)@.len() == old(durations)@.len(),
    ensures
        ({
            let j = joined(
                muxer::audio_views(acc@),
                duration,
                muxer::audio_views(old(units)@),
                old(durations)@,
                timescale,
            );
            &&& muxer::audio_views(final(units)@) == j.units
            &&& final(durations)@ == j.durations
            &&& r == sum_of(j.durations, j.durations.len() as int)
        }),
        final(units)@.len() == final(durations)@.len(),
{
    if acc.len() == 0 || units.len() == 0 {
        return sum_durations(durations.as_slice());
    }
    let ghost av = muxer::audio_views(acc@);
    let ghost uv = muxer::audio_views(units@);
    assert(av[0] == acc@[0]@);
    assert(uv[0] == units@[0]@);
    let first: u64 = acc[0].pts;
    let expected: u64 = if first > u64::MAX - duration {
        u64::MAX
    } else {
        first + duration
    };
    assert(expected == expected_pts(av, duration));
    let first_new: u64 = units[0].pts;
    let ghost shift = closing_shift(expected, uv, durations@, timescale);
    if first_new > expected {
        let gap: u64 = first_new - expected;
        let frame: u64 = if durations[0] > 0 {
            durations[0]
        } else if timescale / 50 > 1 {
            (timescale / 50) as u64
        } else {
            1
        };
        assert(frame == frame_ticks(durations@, timescale));
        if gap as u128 <= 2 * frame as u128 {
            move_back(units, gap);
        } else {
            assert(moved_back(uv, 0) =~= uv);
        }
    } else {
        assert(moved_back(uv, 0) =~= uv);
    }
    let ghost moved = moved_back(uv, shift);
    assert(muxer::audio_views(units@) == moved);
    let n: usize = units.len();
    let mut drop: usize = 0;
    while drop < n && units[drop].pts < expected
        invariant
            n == units@.len(),
            drop <= n,
            moved == muxer::audio_views(units@),
            leading(moved, expected, 0) == leading(moved, expected, drop as int),
        decreases n - drop,
    {
        assert(moved[drop as int] == units@[drop as int]@);
        drop = drop + 1;
    }
    assert(drop < n ==> moved[drop as int] == units@[drop as int]@);
    assert(leading(moved, expected, 0) == drop);
    let ghost before = units@;
    let kept: Vec<AudioUnit> = units.split_off(drop);
    *units = kept;
    let rest: Vec<u64> = durations.split_off(drop);
    *durations = rest;
    assert(muxer::audio_views(units@) =~= moved.skip(drop as int));
    assert(durations@ =~= old(durations)@.skip(drop as int));
    sum_durations(durations.as_slice())
}

/// A gap of at most two frames is closed: all frames stay, each as much earlier as the gap is
/// wide, and the first starts where those so far end.
pub proof fn law_small_gap_is_closed(
    acc: Seq<AudioUnitView>,
    duration: u64,
    units: Seq<AudioUnitView>,
    durations: Seq<u64>,
    timescale: u32,
)
    requires
        acc.len() > 0,
        units.len() > 0,
        durations.len() > 0,
        durations[0] > 0,
        0 < units[0].pts - (acc[0].pts + duration) <= 2 * durations[0],
        forall|a: int, b: int| 0 <= a <= b < units.len() ==> units[a].pts <= units[b].pts,
    ensures
        ({
            let j = joined(acc, duration, units, durations, timescale);
            let gap = units[0].pts - (acc[0].pts + duration);
            &&& j.units.len() == units.len()
            &&& j.units[0].pts == acc[0].pts + duration
            &&& j.durations == durations
            &&& forall|i: int|
                0 <= i < units.len() ==> (#[trigger] j.units[i]).pts == units[i].pts - gap
                    && j.units[i].data == units[i].data
        }),
{
    let j = joined(acc, duration, units, durations, timescale);
    let expected = expected_pts(acc, duration);
    let by = closing_shift(expected, units, durations, timescale);
    let moved = moved_back(units, by);
    assert(moved[0].pts == expected);
    assert(leading(moved, expected, 0) == 0);
    assert(j.units =~= moved);
    assert(j.durations =~= durations);
    assert forall|i: int| 0 <= i < units.len() implies (#[trigger] j.units[i]).pts == units[i].pts
        - by && j.units[i].data == units[i].data by {
        assert(units[0].pts <= units[i].pts);
        assert(j.units[i] == moved[i]);
    }
}

/// Over a wider gap nothing is moved: the frames stay as they are.
pub proof fn law_wide_gap_stays(
    acc: Seq<AudioUnitView>,
    duration: u64,
    units: Seq<AudioUnitView>,
    durations: Seq<u64>,
    timescale: u32,
)
    requires
        acc.len() > 0,
        units.len() > 0,
        durations.len() > 0,
        durations[0] > 0,
        units[0].pts - (acc[0].pts + duration) > 2 * durations[0],
    ensures
        joined(acc, duration, units, durations, timescale) == (Joined { units, durations }),
{
    let j = joined(acc, duration, units, durations, timescale);
    let expected = expected_pts(acc, duration);
    let moved = moved_back(units, 0);
    assert(moved =~= units);
    assert(leading(moved, expected, 0) == 0);
    assert(j.units =~= units);
    assert(j.durations =~= durations);
}

proof fn lemma_leading_before(units: Seq<AudioUnitView>, expected: u64, i: int, k: int)
    requires
        0 <= i <= k < leading(units, expected, i),
    ensures
        k < units.len(),
        units[k].pts < expected,
    decreases units.len() - i,
{
    if i < k {
        lemma_leading_before(units, expected, i + 1, k);
    }
}

/// What overlaps is dropped with its durations, and nothing behind it: the rest follows as it is.
pub proof fn law_overlapping_frames_are_dropped(
    acc: Seq<AudioUnitView>,
    duration: u64,
    units: Seq<AudioUnitView>,
    durations: Seq<u64>,
    timescale: u32,
)
    requires
        acc.len() > 0,
        units.len() > 0,
        durations.len() == units.len(),
        acc[0].pts + duration <= u64::MAX,
        units[0].pts <= acc[0].pts + duration,
    ensures
        ({
            let j = joined(acc, duration, units, durations, timescale);
            let k = units.len() - j.units.len();
            &&& 0 <= k <= units.len()
            &&& j.units == units.skip(k)
            &&& j.durations == durations.skip(k)
            &&& forall|i: int|
                0 <= i < k ==> (#[trigger] units[i]).pts < acc[0].pts + duration
            &&& k < units.len() ==> units[k].pts >= acc[0].pts + duration
        }),
{
    let j = joined(acc, duration, units, durations, timescale);
    let expected = expected_pts(acc, duration);
    let moved = moved_back(units, 0);
    assert(moved =~= units);
    let n = leading(units, expected, 0);
    lemma_leading(units, expected, 0);
    assert(j.units =~= units.skip(n));
    assert forall|i: int| 0 <= i < n implies (#[trigger] units[i]).pts < expected by {
        lemma_leading_before(units, expected, 0, i);
    }
}

} // verus!
