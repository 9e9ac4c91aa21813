//! How many downloads a task makes at a time: fewer after failures, more after fast ones.

use vstd::prelude::*;

use crate::config;

verus! {

/// Nanoseconds in a millisecond.
pub const MILLI: u64 = 1_000_000;

/// The settings of the tuning.
#[derive(Debug, Clone, Copy)]
pub struct FetchTuningConfig {
    pub enabled: bool,
    pub shared_default: usize,
    pub shared_short_default: usize,
    pub segment_default: usize,
    pub segment_short_default: usize,
    pub min_shared: usize,
    pub min_shared_short: usize,
    pub min_segment: usize,
    pub min_segment_short: usize,
    pub slow_fetch_ms: u64,
    pub fast_fetch_ms: u64,
    pub fast_streak_to_scale_up: usize,
    pub failure_streak_to_scale_down: usize,
    pub slow_scale_down: bool,
    pub slow_scale_down_cooldown_ms: u64,
}

/// The values of the settings of the tuning, as far as they are set.
#[derive(Clone, Copy)]
pub struct TuningSettings<'a> {
    pub adaptive: Option<&'a str>,
    pub shared: Option<&'a str>,
    pub short_shared: Option<&'a str>,
    pub segment: Option<&'a str>,
    pub short_segment: Option<&'a str>,
    pub min_shared: Option<&'a str>,
    pub short_min_shared: Option<&'a str>,
    pub min_segment: Option<&'a str>,
    pub short_min_segment: Option<&'a str>,
    pub slow_fetch_ms: Option<&'a str>,
    pub fast_fetch_ms: Option<&'a str>,
    pub fast_streak: Option<&'a str>,
    pub failure_streak: Option<&'a str>,
    pub slow_scale_down: Option<&'a str>,
    pub slow_cooldown_ms: Option<&'a str>,
}

/// The bounds of the two limits.
#[derive(Debug, Clone, Copy, PartialEq, Eq, Structural)]
pub struct Limits {
    pub shared_base: usize,
    pub segment_base: usize,
    pub shared_min: usize,
    pub segment_min: usize,
}

/// The state of the tuning.
#[derive(Debug, Clone, Copy, PartialEq, Eq, Structural)]
pub struct TuningState {
    pub configured: bool,
    pub short_source: bool,
    pub shared_limit: usize,
    pub segment_limit: usize,
    pub fast_streak: usize,
    pub failure_streak: usize,
    /// When the limits were last lowered for a slow download, in nanoseconds.
    pub last_slow_scale_down: Option<u64>,
    pub in_flight: usize,
}

/// What the tuning shows of itself.
#[derive(Debug, Clone, Copy, PartialEq, Eq, Structural)]
pub struct FetchTuningSnapshot {
    pub shared_download_concurrency: usize,
    pub segment_fetch_concurrency: usize,
    pub in_flight_downloads: usize,
    pub short_source: bool,
}

/// Why the limits are lowered.
#[derive(Debug, Clone, Copy, PartialEq, Eq, Structural)]
pub enum ScaleReason {
    Failure,
    SlowFetch,
}

/// The greater of two.
pub open spec fn max_of(a: usize, b: usize) -> usize {
    if a >= b {
        a
    } else {
        b
    }
}

/// The smaller of two.
pub open spec fn min_of(a: usize, b: usize) -> usize {
    if a <= b {
        a
    } else {
        b
    }
}

fn greater(a: usize, b: usize) -> (r: usize)
    ensures
        r == max_of(a, b),
{
    if a >= b {
        a
    } else {
        b
    }
}

fn smaller(a: usize, b: usize) -> (r: usize)
    ensures
        r == min_of(a, b),
{
    if a <= b {
        a
    } else {
        b
    }
}

/// A count of `v`, or of a default where nothing is set, but at least 1.
pub open spec fn count_setting(v: Option<&str>, default: int) -> int {
    config::limited_setting(v, usize::MAX as int, default, 1)
}

/// Milliseconds of `v`, or of a default where nothing is set.
pub open spec fn millis_setting(v: Option<&str>, default: int) -> int {
    config::limited_setting(v, u64::MAX as int, default, 0)
}

/// A switch, or a default where nothing is set.
pub open spec fn switch_setting(v: Option<&str>, default: bool) -> bool {
    match config::switch_of(v) {
        Some(b) => b,
        None => default,
    }
}

impl FetchTuningConfig {
    /// The settings by their values.
    pub fn from_settings(s: &TuningSettings<'_>) -> (r: Self)
        ensures
            r.enabled == switch_setting(s.adaptive, true),
            r.shared_default == count_setting(s.shared, 10),
            r.shared_short_default == count_setting(s.short_shared, 10),
            r.segment_default == count_setting(s.segment, 10),
            r.segment_short_default == count_setting(s.short_segment, 10),
            r.min_shared == count_setting(s.min_shared, 8),
            r.min_shared_short == count_setting(s.short_min_shared, 8),
            r.min_segment == count_setting(s.min_segment, 6),
            r.min_segment_short == count_setting(s.short_min_segment, 6),
            r.slow_fetch_ms == millis_setting(s.slow_fetch_ms, 3_500),
            r.fast_fetch_ms == millis_setting(s.fast_fetch_ms, 1_200),
            r.fast_streak_to_scale_up == count_setting(s.fast_streak, 8),
            r.failure_streak_to_scale_down == count_setting(s.failure_streak, 2),
            r.slow_scale_down == switch_setting(s.slow_scale_down, false),
            r.slow_scale_down_cooldown_ms == millis_setting(s.slow_cooldown_ms, 750),
    {
        FetchTuningConfig {
            enabled: config::setting_bool(s.adaptive, true),
            shared_default: config::setting_usize(s.shared, 10, 1),
            shared_short_default: config::setting_usize(s.short_shared, 10, 1),
            segment_default: config::setting_usize(s.segment, 10, 1),
            segment_short_default: config::setting_usize(s.short_segment, 10, 1),
            min_shared: config::setting_usize(s.min_shared, 8, 1),
            min_shared_short: config::setting_usize(s.short_min_shared, 8, 1),
            min_segment: config::setting_usize(s.min_segment, 6, 1),
            min_segment_short: config::setting_usize(s.short_min_segment, 6, 1),
            slow_fetch_ms: config::setting_u64(s.slow_fetch_ms, 3_500, 0),
            fast_fetch_ms: config::setting_u64(s.fast_fetch_ms, 1_200, 0),
            fast_streak_to_scale_up: config::setting_usize(s.fast_streak, 8, 1),
            failure_streak_to_scale_down: config::setting_usize(s.failure_streak, 2, 1),
            slow_scale_down: config::setting_bool(s.slow_scale_down, false),
            slow_scale_down_cooldown_ms: config::setting_u64(s.slow_cooldown_ms, 750, 0),
        }
    }

    /// The bounds for a source.
    pub open spec fn bounds(self, short_source: bool) -> Limits {
        let shared = if short_source {
            self.shared_short_default
        } else {
            self.shared_default
        };
        let segment = if short_source {
            self.segment_short_default
        } else {
            self.segment_default
        };
        let min_shared = if short_source {
            self.min_shared_short
        } else {
            self.min_shared
        };
        let min_segment = if short_source {
            self.min_segment_short
        } else {
            self.min_segment
        };
        Limits {
            shared_base: max_of(max_of(shared, min_shared), 1),
            segment_base: max_of(max_of(segment, min_segment), 1),
            shared_min: max_of(min_of(min_shared, shared), 1),
            segment_min: max_of(min_of(min_segment, segment), 1),
        }
    }

    /// The bounds for a source.
    pub fn limits(&self, short_source: bool) -> (r: Limits)
        ensures
            r == self.bounds(short_source),
            1 <= r.shared_min <= r.shared_base,
            1 <= r.segment_min <= r.segment_base,
    {
        let (shared, segment, min_shared, min_segment): (usize, usize, usize, usize) =
            if short_source {
            (
                self.shared_short_default,
                self.segment_short_default,
                self.min_shared_short,
                self.min_segment_short,
            )
        } else {
            (self.shared_default, self.segment_default, self.min_shared, self.min_segment)
        };
        Limits {
            shared_base: greater(greater(shared, min_shared), 1),
            segment_base: greater(greater(segment, min_segment), 1),
            shared_min: greater(smaller(min_shared, shared), 1),
            segment_min: greater(smaller(min_segment, segment), 1),
        }
    }
}

/// `v` within bounds.
pub open spec fn within(v: usize, lo: usize, hi: usize) -> usize {
    if v < lo {
        lo
    } else if v > hi {
        hi
    } else {
        v
    }
}

/// One more, within the machine's counts.
pub open spec fn one_more(v: usize) -> usize {
    if v == usize::MAX {
        v
    } else {
        (v + 1) as usize
    }
}

/// One less, but not below 0.
pub open spec fn one_less(v: usize) -> usize {
    if v == 0 {
        0
    } else {
        (v - 1) as usize
    }
}

fn more(v: usize) -> (r: usize)
    ensures
        r == one_more(v),
{
    if v == usize::MAX {
        v
    } else {
        v + 1
    }
}

fn less(v: usize) -> (r: usize)
    ensures
        r == one_less(v),
{
    if v == 0 {
        0
    } else {
        v - 1
    }
}

fn bounded(v: usize, lo: usize, hi: usize) -> (r: usize)
    ensures
        r == within(v, lo, hi),
{
    if v < lo {
        lo
    } else if v > hi {
        hi
    } else {
        v
    }
}

impl TuningState {
    /// Whether the limits are within the bounds of the source.
    pub open spec fn fits(self, cfg: FetchTuningConfig) -> bool {
        let l = cfg.bounds(self.short_source);
        &&& l.shared_min <= self.shared_limit <= l.shared_base
        &&& l.segment_min <= self.segment_limit <= l.segment_base
    }

    pub open spec fn start(cfg: FetchTuningConfig) -> Self {
        TuningState {
            configured: false,
            short_source: false,
            shared_limit: cfg.bounds(false).shared_base,
            segment_limit: cfg.bounds(false).segment_base,
            fast_streak: 0,
            failure_streak: 0,
            last_slow_scale_down: None,
            in_flight: 0,
        }
    }

    /// For a source of known length of segments.
    pub open spec fn for_source(self, cfg: FetchTuningConfig, short_source: bool) -> Self {
        if self.configured && self.short_source == short_source {
            self
        } else {
            let l = cfg.bounds(short_source);
            TuningState {
                configured: true,
                short_source,
                shared_limit: within(self.shared_limit, l.shared_min, l.shared_base),
                segment_limit: within(self.segment_limit, l.segment_min, l.segment_base),
                fast_streak: 0,
                failure_streak: 0,
                last_slow_scale_down: None,
                ..self
            }
        }
    }

    /// With both limits one lower, down to the bounds. For a slow download only once in a while.
    pub open spec fn lowered(self, cfg: FetchTuningConfig, reason: ScaleReason, now: u64) -> Self {
        let l = cfg.bounds(self.short_source);
        if reason == ScaleReason::SlowFetch && self.cooling(cfg, now) {
            TuningState { fast_streak: 0, ..self }
        } else {
            TuningState {
                shared_limit: max_of(one_less(self.shared_limit), l.shared_min),
                segment_limit: max_of(one_less(self.segment_limit), l.segment_min),
                fast_streak: 0,
                last_slow_scale_down: if reason == ScaleReason::SlowFetch {
                    Some(now)
                } else {
                    self.last_slow_scale_down
                },
                ..self
            }
        }
    }

    /// Whether the limits were lowered for a slow download only a moment ago.
    pub open spec fn cooling(self, cfg: FetchTuningConfig, now: u64) -> bool {
        match self.last_slow_scale_down {
            Some(last) => (if now >= last {
                now - last
            } else {
                0
            }) < cfg.slow_scale_down_cooldown_ms * MILLI,
            None => false,
        }
    }

    /// With both limits one higher, up to the bounds.
    pub open spec fn raised(self, cfg: FetchTuningConfig) -> Self {
        let l = cfg.bounds(self.short_source);
        TuningState {
            shared_limit: min_of(one_more(self.shared_limit), l.shared_base),
            segment_limit: min_of(one_more(self.segment_limit), l.segment_base),
            fast_streak: 0,
            ..self
        }
    }

    /// After a download that took `elapsed` nanoseconds.
    pub open spec fn after_success(self, cfg: FetchTuningConfig, elapsed: u64, now: u64) -> Self {
        if !cfg.enabled {
            self
        } else if elapsed >= cfg.slow_fetch_ms * MILLI {
            if cfg.slow_scale_down {
                self.lowered(cfg, ScaleReason::SlowFetch, now)
            } else {
                TuningState { fast_streak: 0, failure_streak: 0, ..self }
            }
        } else if elapsed > cfg.fast_fetch_ms * MILLI {
            TuningState { fast_streak: 0, failure_streak: 0, ..self }
        } else {
            let s = TuningState {
                fast_streak: one_more(self.fast_streak),
                failure_streak: 0,
                ..self
            };
            if s.fast_streak < cfg.fast_streak_to_scale_up {
                s
            } else {
                s.raised(cfg)
            }
        }
    }

    /// After a failure that fewer downloads may help against.
    pub open spec fn after_failure(self, cfg: FetchTuningConfig, now: u64) -> Self {
        let s = TuningState {
            fast_streak: 0,
            failure_streak: one_more(self.failure_streak),
            ..self
        };
        if !cfg.enabled {
            self
        } else if s.failure_streak < cfg.failure_streak_to_scale_down {
            s
        } else {
            (TuningState { failure_streak: 0, ..s }).lowered(cfg, ScaleReason::Failure, now)
        }
    }

    /// After another failure.
    pub open spec fn after_ignored(self, cfg: FetchTuningConfig) -> Self {
        if cfg.enabled {
            TuningState { fast_streak: 0, failure_streak: 0, ..self }
        } else {
            self
        }
    }

    pub open spec fn snapshot(self) -> FetchTuningSnapshot {
        FetchTuningSnapshot {
            shared_download_concurrency: max_of(self.shared_limit, 1),
            segment_fetch_concurrency: max_of(self.segment_limit, 1),
            in_flight_downloads: self.in_flight,
            short_source: self.short_source,
        }
    }
}

/// Whatever is recorded, the limits stay within the bounds of the source.
pub proof fn law_limits_stay_in_bounds(
    s: TuningState,
    cfg: FetchTuningConfig,
    short_source: bool,
    elapsed: u64,
    now: u64,
)
    requires
        s.fits(cfg),
    ensures
        TuningState::start(cfg).fits(cfg),
        s.for_source(cfg, short_source).fits(cfg),
        s.after_success(cfg, elapsed, now).fits(cfg),
        s.after_failure(cfg, now).fits(cfg),
        s.after_ignored(cfg).fits(cfg),
{
}

/// One failure alone changes no limit, unless the settings say so.
pub proof fn law_isolated_failure_keeps_limits(s: TuningState, cfg: FetchTuningConfig, now: u64)
    requires
        s.failure_streak == 0,
        cfg.failure_streak_to_scale_down >= 2,
    ensures
        s.after_failure(cfg, now).shared_limit == s.shared_limit,
        s.after_failure(cfg, now).segment_limit == s.segment_limit,
{
}

/// The tuning of a task.
pub struct AdaptiveFetchTuning {
    cfg: FetchTuningConfig,
    state: TuningState,
}

impl AdaptiveFetchTuning {
    pub closed spec fn cfg(&self) -> FetchTuningConfig {
        self.cfg
    }

    pub closed spec fn state(&self) -> TuningState {
        self.state
    }

    /// Whether the limits are within the bounds of the source.
    pub open spec fn wf(&self) -> bool {
        self.state().fits(self.cfg())
    }

    /// A tuning with the highest limits.
    pub fn new(cfg: FetchTuningConfig) -> (r: Self)
        ensures
            r.cfg() == cfg,
            r.state() == TuningState::start(cfg),
            r.wf(),
    {
        let limits: Limits = cfg.limits(false);
        AdaptiveFetchTuning {
            cfg,
            state: TuningState {
                configured: false,
                short_source: false,
                shared_limit: limits.shared_base,
                segment_limit: limits.segment_base,
                fast_streak: 0,
                failure_streak: 0,
                last_slow_scale_down: None,
                in_flight: 0,
            },
        }
    }

    /// Takes the bounds of a source. Says whether anything changed.
    pub fn configure_source(&mut self, short_source: bool) -> (r: bool)
        ensures
            final(self).cfg() == old(self).cfg(),
            final(self).state() == old(self).state().for_source(old(self).cfg(), short_source),
            r == !(old(self).state().configured && old(self).state().short_source == short_source),
            old(self).wf() ==> final(self).wf(),
    {
        if self.state.configured && self.state.short_source == short_source {
            return false;
        }
        let l: Limits = self.cfg.limits(short_source);
        self.state.configured = true;
        self.state.short_source = short_source;
        self.state.shared_limit = bounded(self.state.shared_limit, l.shared_min, l.shared_base);
        self.state.segment_limit = bounded(self.state.segment_limit, l.segment_min, l.segment_base);
        self.state.fast_streak = 0;
        self.state.failure_streak = 0;
        self.state.last_slow_scale_down = None;
        true
    }

    /// How many segments are fetched at a time.
    pub fn segment_fetch_concurrency(&self) -> (r: usize)
        ensures
            r == max_of(self.state().segment_limit, 1),
    {
        greater(self.state.segment_limit, 1)
    }

    /// What the tuning shows of itself.
    pub fn snapshot(&self) -> (r: FetchTuningSnapshot)
        ensures
            r == self.state().snapshot(),
    {
        FetchTuningSnapshot {
            shared_download_concurrency: greater(self.state.shared_limit, 1),
            segment_fetch_concurrency: greater(self.state.segment_limit, 1),
            in_flight_downloads: self.state.in_flight,
            short_source: self.state.short_source,
        }
    }

    /// Takes a place for a download, if one is free.
    pub fn try_acquire(&mut self) -> (r: bool)
        ensures
            final(self).cfg() == old(self).cfg(),
            r == (old(self).state().in_flight < max_of(old(self).state().shared_limit, 1)),
            final(self).state() == (TuningState {
                in_flight: if r {
                    (old(self).state().in_flight + 1) as usize
                } else {
                    old(self).state().in_flight
                },
                ..old(self).state()
            }),
            old(self).wf() ==> final(self).wf(),
    {
        if self.state.in_flight < greater(self.state.shared_limit, 1) {
            self.state.in_flight = self.state.in_flight + 1;
            true
        } else {
            false
        }
    }

    /// Gives the place of a download back.
    pub fn release(&mut self)
        ensures
            final(self).cfg() == old(self).cfg(),
            final(self).state() == (TuningState {
                in_flight: one_less(old(self).state().in_flight),
                ..old(self).state()
            }),
            old(self).wf() ==> final(self).wf(),
    {
        self.state.in_flight = less(self.state.in_flight);
    }

    /// A download that took `elapsed` nanoseconds and ended at `now`.
    pub fn record_success(&mut self, elapsed: u64, now: u64)
        ensures
            final(self).cfg() == old(self).cfg(),
            final(self).state() == old(self).state().after_success(old(self).cfg(), elapsed, now),
            old(self).wf() ==> final(self).wf(),
    {
        if !self.cfg.enabled {
            return ;
        }
        if elapsed as u128 >= self.cfg.slow_fetch_ms as u128 * MILLI as u128 {
            if self.cfg.slow_scale_down {
                self.scale_down(ScaleReason::SlowFetch, now);
            } else {
                self.state.fast_streak = 0;
                self.state.failure_streak = 0;
            }
            return ;
        }
        self.state.failure_streak = 0;
        if elapsed as u128 > self.cfg.fast_fetch_ms as u128 * MILLI as u128 {
            self.state.fast_streak = 0;
            return ;
        }
        self.state.fast_streak = more(self.state.fast_streak);
        if self.state.fast_streak < self.cfg.fast_streak_to_scale_up {
            return ;
        }
        let l: Limits = self.cfg.limits(self.state.short_source);
        self.state.shared_limit = smaller(more(self.state.shared_limit), l.shared_base);
        self.state.segment_limit = smaller(more(self.state.segment_limit), l.segment_base);
        self.state.fast_streak = 0;
    }

    /// A failure that fewer downloads may help against.
    pub fn record_failure(&mut self, now: u64)
        ensures
            final(self).cfg() == old(self).cfg(),
            final(self).state() == old(self).state().after_failure(old(self).cfg(), now),
            old(self).wf() ==> final(self).wf(),
    {
        if !self.cfg.enabled {
            return ;
        }
        self.state.fast_streak = 0;
        self.state.failure_streak = more(self.state.failure_streak);
        if self.state.failure_streak < self.cfg.failure_streak_to_scale_down {
            return ;
        }
        self.state.failure_streak = 0;
        self.scale_down(ScaleReason::Failure, now);
    }

    /// Another failure.
    pub fn record_ignored_failure(&mut self)
        ensures
            final(self).cfg() == old(self).cfg(),
            final(self).state() == old(self).state().after_ignored(old(self).cfg()),
            old(self).wf() ==> final(self).wf(),
    {
        if !self.cfg.enabled {
            return ;
        }
        self.state.fast_streak = 0;
        self.state.failure_streak = 0;
    }

    fn scale_down(&mut self, reason: ScaleReason, now: u64)
        ensures
            final(self).cfg() == old(self).cfg(),
            final(self).state() == old(self).state().lowered(old(self).cfg(), reason, now),
    {
        if reason == ScaleReason::SlowFetch {
            if let Some(last) = self.state.last_slow_scale_down {
                let since: u64 = if now >= last {
                    now - last
                } else {
                    0
                };
                if (since as u128) < self.cfg.slow_scale_down_cooldown_ms as u128 * MILLI as u128 {
                    self.state.fast_streak = 0;
                    return ;
                }
            }
            self.state.last_slow_scale_down = Some(now);
        }
        let l: Limits = self.cfg.limits(self.state.short_source);
        self.state.shared_limit = greater(less(self.state.shared_limit), l.shared_min);
        self.state.segment_limit = greater(less(self.state.segment_limit), l.segment_min);
        self.state.fast_streak = 0;
    }
}

/// The bounds are those of the kind of source, where each least number is at least 1 and not above
/// the usual one.
pub proof fn law_bounds_are_as_configured(cfg: FetchTuningConfig)
    ensures
        1 <= cfg.min_shared <= cfg.shared_default ==> cfg.bounds(false).shared_base
            == cfg.shared_default && cfg.bounds(false).shared_min == cfg.min_shared,
        1 <= cfg.min_segment <= cfg.segment_default ==> cfg.bounds(false).segment_base
            == cfg.segment_default && cfg.bounds(false).segment_min == cfg.min_segment,
        1 <= cfg.min_shared_short <= cfg.shared_short_default ==> cfg.bounds(true).shared_base
            == cfg.shared_short_default && cfg.bounds(true).shared_min == cfg.min_shared_short,
        1 <= cfg.min_segment_short <= cfg.segment_short_default ==> cfg.bounds(true).segment_base
            == cfg.segment_short_default && cfg.bounds(true).segment_min == cfg.min_segment_short,
{
}

/// A slow download takes one from each limit that is above its least, unless one did so a moment
/// ago; a download that is neither slow nor fast ends both streaks and moves no limit.
pub proof fn law_slow_download_lowers(
    s: TuningState,
    cfg: FetchTuningConfig,
    elapsed: u64,
    now: u64,
)
    requires
        cfg.enabled,
        s.fits(cfg),
        elapsed > cfg.fast_fetch_ms * 1_000_000,
    ensures
        ({
            let t = s.after_success(cfg, elapsed, now);
            let l = cfg.bounds(s.short_source);
            let slow = elapsed >= cfg.slow_fetch_ms * 1_000_000 && cfg.slow_scale_down;
            let recent = s.last_slow_scale_down matches Some(last) && now - last
                < cfg.slow_scale_down_cooldown_ms * 1_000_000 && cfg.slow_scale_down_cooldown_ms
                > 0;
            &&& t.fast_streak == 0
            &&& slow && !recent ==> {
                &&& s.shared_limit > l.shared_min ==> t.shared_limit == s.shared_limit - 1
                &&& s.shared_limit == l.shared_min ==> t.shared_limit == s.shared_limit
                &&& s.segment_limit > l.segment_min ==> t.segment_limit == s.segment_limit - 1
                &&& s.segment_limit == l.segment_min ==> t.segment_limit == s.segment_limit
                &&& t.last_slow_scale_down == Some(now)
            }
            &&& !slow || recent ==> t.shared_limit == s.shared_limit && t.segment_limit
                == s.segment_limit && t.last_slow_scale_down == s.last_slow_scale_down
            &&& !slow ==> t.failure_streak == 0
            &&& t.in_flight == s.in_flight && t.short_source == s.short_source
        }),
{
}

/// The last of a streak of fast downloads adds one to each limit below its usual number; those
/// before it only count.
pub proof fn law_fast_streak_raises(
    s: TuningState,
    cfg: FetchTuningConfig,
    elapsed: u64,
    now: u64,
)
    requires
        cfg.enabled,
        s.fits(cfg),
        elapsed <= cfg.fast_fetch_ms * 1_000_000,
        elapsed < cfg.slow_fetch_ms * 1_000_000,
        s.fast_streak < usize::MAX,
    ensures
        ({
            let t = s.after_success(cfg, elapsed, now);
            let l = cfg.bounds(s.short_source);
            let last = s.fast_streak + 1 >= cfg.fast_streak_to_scale_up;
            &&& t.failure_streak == 0
            &&& last ==> {
                &&& t.fast_streak == 0
                &&& s.shared_limit < l.shared_base ==> t.shared_limit == s.shared_limit + 1
                &&& s.shared_limit == l.shared_base ==> t.shared_limit == s.shared_limit
                &&& s.segment_limit < l.segment_base ==> t.segment_limit == s.segment_limit + 1
                &&& s.segment_limit == l.segment_base ==> t.segment_limit == s.segment_limit
            }
            &&& !last ==> t.fast_streak == s.fast_streak + 1 && t.shared_limit == s.shared_limit
                && t.segment_limit == s.segment_limit
        }),
{
}

/// The last of a streak of failures takes one from each limit that is above its least, whenever
/// the limits were lowered before; those before it only count.
pub proof fn law_failure_streak_lowers(s: TuningState, cfg: FetchTuningConfig, now: u64)
    requires
        cfg.enabled,
        s.fits(cfg),
        s.failure_streak < usize::MAX,
    ensures
        ({
            let t = s.after_failure(cfg, now);
            let l = cfg.bounds(s.short_source);
            let last = s.failure_streak + 1 >= cfg.failure_streak_to_scale_down;
            &&& t.fast_streak == 0
            &&& last ==> {
                &&& t.failure_streak == 0
                &&& s.shared_limit > l.shared_min ==> t.shared_limit == s.shared_limit - 1
                &&& s.shared_limit == l.shared_min ==> t.shared_limit == s.shared_limit
                &&& s.segment_limit > l.segment_min ==> t.segment_limit == s.segment_limit - 1
                &&& s.segment_limit == l.segment_min ==> t.segment_limit == s.segment_limit
            }
            &&& !last ==> t.failure_streak == s.failure_streak + 1 && t.shared_limit
                == s.shared_limit && t.segment_limit == s.segment_limit
            &&& t.last_slow_scale_down == s.last_slow_scale_down
        }),
{
}

} // verus!
