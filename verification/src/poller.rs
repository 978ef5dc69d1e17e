use vstd::prelude::*;

use crate::config::Config;
use crate::metric::Metric;
use crate::store::{bounded_push, SampleStore};

verus! {

/// Why a sensor read produced no value this cycle. One metric's failure is
/// swallowed for the cycle: it is retried at the next poll and never stops
/// the other metric from being sampled.
#[derive(Clone, Copy, Debug, PartialEq, Eq, Structural)]
pub enum SensorError {
    /// The backing driver or service could not be reached.
    Unavailable,
    /// The backend answered with text that did not parse as a reading.
    ParseFailure,
    /// An external diagnostic process failed to launch or exit cleanly.
    ProcessFailure,
}

/// Drives the sampling cadence. The poller owns a single poll-cycle timer:
/// the millisecond instant at which the current wait began, or nothing while
/// idle. A check while idle stamps the clock; a check at least the configured
/// interval after the stamp declares a sampling pass due; recording the
/// pass's outcome clears the stamp, so the wait restarts from the next check.
pub struct Poller {
    /// The poll-cycle timer: `Some(stamp)` while waiting, `None` while idle.
    pub timer: Option<u64>,
}

/// The poll-cycle timer as the cadence model sees it: the same stamp, on
/// unbounded integers.
pub open spec fn timer_model(timer: Option<u64>) -> Option<int> {
    match timer {
        Some(stamp) => Some(stamp as int),
        None => None,
    }
}

/// The timer after one check at time `now`, before any recording: an idle
/// timer is stamped with `now`; a running one keeps its stamp.
pub open spec fn stamped(timer: Option<int>, now: int) -> Option<int> {
    match timer {
        Some(stamp) => Some(stamp),
        None => Some(now),
    }
}

/// Whether a check at time `now` finds a sampling pass due: the timer is
/// stamped and at least `interval` has elapsed since the stamp.
pub open spec fn cycle_fires(timer: Option<int>, now: int, interval: int) -> bool {
    timer matches Some(stamp) && stamp + interval <= now
}

/// The timer after one full poll cycle at time `now`: a cycle is one `check`,
/// followed by one `record_samples` when the check declared a pass due. An
/// idle timer comes out stamped, a fired one cleared, any other unchanged.
pub open spec fn cycle_step(timer: Option<int>, now: int, interval: int) -> Option<int> {
    if cycle_fires(timer, now, interval) {
        None
    } else {
        stamped(timer, now)
    }
}

/// The value one poll cycle contributes to one metric's history: the reading
/// itself when the metric is enabled and its sensor read succeeded, nothing
/// when the metric is disabled or the read failed.
pub open spec fn cycle_outcome(enabled: bool, reading: Result<u32, SensorError>) -> Option<u32> {
    match reading {
        Ok(value) => if enabled {
            Some(value)
        } else {
            None
        },
        Err(_) => None,
    }
}

/// One metric's history after a poll cycle that contributed `outcome`.
pub open spec fn recorded_series(s: Seq<u32>, outcome: Option<u32>, cap: nat) -> Seq<u32> {
    match outcome {
        Some(value) => bounded_push(s, value, cap),
        None => s,
    }
}

/// One metric's history after a whole run of poll cycles, given the value
/// each cycle contributed to it (`None` for every cycle on which the metric
/// was disabled or its sensor read failed).
pub open spec fn series_after_cycles(init: Seq<u32>, outcomes: Seq<Option<u32>>, cap: nat) -> Seq<u32>
    decreases outcomes.len(),
{
    if outcomes.len() == 0 {
        init
    } else {
        series_after_cycles(recorded_series(init, outcomes[0], cap), outcomes.skip(1), cap)
    }
}

/// Law (disabled-metric isolation): a metric that contributes nothing on any
/// cycle — one disabled throughout, in particular — ends with its history
/// exactly where it began, however many cycles run and whatever the other
/// metric receives.
pub proof fn lemma_disabled_metric_untouched(init: Seq<u32>, outcomes: Seq<Option<u32>>, cap: nat)
    requires
        forall|i: int| 0 <= i < outcomes.len() ==> outcomes[i] is None,
    ensures
        series_after_cycles(init, outcomes, cap) == init,
    decreases outcomes.len(),
{
    if outcomes.len() > 0 {
        assert(outcomes[0] is None);
        assert(forall|i: int|
            0 <= i < outcomes.skip(1).len() ==> outcomes.skip(1)[i] is None) by {
            assert(forall|i: int|
                0 <= i < outcomes.skip(1).len() ==> outcomes.skip(1)[i] == outcomes[i + 1]);
        }
        lemma_disabled_metric_untouched(init, outcomes.skip(1), cap);
    }
}

/// Law (successful cycles push): over a run of poll cycles on each of which
/// a metric is enabled and its read succeeds, the metric's history is exactly
/// the pushed values replayed one per cycle — so by the bounded-buffer law it
/// ends as the most recent `cap` of them.
pub proof fn lemma_successful_cycles_replay(
    init: Seq<u32>,
    outcomes: Seq<Option<u32>>,
    values: Seq<u32>,
    cap: nat,
)
    requires
        values.len() == outcomes.len(),
        forall|i: int| 0 <= i < outcomes.len() ==> outcomes[i] == Some(values[i]),
    ensures
        series_after_cycles(init, outcomes, cap) == crate::store::replay_pushes(init, values, cap),
    decreases outcomes.len(),
{
    if outcomes.len() > 0 {
        assert(outcomes[0] == Some(values[0]));
        assert(forall|i: int|
            0 <= i < outcomes.skip(1).len() ==> outcomes.skip(1)[i] == outcomes[i + 1]
                && values.skip(1)[i] == values[i + 1]);
        lemma_successful_cycles_replay(
            bounded_push(init, values[0], cap),
            outcomes.skip(1),
            values.skip(1),
            cap,
        );
    }
}

/// How many sampling passes fire over a run of poll cycles whose checks
/// happen at the instants `checks`, starting from the given timer.
pub open spec fn fire_count(timer: Option<int>, checks: Seq<int>, interval: int) -> nat
    decreases checks.len(),
{
    if checks.len() == 0 {
        0
    } else {
        (if cycle_fires(timer, checks[0], interval) {
            1nat
        } else {
            0nat
        }) + fire_count(cycle_step(timer, checks[0], interval), checks.skip(1), interval)
    }
}

/// Law (no backlog): a check fires at most one sampling pass, however long
/// the timer has been overdue — cycles missed while a slow pass or a sparse
/// check schedule held things up are skipped, never batched up afterwards.
pub proof fn lemma_no_batching(timer: Option<int>, checks: Seq<int>, interval: int)
    ensures
        fire_count(timer, checks, interval) <= checks.len(),
    decreases checks.len(),
{
    if checks.len() > 0 {
        lemma_no_batching(cycle_step(timer, checks[0], interval), checks.skip(1), interval);
    }
}

/// Law (cadence lower bound, waiting case): with the timer stamped at
/// `stamp`, checks at nondecreasing instants no later than `hi` fire at most
/// once per `interval` of the span from the stamp to `hi`: every pass waits
/// out a full interval from a stamp taken no earlier than the pass before.
pub proof fn lemma_fire_count_from_stamp(stamp: int, checks: Seq<int>, interval: int, hi: int)
    requires
        interval >= 1,
        stamp <= hi,
        forall|i: int| 0 <= i < checks.len() ==> checks[i] <= hi,
        forall|i: int, j: int| 0 <= i <= j < checks.len() ==> checks[i] <= checks[j],
    ensures
        fire_count(Some(stamp), checks, interval) * interval <= hi - stamp,
    decreases checks.len(),
{
    if checks.len() > 0 {
        let now = checks[0];
        let rest = checks.skip(1);
        assert(forall|i: int| 0 <= i < rest.len() ==> rest[i] == checks[i + 1]);
        if cycle_fires(Some(stamp), now, interval) {
            lemma_fire_count_idle(rest, interval, now, hi);
            let c = fire_count(None, rest, interval) as int;
            assert(cycle_step(Some(stamp), now, interval) is None);
            assert(fire_count(Some(stamp), checks, interval) == 1 + c);
            assert(c * interval <= hi - now);
            assert(stamp + interval <= now);
            assert((1 + c) * interval == interval + c * interval) by (nonlinear_arith);
            assert((1 + c) * interval <= hi - stamp);
            assert(fire_count(Some(stamp), checks, interval) * interval <= hi - stamp);
        } else {
            lemma_fire_count_from_stamp(stamp, rest, interval, hi);
            assert(cycle_step(Some(stamp), now, interval) == Some(stamp));
            assert(fire_count(Some(stamp), checks, interval) == fire_count(
                Some(stamp),
                rest,
                interval,
            ));
            assert(fire_count(Some(stamp), checks, interval) * interval <= hi - stamp);
        }
    } else {
        assert(fire_count(Some(stamp), checks, interval) == 0);
        assert(fire_count(Some(stamp), checks, interval) * interval <= hi - stamp);
    }
}

/// Law (cadence lower bound, idle case): starting idle, the first check only
/// stamps the clock, so over checks within `[lo, hi]` at most
/// `(hi - lo) / interval` passes fire.
pub proof fn lemma_fire_count_idle(checks: Seq<int>, interval: int, lo: int, hi: int)
    requires
        interval >= 1,
        lo <= hi,
        forall|i: int| 0 <= i < checks.len() ==> lo <= #[trigger] checks[i] <= hi,
        forall|i: int, j: int| 0 <= i <= j < checks.len() ==> checks[i] <= checks[j],
    ensures
        fire_count(None, checks, interval) * interval <= hi - lo,
    decreases checks.len(),
{
    if checks.len() > 0 {
        let now = checks[0];
        let rest = checks.skip(1);
        assert(forall|i: int| 0 <= i < rest.len() ==> rest[i] == checks[i + 1]);
        lemma_fire_count_from_stamp(now, rest, interval, hi);
        assert(lo <= now);
        assert(!cycle_fires(None, now, interval));
        assert(cycle_step(None, now, interval) == Some(now));
        assert(fire_count(None, checks, interval) == fire_count(Some(now), rest, interval));
        assert(fire_count(None, checks, interval) * interval <= hi - lo);
    } else {
        assert(fire_count(None, checks, interval) == 0);
        assert(fire_count(None, checks, interval) * interval <= hi - lo);
    }
}

/// Law (cadence lower bound): starting idle, across poll cycles checked at
/// nondecreasing instants inside a window spanning `hi - lo`, the number of
/// sampling passes that fire is at most `(hi - lo) / interval`: consecutive
/// passes are separated by at least the configured interval, so a window of
/// span T sees at most T / interval of them.
pub proof fn lemma_cadence_lower_bound(checks: Seq<int>, interval: int, lo: int, hi: int)
    requires
        interval >= 1,
        lo <= hi,
        forall|i: int| 0 <= i < checks.len() ==> lo <= #[trigger] checks[i] <= hi,
        forall|i: int, j: int| 0 <= i <= j < checks.len() ==> checks[i] <= checks[j],
    ensures
        fire_count(None, checks, interval) * interval <= hi - lo,
        fire_count(None, checks, interval) <= (hi - lo) / interval,
{
    lemma_fire_count_idle(checks, interval, lo, hi);
    let c = fire_count(None, checks, interval) as int;
    vstd::arithmetic::div_mod::lemma_div_multiples_vanish(c, interval);
    vstd::arithmetic::div_mod::lemma_div_is_ordered(c * interval, hi - lo, interval);
    assert(interval * c == c * interval) by (nonlinear_arith);
}

/// Law (cadence upper bound, waiting case, dense checks): with the timer
/// stamped at `stamp` and a check at every millisecond instant of
/// `(stamp, hi]`, passes keep firing at least once per `interval + 1`: the
/// wait from each stamp ends the moment the interval has elapsed.
pub proof fn lemma_dense_fire_floor_from_stamp(
    stamp: int,
    checks: Seq<int>,
    interval: int,
    lo: int,
    hi: int,
)
    requires
        interval >= 1,
        stamp < lo <= stamp + interval,
        lo <= hi + 1,
        checks.len() == hi + 1 - lo,
        forall|i: int| 0 <= i < checks.len() ==> #[trigger] checks[i] == lo + i,
    ensures
        fire_count(Some(stamp), checks, interval) * (interval + 1) + interval >= hi - stamp,
    decreases checks.len(),
{
    if checks.len() == 0 {
        assert(fire_count(Some(stamp), checks, interval) == 0);
    } else {
        let now = checks[0];
        let rest = checks.skip(1);
        assert(now == lo);
        assert(forall|i: int| 0 <= i < rest.len() ==> #[trigger] rest[i] == checks[i + 1]);
        if cycle_fires(Some(stamp), now, interval) {
            lemma_dense_fire_floor_idle(rest, interval, lo + 1, hi);
            let c = fire_count(None, rest, interval) as int;
            assert(fire_count(Some(stamp), checks, interval) == 1 + c);
            assert((1 + c) * (interval + 1) == interval + 1 + c * (interval + 1))
                by (nonlinear_arith);
            assert(lo == stamp + interval);
            assert((1 + c) * (interval + 1) + interval >= hi - stamp);
        } else {
            assert(now < stamp + interval);
            lemma_dense_fire_floor_from_stamp(stamp, rest, interval, lo + 1, hi);
            assert(fire_count(Some(stamp), checks, interval) == fire_count(
                Some(stamp),
                rest,
                interval,
            ));
        }
    }
}

/// Law (cadence upper bound, idle case, dense checks): starting idle with a
/// check at every millisecond instant of `[lo, hi]`, the first check stamps
/// at `lo` and passes then fire at least once per `interval + 1`.
pub proof fn lemma_dense_fire_floor_idle(checks: Seq<int>, interval: int, lo: int, hi: int)
    requires
        interval >= 1,
        lo <= hi + 1,
        checks.len() == hi + 1 - lo,
        forall|i: int| 0 <= i < checks.len() ==> #[trigger] checks[i] == lo + i,
    ensures
        fire_count(None, checks, interval) * (interval + 1) + interval >= hi - lo,
    decreases checks.len(),
{
    if checks.len() == 0 {
        assert(fire_count(None, checks, interval) == 0);
    } else {
        let now = checks[0];
        let rest = checks.skip(1);
        assert(now == lo);
        assert(forall|i: int| 0 <= i < rest.len() ==> #[trigger] rest[i] == checks[i + 1]);
        assert(!cycle_fires(None, now, interval));
        lemma_dense_fire_floor_from_stamp(lo, rest, interval, lo + 1, hi);
        assert(fire_count(None, checks, interval) == fire_count(Some(lo), rest, interval));
    }
}

/// Law (cadence upper bound): when the poller is checked at every millisecond
/// instant of a window — the dedicated-thread strategy with its small sleep
/// increment — the wait for a pass never stretches past one check beyond the
/// interval, so a window of span T sees at least (T - interval) /
/// (interval + 1) sampling passes. Together with `lemma_cadence_lower_bound`
/// this pins the cadence: one pass per interval at most, and with dense
/// checks one pass per interval-plus-a-check at least. The restarting timer
/// makes `interval + 1` the true dense-check period, not `interval`: the
/// stamp is retaken one check after each pass rather than advanced by the
/// interval.
pub proof fn lemma_dense_cadence_floor(checks: Seq<int>, interval: int, lo: int, hi: int)
    requires
        interval >= 1,
        lo <= hi + 1,
        checks.len() == hi + 1 - lo,
        forall|i: int| 0 <= i < checks.len() ==> #[trigger] checks[i] == lo + i,
    ensures
        fire_count(None, checks, interval) * (interval + 1) + interval >= hi - lo,
{
    lemma_dense_fire_floor_idle(checks, interval, lo, hi);
}

impl Poller {
    /// A poller whose timer is idle: the first check stamps the clock.
    pub fn new() -> (poller: Self)
        ensures
            poller.timer is None,
    {
        Poller { timer: None }
    }

    /// One check of the poll-cycle timer at millisecond instant `now_ms`.
    /// Stamps the clock when idle and reports whether a sampling pass is due:
    /// due exactly when the stamp is at least `poll_interval_ms` old. The
    /// caller then reads the enabled sensors and hands the outcome to
    /// `record_samples`.
    pub fn check(&mut self, now_ms: u64, poll_interval_ms: u64) -> (due: bool)
        ensures
            due == cycle_fires(
                timer_model(old(self).timer),
                now_ms as int,
                poll_interval_ms as int,
            ),
            timer_model(final(self).timer) == stamped(timer_model(old(self).timer), now_ms as int),
    {
        match self.timer {
            None => {
                self.timer = Some(now_ms);
                false
            },
            Some(stamp) => now_ms >= stamp && now_ms - stamp >= poll_interval_ms,
        }
    }

    /// Records the outcome of one sampling pass. Each metric that is enabled
    /// and whose sensor read succeeded has its value pushed into the store,
    /// trimmed to the configured capacity; a disabled metric or a failed read
    /// leaves that metric's history exactly as it was, whatever the other
    /// metric did. Clears the poll-cycle timer, so the next check stamps the
    /// clock afresh and every enabled metric — a just-failed one included —
    /// is attempted again once the interval elapses.
    pub fn record_samples(
        &mut self,
        store: &mut SampleStore,
        config: &Config,
        cpu_reading: Result<u32, SensorError>,
        gpu_reading: Result<u32, SensorError>,
    )
        ensures
            final(store).series(Metric::Cpu) == recorded_series(
                old(store).series(Metric::Cpu),
                cycle_outcome(config.enabled(Metric::Cpu), cpu_reading),
                config.capacity as nat,
            ),
            final(store).series(Metric::Gpu) == recorded_series(
                old(store).series(Metric::Gpu),
                cycle_outcome(config.enabled(Metric::Gpu), gpu_reading),
                config.capacity as nat,
            ),
            final(self).timer is None,
    {
        if config.is_enabled(Metric::Cpu) {
            if let Ok(value) = cpu_reading {
                store.push(Metric::Cpu, value, config.capacity);
            }
        }
        if config.is_enabled(Metric::Gpu) {
            if let Ok(value) = gpu_reading {
                store.push(Metric::Gpu, value, config.capacity);
            }
        }
        self.timer = None;
    }
}

} // verus!
