//! The mathematical model of the statistics of one character, and the
//! laws that hold of it.
//!
//! `StatsModel` holds counts, the two moving averages and the two
//! append-only logs as unbounded integers and sequences. Recording an
//! attempt, rebuilding the averages and weighing a character are functions
//! on the model; the executable statistics are specified by them.
//!
//! Units: times of day are milliseconds since the Unix epoch, response
//! times are whole milliseconds, the accuracy average is in millionths and
//! the response average in millionths of a millisecond.

use vstd::prelude::*;
use crate::fixed::{lemma_logistic_bounds, logistic, SCALE};

verus! {

/// The weight of a character that was never attempted: three, in
/// millionths. No attempted character reaches it.
pub const NEW_WEIGHT: u64 = 3_000_000;

/// The centre of the recency curve, in seconds since the last attempt.
pub const RECENCY_CENTRE_SECONDS: u64 = 1800;

/// The slope of the recency curve: millionths of its argument per second.
pub const RECENCY_SLOPE: u64 = 2000;

/// The centre of the response curve: 1200 ms, in millionths of a
/// millisecond.
pub const RESPONSE_CENTRE: u64 = 1_200_000_000;

/// The divisor that takes a response average to the argument of its
/// curve (a slope of 0.005 per millisecond).
pub const RESPONSE_DIVISOR: u64 = 200;

/// The quotient `n / d` rounded to the nearest integer, halves upwards.
pub open spec fn div_round(n: int, d: int) -> int {
    (2 * n + d) / (2 * d)
}

/// One step of the moving average with decay factor one fifth:
/// `0.2 * raw + 0.8 * prev`, rounded to the nearest unit.
pub open spec fn ema_step(prev: int, raw: int) -> int {
    div_round(raw + 4 * prev, 5)
}

/// The moving average of a sequence of raw values, oldest first: zero for
/// none, the first value itself for one, and a blend for each later one.
pub open spec fn ema_replay(raws: Seq<int>) -> int
    decreases raws.len(),
{
    if raws.len() == 0 {
        0
    } else if raws.len() == 1 {
        raws[0]
    } else {
        ema_step(ema_replay(raws.drop_last()), raws.last())
    }
}

/// A failed attempt: what was typed, and when.
pub struct MistakeRecord {
    pub input: Seq<char>,
    pub timestamp: int,
}

/// An attempt: what was typed, when the prompt appeared, how long the
/// answer took, and whether it was right.
pub struct TestRecord {
    pub input: Seq<char>,
    pub start_time: int,
    pub duration_ms: int,
    pub success: bool,
}

impl TestRecord {
    /// The raw value that this attempt feeds into the response average.
    pub open spec fn response_raw(self) -> int {
        self.duration_ms * SCALE
    }

    /// The raw value that this attempt feeds into the accuracy average.
    pub open spec fn accuracy_raw(self) -> int {
        if self.success {
            SCALE as int
        } else {
            0
        }
    }
}

/// The raw response values of a log of attempts.
pub open spec fn response_raws(h: Seq<TestRecord>) -> Seq<int> {
    Seq::new(h.len(), |i: int| h[i].response_raw())
}

/// The raw accuracy values of a log of attempts.
pub open spec fn accuracy_raws(h: Seq<TestRecord>) -> Seq<int> {
    Seq::new(h.len(), |i: int| h[i].accuracy_raw())
}

/// The sum of the durations of a log of attempts.
pub open spec fn total_duration(h: Seq<TestRecord>) -> int
    decreases h.len(),
{
    if h.len() == 0 {
        0
    } else {
        total_duration(h.drop_last()) + h.last().duration_ms
    }
}

/// The number of successful attempts in a log.
pub open spec fn success_count(h: Seq<TestRecord>) -> int
    decreases h.len(),
{
    if h.len() == 0 {
        0
    } else {
        success_count(h.drop_last()) + if h.last().success {
            1int
        } else {
            0int
        }
    }
}

/// Whole seconds from `earlier` to `later`, both in milliseconds, rounded
/// towards zero.
pub open spec fn whole_seconds_between(earlier: int, later: int) -> int {
    if later >= earlier {
        (later - earlier) / 1000
    } else {
        -((earlier - later) / 1000)
    }
}

/// The mathematical content of the statistics of one character.
pub struct StatsModel {
    pub appearances: nat,
    pub successes: nat,
    pub failures: nat,
    pub total_response_time: nat,
    pub last_appearance: int,
    pub exp_avg_response: nat,
    pub exp_avg_accuracy: nat,
    pub mistakes: Seq<MistakeRecord>,
    pub test_history: Seq<TestRecord>,
}

impl StatsModel {
    /// The statistics of a character that was never attempted, created at
    /// time `now`.
    pub open spec fn fresh(now: int) -> StatsModel {
        StatsModel {
            appearances: 0,
            successes: 0,
            failures: 0,
            total_response_time: 0,
            last_appearance: now,
            exp_avg_response: 0,
            exp_avg_accuracy: 0,
            mistakes: Seq::empty(),
            test_history: Seq::empty(),
        }
    }

    /// The invariant of the data: the counts agree with each other and
    /// with the logs, every duration fits 32 bits, and the averages lie in
    /// the range of their raw values.
    pub open spec fn wf(self) -> bool {
        &&& self.successes + self.failures == self.appearances
        &&& self.test_history.len() == self.appearances
        &&& self.mistakes.len() == self.failures
        &&& success_count(self.test_history) == self.successes
        &&& total_duration(self.test_history) == self.total_response_time
        &&& forall|i: int|
            0 <= i < self.test_history.len() ==> 0 <= (#[trigger] self.test_history[i]).duration_ms
                <= u32::MAX
        &&& self.exp_avg_accuracy <= SCALE
        &&& self.exp_avg_response <= u32::MAX * SCALE
        &&& self.appearances == 0 ==> self.exp_avg_accuracy == 0 && self.exp_avg_response == 0
    }

    /// The statistics after one more attempt: `input` was typed,
    /// `response_time` milliseconds after the prompt, and the answer was
    /// judged at time `now`.
    pub open spec fn record(self, input: Seq<char>, success: bool, response_time: int, now: int)
        -> StatsModel {
        let entry = TestRecord {
            input,
            start_time: now - response_time,
            duration_ms: response_time,
            success,
        };
        StatsModel {
            appearances: self.appearances + 1,
            successes: if success {
                self.successes + 1
            } else {
                self.successes
            },
            failures: if success {
                self.failures
            } else {
                self.failures + 1
            },
            total_response_time: (self.total_response_time + response_time) as nat,
            last_appearance: now,
            exp_avg_response: (if self.appearances == 0 {
                entry.response_raw()
            } else {
                ema_step(self.exp_avg_response as int, entry.response_raw())
            }) as nat,
            exp_avg_accuracy: (if self.appearances == 0 {
                entry.accuracy_raw()
            } else {
                ema_step(self.exp_avg_accuracy as int, entry.accuracy_raw())
            }) as nat,
            mistakes: if success {
                self.mistakes
            } else {
                self.mistakes.push(MistakeRecord { input, timestamp: now })
            },
            test_history: self.test_history.push(entry),
        }
    }

    /// The statistics with both averages rebuilt from the log of attempts.
    pub open spec fn recalculated(self) -> StatsModel {
        StatsModel {
            exp_avg_response: ema_replay(response_raws(self.test_history)) as nat,
            exp_avg_accuracy: ema_replay(accuracy_raws(self.test_history)) as nat,
            ..self
        }
    }

    /// Whether the stored averages are those that the log of attempts
    /// gives.
    pub open spec fn averages_match_history(self) -> bool {
        &&& self.exp_avg_response == ema_replay(response_raws(self.test_history))
        &&& self.exp_avg_accuracy == ema_replay(accuracy_raws(self.test_history))
    }

    /// The share of failed answers in the accuracy average, in millionths.
    pub open spec fn error_component(self) -> int {
        SCALE - self.exp_avg_accuracy
    }

    /// How stale the character is at time `now`: the logistic curve over
    /// the seconds since the last attempt, centred at half an hour.
    pub open spec fn recency_component(self, now: int) -> int {
        logistic(
            RECENCY_SLOPE * (whole_seconds_between(self.last_appearance, now)
                - RECENCY_CENTRE_SECONDS),
        )
    }

    /// How slow the answers are: the logistic curve over the response
    /// average, centred at 1200 ms.
    pub open spec fn response_component(self) -> int {
        logistic((self.exp_avg_response - RESPONSE_CENTRE) / (RESPONSE_DIVISOR as int))
    }

    /// The sampling priority at time `now`, in millionths: three for a
    /// character never attempted, else one plus the mean of the three
    /// components, rounded to the nearest millionth.
    pub open spec fn weight(self, now: int) -> int {
        if self.appearances == 0 {
            NEW_WEIGHT as int
        } else {
            SCALE + div_round(
                self.error_component() + self.recency_component(now) + self.response_component(),
                3,
            )
        }
    }
}

/// The last `n` entries of a log, or all of it if it holds fewer.
pub open spec fn recent<T>(h: Seq<T>, n: int) -> Seq<T> {
    if n >= h.len() {
        h
    } else if n <= 0 {
        Seq::empty()
    } else {
        h.subrange(h.len() - n, h.len() as int)
    }
}

/// Whole hours from `earlier` to `later`, both in milliseconds, rounded
/// towards zero.
pub open spec fn whole_hours_between(earlier: int, later: int) -> int {
    if later >= earlier {
        (later - earlier) / 3_600_000
    } else {
        -((earlier - later) / 3_600_000)
    }
}

impl StatsModel {
    /// The share of successful attempts, in millionths; zero before the
    /// first attempt.
    pub open spec fn success_rate(self) -> int {
        if self.appearances == 0 {
            0
        } else {
            div_round(self.successes * SCALE, self.appearances as int)
        }
    }

    /// The mean response time, in millionths of a millisecond; zero before
    /// the first attempt.
    pub open spec fn avg_response_time(self) -> int {
        if self.appearances == 0 {
            0
        } else {
            div_round(self.total_response_time * SCALE, self.appearances as int)
        }
    }

    /// The mean response time of the last `n` attempts, in millionths of a
    /// millisecond; zero if there is none.
    pub open spec fn recent_avg_response_time(self, n: int) -> int {
        let r = recent(self.test_history, n);
        if r.len() == 0 {
            0
        } else {
            div_round(total_duration(r) * SCALE, r.len() as int)
        }
    }

    /// The share of successes among the last `n` attempts, in millionths;
    /// zero if there is none.
    pub open spec fn recent_success_rate(self, n: int) -> int {
        let r = recent(self.test_history, n);
        if r.len() == 0 {
            0
        } else {
            div_round(success_count(r) * SCALE, r.len() as int)
        }
    }

    /// The three parts of the priority as the progress display shows them,
    /// in millionths: three times the error share; half the response
    /// average taken against five seconds and capped at one; and the whole
    /// hours since the last attempt, capped at a day, as a share of a day.
    /// A character never attempted shows five, zero and zero.
    pub open spec fn weight_components(self, now: int) -> (int, int, int) {
        if self.appearances == 0 {
            (5 * SCALE, 0, 0)
        } else {
            let hours = whole_hours_between(self.last_appearance, now);
            let capped = if hours > 24 {
                24
            } else {
                hours
            };
            let response = self.exp_avg_response / 5000;
            (
                3 * self.error_component(),
                (if response > SCALE {
                    SCALE as int
                } else {
                    response as int
                }) / 2,
                if capped >= 0 {
                    div_round(capped * SCALE, 24)
                } else {
                    -div_round(-capped * SCALE, 24)
                },
            )
        }
    }
}

/// One attempt as `record` takes it: what was typed, whether it was
/// right, the response time in milliseconds and the time of judgement.
pub struct Attempt {
    pub input: Seq<char>,
    pub success: bool,
    pub response_time: int,
    pub now: int,
}

/// The number of failed attempts in a sequence.
pub open spec fn failed_count(attempts: Seq<Attempt>) -> int
    decreases attempts.len(),
{
    if attempts.len() == 0 {
        0
    } else {
        failed_count(attempts.drop_last()) + if attempts.last().success {
            0int
        } else {
            1int
        }
    }
}

impl StatsModel {
    /// The statistics after a sequence of attempts, oldest first.
    pub open spec fn record_all(self, attempts: Seq<Attempt>) -> StatsModel
        decreases attempts.len(),
    {
        if attempts.len() == 0 {
            self
        } else {
            let a = attempts.last();
            self.record_all(attempts.drop_last()).record(a.input, a.success, a.response_time, a.now)
        }
    }
}

/// Rounding a quotient moves it by less than one: the result lies between
/// the bounds of the dividend scaled down.
pub proof fn lemma_div_round_bounds(n: int, d: int, lo: int, hi: int)
    requires
        d > 0,
        lo * d <= n <= hi * d,
    ensures
        lo <= div_round(n, d) <= hi,
{
    assert(lo <= (2 * n + d) / (2 * d) <= hi) by (nonlinear_arith)
        requires
            d > 0,
            lo * d <= n <= hi * d,
    ;
}

/// A moving-average step stays within any range that holds both the old
/// average and the raw value.
pub proof fn lemma_ema_step_bounds(prev: int, raw: int, lo: int, hi: int)
    requires
        lo <= prev <= hi,
        lo <= raw <= hi,
    ensures
        lo <= ema_step(prev, raw) <= hi,
{
    lemma_div_round_bounds(raw + 4 * prev, 5, lo, hi);
}

/// The power `5^n`.
pub open spec fn pow5(n: nat) -> int
    decreases n,
{
    if n == 0 {
        1
    } else {
        5 * pow5((n - 1) as nat)
    }
}

/// The moving average of `n` raw values without any rounding, times
/// `5^(n - 1)`: the exact average is this numerator over that power.
pub open spec fn exact_ema_numerator(raws: Seq<int>) -> int
    decreases raws.len(),
{
    if raws.len() == 0 {
        0
    } else if raws.len() == 1 {
        raws[0]
    } else {
        pow5((raws.len() - 2) as nat) * raws.last() + 4 * exact_ema_numerator(raws.drop_last())
    }
}

/// Rounding at every step never moves the moving average further than
/// two and a half units from the average without rounding, however many
/// values are blended in.
pub proof fn law_ema_stays_near_exact_average(raws: Seq<int>)
    requires
        raws.len() >= 1,
    ensures
        ({
            let d = pow5((raws.len() - 1) as nat);
            -5 * d <= 2 * (ema_replay(raws) * d - exact_ema_numerator(raws)) <= 5 * d
        }),
    decreases raws.len(),
{
    if raws.len() >= 2 {
        let before = raws.drop_last();
        law_ema_stays_near_exact_average(before);
        let x = raws.last();
        let p = ema_replay(before);
        let r = ema_replay(raws);
        let dp = pow5((raws.len() - 2) as nat);
        let d = pow5((raws.len() - 1) as nat);
        let np = exact_ema_numerator(before);
        let n = exact_ema_numerator(raws);
        assert(d == 5 * dp);
        assert(n == dp * x + 4 * np);
        assert(r == (2 * (x + 4 * p) + 5) / 10);
        assert(-5 <= 2 * (5 * r - x - 4 * p) <= 5);
        lemma_pow5_positive((raws.len() - 2) as nat);
        assert(-5 * d <= 2 * (r * d - n) <= 5 * d) by (nonlinear_arith)
            requires
                d == 5 * dp,
                dp > 0,
                n == dp * x + 4 * np,
                -5 <= 2 * (5 * r - x - 4 * p) <= 5,
                -5 * dp <= 2 * (p * dp - np) <= 5 * dp,
        ;
    }
}

/// Every power of five is positive.
pub proof fn lemma_pow5_positive(n: nat)
    ensures
        pow5(n) > 0,
    decreases n,
{
    if n > 0 {
        lemma_pow5_positive((n - 1) as nat);
    }
}

/// The log of one more attempt feeds one more raw value into each
/// average.
pub proof fn lemma_raws_push(h: Seq<TestRecord>, e: TestRecord)
    ensures
        response_raws(h.push(e)) == response_raws(h).push(e.response_raw()),
        accuracy_raws(h.push(e)) == accuracy_raws(h).push(e.accuracy_raw()),
{
    assert(response_raws(h.push(e)) =~= response_raws(h).push(e.response_raw()));
    assert(accuracy_raws(h.push(e)) =~= accuracy_raws(h).push(e.accuracy_raw()));
}

/// Replaying one more raw value is one more step: a seed on an empty
/// sequence, a blend otherwise.
pub proof fn lemma_ema_replay_push(raws: Seq<int>, x: int)
    ensures
        ema_replay(raws.push(x)) == if raws.len() == 0 {
            x
        } else {
            ema_step(ema_replay(raws), x)
        },
{
    assert(raws.push(x).drop_last() =~= raws);
}

/// A replayed average stays within any range that holds zero and every
/// raw value.
pub proof fn lemma_ema_replay_bounds(raws: Seq<int>, hi: int)
    requires
        forall|i: int| 0 <= i < raws.len() ==> 0 <= #[trigger] raws[i] <= hi,
        0 <= hi,
    ensures
        0 <= ema_replay(raws) <= hi,
    decreases raws.len(),
{
    if raws.len() >= 2 {
        lemma_ema_replay_bounds(raws.drop_last(), hi);
        lemma_ema_step_bounds(ema_replay(raws.drop_last()), raws.last(), 0, hi);
    }
}

/// Recording an attempt keeps the data well formed.
pub proof fn lemma_record_preserves_wf(
    s: StatsModel,
    input: Seq<char>,
    success: bool,
    response_time: int,
    now: int,
)
    requires
        s.wf(),
        0 <= response_time <= u32::MAX,
    ensures
        s.record(input, success, response_time, now).wf(),
{
    let r = s.record(input, success, response_time, now);
    let e = r.test_history.last();
    assert(r.test_history.drop_last() =~= s.test_history);
    assert(0 <= e.response_raw() <= u32::MAX * SCALE) by (nonlinear_arith)
        requires
            e.response_raw() == response_time * SCALE,
            0 <= response_time <= u32::MAX,
    ;
    lemma_ema_step_bounds(s.exp_avg_response as int, e.response_raw(), 0, u32::MAX * SCALE);
    lemma_ema_step_bounds(s.exp_avg_accuracy as int, e.accuracy_raw(), 0, SCALE as int);
    assert forall|i: int| 0 <= i < r.test_history.len() implies 0 <= (
    #[trigger] r.test_history[i]).duration_ms <= u32::MAX by {
        if i < s.test_history.len() {
            assert(r.test_history[i] == s.test_history[i]);
        }
    }
}

/// A character that was never attempted weighs exactly `NEW_WEIGHT`,
/// whatever the time and whatever else its statistics hold.
pub proof fn law_unseen_weight_is_constant(s: StatsModel, now: int)
    requires
        s.appearances == 0,
    ensures
        s.weight(now) == NEW_WEIGHT,
{
}

/// A character that was attempted weighs strictly more than one and
/// strictly less than two, at every time.
pub proof fn law_seen_weight_is_between_one_and_two(s: StatsModel, now: int)
    requires
        s.wf(),
        s.appearances > 0,
    ensures
        SCALE < s.weight(now) < 2 * SCALE,
        s.weight(now) < NEW_WEIGHT,
{
    lemma_logistic_bounds(
        RECENCY_SLOPE * (whole_seconds_between(s.last_appearance, now) - RECENCY_CENTRE_SECONDS),
    );
    lemma_logistic_bounds(
        (s.exp_avg_response - RESPONSE_CENTRE) / (RESPONSE_DIVISOR as int),
    );
}

/// Recording is append-only: the log of attempts grows by exactly the new
/// attempt, and the log of mistakes grows by it exactly when it failed.
/// Nothing that was logged before changes.
pub proof fn law_record_appends(
    s: StatsModel,
    input: Seq<char>,
    success: bool,
    response_time: int,
    now: int,
)
    ensures
        ({
            let r = s.record(input, success, response_time, now);
            &&& r.test_history.len() == s.test_history.len() + 1
            &&& r.test_history.drop_last() == s.test_history
            &&& r.test_history.last() == (TestRecord {
                input,
                start_time: now - response_time,
                duration_ms: response_time,
                success,
            })
            &&& success ==> r.mistakes == s.mistakes
            &&& !success ==> r.mistakes.drop_last() == s.mistakes && r.mistakes.last() == (
            MistakeRecord { input, timestamp: now })
        }),
{
    let r = s.record(input, success, response_time, now);
    assert(r.test_history.drop_last() =~= s.test_history);
    if !success {
        assert(r.mistakes.drop_last() =~= s.mistakes);
    }
}

/// After any sequence of attempts on fresh statistics the log of attempts
/// holds as many entries as there were attempts, and the log of mistakes
/// as many as failed.
pub proof fn law_logs_count_attempts(created: int, attempts: Seq<Attempt>)
    ensures
        StatsModel::fresh(created).record_all(attempts).test_history.len() == attempts.len(),
        StatsModel::fresh(created).record_all(attempts).mistakes.len() == failed_count(attempts),
        StatsModel::fresh(created).record_all(attempts).appearances == attempts.len(),
    decreases attempts.len(),
{
    if attempts.len() > 0 {
        law_logs_count_attempts(created, attempts.drop_last());
    }
}

/// Rebuilding the averages twice gives what rebuilding them once gives:
/// they depend on the log of attempts alone.
pub proof fn law_recalculate_is_idempotent(s: StatsModel)
    ensures
        s.recalculated().recalculated() == s.recalculated(),
{
}

/// Rebuilt averages are those that the log of attempts gives, and the
/// data stays well formed.
pub proof fn lemma_recalculated_matches_history(s: StatsModel)
    requires
        s.wf(),
    ensures
        s.recalculated().averages_match_history(),
        s.recalculated().wf(),
{
    let raws_r = response_raws(s.test_history);
    let raws_a = accuracy_raws(s.test_history);
    assert forall|i: int| 0 <= i < raws_r.len() implies 0 <= #[trigger] raws_r[i] <= u32::MAX
        * SCALE by {
        let d = s.test_history[i].duration_ms;
        assert(0 <= d * SCALE <= u32::MAX * SCALE) by (nonlinear_arith)
            requires
                0 <= d <= u32::MAX,
        ;
    }
    lemma_ema_replay_bounds(raws_r, u32::MAX * SCALE);
    lemma_ema_replay_bounds(raws_a, SCALE as int);
}

/// Recording one attempt updates the averages to what a replay of the
/// longer log gives, if they were what a replay of the shorter one gave.
pub proof fn law_record_keeps_averages_in_step(
    s: StatsModel,
    input: Seq<char>,
    success: bool,
    response_time: int,
    now: int,
)
    requires
        s.wf(),
        0 <= response_time <= u32::MAX,
        s.averages_match_history(),
    ensures
        s.record(input, success, response_time, now).averages_match_history(),
{
    let r = s.record(input, success, response_time, now);
    let e = r.test_history.last();
    lemma_record_preserves_wf(s, input, success, response_time, now);
    lemma_raws_push(s.test_history, e);
    lemma_ema_replay_push(response_raws(s.test_history), e.response_raw());
    lemma_ema_replay_push(accuracy_raws(s.test_history), e.accuracy_raw());
}

/// The averages that a sequence of attempts builds up step by step on
/// fresh statistics are those that a replay of the resulting log gives:
/// rebuilding them changes nothing.
pub proof fn law_incremental_equals_replay(created: int, attempts: Seq<Attempt>)
    requires
        forall|i: int|
            0 <= i < attempts.len() ==> 0 <= (#[trigger] attempts[i]).response_time <= u32::MAX,
    ensures
        StatsModel::fresh(created).record_all(attempts).wf(),
        StatsModel::fresh(created).record_all(attempts).averages_match_history(),
        StatsModel::fresh(created).record_all(attempts).recalculated() == StatsModel::fresh(
            created,
        ).record_all(attempts),
    decreases attempts.len(),
{
    let f = StatsModel::fresh(created);
    if attempts.len() == 0 {
        assert(f.record_all(attempts) == f);
        assert(response_raws(f.test_history) =~= Seq::<int>::empty());
        assert(accuracy_raws(f.test_history) =~= Seq::<int>::empty());
    } else {
        let a = attempts.last();
        let before = f.record_all(attempts.drop_last());
        assert forall|i: int| 0 <= i < attempts.drop_last().len() implies 0 <= (
        #[trigger] attempts.drop_last()[i]).response_time <= u32::MAX by {
            assert(attempts.drop_last()[i] == attempts[i]);
        }
        law_incremental_equals_replay(created, attempts.drop_last());
        lemma_record_preserves_wf(before, a.input, a.success, a.response_time, a.now);
        law_record_keeps_averages_in_step(before, a.input, a.success, a.response_time, a.now);
    }
}

/// The durations of a log add up to at most `u32::MAX` each.
pub proof fn lemma_total_duration_bound(h: Seq<TestRecord>)
    requires
        forall|i: int| 0 <= i < h.len() ==> 0 <= (#[trigger] h[i]).duration_ms <= u32::MAX,
    ensures
        0 <= total_duration(h) <= h.len() * u32::MAX,
    decreases h.len(),
{
    if h.len() > 0 {
        assert forall|i: int| 0 <= i < h.drop_last().len() implies 0 <= (
        #[trigger] h.drop_last()[i]).duration_ms <= u32::MAX by {
            assert(h.drop_last()[i] == h[i]);
        }
        lemma_total_duration_bound(h.drop_last());
        assert((h.len() - 1) * u32::MAX + u32::MAX == h.len() * u32::MAX) by (nonlinear_arith);
    }
}

/// No more attempts succeeded than were made.
pub proof fn lemma_success_count_bound(h: Seq<TestRecord>)
    ensures
        0 <= success_count(h) <= h.len(),
    decreases h.len(),
{
    if h.len() > 0 {
        lemma_success_count_bound(h.drop_last());
    }
}

/// A log cut after `i + 1` entries is the log cut after `i` entries with
/// entry `i` appended; so is any stretch of it that ends there.
pub proof fn lemma_subrange_push<T>(h: Seq<T>, from: int, i: int)
    requires
        0 <= from <= i < h.len(),
    ensures
        h.subrange(from, i + 1) == h.subrange(from, i).push(h[i]),
        h.subrange(from, i + 1).drop_last() == h.subrange(from, i),
{
    assert(h.subrange(from, i + 1) =~= h.subrange(from, i).push(h[i]));
    assert(h.subrange(from, i + 1).drop_last() =~= h.subrange(from, i));
}

} // verus!
