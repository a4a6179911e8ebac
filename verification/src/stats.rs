//! The running statistics of one character.
//!
//! Every method is specified by a function of the model in
//! `crate::model`, through the view of the statistics.

use vstd::prelude::*;
use crate::clock::now_millis;
use crate::fixed::{lemma_logistic_saturates, logistic_at, SATURATION, SCALE};
use crate::model::{
    accuracy_raws, div_round, ema_replay, ema_step, lemma_div_round_bounds,
    lemma_ema_replay_push, lemma_ema_step_bounds, lemma_raws_push, lemma_recalculated_matches_history,
    lemma_record_preserves_wf, lemma_subrange_push, lemma_success_count_bound,
    lemma_total_duration_bound, recent, response_raws, success_count, total_duration,
    whole_hours_between, whole_seconds_between, MistakeRecord, StatsModel, TestRecord, NEW_WEIGHT,
    RECENCY_CENTRE_SECONDS, RECENCY_SLOPE, RESPONSE_CENTRE, RESPONSE_DIVISOR,
};

verus! {

/// A failed attempt: what was typed, and when (milliseconds since the
/// epoch).
#[derive(Debug, Clone)]
pub struct MistakeEntry {
    pub input: String,
    pub timestamp: i64,
}

impl View for MistakeEntry {
    type V = MistakeRecord;

    open spec fn view(&self) -> MistakeRecord {
        MistakeRecord { input: self.input@, timestamp: self.timestamp as int }
    }
}

/// An attempt: what was typed, when the prompt appeared (milliseconds
/// since the epoch), how many milliseconds the answer took, and whether it
/// was right.
#[derive(Debug, Clone)]
pub struct TestEntry {
    pub input: String,
    pub start_time: i64,
    pub duration_ms: u32,
    pub success: bool,
}

impl View for TestEntry {
    type V = TestRecord;

    open spec fn view(&self) -> TestRecord {
        TestRecord {
            input: self.input@,
            start_time: self.start_time as int,
            duration_ms: self.duration_ms as int,
            success: self.success,
        }
    }
}

/// The content of a log of mistakes.
pub open spec fn mistakes_view(s: Seq<MistakeEntry>) -> Seq<MistakeRecord> {
    s.map_values(|m: MistakeEntry| m@)
}

/// The content of a log of attempts.
pub open spec fn history_view(s: Seq<TestEntry>) -> Seq<TestRecord> {
    s.map_values(|t: TestEntry| t@)
}

/// The running statistics of one character.
#[derive(Debug, Clone)]
pub struct CharacterStats {
    /// Completed attempts.
    pub appearances: u64,
    pub successes: u64,
    pub failures: u64,
    /// The sum of all response times, in milliseconds.
    pub total_response_time: u128,
    /// The time of the latest attempt, or of creation, in milliseconds
    /// since the epoch.
    pub last_appearance: i64,
    /// The moving average of the response time, in millionths of a
    /// millisecond.
    pub exp_avg_response: u64,
    /// The moving average of success, in millionths.
    pub exp_avg_accuracy: u64,
    /// Every failed attempt, oldest first.
    pub mistakes: Vec<MistakeEntry>,
    /// Every attempt, oldest first.
    pub test_history: Vec<TestEntry>,
}

impl View for CharacterStats {
    type V = StatsModel;

    open spec fn view(&self) -> StatsModel {
        StatsModel {
            appearances: self.appearances as nat,
            successes: self.successes as nat,
            failures: self.failures as nat,
            total_response_time: self.total_response_time as nat,
            last_appearance: self.last_appearance as int,
            exp_avg_response: self.exp_avg_response as nat,
            exp_avg_accuracy: self.exp_avg_accuracy as nat,
            mistakes: mistakes_view(self.mistakes@),
            test_history: history_view(self.test_history@),
        }
    }
}

/// Blends a raw value into a moving average.
pub(crate) fn ema_blend(prev: u64, raw: u64) -> (r: u64)
    requires
        prev <= u32::MAX * SCALE,
        raw <= u32::MAX * SCALE,
    ensures
        r == ema_step(prev as int, raw as int),
{
    (2 * (raw + 4 * prev) + 5) / 10
}

/// Divides and rounds to the nearest integer.
fn div_round_at(n: u128, d: u128) -> (r: u128)
    requires
        0 < d <= u64::MAX,
        2 * n + d <= u128::MAX,
    ensures
        r == div_round(n as int, d as int),
{
    (2 * n + d) / (2 * d)
}

/// Whole seconds from `earlier` to `later`, rounded towards zero.
fn seconds_between(earlier: i64, later: i64) -> (r: i64)
    ensures
        r == whole_seconds_between(earlier as int, later as int),
        -18_446_744_073_709_552 <= r <= 18_446_744_073_709_552,
{
    if later >= earlier {
        let d: u128 = (later as i128 - earlier as i128) as u128;
        (d / 1000) as i64
    } else {
        let d: u128 = (earlier as i128 - later as i128) as u128;
        -((d / 1000) as i64)
    }
}

/// Whole hours from `earlier` to `later`, rounded towards zero.
fn hours_between(earlier: i64, later: i64) -> (r: i64)
    ensures
        r == whole_hours_between(earlier as int, later as int),
        -5_124_095_576_031 <= r <= 5_124_095_576_031,
{
    if later >= earlier {
        let d: u128 = (later as i128 - earlier as i128) as u128;
        (d / 3_600_000) as i64
    } else {
        let d: u128 = (earlier as i128 - later as i128) as u128;
        -((d / 3_600_000) as i64)
    }
}

impl CharacterStats {
    /// The invariant of the data, as the model states it.
    pub open spec fn wf(&self) -> bool {
        self@.wf()
    }

    /// The statistics of a character that was never attempted, created at
    /// time `now`.
    pub fn new_at(now: i64) -> (r: CharacterStats)
        ensures
            r@ == StatsModel::fresh(now as int),
            r.wf(),
    {
        let r = CharacterStats {
            appearances: 0,
            successes: 0,
            failures: 0,
            total_response_time: 0,
            last_appearance: now,
            exp_avg_response: 0,
            exp_avg_accuracy: 0,
            mistakes: Vec::new(),
            test_history: Vec::new(),
        };
        assert(r@.mistakes =~= Seq::empty());
        assert(r@.test_history =~= Seq::empty());
        r
    }

    /// The statistics of a character that was never attempted, created
    /// now.
    pub fn new() -> (r: CharacterStats)
        ensures
            r@ == StatsModel::fresh(r@.last_appearance),
            r@.last_appearance >= 0,
            r.wf(),
    {
        CharacterStats::new_at(now_millis())
    }

    /// Whether the data is well formed: the counts agree with each other
    /// and with the logs, and the averages lie in the range of their raw
    /// values.
    pub fn is_well_formed(&self) -> (r: bool)
        ensures
            r == self.wf(),
    {
        let n = self.test_history.len();
        if self.appearances != n as u64 || self.failures != self.mistakes.len() as u64
            || self.successes > self.appearances || self.appearances - self.successes
            != self.failures {
            return false;
        }
        if self.exp_avg_accuracy > SCALE || self.exp_avg_response > u32::MAX as u64 * SCALE {
            return false;
        }
        if self.appearances == 0 && (self.exp_avg_accuracy != 0 || self.exp_avg_response != 0) {
            return false;
        }
        let ghost h = self@.test_history;
        let mut successes: u64 = 0;
        let mut total: u128 = 0;
        let mut i: usize = 0;
        while i < n
            invariant
                i <= n,
                n == self.test_history.len(),
                h == history_view(self.test_history@),
                successes == success_count(h.subrange(0, i as int)),
                total == total_duration(h.subrange(0, i as int)),
                successes <= i,
                total <= i * u32::MAX,
            decreases n - i,
        {
            proof {
                lemma_subrange_push(h, 0, i as int);
                assert(i * u32::MAX + u32::MAX == (i + 1) * u32::MAX) by (nonlinear_arith);
                assert((i + 1) * u32::MAX <= u64::MAX * u32::MAX) by (nonlinear_arith)
                    requires
                        0 <= i + 1 <= u64::MAX,
                ;
            }
            if self.test_history[i].success {
                successes = successes + 1;
            }
            total = total + self.test_history[i].duration_ms as u128;
            i = i + 1;
        }
        proof {
            assert(h.subrange(0, n as int) =~= h);
        }
        successes == self.successes && total == self.total_response_time
    }

    /// Records one attempt judged at time `now`: counts it, logs it (and
    /// logs it as a mistake if it failed), moves both averages and sets
    /// the time of the last appearance.
    pub fn record_attempt_at(&mut self, input: &str, success: bool, response_time: u32, now: i64)
        requires
            old(self).wf(),
            now - response_time >= i64::MIN,
        ensures
            final(self)@ == old(self)@.record(input@, success, response_time as int, now as int),
            final(self).wf(),
    {
        let ghost before = self@;
        proof {
            lemma_record_preserves_wf(before, input@, success, response_time as int, now as int);
            lemma_total_duration_bound(before.test_history);
            lemma_success_count_bound(before.test_history);
        }
        let raw_response: u64 = response_time as u64 * SCALE;
        let raw_accuracy: u64 = if success {
            SCALE
        } else {
            0
        };
        if self.appearances == 0 {
            self.exp_avg_response = raw_response;
            self.exp_avg_accuracy = raw_accuracy;
        } else {
            self.exp_avg_response = ema_blend(self.exp_avg_response, raw_response);
            self.exp_avg_accuracy = ema_blend(self.exp_avg_accuracy, raw_accuracy);
        }
        self.test_history.push(
            TestEntry {
                input: input.to_owned(),
                start_time: now - response_time as i64,
                duration_ms: response_time,
                success,
            },
        );
        assert(self.test_history.len() == before.appearances + 1);
        self.appearances = self.appearances + 1;
        if success {
            self.successes = self.successes + 1;
        } else {
            self.failures = self.failures + 1;
            self.mistakes.push(MistakeEntry { input: input.to_owned(), timestamp: now });
        }
        self.total_response_time = self.total_response_time + response_time as u128;
        self.last_appearance = now;
        proof {
            let after = before.record(input@, success, response_time as int, now as int);
            assert(self@.test_history =~= after.test_history);
            assert(self@.mistakes =~= after.mistakes);
        }
    }

    /// Records one attempt judged now. The time that the clock gave is
    /// the new time of the last appearance.
    pub fn record_attempt(&mut self, input: &str, success: bool, response_time: u32)
        requires
            old(self).wf(),
        ensures
            final(self)@ == old(self)@.record(
                input@,
                success,
                response_time as int,
                final(self)@.last_appearance,
            ),
            final(self)@.last_appearance >= 0,
            final(self).wf(),
    {
        let now = now_millis();
        self.record_attempt_at(input, success, response_time, now);
    }

    /// Replays the log of attempts, oldest first, and returns the response
    /// average and the accuracy average that it gives.
    fn replay_averages(&self) -> (r: (u64, u64))
        ensures
            r.0 == ema_replay(response_raws(self@.test_history)),
            r.1 == ema_replay(accuracy_raws(self@.test_history)),
            r.0 <= u32::MAX * SCALE,
            r.1 <= SCALE,
    {
        let ghost h = self@.test_history;
        let mut response: u64 = 0;
        let mut accuracy: u64 = 0;
        let mut i: usize = 0;
        proof {
            assert(response_raws(h.subrange(0, 0)) =~= Seq::<int>::empty());
            assert(accuracy_raws(h.subrange(0, 0)) =~= Seq::<int>::empty());
        }
        while i < self.test_history.len()
            invariant
                0 <= i <= self.test_history.len(),
                h == history_view(self.test_history@),
                response == ema_replay(response_raws(h.subrange(0, i as int))),
                accuracy == ema_replay(accuracy_raws(h.subrange(0, i as int))),
                response <= u32::MAX * SCALE,
                accuracy <= SCALE,
            decreases self.test_history.len() - i,
        {
            let entry = &self.test_history[i];
            let raw_response: u64 = entry.duration_ms as u64 * SCALE;
            let raw_accuracy: u64 = if entry.success {
                SCALE
            } else {
                0
            };
            proof {
                let e = h[i as int];
                lemma_subrange_push(h, 0, i as int);
                lemma_raws_push(h.subrange(0, i as int), e);
                lemma_ema_replay_push(response_raws(h.subrange(0, i as int)), e.response_raw());
                lemma_ema_replay_push(accuracy_raws(h.subrange(0, i as int)), e.accuracy_raw());
                lemma_ema_step_bounds(response as int, raw_response as int, 0, u32::MAX * SCALE);
                lemma_ema_step_bounds(accuracy as int, raw_accuracy as int, 0, SCALE as int);
            }
            if i == 0 {
                response = raw_response;
                accuracy = raw_accuracy;
            } else {
                response = ema_blend(response, raw_response);
                accuracy = ema_blend(accuracy, raw_accuracy);
            }
            i = i + 1;
        }
        proof {
            assert(h.subrange(0, i as int) =~= h);
        }
        (response, accuracy)
    }

    /// Rebuilds both moving averages from the log of attempts alone,
    /// oldest attempt first: the first attempt seeds them, each later one
    /// is blended in.
    pub fn recalculate_ema(&mut self)
        ensures
            final(self)@ == old(self)@.recalculated(),
            old(self).wf() ==> final(self).wf(),
    {
        proof {
            if old(self).wf() {
                lemma_recalculated_matches_history(old(self)@);
            }
        }
        let (response, accuracy) = self.replay_averages();
        self.exp_avg_response = response;
        self.exp_avg_accuracy = accuracy;
    }

    /// Whether the stored averages are exactly those that the log of
    /// attempts gives. The statistics are left as they are.
    pub fn averages_match_history(&self) -> (r: bool)
        ensures
            r == self@.averages_match_history(),
    {
        let (response, accuracy) = self.replay_averages();
        self.exp_avg_response == response && self.exp_avg_accuracy == accuracy
    }

    /// How stale the character is at time `now`, in millionths.
    fn recency_component(&self, now: i64) -> (r: u64)
        ensures
            r == self@.recency_component(now as int),
            0 < r < SCALE,
    {
        let d: i64 = seconds_between(self.last_appearance, now) - RECENCY_CENTRE_SECONDS as i64;
        proof {
            lemma_logistic_saturates(RECENCY_SLOPE * d);
        }
        if d >= 7000 {
            logistic_at(SATURATION as i64)
        } else if d <= -7000 {
            logistic_at(-(SATURATION as i64))
        } else {
            logistic_at(RECENCY_SLOPE as i64 * d)
        }
    }

    /// How slow the answers are, in millionths.
    fn response_component(&self) -> (r: u64)
        requires
            self.wf(),
        ensures
            r == self@.response_component(),
            0 < r < SCALE,
    {
        if self.exp_avg_response >= RESPONSE_CENTRE {
            logistic_at(((self.exp_avg_response - RESPONSE_CENTRE) / RESPONSE_DIVISOR) as i64)
        } else {
            let below: u64 = RESPONSE_CENTRE - self.exp_avg_response;
            logistic_at(-(((below + (RESPONSE_DIVISOR - 1)) / RESPONSE_DIVISOR) as i64))
        }
    }

    /// The sampling priority of the character at time `now`, in
    /// millionths: `NEW_WEIGHT` if it was never attempted, else one plus
    /// the mean of the error, recency and response components.
    pub fn calculate_weight(&self, now: i64) -> (r: u64)
        requires
            self.wf(),
        ensures
            r == self@.weight(now as int),
            self.appearances == 0 ==> r == NEW_WEIGHT,
            self.appearances > 0 ==> SCALE < r < 2 * SCALE,
    {
        if self.appearances == 0 {
            return NEW_WEIGHT;
        }
        let error_component: u64 = SCALE - self.exp_avg_accuracy;
        let recency_component: u64 = self.recency_component(now);
        let response_component: u64 = self.response_component();
        let sum: u64 = error_component + recency_component + response_component;
        SCALE + (2 * sum + 3) / 6
    }

    /// The three parts of the priority as the progress display shows
    /// them, in millionths: error, response and recency.
    pub fn get_weight_components(&self, now: i64) -> (r: (u64, u64, i64))
        requires
            self.wf(),
        ensures
            (r.0 as int, r.1 as int, r.2 as int) == self@.weight_components(now as int),
    {
        if self.appearances == 0 {
            return (5 * SCALE, 0, 0);
        }
        let hours = hours_between(self.last_appearance, now);
        let capped: i64 = if hours > 24 {
            24
        } else {
            hours
        };
        let response: u64 = self.exp_avg_response / 5000;
        let response_factor: u64 = if response > SCALE {
            SCALE
        } else {
            response
        };
        let recency: i64 = if capped >= 0 {
            ((2 * (capped as u64 * SCALE) + 24) / 48) as i64
        } else {
            -(((2 * ((-capped) as u64 * SCALE) + 24) / 48) as i64)
        };
        (3 * (SCALE - self.exp_avg_accuracy), response_factor / 2, recency)
    }

    /// The moving average of success, in millionths.
    pub fn get_ema_accuracy(&self) -> (r: u64)
        ensures
            r == self@.exp_avg_accuracy,
    {
        self.exp_avg_accuracy
    }

    /// The share of successful attempts, in millionths; zero before the
    /// first attempt.
    pub fn success_rate(&self) -> (r: u64)
        requires
            self.wf(),
        ensures
            r == self@.success_rate(),
            r <= SCALE,
    {
        if self.appearances == 0 {
            return 0;
        }
        proof {
            let n = self.successes as int * SCALE;
            assert(0 <= n <= SCALE * self.appearances) by (nonlinear_arith)
                requires
                    n == self.successes as int * SCALE,
                    0 <= self.successes <= self.appearances,
            ;
            lemma_div_round_bounds(n, self.appearances as int, 0, SCALE as int);
        }
        div_round_at(self.successes as u128 * SCALE as u128, self.appearances as u128) as u64
    }

    /// The mean response time, in millionths of a millisecond; zero before
    /// the first attempt.
    pub fn avg_response_time(&self) -> (r: u64)
        requires
            self.wf(),
        ensures
            r == self@.avg_response_time(),
            r <= u32::MAX * SCALE,
    {
        if self.appearances == 0 {
            return 0;
        }
        proof {
            lemma_total_duration_bound(self@.test_history);
            let t = self.total_response_time as int;
            let a = self.appearances as int;
            assert(0 <= t * SCALE <= (u32::MAX * SCALE) * a) by (nonlinear_arith)
                requires
                    0 <= t <= a * u32::MAX,
            ;
            lemma_div_round_bounds(t * SCALE, a, 0, u32::MAX * SCALE);
            assert(a * u32::MAX <= u64::MAX * u32::MAX) by (nonlinear_arith)
                requires
                    0 <= a <= u64::MAX,
            ;
        }
        div_round_at(self.total_response_time * SCALE as u128, self.appearances as u128) as u64
    }

    /// The mean response time of the last `n` attempts, in millionths of a
    /// millisecond; zero if there is none.
    pub fn get_recent_avg_response_time(&self, n: usize) -> (r: u64)
        ensures
            r == self@.recent_avg_response_time(n as int),
            r <= u32::MAX * SCALE,
    {
        let len = self.test_history.len();
        let from: usize = if n >= len {
            0
        } else {
            len - n
        };
        if from == len {
            proof {
                assert(recent(self@.test_history, n as int).len() == 0);
            }
            return 0;
        }
        let ghost h = self@.test_history;
        let mut sum: u128 = 0;
        let mut i: usize = from;
        while i < len
            invariant
                from <= i <= len,
                len == self.test_history.len(),
                h == history_view(self.test_history@),
                sum == total_duration(h.subrange(from as int, i as int)),
                sum <= (i - from) * u32::MAX,
            decreases len - i,
        {
            proof {
                lemma_subrange_push(h, from as int, i as int);
                assert((i - from) * u32::MAX + u32::MAX == (i + 1 - from) * u32::MAX)
                    by (nonlinear_arith);
                assert((i + 1 - from) * u32::MAX <= u64::MAX * u32::MAX) by (nonlinear_arith)
                    requires
                        0 <= i + 1 - from <= u64::MAX,
                ;
            }
            sum = sum + self.test_history[i].duration_ms as u128;
            i = i + 1;
        }
        let count: usize = len - from;
        proof {
            assert(recent(h, n as int) =~= h.subrange(from as int, len as int));
            let t = sum as int;
            let c = count as int;
            assert(0 <= t * SCALE <= (u32::MAX * SCALE) * c) by (nonlinear_arith)
                requires
                    0 <= t <= c * u32::MAX,
            ;
            lemma_div_round_bounds(t * SCALE, c, 0, u32::MAX * SCALE);
            assert(c * u32::MAX <= u64::MAX * u32::MAX) by (nonlinear_arith)
                requires
                    0 <= c <= u64::MAX,
            ;
        }
        div_round_at(sum * SCALE as u128, count as u128) as u64
    }

    /// The share of successes among the last `n` attempts, in millionths;
    /// zero if there is none.
    pub fn get_recent_success_rate(&self, n: usize) -> (r: u64)
        ensures
            r == self@.recent_success_rate(n as int),
            r <= SCALE,
    {
        let len = self.test_history.len();
        let from: usize = if n >= len {
            0
        } else {
            len - n
        };
        if from == len {
            proof {
                assert(recent(self@.test_history, n as int).len() == 0);
            }
            return 0;
        }
        let ghost h = self@.test_history;
        let mut successes: usize = 0;
        let mut i: usize = from;
        while i < len
            invariant
                from <= i <= len,
                len == self.test_history.len(),
                h == history_view(self.test_history@),
                successes == success_count(h.subrange(from as int, i as int)),
                successes <= i - from,
            decreases len - i,
        {
            proof {
                lemma_subrange_push(h, from as int, i as int);
            }
            if self.test_history[i].success {
                successes = successes + 1;
            }
            i = i + 1;
        }
        let count: usize = len - from;
        proof {
            assert(recent(h, n as int) =~= h.subrange(from as int, len as int));
            let t = successes as int;
            let c = count as int;
            assert(0 <= t * SCALE <= SCALE * c) by (nonlinear_arith)
                requires
                    0 <= t <= c,
            ;
            lemma_div_round_bounds(t * SCALE, c, 0, SCALE as int);
        }
        div_round_at(successes as u128 * SCALE as u128, count as u128) as u64
    }
}

impl Default for CharacterStats {
    /// The statistics of a character that was never attempted, created
    /// now.
    fn default() -> (r: CharacterStats)
        ensures
            r@ == StatsModel::fresh(r@.last_appearance),
            r.wf(),
    {
        CharacterStats::new()
    }
}

} // verus!
