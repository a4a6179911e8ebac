//! The trend of the response time over all attempts, in order of time.

use vstd::prelude::*;
use crate::fixed::SCALE;
use crate::history::{StatsEntry, UserHistory};
use crate::kana::KanaPair;
use crate::model::{ema_replay, lemma_ema_replay_push, lemma_ema_step_bounds};
use crate::order::{is_stable_order, stable_order};
use crate::selector::{catalog_contains, in_catalog};
use crate::stats::{ema_blend, TestEntry};

verus! {

/// An attempt, as far as the trend of the response time needs it: when
/// the prompt appeared and how many milliseconds the answer took.
#[derive(Debug, Clone, Copy, PartialEq, Eq, Structural)]
pub struct TimedTest {
    pub start_time: i64,
    pub duration_ms: u32,
}

/// The attempts of a log, each reduced to its time and its duration.
pub open spec fn timed(h: Seq<TestEntry>) -> Seq<TimedTest> {
    Seq::new(
        h.len(),
        |i: int| TimedTest { start_time: h[i].start_time, duration_ms: h[i].duration_ms },
    )
}

/// The attempts at the characters of the catalog among the first `n`
/// entries of a store: entry after entry, each entry's attempts in the
/// order of its log.
pub open spec fn timed_tests_in_catalog(entries: Seq<StatsEntry>, catalog: Seq<KanaPair>, n: int)
    -> Seq<TimedTest>
    decreases n,
{
    if n <= 0 || n > entries.len() {
        Seq::empty()
    } else if in_catalog(catalog, entries[n - 1].kana@) {
        timed_tests_in_catalog(entries, catalog, n - 1) + timed(
            entries[n - 1].stats.test_history@,
        )
    } else {
        timed_tests_in_catalog(entries, catalog, n - 1)
    }
}

/// Gathers the attempts at the characters of the catalog: entry after
/// entry of the store, each entry's attempts in the order of its log.
pub fn collect_tests(history: &UserHistory, catalog: &Vec<KanaPair>) -> (r: Vec<TimedTest>)
    ensures
        r@ == timed_tests_in_catalog(
            history.character_stats@,
            catalog@,
            history.character_stats@.len() as int,
        ),
{
    let mut out: Vec<TimedTest> = Vec::new();
    let mut i: usize = 0;
    while i < history.character_stats.len()
        invariant
            i <= history.character_stats@.len(),
            out@ == timed_tests_in_catalog(history.character_stats@, catalog@, i as int),
        decreases history.character_stats@.len() - i,
    {
        let entry = &history.character_stats[i];
        if catalog_contains(catalog, entry.kana.as_str()) {
            let ghost base = out@;
            let ghost log = timed(entry.stats.test_history@);
            let mut j: usize = 0;
            while j < entry.stats.test_history.len()
                invariant
                    j <= entry.stats.test_history@.len(),
                    log == timed(entry.stats.test_history@),
                    out@ == base + log.take(j as int),
                decreases entry.stats.test_history@.len() - j,
            {
                let t = &entry.stats.test_history[j];
                out.push(TimedTest { start_time: t.start_time, duration_ms: t.duration_ms });
                assert(out@ =~= base + log.take(j + 1));
                j += 1;
            }
            assert(log.take(j as int) =~= log);
        }
        i += 1;
    }
    out
}

/// The keys by which attempts are ordered in time.
pub open spec fn start_keys(tests: Seq<TimedTest>) -> Seq<i128> {
    Seq::new(tests.len(), |i: int| tests[i].start_time as i128)
}

/// The raw response values of attempts taken in the given order, in
/// millionths of a millisecond.
pub open spec fn raws_in_order(tests: Seq<TimedTest>, order: Seq<usize>) -> Seq<int> {
    Seq::new(order.len(), |i: int| tests[order[i] as int].duration_ms * SCALE)
}

/// The moving average after each of a sequence of raw values.
pub open spec fn trend_of(raws: Seq<int>) -> Seq<int> {
    Seq::new(raws.len(), |i: int| ema_replay(raws.take(i + 1)))
}

/// Whether `points` holds the given values.
pub open spec fn holds_values(points: Seq<u64>, values: Seq<int>) -> bool {
    points.len() == values.len() && forall|i: int|
        0 <= i < points.len() ==> #[trigger] points[i] == values[i]
}

/// The moving average of the response time after each attempt, the
/// attempts taken in the given order.
pub fn trend_points(tests: &Vec<TimedTest>, order: &Vec<usize>) -> (r: Vec<u64>)
    requires
        forall|k: int| 0 <= k < order@.len() ==> (#[trigger] order@[k]) < tests@.len(),
    ensures
        holds_values(r@, trend_of(raws_in_order(tests@, order@))),
{
    let ghost raws = raws_in_order(tests@, order@);
    let mut points: Vec<u64> = Vec::new();
    let mut average: u64 = 0;
    let mut k: usize = 0;
    proof {
        assert(raws.take(0) =~= Seq::<int>::empty());
    }
    while k < order.len()
        invariant
            k <= order@.len(),
            raws == raws_in_order(tests@, order@),
            forall|j: int| 0 <= j < order@.len() ==> (#[trigger] order@[j]) < tests@.len(),
            average == ema_replay(raws.take(k as int)),
            average <= u32::MAX * SCALE,
            points@.len() == k,
            forall|j: int| 0 <= j < k ==> #[trigger] points@[j] == ema_replay(raws.take(j + 1)),
        decreases order@.len() - k,
    {
        let raw: u64 = tests[order[k]].duration_ms as u64 * SCALE;
        proof {
            assert(raws.take(k + 1) =~= raws.take(k as int).push(raw as int));
            lemma_ema_replay_push(raws.take(k as int), raw as int);
            lemma_ema_step_bounds(average as int, raw as int, 0, u32::MAX * SCALE);
        }
        if k == 0 {
            average = raw;
        } else {
            average = ema_blend(average, raw);
        }
        points.push(average);
        k += 1;
    }
    points
}

/// The trend of the response time over the attempts at the characters of
/// the catalog: the attempts are put in the order of their start, those
/// that started together in the order in which the store holds them, and
/// the moving average after each attempt is given.
pub fn response_trend(history: &UserHistory, catalog: &Vec<KanaPair>) -> (r: Vec<u64>)
    ensures
        ({
            let tests = timed_tests_in_catalog(
                history.character_stats@,
                catalog@,
                history.character_stats@.len() as int,
            );
            exists|order: Seq<usize>|
                #![trigger is_stable_order(start_keys(tests), order)]
                is_stable_order(start_keys(tests), order) && holds_values(
                    r@,
                    trend_of(raws_in_order(tests, order)),
                )
        }),
{
    let tests = collect_tests(history, catalog);
    let mut keys: Vec<i128> = Vec::new();
    let mut i: usize = 0;
    while i < tests.len()
        invariant
            i <= tests@.len(),
            keys@ == start_keys(tests@).take(i as int),
        decreases tests@.len() - i,
    {
        keys.push(tests[i].start_time as i128);
        assert(keys@ =~= start_keys(tests@).take(i + 1));
        i += 1;
    }
    assert(keys@ =~= start_keys(tests@));
    let order = stable_order(&keys);
    let points = trend_points(&tests, &order);
    assert(is_stable_order(start_keys(tests@), order@));
    points
}

} // verus!
