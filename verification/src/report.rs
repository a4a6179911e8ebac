//! The statistics columns of the progress display: one line for each
//! character, graded and ranked by accuracy and by speed.

use vstd::prelude::*;
use crate::fixed::SCALE;
use crate::history::{StatsEntry, UserHistory};
use crate::kana::KanaPair;
use crate::order::{is_stable_order, stable_order};
use crate::selector::{catalog_contains, in_catalog};

verus! {

/// How a figure is judged on the display.
#[derive(Debug, Clone, Copy, PartialEq, Eq, Structural)]
pub enum Grade {
    Poor,
    Fair,
    Good,
}

/// The grade of an accuracy in millionths: poor below 0.8, fair below
/// 0.9, else good.
pub open spec fn accuracy_grade_of(accuracy: int) -> Grade {
    if accuracy < 800_000 {
        Grade::Poor
    } else if accuracy < 900_000 {
        Grade::Fair
    } else {
        Grade::Good
    }
}

/// The grade of a response time in millionths of a millisecond: poor
/// above two seconds, fair above one, else good.
pub open spec fn response_grade_of(response: int) -> Grade {
    if response > 2000 * SCALE {
        Grade::Poor
    } else if response > 1000 * SCALE {
        Grade::Fair
    } else {
        Grade::Good
    }
}

/// Grades an accuracy given in millionths.
pub fn accuracy_grade(accuracy: u64) -> (r: Grade)
    ensures
        r == accuracy_grade_of(accuracy as int),
{
    if accuracy < 800_000 {
        Grade::Poor
    } else if accuracy < 900_000 {
        Grade::Fair
    } else {
        Grade::Good
    }
}

/// Grades a response time given in millionths of a millisecond.
pub fn response_grade(response: u64) -> (r: Grade)
    ensures
        r == response_grade_of(response as int),
{
    if response > 2000 * SCALE {
        Grade::Poor
    } else if response > 1000 * SCALE {
        Grade::Fair
    } else {
        Grade::Good
    }
}

/// The positions, among the first `n` entries of a store, of those whose
/// character is in the catalog, in rising order.
pub open spec fn positions_in_catalog(entries: Seq<StatsEntry>, catalog: Seq<KanaPair>, n: int)
    -> Seq<usize>
    decreases n,
{
    if n <= 0 || n > entries.len() {
        Seq::empty()
    } else if in_catalog(catalog, entries[n - 1].kana@) {
        positions_in_catalog(entries, catalog, n - 1).push((n - 1) as usize)
    } else {
        positions_in_catalog(entries, catalog, n - 1)
    }
}

/// Every listed position is one of the first `n`.
pub proof fn lemma_positions_in_range(entries: Seq<StatsEntry>, catalog: Seq<KanaPair>, n: int)
    requires
        0 <= n <= entries.len(),
    ensures
        forall|k: int|
            0 <= k < positions_in_catalog(entries, catalog, n).len()
                ==> (#[trigger] positions_in_catalog(entries, catalog, n)[k]) < n,
    decreases n,
{
    if n > 0 {
        lemma_positions_in_range(entries, catalog, n - 1);
        let shorter = positions_in_catalog(entries, catalog, n - 1);
        let longer = positions_in_catalog(entries, catalog, n);
        assert forall|k: int| 0 <= k < longer.len() implies (#[trigger] longer[k]) < n by {
            if k < shorter.len() {
                assert(longer[k] == shorter[k]);
            }
        }
    }
}

/// The positions of the entries of the store whose character is in the
/// catalog, in the order of the store.
pub fn entries_in_catalog(history: &UserHistory, catalog: &Vec<KanaPair>) -> (r: Vec<usize>)
    ensures
        r@ == positions_in_catalog(
            history.character_stats@,
            catalog@,
            history.character_stats@.len() as int,
        ),
        forall|k: int| 0 <= k < r@.len() ==> (#[trigger] r@[k]) < history.character_stats@.len(),
{
    let mut out: Vec<usize> = Vec::new();
    let mut i: usize = 0;
    while i < history.character_stats.len()
        invariant
            i <= history.character_stats@.len(),
            out@ == positions_in_catalog(history.character_stats@, catalog@, i as int),
        decreases history.character_stats@.len() - i,
    {
        if catalog_contains(catalog, history.character_stats[i].kana.as_str()) {
            out.push(i);
        }
        i += 1;
    }
    proof {
        lemma_positions_in_range(
            history.character_stats@,
            catalog@,
            history.character_stats@.len() as int,
        );
    }
    out
}

/// One line of the statistics columns.
#[derive(Debug, Clone)]
pub struct StatsRow {
    pub kana: String,
    /// The moving average of success, in millionths.
    pub ema_accuracy: u64,
    /// The moving average of the response time, in millionths of a
    /// millisecond.
    pub ema_response: u64,
    /// The number of attempts.
    pub total_tests: usize,
}

/// Whether a line shows the given entry of the store.
pub open spec fn row_shows(row: StatsRow, entry: StatsEntry) -> bool {
    &&& row.kana@ == entry.kana@
    &&& row.ema_accuracy == entry.stats.exp_avg_accuracy
    &&& row.ema_response == entry.stats.exp_avg_response
    &&& row.total_tests == entry.stats.test_history@.len()
}

/// The lines of the statistics columns: one for each entry of the store
/// whose character is in the catalog, in the order of the store.
pub fn stats_rows(history: &UserHistory, catalog: &Vec<KanaPair>) -> (r: Vec<StatsRow>)
    ensures
        r@.len() == positions_in_catalog(
            history.character_stats@,
            catalog@,
            history.character_stats@.len() as int,
        ).len(),
        forall|k: int|
            0 <= k < r@.len() ==> row_shows(
                #[trigger] r@[k],
                history.character_stats@[positions_in_catalog(
                    history.character_stats@,
                    catalog@,
                    history.character_stats@.len() as int,
                )[k] as int],
            ),
{
    let positions = entries_in_catalog(history, catalog);
    let mut rows: Vec<StatsRow> = Vec::new();
    let mut k: usize = 0;
    while k < positions.len()
        invariant
            k <= positions@.len(),
            rows@.len() == k,
            forall|j: int|
                0 <= j < positions@.len() ==> (#[trigger] positions@[j])
                    < history.character_stats@.len(),
            forall|j: int|
                0 <= j < k ==> row_shows(
                    #[trigger] rows@[j],
                    history.character_stats@[positions@[j] as int],
                ),
        decreases positions@.len() - k,
    {
        let entry = &history.character_stats[positions[k]];
        rows.push(
            StatsRow {
                kana: entry.kana.clone(),
                ema_accuracy: entry.stats.get_ema_accuracy(),
                ema_response: entry.stats.exp_avg_response,
                total_tests: entry.stats.test_history.len(),
            },
        );
        k += 1;
    }
    rows
}

/// The keys by which lines are ranked from the least accurate upwards.
pub open spec fn accuracy_keys(rows: Seq<StatsRow>) -> Seq<i128> {
    Seq::new(rows.len(), |i: int| rows[i].ema_accuracy as i128)
}

/// The keys by which lines, taken in the given order, are ranked from the
/// slowest downwards.
pub open spec fn response_keys(rows: Seq<StatsRow>, order: Seq<usize>) -> Seq<i128> {
    Seq::new(order.len(), |i: int| (-(rows[order[i] as int].ema_response as int)) as i128)
}

/// The positions of the lines from the least accurate to the most
/// accurate; equally accurate lines stay in their order.
pub fn rank_by_accuracy(rows: &Vec<StatsRow>) -> (r: Vec<usize>)
    ensures
        is_stable_order(accuracy_keys(rows@), r@),
{
    let mut keys: Vec<i128> = Vec::new();
    let mut i: usize = 0;
    while i < rows.len()
        invariant
            i <= rows@.len(),
            keys@ == accuracy_keys(rows@).take(i as int),
        decreases rows@.len() - i,
    {
        keys.push(rows[i].ema_accuracy as i128);
        assert(keys@ =~= accuracy_keys(rows@).take(i + 1));
        i += 1;
    }
    assert(keys@ =~= accuracy_keys(rows@));
    stable_order(&keys)
}

/// The positions of the lines from the slowest to the fastest; equally
/// slow lines stay in their order by accuracy.
pub fn rank_by_response(rows: &Vec<StatsRow>) -> (r: Vec<usize>)
    ensures
        r@.len() == rows@.len(),
        exists|by_accuracy: Seq<usize>, second: Seq<usize>|
            #![trigger is_stable_order(response_keys(rows@, by_accuracy), second)]
            is_stable_order(accuracy_keys(rows@), by_accuracy) && is_stable_order(
                response_keys(rows@, by_accuracy),
                second,
            ) && forall|k: int|
                0 <= k < r@.len() ==> #[trigger] r@[k] == by_accuracy[second[k] as int],
{
    let by_accuracy = rank_by_accuracy(rows);
    let n = by_accuracy.len();
    let mut keys: Vec<i128> = Vec::new();
    let mut i: usize = 0;
    while i < n
        invariant
            i <= n,
            n == by_accuracy@.len(),
            n == rows@.len(),
            forall|a: int| 0 <= a < n ==> (#[trigger] by_accuracy@[a]) < n,
            keys@ == response_keys(rows@, by_accuracy@).take(i as int),
        decreases n - i,
    {
        keys.push(-(rows[by_accuracy[i]].ema_response as i128));
        assert(keys@ =~= response_keys(rows@, by_accuracy@).take(i + 1));
        i += 1;
    }
    assert(keys@ =~= response_keys(rows@, by_accuracy@));
    let second = stable_order(&keys);
    let mut out: Vec<usize> = Vec::new();
    let mut k: usize = 0;
    while k < n
        invariant
            k <= n,
            n == by_accuracy@.len(),
            n == second@.len(),
            forall|a: int| 0 <= a < n ==> (#[trigger] second@[a]) < n,
            out@.len() == k,
            forall|j: int| 0 <= j < k ==> #[trigger] out@[j] == by_accuracy@[second@[j] as int],
        decreases n - k,
    {
        out.push(by_accuracy[second[k]]);
        k += 1;
    }
    assert(is_stable_order(response_keys(rows@, by_accuracy@), second@));
    out
}

} // verus!
