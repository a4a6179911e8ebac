//! Choosing the next character.
//!
//! Every character of the catalog gets a raw weight from its statistics.
//! The raw weights are rescaled onto the range from one to ten, and one
//! position of the catalog is drawn with a chance proportional to its
//! rescaled weight.

use vstd::prelude::*;
use rand::distributions::{Distribution, WeightedError, WeightedIndex};
use crate::clock::now_millis;
use crate::error::KanaError;
use crate::fixed::SCALE;
use crate::history::UserHistory;
use crate::kana::KanaPair;
use crate::model::{div_round, lemma_div_round_bounds, StatsModel, NEW_WEIGHT};
use crate::text::same_text;

verus! {

/// The smallest element of a sequence; zero for an empty one.
pub open spec fn seq_min(s: Seq<int>) -> int
    decreases s.len(),
{
    if s.len() == 0 {
        0
    } else if s.len() == 1 {
        s[0]
    } else if s.last() < seq_min(s.drop_last()) {
        s.last()
    } else {
        seq_min(s.drop_last())
    }
}

/// The largest element of a sequence; zero for an empty one.
pub open spec fn seq_max(s: Seq<int>) -> int
    decreases s.len(),
{
    if s.len() == 0 {
        0
    } else if s.len() == 1 {
        s[0]
    } else if s.last() > seq_max(s.drop_last()) {
        s.last()
    } else {
        seq_max(s.drop_last())
    }
}

/// A raw weight rescaled linearly so that `lo` goes to one and `hi` to
/// ten, in millionths, rounded to the nearest millionth; one if `lo` and
/// `hi` coincide.
pub open spec fn normalized(raw: int, lo: int, hi: int) -> int {
    if hi > lo {
        SCALE + div_round(9 * SCALE * (raw - lo), hi - lo)
    } else {
        SCALE as int
    }
}

/// The raw weights of a catalog rescaled between their smallest and their
/// largest.
pub open spec fn normalize(raws: Seq<int>) -> Seq<int> {
    Seq::new(raws.len(), |i: int| normalized(raws[i], seq_min(raws), seq_max(raws)))
}

/// The raw weight of a character at time `now`: that of its statistics,
/// or that of a character never attempted if the store has none for it.
pub open spec fn raw_weight_of(m: Map<Seq<char>, StatsModel>, kana: Seq<char>, now: int) -> int {
    if m.contains_key(kana) {
        m[kana].weight(now)
    } else {
        NEW_WEIGHT as int
    }
}

/// The raw weights of the characters of a catalog, in catalog order.
pub open spec fn raw_weights(m: Map<Seq<char>, StatsModel>, catalog: Seq<KanaPair>, now: int)
    -> Seq<int> {
    Seq::new(catalog.len(), |i: int| raw_weight_of(m, catalog[i].0@, now))
}

/// Whether a character is in a catalog.
pub open spec fn in_catalog(catalog: Seq<KanaPair>, kana: Seq<char>) -> bool {
    exists|i: int| 0 <= i < catalog.len() && (#[trigger] catalog[i]).0@ == kana
}

/// Whether a character is in a catalog.
pub fn catalog_contains(catalog: &Vec<KanaPair>, kana: &str) -> (r: bool)
    ensures
        r == in_catalog(catalog@, kana@),
{
    let mut i: usize = 0;
    while i < catalog.len()
        invariant
            i <= catalog@.len(),
            forall|j: int| 0 <= j < i ==> (#[trigger] catalog@[j]).0@ != kana@,
        decreases catalog@.len() - i,
    {
        if same_text(catalog[i].0, kana) {
            return true;
        }
        i += 1;
    }
    false
}

/// The store after every character of a catalog has been looked up at
/// time `now`: what it held it still holds, and each character of the
/// catalog that it lacked has fresh statistics.
pub open spec fn with_defaults(m: Map<Seq<char>, StatsModel>, catalog: Seq<KanaPair>, now: int)
    -> Map<Seq<char>, StatsModel> {
    Map::new(
        |k: Seq<char>| m.contains_key(k) || in_catalog(catalog, k),
        |k: Seq<char>|
            if m.contains_key(k) {
                m[k]
            } else {
                StatsModel::fresh(now)
            },
    )
}

/// Looking a catalog up a second time changes nothing, whenever it
/// happens: characters that have statistics keep them.
pub proof fn law_lookup_is_idempotent(
    m: Map<Seq<char>, StatsModel>,
    catalog: Seq<KanaPair>,
    first: int,
    second: int,
)
    ensures
        with_defaults(with_defaults(m, catalog, first), catalog, second) == with_defaults(
            m,
            catalog,
            first,
        ),
{
    assert(with_defaults(with_defaults(m, catalog, first), catalog, second) =~= with_defaults(
        m,
        catalog,
        first,
    ));
}

/// The smallest and the largest element bound every element, and each is
/// an element.
pub proof fn lemma_min_max(s: Seq<int>)
    requires
        s.len() > 0,
    ensures
        forall|i: int| 0 <= i < s.len() ==> seq_min(s) <= #[trigger] s[i] <= seq_max(s),
        exists|i: int| 0 <= i < s.len() && #[trigger] s[i] == seq_min(s),
        exists|i: int| 0 <= i < s.len() && #[trigger] s[i] == seq_max(s),
    decreases s.len(),
{
    if s.len() == 1 {
        assert(s[0] == seq_min(s));
        assert(s[0] == seq_max(s));
    } else {
        let t = s.drop_last();
        lemma_min_max(t);
        assert forall|i: int| 0 <= i < s.len() implies seq_min(s) <= #[trigger] s[i] <= seq_max(
            s,
        ) by {
            if i < t.len() {
                assert(t[i] == s[i]);
            }
        }
        let a = choose|i: int| 0 <= i < t.len() && #[trigger] t[i] == seq_min(t);
        let b = choose|i: int| 0 <= i < t.len() && #[trigger] t[i] == seq_max(t);
        assert(s[a] == t[a] && s[b] == t[b]);
        if s.last() < seq_min(t) {
            assert(s[s.len() - 1] == seq_min(s));
        } else {
            assert(s[a] == seq_min(s));
        }
        if s.last() > seq_max(t) {
            assert(s[s.len() - 1] == seq_max(s));
        } else {
            assert(s[b] == seq_max(s));
        }
    }
}

/// A rescaled weight lies between one and ten; the lower end goes to one
/// and the upper end to ten exactly.
pub proof fn lemma_normalized_range(raw: int, lo: int, hi: int)
    requires
        lo <= raw <= hi,
    ensures
        SCALE <= normalized(raw, lo, hi) <= 10 * SCALE,
        lo < hi ==> normalized(lo, lo, hi) == SCALE,
        lo < hi ==> normalized(hi, lo, hi) == 10 * SCALE,
{
    if lo < hi {
        let d = hi - lo;
        assert(0 * d <= 9 * SCALE * (raw - lo) <= (9 * SCALE) * d) by (nonlinear_arith)
            requires
                0 <= raw - lo <= d,
        ;
        lemma_div_round_bounds(9 * SCALE * (raw - lo), d, 0, 9 * SCALE);
        assert(9 * SCALE * (lo - lo) == 0);
        lemma_div_round_bounds(0, d, 0, 0);
        assert((9 * SCALE) * d <= 9 * SCALE * (hi - lo) <= (9 * SCALE) * d) by (nonlinear_arith)
            requires
                d == hi - lo,
        ;
        lemma_div_round_bounds(9 * SCALE * (hi - lo), d, 9 * SCALE, 9 * SCALE);
    }
}

/// Rescaling keeps the order of the raw weights.
pub proof fn law_normalization_keeps_order(a: int, b: int, lo: int, hi: int)
    requires
        lo <= a <= b <= hi,
    ensures
        normalized(a, lo, hi) <= normalized(b, lo, hi),
{
    if lo < hi {
        let d = hi - lo;
        let x = 9 * SCALE * (a - lo);
        let y = 9 * SCALE * (b - lo);
        assert(x <= y) by (nonlinear_arith)
            requires
                x == 9 * SCALE * (a - lo),
                y == 9 * SCALE * (b - lo),
                a <= b,
        ;
        assert((2 * x + d) / (2 * d) <= (2 * y + d) / (2 * d)) by (nonlinear_arith)
            requires
                x <= y,
                d > 0,
        ;
    }
}

/// Where at least two distinct raw weights occur, the rescaled weights
/// span exactly the range from one to ten: all lie in it, the smallest
/// raw weight goes to one and the largest to ten.
pub proof fn law_normalized_weights_span_one_to_ten(raws: Seq<int>)
    requires
        exists|i: int, j: int|
            0 <= i < raws.len() && 0 <= j < raws.len() && #[trigger] raws[i] != #[trigger] raws[j],
    ensures
        seq_min(raws) < seq_max(raws),
        normalize(raws).len() == raws.len(),
        forall|i: int|
            0 <= i < raws.len() ==> SCALE <= #[trigger] normalize(raws)[i] <= 10 * SCALE,
        forall|i: int|
            0 <= i < raws.len() && raws[i] == seq_min(raws) ==> #[trigger] normalize(raws)[i]
                == SCALE,
        forall|i: int|
            0 <= i < raws.len() && raws[i] == seq_max(raws) ==> #[trigger] normalize(raws)[i] == 10
                * SCALE,
        exists|i: int| 0 <= i < raws.len() && #[trigger] normalize(raws)[i] == SCALE,
        exists|i: int| 0 <= i < raws.len() && #[trigger] normalize(raws)[i] == 10 * SCALE,
{
    lemma_min_max(raws);
    let lo = seq_min(raws);
    let hi = seq_max(raws);
    let (u, v) = choose|i: int, j: int|
        0 <= i < raws.len() && 0 <= j < raws.len() && #[trigger] raws[i] != #[trigger] raws[j];
    assert(lo <= raws[u] <= hi && lo <= raws[v] <= hi);
    assert forall|i: int| 0 <= i < raws.len() implies SCALE <= #[trigger] normalize(raws)[i] <= 10
        * SCALE && (raws[i] == lo ==> normalize(raws)[i] == SCALE) && (raws[i] == hi
        ==> normalize(raws)[i] == 10 * SCALE) by {
        lemma_normalized_range(raws[i], lo, hi);
    }
    let a = choose|i: int| 0 <= i < raws.len() && #[trigger] raws[i] == seq_min(raws);
    let b = choose|i: int| 0 <= i < raws.len() && #[trigger] raws[i] == seq_max(raws);
    assert(normalize(raws)[a] == SCALE);
    assert(normalize(raws)[b] == 10 * SCALE);
}

/// Where all raw weights are equal, every rescaled weight is one.
pub proof fn law_equal_weights_normalize_to_one(raws: Seq<int>)
    requires
        forall|i: int, j: int|
            0 <= i < raws.len() && 0 <= j < raws.len() ==> #[trigger] raws[i] == #[trigger] raws[j],
    ensures
        forall|i: int| 0 <= i < raws.len() ==> #[trigger] normalize(raws)[i] == SCALE,
{
    if raws.len() > 0 {
        lemma_min_max(raws);
        let a = choose|i: int| 0 <= i < raws.len() && #[trigger] raws[i] == seq_min(raws);
        let b = choose|i: int| 0 <= i < raws.len() && #[trigger] raws[i] == seq_max(raws);
        assert(raws[a] == raws[b]);
    }
}

/// The failure of a draw, as the sampler of the `rand` crate reports it.
#[verifier::external_type_specification]
#[verifier::external_body]
pub struct ExWeightedError(rand::distributions::WeightedError);

/// Draws one position with a chance proportional to its weight:
/// `WeightedIndex::new` over the weights (widened to 128 bits, so that
/// their sum cannot overflow), then `Distribution::sample` with the
/// thread's generator, `rand::thread_rng`. The contract claims what the
/// source shows of every draw: the sampler is refused exactly when there
/// is no weight or when all weights are zero, and a position that comes
/// out is within the weights and has a weight above zero. Which position
/// comes out is left open.
#[verifier::external_body]
pub(crate) fn draw_index(weights: &Vec<u64>) -> (r: Result<usize, WeightedError>)
    ensures
        r.is_err() <==> (forall|i: int| 0 <= i < weights@.len() ==> weights@[i] == 0),
        r matches Ok(i) ==> i < weights@.len() && weights@[i as int] > 0,
{
    let sampler = WeightedIndex::new(weights.iter().map(|w| *w as u128))?;
    Ok(sampler.sample(&mut rand::thread_rng()))
}

/// The text of a failed draw: `WeightedError`'s `Display`, through
/// `to_string`. Nothing is claimed of the text.
#[verifier::external_body]
pub(crate) fn describe_draw_failure(e: &WeightedError) -> (r: String) {
    e.to_string()
}

/// Looks every character of the catalog up in the store, creating fresh
/// statistics at time `now` for those it lacks, and returns the raw weight
/// of each at that time, in catalog order.
pub fn compute_raw_weights(catalog: &Vec<KanaPair>, history: &mut UserHistory, now: i64) -> (r:
    Vec<u64>)
    requires
        old(history).wf(),
    ensures
        final(history).wf(),
        final(history).last_session == old(history).last_session,
        final(history).total_practice_time == old(history).total_practice_time,
        final(history)@ == with_defaults(old(history)@, catalog@, now as int),
        r@.len() == catalog@.len(),
        forall|i: int|
            0 <= i < catalog@.len() ==> #[trigger] r@[i] == raw_weight_of(
                old(history)@,
                catalog@[i].0@,
                now as int,
            ),
        forall|i: int| 0 <= i < catalog@.len() ==> SCALE < #[trigger] r@[i] <= NEW_WEIGHT,
{
    let ghost m0 = history@;
    let mut weights: Vec<u64> = Vec::new();
    let mut i: usize = 0;
    proof {
        assert(history@ =~= with_defaults(m0, catalog@.take(0), now as int));
    }
    while i < catalog.len()
        invariant
            i <= catalog@.len(),
            history.wf(),
            history.last_session == old(history).last_session,
            history.total_practice_time == old(history).total_practice_time,
            m0 == old(history)@,
            history@ == with_defaults(m0, catalog@.take(i as int), now as int),
            weights@.len() == i,
            forall|j: int|
                0 <= j < i ==> #[trigger] weights@[j] == raw_weight_of(
                    m0,
                    catalog@[j].0@,
                    now as int,
                ),
            forall|j: int| 0 <= j < i ==> SCALE < #[trigger] weights@[j] <= NEW_WEIGHT,
        decreases catalog@.len() - i,
    {
        let kana: &str = catalog[i].0;
        let idx = history.get_or_init(kana, now);
        proof {
            history.lemma_view_at(idx as int);
            lemma_defaults_step(m0, catalog@, i as int, now as int);
        }
        let w = history.character_stats[idx].stats.calculate_weight(now);
        weights.push(w);
        i += 1;
    }
    proof {
        assert(catalog@.take(i as int) =~= catalog@);
    }
    weights
}

/// Looking one more character up extends the store by that character, if
/// it lacked it.
pub proof fn lemma_defaults_step(
    m: Map<Seq<char>, StatsModel>,
    catalog: Seq<KanaPair>,
    i: int,
    now: int,
)
    requires
        0 <= i < catalog.len(),
    ensures
        ({
            let cur = with_defaults(m, catalog.take(i), now);
            let k = catalog[i].0@;
            with_defaults(m, catalog.take(i + 1), now) == if cur.contains_key(k) {
                cur
            } else {
                cur.insert(k, StatsModel::fresh(now))
            }
        }),
        ({
            let k = catalog[i].0@;
            with_defaults(m, catalog.take(i + 1), now)[k] == if m.contains_key(k) {
                m[k]
            } else {
                StatsModel::fresh(now)
            }
        }),
{
    let cur = with_defaults(m, catalog.take(i), now);
    let next = with_defaults(m, catalog.take(i + 1), now);
    let k = catalog[i].0@;
    let target = if cur.contains_key(k) {
        cur
    } else {
        cur.insert(k, StatsModel::fresh(now))
    };
    assert(catalog.take(i + 1)[i] == catalog[i]);
    assert(in_catalog(catalog.take(i + 1), k));
    assert forall|x: Seq<char>| next.contains_key(x) <==> target.contains_key(x) by {
        if in_catalog(catalog.take(i + 1), x) {
            let j = choose|j: int|
                0 <= j < catalog.take(i + 1).len() && (#[trigger] catalog.take(i + 1)[j]).0@ == x;
            if j < i {
                assert(catalog.take(i)[j] == catalog.take(i + 1)[j]);
                assert(in_catalog(catalog.take(i), x));
            }
        }
        if in_catalog(catalog.take(i), x) {
            let j = choose|j: int|
                0 <= j < catalog.take(i).len() && (#[trigger] catalog.take(i)[j]).0@ == x;
            assert(catalog.take(i + 1)[j] == catalog.take(i)[j]);
            assert(in_catalog(catalog.take(i + 1), x));
        }
    }
    assert(next =~= target);
}

/// Rescales raw weights onto the range from one to ten (in millionths):
/// the smallest goes to one, the largest to ten, the others in proportion.
/// If all are equal, or there is none, every weight becomes one.
pub fn normalize_weights(raw: &Vec<u64>) -> (r: Vec<u64>)
    ensures
        r@.len() == raw@.len(),
        r@.map_values(|w: u64| w as int) == normalize(raw@.map_values(|w: u64| w as int)),
        forall|i: int| 0 <= i < r@.len() ==> SCALE <= #[trigger] r@[i] <= 10 * SCALE,
{
    let ghost raws = raw@.map_values(|w: u64| w as int);
    let n = raw.len();
    let mut result: Vec<u64> = Vec::new();
    if n == 0 {
        assert(result@.map_values(|w: u64| w as int) =~= normalize(raws));
        return result;
    }
    let mut lo: u64 = raw[0];
    let mut hi: u64 = raw[0];
    let mut i: usize = 1;
    proof {
        assert(raws.take(1) =~= seq![raws[0]]);
    }
    while i < n
        invariant
            1 <= i <= n,
            n == raw@.len(),
            raws == raw@.map_values(|w: u64| w as int),
            lo == seq_min(raws.take(i as int)),
            hi == seq_max(raws.take(i as int)),
        decreases n - i,
    {
        proof {
            assert(raws.take(i + 1).drop_last() =~= raws.take(i as int));
            assert(raws.take(i + 1).last() == raw@[i as int]);
        }
        if raw[i] < lo {
            lo = raw[i];
        }
        if raw[i] > hi {
            hi = raw[i];
        }
        i += 1;
    }
    proof {
        assert(raws.take(n as int) =~= raws);
        lemma_min_max(raws);
    }
    let mut j: usize = 0;
    while j < n
        invariant
            j <= n,
            n == raw@.len(),
            raws == raw@.map_values(|w: u64| w as int),
            lo == seq_min(raws),
            hi == seq_max(raws),
            forall|k: int| 0 <= k < n ==> lo <= #[trigger] raws[k] <= hi,
            result@.len() == j,
            forall|k: int|
                0 <= k < j ==> #[trigger] result@[k] == normalized(raws[k], lo as int, hi as int),
            forall|k: int| 0 <= k < j ==> SCALE <= #[trigger] result@[k] <= 10 * SCALE,
        decreases n - j,
    {
        proof {
            assert(lo <= raws[j as int] <= hi);
            lemma_normalized_range(raws[j as int], lo as int, hi as int);
        }
        let w: u64 = if hi > lo {
            let num: u128 = 9 * SCALE as u128 * (raw[j] - lo) as u128;
            let den: u128 = (hi - lo) as u128;
            (SCALE as u128 + (2 * num + den) / (2 * den)) as u64
        } else {
            SCALE
        };
        result.push(w);
        j += 1;
    }
    proof {
        assert(result@.map_values(|w: u64| w as int) =~= normalize(raws));
    }
    result
}

/// What a draw comes to: the position that came out, or the failure that
/// is reported when none could be drawn.
pub fn resolve_draw(drawn: Result<usize, String>) -> (r: Result<usize, KanaError>)
    ensures
        match drawn {
            Ok(i) => r == Ok::<usize, KanaError>(i),
            Err(cause) => r == Err::<usize, KanaError>(KanaError::Terminal(cause)),
        },
{
    match drawn {
        Ok(i) => Ok(i),
        Err(cause) => Err(KanaError::Terminal(cause)),
    }
}

/// Chooses the position of the next character of the catalog at time
/// `now`. Every character of the catalog is looked up in the store first
/// (and gets fresh statistics if the store had none); a position is then
/// drawn with a chance proportional to its weight rescaled onto one to
/// ten. The draw fails exactly when the catalog is empty.
pub fn select_at(catalog: &Vec<KanaPair>, history: &mut UserHistory, now: i64) -> (r: Result<
    usize,
    KanaError,
>)
    requires
        old(history).wf(),
    ensures
        final(history).wf(),
        final(history).last_session == old(history).last_session,
        final(history).total_practice_time == old(history).total_practice_time,
        final(history)@ == with_defaults(old(history)@, catalog@, now as int),
        r.is_err() <==> catalog@.len() == 0,
        r matches Ok(i) ==> i < catalog@.len(),
        r matches Err(e) ==> e is Terminal,
{
    let raw = compute_raw_weights(catalog, history, now);
    let weights = normalize_weights(&raw);
    let drawn = match draw_index(&weights) {
        Ok(i) => Ok(i),
        Err(e) => Err(describe_draw_failure(&e)),
    };
    proof {
        if catalog@.len() > 0 {
            assert(weights@[0] >= SCALE);
        }
    }
    resolve_draw(drawn)
}

/// Chooses the position of the next character of the catalog, at the time
/// that the clock gives.
pub fn select(catalog: &Vec<KanaPair>, history: &mut UserHistory) -> (r: Result<usize, KanaError>)
    requires
        old(history).wf(),
    ensures
        final(history).wf(),
        final(history).last_session == old(history).last_session,
        final(history).total_practice_time == old(history).total_practice_time,
        exists|now: int| final(history)@ == with_defaults(old(history)@, catalog@, now),
        r.is_err() <==> catalog@.len() == 0,
        r matches Ok(i) ==> i < catalog@.len(),
        r matches Err(e) ==> e is Terminal,
{
    let now = now_millis();
    select_at(catalog, history, now)
}

} // verus!
