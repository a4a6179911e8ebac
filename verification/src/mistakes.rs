//! The latest mistakes: for each character, what was typed instead.

use vstd::prelude::*;
use crate::history::{StatsEntry, UserHistory};
use crate::kana::KanaPair;
use crate::order::{is_stable_order, stable_order};
use crate::selector::{catalog_contains, in_catalog};
use crate::stats::MistakeEntry;
use crate::text::{
    lemma_text_less_total, lemma_text_less_transitive, same_text, text_less, text_precedes,
};

verus! {

/// The position of the last of the first `n` characters of the catalog
/// whose romanization is `input`, if there is one.
pub open spec fn last_with_romaji(catalog: Seq<KanaPair>, input: Seq<char>, n: int) -> Option<int>
    decreases n,
{
    if n <= 0 || n > catalog.len() {
        None
    } else if catalog[n - 1].1@ == input {
        Some(n - 1)
    } else {
        last_with_romaji(catalog, input, n - 1)
    }
}

/// A wrong answer as the display shows it: if it is the romanization of a
/// character of the catalog, that character (the last such one), else the
/// answer itself.
pub open spec fn display_form_of(catalog: Seq<KanaPair>, input: Seq<char>) -> Seq<char> {
    match last_with_romaji(catalog, input, catalog.len() as int) {
        Some(p) => catalog[p].0@,
        None => input,
    }
}

/// A wrong answer as the display shows it.
pub fn display_form(catalog: &Vec<KanaPair>, input: &str) -> (r: String)
    ensures
        r@ == display_form_of(catalog@, input@),
{
    let mut n: usize = catalog.len();
    while n > 0
        invariant
            n <= catalog@.len(),
            last_with_romaji(catalog@, input@, catalog@.len() as int) == last_with_romaji(
                catalog@,
                input@,
                n as int,
            ),
        decreases n,
    {
        if same_text(catalog[n - 1].1, input) {
            return catalog[n - 1].0.to_owned();
        }
        n -= 1;
    }
    input.to_owned()
}

/// Whether the texts stand in dictionary order, none twice.
pub open spec fn strictly_sorted(ws: Seq<String>) -> bool {
    forall|a: int, b: int|
        0 <= a < b < ws.len() ==> text_less((#[trigger] ws[a])@, (#[trigger] ws[b])@)
}

/// Whether `text` is one of the texts.
pub open spec fn lists_text(ws: Seq<String>, text: Seq<char>) -> bool {
    exists|k: int| 0 <= k < ws.len() && (#[trigger] ws[k])@ == text
}

/// Puts a text into a sorted list at its place in dictionary order,
/// unless the list holds it already.
pub fn insert_sorted(ws: &mut Vec<String>, x: String)
    requires
        strictly_sorted(old(ws)@),
    ensures
        strictly_sorted(final(ws)@),
        forall|t: Seq<char>|
            lists_text(final(ws)@, t) <==> (lists_text(old(ws)@, t) || t == x@),
{
    let mut at: usize = 0;
    while at < ws.len() && text_precedes(ws[at].as_str(), x.as_str())
        invariant
            at <= ws@.len(),
            ws@ == old(ws)@,
            forall|a: int| 0 <= a < at ==> text_less((#[trigger] ws@[a])@, x@),
        decreases ws@.len() - at,
    {
        at += 1;
    }
    if at < ws.len() && same_text(ws[at].as_str(), x.as_str()) {
        assert forall|t: Seq<char>| lists_text(ws@, t) || t == x@ implies lists_text(ws@, t) by {
            if t == x@ {
                assert(ws@[at as int]@ == t);
            }
        }
        return ;
    }
    let ghost before = ws@;
    let ghost text = x@;
    proof {
        if at < before.len() {
            assert(before[at as int]@.subrange(0, 0) =~= text.subrange(0, 0));
            lemma_text_less_total(before[at as int]@, text, 0);
            assert forall|b: int| at < b < before.len() implies text_less(
                text,
                (#[trigger] before[b])@,
            ) by {
                lemma_text_less_transitive(text, before[at as int]@, before[b]@, 0);
            }
        }
    }
    ws.insert(at, x);
    proof {
        let after = ws@;
        assert forall|a: int, b: int| 0 <= a < b < after.len() implies text_less(
            (#[trigger] after[a])@,
            (#[trigger] after[b])@,
        ) by {
            if b < at {
                assert(after[a] == before[a] && after[b] == before[b]);
            } else if b == at {
                assert(after[a] == before[a]);
            } else if a < at {
                assert(after[a] == before[a] && after[b] == before[b - 1]);
            } else if a == at {
                assert(after[b] == before[b - 1]);
            } else {
                assert(after[a] == before[a - 1] && after[b] == before[b - 1]);
            }
        }
        assert forall|t: Seq<char>| lists_text(after, t) <==> (lists_text(before, t) || t
            == text) by {
            if lists_text(after, t) {
                let k = choose|k: int| 0 <= k < after.len() && (#[trigger] after[k])@ == t;
                if k < at {
                    assert(before[k]@ == t);
                } else if k > at {
                    assert(before[k - 1]@ == t);
                }
            }
            if lists_text(before, t) {
                let k = choose|k: int| 0 <= k < before.len() && (#[trigger] before[k])@ == t;
                if k < at {
                    assert(after[k]@ == t);
                } else {
                    assert(after[k + 1]@ == t);
                }
            }
            if t == text {
                assert(after[at as int]@ == t);
            }
        }
    }
}

/// Whether `form` is the display form of one of the first `n` mistakes.
pub open spec fn shows_mistake(
    catalog: Seq<KanaPair>,
    mistakes: Seq<MistakeEntry>,
    n: int,
    form: Seq<char>,
) -> bool {
    exists|m: int|
        0 <= m < n && m < mistakes.len() && display_form_of(
            catalog,
            (#[trigger] mistakes[m]).input@,
        ) == form
}

/// The latest time among the first `n` mistakes; the earliest time that
/// can be held if there is none.
pub open spec fn latest_of(mistakes: Seq<MistakeEntry>, n: int) -> int
    decreases n,
{
    if n <= 0 || n > mistakes.len() {
        i64::MIN as int
    } else if mistakes[n - 1].timestamp > latest_of(mistakes, n - 1) {
        mistakes[n - 1].timestamp as int
    } else {
        latest_of(mistakes, n - 1)
    }
}

/// The mistakes made at one character: what was typed instead, each
/// answer once, in dictionary order, and the time of the latest mistake.
#[derive(Debug, Clone)]
pub struct MistakeSummary {
    pub kana: String,
    pub wrong_inputs: Vec<String>,
    pub latest: i64,
}

/// Whether a summary is that of the mistakes of the given entry.
pub open spec fn summarizes(s: MistakeSummary, entry: StatsEntry, catalog: Seq<KanaPair>) -> bool {
    let mistakes = entry.stats.mistakes@;
    &&& s.kana@ == entry.kana@
    &&& s.latest == latest_of(mistakes, mistakes.len() as int)
    &&& strictly_sorted(s.wrong_inputs@)
    &&& forall|t: Seq<char>|
        lists_text(s.wrong_inputs@, t) <==> shows_mistake(
            catalog,
            mistakes,
            mistakes.len() as int,
            t,
        )
}

/// Summarizes the mistakes of one entry of the store.
pub fn summarize_mistakes(entry: &StatsEntry, catalog: &Vec<KanaPair>) -> (r: MistakeSummary)
    ensures
        summarizes(r, *entry, catalog@),
{
    let mut wrong_inputs: Vec<String> = Vec::new();
    let mut latest: i64 = i64::MIN;
    let mut i: usize = 0;
    while i < entry.stats.mistakes.len()
        invariant
            i <= entry.stats.mistakes@.len(),
            latest == latest_of(entry.stats.mistakes@, i as int),
            strictly_sorted(wrong_inputs@),
            forall|t: Seq<char>|
                lists_text(wrong_inputs@, t) <==> shows_mistake(
                    catalog@,
                    entry.stats.mistakes@,
                    i as int,
                    t,
                ),
        decreases entry.stats.mistakes@.len() - i,
    {
        let mistake = &entry.stats.mistakes[i];
        let form = display_form(catalog, mistake.input.as_str());
        let ghost text = form@;
        insert_sorted(&mut wrong_inputs, form);
        if mistake.timestamp > latest {
            latest = mistake.timestamp;
        }
        proof {
            let ms = entry.stats.mistakes@;
            assert forall|t: Seq<char>| lists_text(wrong_inputs@, t) <==> shows_mistake(
                catalog@,
                ms,
                i + 1,
                t,
            ) by {
                if shows_mistake(catalog@, ms, i + 1, t) {
                    let m = choose|m: int|
                        0 <= m < i + 1 && m < ms.len() && display_form_of(
                            catalog@,
                            (#[trigger] ms[m]).input@,
                        ) == t;
                    if m < i {
                        assert(shows_mistake(catalog@, ms, i as int, t));
                    }
                }
                if shows_mistake(catalog@, ms, i as int, t) {
                    let m = choose|m: int|
                        0 <= m < i && m < ms.len() && display_form_of(
                            catalog@,
                            (#[trigger] ms[m]).input@,
                        ) == t;
                    assert(display_form_of(catalog@, ms[m].input@) == t);
                }
                if t == text {
                    assert(display_form_of(catalog@, ms[i as int].input@) == t);
                }
            }
        }
        i += 1;
    }
    MistakeSummary { kana: entry.kana.clone(), wrong_inputs, latest }
}

/// The positions, among the first `n` entries of a store, of those whose
/// character is in the catalog and at which a mistake was made, in rising
/// order.
pub open spec fn positions_with_mistakes(
    entries: Seq<StatsEntry>,
    catalog: Seq<KanaPair>,
    n: int,
) -> Seq<usize>
    decreases n,
{
    if n <= 0 || n > entries.len() {
        Seq::empty()
    } else if in_catalog(catalog, entries[n - 1].kana@) && entries[n - 1].stats.mistakes@.len()
        > 0 {
        positions_with_mistakes(entries, catalog, n - 1).push((n - 1) as usize)
    } else {
        positions_with_mistakes(entries, catalog, n - 1)
    }
}

/// Whether the summaries are those of the entries at the given
/// positions, one for one.
pub open spec fn summarize_entries(
    summaries: Seq<MistakeSummary>,
    entries: Seq<StatsEntry>,
    positions: Seq<usize>,
    catalog: Seq<KanaPair>,
) -> bool {
    &&& summaries.len() == positions.len()
    &&& forall|k: int|
        0 <= k < summaries.len() ==> (#[trigger] positions[k]) < entries.len() && summarizes(
            summaries[k],
            entries[positions[k] as int],
            catalog,
        )
}

/// The mistakes made at the characters of the catalog: one summary for
/// each character at which a mistake was made, in the order of the store.
pub fn mistake_summaries(history: &UserHistory, catalog: &Vec<KanaPair>) -> (r: Vec<
    MistakeSummary,
>)
    ensures
        summarize_entries(
            r@,
            history.character_stats@,
            positions_with_mistakes(
                history.character_stats@,
                catalog@,
                history.character_stats@.len() as int,
            ),
            catalog@,
        ),
{
    let mut out: Vec<MistakeSummary> = Vec::new();
    let mut i: usize = 0;
    while i < history.character_stats.len()
        invariant
            i <= history.character_stats@.len(),
            summarize_entries(
                out@,
                history.character_stats@,
                positions_with_mistakes(history.character_stats@, catalog@, i as int),
                catalog@,
            ),
        decreases history.character_stats@.len() - i,
    {
        let entry = &history.character_stats[i];
        if catalog_contains(catalog, entry.kana.as_str()) && entry.stats.mistakes.len() > 0 {
            let ghost earlier = out@;
            let summary = summarize_mistakes(entry, catalog);
            out.push(summary);
            proof {
                let shorter = positions_with_mistakes(history.character_stats@, catalog@, i as int);
                let longer = positions_with_mistakes(history.character_stats@, catalog@, i + 1);
                assert(longer == shorter.push(i));
                assert forall|k: int| 0 <= k < out@.len() implies (#[trigger] longer[k])
                    < history.character_stats@.len() && summarizes(
                    out@[k],
                    history.character_stats@[longer[k] as int],
                    catalog@,
                ) by {
                    if k < earlier.len() {
                        assert(out@[k] == earlier[k]);
                        assert(longer[k] == shorter[k]);
                    }
                }
            }
        }
        i += 1;
    }
    out
}

/// The keys by which summaries are ranked from the latest mistake
/// backwards.
pub open spec fn latest_keys(summaries: Seq<MistakeSummary>) -> Seq<i128> {
    Seq::new(summaries.len(), |i: int| (-(summaries[i].latest as int)) as i128)
}

/// The positions of the summaries from the latest mistake to the
/// earliest; summaries of the same time stay in their order.
pub fn rank_by_latest(summaries: &Vec<MistakeSummary>) -> (r: Vec<usize>)
    ensures
        is_stable_order(latest_keys(summaries@), r@),
{
    let mut keys: Vec<i128> = Vec::new();
    let mut i: usize = 0;
    while i < summaries.len()
        invariant
            i <= summaries@.len(),
            keys@ == latest_keys(summaries@).take(i as int),
        decreases summaries@.len() - i,
    {
        keys.push(-(summaries[i].latest as i128));
        assert(keys@ =~= latest_keys(summaries@).take(i + 1));
        i += 1;
    }
    assert(keys@ =~= latest_keys(summaries@));
    stable_order(&keys)
}

} // verus!
