//! The store of statistics, keyed by character.
//!
//! The store is a sequence of entries in which no character occurs twice.
//! Its mathematical content is a map from characters to the models of
//! their statistics.

use vstd::prelude::*;
use crate::clock::now_millis;
use crate::model::StatsModel;
use crate::stats::CharacterStats;
use crate::text::same_text;

verus! {

/// The statistics of one character, with the character.
#[derive(Debug, Clone)]
pub struct StatsEntry {
    pub kana: String,
    pub stats: CharacterStats,
}

/// Everything that is kept between sessions.
#[derive(Debug, Clone)]
pub struct UserHistory {
    /// The statistics of each character met so far, in the order in which
    /// they were first met.
    pub character_stats: Vec<StatsEntry>,
    /// The start of the latest session, in milliseconds since the epoch.
    pub last_session: i64,
    /// The time spent practising, in milliseconds.
    pub total_practice_time: u64,
}

impl UserHistory {
    /// The character of entry `i`.
    pub open spec fn key_at(&self, i: int) -> Seq<char> {
        self.character_stats@[i].kana@
    }

    /// Whether the store holds statistics for `kana`.
    pub open spec fn has(&self, kana: Seq<char>) -> bool {
        exists|i: int| 0 <= i < self.character_stats@.len() && #[trigger] self.key_at(i) == kana
    }

    /// The position of the entry for `kana`, if the store has one.
    pub open spec fn index_of(&self, kana: Seq<char>) -> int {
        choose|i: int| 0 <= i < self.character_stats@.len() && #[trigger] self.key_at(i) == kana
    }

    /// The invariant of the store: no character occurs twice, and the
    /// statistics of each are well formed.
    pub open spec fn wf(&self) -> bool {
        &&& forall|i: int, j: int|
            0 <= i < j < self.character_stats@.len() ==> #[trigger] self.key_at(i)
                != #[trigger] self.key_at(j)
        &&& forall|i: int|
            0 <= i < self.character_stats@.len() ==> (#[trigger] self.character_stats@[i]).stats.wf()
    }
}

impl View for UserHistory {
    type V = Map<Seq<char>, StatsModel>;

    open spec fn view(&self) -> Map<Seq<char>, StatsModel> {
        Map::new(
            |k: Seq<char>| self.has(k),
            |k: Seq<char>| self.character_stats@[self.index_of(k)].stats@,
        )
    }
}

impl UserHistory {
    /// In a well-formed store the map holds, under the character of each
    /// entry, the statistics of that entry.
    pub proof fn lemma_view_at(&self, i: int)
        requires
            self.wf(),
            0 <= i < self.character_stats@.len(),
        ensures
            self.has(self.key_at(i)),
            self.index_of(self.key_at(i)) == i,
            self@.contains_key(self.key_at(i)),
            self@[self.key_at(i)] == self.character_stats@[i].stats@,
    {
        let k = self.key_at(i);
        let j = self.index_of(k);
        assert(self.key_at(j) == k);
        if j < i {
            assert(self.key_at(j) != self.key_at(i));
        } else if i < j {
            assert(self.key_at(i) != self.key_at(j));
        }
    }

    /// An empty store whose latest session began at `now`.
    pub fn new_at(now: i64) -> (r: UserHistory)
        ensures
            r@ == Map::<Seq<char>, StatsModel>::empty(),
            r.character_stats@.len() == 0,
            r.last_session == now,
            r.total_practice_time == 0,
            r.wf(),
    {
        let r = UserHistory { character_stats: Vec::new(), last_session: now, total_practice_time: 0 };
        assert(r@ =~= Map::<Seq<char>, StatsModel>::empty());
        r
    }

    /// An empty store whose latest session begins now.
    pub fn new() -> (r: UserHistory)
        ensures
            r@ == Map::<Seq<char>, StatsModel>::empty(),
            r.character_stats@.len() == 0,
            r.last_session >= 0,
            r.total_practice_time == 0,
            r.wf(),
    {
        UserHistory::new_at(now_millis())
    }

    /// The position of the entry for `kana`, or `None` if the store has
    /// none.
    pub fn find(&self, kana: &str) -> (r: Option<usize>)
        ensures
            match r {
                Some(i) => i < self.character_stats@.len() && self.key_at(i as int) == kana@
                    && self.has(kana@),
                None => !self.has(kana@),
            },
            self.wf() && r.is_some() ==> r.unwrap() == self.index_of(kana@),
    {
        let mut i: usize = 0;
        while i < self.character_stats.len()
            invariant
                i <= self.character_stats@.len(),
                forall|j: int| 0 <= j < i ==> self.key_at(j) != kana@,
            decreases self.character_stats@.len() - i,
        {
            if same_text(self.character_stats[i].kana.as_str(), kana) {
                proof {
                    assert(self.key_at(i as int) == kana@);
                    if self.wf() {
                        self.lemma_view_at(i as int);
                    }
                }
                return Some(i);
            }
            i += 1;
        }
        None
    }

    /// The statistics of `kana`, or `None` if the store has none.
    pub fn get(&self, kana: &str) -> (r: Option<&CharacterStats>)
        requires
            self.wf(),
        ensures
            r.is_some() == self@.contains_key(kana@),
            r.is_some() ==> r.unwrap()@ == self@[kana@] && r.unwrap().wf(),
    {
        match self.find(kana) {
            Some(i) => {
                proof {
                    self.lemma_view_at(i as int);
                }
                Some(&self.character_stats[i].stats)
            },
            None => None,
        }
    }

    /// Finds the entry for `kana`, or appends one with fresh statistics
    /// created at `now` if the store has none, and returns its position.
    /// Entries that were there stay where they are and as they are.
    pub fn get_or_init(&mut self, kana: &str, now: i64) -> (idx: usize)
        requires
            old(self).wf(),
        ensures
            final(self).wf(),
            idx < final(self).character_stats@.len(),
            final(self).key_at(idx as int) == kana@,
            final(self).last_session == old(self).last_session,
            final(self).total_practice_time == old(self).total_practice_time,
            old(self).has(kana@) ==> final(self).character_stats@ == old(self).character_stats@
                && idx == old(self).index_of(kana@),
            !old(self).has(kana@) ==> idx == old(self).character_stats@.len()
                && final(self).character_stats@.drop_last() == old(self).character_stats@
                && final(self).character_stats@[idx as int].stats@ == StatsModel::fresh(now as int),
            final(self)@ == if old(self)@.contains_key(kana@) {
                old(self)@
            } else {
                old(self)@.insert(kana@, StatsModel::fresh(now as int))
            },
    {
        match self.find(kana) {
            Some(i) => i,
            None => {
                let ghost before = *self;
                let idx = self.character_stats.len();
                self.character_stats.push(
                    StatsEntry { kana: kana.to_owned(), stats: CharacterStats::new_at(now) },
                );
                proof {
                    assert(self.character_stats@.drop_last() =~= before.character_stats@);
                    assert forall|i: int| 0 <= i < idx implies self.character_stats@[i]
                        == before.character_stats@[i] by {
                        assert(self.character_stats@.drop_last()[i] == self.character_stats@[i]);
                    }
                    assert forall|i: int, j: int|
                        0 <= i < j < self.character_stats@.len() implies #[trigger] self.key_at(i)
                        != #[trigger] self.key_at(j) by {
                        assert(self.key_at(i) == before.key_at(i));
                        if j < idx {
                            assert(self.key_at(j) == before.key_at(j));
                        }
                    }
                    assert forall|i: int| 0 <= i < self.character_stats@.len() implies (
                    #[trigger] self.character_stats@[i]).stats.wf() by {
                        if i < idx {
                            assert(before.character_stats@[i].stats.wf());
                        }
                    }
                    self.lemma_extended_view(before, kana@, now as int);
                }
                idx
            },
        }
    }

    /// Appending an entry for a character that the store lacks inserts it
    /// into the map and changes nothing else.
    pub proof fn lemma_extended_view(&self, before: UserHistory, kana: Seq<char>, now: int)
        requires
            before.wf(),
            self.wf(),
            !before.has(kana),
            self.character_stats@.len() == before.character_stats@.len() + 1,
            self.character_stats@.drop_last() == before.character_stats@,
            self.character_stats@.last().kana@ == kana,
            self.character_stats@.last().stats@ == StatsModel::fresh(now),
        ensures
            self@ == before@.insert(kana, StatsModel::fresh(now)),
    {
        let n = before.character_stats@.len() as int;
        let target = before@.insert(kana, StatsModel::fresh(now));
        assert forall|i: int| 0 <= i < n implies self.character_stats@[i]
            == before.character_stats@[i] by {
            assert(self.character_stats@.drop_last()[i] == self.character_stats@[i]);
        }
        assert forall|k: Seq<char>| self@.contains_key(k) <==> target.contains_key(k) by {
            if self.has(k) {
                let i = self.index_of(k);
                if i < n {
                    assert(before.key_at(i) == k);
                } else {
                    assert(self.key_at(n) == kana);
                }
            }
            if before.has(k) {
                let i = before.index_of(k);
                assert(self.key_at(i) == k);
            }
            if k == kana {
                assert(self.key_at(n) == kana);
            }
        }
        assert forall|k: Seq<char>| self@.contains_key(k) implies self@[k] == target[k] by {
            let i = self.index_of(k);
            self.lemma_view_at(i);
            if i < n {
                assert(before.key_at(i) == k);
                before.lemma_view_at(i);
            } else {
                assert(self.key_at(n) == kana);
            }
        }
        assert(self@ =~= target);
    }
}

impl UserHistory {
    /// Replacing the statistics of one entry replaces them in the map and
    /// changes nothing else.
    pub proof fn lemma_updated_view(&self, before: UserHistory, i: int)
        requires
            before.wf(),
            0 <= i < before.character_stats@.len(),
            self.character_stats@.len() == before.character_stats@.len(),
            forall|j: int|
                0 <= j < before.character_stats@.len() && j != i ==> self.character_stats@[j]
                    == before.character_stats@[j],
            self.character_stats@[i].kana@ == before.character_stats@[i].kana@,
            self.character_stats@[i].stats.wf(),
        ensures
            self.wf(),
            self@ == before@.insert(before.key_at(i), self.character_stats@[i].stats@),
    {
        assert forall|j: int| 0 <= j < self.character_stats@.len() implies self.key_at(j)
            == before.key_at(j) by {}
        assert forall|a: int, b: int|
            0 <= a < b < self.character_stats@.len() implies #[trigger] self.key_at(a)
            != #[trigger] self.key_at(b) by {
            assert(before.key_at(a) != before.key_at(b));
        }
        assert forall|j: int| 0 <= j < self.character_stats@.len() implies (
        #[trigger] self.character_stats@[j]).stats.wf() by {
            if j != i {
                assert(before.character_stats@[j].stats.wf());
            }
        }
        let target = before@.insert(before.key_at(i), self.character_stats@[i].stats@);
        before.lemma_view_at(i);
        assert forall|k: Seq<char>| self@.contains_key(k) <==> target.contains_key(k) by {
            if self.has(k) {
                let j = self.index_of(k);
                assert(before.key_at(j) == k);
            }
            if before.has(k) {
                let j = before.index_of(k);
                assert(self.key_at(j) == k);
            }
        }
        assert forall|k: Seq<char>| self@.contains_key(k) implies self@[k] == target[k] by {
            let j = self.index_of(k);
            self.lemma_view_at(j);
            assert(before.key_at(j) == k);
            before.lemma_view_at(j);
        }
        assert(self@ =~= target);
    }

    /// Records one attempt at `kana`, judged at time `now`, in the
    /// statistics of that character, which are created first if the store
    /// has none. No other character's statistics change.
    pub fn record_attempt_at(
        &mut self,
        kana: &str,
        input: &str,
        success: bool,
        response_time: u32,
        now: i64,
    )
        requires
            old(self).wf(),
            now - response_time >= i64::MIN,
        ensures
            final(self).wf(),
            final(self).last_session == old(self).last_session,
            final(self).total_practice_time == old(self).total_practice_time,
            final(self)@ == old(self)@.insert(
                kana@,
                (if old(self)@.contains_key(kana@) {
                    old(self)@[kana@]
                } else {
                    StatsModel::fresh(now as int)
                }).record(input@, success, response_time as int, now as int),
            ),
    {
        let idx = self.get_or_init(kana, now);
        let ghost middle = *self;
        proof {
            middle.lemma_view_at(idx as int);
        }
        self.character_stats[idx].stats.record_attempt_at(input, success, response_time, now);
        proof {
            self.lemma_updated_view(middle, idx as int);
            assert(self@ =~= old(self)@.insert(kana@, self.character_stats@[idx as int].stats@));
        }
    }
}

/// The positions, among the first `n` entries, of those whose stored
/// averages are not what their log of attempts gives, in rising order.
pub open spec fn drifted(entries: Seq<StatsEntry>, n: int) -> Seq<usize>
    decreases n,
{
    if n <= 0 || n > entries.len() {
        Seq::empty()
    } else if entries[n - 1].stats@.averages_match_history() {
        drifted(entries, n - 1)
    } else {
        drifted(entries, n - 1).push((n - 1) as usize)
    }
}

impl UserHistory {
    /// Whether the store is well formed: no character occurs twice and
    /// the statistics of each are well formed.
    pub fn is_well_formed(&self) -> (r: bool)
        ensures
            r == self.wf(),
    {
        let n = self.character_stats.len();
        let mut i: usize = 0;
        while i < n
            invariant
                i <= n,
                n == self.character_stats@.len(),
                forall|a: int, b: int|
                    0 <= a < b < i ==> #[trigger] self.key_at(a) != #[trigger] self.key_at(b),
                forall|a: int| 0 <= a < i ==> (#[trigger] self.character_stats@[a]).stats.wf(),
            decreases n - i,
        {
            if !self.character_stats[i].stats.is_well_formed() {
                return false;
            }
            let mut j: usize = 0;
            while j < i
                invariant
                    j <= i < n,
                    n == self.character_stats@.len(),
                    forall|a: int| 0 <= a < j ==> #[trigger] self.key_at(a) != self.key_at(i as int),
                decreases i - j,
            {
                if same_text(
                    self.character_stats[j].kana.as_str(),
                    self.character_stats[i].kana.as_str(),
                ) {
                    assert(self.key_at(j as int) == self.key_at(i as int));
                    return false;
                }
                j += 1;
            }
            i += 1;
        }
        true
    }

    /// Rebuilds the averages of every character from its log of attempts,
    /// and returns the positions of the entries whose stored averages were
    /// not what the log gives. Nothing else changes.
    pub fn recalculate_all(&mut self) -> (r: Vec<usize>)
        requires
            old(self).wf(),
        ensures
            final(self).wf(),
            final(self).last_session == old(self).last_session,
            final(self).total_practice_time == old(self).total_practice_time,
            final(self).character_stats@.len() == old(self).character_stats@.len(),
            forall|i: int|
                0 <= i < old(self).character_stats@.len() ==> final(self).key_at(i) == old(
                    self,
                ).key_at(i) && (#[trigger] final(self).character_stats@[i]).stats@ == old(
                    self,
                ).character_stats@[i].stats@.recalculated(),
            r@ == drifted(old(self).character_stats@, old(self).character_stats@.len() as int),
    {
        let n = self.character_stats.len();
        let mut out: Vec<usize> = Vec::new();
        let mut i: usize = 0;
        while i < n
            invariant
                i <= n,
                n == old(self).character_stats@.len(),
                n == self.character_stats@.len(),
                old(self).wf(),
                self.last_session == old(self).last_session,
                self.total_practice_time == old(self).total_practice_time,
                forall|j: int| 0 <= j < n ==> self.key_at(j) == old(self).key_at(j),
                forall|j: int|
                    0 <= j < i ==> (#[trigger] self.character_stats@[j]).stats@ == old(
                        self,
                    ).character_stats@[j].stats@.recalculated(),
                forall|j: int|
                    i <= j < n ==> #[trigger] self.character_stats@[j] == old(
                        self,
                    ).character_stats@[j],
                forall|j: int| 0 <= j < n ==> (#[trigger] self.character_stats@[j]).stats.wf(),
                out@ == drifted(old(self).character_stats@, i as int),
            decreases n - i,
        {
            if !self.character_stats[i].stats.averages_match_history() {
                out.push(i);
            }
            self.character_stats[i].stats.recalculate_ema();
            i += 1;
        }
        proof {
            assert forall|a: int, b: int|
                0 <= a < b < self.character_stats@.len() implies #[trigger] self.key_at(a)
                != #[trigger] self.key_at(b) by {
                assert(old(self).key_at(a) != old(self).key_at(b));
            }
        }
        out
    }
}

impl Default for UserHistory {
    /// An empty store whose latest session begins now.
    fn default() -> (r: UserHistory)
        ensures
            r@ == Map::<Seq<char>, StatsModel>::empty(),
            r.wf(),
    {
        UserHistory::new()
    }
}

} // verus!
