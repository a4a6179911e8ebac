//! The practice session: which character is shown, what has been typed,
//! and how the session moves from one phase to the next.

use vstd::prelude::*;
use crate::clock::now_millis;
use crate::error::KanaError;
use crate::history::UserHistory;
use crate::kana::{practice_set, practice_set_spec, KanaPair};
use crate::selector::{catalog_contains, in_catalog, select_at, with_defaults};
use crate::model::StatsModel;
use crate::text::{lowercase, pop_char, push_char, to_lowercase, trim, trimmed};
use crate::types::{AppMode, KanaType, PracticeMode};

verus! {

/// A key press, as far as the session tells keys apart.
#[derive(Debug, Clone, Copy)]
pub enum KeyInput {
    Char(char),
    Enter,
    Backspace,
    Esc,
    Other,
}

/// The state of a session.
#[derive(Debug)]
pub struct AppState {
    pub mode: AppMode,
    pub practice_mode: PracticeMode,
    pub kana_type: KanaType,
    pub history: UserHistory,
    /// The character on display, if any.
    pub current_kana: Option<String>,
    /// What the learner has typed so far.
    pub input_buffer: String,
    /// When the character on display appeared, in milliseconds since the
    /// epoch.
    pub start_time: Option<i64>,
    /// The romanization that is expected as the answer.
    pub expected_romaji: Option<String>,
}

/// A session, with the request to end it.
pub struct App {
    pub state: AppState,
    pub should_quit: bool,
}

impl AppState {
    /// A session that has not begun: basic hiragana, nothing on display,
    /// nothing typed, and an empty history whose latest session began at
    /// `now`.
    pub fn new_at(now: i64) -> (r: AppState)
        ensures
            r.mode == AppMode::Initial,
            r.practice_mode == PracticeMode::Main,
            r.kana_type == KanaType::Hiragana,
            r.history@ == Map::<Seq<char>, StatsModel>::empty(),
            r.history.character_stats@.len() == 0,
            r.history.last_session == now,
            r.history.total_practice_time == 0,
            r.history.wf(),
            r.current_kana.is_none(),
            r.input_buffer@ == Seq::<char>::empty(),
            r.start_time.is_none(),
            r.expected_romaji.is_none(),
    {
        AppState {
            mode: AppMode::Initial,
            practice_mode: PracticeMode::Main,
            kana_type: KanaType::Hiragana,
            history: UserHistory::new_at(now),
            current_kana: None,
            input_buffer: String::new(),
            start_time: None,
            expected_romaji: None,
        }
    }
}

impl Default for AppState {
    /// A session that has not begun, created now.
    fn default() -> (r: AppState)
        ensures
            r.mode == AppMode::Initial,
            r.practice_mode == PracticeMode::Main,
            r.kana_type == KanaType::Hiragana,
            r.history@ == Map::<Seq<char>, StatsModel>::empty(),
            r.history.wf(),
            r.current_kana.is_none(),
            r.input_buffer@ == Seq::<char>::empty(),
            r.start_time.is_none(),
            r.expected_romaji.is_none(),
    {
        AppState::new_at(now_millis())
    }
}

impl App {
    /// The invariant of a session: its history is well formed.
    pub open spec fn wf(&self) -> bool {
        self.state.history.wf()
    }

    /// The catalog of the session's syllabary and subset.
    pub open spec fn catalog(&self) -> Seq<KanaPair> {
        practice_set_spec(self.state.kana_type, self.state.practice_mode)
    }

    /// Whether the session displays the character `pair`, shown at time
    /// `now`.
    pub open spec fn shows(&self, pair: KanaPair, now: int) -> bool {
        &&& self.state.current_kana matches Some(k) && k@ == pair.0@
        &&& self.state.expected_romaji matches Some(e) && e@ == pair.1@
        &&& self.state.start_time == Some(now as i64)
    }

    /// Whether the session differs from `other` at most in the history, in
    /// what is on display and in what has been typed.
    pub open spec fn same_settings(&self, other: &App) -> bool {
        &&& self.state.mode == other.state.mode
        &&& self.state.practice_mode == other.state.practice_mode
        &&& self.state.kana_type == other.state.kana_type
        &&& self.should_quit == other.should_quit
        &&& self.state.history.last_session == other.state.history.last_session
        &&& self.state.history.total_practice_time == other.state.history.total_practice_time
    }

    /// A session that has not begun, with an empty history that begins now.
    pub fn new() -> (r: App)
        ensures
            r.wf(),
            !r.should_quit,
            r.state.mode == AppMode::Initial,
            r.state.practice_mode == PracticeMode::Main,
            r.state.kana_type == KanaType::Hiragana,
            r.state.history@ == Map::<Seq<char>, StatsModel>::empty(),
            r.state.history.character_stats@.len() == 0,
            r.state.history.last_session >= 0,
            r.state.history.total_practice_time == 0,
            r.state.current_kana.is_none(),
            r.state.input_buffer@ == Seq::<char>::empty(),
            r.state.start_time.is_none(),
            r.state.expected_romaji.is_none(),
    {
        App { state: AppState::new_at(now_millis()), should_quit: false }
    }

    /// Chooses the subset to practise.
    pub fn set_practice_mode(&mut self, mode: PracticeMode)
        ensures
            *final(self) == (App {
                state: AppState { practice_mode: mode, ..old(self).state },
                ..*old(self)
            }),
    {
        self.state.practice_mode = mode;
    }

    /// Chooses the syllabary to practise.
    pub fn set_kana_type(&mut self, kana_type: KanaType)
        ensures
            *final(self) == (App {
                state: AppState { kana_type, ..old(self).state },
                ..*old(self)
            }),
    {
        self.state.kana_type = kana_type;
    }

    /// The catalog of the session's syllabary and subset.
    pub fn get_current_kana_set(&self) -> (r: Vec<KanaPair>)
        ensures
            r@ == self.catalog(),
            r@.len() > 0,
    {
        practice_set(self.state.kana_type, self.state.practice_mode)
    }

    /// Whether `kana` is a character of the session's catalog.
    pub fn is_kana_in_current_mode(&self, kana: &str) -> (r: bool)
        ensures
            r == in_catalog(self.catalog(), kana@),
    {
        let set = self.get_current_kana_set();
        catalog_contains(&set, kana)
    }

    /// Puts `pair` on display, shown at time `now`.
    pub fn show_kana(&mut self, pair: KanaPair, now: i64)
        ensures
            final(self).shows(pair, now as int),
            final(self).same_settings(old(self)),
            final(self).state.history == old(self).state.history,
            final(self).state.input_buffer == old(self).state.input_buffer,
    {
        self.state.current_kana = Some(pair.0.to_owned());
        self.state.expected_romaji = Some(pair.1.to_owned());
        self.state.start_time = Some(now);
    }

    /// Whether this session is what `before` becomes when the next
    /// character is chosen at time `now`: every character of the catalog
    /// has been looked up in the history, and one of them is on display.
    pub open spec fn after_selection(&self, before: &App, now: int) -> bool {
        &&& self.same_settings(before)
        &&& self.state.input_buffer == before.state.input_buffer
        &&& self.state.history@ == with_defaults(before.state.history@, before.catalog(), now)
        &&& exists|i: int|
            0 <= i < before.catalog().len() && self.shows(#[trigger] before.catalog()[i], now)
    }

    /// Chooses the next character at time `now` and puts it on display.
    /// Every character of the catalog is looked up in the history first.
    /// The catalogs are not empty, so a character is always chosen.
    pub fn select_next_kana_at(&mut self, now: i64) -> (r: Result<(), KanaError>)
        requires
            old(self).wf(),
        ensures
            final(self).wf(),
            r.is_ok(),
            final(self).after_selection(old(self), now as int),
    {
        let set = self.get_current_kana_set();
        match select_at(&set, &mut self.state.history, now) {
            Ok(i) => {
                self.show_kana(set[i], now);
                assert(final(self).shows(old(self).catalog()[i as int], now as int));
                Ok(())
            },
            Err(e) => Err(e),
        }
    }

    /// Chooses the next character, at the time that the clock gives, and
    /// puts it on display.
    pub fn select_next_kana(&mut self) -> (r: Result<(), KanaError>)
        requires
            old(self).wf(),
        ensures
            final(self).wf(),
            r.is_ok(),
            exists|now: int| #[trigger] final(self).after_selection(old(self), now),
    {
        let now = now_millis();
        let r = self.select_next_kana_at(now);
        assert(final(self).after_selection(old(self), now as int));
        r
    }

    /// Appends a typed character to the input.
    pub fn handle_input(&mut self, c: char)
        ensures
            final(self).state.input_buffer@ == old(self).state.input_buffer@.push(c),
            *final(self) == (App {
                state: AppState {
                    input_buffer: final(self).state.input_buffer,
                    ..old(self).state
                },
                ..*old(self)
            }),
    {
        push_char(&mut self.state.input_buffer, c);
    }
}

/// The response time that is recorded for an answer judged at `now` to a
/// prompt shown at `start`: the milliseconds between them, not less than
/// zero and not more than 32 bits hold.
pub open spec fn elapsed_ms(start: int, now: int) -> int {
    if now <= start {
        0
    } else if now - start > u32::MAX {
        u32::MAX as int
    } else {
        now - start
    }
}

/// The response time that is recorded for an answer judged at `now` to a
/// prompt shown at `start`.
pub fn elapsed_between(start: i64, now: i64) -> (r: u32)
    ensures
        r == elapsed_ms(start as int, now as int),
        now - r >= i64::MIN,
{
    if now <= start {
        0
    } else {
        let d: i128 = now as i128 - start as i128;
        if d > u32::MAX as i128 {
            u32::MAX
        } else {
            d as u32
        }
    }
}

/// An answer as it is compared and recorded: without white space around
/// it, in lower case.
pub open spec fn normalized_answer(typed: Seq<char>) -> Seq<char> {
    lowercase(trimmed(typed))
}

/// Strips the white space around an answer and takes it to lower case.
pub fn normalize_answer(typed: &str) -> (r: String)
    ensures
        r@ == normalized_answer(typed@),
{
    to_lowercase(trim(typed))
}

impl App {
    /// Whether the session waits for an answer: a character is being
    /// practised and its romanization and time of appearance are known.
    pub open spec fn awaits_answer(&self) -> bool {
        &&& self.state.mode == AppMode::Ready
        &&& self.state.expected_romaji.is_some()
        &&& self.state.start_time.is_some()
    }

    /// The history after the answer `input` to the character on display
    /// was judged at time `now`, `response_time` milliseconds after the
    /// prompt: the attempt is recorded under that character, with fresh
    /// statistics first if it had none. With no character on display the
    /// history stays as it is.
    pub open spec fn history_after_answer(
        &self,
        input: Seq<char>,
        success: bool,
        response_time: int,
        now: int,
    ) -> Map<Seq<char>, StatsModel> {
        match self.state.current_kana {
            Some(kana) => {
                let before = if self.state.history@.contains_key(kana@) {
                    self.state.history@[kana@]
                } else {
                    StatsModel::fresh(now)
                };
                self.state.history@.insert(
                    kana@,
                    before.record(input, success, response_time, now),
                )
            },
            None => self.state.history@,
        }
    }

    /// Records the answer `input` to the character on display, judged at
    /// time `now`, `response_time` milliseconds after the prompt, and
    /// empties the input. What is on display stays.
    pub fn record_answer(&mut self, input: &str, success: bool, response_time: u32, now: i64)
        requires
            old(self).wf(),
            now - response_time >= i64::MIN,
        ensures
            final(self).wf(),
            final(self).same_settings(old(self)),
            final(self).state.history@ == old(self).history_after_answer(
                input@,
                success,
                response_time as int,
                now as int,
            ),
            final(self).state.input_buffer@ == Seq::<char>::empty(),
            final(self).state.current_kana == old(self).state.current_kana,
            final(self).state.expected_romaji == old(self).state.expected_romaji,
            final(self).state.start_time == old(self).state.start_time,
    {
        match &self.state.current_kana {
            Some(kana) => {
                self.state.history.record_attempt_at(
                    kana.as_str(),
                    input,
                    success,
                    response_time,
                    now,
                );
            },
            None => {},
        }
        self.state.input_buffer = String::new();
    }

    /// Whether this session is what `before` becomes when what has been
    /// typed is judged at time `now`, with the verdict `success`. Outside
    /// the phase that waits for an answer nothing happens and the verdict
    /// is `false`. Otherwise the typed text, trimmed and in lower case, is
    /// right if it equals the expected romanization in lower case; the
    /// attempt is recorded and the input emptied; a wrong answer leaves
    /// the same character on display, a right one brings the next.
    pub open spec fn after_answer(&self, before: &App, now: int, success: bool) -> bool {
        if !before.awaits_answer() {
            !success && *self == *before
        } else {
            let input = normalized_answer(before.state.input_buffer@);
            let recorded = before.history_after_answer(
                input,
                success,
                elapsed_ms(before.state.start_time.unwrap() as int, now),
                now,
            );
            &&& success == (input == lowercase(before.state.expected_romaji.unwrap()@))
            &&& self.same_settings(before)
            &&& self.state.input_buffer@ == Seq::<char>::empty()
            &&& !success ==> {
                &&& self.state.history@ == recorded
                &&& self.state.current_kana == before.state.current_kana
                &&& self.state.expected_romaji == before.state.expected_romaji
                &&& self.state.start_time == before.state.start_time
            }
            &&& success ==> {
                &&& self.state.history@ == with_defaults(recorded, before.catalog(), now)
                &&& exists|i: int|
                    0 <= i < before.catalog().len() && self.shows(
                        #[trigger] before.catalog()[i],
                        now,
                    )
            }
        }
    }

    /// Judges what has been typed against the expected romanization, at
    /// time `now`, and returns the verdict.
    pub fn check_answer_at(&mut self, now: i64) -> (r: Result<bool, KanaError>)
        requires
            old(self).wf(),
        ensures
            final(self).wf(),
            r matches Ok(success) && final(self).after_answer(old(self), now as int, success),
    {
        match self.state.mode {
            AppMode::Ready => {},
            _ => {
                return Ok(false);
            },
        }
        if self.state.expected_romaji.is_none() || self.state.start_time.is_none() {
            return Ok(false);
        }
        let input = normalize_answer(self.state.input_buffer.as_str());
        let expected = to_lowercase(self.state.expected_romaji.as_ref().unwrap().as_str());
        let success = input == expected;
        let response_time = elapsed_between(self.state.start_time.unwrap(), now);
        self.record_answer(input.as_str(), success, response_time, now);
        if success {
            let ghost recorded = *self;
            match self.select_next_kana_at(now) {
                Ok(()) => {},
                Err(e) => {
                    return Err(e);
                },
            }
            proof {
                assert(recorded.catalog() == old(self).catalog());
                let i = choose|i: int|
                    0 <= i < recorded.catalog().len() && self.shows(
                        #[trigger] recorded.catalog()[i],
                        now as int,
                    );
                assert(self.shows(old(self).catalog()[i], now as int));
            }
        }
        Ok(success)
    }

    /// Judges what has been typed against the expected romanization, at
    /// the time that the clock gives, and returns the verdict.
    pub fn check_answer(&mut self) -> (r: Result<bool, KanaError>)
        requires
            old(self).wf(),
        ensures
            final(self).wf(),
            r matches Ok(success) && exists|now: int| #[trigger]
                final(self).after_answer(old(self), now, success),
    {
        let now = now_millis();
        let r = self.check_answer_at(now);
        assert(final(self).after_answer(old(self), now as int, r.unwrap()));
        r
    }

    /// Whether this session is what `before` becomes when Enter is pressed
    /// at time `now`. Before the first character and after a pause the
    /// session starts to wait for an answer and a character is chosen. A
    /// blank input while it waits pauses the session: nothing is on
    /// display and the input is empty. Any other input is judged.
    pub open spec fn after_enter(&self, before: &App, now: int) -> bool {
        match before.state.mode {
            AppMode::Initial | AppMode::Paused => self.state.mode == AppMode::Ready
                && self.after_selection(
                &(App { state: AppState { mode: AppMode::Ready, ..before.state }, ..*before }),
                now,
            ),
            AppMode::Ready => if trimmed(before.state.input_buffer@).len() == 0 {
                &&& self.state.input_buffer@ == Seq::<char>::empty()
                &&& *self == (App {
                    state: AppState {
                        mode: AppMode::Paused,
                        current_kana: None,
                        start_time: None,
                        input_buffer: self.state.input_buffer,
                        ..before.state
                    },
                    ..*before
                })
            } else {
                exists|success: bool| #[trigger] self.after_answer(before, now, success)
            },
        }
    }

    /// Handles Enter at time `now`.
    pub fn handle_enter_at(&mut self, now: i64) -> (r: Result<(), KanaError>)
        requires
            old(self).wf(),
        ensures
            final(self).wf(),
            r.is_ok(),
            final(self).after_enter(old(self), now as int),
    {
        match self.state.mode {
            AppMode::Initial | AppMode::Paused => {
                self.state.mode = AppMode::Ready;
                match self.select_next_kana_at(now) {
                    Ok(()) => {},
                    Err(e) => {
                        return Err(e);
                    },
                }
            },
            AppMode::Ready => {
                if trim(self.state.input_buffer.as_str()).unicode_len() == 0 {
                    self.state.mode = AppMode::Paused;
                    self.state.current_kana = None;
                    self.state.start_time = None;
                    self.state.input_buffer = String::new();
                } else {
                    match self.check_answer_at(now) {
                        Ok(success) => {
                            assert(final(self).after_answer(old(self), now as int, success));
                        },
                        Err(e) => {
                            return Err(e);
                        },
                    }
                }
            },
        }
        Ok(())
    }

    /// Handles Enter at the time that the clock gives.
    pub fn handle_enter(&mut self) -> (r: Result<(), KanaError>)
        requires
            old(self).wf(),
        ensures
            final(self).wf(),
            r.is_ok(),
            exists|now: int| #[trigger] final(self).after_enter(old(self), now),
    {
        let now = now_millis();
        let r = self.handle_enter_at(now);
        assert(final(self).after_enter(old(self), now as int));
        r
    }

    /// Whether this session is what `before` becomes when `key` is pressed
    /// at time `now`. While the session waits for an answer a character is
    /// appended to the input and Backspace removes its last character; in
    /// the other phases both are ignored. Enter is handled as
    /// `after_enter` says, Esc asks for the end of the session, and any
    /// other key changes nothing.
    pub open spec fn after_key(&self, before: &App, key: KeyInput, now: int) -> bool {
        match key {
            KeyInput::Char(c) => if before.state.mode == AppMode::Ready {
                &&& self.state.input_buffer@ == before.state.input_buffer@.push(c)
                &&& *self == (App {
                    state: AppState { input_buffer: self.state.input_buffer, ..before.state },
                    ..*before
                })
            } else {
                *self == *before
            },
            KeyInput::Enter => self.after_enter(before, now),
            KeyInput::Backspace => if before.state.mode == AppMode::Ready {
                &&& self.state.input_buffer@ == if before.state.input_buffer@.len() > 0 {
                    before.state.input_buffer@.drop_last()
                } else {
                    before.state.input_buffer@
                }
                &&& *self == (App {
                    state: AppState { input_buffer: self.state.input_buffer, ..before.state },
                    ..*before
                })
            } else {
                *self == *before
            },
            KeyInput::Esc => *self == (App { should_quit: true, ..*before }),
            KeyInput::Other => *self == *before,
        }
    }

    /// Handles a key press at time `now`.
    pub fn handle_key_at(&mut self, key: KeyInput, now: i64) -> (r: Result<(), KanaError>)
        requires
            old(self).wf(),
        ensures
            final(self).wf(),
            r.is_ok(),
            final(self).after_key(old(self), key, now as int),
    {
        match key {
            KeyInput::Char(c) => {
                match self.state.mode {
                    AppMode::Ready => {
                        self.handle_input(c);
                    },
                    _ => {},
                }
                Ok(())
            },
            KeyInput::Enter => self.handle_enter_at(now),
            KeyInput::Backspace => {
                match self.state.mode {
                    AppMode::Ready => {
                        let _ = pop_char(&mut self.state.input_buffer);
                    },
                    _ => {},
                }
                Ok(())
            },
            KeyInput::Esc => {
                self.should_quit = true;
                Ok(())
            },
            KeyInput::Other => Ok(()),
        }
    }

    /// Handles a key press at the time that the clock gives.
    pub fn handle_key(&mut self, key: KeyInput) -> (r: Result<(), KanaError>)
        requires
            old(self).wf(),
        ensures
            final(self).wf(),
            r.is_ok(),
            exists|now: int| #[trigger] final(self).after_key(old(self), key, now),
    {
        let now = now_millis();
        let r = self.handle_key_at(key, now);
        assert(final(self).after_key(old(self), key, now as int));
        r
    }
}

} // verus!
