use kana_practice::app::{elapsed_between, normalize_answer, App, KeyInput};
use kana_practice::fixed::SCALE;
use kana_practice::kana::{practice_set, MAIN_HIRAGANA};
use kana_practice::types::{AppMode, KanaType, PracticeMode};

const T0: i64 = 1_700_000_000_000;

fn type_text(app: &mut App, text: &str) {
    for c in text.chars() {
        app.handle_key_at(KeyInput::Char(c), T0).unwrap();
    }
}

fn started() -> App {
    let mut app = App::new();
    app.handle_enter_at(T0).unwrap();
    app
}

#[test]
fn new_session_waits_for_enter() {
    let app = App::new();
    assert_eq!(app.state.mode, AppMode::Initial);
    assert_eq!(app.state.practice_mode, PracticeMode::Main);
    assert_eq!(app.state.kana_type, KanaType::Hiragana);
    assert!(app.state.history.character_stats.is_empty());
    assert!(app.state.history.last_session > 1_600_000_000_000);
    assert_eq!(app.state.history.total_practice_time, 0);
    assert!(app.state.current_kana.is_none());
    assert!(app.state.expected_romaji.is_none());
    assert!(app.state.start_time.is_none());
    assert_eq!(app.state.input_buffer, "");
    assert!(!app.should_quit);
}

#[test]
fn settings_can_be_chosen() {
    let mut app = App::new();
    app.set_practice_mode(PracticeMode::Combination);
    app.set_kana_type(KanaType::Katakana);
    assert_eq!(app.state.practice_mode, PracticeMode::Combination);
    assert_eq!(app.state.kana_type, KanaType::Katakana);
    assert_eq!(app.get_current_kana_set().len(), 55);
    assert!(app.is_kana_in_current_mode("キャ"));
    assert!(!app.is_kana_in_current_mode("きゃ"));
    assert!(!app.is_kana_in_current_mode("kya"));
    assert_eq!(
        app.get_current_kana_set(),
        practice_set(KanaType::Katakana, PracticeMode::Combination)
    );
}

#[test]
fn enter_starts_the_session() {
    let mut app = App::new();
    app.handle_enter_at(T0).unwrap();
    assert_eq!(app.state.mode, AppMode::Ready);
    let kana = app.state.current_kana.clone().unwrap();
    let romaji = app.state.expected_romaji.clone().unwrap();
    assert!(MAIN_HIRAGANA.iter().any(|p| p.0 == kana && p.1 == romaji));
    assert_eq!(app.state.start_time, Some(T0));
    assert_eq!(app.state.history.character_stats.len(), 46);
    assert!(app.state.history.is_well_formed());
}

#[test]
fn selection_shows_a_character_of_the_catalog() {
    let mut app = App::new();
    app.set_kana_type(KanaType::Katakana);
    app.set_practice_mode(PracticeMode::Dakuten);
    app.select_next_kana_at(T0 + 7).unwrap();
    let set = practice_set(KanaType::Katakana, PracticeMode::Dakuten);
    let kana = app.state.current_kana.clone().unwrap();
    let romaji = app.state.expected_romaji.clone().unwrap();
    assert!(set.iter().any(|p| p.0 == kana && p.1 == romaji));
    assert_eq!(app.state.start_time, Some(T0 + 7));
    assert_eq!(app.state.mode, AppMode::Initial);
    assert_eq!(app.state.history.character_stats.len(), 26);
    app.select_next_kana().unwrap();
    assert!(app.state.start_time.unwrap() > 1_600_000_000_000);
    assert_eq!(app.state.history.character_stats.len(), 26);
}

#[test]
fn typing_is_taken_only_while_an_answer_is_awaited() {
    let mut app = App::new();
    app.handle_key_at(KeyInput::Char('a'), T0).unwrap();
    assert_eq!(app.state.input_buffer, "");
    app.handle_key_at(KeyInput::Backspace, T0).unwrap();
    assert_eq!(app.state.input_buffer, "");
    let mut app = started();
    type_text(&mut app, "shi");
    assert_eq!(app.state.input_buffer, "shi");
    app.handle_key_at(KeyInput::Backspace, T0).unwrap();
    assert_eq!(app.state.input_buffer, "sh");
    app.handle_key_at(KeyInput::Other, T0).unwrap();
    assert_eq!(app.state.input_buffer, "sh");
    app.handle_key(KeyInput::Backspace).unwrap();
    app.handle_key(KeyInput::Backspace).unwrap();
    app.handle_key(KeyInput::Backspace).unwrap();
    assert_eq!(app.state.input_buffer, "");
    app.handle_input('ん');
    assert_eq!(app.state.input_buffer, "ん");
}

#[test]
fn escape_asks_for_the_end() {
    let mut app = started();
    let shown = app.state.current_kana.clone();
    app.handle_key_at(KeyInput::Esc, T0).unwrap();
    assert!(app.should_quit);
    assert_eq!(app.state.mode, AppMode::Ready);
    assert_eq!(app.state.current_kana, shown);
}

#[test]
fn blank_input_pauses_and_enter_resumes() {
    let mut app = started();
    let expected = app.state.expected_romaji.clone();
    type_text(&mut app, "  \t");
    app.handle_key_at(KeyInput::Enter, T0 + 1_000).unwrap();
    assert_eq!(app.state.mode, AppMode::Paused);
    assert!(app.state.current_kana.is_none());
    assert!(app.state.start_time.is_none());
    assert_eq!(app.state.expected_romaji, expected);
    assert_eq!(app.state.input_buffer, "");
    let attempts: u64 =
        app.state.history.character_stats.iter().map(|e| e.stats.appearances).sum();
    assert_eq!(attempts, 0);
    assert!(!app.check_answer_at(T0 + 1_500).unwrap());
    app.handle_key_at(KeyInput::Enter, T0 + 2_000).unwrap();
    assert_eq!(app.state.mode, AppMode::Ready);
    assert!(app.state.current_kana.is_some());
    assert_eq!(app.state.start_time, Some(T0 + 2_000));
}

#[test]
fn wrong_answer_keeps_the_character_and_is_recorded() {
    let mut app = started();
    let kana = app.state.current_kana.clone().unwrap();
    type_text(&mut app, "  ZZZ ");
    app.handle_enter_at(T0 + 1_500).unwrap();
    assert_eq!(app.state.mode, AppMode::Ready);
    assert_eq!(app.state.current_kana.clone().unwrap(), kana);
    assert_eq!(app.state.start_time, Some(T0));
    assert_eq!(app.state.input_buffer, "");
    let stats = app.state.history.get(&kana).unwrap();
    assert_eq!(stats.appearances, 1);
    assert_eq!(stats.failures, 1);
    assert_eq!(stats.exp_avg_accuracy, 0);
    assert_eq!(stats.exp_avg_response, 1_500 * SCALE);
    assert_eq!(stats.last_appearance, T0 + 1_500);
    assert_eq!(stats.mistakes[0].input, "zzz");
    assert_eq!(stats.mistakes[0].timestamp, T0 + 1_500);
    assert_eq!(stats.test_history[0].start_time, T0);
}

#[test]
fn right_answer_is_recorded_and_brings_the_next_character() {
    let mut app = started();
    let kana = app.state.current_kana.clone().unwrap();
    let romaji = app.state.expected_romaji.clone().unwrap();
    type_text(&mut app, &format!(" {} ", romaji.to_uppercase()));
    assert!(app.check_answer_at(T0 + 850).unwrap());
    assert_eq!(app.state.input_buffer, "");
    assert_eq!(app.state.start_time, Some(T0 + 850));
    assert!(app.state.current_kana.is_some());
    let stats = app.state.history.get(&kana).unwrap();
    assert_eq!(stats.appearances, 1);
    assert_eq!(stats.successes, 1);
    assert_eq!(stats.exp_avg_response, 850 * SCALE);
    assert_eq!(stats.exp_avg_accuracy, SCALE);
    assert_eq!(stats.test_history[0].input, romaji);
    assert!(stats.mistakes.is_empty());
    assert!(app.state.history.is_well_formed());
}

#[test]
fn checking_with_the_clock() {
    let mut app = App::new();
    assert!(!app.check_answer().unwrap());
    app.handle_enter().unwrap();
    let kana = app.state.current_kana.clone().unwrap();
    type_text(&mut app, "?");
    assert!(!app.check_answer().unwrap());
    let stats = app.state.history.get(&kana).unwrap();
    assert_eq!(stats.failures, 1);
    assert!(stats.test_history[0].duration_ms < 60_000);
    app.handle_key(KeyInput::Enter).unwrap();
    assert_eq!(app.state.mode, AppMode::Paused);
}

#[test]
fn nothing_is_judged_outside_the_waiting_phase() {
    let mut app = App::new();
    assert!(!app.check_answer_at(T0).unwrap());
    assert_eq!(app.state.mode, AppMode::Initial);
    assert!(app.state.history.character_stats.is_empty());
}

#[test]
fn recording_an_answer_by_hand() {
    let mut app = App::new();
    app.show_kana(("し", "shi"), T0);
    app.handle_input('s');
    app.record_answer("si", false, 2_000, T0 + 2_000);
    assert_eq!(app.state.input_buffer, "");
    assert_eq!(app.state.current_kana.clone().unwrap(), "し");
    assert_eq!(app.state.expected_romaji.clone().unwrap(), "shi");
    let stats = app.state.history.get("し").unwrap();
    assert_eq!(stats.appearances, 1);
    assert_eq!(stats.exp_avg_response, 2_000 * SCALE);
    assert_eq!(app.state.history.character_stats.len(), 1);
}

#[test]
fn answers_are_trimmed_and_lowered() {
    assert_eq!(normalize_answer("  SHI \n"), "shi");
    assert_eq!(normalize_answer("Chi"), "chi");
    assert_eq!(normalize_answer(""), "");
    assert_eq!(normalize_answer(" \u{3000} "), "");
    assert_eq!(normalize_answer("ÀB c"), "àb c");
}

#[test]
fn elapsed_time_is_capped_at_both_ends() {
    assert_eq!(elapsed_between(T0, T0 + 850), 850);
    assert_eq!(elapsed_between(T0, T0), 0);
    assert_eq!(elapsed_between(T0, T0 - 5), 0);
    assert_eq!(elapsed_between(0, 4_294_967_295), 4_294_967_295);
    assert_eq!(elapsed_between(0, 4_294_967_296), 4_294_967_295);
    assert_eq!(elapsed_between(i64::MIN, i64::MAX), u32::MAX);
    assert_eq!(elapsed_between(i64::MAX, i64::MIN), 0);
}
