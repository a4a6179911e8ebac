use kana_practice::fixed::SCALE;
use kana_practice::history::{StatsEntry, UserHistory};
use kana_practice::stats::CharacterStats;

const T0: i64 = 1_700_000_000_000;

#[test]
fn new_store_is_empty() {
    let h = UserHistory::new_at(T0);
    assert!(h.character_stats.is_empty());
    assert_eq!(h.last_session, T0);
    assert_eq!(h.total_practice_time, 0);
    assert!(h.is_well_formed());
    assert_eq!(h.find("あ"), None);
    assert!(h.get("あ").is_none());
    let now = UserHistory::new();
    assert!(now.last_session > 1_600_000_000_000);
    assert!(UserHistory::default().character_stats.is_empty());
}

#[test]
fn get_or_init_creates_once() {
    let mut h = UserHistory::new_at(T0);
    assert_eq!(h.get_or_init("あ", T0 + 1), 0);
    assert_eq!(h.get_or_init("い", T0 + 2), 1);
    assert_eq!(h.get_or_init("あ", T0 + 3), 0);
    assert_eq!(h.character_stats.len(), 2);
    assert_eq!(h.character_stats[0].kana, "あ");
    assert_eq!(h.character_stats[0].stats.last_appearance, T0 + 1);
    assert_eq!(h.character_stats[0].stats.appearances, 0);
    assert_eq!(h.character_stats[1].kana, "い");
    assert_eq!(h.character_stats[1].stats.last_appearance, T0 + 2);
    assert_eq!(h.find("い"), Some(1));
    assert_eq!(h.find("う"), None);
    assert!(h.is_well_formed());
}

#[test]
fn get_or_init_leaves_present_statistics_alone() {
    let mut h = UserHistory::new_at(T0);
    h.record_attempt_at("し", "shi", true, 850, T0 + 10);
    let idx = h.get_or_init("し", T0 + 99);
    assert_eq!(idx, 0);
    let s = &h.character_stats[0].stats;
    assert_eq!(s.appearances, 1);
    assert_eq!(s.last_appearance, T0 + 10);
    assert_eq!(s.exp_avg_response, 850 * SCALE);
}

#[test]
fn attempts_are_recorded_under_their_character() {
    let mut h = UserHistory::new_at(T0);
    h.record_attempt_at("し", "shi", true, 850, T0 + 10);
    h.record_attempt_at("ち", "ti", false, 2_000, T0 + 20);
    h.record_attempt_at("し", "si", false, 1_200, T0 + 30);
    assert_eq!(h.character_stats.len(), 2);
    let shi = h.get("し").unwrap();
    assert_eq!(shi.appearances, 2);
    assert_eq!(shi.successes, 1);
    assert_eq!(shi.exp_avg_response, 920_000_000);
    assert_eq!(shi.exp_avg_accuracy, 800_000);
    assert_eq!(shi.mistakes.len(), 1);
    assert_eq!(shi.mistakes[0].input, "si");
    let chi = h.get("ち").unwrap();
    assert_eq!(chi.appearances, 1);
    assert_eq!(chi.failures, 1);
    assert_eq!(chi.last_appearance, T0 + 20);
    assert_eq!(h.last_session, T0);
    assert!(h.is_well_formed());
}

#[test]
fn duplicate_characters_make_a_store_malformed() {
    let mut h = UserHistory::new_at(T0);
    h.character_stats.push(StatsEntry {
        kana: String::from("あ"),
        stats: CharacterStats::new_at(T0),
    });
    h.character_stats.push(StatsEntry {
        kana: String::from("い"),
        stats: CharacterStats::new_at(T0),
    });
    assert!(h.is_well_formed());
    h.character_stats.push(StatsEntry {
        kana: String::from("あ"),
        stats: CharacterStats::new_at(T0),
    });
    assert!(!h.is_well_formed());
}

#[test]
fn malformed_statistics_make_a_store_malformed() {
    let mut h = UserHistory::new_at(T0);
    h.record_attempt_at("し", "shi", true, 850, T0 + 10);
    assert!(h.is_well_formed());
    h.character_stats[0].stats.appearances = 5;
    assert!(!h.is_well_formed());
}

#[test]
fn recalculate_all_reports_the_entries_that_drifted() {
    let mut h = UserHistory::new_at(T0);
    for (kana, t) in [("あ", 500u32), ("い", 600), ("う", 700), ("え", 800)] {
        h.record_attempt_at(kana, "x", true, t, T0);
        h.record_attempt_at(kana, "x", false, t + 100, T0);
    }
    assert_eq!(h.recalculate_all(), Vec::<usize>::new());
    let good = h.character_stats[1].stats.exp_avg_response;
    h.character_stats[1].stats.exp_avg_response += 1;
    h.character_stats[3].stats.exp_avg_accuracy = 0;
    assert_eq!(h.recalculate_all(), vec![1, 3]);
    assert_eq!(h.character_stats[1].stats.exp_avg_response, good);
    assert_eq!(h.character_stats[1].stats.exp_avg_response, 620_000_000);
    assert_eq!(h.character_stats[3].stats.exp_avg_accuracy, 800_000);
    assert_eq!(h.character_stats[0].kana, "あ");
    assert_eq!(h.recalculate_all(), Vec::<usize>::new());
    assert!(h.is_well_formed());
}
