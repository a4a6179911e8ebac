use kana_practice::fixed::SCALE;
use kana_practice::history::UserHistory;
use kana_practice::kana::KanaPair;
use kana_practice::mistakes::{
    display_form, insert_sorted, mistake_summaries, rank_by_latest, summarize_mistakes,
};
use kana_practice::order::stable_order;
use kana_practice::report::{
    accuracy_grade, entries_in_catalog, rank_by_accuracy, rank_by_response, response_grade,
    stats_rows, Grade,
};
use kana_practice::trend::{collect_tests, response_trend, trend_points, TimedTest};
use kana_practice::text::text_precedes;

const T0: i64 = 1_700_000_000_000;

fn catalog() -> Vec<KanaPair> {
    vec![("あ", "a"), ("い", "i"), ("し", "shi"), ("ヂ", "ji"), ("ジ", "ji")]
}

fn sample() -> UserHistory {
    let mut h = UserHistory::new_at(T0);
    h.record_attempt_at("し", "shi", true, 1_000, T0 + 30);
    h.record_attempt_at("X", "x", false, 9_000, T0 + 31);
    h.record_attempt_at("あ", "i", false, 2_000, T0 + 10);
    h.record_attempt_at("し", "si", false, 3_000, T0 + 20);
    h.record_attempt_at("あ", "a", true, 500, T0 + 40);
    h.record_attempt_at("あ", "ji", false, 500, T0 + 50);
    h.record_attempt_at("あ", "i", false, 700, T0 + 45);
    h.record_attempt_at("い", "i", true, 800, T0 + 60);
    h
}

#[test]
fn grades() {
    assert_eq!(accuracy_grade(0), Grade::Poor);
    assert_eq!(accuracy_grade(799_999), Grade::Poor);
    assert_eq!(accuracy_grade(800_000), Grade::Fair);
    assert_eq!(accuracy_grade(899_999), Grade::Fair);
    assert_eq!(accuracy_grade(900_000), Grade::Good);
    assert_eq!(accuracy_grade(SCALE), Grade::Good);
    assert_eq!(response_grade(0), Grade::Good);
    assert_eq!(response_grade(1_000 * SCALE), Grade::Good);
    assert_eq!(response_grade(1_000 * SCALE + 1), Grade::Fair);
    assert_eq!(response_grade(2_000 * SCALE), Grade::Fair);
    assert_eq!(response_grade(2_000 * SCALE + 1), Grade::Poor);
}

#[test]
fn stable_order_sorts_and_keeps_ties_in_place() {
    assert_eq!(stable_order(&vec![]), Vec::<usize>::new());
    assert_eq!(stable_order(&vec![5]), vec![0]);
    assert_eq!(stable_order(&vec![3, 1, 2]), vec![1, 2, 0]);
    assert_eq!(stable_order(&vec![2, 1, 2, 1, 0, 2]), vec![4, 1, 3, 0, 2, 5]);
    assert_eq!(stable_order(&vec![i128::MAX, i128::MIN, 0]), vec![1, 2, 0]);
    assert_eq!(stable_order(&vec![7, 7, 7]), vec![0, 1, 2]);
    let keys: Vec<i128> = (0..200).map(|i| ((i * 7919) % 31) as i128).collect();
    let order = stable_order(&keys);
    let mut expected: Vec<usize> = (0..200).collect();
    expected.sort_by_key(|i| keys[*i]);
    assert_eq!(order, expected);
}

#[test]
fn rows_are_those_of_the_catalog_in_store_order() {
    let h = sample();
    assert_eq!(entries_in_catalog(&h, &catalog()), vec![0, 2, 3]);
    let rows = stats_rows(&h, &catalog());
    assert_eq!(rows.len(), 3);
    assert_eq!(rows[0].kana, "し");
    assert_eq!(rows[0].total_tests, 2);
    assert_eq!(rows[0].ema_accuracy, 800_000);
    assert_eq!(rows[0].ema_response, 1_400_000_000);
    assert_eq!(rows[1].kana, "あ");
    assert_eq!(rows[1].total_tests, 4);
    assert_eq!(rows[2].kana, "い");
    assert_eq!(rows[2].ema_accuracy, SCALE);
    assert_eq!(rows[2].ema_response, 800 * SCALE);
    assert!(stats_rows(&h, &Vec::new()).is_empty());
}

#[test]
fn rankings() {
    let h = sample();
    let rows = stats_rows(&h, &catalog());
    let by_accuracy = rank_by_accuracy(&rows);
    assert_eq!(by_accuracy, vec![1, 0, 2]);
    let by_response = rank_by_response(&rows);
    assert_eq!(by_response, vec![0, 1, 2]);
    assert_eq!(rows[0].ema_response, 1_400_000_000);
    assert_eq!(rows[1].ema_response, 1_308_000_000);
}

#[test]
fn equally_slow_rows_keep_their_order_by_accuracy() {
    let mut h = UserHistory::new_at(T0);
    h.record_attempt_at("あ", "a", true, 900, T0);
    h.record_attempt_at("い", "x", false, 900, T0);
    h.record_attempt_at("し", "x", false, 100, T0);
    let rows = stats_rows(&h, &catalog());
    let by_accuracy = rank_by_accuracy(&rows);
    assert_eq!(by_accuracy, vec![1, 2, 0]);
    assert_eq!(rank_by_response(&rows), vec![1, 0, 2]);
}

#[test]
fn tests_are_gathered_entry_by_entry() {
    let h = sample();
    let tests = collect_tests(&h, &catalog());
    let expected = vec![
        TimedTest { start_time: T0 + 30 - 1_000, duration_ms: 1_000 },
        TimedTest { start_time: T0 + 20 - 3_000, duration_ms: 3_000 },
        TimedTest { start_time: T0 + 10 - 2_000, duration_ms: 2_000 },
        TimedTest { start_time: T0 + 40 - 500, duration_ms: 500 },
        TimedTest { start_time: T0 + 50 - 500, duration_ms: 500 },
        TimedTest { start_time: T0 + 45 - 700, duration_ms: 700 },
        TimedTest { start_time: T0 + 60 - 800, duration_ms: 800 },
    ];
    assert_eq!(tests, expected);
}

#[test]
fn trend_is_the_moving_average_in_order_of_time() {
    let h = sample();
    // By start: 3000 (し), 2000 (あ), 1000 (し), 800 (い), 700, 500, 500 (あ).
    let trend = response_trend(&h, &catalog());
    assert_eq!(
        trend,
        vec![
            3_000_000_000,
            2_800_000_000,
            2_440_000_000,
            2_112_000_000,
            1_829_600_000,
            1_563_680_000,
            1_350_944_000
        ]
    );
    assert!(response_trend(&UserHistory::new_at(T0), &catalog()).is_empty());
}

#[test]
fn trend_points_follow_the_given_order() {
    let tests = vec![
        TimedTest { start_time: 5, duration_ms: 100 },
        TimedTest { start_time: 1, duration_ms: 600 },
    ];
    assert_eq!(trend_points(&tests, &vec![1, 0]), vec![600 * SCALE, 500 * SCALE]);
    assert_eq!(trend_points(&tests, &vec![0, 1]), vec![100 * SCALE, 200 * SCALE]);
    assert_eq!(trend_points(&tests, &vec![]), Vec::<u64>::new());
}

#[test]
fn wrong_answers_are_shown_as_characters_where_they_name_one() {
    assert_eq!(display_form(&catalog(), "i"), "い");
    assert_eq!(display_form(&catalog(), "ji"), "ジ");
    assert_eq!(display_form(&catalog(), "si"), "si");
    assert_eq!(display_form(&catalog(), ""), "");
    assert_eq!(display_form(&Vec::new(), "a"), "a");
}

#[test]
fn dictionary_order() {
    assert!(text_precedes("a", "b"));
    assert!(!text_precedes("b", "a"));
    assert!(!text_precedes("a", "a"));
    assert!(text_precedes("", "a"));
    assert!(!text_precedes("", ""));
    assert!(text_precedes("ab", "abc"));
    assert!(text_precedes("Z", "a"));
    assert!(text_precedes("si", "い"));
    for a in ["", "a", "ab", "b", "い", "ジ", "si", "あ"] {
        for b in ["", "a", "ab", "b", "い", "ジ", "si", "あ"] {
            assert_eq!(text_precedes(a, b), a < b);
        }
    }
}

#[test]
fn sorted_insertion_keeps_each_text_once() {
    let mut ws: Vec<String> = Vec::new();
    for w in ["si", "い", "a", "si", "ジ", "a", "", "b"] {
        insert_sorted(&mut ws, String::from(w));
    }
    assert_eq!(ws, vec!["", "a", "b", "si", "い", "ジ"]);
}

#[test]
fn mistakes_are_summarized_per_character() {
    let h = sample();
    let summaries = mistake_summaries(&h, &catalog());
    assert_eq!(summaries.len(), 2);
    assert_eq!(summaries[0].kana, "し");
    assert_eq!(summaries[0].wrong_inputs, vec!["si"]);
    assert_eq!(summaries[0].latest, T0 + 20);
    assert_eq!(summaries[1].kana, "あ");
    assert_eq!(summaries[1].wrong_inputs, vec!["い", "ジ"]);
    assert_eq!(summaries[1].latest, T0 + 50);
    assert_eq!(rank_by_latest(&summaries), vec![1, 0]);
    let one = summarize_mistakes(&h.character_stats[1], &catalog());
    assert_eq!(one.kana, "X");
    assert_eq!(one.wrong_inputs, vec!["x"]);
    assert_eq!(one.latest, T0 + 31);
    assert!(mistake_summaries(&h, &Vec::new()).is_empty());
}
