use kana_practice::error::KanaError;
use kana_practice::fixed::SCALE;
use kana_practice::history::UserHistory;
use kana_practice::kana::{KanaPair, MAIN_HIRAGANA};
use kana_practice::selector::{
    compute_raw_weights, normalize_weights, resolve_draw, select, select_at,
};
use kana_practice::model::NEW_WEIGHT;

const T0: i64 = 1_700_000_000_000;

fn practised(h: &mut UserHistory, kana: &str, last: i64) {
    for i in 0..10u32 {
        h.record_attempt_at(kana, "x", i % 2 == 0, 1_200, last);
    }
    let idx = h.find(kana).unwrap();
    h.character_stats[idx].stats.exp_avg_accuracy = 500_000;
    h.character_stats[idx].stats.exp_avg_response = 1_200_000_000;
}

#[test]
fn normalization_maps_the_ends_to_one_and_ten() {
    assert_eq!(
        normalize_weights(&vec![3_000_000, 1_666_660]),
        vec![10_000_000, 1_000_000]
    );
    assert_eq!(
        normalize_weights(&vec![1_000_000, 2_000_000, 3_000_000, 1_500_000, 1_333_333]),
        vec![1_000_000, 5_500_000, 10_000_000, 3_250_000, 2_499_999]
    );
    assert_eq!(normalize_weights(&vec![0, u64::MAX]), vec![SCALE, 10 * SCALE]);
    assert_eq!(normalize_weights(&vec![7, 8]), vec![SCALE, 10 * SCALE]);
}

#[test]
fn normalization_of_equal_weights_gives_one_each() {
    assert_eq!(normalize_weights(&vec![NEW_WEIGHT; 5]), vec![SCALE; 5]);
    assert_eq!(normalize_weights(&vec![42]), vec![SCALE]);
    assert_eq!(normalize_weights(&vec![0, 0]), vec![SCALE, SCALE]);
    assert_eq!(normalize_weights(&vec![]), Vec::<u64>::new());
}

#[test]
fn normalized_weights_stay_in_range_and_in_order() {
    let raw: Vec<u64> = vec![1_104_820, 1_262_621, 1_429_287, 3_000_000, 1_000_825, 1_999_999];
    let n = normalize_weights(&raw);
    assert_eq!(n.len(), raw.len());
    for i in 0..raw.len() {
        assert!(SCALE <= n[i] && n[i] <= 10 * SCALE);
        for j in 0..raw.len() {
            if raw[i] <= raw[j] {
                assert!(n[i] <= n[j]);
            }
        }
    }
    assert_eq!(n[4], SCALE);
    assert_eq!(n[3], 10 * SCALE);
}

#[test]
fn raw_weights_create_missing_statistics() {
    let catalog: Vec<KanaPair> = vec![("A", "a"), ("B", "b"), ("A", "a")];
    let mut h = UserHistory::new_at(T0);
    practised(&mut h, "B", T0 - 7_200_000);
    let raw = compute_raw_weights(&catalog, &mut h, T0);
    assert_eq!(raw, vec![3_000_000, 1_666_660, 3_000_000]);
    assert_eq!(h.character_stats.len(), 2);
    assert_eq!(h.character_stats[0].kana, "B");
    assert_eq!(h.character_stats[0].stats.appearances, 10);
    assert_eq!(h.character_stats[1].kana, "A");
    assert_eq!(h.character_stats[1].stats.appearances, 0);
    assert_eq!(h.character_stats[1].stats.last_appearance, T0);
    assert_eq!(normalize_weights(&raw), vec![10_000_000, 1_000_000, 10_000_000]);
    let again = compute_raw_weights(&catalog, &mut h, T0 + 5);
    assert_eq!(again[0], 3_000_000);
    assert_eq!(h.character_stats.len(), 2);
    assert_eq!(h.character_stats[1].stats.last_appearance, T0);
}

#[test]
fn empty_catalog_cannot_be_drawn_from() {
    let catalog: Vec<KanaPair> = Vec::new();
    let mut h = UserHistory::new_at(T0);
    match select_at(&catalog, &mut h, T0) {
        Err(KanaError::Terminal(cause)) => {
            assert_eq!(cause, "No weights provided in distribution")
        }
        other => panic!("unexpected: {:?}", other),
    }
    assert!(matches!(select(&catalog, &mut h), Err(KanaError::Terminal(_))));
    assert!(h.character_stats.is_empty());
}

#[test]
fn single_item_is_always_drawn() {
    let catalog: Vec<KanaPair> = vec![("あ", "a")];
    let mut h = UserHistory::new_at(T0);
    for _ in 0..50 {
        assert_eq!(select_at(&catalog, &mut h, T0).unwrap(), 0);
    }
    assert_eq!(h.character_stats.len(), 1);
    assert_eq!(select(&catalog, &mut h).unwrap(), 0);
}

#[test]
fn drawn_positions_are_within_the_catalog() {
    let catalog: Vec<KanaPair> = MAIN_HIRAGANA.to_vec();
    let mut h = UserHistory::new_at(T0);
    let mut seen = vec![false; catalog.len()];
    for _ in 0..5_000 {
        let i = select_at(&catalog, &mut h, T0).unwrap();
        assert!(i < catalog.len());
        seen[i] = true;
    }
    assert_eq!(h.character_stats.len(), 46);
    assert!(seen.iter().filter(|s| **s).count() > 40);
    assert!(h.is_well_formed());
}

#[test]
fn unseen_character_is_drawn_ten_times_as_often() {
    let catalog: Vec<KanaPair> = vec![("A", "a"), ("B", "b")];
    let mut h = UserHistory::new_at(T0);
    practised(&mut h, "B", T0 - 7_200_000);
    let draws = 22_000;
    let mut a = 0;
    for _ in 0..draws {
        if select_at(&catalog, &mut h, T0).unwrap() == 0 {
            a += 1;
        }
    }
    let share = a as f64 / draws as f64;
    assert!((share - 10.0 / 11.0).abs() < 0.02, "share of A: {}", share);
}

#[test]
fn a_draw_resolves_to_its_position_or_to_a_terminal_failure() {
    assert!(matches!(resolve_draw(Ok(3)), Ok(3)));
    match resolve_draw(Err(String::from("nothing to draw"))) {
        Err(KanaError::Terminal(cause)) => assert_eq!(cause, "nothing to draw"),
        other => panic!("unexpected: {:?}", other),
    }
}
