use kana_practice::cli::{
    convert_to_practice_mode, find_closest_match, is_valid_prefix, kana_type_from_flag,
    levenshtein_distance, parse_args, parse_argument, parse_combined_flags, parse_kana_type,
    parse_long_argument, parse_practice_type, parse_single_short_flag, practice_type_from_flag,
    CliArgs, PracticeType, VALID_KANA_FLAGS, VALID_PRACTICE_FLAGS,
};
use kana_practice::error::KanaError;
use kana_practice::types::{KanaType, PracticeMode};

fn args(list: &[&str]) -> Vec<String> {
    list.iter().map(|s| s.to_string()).collect()
}

fn refusal(r: Result<CliArgs, KanaError>) -> String {
    match r {
        Err(KanaError::InvalidInput(text)) => text,
        other => panic!("not refused as invalid input: {:?}", other),
    }
}

#[test]
fn edit_distances() {
    assert_eq!(levenshtein_distance("", ""), 0);
    assert_eq!(levenshtein_distance("", "abc"), 3);
    assert_eq!(levenshtein_distance("abc", ""), 3);
    assert_eq!(levenshtein_distance("kitten", "sitting"), 3);
    assert_eq!(levenshtein_distance("flaw", "lawn"), 2);
    assert_eq!(levenshtein_distance("main", "main"), 0);
    assert_eq!(levenshtein_distance("mian", "main"), 2);
    assert_eq!(levenshtein_distance("hirgana", "hiragana"), 1);
    assert_eq!(levenshtein_distance("a", "b"), 1);
    assert_eq!(levenshtein_distance("かな", "かた"), 1);
    assert_eq!(levenshtein_distance("intention", "execution"), 5);
}

#[test]
fn edit_distance_is_symmetric_on_samples() {
    let words = ["", "a", "main", "dakuten", "combination", "all", "hiragana", "katakana", "mane"];
    for a in words {
        for b in words {
            assert_eq!(levenshtein_distance(a, b), levenshtein_distance(b, a));
        }
    }
}

#[test]
fn first_flag_with_the_prefix_wins() {
    assert_eq!(is_valid_prefix("hira", &VALID_KANA_FLAGS), Some("hiragana"));
    assert_eq!(is_valid_prefix("k", &VALID_KANA_FLAGS), Some("katakana"));
    assert_eq!(is_valid_prefix("", &VALID_KANA_FLAGS), Some("hiragana"));
    assert_eq!(is_valid_prefix("hiraganas", &VALID_KANA_FLAGS), None);
    assert_eq!(is_valid_prefix("x", &VALID_KANA_FLAGS), None);
    assert_eq!(is_valid_prefix("a", &["alpha", "all"]), Some("alpha"));
    assert_eq!(is_valid_prefix("al", &["beta", "all", "alpha"]), Some("all"));
    assert_eq!(is_valid_prefix("a", &[]), None);
}

#[test]
fn closest_match_needs_the_same_first_letter() {
    assert_eq!(find_closest_match("mian", &VALID_PRACTICE_FLAGS), Some("main"));
    assert_eq!(find_closest_match("dakutne", &VALID_PRACTICE_FLAGS), Some("dakuten"));
    assert_eq!(find_closest_match("xyz", &VALID_PRACTICE_FLAGS), None);
    assert_eq!(find_closest_match("hirgana", &VALID_KANA_FLAGS), Some("hiragana"));
    assert_eq!(find_closest_match("q", &[]), None);
    assert_eq!(find_closest_match("あ", &VALID_KANA_FLAGS), None);
}

#[test]
fn closest_match_prefers_the_first_of_equally_near_options() {
    assert_eq!(find_closest_match("ab", &["ax", "ay", "ab"]), Some("ab"));
    assert_eq!(find_closest_match("ab", &["ax", "ay"]), Some("ax"));
    assert_eq!(find_closest_match("ab", &["ay", "ax"]), Some("ay"));
    assert_eq!(find_closest_match("ab", &["b", "abcd", "abc"]), Some("abc"));
    assert_eq!(find_closest_match("", &["abc", "ab", "a"]), Some("a"));
}

#[test]
fn kana_type_flags() {
    assert_eq!(parse_kana_type("--hiragana"), Some(KanaType::Hiragana));
    assert_eq!(parse_kana_type("--katakana"), Some(KanaType::Katakana));
    assert_eq!(parse_kana_type("--kata"), Some(KanaType::Katakana));
    assert_eq!(parse_kana_type("hiragana"), Some(KanaType::Hiragana));
    assert_eq!(parse_kana_type("--main"), None);
    assert_eq!(parse_kana_type("--hiraganas"), None);
    assert_eq!(parse_kana_type("--"), Some(KanaType::Hiragana));
    assert_eq!(kana_type_from_flag("k"), Some(KanaType::Katakana));
    assert_eq!(kana_type_from_flag("K"), None);
}

#[test]
fn flags_are_read_without_regard_to_case() {
    assert_eq!(parse_kana_type("--KATAKANA"), Some(KanaType::Katakana));
    assert_eq!(parse_kana_type("--Hira"), Some(KanaType::Hiragana));
    assert_eq!(parse_practice_type("--DAKUTEN"), Some(PracticeType::Dakuten));
    assert_eq!(parse_kana_type("--\u{212A}atakana"), Some(KanaType::Katakana));
}

#[test]
fn practice_type_flags() {
    assert_eq!(parse_practice_type("--main"), Some(PracticeType::Main));
    assert_eq!(parse_practice_type("--dakuten"), Some(PracticeType::Dakuten));
    assert_eq!(parse_practice_type("--combination"), Some(PracticeType::Combination));
    assert_eq!(parse_practice_type("--all"), Some(PracticeType::All));
    assert_eq!(parse_practice_type("--c"), Some(PracticeType::Combination));
    assert_eq!(parse_practice_type("--a"), Some(PracticeType::All));
    assert_eq!(parse_practice_type("--hiragana"), None);
    assert_eq!(parse_practice_type(""), Some(PracticeType::Main));
    assert_eq!(practice_type_from_flag("al"), Some(PracticeType::All));
    assert_eq!(practice_type_from_flag("alll"), None);
}

#[test]
fn single_short_flags() {
    assert_eq!(parse_single_short_flag("h"), Some((KanaType::Hiragana, PracticeType::Main)));
    assert_eq!(parse_single_short_flag("k"), Some((KanaType::Katakana, PracticeType::Main)));
    assert_eq!(parse_single_short_flag("m"), Some((KanaType::Hiragana, PracticeType::Main)));
    assert_eq!(parse_single_short_flag("d"), Some((KanaType::Hiragana, PracticeType::Dakuten)));
    assert_eq!(
        parse_single_short_flag("c"),
        Some((KanaType::Hiragana, PracticeType::Combination))
    );
    assert_eq!(parse_single_short_flag("a"), Some((KanaType::Hiragana, PracticeType::All)));
    assert_eq!(parse_single_short_flag("x"), None);
    assert_eq!(parse_single_short_flag("hk"), None);
    assert_eq!(parse_single_short_flag(""), None);
}

#[test]
fn combined_short_flags() {
    let table = [
        ("mh", KanaType::Hiragana, PracticeType::Main),
        ("mk", KanaType::Katakana, PracticeType::Main),
        ("dh", KanaType::Hiragana, PracticeType::Dakuten),
        ("dk", KanaType::Katakana, PracticeType::Dakuten),
        ("ch", KanaType::Hiragana, PracticeType::Combination),
        ("ck", KanaType::Katakana, PracticeType::Combination),
        ("ah", KanaType::Hiragana, PracticeType::All),
        ("ak", KanaType::Katakana, PracticeType::All),
        ("hm", KanaType::Hiragana, PracticeType::Main),
        ("km", KanaType::Katakana, PracticeType::Main),
        ("hd", KanaType::Hiragana, PracticeType::Dakuten),
        ("kd", KanaType::Katakana, PracticeType::Dakuten),
        ("hc", KanaType::Hiragana, PracticeType::Combination),
        ("kc", KanaType::Katakana, PracticeType::Combination),
        ("ha", KanaType::Hiragana, PracticeType::All),
        ("ka", KanaType::Katakana, PracticeType::All),
    ];
    for (flags, kana_type, practice_type) in table {
        assert_eq!(parse_combined_flags(flags), Some((kana_type, practice_type)));
    }
    for flags in ["", "m", "hh", "md", "hk", "mhk", "xy", "m ", "hé"] {
        assert_eq!(parse_combined_flags(flags), None, "{}", flags);
    }
}

#[test]
fn no_arguments_mean_basic_hiragana() {
    let r = parse_args(&args(&[])).unwrap();
    assert_eq!(r, CliArgs::default());
    assert_eq!(r.kana_type, KanaType::Hiragana);
    assert_eq!(r.practice_type, PracticeType::Main);
}

#[test]
fn later_arguments_override_earlier_ones() {
    let r = parse_args(&args(&["--katakana", "--dakuten"])).unwrap();
    assert_eq!(r, CliArgs { kana_type: KanaType::Katakana, practice_type: PracticeType::Dakuten });
    let r = parse_args(&args(&["--katakana", "-d"])).unwrap();
    assert_eq!(r, CliArgs { kana_type: KanaType::Hiragana, practice_type: PracticeType::Dakuten });
    let r = parse_args(&args(&["-ck", "", "--all"])).unwrap();
    assert_eq!(r, CliArgs { kana_type: KanaType::Katakana, practice_type: PracticeType::All });
    let r = parse_args(&args(&["--all", "--hira", "--kata", "--main"])).unwrap();
    assert_eq!(r, CliArgs { kana_type: KanaType::Katakana, practice_type: PracticeType::Main });
}

#[test]
fn unknown_short_flags_are_refused() {
    assert_eq!(
        refusal(parse_args(&args(&["-x"]))),
        "Invalid short flag: 'x'. Valid short flags are: h, k, m, d, c, a"
    );
    assert_eq!(
        refusal(parse_args(&args(&["--main", "-xy", "--all"]))),
        "Invalid flag combination: 'xy'. Valid combinations are: mh, mk, dh, dk, ch, ck, ah, ak, hm, km, hd, kd, hc, kc, ha, ka"
    );
    assert_eq!(
        refusal(parse_args(&args(&["-"]))),
        "Invalid flag combination: ''. Valid combinations are: mh, mk, dh, dk, ch, ck, ah, ak, hm, km, hd, kd, hc, kc, ha, ka"
    );
    assert_eq!(
        refusal(parse_args(&args(&["-é"]))),
        "Invalid flag combination: 'é'. Valid combinations are: mh, mk, dh, dk, ch, ck, ah, ak, hm, km, hd, kd, hc, kc, ha, ka"
    );
}

#[test]
fn unknown_long_arguments_are_refused_with_a_suggestion() {
    assert_eq!(
        refusal(parse_args(&args(&["--mian"]))),
        "Unknown argument: '--mian'. Did you mean '--main'?"
    );
    assert_eq!(
        refusal(parse_args(&args(&["--hirgana"]))),
        "Unknown argument: '--hirgana'. Did you mean '--hiragana'?"
    );
    assert_eq!(
        refusal(parse_args(&args(&["--xyz"]))),
        "Unknown argument: '--xyz'. Valid options are:\nPractice types: [\"main\", \"dakuten\", \"combination\", \"all\"]\nKana types: [\"hiragana\", \"katakana\"]"
    );
    assert_eq!(
        refusal(parse_args(&args(&["--katakana", "kanji"]))),
        "Unknown argument: 'kanji'. Did you mean '--katakana'?"
    );
}

#[test]
fn the_first_refused_argument_ends_the_reading() {
    assert_eq!(
        refusal(parse_args(&args(&["--katakana", "-x", "--nonsense"]))),
        "Invalid short flag: 'x'. Valid short flags are: h, k, m, d, c, a"
    );
}

#[test]
fn one_argument_at_a_time() {
    let start = CliArgs { kana_type: KanaType::Katakana, practice_type: PracticeType::All };
    assert_eq!(parse_argument(start, "").unwrap(), start);
    assert_eq!(
        parse_argument(start, "--main").unwrap(),
        CliArgs { kana_type: KanaType::Katakana, practice_type: PracticeType::Main }
    );
    assert_eq!(
        parse_argument(start, "--hiragana").unwrap(),
        CliArgs { kana_type: KanaType::Hiragana, practice_type: PracticeType::All }
    );
    assert_eq!(
        parse_argument(start, "-h").unwrap(),
        CliArgs { kana_type: KanaType::Hiragana, practice_type: PracticeType::Main }
    );
    assert_eq!(
        parse_long_argument(start, "--DAK", "dak").unwrap(),
        CliArgs { kana_type: KanaType::Katakana, practice_type: PracticeType::Dakuten }
    );
    assert_eq!(
        refusal(parse_long_argument(start, "--Dx", "dx")),
        "Unknown argument: '--Dx'. Valid options are:\nPractice types: [\"main\", \"dakuten\", \"combination\", \"all\"]\nKana types: [\"hiragana\", \"katakana\"]"
    );
    assert_eq!(
        refusal(parse_long_argument(start, "--dx", "dx")),
        "Unknown argument: '--dx'. Did you mean '--dakuten'?"
    );
}

#[test]
fn request_to_session_settings() {
    let pairs = [
        (PracticeType::Main, PracticeMode::Main),
        (PracticeType::Dakuten, PracticeMode::Dakuten),
        (PracticeType::Combination, PracticeMode::Combination),
        (PracticeType::All, PracticeMode::All),
    ];
    for (practice_type, mode) in pairs {
        for kana_type in [KanaType::Hiragana, KanaType::Katakana] {
            let cli = CliArgs { kana_type, practice_type };
            assert_eq!(convert_to_practice_mode(&cli), (mode, kana_type));
        }
    }
}

#[test]
fn failures_read_as_kind_and_cause() {
    assert_eq!(KanaError::Io(String::from("gone")).message(), "IO error: gone");
    assert_eq!(
        KanaError::Serialization(String::from("bad")).message(),
        "Failed to serialize/deserialize data: bad"
    );
    assert_eq!(KanaError::Terminal(String::from("tty")).message(), "Terminal error: tty");
    assert_eq!(KanaError::InvalidInput(String::from("x")).message(), "Invalid input: x");
}
