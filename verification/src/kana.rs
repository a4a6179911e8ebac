//! The catalog of characters and their romanizations.
//!
//! Each table lists the characters of one subset of one syllabary, in the
//! order in which they are taught, each with the romanization that is
//! expected as its answer.

use vstd::prelude::*;
use crate::types::{KanaType, PracticeMode};

verus! {

/// A character as it is displayed, and its romanization.
pub type KanaPair = (&'static str, &'static str);

/// The basic hiragana.
pub const MAIN_HIRAGANA: [KanaPair; 46] = [
    ("あ", "a"), ("い", "i"), ("う", "u"), ("え", "e"), ("お", "o"),
    ("か", "ka"), ("き", "ki"), ("く", "ku"), ("け", "ke"), ("こ", "ko"),
    ("さ", "sa"), ("し", "shi"), ("す", "su"), ("せ", "se"), ("そ", "so"),
    ("た", "ta"), ("ち", "chi"), ("つ", "tsu"), ("て", "te"), ("と", "to"),
    ("な", "na"), ("に", "ni"), ("ぬ", "nu"), ("ね", "ne"), ("の", "no"),
    ("は", "ha"), ("ひ", "hi"), ("ふ", "fu"), ("へ", "he"), ("ほ", "ho"),
    ("ま", "ma"), ("み", "mi"), ("む", "mu"), ("め", "me"), ("も", "mo"),
    ("や", "ya"), ("ゆ", "yu"), ("よ", "yo"), ("ら", "ra"), ("り", "ri"),
    ("る", "ru"), ("れ", "re"), ("ろ", "ro"), ("わ", "wa"), ("を", "wo"),
    ("ん", "n"),
];

/// The voiced and half-voiced hiragana.
pub const DAKUTEN_HIRAGANA: [KanaPair; 25] = [
    ("が", "ga"), ("ぎ", "gi"), ("ぐ", "gu"), ("げ", "ge"), ("ご", "go"),
    ("ざ", "za"), ("じ", "ji"), ("ず", "zu"), ("ぜ", "ze"), ("ぞ", "zo"),
    ("だ", "da"), ("ぢ", "di"), ("づ", "du"), ("で", "de"), ("ど", "do"),
    ("ば", "ba"), ("び", "bi"), ("ぶ", "bu"), ("べ", "be"), ("ぼ", "bo"),
    ("ぱ", "pa"), ("ぴ", "pi"), ("ぷ", "pu"), ("ぺ", "pe"), ("ぽ", "po"),
];

/// The hiragana digraphs.
pub const COMBINATION_HIRAGANA: [KanaPair; 33] = [
    ("きゃ", "kya"), ("きゅ", "kyu"), ("きょ", "kyo"), ("しゃ", "sha"), ("しゅ", "shu"),
    ("しょ", "sho"), ("ちゃ", "cha"), ("ちゅ", "chu"), ("ちょ", "cho"), ("にゃ", "nya"),
    ("にゅ", "nyu"), ("にょ", "nyo"), ("ひゃ", "hya"), ("ひゅ", "hyu"), ("ひょ", "hyo"),
    ("みゃ", "mya"), ("みゅ", "myu"), ("みょ", "myo"), ("りゃ", "rya"), ("りゅ", "ryu"),
    ("りょ", "ryo"), ("ぎゃ", "gya"), ("ぎゅ", "gyu"), ("ぎょ", "gyo"), ("じゃ", "ja"),
    ("じゅ", "ju"), ("じょ", "jo"), ("びゃ", "bya"), ("びゅ", "byu"), ("びょ", "byo"),
    ("ぴゃ", "pya"), ("ぴゅ", "pyu"), ("ぴょ", "pyo"),
];

/// The basic katakana.
pub const MAIN_KATAKANA: [KanaPair; 46] = [
    ("ア", "a"), ("イ", "i"), ("ウ", "u"), ("エ", "e"), ("オ", "o"),
    ("カ", "ka"), ("キ", "ki"), ("ク", "ku"), ("ケ", "ke"), ("コ", "ko"),
    ("サ", "sa"), ("シ", "shi"), ("ス", "su"), ("セ", "se"), ("ソ", "so"),
    ("タ", "ta"), ("チ", "chi"), ("ツ", "tsu"), ("テ", "te"), ("ト", "to"),
    ("ナ", "na"), ("ニ", "ni"), ("ヌ", "nu"), ("ネ", "ne"), ("ノ", "no"),
    ("ハ", "ha"), ("ヒ", "hi"), ("フ", "fu"), ("ヘ", "he"), ("ホ", "ho"),
    ("マ", "ma"), ("ミ", "mi"), ("ム", "mu"), ("メ", "me"), ("モ", "mo"),
    ("ヤ", "ya"), ("ユ", "yu"), ("ヨ", "yo"), ("ラ", "ra"), ("リ", "ri"),
    ("ル", "ru"), ("レ", "re"), ("ロ", "ro"), ("ワ", "wa"), ("ヲ", "wo"),
    ("ン", "n"),
];

/// The voiced and half-voiced katakana, with the v-sound.
pub const DAKUTEN_KATAKANA: [KanaPair; 26] = [
    ("ガ", "ga"), ("ギ", "gi"), ("グ", "gu"), ("ゲ", "ge"), ("ゴ", "go"),
    ("ザ", "za"), ("ジ", "ji"), ("ズ", "zu"), ("ゼ", "ze"), ("ゾ", "zo"),
    ("ダ", "da"), ("ヂ", "ji"), ("ヅ", "zu"), ("デ", "de"), ("ド", "do"),
    ("バ", "ba"), ("ビ", "bi"), ("ブ", "bu"), ("ベ", "be"), ("ボ", "bo"),
    ("パ", "pa"), ("ピ", "pi"), ("プ", "pu"), ("ペ", "pe"), ("ポ", "po"),
    ("ヴ", "vu"),
];

/// The katakana digraphs, with those for foreign sounds.
pub const COMBINATION_KATAKANA: [KanaPair; 55] = [
    ("キャ", "kya"), ("キュ", "kyu"), ("キョ", "kyo"), ("シャ", "sha"), ("シュ", "shu"),
    ("ショ", "sho"), ("チャ", "cha"), ("チュ", "chu"), ("チョ", "cho"), ("ニャ", "nya"),
    ("ニュ", "nyu"), ("ニョ", "nyo"), ("ヒャ", "hya"), ("ヒュ", "hyu"), ("ヒョ", "hyo"),
    ("ミャ", "mya"), ("ミュ", "myu"), ("ミョ", "myo"), ("リャ", "rya"), ("リュ", "ryu"),
    ("リョ", "ryo"), ("ギャ", "gya"), ("ギュ", "gyu"), ("ギョ", "gyo"), ("ジャ", "ja"),
    ("ジュ", "ju"), ("ジョ", "jo"), ("ヂャ", "dya"), ("ヂュ", "dyu"), ("ヂョ", "dyo"),
    ("ビャ", "bya"), ("ビュ", "byu"), ("ビョ", "byo"), ("ピャ", "pya"), ("ピュ", "pyu"),
    ("ピョ", "pyo"), ("ヴァ", "va"), ("ヴィ", "vi"), ("ヴェ", "ve"), ("ヴォ", "vo"),
    ("ウィ", "wi"), ("ウェ", "we"), ("ウォ", "wo"), ("ファ", "fa"), ("フィ", "fi"),
    ("フェ", "fe"), ("フォ", "fo"), ("ツァ", "tsa"), ("ツィ", "tsi"), ("ツェ", "tse"),
    ("ツォ", "tso"), ("シェ", "she"), ("ジェ", "je"), ("チェ", "che"), ("イェ", "ye"),
];

/// Joins the three subsets of a syllabary into one table: the basic
/// characters first, then the voiced ones, then the digraphs.
pub fn make_all_kana_by_type(
    main: [KanaPair; 46],
    dakuten: [KanaPair; 25],
    combination: [KanaPair; 33],
) -> (result: [KanaPair; 104])
    ensures
        result@ == main@ + dakuten@ + combination@,
{
    let mut result: [KanaPair; 104] = [("", ""); 104];
    let mut i: usize = 0;
    while i < 46
        invariant
            i <= 46,
            forall|j: int| 0 <= j < i ==> result@[j] == main@[j],
        decreases 46 - i,
    {
        result[i] = main[i];
        i += 1;
    }
    i = 0;
    while i < 25
        invariant
            i <= 25,
            forall|j: int| 0 <= j < 46 ==> result@[j] == main@[j],
            forall|j: int| 0 <= j < i ==> result@[46 + j] == dakuten@[j],
        decreases 25 - i,
    {
        result[46 + i] = dakuten[i];
        i += 1;
    }
    i = 0;
    while i < 33
        invariant
            i <= 33,
            forall|j: int| 0 <= j < 46 ==> result@[j] == main@[j],
            forall|j: int| 0 <= j < 25 ==> result@[46 + j] == dakuten@[j],
            forall|j: int| 0 <= j < i ==> result@[71 + j] == combination@[j],
        decreases 33 - i,
    {
        result[71 + i] = combination[i];
        i += 1;
    }
    assert(result@ =~= main@ + dakuten@ + combination@);
    result
}

/// Joins the three katakana tables into one, in the same order.
pub fn make_all_katakana() -> (result: [KanaPair; 127])
    ensures
        result@ == MAIN_KATAKANA@ + DAKUTEN_KATAKANA@ + COMBINATION_KATAKANA@,
{
    let mut result: [KanaPair; 127] = [("", ""); 127];
    let mut i: usize = 0;
    while i < 46
        invariant
            i <= 46,
            forall|j: int| 0 <= j < i ==> result@[j] == MAIN_KATAKANA@[j],
        decreases 46 - i,
    {
        result[i] = MAIN_KATAKANA[i];
        i += 1;
    }
    i = 0;
    while i < 26
        invariant
            i <= 26,
            forall|j: int| 0 <= j < 46 ==> result@[j] == MAIN_KATAKANA@[j],
            forall|j: int| 0 <= j < i ==> result@[46 + j] == DAKUTEN_KATAKANA@[j],
        decreases 26 - i,
    {
        result[46 + i] = DAKUTEN_KATAKANA[i];
        i += 1;
    }
    i = 0;
    while i < 55
        invariant
            i <= 55,
            forall|j: int| 0 <= j < 46 ==> result@[j] == MAIN_KATAKANA@[j],
            forall|j: int| 0 <= j < 26 ==> result@[46 + j] == DAKUTEN_KATAKANA@[j],
            forall|j: int| 0 <= j < i ==> result@[72 + j] == COMBINATION_KATAKANA@[j],
        decreases 55 - i,
    {
        result[72 + i] = COMBINATION_KATAKANA[i];
        i += 1;
    }
    assert(result@ =~= MAIN_KATAKANA@ + DAKUTEN_KATAKANA@ + COMBINATION_KATAKANA@);
    result
}

/// The characters that take part in a session of the given syllabary and
/// subset, in catalog order.
pub open spec fn practice_set_spec(kana_type: KanaType, mode: PracticeMode) -> Seq<KanaPair> {
    match (kana_type, mode) {
        (KanaType::Hiragana, PracticeMode::Main) => MAIN_HIRAGANA@,
        (KanaType::Hiragana, PracticeMode::Dakuten) => DAKUTEN_HIRAGANA@,
        (KanaType::Hiragana, PracticeMode::Combination) => COMBINATION_HIRAGANA@,
        (KanaType::Hiragana, PracticeMode::All) => MAIN_HIRAGANA@ + DAKUTEN_HIRAGANA@
            + COMBINATION_HIRAGANA@,
        (KanaType::Katakana, PracticeMode::Main) => MAIN_KATAKANA@,
        (KanaType::Katakana, PracticeMode::Dakuten) => DAKUTEN_KATAKANA@,
        (KanaType::Katakana, PracticeMode::Combination) => COMBINATION_KATAKANA@,
        (KanaType::Katakana, PracticeMode::All) => MAIN_KATAKANA@ + DAKUTEN_KATAKANA@
            + COMBINATION_KATAKANA@,
    }
}

/// Copies a table into a vector.
fn table_to_vec(table: &[KanaPair]) -> (r: Vec<KanaPair>)
    ensures
        r@ == table@,
{
    let mut r: Vec<KanaPair> = Vec::new();
    let mut i: usize = 0;
    while i < table.len()
        invariant
            i <= table.len(),
            r@ == table@.subrange(0, i as int),
        decreases table.len() - i,
    {
        r.push(table[i]);
        assert(r@ =~= table@.subrange(0, i + 1));
        i += 1;
    }
    assert(r@ =~= table@);
    r
}

/// The characters that take part in a session of the given syllabary and
/// subset, in catalog order.
pub fn practice_set(kana_type: KanaType, mode: PracticeMode) -> (r: Vec<KanaPair>)
    ensures
        r@ == practice_set_spec(kana_type, mode),
        r@.len() > 0,
{
    match (kana_type, mode) {
        (KanaType::Hiragana, PracticeMode::Main) => table_to_vec(&MAIN_HIRAGANA),
        (KanaType::Hiragana, PracticeMode::Dakuten) => table_to_vec(&DAKUTEN_HIRAGANA),
        (KanaType::Hiragana, PracticeMode::Combination) => table_to_vec(&COMBINATION_HIRAGANA),
        (KanaType::Hiragana, PracticeMode::All) => {
            let all = make_all_kana_by_type(MAIN_HIRAGANA, DAKUTEN_HIRAGANA, COMBINATION_HIRAGANA);
            table_to_vec(&all)
        },
        (KanaType::Katakana, PracticeMode::Main) => table_to_vec(&MAIN_KATAKANA),
        (KanaType::Katakana, PracticeMode::Dakuten) => table_to_vec(&DAKUTEN_KATAKANA),
        (KanaType::Katakana, PracticeMode::Combination) => table_to_vec(&COMBINATION_KATAKANA),
        (KanaType::Katakana, PracticeMode::All) => {
            let all = make_all_katakana();
            table_to_vec(&all)
        },
    }
}

impl KanaType {
    /// The number of characters in the given subset of this syllabary.
    pub fn get_practice_set_size(self, mode: PracticeMode) -> (r: usize)
        ensures
            r == practice_set_spec(self, mode).len(),
            r == match (self, mode) {
                (KanaType::Hiragana, PracticeMode::Main) => 46usize,
                (KanaType::Hiragana, PracticeMode::Dakuten) => 25usize,
                (KanaType::Hiragana, PracticeMode::Combination) => 33usize,
                (KanaType::Hiragana, PracticeMode::All) => 104usize,
                (KanaType::Katakana, PracticeMode::Main) => 46usize,
                (KanaType::Katakana, PracticeMode::Dakuten) => 26usize,
                (KanaType::Katakana, PracticeMode::Combination) => 55usize,
                (KanaType::Katakana, PracticeMode::All) => 127usize,
            },
    {
        match (self, mode) {
            (KanaType::Hiragana, PracticeMode::Main) => MAIN_HIRAGANA.len(),
            (KanaType::Hiragana, PracticeMode::Dakuten) => DAKUTEN_HIRAGANA.len(),
            (KanaType::Hiragana, PracticeMode::Combination) => COMBINATION_HIRAGANA.len(),
            (KanaType::Hiragana, PracticeMode::All) => MAIN_HIRAGANA.len() + DAKUTEN_HIRAGANA.len()
                + COMBINATION_HIRAGANA.len(),
            (KanaType::Katakana, PracticeMode::Main) => MAIN_KATAKANA.len(),
            (KanaType::Katakana, PracticeMode::Dakuten) => DAKUTEN_KATAKANA.len(),
            (KanaType::Katakana, PracticeMode::Combination) => COMBINATION_KATAKANA.len(),
            (KanaType::Katakana, PracticeMode::All) => MAIN_KATAKANA.len() + DAKUTEN_KATAKANA.len()
                + COMBINATION_KATAKANA.len(),
        }
    }
}

} // verus!
