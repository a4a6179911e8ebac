//! The command line: which syllabary and which subset to practise.

use vstd::prelude::*;
use vstd::string::StringExecFns;
use crate::error::KanaError;
use crate::text::{
    has_prefix, lowercase, same_text, starts_with, to_lowercase, trim_start_matches,
    without_leading,
};
use crate::types::{KanaType, PracticeMode};

verus! {

/// The least of three numbers.
pub open spec fn min3(x: nat, y: nat, z: nat) -> nat {
    if x <= y && x <= z {
        x
    } else if y <= z {
        y
    } else {
        z
    }
}

/// The edit distance of two texts: the least number of characters to
/// insert, delete or replace to turn one into the other.
pub open spec fn edit_distance(a: Seq<char>, b: Seq<char>) -> nat
    decreases a.len() + b.len(),
{
    if a.len() == 0 {
        b.len()
    } else if b.len() == 0 {
        a.len()
    } else {
        min3(
            edit_distance(a.drop_last(), b) + 1,
            edit_distance(a, b.drop_last()) + 1,
            edit_distance(a.drop_last(), b.drop_last()) + if a.last() == b.last() {
                0nat
            } else {
                1nat
            },
        )
    }
}

/// The edit distance is at most the length of the longer text.
pub proof fn lemma_edit_distance_bound(a: Seq<char>, b: Seq<char>)
    ensures
        edit_distance(a, b) <= if a.len() >= b.len() {
            a.len()
        } else {
            b.len()
        },
    decreases a.len() + b.len(),
{
    if a.len() > 0 && b.len() > 0 {
        lemma_edit_distance_bound(a.drop_last(), b.drop_last());
    }
}

/// The characters of a text.
fn chars_of(s: &str) -> (r: Vec<char>)
    ensures
        r@ == s@,
{
    let n = s.unicode_len();
    let mut r: Vec<char> = Vec::new();
    let mut i: usize = 0;
    while i < n
        invariant
            i <= n,
            n == s@.len(),
            r@ == s@.take(i as int),
        decreases n - i,
    {
        r.push(s.get_char(i));
        assert(r@ =~= s@.take(i + 1));
        i += 1;
    }
    assert(s@.take(n as int) =~= s@);
    r
}

/// Computes the edit distance of two texts, row by row of the table of
/// distances between their beginnings.
pub fn levenshtein_distance(a: &str, b: &str) -> (r: usize)
    ensures
        r == edit_distance(a@, b@),
{
    let x = chars_of(a);
    let y = chars_of(b);
    let a_len = x.len();
    let b_len = y.len();
    if a_len == 0 {
        return b_len;
    }
    if b_len == 0 {
        return a_len;
    }
    let mut prev: Vec<usize> = Vec::new();
    prev.push(0);
    let mut j: usize = 0;
    proof {
        assert(y@.take(0).len() == 0);
    }
    while j < b_len
        invariant
            j <= b_len,
            b_len == y@.len(),
            prev@.len() == j + 1,
            forall|k: int|
                0 <= k <= j ==> #[trigger] prev@[k] == edit_distance(x@.take(0), y@.take(k)),
        decreases b_len - j,
    {
        j += 1;
        prev.push(j);
    }
    let mut i: usize = 0;
    while i < a_len
        invariant
            i <= a_len,
            a_len == x@.len(),
            b_len == y@.len(),
            b_len > 0,
            prev@.len() == b_len + 1,
            forall|k: int|
                0 <= k <= b_len ==> #[trigger] prev@[k] == edit_distance(
                    x@.take(i as int),
                    y@.take(k),
                ),
        decreases a_len - i,
    {
        let mut cur: Vec<usize> = Vec::new();
        cur.push(i + 1);
        let mut j: usize = 0;
        proof {
            assert(y@.take(0).len() == 0);
            assert(x@.take(i + 1).len() == i + 1);
        }
        while j < b_len
            invariant
                i < a_len,
                j <= b_len,
                a_len == x@.len(),
                b_len == y@.len(),
                prev@.len() == b_len + 1,
                cur@.len() == j + 1,
                forall|k: int|
                    0 <= k <= b_len ==> #[trigger] prev@[k] == edit_distance(
                        x@.take(i as int),
                        y@.take(k),
                    ),
                forall|k: int|
                    0 <= k <= j ==> #[trigger] cur@[k] == edit_distance(
                        x@.take(i + 1),
                        y@.take(k),
                    ),
            decreases b_len - j,
        {
            proof {
                let xa = x@.take(i + 1);
                let yb = y@.take(j + 1);
                assert(xa.drop_last() =~= x@.take(i as int));
                assert(yb.drop_last() =~= y@.take(j as int));
                assert(xa.last() == x@[i as int]);
                assert(yb.last() == y@[j as int]);
                lemma_edit_distance_bound(x@.take(i as int), y@.take(j as int));
                lemma_edit_distance_bound(xa, yb);
                assert(prev@[j as int] == edit_distance(x@.take(i as int), y@.take(j as int)));
                assert(prev@[j + 1] == edit_distance(x@.take(i as int), yb));
                assert(cur@[j as int] == edit_distance(xa, y@.take(j as int)));
            }
            let cost: usize = if x[i] == y[j] {
                0
            } else {
                1
            };
            let mut best: usize = prev[j] + cost;
            if prev[j + 1] < best {
                best = prev[j + 1] + 1;
            }
            if cur[j] < best {
                best = cur[j] + 1;
            }
            cur.push(best);
            j += 1;
        }
        prev = cur;
        i += 1;
    }
    proof {
        assert(x@.take(a_len as int) =~= x@);
        assert(y@.take(b_len as int) =~= y@);
    }
    prev[b_len]
}

/// Which subset to practise, as the command line names it.
#[derive(Debug, Clone, Copy, PartialEq, Eq, Structural)]
pub enum PracticeType {
    Main,
    Dakuten,
    Combination,
    All,
}

/// What the command line asks for.
#[derive(Debug, Clone, Copy, PartialEq, Eq, Structural)]
pub struct CliArgs {
    pub kana_type: KanaType,
    pub practice_type: PracticeType,
}

impl Default for CliArgs {
    /// Basic hiragana.
    fn default() -> (r: CliArgs)
        ensures
            r == (CliArgs { kana_type: KanaType::Hiragana, practice_type: PracticeType::Main }),
    {
        CliArgs { kana_type: KanaType::Hiragana, practice_type: PracticeType::Main }
    }
}

/// The long flags that name a subset, in the order in which they are
/// tried.
pub const VALID_PRACTICE_FLAGS: [&'static str; 4] = ["main", "dakuten", "combination", "all"];

/// The long flags that name a syllabary, in the order in which they are
/// tried.
pub const VALID_KANA_FLAGS: [&'static str; 2] = ["hiragana", "katakana"];

/// The position of the first flag at or after `from` that begins with
/// `arg`, or the number of flags if there is none.
pub open spec fn first_prefix_match(arg: Seq<char>, flags: Seq<&'static str>, from: int) -> int
    decreases flags.len() - from,
{
    if from < 0 || from >= flags.len() {
        flags.len() as int
    } else if has_prefix(flags[from]@, arg) {
        from
    } else {
        first_prefix_match(arg, flags, from + 1)
    }
}

/// The first of the flags that begins with `arg`, if any does.
pub fn is_valid_prefix(arg: &str, valid_flags: &[&'static str]) -> (r: Option<&'static str>)
    ensures
        match r {
            Some(flag) => first_prefix_match(arg@, valid_flags@, 0) < valid_flags@.len() && flag
                == valid_flags@[first_prefix_match(arg@, valid_flags@, 0)],
            None => first_prefix_match(arg@, valid_flags@, 0) == valid_flags@.len(),
        },
{
    let mut i: usize = 0;
    while i < valid_flags.len()
        invariant
            i <= valid_flags@.len(),
            first_prefix_match(arg@, valid_flags@, 0) == first_prefix_match(
                arg@,
                valid_flags@,
                i as int,
            ),
        decreases valid_flags@.len() - i,
    {
        if starts_with(valid_flags[i], arg) {
            return Some(valid_flags[i]);
        }
        i += 1;
    }
    None
}

/// Whether an option is considered as a correction of `input`: it begins
/// with the first character of `input`. Every option is considered for an
/// empty `input`.
pub open spec fn is_candidate(input: Seq<char>, option: Seq<char>) -> bool {
    input.len() == 0 || (option.len() > 0 && option[0] == input[0])
}

/// Among the first `n` options, the position of the candidate nearest to
/// `input` by edit distance, the first of them if several are as near.
pub open spec fn closest_candidate(input: Seq<char>, options: Seq<&'static str>, n: int) -> Option<
    int,
>
    decreases n,
{
    if n <= 0 || n > options.len() {
        None
    } else {
        let earlier = closest_candidate(input, options, n - 1);
        if !is_candidate(input, options[n - 1]@) {
            earlier
        } else {
            match earlier {
                None => Some(n - 1),
                Some(p) => if edit_distance(input, options[n - 1]@) < edit_distance(
                    input,
                    options[p]@,
                ) {
                    Some(n - 1)
                } else {
                    Some(p)
                },
            }
        }
    }
}

/// The position that `closest_candidate` gives is that of a candidate, and
/// no candidate is nearer.
pub proof fn lemma_closest_candidate(input: Seq<char>, options: Seq<&'static str>, n: int)
    requires
        0 <= n <= options.len(),
    ensures
        match closest_candidate(input, options, n) {
            Some(p) => {
                &&& 0 <= p < n
                &&& is_candidate(input, options[p]@)
                &&& forall|j: int|
                    0 <= j < n && is_candidate(input, (#[trigger] options[j])@) ==> edit_distance(
                        input,
                        options[p]@,
                    ) <= edit_distance(input, options[j]@)
                &&& forall|j: int|
                    0 <= j < p && is_candidate(input, (#[trigger] options[j])@) ==> edit_distance(
                        input,
                        options[p]@,
                    ) < edit_distance(input, options[j]@)
            },
            None => forall|j: int| 0 <= j < n ==> !is_candidate(input, (#[trigger] options[j])@),
        },
    decreases n,
{
    if n > 0 {
        lemma_closest_candidate(input, options, n - 1);
    }
}

/// The option nearest to `input` by edit distance among those that begin
/// with its first character, the first of them if several are as near;
/// `None` if no option begins with it.
pub fn find_closest_match(input: &str, valid_options: &[&'static str]) -> (r: Option<
    &'static str,
>)
    ensures
        match closest_candidate(input@, valid_options@, valid_options@.len() as int) {
            Some(p) => r == Some(valid_options@[p]),
            None => r.is_none(),
        },
{
    let input_len = input.unicode_len();
    let mut best: Option<usize> = None;
    let mut best_distance: usize = 0;
    let mut i: usize = 0;
    while i < valid_options.len()
        invariant
            i <= valid_options@.len(),
            input_len == input@.len(),
            match best {
                Some(b) => b < i && closest_candidate(input@, valid_options@, i as int) == Some(
                    b as int,
                ) && best_distance == edit_distance(input@, valid_options@[b as int]@),
                None => closest_candidate(input@, valid_options@, i as int).is_none(),
            },
        decreases valid_options@.len() - i,
    {
        let option = valid_options[i];
        proof {
            lemma_closest_candidate(input@, valid_options@, i as int);
        }
        let candidate = input_len == 0 || (option.unicode_len() > 0 && option.get_char(0)
            == input.get_char(0));
        if candidate {
            let d = levenshtein_distance(input, option);
            if best.is_none() || d < best_distance {
                best = Some(i);
                best_distance = d;
            }
        }
        i += 1;
    }
    match best {
        Some(p) => Some(valid_options[p]),
        None => None,
    }
}

/// The syllabary that a long flag names, given in lower case without its
/// dashes: that of the first name that begins with the flag.
pub open spec fn kana_type_of(lowered: Seq<char>) -> Option<KanaType> {
    if has_prefix("hiragana"@, lowered) {
        Some(KanaType::Hiragana)
    } else if has_prefix("katakana"@, lowered) {
        Some(KanaType::Katakana)
    } else {
        None
    }
}

/// The subset that a long flag names, given in lower case without its
/// dashes: that of the first name that begins with the flag.
pub open spec fn practice_type_of(lowered: Seq<char>) -> Option<PracticeType> {
    if has_prefix("main"@, lowered) {
        Some(PracticeType::Main)
    } else if has_prefix("dakuten"@, lowered) {
        Some(PracticeType::Dakuten)
    } else if has_prefix("combination"@, lowered) {
        Some(PracticeType::Combination)
    } else if has_prefix("all"@, lowered) {
        Some(PracticeType::All)
    } else {
        None
    }
}

/// The syllabary that a long flag names, given in lower case without its
/// dashes. Any beginning of a name will do.
pub fn kana_type_from_flag(lowered: &str) -> (r: Option<KanaType>)
    ensures
        r == kana_type_of(lowered@),
{
    proof {
        reveal_with_fuel(first_prefix_match, 3);
        reveal_strlit("hiragana");
        reveal_strlit("katakana");
        assert("hiragana"@[0] != "katakana"@[0]);
    }
    match is_valid_prefix(lowered, &VALID_KANA_FLAGS) {
        Some(flag) => {
            if same_text(flag, "hiragana") {
                Some(KanaType::Hiragana)
            } else if same_text(flag, "katakana") {
                Some(KanaType::Katakana)
            } else {
                None
            }
        },
        None => None,
    }
}

/// The subset that a long flag names, given in lower case without its
/// dashes. Any beginning of a name will do.
pub fn practice_type_from_flag(lowered: &str) -> (r: Option<PracticeType>)
    ensures
        r == practice_type_of(lowered@),
{
    proof {
        reveal_with_fuel(first_prefix_match, 5);
        reveal_strlit("main");
        reveal_strlit("dakuten");
        reveal_strlit("combination");
        reveal_strlit("all");
        assert("main"@[0] != "dakuten"@[0]);
        assert("main"@[0] != "combination"@[0]);
        assert("main"@[0] != "all"@[0]);
        assert("dakuten"@[0] != "combination"@[0]);
        assert("dakuten"@[0] != "all"@[0]);
        assert("combination"@[0] != "all"@[0]);
    }
    match is_valid_prefix(lowered, &VALID_PRACTICE_FLAGS) {
        Some(flag) => {
            if same_text(flag, "main") {
                Some(PracticeType::Main)
            } else if same_text(flag, "dakuten") {
                Some(PracticeType::Dakuten)
            } else if same_text(flag, "combination") {
                Some(PracticeType::Combination)
            } else if same_text(flag, "all") {
                Some(PracticeType::All)
            } else {
                None
            }
        },
        None => None,
    }
}

/// A long flag as it is looked up: without its leading dashes, in lower
/// case.
pub open spec fn long_flag_of(arg: Seq<char>) -> Seq<char> {
    lowercase(without_leading(arg, '-'))
}

/// Strips the leading dashes of a long flag and takes it to lower case.
pub fn long_flag(arg: &str) -> (r: String)
    ensures
        r@ == long_flag_of(arg@),
{
    to_lowercase(trim_start_matches(arg, '-'))
}

/// The syllabary that an argument names, if it names one.
pub fn parse_kana_type(arg: &str) -> (r: Option<KanaType>)
    ensures
        r == kana_type_of(long_flag_of(arg@)),
{
    let lowered = long_flag(arg);
    kana_type_from_flag(lowered.as_str())
}

/// The subset that an argument names, if it names one.
pub fn parse_practice_type(arg: &str) -> (r: Option<PracticeType>)
    ensures
        r == practice_type_of(long_flag_of(arg@)),
{
    let lowered = long_flag(arg);
    practice_type_from_flag(lowered.as_str())
}

/// What a short flag of one letter asks for.
pub open spec fn short_flag_of(flag: Seq<char>) -> Option<(KanaType, PracticeType)> {
    if flag == "h"@ {
        Some((KanaType::Hiragana, PracticeType::Main))
    } else if flag == "k"@ {
        Some((KanaType::Katakana, PracticeType::Main))
    } else if flag == "m"@ {
        Some((KanaType::Hiragana, PracticeType::Main))
    } else if flag == "d"@ {
        Some((KanaType::Hiragana, PracticeType::Dakuten))
    } else if flag == "c"@ {
        Some((KanaType::Hiragana, PracticeType::Combination))
    } else if flag == "a"@ {
        Some((KanaType::Hiragana, PracticeType::All))
    } else {
        None
    }
}

/// What a short flag of one letter asks for: `h` and `k` choose the
/// syllabary, `m`, `d`, `c` and `a` the subset of hiragana.
pub fn parse_single_short_flag(flag: &str) -> (r: Option<(KanaType, PracticeType)>)
    ensures
        r == short_flag_of(flag@),
{
    if same_text(flag, "h") {
        Some((KanaType::Hiragana, PracticeType::Main))
    } else if same_text(flag, "k") {
        Some((KanaType::Katakana, PracticeType::Main))
    } else if same_text(flag, "m") {
        Some((KanaType::Hiragana, PracticeType::Main))
    } else if same_text(flag, "d") {
        Some((KanaType::Hiragana, PracticeType::Dakuten))
    } else if same_text(flag, "c") {
        Some((KanaType::Hiragana, PracticeType::Combination))
    } else if same_text(flag, "a") {
        Some((KanaType::Hiragana, PracticeType::All))
    } else {
        None
    }
}

/// The subset that a letter of a combined flag names.
pub open spec fn subset_letter(c: char) -> Option<PracticeType> {
    if c == 'm' {
        Some(PracticeType::Main)
    } else if c == 'd' {
        Some(PracticeType::Dakuten)
    } else if c == 'c' {
        Some(PracticeType::Combination)
    } else if c == 'a' {
        Some(PracticeType::All)
    } else {
        None
    }
}

/// The syllabary that a letter of a combined flag names.
pub open spec fn syllabary_letter(c: char) -> Option<KanaType> {
    if c == 'h' {
        Some(KanaType::Hiragana)
    } else if c == 'k' {
        Some(KanaType::Katakana)
    } else {
        None
    }
}

/// What a combined short flag asks for: two letters, one for the subset
/// and one for the syllabary, in either order.
pub open spec fn combined_flag_of(flags: Seq<char>) -> Option<(KanaType, PracticeType)> {
    if flags.len() != 2 {
        None
    } else if subset_letter(flags[0]).is_some() && syllabary_letter(flags[1]).is_some() {
        Some((syllabary_letter(flags[1]).unwrap(), subset_letter(flags[0]).unwrap()))
    } else if syllabary_letter(flags[0]).is_some() && subset_letter(flags[1]).is_some() {
        Some((syllabary_letter(flags[0]).unwrap(), subset_letter(flags[1]).unwrap()))
    } else {
        None
    }
}

/// The subset that a letter of a combined flag names.
fn subset_of_letter(c: char) -> (r: Option<PracticeType>)
    ensures
        r == subset_letter(c),
{
    if c == 'm' {
        Some(PracticeType::Main)
    } else if c == 'd' {
        Some(PracticeType::Dakuten)
    } else if c == 'c' {
        Some(PracticeType::Combination)
    } else if c == 'a' {
        Some(PracticeType::All)
    } else {
        None
    }
}

/// The syllabary that a letter of a combined flag names.
fn syllabary_of_letter(c: char) -> (r: Option<KanaType>)
    ensures
        r == syllabary_letter(c),
{
    if c == 'h' {
        Some(KanaType::Hiragana)
    } else if c == 'k' {
        Some(KanaType::Katakana)
    } else {
        None
    }
}

/// What a combined short flag asks for: one of `m`, `d`, `c`, `a` with
/// one of `h`, `k`, in either order.
pub fn parse_combined_flags(flags: &str) -> (r: Option<(KanaType, PracticeType)>)
    ensures
        r == combined_flag_of(flags@),
{
    if flags.unicode_len() != 2 {
        return None;
    }
    let first = flags.get_char(0);
    let second = flags.get_char(1);
    match (subset_of_letter(first), syllabary_of_letter(second)) {
        (Some(subset), Some(syllabary)) => Some((syllabary, subset)),
        _ => match (syllabary_of_letter(first), subset_of_letter(second)) {
            (Some(syllabary), Some(subset)) => Some((syllabary, subset)),
            _ => None,
        },
    }
}

/// The subset and the syllabary of a session that the command line asks
/// for.
pub fn convert_to_practice_mode(cli_args: &CliArgs) -> (r: (PracticeMode, KanaType))
    ensures
        r.1 == cli_args.kana_type,
        r.0 == match cli_args.practice_type {
            PracticeType::Main => PracticeMode::Main,
            PracticeType::Dakuten => PracticeMode::Dakuten,
            PracticeType::Combination => PracticeMode::Combination,
            PracticeType::All => PracticeMode::All,
        },
{
    let practice_mode = match cli_args.practice_type {
        PracticeType::Main => PracticeMode::Main,
        PracticeType::Dakuten => PracticeMode::Dakuten,
        PracticeType::Combination => PracticeMode::Combination,
        PracticeType::All => PracticeMode::All,
    };
    (practice_mode, cli_args.kana_type)
}

/// The complaint about a short flag of one letter that is not known.
pub open spec fn invalid_short_flag_message(flags: Seq<char>) -> Seq<char> {
    "Invalid short flag: '"@ + flags + "'. Valid short flags are: h, k, m, d, c, a"@
}

/// The complaint about a combined short flag that is not known.
pub open spec fn invalid_combination_message(flags: Seq<char>) -> Seq<char> {
    "Invalid flag combination: '"@ + flags
        + "'. Valid combinations are: mh, mk, dh, dk, ch, ck, ah, ak, hm, km, hd, kd, hc, kc, ha, ka"@
}

/// The complaint about an argument that names neither a syllabary nor a
/// subset: with the nearest subset name as a suggestion, else the nearest
/// syllabary name, else the list of all names.
pub open spec fn unknown_argument_message(arg: Seq<char>) -> Seq<char> {
    let stripped = without_leading(arg, '-');
    match closest_candidate(stripped, VALID_PRACTICE_FLAGS@, 4) {
        Some(p) => "Unknown argument: '"@ + arg + "'. Did you mean '--"@ + VALID_PRACTICE_FLAGS@[p]@
            + "'?"@,
        None => match closest_candidate(stripped, VALID_KANA_FLAGS@, 2) {
            Some(p) => "Unknown argument: '"@ + arg + "'. Did you mean '--"@ + VALID_KANA_FLAGS@[p]@
                + "'?"@,
            None => "Unknown argument: '"@ + arg
                + "'. Valid options are:\nPractice types: [\"main\", \"dakuten\", \"combination\", \"all\"]\nKana types: [\"hiragana\", \"katakana\"]"@,
        },
    }
}

/// Whether an argument is a short flag: it begins with exactly one dash.
pub open spec fn is_short_flag(arg: Seq<char>) -> bool {
    arg.len() >= 1 && arg[0] == '-' && !(arg.len() >= 2 && arg[1] == '-')
}

/// What the command line asks for after a long argument, whose flag in
/// lower case and without dashes is `lowered`: the syllabary is set if
/// the flag names one, else the subset if it names one; else the argument
/// is refused.
pub open spec fn after_long_argument(cli: CliArgs, arg: Seq<char>, lowered: Seq<char>) -> Result<
    CliArgs,
    Seq<char>,
> {
    match kana_type_of(lowered) {
        Some(kana_type) => Ok(CliArgs { kana_type, ..cli }),
        None => match practice_type_of(lowered) {
            Some(practice_type) => Ok(CliArgs { practice_type, ..cli }),
            None => Err(unknown_argument_message(arg)),
        },
    }
}

/// What the command line asks for after one more argument, or the
/// complaint about that argument. An empty argument is passed over. A
/// short flag sets both syllabary and subset: a single letter is looked
/// up as such, anything else as a combination. Every other argument is a
/// long flag.
pub open spec fn after_argument(cli: CliArgs, arg: Seq<char>) -> Result<CliArgs, Seq<char>> {
    if arg.len() == 0 {
        Ok(cli)
    } else if is_short_flag(arg) {
        let flags = arg.subrange(1, arg.len() as int);
        if flags.len() == 1 && (flags[0] as u32) < 128 {
            match short_flag_of(flags) {
                Some((kana_type, practice_type)) => Ok(CliArgs { kana_type, practice_type }),
                None => Err(invalid_short_flag_message(flags)),
            }
        } else {
            match combined_flag_of(flags) {
                Some((kana_type, practice_type)) => Ok(CliArgs { kana_type, practice_type }),
                None => Err(invalid_combination_message(flags)),
            }
        }
    } else {
        after_long_argument(cli, arg, long_flag_of(arg))
    }
}

/// What the command line asks for after its first `n` arguments, starting
/// from basic hiragana, or the complaint about the first argument that is
/// refused.
pub open spec fn after_arguments(args: Seq<String>, n: int) -> Result<CliArgs, Seq<char>>
    decreases n,
{
    if n <= 0 || n > args.len() {
        Ok(CliArgs { kana_type: KanaType::Hiragana, practice_type: PracticeType::Main })
    } else {
        match after_arguments(args, n - 1) {
            Ok(cli) => after_argument(cli, args[n - 1]@),
            Err(complaint) => Err(complaint),
        }
    }
}

/// Whether an executable result is the given result of the model: the
/// same request, or a refusal as invalid input with the same complaint.
pub open spec fn parsed_as(r: Result<CliArgs, KanaError>, model: Result<CliArgs, Seq<char>>)
    -> bool {
    match model {
        Ok(cli) => r == Ok::<CliArgs, KanaError>(cli),
        Err(complaint) => r matches Err(KanaError::InvalidInput(text)) && text@ == complaint,
    }
}

/// Builds the complaint about an argument that names neither a syllabary
/// nor a subset.
fn unknown_argument(arg: &str) -> (r: KanaError)
    ensures
        r matches KanaError::InvalidInput(text) && text@ == unknown_argument_message(arg@),
{
    let stripped = trim_start_matches(arg, '-');
    let suggestion = match find_closest_match(stripped, &VALID_PRACTICE_FLAGS) {
        Some(flag) => Some(flag),
        None => find_closest_match(stripped, &VALID_KANA_FLAGS),
    };
    let head = String::from_str("Unknown argument: '").concat(arg);
    let text = match suggestion {
        Some(flag) => head.concat("'. Did you mean '--").concat(flag).concat("'?"),
        None => head.concat(
            "'. Valid options are:\nPractice types: [\"main\", \"dakuten\", \"combination\", \"all\"]\nKana types: [\"hiragana\", \"katakana\"]",
        ),
    };
    KanaError::InvalidInput(text)
}

/// Applies a long argument whose flag, in lower case and without dashes,
/// is `lowered`.
pub fn parse_long_argument(cli: CliArgs, arg: &str, lowered: &str) -> (r: Result<
    CliArgs,
    KanaError,
>)
    ensures
        parsed_as(r, after_long_argument(cli, arg@, lowered@)),
{
    match kana_type_from_flag(lowered) {
        Some(kana_type) => Ok(CliArgs { kana_type, practice_type: cli.practice_type }),
        None => match practice_type_from_flag(lowered) {
            Some(practice_type) => Ok(CliArgs { kana_type: cli.kana_type, practice_type }),
            None => Err(unknown_argument(arg)),
        },
    }
}

/// Applies one argument to what the command line has asked for so far.
pub fn parse_argument(cli: CliArgs, arg: &str) -> (r: Result<CliArgs, KanaError>)
    ensures
        parsed_as(r, after_argument(cli, arg@)),
{
    let len = arg.unicode_len();
    if len == 0 {
        return Ok(cli);
    }
    if arg.get_char(0) == '-' && !(len >= 2 && arg.get_char(1) == '-') {
        let flags = arg.substring_char(1, len);
        if len == 2 && (flags.get_char(0) as u32) < 128 {
            match parse_single_short_flag(flags) {
                Some((kana_type, practice_type)) => Ok(CliArgs { kana_type, practice_type }),
                None => Err(
                    KanaError::InvalidInput(
                        String::from_str("Invalid short flag: '").concat(flags).concat(
                            "'. Valid short flags are: h, k, m, d, c, a",
                        ),
                    ),
                ),
            }
        } else {
            match parse_combined_flags(flags) {
                Some((kana_type, practice_type)) => Ok(CliArgs { kana_type, practice_type }),
                None => Err(
                    KanaError::InvalidInput(
                        String::from_str("Invalid flag combination: '").concat(flags).concat(
                            "'. Valid combinations are: mh, mk, dh, dk, ch, ck, ah, ak, hm, km, hd, kd, hc, kc, ha, ka",
                        ),
                    ),
                ),
            }
        }
    } else {
        let lowered = long_flag(arg);
        parse_long_argument(cli, arg, lowered.as_str())
    }
}

/// Reads the arguments of the command line, in order, starting from basic
/// hiragana. Later arguments override earlier ones. The first argument
/// that is refused ends the reading with its complaint.
pub fn parse_args(args: &Vec<String>) -> (r: Result<CliArgs, KanaError>)
    ensures
        parsed_as(r, after_arguments(args@, args@.len() as int)),
{
    let mut cli = CliArgs::default();
    let mut i: usize = 0;
    while i < args.len()
        invariant
            i <= args@.len(),
            after_arguments(args@, i as int) == Ok::<CliArgs, Seq<char>>(cli),
        decreases args@.len() - i,
    {
        match parse_argument(cli, args[i].as_str()) {
            Ok(next) => {
                cli = next;
            },
            Err(e) => {
                proof {
                    lemma_complaint_stays(args@, i + 1, args@.len() as int);
                }
                return Err(e);
            },
        }
        i += 1;
    }
    Ok(cli)
}

/// Once an argument has been refused, the complaint stands whatever
/// follows.
pub proof fn lemma_complaint_stays(args: Seq<String>, n: int, m: int)
    requires
        0 <= n <= m <= args.len(),
        after_arguments(args, n).is_err(),
    ensures
        after_arguments(args, m) == after_arguments(args, n),
    decreases m - n,
{
    if n < m {
        lemma_complaint_stays(args, n, m - 1);
    }
}

} // verus!
