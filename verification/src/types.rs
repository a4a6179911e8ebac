//! The small enumerations shared by the catalog, the session and the
//! command line.

use vstd::prelude::*;

verus! {

/// Which syllabary is practised.
#[derive(Debug, Clone, Copy, PartialEq, Eq, Structural)]
pub enum KanaType {
    Hiragana,
    Katakana,
}

/// Which subset of a syllabary is practised.
#[derive(Debug, Clone, Copy, PartialEq, Eq, Structural)]
pub enum PracticeMode {
    Main,
    Dakuten,
    Combination,
    All,
}

/// The phase of a practice session.
#[derive(Debug, Clone, Copy, PartialEq, Eq, Structural)]
pub enum AppMode {
    /// First start, waiting for Enter.
    Initial,
    /// A character is shown, waiting for the answer.
    Ready,
    /// The learner submitted an empty line, waiting for Enter.
    Paused,
}

impl KanaType {
    /// The lower-case name of the syllabary.
    pub open spec fn spec_name(self) -> Seq<char> {
        match self {
            KanaType::Hiragana => "hiragana"@,
            KanaType::Katakana => "katakana"@,
        }
    }

    /// The lower-case name of the syllabary, as it is written on the
    /// command line.
    pub fn name(self) -> (r: &'static str)
        ensures
            r@ == self.spec_name(),
    {
        match self {
            KanaType::Hiragana => "hiragana",
            KanaType::Katakana => "katakana",
        }
    }
}

impl PracticeMode {
    /// The lower-case name of the subset.
    pub open spec fn spec_name(self) -> Seq<char> {
        match self {
            PracticeMode::Main => "main"@,
            PracticeMode::Dakuten => "dakuten"@,
            PracticeMode::Combination => "combination"@,
            PracticeMode::All => "all"@,
        }
    }

    /// The lower-case name of the subset, as it is written on the command
    /// line.
    pub fn name(self) -> (r: &'static str)
        ensures
            r@ == self.spec_name(),
    {
        match self {
            PracticeMode::Main => "main",
            PracticeMode::Dakuten => "dakuten",
            PracticeMode::Combination => "combination",
            PracticeMode::All => "all",
        }
    }
}

} // verus!
