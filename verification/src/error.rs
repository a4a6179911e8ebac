//! The failures that the library reports.

use vstd::prelude::*;
use vstd::string::StringExecFns;

verus! {

/// A failure, with the text that describes its cause.
#[derive(Debug, Clone)]
pub enum KanaError {
    /// Reading or writing the saved history failed.
    Io(String),
    /// The saved history could not be encoded or decoded.
    Serialization(String),
    /// No character could be chosen, or the terminal failed.
    Terminal(String),
    /// The command line was not understood.
    InvalidInput(String),
}

impl KanaError {
    /// The text of the failure as it is shown to the user: the kind of
    /// failure, a colon, and the cause.
    pub open spec fn spec_message(self) -> Seq<char> {
        match self {
            KanaError::Io(cause) => "IO error: "@ + cause@,
            KanaError::Serialization(cause) => "Failed to serialize/deserialize data: "@ + cause@,
            KanaError::Terminal(cause) => "Terminal error: "@ + cause@,
            KanaError::InvalidInput(cause) => "Invalid input: "@ + cause@,
        }
    }

    /// The text of the failure as it is shown to the user.
    pub fn message(&self) -> (r: String)
        ensures
            r@ == self.spec_message(),
    {
        match self {
            KanaError::Io(cause) => String::from_str("IO error: ").concat(cause.as_str()),
            KanaError::Serialization(cause) => String::from_str(
                "Failed to serialize/deserialize data: ",
            ).concat(cause.as_str()),
            KanaError::Terminal(cause) => String::from_str("Terminal error: ").concat(
                cause.as_str(),
            ),
            KanaError::InvalidInput(cause) => String::from_str("Invalid input: ").concat(
                cause.as_str(),
            ),
        }
    }
}

} // verus!
