//! The configuration errors that a stage constructor reports.
use vstd::prelude::*;

verus! {

/// Why a stage could not be built. Each is found when the stage is
/// constructed, never while it generates.
#[derive(Clone, Copy, Debug, PartialEq, Eq, Structural)]
pub enum ConfigError {
    /// A random-string stage was given no characters to draw from.
    EmptyAlphabet,
    /// No word of the text is as long as the requested minimum.
    EmptyWordPool,
    /// No phrase of the text has a word count within the requested bounds.
    EmptyPhrasePool,
    /// The least number of defects exceeds the greatest.
    DefectBoundsReversed,
}

/// The sentence that describes each error.
pub open spec fn message_of(e: ConfigError) -> Seq<char> {
    match e {
        ConfigError::EmptyAlphabet => "the character set to draw from is empty"@,
        ConfigError::EmptyWordPool => "no word of the text has the requested minimum length"@,
        ConfigError::EmptyPhrasePool => "no phrase of the text has a word count within the requested bounds"@,
        ConfigError::DefectBoundsReversed => "the minimum number of defects exceeds the maximum"@,
    }
}

impl ConfigError {
    /// A sentence that describes the error; never empty.
    pub fn message(&self) -> (r: String)
        ensures
            r@ == message_of(*self),
            r@.len() > 0,
    {
        let text = match self {
            ConfigError::EmptyAlphabet => "the character set to draw from is empty",
            ConfigError::EmptyWordPool => "no word of the text has the requested minimum length",
            ConfigError::EmptyPhrasePool => "no phrase of the text has a word count within the requested bounds",
            ConfigError::DefectBoundsReversed => "the minimum number of defects exceeds the maximum",
        };
        proof {
            reveal_strlit("the character set to draw from is empty");
            reveal_strlit("no word of the text has the requested minimum length");
            reveal_strlit("no phrase of the text has a word count within the requested bounds");
            reveal_strlit("the minimum number of defects exceeds the maximum");
        }
        text.to_owned()
    }
}

} // verus!
