//! Memorable, high-entropy passwords built from small text-transformation
//! stages composed into pipelines.
use vstd::prelude::*;

pub mod base;
pub mod case;
pub mod chars;
pub mod corpus;
pub mod defects;
pub mod error;
pub mod phrase;
pub mod random_string;
pub mod rng;

pub use base::{
    iterator, or, pipe, AlternativeGenerator, ChainedGenerator, Constant, PasswordGenerator,
    PasswordIterator,
};
pub use case::Case;
pub use defects::Defects;
pub use error::ConfigError;
pub use corpus::Text;
pub use phrase::{RandomPhrases, RandomWords};
pub use random_string::RandomString;

verus! {

use crate::corpus::{phrases_of, words_of};
use crate::phrase::{at_least_bytes, word_count_within};
use crate::defects::{symbol_substitutes, vowel_substitutes};
use crate::chars::lower_of;
use crate::random_string::DIGITS;

/// The phrase pipeline: a phrase, in class case, followed by two digits,
/// with one symbol defect and one vowel defect.
pub type PhrasePasswords = ChainedGenerator<
    ChainedGenerator<
        ChainedGenerator<ChainedGenerator<ChainedGenerator<Constant, RandomPhrases>, Case>, RandomString>,
        Defects,
    >,
    Defects,
>;

/// The words pipeline: four words from one text.
pub type XkcdPasswords = ChainedGenerator<Constant, RandomWords>;

/// The words pipeline over two texts: four words from one of them, picked by
/// a coin flip on each call.
pub type MixedXkcdPasswords = ChainedGenerator<Constant, AlternativeGenerator<RandomWords, RandomWords>>;

/// How the phrase pipeline over `text` is made up, stage by stage.
pub open spec fn is_phrase_pipeline(g: PhrasePasswords, text: Seq<char>) -> bool {
    let phrases = g.first().first().first().first().second();
    let digits = g.first().first().second();
    let symbols = g.first().second();
    let vowels = g.second();
    &&& g.first().first().first().first().first().value() == Seq::<char>::empty()
    &&& phrases.pool() == phrases_of(lower_of(text)).filter(word_count_within(3, 5))
    &&& g.first().first().first().second() == Case::Class
    &&& digits.alphabet() == DIGITS@ && digits.size() == 2
    &&& symbols.min_defects() == 1 && symbols.max_defects() == 1
    &&& forall|c: char| #[trigger] symbols.substitutes(c) == symbol_substitutes(c)
    &&& vowels.min_defects() == 1 && vowels.max_defects() == 1
    &&& forall|c: char| #[trigger] vowels.substitutes(c) == vowel_substitutes(c)
}

/// Passwords made of a phrase of three to five words of `text`, in class
/// case, followed by two digits, with one symbol and one vowel defect.
/// Fails when `text` has no such phrase.
pub fn phrase_passwords(text: &Text) -> (r: Result<PhrasePasswords, ConfigError>)
    ensures
        r is Err <==> phrases_of(lower_of(text.content())).filter(word_count_within(3, 5)).len()
            == 0,
        r matches Err(e) ==> e == ConfigError::EmptyPhrasePool,
        r matches Ok(g) ==> g.well_formed() && is_phrase_pipeline(g, text.content()),
{
    let phrases = match RandomPhrases::from_text(text, 3, 5) {
        Ok(p) => p,
        Err(e) => return Err(e),
    };
    let symbols = match Defects::with_symbols(1, 1) {
        Ok(d) => d,
        Err(e) => return Err(e),
    };
    let vowels = match Defects::with_vowels(1, 1) {
        Ok(d) => d,
        Err(e) => return Err(e),
    };
    Ok(
        pipe(
            pipe(
                pipe(pipe(pipe(Constant::empty(), phrases), Case::Class), RandomString::digits(2)),
                symbols,
            ),
            vowels,
        ),
    )
}

/// Passwords made of four words of `text`, each at least four bytes long,
/// joined by spaces. Fails when `text` has no such word.
pub fn xkcd_passwords(text: &Text) -> (r: Result<XkcdPasswords, ConfigError>)
    ensures
        r is Err <==> words_of(lower_of(text.content())).filter(at_least_bytes(4)).len() == 0,
        r matches Err(e) ==> e == ConfigError::EmptyWordPool,
        r matches Ok(g) ==> {
            &&& g.well_formed()
            &&& g.first().value() == Seq::<char>::empty()
            &&& g.second().pool() == words_of(lower_of(text.content())).filter(at_least_bytes(4))
            &&& g.second().count() == 4
        },
{
    match RandomWords::from_text(text, 4, 4) {
        Ok(words) => Ok(pipe(Constant::empty(), words)),
        Err(e) => Err(e),
    }
}

/// Passwords made of four words drawn, on each call, either from `nouns`
/// (words of at least four bytes) or from `other` (at least five bytes),
/// each with probability one half. Fails when either pool is empty.
pub fn xkcd_mixed_passwords(nouns: &Text, other: &Text) -> (r: Result<
    MixedXkcdPasswords,
    ConfigError,
>)
    ensures
        r is Err <==> words_of(lower_of(nouns.content())).filter(at_least_bytes(4)).len() == 0
            || words_of(lower_of(other.content())).filter(at_least_bytes(5)).len() == 0,
        r matches Err(e) ==> e == ConfigError::EmptyWordPool,
        r matches Ok(g) ==> {
            &&& g.well_formed()
            &&& g.first().value() == Seq::<char>::empty()
            &&& g.second().first().pool() == words_of(lower_of(nouns.content())).filter(
                at_least_bytes(4),
            )
            &&& g.second().first().count() == 4
            &&& g.second().second().pool() == words_of(lower_of(other.content())).filter(
                at_least_bytes(5),
            )
            &&& g.second().second().count() == 4
        },
{
    let noun_words = match RandomWords::from_text(nouns, 4, 4) {
        Ok(w) => w,
        Err(e) => return Err(e),
    };
    let other_words = match RandomWords::from_text(other, 4, 5) {
        Ok(w) => w,
        Err(e) => return Err(e),
    };
    Ok(pipe(Constant::empty(), or(noun_words, other_words)))
}

} // verus!
