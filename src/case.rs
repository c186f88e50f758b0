//! The stage that rewrites the whole accumulator in a naming convention.
use crate::base::PasswordGenerator;
use crate::chars::{lower_of, lowercase, upper_of, uppercase};
use inflector::Inflector;
use rand::rngs::ThreadRng;
use vstd::prelude::*;

verus! {

/// What Inflector's `to_camel_case` makes of a string.
pub uninterp spec fn camel_case_of(s: Seq<char>) -> Seq<char>;

/// What Inflector's `to_class_case` makes of a string.
pub uninterp spec fn class_case_of(s: Seq<char>) -> Seq<char>;

/// What Inflector's `to_kebab_case` makes of a string.
pub uninterp spec fn kebab_case_of(s: Seq<char>) -> Seq<char>;

/// What Inflector's `to_screaming_snake_case` makes of a string.
pub uninterp spec fn screaming_snake_case_of(s: Seq<char>) -> Seq<char>;

/// What Inflector's `to_sentence_case` makes of a string.
pub uninterp spec fn sentence_case_of(s: Seq<char>) -> Seq<char>;

/// What Inflector's `to_snake_case` makes of a string.
pub uninterp spec fn snake_case_of(s: Seq<char>) -> Seq<char>;

/// What Inflector's `to_table_case` makes of a string.
pub uninterp spec fn table_case_of(s: Seq<char>) -> Seq<char>;

/// What Inflector's `to_title_case` makes of a string.
pub uninterp spec fn title_case_of(s: Seq<char>) -> Seq<char>;

/// Relies on Inflector's `to_camel_case` for `str`: a function of the
/// characters alone.
#[verifier::external_body]
fn camel_case(s: &str) -> (r: String)
    ensures
        r@ == camel_case_of(s@),
{
    s.to_camel_case()
}

/// Relies on Inflector's `to_class_case` for `str`: a function of the
/// characters alone (its singular form comes from fixed tables).
#[verifier::external_body]
fn class_case(s: &str) -> (r: String)
    ensures
        r@ == class_case_of(s@),
{
    s.to_class_case()
}

/// Relies on Inflector's `to_kebab_case` for `str`: a function of the
/// characters alone.
#[verifier::external_body]
fn kebab_case(s: &str) -> (r: String)
    ensures
        r@ == kebab_case_of(s@),
{
    s.to_kebab_case()
}

/// Relies on Inflector's `to_screaming_snake_case` for `str`: a function of
/// the characters alone.
#[verifier::external_body]
fn screaming_snake_case(s: &str) -> (r: String)
    ensures
        r@ == screaming_snake_case_of(s@),
{
    s.to_screaming_snake_case()
}

/// Relies on Inflector's `to_sentence_case` for `str`: a function of the
/// characters alone.
#[verifier::external_body]
fn sentence_case(s: &str) -> (r: String)
    ensures
        r@ == sentence_case_of(s@),
{
    s.to_sentence_case()
}

/// Relies on Inflector's `to_snake_case` for `str`: a function of the
/// characters alone.
#[verifier::external_body]
fn snake_case(s: &str) -> (r: String)
    ensures
        r@ == snake_case_of(s@),
{
    s.to_snake_case()
}

/// Relies on Inflector's `to_table_case` for `str`: a function of the
/// characters alone (its plural form comes from fixed tables).
#[verifier::external_body]
fn table_case(s: &str) -> (r: String)
    ensures
        r@ == table_case_of(s@),
{
    s.to_table_case()
}

/// Relies on Inflector's `to_title_case` for `str`: a function of the
/// characters alone.
#[verifier::external_body]
fn title_case(s: &str) -> (r: String)
    ensures
        r@ == title_case_of(s@),
{
    s.to_title_case()
}

/// A naming convention applied to the whole accumulator. Deterministic: it
/// draws nothing from the random source.
#[derive(Clone, Copy, Debug, PartialEq, Eq, Structural)]
pub enum Case {
    Camel,
    Class,
    Kebab,
    Lower,
    Screaming,
    Sentence,
    Snake,
    Table,
    Title,
    Upper,
}

/// `s` rewritten in the convention `case`.
pub open spec fn cased(case: Case, s: Seq<char>) -> Seq<char> {
    match case {
        Case::Camel => camel_case_of(s),
        Case::Class => class_case_of(s),
        Case::Kebab => kebab_case_of(s),
        Case::Lower => lower_of(s),
        Case::Screaming => screaming_snake_case_of(s),
        Case::Sentence => sentence_case_of(s),
        Case::Snake => snake_case_of(s),
        Case::Table => table_case_of(s),
        Case::Title => title_case_of(s),
        Case::Upper => upper_of(s),
    }
}

impl PasswordGenerator for Case {
    open spec fn well_formed(&self) -> bool {
        true
    }

    open spec fn yields(&self, seed: Seq<char>, out: Seq<char>) -> bool {
        out == cased(*self, seed)
    }

    fn generate_with_seed(&self, rng: &mut ThreadRng, seed: String) -> (r: String) {
        let s = seed.as_str();
        match self {
            Case::Camel => camel_case(s),
            Case::Class => class_case(s),
            Case::Kebab => kebab_case(s),
            Case::Lower => lowercase(s),
            Case::Screaming => screaming_snake_case(s),
            Case::Sentence => sentence_case(s),
            Case::Snake => snake_case(s),
            Case::Table => table_case(s),
            Case::Title => title_case(s),
            Case::Upper => uppercase(s),
        }
    }
}

} // verus!
