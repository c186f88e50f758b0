//! The stage that appends random characters from an alphabet.
use crate::base::PasswordGenerator;
use crate::chars::{chars_of, push_char};
use crate::error::ConfigError;
use crate::rng::choose_from;
use rand::rngs::ThreadRng;
use vstd::prelude::*;

verus! {

pub const ASCII_LOWERCASE: &'static str = "abcdefghijklmnopqrstuvwxyz";

pub const ASCII_UPPERCASE: &'static str = "ABCDEFGHIJKLMNOPQRSTUVWXYZ";

pub const DIGITS: &'static str = "0123456789";

/// A stage that appends `length` characters, each drawn independently and
/// uniformly from `characters` (repeated characters weigh more).
pub struct RandomString {
    characters: Vec<char>,
    length: usize,
}

impl RandomString {
    /// The characters drawn from.
    pub closed spec fn alphabet(&self) -> Seq<char> {
        self.characters@
    }

    /// How many characters each call appends.
    pub closed spec fn size(&self) -> nat {
        self.length as nat
    }

    /// A stage appending `length` characters drawn from the ASCII letters and
    /// digits.
    pub fn new(length: usize) -> (r: RandomString)
        ensures
            r.well_formed(),
            r.alphabet() == ASCII_LOWERCASE@ + ASCII_UPPERCASE@ + DIGITS@,
            r.size() == length,
    {
        let mut characters = chars_of(ASCII_LOWERCASE);
        let mut upper = chars_of(ASCII_UPPERCASE);
        let mut digits = chars_of(DIGITS);
        characters.append(&mut upper);
        characters.append(&mut digits);
        proof {
            reveal_strlit("abcdefghijklmnopqrstuvwxyz");
        }
        RandomString { characters, length }
    }

    /// The same stage drawing from `characters` instead. Fails when
    /// `characters` is empty.
    pub fn with_characters(self, characters: Vec<char>) -> (r: Result<RandomString, ConfigError>)
        ensures
            r is Err <==> characters@.len() == 0,
            r matches Err(e) ==> e == ConfigError::EmptyAlphabet,
            r matches Ok(s) ==> s.well_formed() && s.alphabet() == characters@ && s.size()
                == self.size(),
    {
        if characters.len() == 0 {
            return Err(ConfigError::EmptyAlphabet);
        }
        Ok(RandomString { characters, ..self })
    }

    /// A stage appending `length` decimal digits.
    pub fn digits(length: usize) -> (r: RandomString)
        ensures
            r.well_formed(),
            r.alphabet() == DIGITS@,
            r.size() == length,
    {
        proof {
            reveal_strlit("0123456789");
        }
        RandomString { characters: chars_of(DIGITS), length }
    }

    /// A stage appending `length` lowercase ASCII letters.
    pub fn ascii_lowercase(length: usize) -> (r: RandomString)
        ensures
            r.well_formed(),
            r.alphabet() == ASCII_LOWERCASE@,
            r.size() == length,
    {
        proof {
            reveal_strlit("abcdefghijklmnopqrstuvwxyz");
        }
        RandomString { characters: chars_of(ASCII_LOWERCASE), length }
    }

    /// A stage appending `length` uppercase ASCII letters.
    pub fn ascii_uppercase(length: usize) -> (r: RandomString)
        ensures
            r.well_formed(),
            r.alphabet() == ASCII_UPPERCASE@,
            r.size() == length,
    {
        proof {
            reveal_strlit("ABCDEFGHIJKLMNOPQRSTUVWXYZ");
        }
        RandomString { characters: chars_of(ASCII_UPPERCASE), length }
    }

    /// The characters drawn from.
    pub fn characters(&self) -> (r: &Vec<char>)
        ensures
            r@ == self.alphabet(),
    {
        &self.characters
    }

    /// How many characters each call appends.
    pub fn length(&self) -> (r: usize)
        ensures
            r == self.size(),
    {
        self.length
    }
}

impl PasswordGenerator for RandomString {
    open spec fn well_formed(&self) -> bool {
        self.alphabet().len() > 0
    }

    open spec fn yields(&self, seed: Seq<char>, out: Seq<char>) -> bool {
        &&& out.len() == seed.len() + self.size()
        &&& out.subrange(0, seed.len() as int) == seed
        &&& forall|i: int| seed.len() <= i < out.len() ==> self.alphabet().contains(#[trigger] out[i])
    }

    fn generate_with_seed(&self, rng: &mut ThreadRng, seed: String) -> (r: String) {
        let ghost start = seed@;
        let mut out = seed;
        let mut k: usize = 0;
        while k < self.length
            invariant
                k <= self.length,
                self.well_formed(),
                out@.len() == start.len() + k,
                out@.subrange(0, start.len() as int) == start,
                forall|i: int|
                    start.len() <= i < out@.len() ==> self.alphabet().contains(#[trigger] out@[i]),
            decreases self.length - k,
        {
            if let Some(c) = choose_from(self.characters.as_slice(), rng) {
                let ghost prev = out@;
                push_char(&mut out, *c);
                assert(out@.subrange(0, start.len() as int) == prev.subrange(0, start.len() as int));
            }
            k += 1;
        }
        out
    }
}

} // verus!
