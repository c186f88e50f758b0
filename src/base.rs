//! The stage abstraction and the two combinators that compose stages into
//! pipelines.
use crate::rng::draw_below;
use rand::rngs::ThreadRng;
use vstd::prelude::*;

verus! {

/// A stage of a password pipeline: it transforms an accumulator string into
/// a new one, possibly drawing from the random source.
pub trait PasswordGenerator {
    /// Whether the stage holds a valid configuration; every constructor of
    /// this crate that succeeds returns a well-formed stage.
    spec fn well_formed(&self) -> bool;

    /// Whether `out` is one of the strings the stage may return for the
    /// accumulator `seed`, whatever the random source draws.
    spec fn yields(&self, seed: Seq<char>, out: Seq<char>) -> bool;

    /// Transforms the accumulator `seed`. Never fails on a well-formed stage.
    fn generate_with_seed(&self, rng: &mut ThreadRng, seed: String) -> (r: String)
        requires
            self.well_formed(),
        ensures
            self.yields(seed@, r@),
    ;

    /// Runs the stage from an empty accumulator.
    fn generate(&self, rng: &mut ThreadRng) -> (r: String)
        requires
            self.well_formed(),
        ensures
            self.yields(Seq::empty(), r@),
    {
        self.generate_with_seed(rng, String::new())
    }
}

/// Threads the accumulator through `first`, then through `second`.
pub struct ChainedGenerator<A, B> {
    first: A,
    second: B,
}

impl<A, B> ChainedGenerator<A, B> {
    pub closed spec fn first(&self) -> A {
        self.first
    }

    pub closed spec fn second(&self) -> B {
        self.second
    }
}

impl<A: PasswordGenerator, B: PasswordGenerator> PasswordGenerator for ChainedGenerator<A, B> {
    open spec fn well_formed(&self) -> bool {
        self.first().well_formed() && self.second().well_formed()
    }

    open spec fn yields(&self, seed: Seq<char>, out: Seq<char>) -> bool {
        exists|mid: Seq<char>| self.first().yields(seed, mid) && self.second().yields(mid, out)
    }

    fn generate_with_seed(&self, rng: &mut ThreadRng, seed: String) -> (r: String) {
        let mid = self.first.generate_with_seed(rng, seed);
        self.second.generate_with_seed(rng, mid)
    }
}

/// On each call, hands the accumulator to exactly one of two stages, picked
/// by a fair coin.
pub struct AlternativeGenerator<A, B> {
    first: A,
    second: B,
}

impl<A, B> AlternativeGenerator<A, B> {
    pub closed spec fn first(&self) -> A {
        self.first
    }

    pub closed spec fn second(&self) -> B {
        self.second
    }
}

impl<A: PasswordGenerator, B: PasswordGenerator> PasswordGenerator for AlternativeGenerator<
    A,
    B,
> {
    open spec fn well_formed(&self) -> bool {
        self.first().well_formed() && self.second().well_formed()
    }

    open spec fn yields(&self, seed: Seq<char>, out: Seq<char>) -> bool {
        self.first().yields(seed, out) || self.second().yields(seed, out)
    }

    fn generate_with_seed(&self, rng: &mut ThreadRng, seed: String) -> (r: String) {
        if draw_below(rng, 0, 2) == 0 {
            self.first.generate_with_seed(rng, seed)
        } else {
            self.second.generate_with_seed(rng, seed)
        }
    }
}

/// The sequence combinator: a stage that runs `first`, then `second` on its
/// output.
pub fn pipe<A: PasswordGenerator, B: PasswordGenerator>(first: A, second: B) -> (r:
    ChainedGenerator<A, B>)
    ensures
        r.first() == first,
        r.second() == second,
{
    ChainedGenerator { first, second }
}

/// The alternation combinator: a stage that runs either `first` or
/// `second`, each with probability one half.
pub fn or<A: PasswordGenerator, B: PasswordGenerator>(first: A, second: B) -> (r:
    AlternativeGenerator<A, B>)
    ensures
        r.first() == first,
        r.second() == second,
{
    AlternativeGenerator { first, second }
}

/// A stage that appends a fixed literal to the accumulator.
pub struct Constant {
    value: String,
}

impl Constant {
    /// The literal that the stage appends.
    pub closed spec fn value(&self) -> Seq<char> {
        self.value@
    }

    pub fn new(seed: &str) -> (r: Constant)
        ensures
            r.value() == seed@,
    {
        Constant { value: seed.to_owned() }
    }

    /// A stage that leaves the accumulator as it is.
    pub fn empty() -> (r: Constant)
        ensures
            r.value() == Seq::<char>::empty(),
    {
        Constant { value: String::new() }
    }
}

impl PasswordGenerator for Constant {
    open spec fn well_formed(&self) -> bool {
        true
    }

    open spec fn yields(&self, seed: Seq<char>, out: Seq<char>) -> bool {
        out == seed + self.value()
    }

    fn generate_with_seed(&self, rng: &mut ThreadRng, seed: String) -> (r: String) {
        seed.concat(self.value.as_str())
    }
}

/// A forward-only, endless source of passwords: each pull runs the whole
/// pipeline from an empty accumulator.
pub struct PasswordIterator<G> {
    generator: G,
}

impl<G: PasswordGenerator> PasswordIterator<G> {
    pub closed spec fn generator(&self) -> G {
        self.generator
    }

    pub fn new(generator: G) -> (r: PasswordIterator<G>)
        ensures
            r.generator() == generator,
    {
        PasswordIterator { generator }
    }

    /// The next password.
    pub fn next(&mut self, rng: &mut ThreadRng) -> (r: String)
        requires
            old(self).generator().well_formed(),
        ensures
            *final(self) == *old(self),
            final(self).generator().yields(Seq::empty(), r@),
    {
        self.generator.generate(rng)
    }
}

/// Wraps a pipeline as a sequence of passwords.
pub fn iterator<G: PasswordGenerator>(generator: G) -> (r: PasswordIterator<G>)
    ensures
        r.generator() == generator,
{
    PasswordIterator::new(generator)
}

} // verus!

verus! {

/// For stages that each have a single possible result, the sequence
/// combinator has a single possible result: the second stage applied to the
/// result of the first.
pub proof fn lemma_pipe_deterministic<A: PasswordGenerator, B: PasswordGenerator>(
    g: ChainedGenerator<A, B>,
    seed: Seq<char>,
    mid: Seq<char>,
    out: Seq<char>,
)
    requires
        g.first().yields(seed, mid),
        forall|m: Seq<char>| g.first().yields(seed, m) ==> m == mid,
        g.second().yields(mid, out),
        forall|o: Seq<char>| g.second().yields(mid, o) ==> o == out,
    ensures
        forall|o: Seq<char>| g.yields(seed, o) <==> o == out,
{
}

/// Two constants in sequence append both literals, in order.
pub proof fn lemma_pipe_constants(g: ChainedGenerator<Constant, Constant>, seed: Seq<char>)
    ensures
        forall|o: Seq<char>| g.yields(seed, o) <==> o == seed + g.first().value() + g.second().value(),
{
    lemma_pipe_deterministic(
        g,
        seed,
        seed + g.first().value(),
        seed + g.first().value() + g.second().value(),
    );
}

/// Each call of the alternation combinator gives what one of its two stages
/// gives on its own; it never mixes them.
pub proof fn lemma_or_single_branch<A: PasswordGenerator, B: PasswordGenerator>(
    g: AlternativeGenerator<A, B>,
    seed: Seq<char>,
    out: Seq<char>,
)
    requires
        g.yields(seed, out),
    ensures
        g.first().yields(seed, out) || g.second().yields(seed, out),
{
}

} // verus!
