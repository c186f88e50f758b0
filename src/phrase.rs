//! The stages that sample words and phrases from a corpus.
use crate::base::PasswordGenerator;
use crate::chars::{lower_of, push_char};
use crate::corpus::{
    is_plain_word, lemma_filter_push, lemma_words_plain, phrase_break, phrases_of, phrases_view, pieces,
    strings_view, word_break, words_of, Text,
};
use crate::error::ConfigError;
use crate::rng::choose_from;
use rand::rngs::ThreadRng;
use vstd::prelude::*;
use vstd::utf8::encode_utf8;

verus! {

/// The strings of `parts` joined by single spaces.
pub open spec fn joined(parts: Seq<Seq<char>>) -> Seq<char>
    decreases parts.len(),
{
    if parts.len() == 0 {
        Seq::empty()
    } else if parts.len() == 1 {
        parts[0]
    } else {
        joined(parts.drop_last()).push(' ') + parts.last()
    }
}

/// The length of a word in bytes, as UTF-8 encodes it.
pub open spec fn byte_len(w: Seq<char>) -> nat {
    encode_utf8(w).len()
}

pub open spec fn at_least_bytes(min_length: nat) -> spec_fn(Seq<char>) -> bool {
    |w: Seq<char>| byte_len(w) >= min_length
}

pub open spec fn word_count_within(min_length: nat, max_length: nat) -> spec_fn(
    Seq<Seq<char>>,
) -> bool {
    |p: Seq<Seq<char>>| min_length <= p.len() <= max_length
}

/// The accumulator as the first part of a word list, when it is not empty.
pub open spec fn leading_part(seed: Seq<char>) -> Seq<Seq<char>> {
    if seed.len() == 0 {
        Seq::empty()
    } else {
        seq![seed]
    }
}

/// `parts` joined by single spaces.
fn join_words(parts: &Vec<String>) -> (r: String)
    ensures
        r@ == joined(strings_view(parts@)),
{
    let mut out = String::new();
    let mut i: usize = 0;
    while i < parts.len()
        invariant
            i <= parts.len(),
            out@ == joined(strings_view(parts@).take(i as int)),
        decreases parts.len() - i,
    {
        let ghost done = strings_view(parts@).take(i as int);
        assert(strings_view(parts@).take(i + 1).drop_last() == done);
        if i > 0 {
            push_char(&mut out, ' ');
        }
        out.append(parts[i].as_str());
        proof {
            if i == 0 {
                assert(out@ == strings_view(parts@).take(1)[0]);
            }
        }
        i += 1;
    }
    assert(strings_view(parts@).take(parts.len() as int) == strings_view(parts@));
    out
}

/// A stage that appends `n_words` words drawn at random, with replacement,
/// from a word pool, joining the accumulator and the words with spaces.
pub struct RandomWords {
    words: Vec<String>,
    n_words: usize,
}

impl RandomWords {
    /// The words that the stage draws from.
    pub closed spec fn pool(&self) -> Seq<Seq<char>> {
        strings_view(self.words@)
    }

    /// How many words the stage draws per call.
    pub closed spec fn count(&self) -> nat {
        self.n_words as nat
    }

    /// A stage drawing `n_words` words from those words of `text` that are
    /// at least `min_word_length` bytes long. Fails when there is none.
    pub fn from_text(text: &Text, n_words: usize, min_word_length: usize) -> (r: Result<
        RandomWords,
        ConfigError,
    >)
        ensures
            r is Err <==> words_of(lower_of(text.content())).filter(
                at_least_bytes(min_word_length as nat),
            ).len() == 0,
            r matches Err(e) ==> e == ConfigError::EmptyWordPool,
            r matches Ok(w) ==> {
                &&& w.well_formed()
                &&& w.pool() == words_of(lower_of(text.content())).filter(
                    at_least_bytes(min_word_length as nat),
                )
                &&& w.count() == n_words
            },
    {
        let all = text.load_words();
        let ghost keep = at_least_bytes(min_word_length as nat);
        let mut words: Vec<String> = Vec::new();
        let mut i: usize = 0;
        while i < all.len()
            invariant
                i <= all.len(),
                keep == at_least_bytes(min_word_length as nat),
                strings_view(words@) == strings_view(all@).take(i as int).filter(keep),
            decreases all.len() - i,
        {
            proof {
                assert(strings_view(all@).take(i + 1) == strings_view(all@).take(i as int).push(
                    all@[i as int]@,
                ));
                lemma_filter_push(strings_view(all@).take(i as int), all@[i as int]@, keep);
            }
            let ghost prev = words@;
            let long_enough = all[i].as_str().as_bytes().len() >= min_word_length;
            assert(long_enough == keep(all@[i as int]@));
            if long_enough {
                words.push(all[i].clone());
                assert(strings_view(words@) =~= strings_view(prev).push(all@[i as int]@));
            }
            i += 1;
        }
        assert(strings_view(all@).take(all.len() as int) == strings_view(all@));
        if words.len() == 0 {
            return Err(ConfigError::EmptyWordPool);
        }
        proof {
            lemma_word_pool_shape(lower_of(text.content()), keep);
        }
        Ok(RandomWords { words, n_words })
    }

    /// The words that the stage draws from.
    pub fn words(&self) -> (r: &Vec<String>)
        ensures
            strings_view(r@) == self.pool(),
    {
        &self.words
    }

    /// How many words the stage draws per call.
    pub fn n_words(&self) -> (r: usize)
        ensures
            r == self.count(),
    {
        self.n_words
    }
}

/// Filtering the words of `s` keeps them plain words.
pub proof fn lemma_word_pool_shape(s: Seq<char>, keep: spec_fn(Seq<char>) -> bool)
    ensures
        forall|k: int|
            0 <= k < words_of(s).filter(keep).len() ==> is_plain_word(
                #[trigger] words_of(s).filter(keep)[k],
            ),
{
    lemma_words_plain(s);
    broadcast use Seq::lemma_filter_contains_rev;

    let ws = words_of(s);
    assert forall|k: int| 0 <= k < ws.filter(keep).len() implies is_plain_word(
        #[trigger] ws.filter(keep)[k],
    ) by {
        assert(ws.filter(keep).contains(ws.filter(keep)[k]));
        let j = choose|j: int| 0 <= j < ws.len() && ws[j] == ws.filter(keep)[k];
    }
}

impl PasswordGenerator for RandomWords {
    open spec fn well_formed(&self) -> bool {
        &&& self.pool().len() > 0
        &&& forall|k: int| 0 <= k < self.pool().len() ==> is_plain_word(#[trigger] self.pool()[k])
    }

    open spec fn yields(&self, seed: Seq<char>, out: Seq<char>) -> bool {
        exists|picks: Seq<Seq<char>>|
            {
                &&& picks.len() == self.count()
                &&& forall|k: int| 0 <= k < picks.len() ==> self.pool().contains(#[trigger] picks[k])
                &&& out == joined(leading_part(seed) + picks)
            }
    }

    fn generate_with_seed(&self, rng: &mut ThreadRng, seed: String) -> (r: String) {
        let mut parts: Vec<String> = Vec::new();
        if !seed.as_str().is_empty() {
            parts.push(seed);
        }
        let ghost lead = strings_view(parts@);
        assert(lead == leading_part(seed@));
        let ghost mut picks: Seq<Seq<char>> = Seq::empty();
        let mut k: usize = 0;
        while k < self.n_words
            invariant
                k <= self.n_words,
                self.well_formed(),
                picks.len() == k,
                forall|j: int| 0 <= j < picks.len() ==> self.pool().contains(#[trigger] picks[j]),
                strings_view(parts@) == lead + picks,
            decreases self.n_words - k,
        {
            if let Some(word) = choose_from(self.words.as_slice(), rng) {
                proof {
                    let j = choose|j: int| 0 <= j < self.words.len() && self.words@[j] == *word;
                    assert(self.pool()[j] == word@);
                    picks = picks.push(word@);
                }
                let ghost prev = parts@;
                parts.push(word.clone());
                assert(strings_view(parts@) =~= strings_view(prev).push(word@));
                assert(strings_view(parts@) =~= lead + picks);
            }
            k += 1;
        }
        join_words(&parts)
    }
}

/// A stage that appends one phrase drawn at random from a phrase pool, its
/// words joined by spaces. It adds no separator before the phrase.
pub struct RandomPhrases {
    phrases: Vec<Vec<String>>,
}

impl RandomPhrases {
    /// The phrases that the stage draws from.
    pub closed spec fn pool(&self) -> Seq<Seq<Seq<char>>> {
        phrases_view(self.phrases@)
    }

    /// A stage drawing from those phrases of `text` whose word count lies
    /// within `[min_length, max_length]`. Fails when there is none.
    pub fn from_text(text: &Text, min_length: usize, max_length: usize) -> (r: Result<
        RandomPhrases,
        ConfigError,
    >)
        ensures
            r is Err <==> phrases_of(lower_of(text.content())).filter(
                word_count_within(min_length as nat, max_length as nat),
            ).len() == 0,
            r matches Err(e) ==> e == ConfigError::EmptyPhrasePool,
            r matches Ok(p) ==> {
                &&& p.well_formed()
                &&& p.pool() == phrases_of(lower_of(text.content())).filter(
                    word_count_within(min_length as nat, max_length as nat),
                )
            },
    {
        let all = text.load_phrases();
        let ghost keep = word_count_within(min_length as nat, max_length as nat);
        let mut phrases: Vec<Vec<String>> = Vec::new();
        let mut i: usize = 0;
        while i < all.len()
            invariant
                i <= all.len(),
                keep == word_count_within(min_length as nat, max_length as nat),
                phrases_view(phrases@) == phrases_view(all@).take(i as int).filter(keep),
            decreases all.len() - i,
        {
            proof {
                assert(phrases_view(all@).take(i + 1) == phrases_view(all@).take(i as int).push(
                    strings_view(all@[i as int]@),
                ));
                lemma_filter_push(
                    phrases_view(all@).take(i as int),
                    strings_view(all@[i as int]@),
                    keep,
                );
            }
            let ghost prev = phrases@;
            let len = all[i].len();
            if len >= min_length && len <= max_length {
                phrases.push(all[i].clone());
                assert(phrases_view(phrases@) =~= phrases_view(prev).push(
                    strings_view(all@[i as int]@),
                ));
            }
            i += 1;
        }
        assert(phrases_view(all@).take(all.len() as int) == phrases_view(all@));
        if phrases.len() == 0 {
            return Err(ConfigError::EmptyPhrasePool);
        }
        proof {
            lemma_phrase_pool_shape(lower_of(text.content()), keep);
        }
        Ok(RandomPhrases { phrases })
    }

    /// The phrases that the stage draws from.
    pub fn phrases(&self) -> (r: &Vec<Vec<String>>)
        ensures
            phrases_view(r@) == self.pool(),
    {
        &self.phrases
    }
}

/// Every word of every phrase of `s` is a plain word; filtering phrases
/// keeps that.
pub proof fn lemma_phrase_pool_shape(s: Seq<char>, keep: spec_fn(Seq<Seq<char>>) -> bool)
    ensures
        forall|k: int, j: int|
            0 <= k < phrases_of(s).filter(keep).len() && 0 <= j < phrases_of(s).filter(
                keep,
            )[k].len() ==> is_plain_word(#[trigger] phrases_of(s).filter(keep)[k][j]),
{
    broadcast use Seq::lemma_filter_contains_rev;

    let ps = phrases_of(s);
    assert forall|k: int, j: int|
        0 <= k < ps.filter(keep).len() && 0 <= j < ps.filter(keep)[k].len() implies is_plain_word(
        #[trigger] ps.filter(keep)[k][j],
    ) by {
        assert(ps.filter(keep).contains(ps.filter(keep)[k]));
        let m = choose|m: int| 0 <= m < ps.len() && ps[m] == ps.filter(keep)[k];
        lemma_words_plain(pieces(s, phrase_break())[m]);
    }
}

impl PasswordGenerator for RandomPhrases {
    open spec fn well_formed(&self) -> bool {
        &&& self.pool().len() > 0
        &&& forall|k: int, j: int|
            0 <= k < self.pool().len() && 0 <= j < self.pool()[k].len() ==> is_plain_word(
                #[trigger] self.pool()[k][j],
            )
    }

    open spec fn yields(&self, seed: Seq<char>, out: Seq<char>) -> bool {
        exists|k: int| 0 <= k < self.pool().len() && out == seed + joined(#[trigger] self.pool()[k])
    }

    fn generate_with_seed(&self, rng: &mut ThreadRng, seed: String) -> (r: String) {
        match choose_from(self.phrases.as_slice(), rng) {
            Some(phrase) => {
                let words = join_words(phrase);
                proof {
                    let k = choose|k: int| 0 <= k < self.phrases.len() && self.phrases@[k] == *phrase;
                    assert(self.pool()[k] == strings_view(phrase@));
                }
                seed.concat(words.as_str())
            },
            None => seed,
        }
    }
}

/// Tokens of a generated password are separated by single spaces.
pub open spec fn space_break() -> spec_fn(char) -> bool {
    |c: char| c == ' '
}

/// A piece without break characters is its own only piece.
proof fn lemma_pieces_unbroken(w: Seq<char>, is_break: spec_fn(char) -> bool)
    requires
        forall|j: int| 0 <= j < w.len() ==> !is_break(#[trigger] w[j]),
    ensures
        pieces(w, is_break) == seq![w],
    decreases w.len(),
{
    if w.len() == 0 {
        assert(w =~= Seq::<char>::empty());
    } else {
        lemma_pieces_unbroken(w.drop_last(), is_break);
        assert(w.drop_last().push(w.last()) =~= w);
        assert(!is_break(w[w.len() - 1]));
        assert(seq![w.drop_last()].update(0, w.drop_last().push(w.last())) =~= seq![w]);
    }
}

/// Appending a break character and an unbroken piece adds that piece.
proof fn lemma_pieces_append(a: Seq<char>, sep: char, b: Seq<char>, is_break: spec_fn(char) -> bool)
    requires
        is_break(sep),
        forall|j: int| 0 <= j < b.len() ==> !is_break(#[trigger] b[j]),
    ensures
        pieces(a.push(sep) + b, is_break) == pieces(a, is_break).push(b),
    decreases b.len(),
{
    let x = a.push(sep);
    if b.len() == 0 {
        assert(x + b =~= x);
        assert(x.drop_last() =~= a);
        assert(b =~= Seq::<char>::empty());
    } else {
        lemma_pieces_append(a, sep, b.drop_last(), is_break);
        assert((x + b).drop_last() =~= x + b.drop_last());
        assert((x + b).last() == b.last());
        let front = pieces(a, is_break).push(b.drop_last());
        assert(b.drop_last().push(b.last()) =~= b);
        assert(!is_break(b[b.len() - 1]));
        let y = x + b;
        assert(y.drop_last() =~= x + b.drop_last());
        assert(pieces(y.drop_last(), is_break) == front);
        assert(pieces(y, is_break) == front.update(front.len() - 1, front.last().push(y.last())));
        assert(front.update(front.len() - 1, b.drop_last().push(b.last())) =~= pieces(
            a,
            is_break,
        ).push(b));
    }
}

/// Splitting at spaces undoes joining with spaces, for parts without
/// spaces.
pub proof fn lemma_split_joined(parts: Seq<Seq<char>>)
    requires
        parts.len() >= 1,
        forall|k: int, j: int|
            0 <= k < parts.len() && 0 <= j < parts[k].len() ==> #[trigger] parts[k][j] != ' ',
    ensures
        pieces(joined(parts), space_break()) == parts,
    decreases parts.len(),
{
    if parts.len() == 1 {
        assert(forall|j: int| 0 <= j < parts[0].len() ==> !space_break()(#[trigger] parts[0][j]));
        lemma_pieces_unbroken(parts[0], space_break());
        assert(seq![parts[0]] =~= parts);
    } else {
        lemma_split_joined(parts.drop_last());
        let last = parts.last();
        assert(forall|j: int| 0 <= j < last.len() ==> !space_break()(#[trigger] last[j])) by {
            assert forall|j: int| 0 <= j < last.len() implies !space_break()(#[trigger] last[j]) by {
                assert(parts[parts.len() - 1][j] != ' ');
            }
        }
        lemma_pieces_append(joined(parts.drop_last()), ' ', last, space_break());
        assert(parts.drop_last().push(last) =~= parts);
    }
}

/// Drawing words into an empty accumulator gives exactly as many
/// space-separated tokens as words were asked for, each a word of the text
/// with at least the minimum length in bytes.
pub proof fn lemma_word_password_tokens(
    w: RandomWords,
    text: Seq<char>,
    min_word_length: nat,
    out: Seq<char>,
)
    requires
        w.well_formed(),
        w.pool() == words_of(lower_of(text)).filter(at_least_bytes(min_word_length)),
        w.count() >= 1,
        w.yields(Seq::empty(), out),
    ensures
        pieces(out, space_break()).len() == w.count(),
        forall|k: int|
            0 <= k < w.count() ==> words_of(lower_of(text)).contains(
                #[trigger] pieces(out, space_break())[k],
            ) && byte_len(pieces(out, space_break())[k]) >= min_word_length,
{
    broadcast use Seq::lemma_filter_pred, Seq::lemma_filter_contains_rev;

    let picks = choose|picks: Seq<Seq<char>>|
        {
            &&& picks.len() == w.count()
            &&& forall|k: int| 0 <= k < picks.len() ==> w.pool().contains(#[trigger] picks[k])
            &&& out == joined(leading_part(Seq::empty()) + picks)
        };
    assert(leading_part(Seq::<char>::empty()) + picks =~= picks);
    assert forall|k: int, j: int| 0 <= k < picks.len() && 0 <= j < picks[k].len() implies #[trigger] picks[k][j]
        != ' ' by {
        assert(w.pool().contains(picks[k]));
        let m = choose|m: int| 0 <= m < w.pool().len() && w.pool()[m] == picks[k];
        assert(is_plain_word(w.pool()[m]));
        assert(!word_break()(picks[k][j]));
    }
    lemma_split_joined(picks);
    assert forall|k: int| 0 <= k < w.count() implies words_of(lower_of(text)).contains(
        #[trigger] pieces(out, space_break())[k],
    ) && byte_len(pieces(out, space_break())[k]) >= min_word_length by {
        assert(w.pool().contains(picks[k]));
        let m = choose|m: int| 0 <= m < w.pool().len() && w.pool()[m] == picks[k];
        assert(at_least_bytes(min_word_length)(w.pool()[m]));
    }
}

/// A phrase drawn into an empty accumulator has a word count within the
/// bounds that the pool was filtered by.
pub proof fn lemma_phrase_password_length(
    p: RandomPhrases,
    text: Seq<char>,
    min_length: nat,
    max_length: nat,
    out: Seq<char>,
)
    requires
        p.well_formed(),
        p.pool() == phrases_of(lower_of(text)).filter(word_count_within(min_length, max_length)),
        min_length >= 1,
        p.yields(Seq::empty(), out),
    ensures
        min_length <= pieces(out, space_break()).len() <= max_length,
{
    broadcast use Seq::lemma_filter_pred;

    let k = choose|k: int| 0 <= k < p.pool().len() && out == Seq::empty() + joined(
        #[trigger] p.pool()[k],
    );
    let phrase = p.pool()[k];
    assert(word_count_within(min_length, max_length)(phrase));
    assert(Seq::<char>::empty() + joined(phrase) =~= joined(phrase));
    assert forall|m: int, j: int| 0 <= m < phrase.len() && 0 <= j < phrase[m].len() implies #[trigger] phrase[m][j]
        != ' ' by {
        assert(is_plain_word(p.pool()[k][m]));
        assert(!word_break()(phrase[m][j]));
    }
    lemma_split_joined(phrase);
}

} // verus!
