//! Corpus segmentation: the word pool and the phrase pool of a text.
use crate::chars::{alphanumeric, chars_of, is_alphanumeric, lower_of, lowercase, string_of};
use vstd::prelude::*;

verus! {

/// The pieces of `s` between the characters that `is_break` accepts, in
/// order; empty pieces included, so there is one more piece than breaks.
pub open spec fn pieces(s: Seq<char>, is_break: spec_fn(char) -> bool) -> Seq<Seq<char>>
    decreases s.len(),
{
    if s.len() == 0 {
        seq![Seq::empty()]
    } else {
        let front = pieces(s.drop_last(), is_break);
        if is_break(s.last()) {
            front.push(Seq::empty())
        } else {
            front.update(front.len() - 1, front.last().push(s.last()))
        }
    }
}

/// Words are separated by every character that is not alphanumeric; a
/// space always separates them.
pub open spec fn word_break() -> spec_fn(char) -> bool {
    |c: char| c == ' ' || !alphanumeric(c)
}

/// Phrases end at a full stop or a comma.
pub open spec fn phrase_break() -> spec_fn(char) -> bool {
    |c: char| c == '.' || c == ','
}

pub open spec fn non_empty() -> spec_fn(Seq<char>) -> bool {
    |w: Seq<char>| w.len() > 0
}

/// The words of `s`: its maximal runs of alphanumeric characters. This is
/// what replacing every other character with a space and splitting on
/// whitespace gives, as no alphanumeric character is whitespace.
pub open spec fn words_of(s: Seq<char>) -> Seq<Seq<char>> {
    pieces(s, word_break()).filter(non_empty())
}

/// The phrases of `s`: the words of each piece between full stops and
/// commas. A piece without words (two delimiters in a row, or the end of
/// the text after a final delimiter) is an empty phrase.
pub open spec fn phrases_of(s: Seq<char>) -> Seq<Seq<Seq<char>>> {
    words_of_each(pieces(s, phrase_break()))
}

pub open spec fn words_of_each(ps: Seq<Seq<char>>) -> Seq<Seq<Seq<char>>> {
    ps.map_values(|p: Seq<char>| words_of(p))
}

pub open spec fn strings_view(v: Seq<String>) -> Seq<Seq<char>> {
    v.map_values(|w: String| w@)
}

pub proof fn lemma_pieces_not_empty(s: Seq<char>, is_break: spec_fn(char) -> bool)
    ensures
        pieces(s, is_break).len() >= 1,
    decreases s.len(),
{
    if s.len() > 0 {
        lemma_pieces_not_empty(s.drop_last(), is_break);
    }
}

/// Filtering a sequence extended by one element.
pub(crate) proof fn lemma_filter_push<A>(xs: Seq<A>, x: A, keep: spec_fn(A) -> bool)
    ensures
        xs.push(x).filter(keep) == if keep(x) {
            xs.filter(keep).push(x)
        } else {
            xs.filter(keep)
        },
{
    reveal(Seq::filter);
    assert(xs.push(x).drop_last() == xs);
}

/// The words of `chars[lo..hi]`.
fn split_words(chars: &Vec<char>, lo: usize, hi: usize) -> (r: Vec<String>)
    requires
        lo <= hi <= chars.len(),
    ensures
        strings_view(r@) == words_of(chars@.subrange(lo as int, hi as int)),
{
    let mut words: Vec<String> = Vec::new();
    let mut current: Vec<char> = Vec::new();
    let mut i: usize = lo;
    while i < hi
        invariant
            lo <= i <= hi <= chars.len(),
            pieces(chars@.subrange(lo as int, i as int), word_break()).len() >= 1,
            strings_view(words@) == pieces(
                chars@.subrange(lo as int, i as int),
                word_break(),
            ).drop_last().filter(non_empty()),
            current@ == pieces(chars@.subrange(lo as int, i as int), word_break()).last(),
        decreases hi - i,
    {
        let c = chars[i];
        let ghost before = chars@.subrange(lo as int, i as int);
        let ghost front = pieces(before, word_break());
        assert(chars@.subrange(lo as int, i + 1) == before.push(c));
        assert(before.push(c).drop_last() == before);
        if c != ' ' && is_alphanumeric(c) {
            current.push(c);
            assert(front.update(front.len() - 1, front.last().push(c)).drop_last()
                == front.drop_last());
        } else {
            if current.len() > 0 {
                let w = string_of(&current);
                words.push(w);
            }
            proof {
                lemma_filter_push(front.drop_last(), front.last(), non_empty());
                assert(front.push(Seq::empty()).drop_last() == front);
                assert(front.drop_last().push(front.last()) == front);
                assert(strings_view(words@) =~= front.filter(non_empty()));
            }
            current = Vec::new();
        }
        i += 1;
    }
    let ghost all = pieces(chars@.subrange(lo as int, hi as int), word_break());
    if current.len() > 0 {
        let w = string_of(&current);
        words.push(w);
    }
    proof {
        lemma_filter_push(all.drop_last(), all.last(), non_empty());
        assert(all.drop_last().push(all.last()) == all);
        assert(strings_view(words@) =~= all.filter(non_empty()));
    }
    words
}

pub open spec fn phrases_view(v: Seq<Vec<String>>) -> Seq<Seq<Seq<char>>> {
    v.map_values(|p: Vec<String>| strings_view(p@))
}

/// Appending the words of the last piece to those of the others gives the
/// words of every piece.
proof fn lemma_words_of_each_last(
    prev: Seq<Vec<String>>,
    next: Seq<Vec<String>>,
    ps: Seq<Seq<char>>,
)
    requires
        ps.len() >= 1,
        phrases_view(prev) == words_of_each(ps.drop_last()),
        next.len() == prev.len() + 1,
        forall|k: int| 0 <= k < prev.len() ==> next[k] == prev[k],
        strings_view(next.last()@) == words_of(ps.last()),
    ensures
        phrases_view(next) == words_of_each(ps),
{
    assert(phrases_view(prev).len() == prev.len());
    assert(words_of_each(ps.drop_last()).len() == ps.len() - 1);
    assert forall|k: int| 0 <= k < next.len() implies phrases_view(next)[k] == words_of_each(
        ps,
    )[k] by {
        if k < prev.len() {
            assert(phrases_view(prev)[k] == words_of_each(ps.drop_last())[k]);
            assert(ps.drop_last()[k] == ps[k]);
        }
    }
    assert(phrases_view(next) =~= words_of_each(ps));
}

/// A body of text from which word and phrase pools are derived.
pub struct Text<'a> {
    text: &'a str,
}

impl<'a> Text<'a> {
    /// The characters of the text.
    pub closed spec fn content(&self) -> Seq<char> {
        self.text@
    }

    pub fn new(text: &'a str) -> (r: Text<'a>)
        ensures
            r.content() == text@,
    {
        Text { text }
    }

    /// The raw text.
    pub fn text(&self) -> (r: &'a str)
        ensures
            r@ == self.content(),
    {
        self.text
    }

    /// The word pool: the lowercase words of the text, in order, repeats
    /// included.
    pub fn load_words(&self) -> (r: Vec<String>)
        ensures
            strings_view(r@) == words_of(lower_of(self.content())),
    {
        let lowered = lowercase(self.text);
        let chars = chars_of(lowered.as_str());
        let r = split_words(&chars, 0, chars.len());
        assert(chars@.subrange(0, chars.len() as int) == chars@);
        r
    }

    /// The phrase pool: the lowercase words of each phrase of the text, in
    /// order, empty phrases included.
    pub fn load_phrases(&self) -> (r: Vec<Vec<String>>)
        ensures
            phrases_view(r@) == phrases_of(lower_of(self.content())),
    {
        let lowered = lowercase(self.text);
        let chars = chars_of(lowered.as_str());
        let mut phrases: Vec<Vec<String>> = Vec::new();
        let mut start: usize = 0;
        let mut i: usize = 0;
        while i < chars.len()
            invariant
                start <= i <= chars.len(),
                pieces(chars@.take(i as int), phrase_break()).len() >= 1,
                phrases_view(phrases@) == words_of_each(
                    pieces(chars@.take(i as int), phrase_break()).drop_last(),
                ),
                pieces(chars@.take(i as int), phrase_break()).last() == chars@.subrange(
                    start as int,
                    i as int,
                ),
            decreases chars.len() - i,
        {
            let c = chars[i];
            let ghost front = pieces(chars@.take(i as int), phrase_break());
            assert(chars@.take(i + 1) == chars@.take(i as int).push(c));
            assert(chars@.take(i as int).push(c).drop_last() == chars@.take(i as int));
            if c == '.' || c == ',' {
                let phrase = split_words(&chars, start, i);
                let ghost prev = phrases@;
                phrases.push(phrase);
                start = i + 1;
                proof {
                    assert(front.push(Seq::empty()).drop_last() == front);
                    lemma_words_of_each_last(prev, phrases@, front);
                    assert(phrases_view(phrases@) =~= words_of_each(front));
                    assert(chars@.subrange(start as int, i + 1) =~= Seq::<char>::empty());
                }
            } else {
                assert(front.update(front.len() - 1, front.last().push(c)).drop_last()
                    == front.drop_last());
                assert(chars@.subrange(start as int, i + 1) =~= chars@.subrange(
                    start as int,
                    i as int,
                ).push(c));
            }
            i += 1;
        }
        let ghost all = pieces(chars@.take(chars.len() as int), phrase_break());
        let last = split_words(&chars, start, chars.len());
        let ghost prev = phrases@;
        phrases.push(last);
        proof {
            assert(chars@.take(chars.len() as int) == chars@);
            lemma_words_of_each_last(prev, phrases@, all);
            assert(phrases_view(phrases@) =~= words_of_each(all));
        }
        phrases
    }
}

/// Every word of `s` is a non-empty run of alphanumeric characters other
/// than the space.
pub proof fn lemma_words_plain(s: Seq<char>)
    ensures
        forall|k: int| 0 <= k < words_of(s).len() ==> is_plain_word(#[trigger] words_of(s)[k]),
{
    lemma_pieces_shape(s);
    broadcast use Seq::lemma_filter_pred, Seq::lemma_filter_contains_rev;

    let ws = words_of(s);
    assert forall|k: int| 0 <= k < ws.len() implies is_plain_word(#[trigger] ws[k]) by {
        assert(ws.contains(ws[k]));
        assert(pieces(s, word_break()).contains(ws[k]));
        assert(non_empty()(ws[k]));
    }
}

/// A word: not empty, and made of alphanumeric characters other than the
/// space.
pub open spec fn is_plain_word(w: Seq<char>) -> bool {
    &&& w.len() > 0
    &&& forall|j: int| 0 <= j < w.len() ==> !word_break()(#[trigger] w[j])
}

/// No piece holds a break character.
proof fn lemma_pieces_shape(s: Seq<char>)
    ensures
        forall|k: int, j: int|
            0 <= k < pieces(s, word_break()).len() && 0 <= j < pieces(s, word_break())[k].len()
                ==> !word_break()(#[trigger] pieces(s, word_break())[k][j]),
    decreases s.len(),
{
    if s.len() > 0 {
        lemma_pieces_shape(s.drop_last());
        lemma_pieces_not_empty(s.drop_last(), word_break());
        let front = pieces(s.drop_last(), word_break());
        let ps = pieces(s, word_break());
        assert forall|k: int, j: int|
            0 <= k < ps.len() && 0 <= j < ps[k].len() implies !word_break()(
            #[trigger] ps[k][j],
        ) by {
            if !word_break()(s.last()) && k == front.len() - 1 {
                if j < front.last().len() {
                    assert(ps[k][j] == front[k][j]);
                }
            } else if k < front.len() {
                assert(ps[k] == front[k]);
            }
        }
    }
}

} // verus!
