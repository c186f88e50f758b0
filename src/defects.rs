//! Defect injection: replacing a bounded, randomly chosen set of characters
//! with look-alike substitutes.
use crate::base::PasswordGenerator;
use crate::chars::{chars_of, push_char};
use crate::error::ConfigError;
use crate::rng::{choose_from, draw_below, shuffle_in_place};
use rand::rngs::ThreadRng;
use vstd::math::min;
use vstd::prelude::*;

verus! {

/// The substitutes that a table of `(character, substitutes)` entries gives
/// `c`: those of the last entry for `c`, or none when no entry names it.
pub open spec fn last_entry_for(entries: Seq<(char, Seq<char>)>, c: char) -> Seq<char>
    decreases entries.len(),
{
    if entries.len() == 0 {
        Seq::empty()
    } else if entries.last().0 == c {
        entries.last().1
    } else {
        last_entry_for(entries.drop_last(), c)
    }
}

/// The look-alike symbols for letters. `L` appears in two groups of the
/// table; the group registered last (`7`, `^`) wins.
pub open spec fn symbol_substitutes(c: char) -> Seq<char> {
    if c == 'A' {
        seq!['4']
    } else if c == 'O' || c == 'o' || c == 'Q' {
        seq!['0']
    } else if c == 'E' {
        seq!['3']
    } else if c == 'l' || c == 'I' || c == 'J' {
        seq!['1']
    } else if c == 'i' || c == 'j' {
        seq!['!', ':', ';']
    } else if c == 'S' || c == 's' {
        seq!['$', '5']
    } else if c == 'Z' || c == 'z' {
        seq!['2']
    } else if c == 'L' || c == 'V' || c == 'v' {
        seq!['7', '^']
    } else if c == 'a' {
        seq!['@']
    } else if c == 'N' {
        seq!['\\', '%']
    } else if c == 'B' {
        seq!['8', '\\', '%', '&']
    } else if c == 'P' || c == 'p' || c == 'q' {
        seq!['9']
    } else if c == 'b' || c == 'd' {
        seq!['6', '&']
    } else if c == 'X' || c == 'x' || c == 'f' || c == 'F' {
        seq!['+']
    } else if c == 'H' {
        seq!['#']
    } else {
        Seq::empty()
    }
}

/// The lowercase vowels, in order.
pub open spec fn vowels() -> Seq<char> {
    seq!['a', 'e', 'i', 'o', 'u']
}

pub open spec fn differs_from(c: char) -> spec_fn(char) -> bool {
    |x: char| x != c
}

/// Each lowercase vowel may become any of the four others; nothing else
/// (uppercase vowels included) is eligible.
pub open spec fn vowel_substitutes(c: char) -> Seq<char> {
    if vowels().contains(c) {
        vowels().filter(differs_from(c))
    } else {
        Seq::empty()
    }
}

/// The positions at which `out` differs from `seed`.
pub open spec fn changed_positions(seed: Seq<char>, out: Seq<char>) -> Set<int> {
    Set::new(|i: int| 0 <= i < seed.len() && out[i] != seed[i])
}

/// A stage that replaces between `min_defects` and `max_defects` eligible
/// characters of the accumulator with look-alike substitutes.
pub struct Defects {
    entries: Vec<(char, Vec<char>)>,
    min_defects: usize,
    max_defects: usize,
}

impl Defects {
    /// The substitution table, as registered.
    pub closed spec fn table(&self) -> Seq<(char, Seq<char>)> {
        self.entries@.map_values(|e: (char, Vec<char>)| (e.0, e.1@))
    }

    pub closed spec fn min_defects(&self) -> nat {
        self.min_defects as nat
    }

    pub closed spec fn max_defects(&self) -> nat {
        self.max_defects as nat
    }

    /// The candidates that may replace `c`; empty when `c` is not eligible.
    pub open spec fn substitutes(&self, c: char) -> Seq<char> {
        last_entry_for(self.table(), c)
    }

    /// The positions of `seed` whose character the table can replace.
    pub open spec fn eligible_positions(&self, seed: Seq<char>) -> Set<int> {
        Set::new(|i: int| 0 <= i < seed.len() && self.substitutes(seed[i]).len() > 0)
    }

    fn with_bounds(min_defects: usize, max_defects: usize) -> (r: Defects)
        ensures
            r.min_defects() == min_defects,
            r.max_defects() == max_defects,
            forall|c: char| r.substitutes(c) == Seq::<char>::empty(),
    {
        let r = Defects { entries: Vec::new(), min_defects, max_defects };
        assert(r.table() =~= Seq::empty());
        r
    }

    /// Registers `targets` as the substitutes of `c`, replacing earlier ones.
    fn register(&mut self, c: char, targets: &Vec<char>)
        ensures
            final(self).min_defects() == old(self).min_defects(),
            final(self).max_defects() == old(self).max_defects(),
            forall|x: char|
                #[trigger] final(self).substitutes(x) == if x == c {
                    targets@
                } else {
                    old(self).substitutes(x)
                },
    {
        let t = targets.clone();
        assert(t@ =~= targets@);
        self.entries.push((c, t));
        assert(self.table() =~= old(self).table().push((c, targets@)));
        assert(self.table().drop_last() =~= old(self).table());
    }

    /// A stage that replaces letters with numbers or symbols that look like
    /// them, between `min_defects` and `max_defects` of them per call.
    pub fn with_symbols(min_defects: usize, max_defects: usize) -> (r: Result<Defects, ConfigError>)
        ensures
            r is Err <==> min_defects > max_defects,
            r matches Err(e) ==> e == ConfigError::DefectBoundsReversed,
            r matches Ok(d) ==> {
                &&& d.well_formed()
                &&& d.min_defects() == min_defects
                &&& d.max_defects() == max_defects
                &&& forall|c: char| #[trigger] d.substitutes(c) == symbol_substitutes(c)
            },
    {
        if min_defects > max_defects {
            return Err(ConfigError::DefectBoundsReversed);
        }
        let mut d = Defects::with_bounds(min_defects, max_defects);
        d.register_group(&vec!['A'], &vec!['4']);
        d.register_group(&vec!['O', 'o', 'Q'], &vec!['0']);
        d.register_group(&vec!['E'], &vec!['3']);
        d.register_group(&vec!['L', 'l', 'I', 'J'], &vec!['1']);
        d.register_group(&vec!['i', 'j'], &vec!['!', ':', ';']);
        d.register_group(&vec!['S', 's'], &vec!['$', '5']);
        d.register_group(&vec!['Z', 'z'], &vec!['2']);
        d.register_group(&vec!['L', 'V', 'v'], &vec!['7', '^']);
        d.register_group(&vec!['a'], &vec!['@']);
        d.register_group(&vec!['N'], &vec!['\\', '%']);
        d.register_group(&vec!['B'], &vec!['8', '\\', '%', '&']);
        d.register_group(&vec!['P', 'p', 'q'], &vec!['9']);
        d.register_group(&vec!['b', 'd'], &vec!['6', '&']);
        d.register_group(&vec!['X', 'x', 'f', 'F'], &vec!['+']);
        d.register_group(&vec!['H'], &vec!['#']);
        assert forall|c: char| #[trigger] d.substitutes(c) == symbol_substitutes(c) by {}
        Ok(d)
    }

    /// A stage that replaces lowercase vowels with other vowels, between
    /// `min_defects` and `max_defects` of them per call.
    pub fn with_vowels(min_defects: usize, max_defects: usize) -> (r: Result<Defects, ConfigError>)
        ensures
            r is Err <==> min_defects > max_defects,
            r matches Err(e) ==> e == ConfigError::DefectBoundsReversed,
            r matches Ok(d) ==> {
                &&& d.well_formed()
                &&& d.min_defects() == min_defects
                &&& d.max_defects() == max_defects
                &&& forall|c: char| #[trigger] d.substitutes(c) == vowel_substitutes(c)
            },
    {
        if min_defects > max_defects {
            return Err(ConfigError::DefectBoundsReversed);
        }
        let vowel_list: Vec<char> = vec!['a', 'e', 'i', 'o', 'u'];
        assert(vowel_list@ == vowels());
        let mut d = Defects::with_bounds(min_defects, max_defects);
        let mut i: usize = 0;
        while i < vowel_list.len()
            invariant
                i <= vowel_list.len(),
                vowel_list@ == vowels(),
                d.min_defects() == min_defects,
                d.max_defects() == max_defects,
                forall|x: char|
                    #[trigger] d.substitutes(x) == if vowel_list@.take(i as int).contains(x) {
                        vowels().filter(differs_from(x))
                    } else {
                        Seq::empty()
                    },
            decreases vowel_list.len() - i,
        {
            let v = vowel_list[i];
            let others = all_but(&vowel_list, v);
            d.register(v, &others);
            assert(vowel_list@.take(i + 1) == vowel_list@.take(i as int).push(v));
            assert forall|x: char| vowel_list@.take(i + 1).contains(x) <==> (vowel_list@.take(
                i as int,
            ).contains(x) || x == v) by {
                if x == v {
                    assert(vowel_list@.take(i + 1)[i as int] == v);
                }
                if vowel_list@.take(i as int).contains(x) {
                    let k = choose|k: int| 0 <= k < i && vowel_list@.take(i as int)[k] == x;
                    assert(vowel_list@.take(i + 1)[k] == x);
                }
            }
            i += 1;
        }
        assert(vowel_list@.take(5) == vowels());
        assert forall|c: char| !(#[trigger] d.substitutes(c)).contains(c) by {
            if vowels().contains(c) {
                broadcast use Seq::lemma_filter_pred;
                if d.substitutes(c).contains(c) {
                    let k = choose|k: int| 0 <= k < d.substitutes(c).len() && d.substitutes(c)[k] == c;
                    assert(differs_from(c)(vowels().filter(differs_from(c))[k]));
                }
            }
        }
        assert forall|c: char| #[trigger] d.substitutes(c) == vowel_substitutes(c) by {}
        Ok(d)
    }

    /// Registers `targets` as the substitutes of each of `sources`.
    fn register_group(&mut self, sources: &Vec<char>, targets: &Vec<char>)
        ensures
            final(self).min_defects() == old(self).min_defects(),
            final(self).max_defects() == old(self).max_defects(),
            forall|x: char|
                #[trigger] final(self).substitutes(x) == if sources@.contains(x) {
                    targets@
                } else {
                    old(self).substitutes(x)
                },
    {
        let mut i: usize = 0;
        while i < sources.len()
            invariant
                i <= sources.len(),
                self.min_defects() == old(self).min_defects(),
                self.max_defects() == old(self).max_defects(),
                forall|x: char|
                    #[trigger] self.substitutes(x) == if sources@.take(i as int).contains(x) {
                        targets@
                    } else {
                        old(self).substitutes(x)
                    },
            decreases sources.len() - i,
        {
            let c = sources[i];
            self.register(c, targets);
            assert(sources@.take(i + 1) == sources@.take(i as int).push(c));
            assert forall|x: char| sources@.take(i + 1).contains(x) <==> (sources@.take(
                i as int,
            ).contains(x) || x == c) by {
                if x == c {
                    assert(sources@.take(i + 1)[i as int] == c);
                }
                if sources@.take(i as int).contains(x) {
                    let k = choose|k: int| 0 <= k < i && sources@.take(i as int)[k] == x;
                    assert(sources@.take(i + 1)[k] == x);
                }
            }
            i += 1;
        }
        assert(sources@.take(sources.len() as int) == sources@);
    }
}

/// The elements of `items` other than `c`, in order.
fn all_but(items: &Vec<char>, c: char) -> (r: Vec<char>)
    ensures
        r@ == items@.filter(differs_from(c)),
{
    let mut out: Vec<char> = Vec::new();
    let mut i: usize = 0;
    while i < items.len()
        invariant
            i <= items.len(),
            out@ == items@.take(i as int).filter(differs_from(c)),
        decreases items.len() - i,
    {
        let x = items[i];
        proof {
            reveal(Seq::filter);
            assert(items@.take(i + 1).drop_last() == items@.take(i as int));
        }
        if x != c {
            out.push(x);
        }
        i += 1;
    }
    assert(items@.take(items.len() as int) == items@);
    out
}

/// Entries after position `i` that do not name `c` do not change what the
/// table gives `c`.
proof fn lemma_last_entry_prefix(entries: Seq<(char, Seq<char>)>, i: int, c: char)
    requires
        0 <= i <= entries.len(),
        forall|j: int| i <= j < entries.len() ==> (#[trigger] entries[j]).0 != c,
    ensures
        last_entry_for(entries, c) == last_entry_for(entries.take(i), c),
    decreases entries.len(),
{
    if i == entries.len() {
        assert(entries.take(i) == entries);
    } else {
        assert(entries[entries.len() - 1].0 != c);
        lemma_last_entry_prefix(entries.drop_last(), i, c);
        assert(entries.drop_last().take(i) == entries.take(i));
    }
}

impl Defects {
    /// The index of the entry that decides the substitutes of `c`, if any.
    fn find(&self, c: char) -> (r: Option<usize>)
        ensures
            r matches Some(k) ==> k < self.entries.len() && self.entries@[k as int].1@
                == self.substitutes(c),
            r is None ==> self.substitutes(c).len() == 0,
    {
        let mut i: usize = self.entries.len();
        while i > 0
            invariant
                i <= self.entries.len(),
                forall|j: int| i <= j < self.table().len() ==> (#[trigger] self.table()[j]).0 != c,
            decreases i,
        {
            if self.entries[i - 1].0 == c {
                proof {
                    let t = self.table();
                    lemma_last_entry_prefix(t, i as int, c);
                    assert(t.take(i as int).drop_last() == t.take(i - 1));
                }
                return Some(i - 1);
            }
            i -= 1;
        }
        proof {
            lemma_last_entry_prefix(self.table(), 0, c);
        }
        None
    }

    /// Whether the table can replace `c`.
    fn is_eligible(&self, c: char) -> (r: bool)
        ensures
            r == (self.substitutes(c).len() > 0),
    {
        match self.find(c) {
            Some(k) => self.entries[k].1.len() > 0,
            None => false,
        }
    }

    /// The eligible positions of `chars`, in increasing order.
    fn eligible_list(&self, chars: &Vec<char>) -> (r: Vec<usize>)
        ensures
            forall|j: int, k: int| 0 <= j < k < r.len() ==> r@[j] < r@[k],
            forall|j: int|
                0 <= j < r.len() ==> #[trigger] r@[j] < chars.len() && self.substitutes(
                    chars@[r@[j] as int],
                ).len() > 0,
            forall|i: int|
                0 <= i < chars.len() && self.substitutes(chars@[i]).len() > 0 ==> r@.contains(
                    i as usize,
                ),
    {
        let mut out: Vec<usize> = Vec::new();
        let mut i: usize = 0;
        while i < chars.len()
            invariant
                i <= chars.len(),
                forall|j: int, k: int| 0 <= j < k < out.len() ==> out@[j] < out@[k],
                forall|j: int|
                    0 <= j < out.len() ==> #[trigger] out@[j] < i && self.substitutes(
                        chars@[out@[j] as int],
                    ).len() > 0,
                forall|p: int|
                    0 <= p < i && self.substitutes(chars@[p]).len() > 0 ==> out@.contains(
                        p as usize,
                    ),
            decreases chars.len() - i,
        {
            let ghost before = out@;
            if self.is_eligible(chars[i]) {
                out.push(i);
                assert(out@[out.len() - 1] == i);
            }
            assert forall|p: int|
                0 <= p <= i && self.substitutes(chars@[p]).len() > 0 implies out@.contains(
                p as usize,
            ) by {
                if p < i {
                    let k = choose|k: int| 0 <= k < before.len() && before[k] == p as usize;
                    assert(out@[k] == p as usize);
                } else {
                    assert(out@[out.len() - 1] == p as usize);
                }
            }
            i += 1;
        }
        out
    }
}

/// The positions listed in strictly increasing order are as many as the set
/// they enumerate.
proof fn lemma_increasing_positions_count(locations: Seq<usize>, positions: Set<int>)
    requires
        forall|j: int, k: int| 0 <= j < k < locations.len() ==> locations[j] < locations[k],
        forall|j: int| 0 <= j < locations.len() ==> positions.contains(#[trigger] locations[j] as int),
        forall|i: int|
            #[trigger] positions.contains(i) ==> exists|k: int|
                0 <= k < locations.len() && locations[k] as int == i,
    ensures
        positions.len() == locations.len(),
        positions.finite(),
{
    let as_ints = Seq::new(locations.len(), |j: int| locations[j] as int);
    assert(as_ints.no_duplicates());
    assert forall|i: int| positions.contains(i) <==> as_ints.to_set().contains(i) by {
        if positions.contains(i) {
            let k = choose|k: int| 0 <= k < locations.len() && locations[k] as int == i;
            assert(as_ints[k] == i);
        }
    }
    assert(positions =~= as_ints.to_set());
    as_ints.unique_seq_to_set();
}

/// A permutation of a list without duplicates has none either, and holds the
/// same elements.
proof fn lemma_permutation_keeps_positions(before: Seq<usize>, after: Seq<usize>)
    requires
        forall|j: int, k: int| 0 <= j < k < before.len() ==> before[j] < before[k],
        after.to_multiset() == before.to_multiset(),
    ensures
        after.no_duplicates(),
        after.len() == before.len(),
        forall|x: usize| after.contains(x) <==> before.contains(x),
{
    before.to_multiset_ensures();
    after.to_multiset_ensures();
    assert(before.no_duplicates());
    before.lemma_multiset_has_no_duplicates();
    after.lemma_multiset_has_no_duplicates_conv();
    assert(after.to_multiset().len() == before.to_multiset().len());
    assert forall|x: usize| after.contains(x) <==> before.contains(x) by {
        assert(after.to_multiset().count(x) == before.to_multiset().count(x));
        assert(after.contains(x) <==> after.to_multiset().count(x) > 0);
        assert(before.contains(x) <==> before.to_multiset().count(x) > 0);
    }
}

impl PasswordGenerator for Defects {
    open spec fn well_formed(&self) -> bool {
        &&& self.min_defects() <= self.max_defects()
        &&& forall|c: char| !(#[trigger] self.substitutes(c)).contains(c)
    }

    open spec fn yields(&self, seed: Seq<char>, out: Seq<char>) -> bool {
        let changed = changed_positions(seed, out);
        &&& out.len() == seed.len()
        &&& forall|i: int|
            0 <= i < seed.len() && out[i] != seed[i] ==> self.substitutes(seed[i]).contains(
                #[trigger] out[i],
            )
        &&& min(self.min_defects() as int, self.eligible_positions(seed).len() as int)
            <= changed.len() <= self.max_defects()
    }

    fn generate_with_seed(&self, rng: &mut ThreadRng, seed: String) -> (r: String) {
        let chars = chars_of(seed.as_str());
        let mut locations = self.eligible_list(&chars);
        let n_possible = locations.len();
        let n_min = if n_possible < self.min_defects {
            n_possible
        } else {
            self.min_defects
        };
        let n_max = if n_possible < self.max_defects {
            n_possible
        } else {
            self.max_defects
        };
        // Every position is a distinct eligible index, so `n_max` stays below
        // `usize::MAX` for any string that fits in memory.
        let n_defects = if n_max < usize::MAX {
            draw_below(rng, n_min, n_max + 1)
        } else {
            n_min
        };
        proof {
            assert forall|p: int| #[trigger]
                self.eligible_positions(seed@).contains(p) implies exists|k: int|
                0 <= k < locations.len() && locations@[k] as int == p by {
                assert(locations@.contains(p as usize));
            }
            lemma_increasing_positions_count(locations@, self.eligible_positions(seed@));
        }
        let ghost sorted = locations@;
        shuffle_in_place(&mut locations, rng);
        proof {
            lemma_permutation_keeps_positions(sorted, locations@);
            assert forall|k: int| 0 <= k < locations.len() implies #[trigger] locations@[k]
                < chars.len() && self.substitutes(chars@[locations@[k] as int]).len() > 0 by {
                assert(locations@.contains(locations@[k]));
                let m = choose|m: int| 0 <= m < sorted.len() && sorted[m] == locations@[k];
                assert(sorted[m] < chars.len());
            }
        }
        let ghost picked = Seq::new(n_defects as nat, |j: int| locations@[j] as int);
        proof {
            assert(picked.no_duplicates());
            picked.unique_seq_to_set();
        }
        // Mark the first `n_defects` shuffled positions.
        let mut marked: Vec<bool> = Vec::new();
        let mut i: usize = 0;
        while i < chars.len()
            invariant
                i <= chars.len(),
                marked.len() == i,
                forall|p: int| 0 <= p < i ==> !marked@[p],
            decreases chars.len() - i,
        {
            marked.push(false);
            i += 1;
        }
        let mut j: usize = 0;
        while j < n_defects
            invariant
                j <= n_defects <= locations.len(),
                marked.len() == chars.len(),
                forall|k: int| 0 <= k < locations.len() ==> #[trigger] locations@[k] < chars.len(),
                forall|p: int|
                    0 <= p < chars.len() ==> (marked@[p] <==> exists|k: int|
                        0 <= k < j && #[trigger] picked[k] == p),
                picked == Seq::new(n_defects as nat, |k: int| locations@[k] as int),
            decreases n_defects - j,
        {
            marked.set(locations[j], true);
            assert(picked[j as int] == locations@[j as int] as int);
            j += 1;
        }
        assert forall|p: int|
            0 <= p < chars.len() && #[trigger] marked@[p] implies self.substitutes(
            chars@[p],
        ).len() > 0 by {
            let k = choose|k: int| 0 <= k < n_defects && #[trigger] picked[k] == p;
            assert(locations@[k] < chars.len());
        }
        // Replace each marked character with one of its substitutes.
        let mut out = String::new();
        let mut i: usize = 0;
        while i < chars.len()
            invariant
                i <= chars.len(),
                marked.len() == chars.len(),
                chars@ == seed@,
                self.well_formed(),
                out@.len() == i,
                forall|p: int|
                    0 <= p < chars.len() && #[trigger] marked@[p] ==> self.substitutes(
                        chars@[p],
                    ).len() > 0,
                forall|p: int|
                    0 <= p < i ==> if marked@[p] {
                        self.substitutes(chars@[p]).contains(#[trigger] out@[p])
                    } else {
                        out@[p] == chars@[p]
                    },
            decreases chars.len() - i,
        {
            let c = chars[i];
            let mut next = c;
            if marked[i] {
                if let Some(k) = self.find(c) {
                    if let Some(x) = choose_from(self.entries[k].1.as_slice(), rng) {
                        next = *x;
                    }
                }
            }
            push_char(&mut out, next);
            i += 1;
        }
        proof {
            let changed = changed_positions(seed@, out@);
            assert forall|p: int| changed.contains(p) <==> picked.to_set().contains(p) by {
                if 0 <= p < chars.len() && marked@[p] {
                    assert(out@[p] != chars@[p]);
                }
            }
            assert(changed =~= picked.to_set());
        }
        out
    }
}

} // verus!

verus! {

/// Whatever the random source draws, defect injection keeps the length of
/// the accumulator, changes at most `max_defects` positions and at least
/// `min_defects` of them (or every eligible one, when there are fewer), and
/// changes only positions whose character the table can replace.
pub proof fn lemma_defect_bounds(d: Defects, seed: Seq<char>, out: Seq<char>)
    requires
        d.well_formed(),
        d.yields(seed, out),
    ensures
        out.len() == seed.len(),
        changed_positions(seed, out).len() <= d.max_defects(),
        changed_positions(seed, out).len() >= min(
            d.min_defects() as int,
            d.eligible_positions(seed).len() as int,
        ),
        forall|i: int| #[trigger]
            changed_positions(seed, out).contains(i) ==> d.substitutes(seed[i]).len() > 0,
{
    assert forall|i: int| #[trigger]
        changed_positions(seed, out).contains(i) implies d.substitutes(seed[i]).len() > 0 by {
        assert(d.substitutes(seed[i]).contains(out[i]));
    }
}

/// With the vowel table and at least one defect asked for, a single
/// lowercase vowel always becomes another vowel; any other single character
/// is left as it is.
pub proof fn lemma_vowel_defect_single(d: Defects, c: char, out: Seq<char>)
    requires
        d.well_formed(),
        forall|x: char| #[trigger] d.substitutes(x) == vowel_substitutes(x),
        d.min_defects() >= 1,
        d.yields(seq![c], out),
    ensures
        vowels().contains(c) ==> out.len() == 1 && out[0] != c && vowels().contains(out[0]),
        !vowels().contains(c) ==> out == seq![c],
{
    let seed = seq![c];
    let changed = changed_positions(seed, out);
    if vowels().contains(c) {
        assert(vowels().filter(differs_from(c)).len() > 0) by {
            broadcast use Seq::lemma_filter_contains;

            let other = if c == 'a' {
                1int
            } else {
                0int
            };
            assert(differs_from(c)(vowels()[other]));
            assert(vowels().filter(differs_from(c)).contains(vowels()[other]));
        }
        assert(d.eligible_positions(seed) =~= set![0int]);
        assert(set![0int].len() == 1);
        if !changed.contains(0) {
            assert(changed =~= Set::empty());
        }
        assert(out[0] != c);
        assert(vowels().filter(differs_from(c)).contains(out[0]));
        broadcast use Seq::lemma_filter_contains_rev;

    } else {
        assert(out =~= seed) by {
            if out[0] != c {
                assert(d.substitutes(c).contains(out[0]));
            }
        }
    }
}

} // verus!
