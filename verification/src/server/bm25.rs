//! The query half of lexical scoring.
//!
//! Documents are vectorised elsewhere; the two halves must split words
//! identically, so a vocabulary built with another splitter is refused.

use vstd::prelude::*;
use vstd::string::*;

use crate::order::{picks, picks_one_more};
use crate::score::{Score, ONE_BITS};
use crate::text::{alphanumeric, are_runs, ascii, ascii_alphanumeric, ascii_lower, chars_of, is_plain, list_contains, lower_chars, lowered_chars, places, spans, spans_are_maximal_runs, spans_are_runs, spans_cover_every_word_character, spans_from, spans_of_joined_texts, spans_stand_in_order, string_of, texts, word_char, word_spans, words};
use crate::textmap::{increasing, TextMap};

verus! {

/// The words of a text with each character made small, in order of appearance.
pub open spec fn small_words(s: Seq<char>) -> Seq<Seq<char>> {
    spans(s, Some('_')).map_values(|p: (int, int)| lowered_chars(s.subrange(p.0, p.1)))
}

/// The words among the first `n` that have two characters or more.
pub open spec fn long_upto(all: Seq<Seq<char>>, n: int) -> Seq<Seq<char>>
    decreases n,
{
    if n <= 0 {
        Seq::empty()
    } else if all[n - 1].len() >= 2 {
        long_upto(all, n - 1).push(all[n - 1])
    } else {
        long_upto(all, n - 1)
    }
}

/// The tokens of a text: runs of alphanumeric characters or underscores, made
/// small, of two characters or more.
pub open spec fn tokens_of(s: Seq<char>) -> Seq<Seq<char>> {
    long_upto(small_words(s), small_words(s).len() as int)
}

/// An ASCII letter, digit or underscore.
pub open spec fn ascii_word(c: char) -> bool {
    ascii_alphanumeric(c) || c == '_'
}

/// Whether these are the places of the longest runs of ASCII letters, digits
/// and underscores, all of them, in order.
pub open spec fn are_ascii_runs(s: Seq<char>, p: Seq<(int, int)>) -> bool {
    &&& forall|k: int|
        0 <= k < p.len() ==> {
            &&& 0 <= (#[trigger] p[k]).0 < p[k].1 <= s.len()
            &&& forall|m: int| p[k].0 <= m < p[k].1 ==> ascii_word(#[trigger] s[m])
            &&& p[k].0 == 0 || !ascii_word(s[p[k].0 - 1])
            &&& p[k].1 == s.len() || !ascii_word(s[p[k].1])
        }
    &&& forall|j: int, k: int|
        #![trigger p[j], p[k]]
        0 <= j < k < p.len() ==> p[j].1 <= p[k].0
    &&& forall|i: int|
        0 <= i < s.len() && ascii_word(#[trigger] s[i]) ==> exists|k: int|
            0 <= k < p.len() && (#[trigger] p[k]).0 <= i < p[k].1
}

/// The runs at these places that have two characters or more, made small.
pub open spec fn ascii_tokens(s: Seq<char>, p: Seq<(int, int)>) -> Seq<Seq<char>> {
    long_upto(
        p.map_values(
            |q: (int, int)| s.subrange(q.0, q.1).map_values(|c: char| ascii_lower(c)),
        ),
        p.len() as int,
    )
}

/// The tokens of a text: runs of alphanumeric characters or underscores, made
/// small, of two characters or more. On ASCII these are the longest runs of
/// letters, digits and underscores.
pub fn tokenize(text: &str) -> (r: Vec<String>)
    ensures
        texts(r@) == tokens_of(text@),
        ascii(text@) ==> exists|p: Seq<(int, int)>| #[trigger]
            are_ascii_runs(text@, p) && texts(r@) == ascii_tokens(text@, p),
        ascii(text@) ==> exists|p: Seq<(int, int)>| #[trigger]
            are_runs(text@, p, Some('_')) && texts(r@) == ascii_tokens(text@, p),
{
    let chars = chars_of(text);
    let found = word_spans(&chars, Some('_'));
    let ghost all = small_words(chars@);
    let mut out: Vec<String> = Vec::new();
    let mut i: usize = 0;
    assert(texts(out@) =~= Seq::<Seq<char>>::empty());
    while i < found.len()
        invariant
            i <= found@.len(),
            places(found@) == spans(chars@, Some('_')),
            all == small_words(chars@),
            all.len() == found@.len(),
            forall|k: int|
                0 <= k < found@.len() ==> (#[trigger] found@[k]).start < found@[k].end
                    <= chars@.len(),
            texts(out@) == long_upto(all, i as int),
            ascii(chars@) ==> forall|k: int|
                0 <= k < i ==> #[trigger] all[k] == chars@.subrange(
                    found@[k].start as int,
                    found@[k].end as int,
                ).map_values(|c: char| ascii_lower(c)),
        decreases found@.len() - i,
    {
        let p = found[i];
        assert(places(found@)[i as int] == (p.start as int, p.end as int));
        let low = lower_chars(&chars, p.start, p.end);
        assert(all[i as int] == low@);
        let ghost before = texts(out@);
        if low.len() >= 2 {
            assert(low@.subrange(0, low@.len() as int) =~= low@);
            out.push(string_of(&low, 0, low.len()));
            assert(texts(out@) =~= before.push(low@));
        }
        i = i + 1;
    }
    assert(places(found@).len() == found@.len());
    proof {
        if ascii(chars@) {
            let p = spans(chars@, Some('_'));
            ascii_spans_are_runs(chars@);
            spans_are_runs(chars@, Some('_'));
            assert(p.map_values(
                |q: (int, int)| chars@.subrange(q.0, q.1).map_values(|c: char| ascii_lower(c)),
            ) =~= all) by {
                assert forall|k: int| 0 <= k < p.len() implies #[trigger] all[k] == chars@.subrange(
                    p[k].0,
                    p[k].1,
                ).map_values(|c: char| ascii_lower(c)) by {
                    assert(places(found@)[k] == (found@[k].start as int, found@[k].end as int));
                }
            }
        }
    }
    out
}

proof fn ascii_spans_are_runs(s: Seq<char>)
    requires
        ascii(s),
        forall|k: int| 0 <= k < s.len() ==> is_plain(#[trigger] s[k]),
    ensures
        are_ascii_runs(s, spans(s, Some('_'))),
{
    let p = spans(s, Some('_'));
    assert forall|k: int| 0 <= k < s.len() implies word_char(#[trigger] s[k], Some('_'))
        == ascii_word(s[k]) by {
        assert(is_plain(s[k]));
    }
    spans_are_maximal_runs(s, Some('_'), 0);
    assert forall|k: int| 0 <= k < p.len() implies {
        &&& 0 <= (#[trigger] p[k]).0 < p[k].1 <= s.len()
        &&& forall|m: int| p[k].0 <= m < p[k].1 ==> ascii_word(#[trigger] s[m])
        &&& p[k].0 == 0 || !ascii_word(s[p[k].0 - 1])
        &&& p[k].1 == s.len() || !ascii_word(s[p[k].1])
    } by {
        assert(spans_from(s, Some('_'), 0)[k] == p[k]);
    }
    spans_stand_in_order(s, Some('_'), 0);
    assert forall|i: int| 0 <= i < s.len() && ascii_word(#[trigger] s[i]) implies exists|k: int|
        0 <= k < p.len() && (#[trigger] p[k]).0 <= i < p[k].1 by {
        spans_cover_every_word_character(s, Some('_'), 0, i);
    }
}

/// The tokens of two texts with a character between them that belongs to no
/// word are those of the one and then those of the other, in order and with
/// repeats.
pub proof fn tokens_of_joined_texts(a: Seq<char>, c: char, b: Seq<char>)
    requires
        !alphanumeric(c),
        c != '_',
    ensures
        tokens_of(a.push(c) + b) == tokens_of(a) + tokens_of(b),
{
    let s = a.push(c) + b;
    spans_of_joined_texts(a, c, b, Some('_'));
    assert(small_words(s) =~= small_words(a) + small_words(b)) by {
        let x = words(a, Some('_'));
        let y = words(b, Some('_'));
        assert(small_words(s) =~= words(s, Some('_')).map_values(
            |w: Seq<char>| lowered_chars(w),
        ));
        assert(small_words(a) =~= x.map_values(|w: Seq<char>| lowered_chars(w)));
        assert(small_words(b) =~= y.map_values(|w: Seq<char>| lowered_chars(w)));
    }
    long_words_of_both(small_words(a), small_words(b), small_words(b).len() as int);
}

proof fn long_words_of_both(x: Seq<Seq<char>>, y: Seq<Seq<char>>, n: int)
    requires
        0 <= n <= y.len(),
    ensures
        long_upto(x + y, x.len() + n) == long_upto(x, x.len() as int) + long_upto(y, n),
    decreases n,
{
    if n > 0 {
        long_words_of_both(x, y, n - 1);
        assert((x + y)[x.len() + n - 1] == y[n - 1]);
        let front = long_upto(x, x.len() as int);
        if y[n - 1].len() >= 2 {
            assert((front + long_upto(y, n - 1)).push(y[n - 1]) =~= front + long_upto(
                y,
                n - 1,
            ).push(y[n - 1]));
        }
    } else {
        long_words_of_a_prefix(x, y, x.len() as int);
        assert(long_upto(x, x.len() as int) + Seq::<Seq<char>>::empty() =~= long_upto(
            x,
            x.len() as int,
        ));
    }
}

proof fn long_words_of_a_prefix(x: Seq<Seq<char>>, y: Seq<Seq<char>>, n: int)
    requires
        0 <= n <= x.len(),
    ensures
        long_upto(x + y, n) == long_upto(x, n),
    decreases n,
{
    if n > 0 {
        long_words_of_a_prefix(x, y, n - 1);
        assert((x + y)[n - 1] == x[n - 1]);
    }
}

/// Every token has two characters or more.
pub proof fn tokens_have_two_characters(s: Seq<char>, i: int)
    requires
        0 <= i < tokens_of(s).len(),
    ensures
        tokens_of(s)[i].len() >= 2,
{
    long_words_are_long(small_words(s), small_words(s).len() as int);
}

proof fn long_words_are_long(all: Seq<Seq<char>>, n: int)
    ensures
        forall|i: int| 0 <= i < long_upto(all, n).len() ==> (#[trigger] long_upto(all, n)[i]).len() >= 2,
    decreases n,
{
    if n > 0 {
        long_words_are_long(all, n - 1);
        let s = long_upto(all, n - 1);
        let t = long_upto(all, n);
        assert forall|i: int| 0 <= i < t.len() implies (#[trigger] t[i]).len() >= 2 by {
            if i < s.len() {
                assert(t[i] == s[i]);
            }
        }
    }
}

/// The texts of a list, each once, in dictionary order.
pub fn distinct_sorted(v: &Vec<String>) -> (r: Vec<String>)
    ensures
        increasing(texts(r@)),
        forall|t: Seq<char>| texts(r@).contains(t) == texts(v@).contains(t),
{
    let mut seen: TextMap<bool> = TextMap::new();
    let ghost all = texts(v@);
    let mut i: usize = 0;
    while i < v.len()
        invariant
            i <= v@.len(),
            all == texts(v@),
            forall|t: Seq<char>| #[trigger] seen@.contains_key(t) == all.take(i as int).contains(t),
        decreases v@.len() - i,
    {
        let ghost was = seen@;
        seen.insert(v[i].clone(), true);
        proof {
            let a = all.take(i as int);
            let b = all.take(i + 1);
            assert(b =~= a.push(all[i as int]));
            assert forall|t: Seq<char>| #[trigger] seen@.contains_key(t) == b.contains(t) by {
                if a.contains(t) {
                    let k = a.index_of(t);
                    assert(b[k] == t);
                }
                if t == all[i as int] {
                    assert(b[i as int] == t);
                }
                if b.contains(t) {
                    let k = b.index_of(t);
                    if k < i {
                        assert(a[k] == t);
                    }
                }
            }
        }
        i = i + 1;
    }
    assert(all.take(i as int) =~= all);
    let n = seen.len();
    let ghost keys = seen.keys();
    let mut out: Vec<String> = Vec::new();
    let mut k: usize = 0;
    assert(texts(out@) =~= keys.take(0));
    while k < n
        invariant
            k <= n,
            n == seen.keys().len(),
            keys == seen.keys(),
            texts(out@) == keys.take(k as int),
        decreases n - k,
    {
        let ghost before = texts(out@);
        out.push(seen.key(k).clone());
        assert(texts(out@) =~= before.push(keys[k as int]));
        assert(texts(out@) =~= keys.take(k + 1));
        k = k + 1;
    }
    assert(texts(out@) =~= keys);
    assert forall|t: Seq<char>| texts(out@).contains(t) == texts(v@).contains(t) by {
        assert(seen@.contains_key(t) == seen.has(t));
    }
    out
}

/// Every number is greater than every earlier one.
pub open spec fn ascending(s: Seq<u32>) -> bool {
    forall|i: int, j: int| #![trigger s[i], s[j]] 0 <= i < j < s.len() ==> s[i] < s[j]
}

/// Adds a number to an ascending list unless it is there.
fn add_index(list: &mut Vec<u32>, x: u32)
    requires
        ascending(old(list)@),
    ensures
        ascending(final(list)@),
        forall|y: u32| final(list)@.contains(y) == (y == x || old(list)@.contains(y)),
{
    let mut i: usize = 0;
    while i < list.len() && list[i] < x
        invariant
            i <= list@.len(),
            list@ == old(list)@,
            forall|k: int| 0 <= k < i ==> (#[trigger] list@[k]) < x,
        decreases list@.len() - i,
    {
        i = i + 1;
    }
    let ghost before = list@;
    if i < list.len() && list[i] == x {
        assert(before[i as int] == x);
        return;
    }
    list.insert(i, x);
    proof {
        let after = list@;
        assert(after =~= before.insert(i as int, x));
        assert forall|a: int, b: int|
            #![trigger after[a], after[b]]
            0 <= a < b < after.len() implies after[a] < after[b] by {
            let p = if a < i { a } else { a - 1 };
            let q = if b < i { b } else { b - 1 };
            if a != i { assert(after[a] == before[p]); }
            if b != i { assert(after[b] == before[q]); }
            if a == i {
                assert(before[i as int] > x);
                assert(before[q] >= before[i as int]);
            }
        }
        assert forall|y: u32| after.contains(y) == (y == x || before.contains(y)) by {
            if before.contains(y) {
                let k = before.index_of(y);
                let m = if k < i { k } else { k + 1 };
                assert(after[m] == y);
            }
            if y == x {
                assert(after[i as int] == y);
            }
            if after.contains(y) {
                let m = after.index_of(y);
                if m != i {
                    let k = if m < i { m } else { m - 1 };
                    assert(before[k] == y);
                }
            }
        }
    }
}

/// The indices of a sparse vector.
pub open spec fn indices(v: Seq<(u32, Score)>) -> Seq<u32> {
    v.map_values(|e: (u32, Score)| e.0)
}

/// A vocabulary as it travels with a corpus.
#[derive(Debug)]
pub struct Artifact {
    pub dim: u32,
    pub token_pattern: String,
    pub vocab: TextMap<u32>,
    /// How much each term distinguishes documents.
    pub idf: TextMap<Score>,
}

/// Why a vocabulary is refused.
#[derive(Debug, PartialEq, Eq)]
pub enum Bm25Error {
    /// It was built with another splitter: query terms would map to the wrong
    /// indices.
    TokenizerDrift { artifact: String, engine: &'static str },
}

/// The token pattern that [`tokenize`] implements.
pub const ENGINE_TOKEN_PATTERN: &'static str = "(?u)\\b\\w\\w+\\b";

/// A loaded vocabulary, sufficient to project a query into the sparse space.
#[derive(Debug)]
pub struct QueryVectorizer {
    pub vocab: TextMap<u32>,
    pub idf: TextMap<Score>,
    /// What a term that the corpus has never seen is charged: as much as any
    /// known one, since it is the strongest evidence against the corpus.
    pub unknown_idf: Score,
    pub dim: u32,
}

/// The greatest of the first `n` numbers, and not below zero.
pub open spec fn greatest_upto(v: Seq<Score>, n: int) -> Score
    decreases n,
{
    if n <= 0 {
        Score { bits: 0 }
    } else {
        greatest_upto(v, n - 1).max_spec(v[n - 1])
    }
}

/// A query term, what it is worth, and whether the documents hold it.
#[derive(Debug, PartialEq)]
pub struct EvidenceTerm {
    pub weight: Score,
    pub found: bool,
}

/// Whether one of the first `n` texts holds a token.
pub open spec fn token_in(docs: Seq<String>, t: Seq<char>, n: int) -> bool {
    exists|i: int| 0 <= i < n && tokens_of((#[trigger] docs[i])@).contains(t)
}

impl QueryVectorizer {
    /// What a term is worth.
    pub open spec fn worth(self, t: Seq<char>) -> Score {
        if self.idf.has(t) {
            self.idf.at(t)
        } else {
            self.unknown_idf
        }
    }

    /// Whether one of the first `n` tokens has that index.
    pub open spec fn has_index(self, tokens: Seq<Seq<char>>, x: u32, n: int) -> bool {
        exists|k: int|
            0 <= k < n && self.vocab.has(#[trigger] tokens[k]) && self.vocab.at(tokens[k]) == x
    }

    /// Takes over a vocabulary, unless it was built with another splitter.
    pub fn load(artifact: Artifact) -> (r: Result<QueryVectorizer, Bm25Error>)
        ensures
            r is Ok == (artifact.token_pattern@ == ENGINE_TOKEN_PATTERN@),
            match r {
                Ok(q) => {
                    &&& q.vocab == artifact.vocab
                    &&& q.idf == artifact.idf
                    &&& q.dim == artifact.dim
                    &&& q.unknown_idf == greatest_upto(
                        artifact.idf.values(),
                        artifact.idf.values().len() as int,
                    )
                },
                Err(Bm25Error::TokenizerDrift { artifact: a, engine }) => a
                    == artifact.token_pattern && engine@ == ENGINE_TOKEN_PATTERN@,
            },
    {
        if !crate::text::same(artifact.token_pattern.as_str(), ENGINE_TOKEN_PATTERN) {
            return Err(
                Bm25Error::TokenizerDrift {
                    artifact: artifact.token_pattern,
                    engine: ENGINE_TOKEN_PATTERN,
                },
            );
        }
        let n = artifact.idf.len();
        let mut unknown_idf = Score { bits: 0 };
        let mut i: usize = 0;
        while i < n
            invariant
                i <= n,
                n == artifact.idf.keys().len(),
                n == artifact.idf.values().len(),
                unknown_idf == greatest_upto(artifact.idf.values(), i as int),
            decreases n - i,
        {
            unknown_idf = unknown_idf.max(*artifact.idf.value(i));
            i = i + 1;
        }
        Ok(
            QueryVectorizer {
                vocab: artifact.vocab,
                idf: artifact.idf,
                unknown_idf,
                dim: artifact.dim,
            },
        )
    }

    pub fn dim(&self) -> (r: u32)
        ensures
            r == self.dim,
    {
        self.dim
    }

    /// The distinct terms of a query in dictionary order, each with what it is
    /// worth and whether one of the texts holds it. The share of the worth
    /// that was found is the lexical evidence: what an out-of-domain question
    /// lacks is any document where its distinctive terms appear together.
    pub fn evidence(&self, query: &str, documents: &Vec<String>) -> (r: Vec<EvidenceTerm>)
        ensures
            exists|terms: Seq<Seq<char>>| #[trigger]
                is_term_list(terms, query@) && r@.len() == terms.len() && forall|i: int|
                0 <= i < terms.len() ==> (#[trigger] r@[i]).weight == self.worth(terms[i])
                    && r@[i].found == token_in(
                    documents@,
                    terms[i],
                    documents@.len() as int,
                ),
    {
        let tokens = tokenize(query);
        let terms = distinct_sorted(&tokens);
        let ghost list = texts(terms@);
        assert(is_term_list(list, query@));
        let mut pooled: Vec<String> = Vec::new();
        let mut d: usize = 0;
        while d < documents.len()
            invariant
                d <= documents@.len(),
                forall|t: Seq<char>|
                    #[trigger] texts(pooled@).contains(t) == token_in(documents@, t, d as int),
            decreases documents@.len() - d,
        {
            let mut more = tokenize(documents[d].as_str());
            let ghost a = texts(pooled@);
            let ghost b = texts(more@);
            pooled.append(&mut more);
            proof {
                let c = texts(pooled@);
                assert(c =~= a + b);
                assert forall|t: Seq<char>| #[trigger] c.contains(t) == token_in(
                    documents@,
                    t,
                    d + 1,
                ) by {
                    if c.contains(t) {
                        let k = c.index_of(t);
                        if k < a.len() {
                            assert(a[k] == t);
                            assert(a.contains(t));
                        } else {
                            assert(b[k - a.len()] == t);
                            assert(tokens_of(documents@[d as int]@).contains(t));
                        }
                    }
                    if token_in(documents@, t, d + 1) {
                        if a.contains(t) {
                            let k = a.index_of(t);
                            assert(c[k] == t);
                        } else {
                            assert(!token_in(documents@, t, d as int));
                            assert(tokens_of(documents@[d as int]@).contains(t));
                            let k = b.index_of(t);
                            assert(c[k + a.len()] == t);
                        }
                    }
                }
            }
            d = d + 1;
        }
        let mut out: Vec<EvidenceTerm> = Vec::new();
        let mut i: usize = 0;
        while i < terms.len()
            invariant
                i <= terms@.len(),
                list == texts(terms@),
                out@.len() == i,
                forall|t: Seq<char>|
                    #[trigger] texts(pooled@).contains(t) == token_in(
                        documents@,
                        t,
                        documents@.len() as int,
                    ),
                forall|k: int|
                    0 <= k < i ==> (#[trigger] out@[k]).weight == self.worth(list[k])
                        && out@[k].found == token_in(
                        documents@,
                        list[k],
                        documents@.len() as int,
                    ),
            decreases terms@.len() - i,
        {
            assert(list[i as int] == terms@[i as int]@);
            let weight = match self.idf.get(terms[i].as_str()) {
                Some(w) => *w,
                None => self.unknown_idf,
            };
            let found = list_contains(&pooled, terms[i].as_str());
            out.push(EvidenceTerm { weight, found });
            i = i + 1;
        }
        out
    }

    /// Projects a query into indices, each with the weight one. Terms that the
    /// vocabulary lacks are dropped; a repeated term counts once.
    pub fn query(&self, text: &str) -> (r: Vec<(u32, Score)>)
        ensures
            forall|i: int| 0 <= i < r@.len() ==> (#[trigger] r@[i]).1.bits == ONE_BITS,
            ascending(indices(r@)),
            forall|x: u32|
                #[trigger] indices(r@).contains(x) == self.has_index(
                    tokens_of(text@),
                    x,
                    tokens_of(text@).len() as int,
                ),
    {
        let tokens = tokenize(text);
        let ghost all = tokens_of(text@);
        let mut indices: Vec<u32> = Vec::new();
        let mut i: usize = 0;
        while i < tokens.len()
            invariant
                i <= tokens@.len(),
                all == texts(tokens@),
                ascending(indices@),
                forall|x: u32|
                    #[trigger] indices@.contains(x) == self.has_index(all, x, i as int),
            decreases tokens@.len() - i,
        {
            assert(all[i as int] == tokens@[i as int]@);
            let ghost before = indices@;
            match self.vocab.get(tokens[i].as_str()) {
                Some(index) => {
                    add_index(&mut indices, *index);
                    assert forall|x: u32| #[trigger] indices@.contains(x) == self.has_index(
                        all,
                        x,
                        i + 1,
                    ) by {
                        if x == *index {
                            assert(self.vocab.has(all[i as int]) && self.vocab.at(all[i as int])
                                == x);
                        }
                        assert(indices@.contains(x) == (x == *index || before.contains(x)));
                        assert(before.contains(x) == self.has_index(all, x, i as int));
                    }
                },
                None => {
                    assert forall|x: u32| #[trigger] indices@.contains(x) == self.has_index(
                        all,
                        x,
                        i + 1,
                    ) by {
                        assert(!self.vocab.has(all[i as int]));
                        assert(before.contains(x) == self.has_index(all, x, i as int));
                    }
                },
            }
            i = i + 1;
        }
        let mut out: Vec<(u32, Score)> = Vec::new();
        let mut k: usize = 0;
        while k < indices.len()
            invariant
                k <= indices@.len(),
                out@.len() == k,
                forall|m: int|
                    0 <= m < k ==> (#[trigger] out@[m]).1.bits == ONE_BITS && out@[m].0
                        == indices@[m],
            decreases indices@.len() - k,
        {
            out.push((indices[k], Score { bits: ONE_BITS }));
            k = k + 1;
        }
        assert(self::indices(out@) =~= indices@);
        out
    }
}

/// The distinct tokens of a query, in dictionary order.
pub open spec fn is_term_list(terms: Seq<Seq<char>>, query: Seq<char>) -> bool {
    &&& increasing(terms)
    &&& forall|t: Seq<char>| terms.contains(t) == tokens_of(query).contains(t)
}

/// A query has one list of distinct terms.
pub proof fn term_lists_agree(a: Seq<Seq<char>>, b: Seq<Seq<char>>, query: Seq<char>)
    requires
        is_term_list(a, query),
        is_term_list(b, query),
    ensures
        a == b,
{
    crate::textmap::increasing_lists_agree(a, b);
}

/// What is said of a refused vocabulary, with the two patterns quoted.
pub open spec fn drift_text(artifact: Seq<char>, engine: Seq<char>) -> Seq<char> {
    "vocabulary was built with tokeniser "@ + artifact + " but this engine uses "@ + engine
        + " · query terms would map to the wrong indices · refusing"@
}

impl Bm25Error {
    /// The message for the operator.
    pub fn message(&self) -> (r: String)
        ensures
            match self {
                Bm25Error::TokenizerDrift { artifact, engine } => r@ == drift_text(
                    crate::quote::quoted_text(artifact@),
                    crate::quote::quoted_text(engine@),
                ),
            },
    {
        match self {
            Bm25Error::TokenizerDrift { artifact, engine } => {
                let mut out = "vocabulary was built with tokeniser ".to_owned();
                let a = crate::quote::quote(artifact.as_str());
                out.append(a.as_str());
                out.append(" but this engine uses ");
                let e = crate::quote::quote(engine);
                out.append(e.as_str());
                out.append(" · query terms would map to the wrong indices · refusing");
                out
            },
        }
    }
}

// ---------------------------------------------------------------------------
// What tokens and weights satisfy
// ---------------------------------------------------------------------------

/// The tokens of a text are its words of two characters or more, and no
/// others. `q` says which word each token is: they keep their order, and a
/// repeated word stays repeated.
pub proof fn every_long_word_is_a_token(s: Seq<char>) -> (q: Seq<int>)
    ensures
        picks(q, small_words(s).len() as int, |i: int| small_words(s)[i].len() > 1),
        tokens_of(s).len() == q.len(),
        forall|k: int| 0 <= k < q.len() ==> tokens_of(s)[k] == small_words(s)[#[trigger] q[k]],
{
    long_places(small_words(s), small_words(s).len() as int)
}

/// The same of the runs of an ASCII text: a run of one character is no token.
pub proof fn every_long_run_is_a_token(s: Seq<char>, p: Seq<(int, int)>) -> (q: Seq<int>)
    requires
        forall|k: int| 0 <= k < p.len() ==> 0 <= (#[trigger] p[k]).0 < p[k].1 <= s.len(),
    ensures
        picks(q, p.len() as int, |i: int| p[i].0 + 1 < p[i].1),
        ascii_tokens(s, p).len() == q.len(),
        forall|k: int|
            0 <= k < q.len() ==> {
                let run = p[#[trigger] q[k]];
                &&& ascii_tokens(s, p)[k].len() == run.1 - run.0
                &&& forall|m: int|
                    0 <= m < run.1 - run.0 ==> #[trigger] ascii_tokens(s, p)[k][m] == ascii_lower(
                        s[run.0 + m],
                    )
            },
{
    let all = p.map_values(
        |q: (int, int)| s.subrange(q.0, q.1).map_values(|c: char| ascii_lower(c)),
    );
    let q = long_places(all, p.len() as int);
    let f = |i: int| all[i].len() > 1;
    let g = |i: int| p[i].0 + 1 < p[i].1;
    assert forall|k: int| 0 <= k < q.len() implies g(#[trigger] q[k]) by {
        assert(f(q[k]));
        assert(0 <= p[q[k]].0);
    }
    assert forall|i: int| 0 <= i < p.len() && #[trigger] g(i) implies q.contains(i) by {
        assert(0 <= p[i].0);
        assert(f(i));
    }
    q
}

proof fn long_places(all: Seq<Seq<char>>, n: int) -> (q: Seq<int>)
    requires
        0 <= n <= all.len(),
    ensures
        picks(q, n, |i: int| all[i].len() > 1),
        long_upto(all, n).len() == q.len(),
        forall|k: int| 0 <= k < q.len() ==> long_upto(all, n)[k] == all[#[trigger] q[k]],
    decreases n,
{
    if n <= 0 {
        Seq::empty()
    } else {
        let q = long_places(all, n - 1);
        picks_one_more(q, n - 1, |i: int| all[i].len() > 1)
    }
}

/// The charge for a term that a vocabulary lacks: it is zero or one of the
/// known weights, it is not below zero, and no known weight is above it.
pub proof fn the_greatest_weight_is_not_exceeded(v: Seq<Score>, n: int)
    requires
        0 <= n <= v.len(),
    ensures
        !greatest_upto(v, n).nan(),
        !greatest_upto(v, n).lt_spec(Score { bits: 0 }),
        greatest_upto(v, n).bits == 0 || exists|i: int|
            0 <= i < n && #[trigger] v[i] == greatest_upto(v, n),
        forall|i: int| 0 <= i < n ==> !greatest_upto(v, n).lt_spec(#[trigger] v[i]),
    decreases n,
{
    if n > 0 {
        the_greatest_weight_is_not_exceeded(v, n - 1);
        let g = greatest_upto(v, n - 1);
        if g != greatest_upto(v, n) {
            assert(v[n - 1] == greatest_upto(v, n));
        } else if g.bits != 0 {
            let i = choose|i: int| 0 <= i < n - 1 && #[trigger] v[i] == g;
            assert(v[i] == greatest_upto(v, n));
        }
    }
}

/// A known term is worth its own weight, and an unknown one at least as much
/// as any known one.
pub proof fn an_unknown_term_weighs_most(q: QueryVectorizer, known: Seq<char>, unknown: Seq<char>)
    requires
        q.unknown_idf == greatest_upto(q.idf.values(), q.idf.values().len() as int),
        q.idf.keys().len() == q.idf.values().len(),
        q.idf.has(known),
        !q.idf.has(unknown),
    ensures
        q.worth(known) == q.idf.at(known),
        !q.worth(unknown).lt_spec(q.worth(known)),
{
    the_greatest_weight_is_not_exceeded(q.idf.values(), q.idf.values().len() as int);
    let i = q.idf.keys().index_of(known);
    assert(q.idf.keys()[i] == known);
}

/// Texts hold a term where one of them has it among its tokens.
pub proof fn a_term_is_found_in_any_of_the_texts(docs: Seq<String>, t: Seq<char>)
    ensures
        forall|i: int|
            0 <= i < docs.len() && tokens_of((#[trigger] docs[i])@).contains(t) ==> token_in(
                docs,
                t,
                docs.len() as int,
            ),
        token_in(docs, t, docs.len() as int) ==> exists|i: int|
            0 <= i < docs.len() && tokens_of((#[trigger] docs[i])@).contains(t),
{
}

/// A query hits the indices of its known tokens, all of them and no others.
pub proof fn every_known_token_is_projected(q: QueryVectorizer, tokens: Seq<Seq<char>>, k: int)
    requires
        0 <= k < tokens.len(),
        q.vocab.has(tokens[k]),
    ensures
        q.has_index(tokens, q.vocab.at(tokens[k]), tokens.len() as int),
        forall|x: u32|
            #[trigger] q.has_index(tokens, x, tokens.len() as int) ==> exists|j: int|
                0 <= j < tokens.len() && q.vocab.has(#[trigger] tokens[j]) && q.vocab.at(tokens[j])
                    == x,
{
}

} // verus!
