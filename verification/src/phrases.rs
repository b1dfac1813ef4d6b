//! Known phrases, and finding them in a list of words.

use vstd::prelude::*;

use crate::text::{same, slices, texts};

verus! {

/// A phrase and the form it stands for.
#[derive(Debug)]
pub struct Phrase {
    pub words: Vec<&'static str>,
    pub canonical: &'static str,
}

/// A phrase, as what it says.
pub ghost struct PhraseView {
    pub words: Seq<Seq<char>>,
    pub canonical: Seq<char>,
}

impl Phrase {
    pub open spec fn view(self) -> PhraseView {
        PhraseView { words: slices(self.words@), canonical: self.canonical@ }
    }
}

/// The phrases of a list, as what they say.
pub open spec fn phrase_views(v: Seq<Phrase>) -> Seq<PhraseView> {
    v.map_values(|p: Phrase| p@)
}

/// A phrase of one word.
pub open spec fn phrase1(a: Seq<char>, canonical: Seq<char>) -> PhraseView {
    PhraseView { words: seq![a], canonical }
}

/// A phrase of two words.
pub open spec fn phrase2(a: Seq<char>, b: Seq<char>, canonical: Seq<char>) -> PhraseView {
    PhraseView { words: seq![a, b], canonical }
}

/// A phrase of three words.
pub open spec fn phrase3(a: Seq<char>, b: Seq<char>, c: Seq<char>, canonical: Seq<char>) -> PhraseView {
    PhraseView { words: seq![a, b, c], canonical }
}

pub fn one(a: &'static str, canonical: &'static str) -> (r: Phrase)
    ensures
        r@ == phrase1(a@, canonical@),
{
    let words = vec![a];
    assert(slices(words@) =~= seq![a@]);
    Phrase { words, canonical }
}

pub fn two(a: &'static str, b: &'static str, canonical: &'static str) -> (r: Phrase)
    ensures
        r@ == phrase2(a@, b@, canonical@),
{
    let words = vec![a, b];
    assert(slices(words@) =~= seq![a@, b@]);
    Phrase { words, canonical }
}

pub fn three(a: &'static str, b: &'static str, c: &'static str, canonical: &'static str) -> (r:
    Phrase)
    ensures
        r@ == phrase3(a@, b@, c@, canonical@),
{
    let words = vec![a, b, c];
    assert(slices(words@) =~= seq![a@, b@, c@]);
    Phrase { words, canonical }
}

/// Whether the words stand in the list from place `at` on, and end before
/// `limit`.
pub open spec fn stands_at(
    tokens: Seq<Seq<char>>,
    at: int,
    limit: int,
    words: Seq<Seq<char>>,
) -> bool {
    &&& 0 <= at
    &&& at + words.len() <= limit
    &&& limit <= tokens.len()
    &&& tokens.subrange(at, at + words.len()) == words
}

/// Whether the words of the phrase stand in the list from place `at` on, and
/// end before `limit`.
pub fn is_at(tokens: &Vec<String>, at: usize, limit: usize, phrase: &Phrase) -> (r: bool)
    requires
        at <= limit <= tokens@.len(),
    ensures
        r == stands_at(texts(tokens@), at as int, limit as int, phrase@.words),
{
    let n = phrase.words.len();
    if limit - at < n {
        return false;
    }
    let ghost all = texts(tokens@);
    let ghost words = phrase@.words;
    let mut i: usize = 0;
    while i < n
        invariant
            i <= n,
            n == words.len(),
            n == phrase.words@.len(),
            words == slices(phrase.words@),
            all == texts(tokens@),
            at + n <= limit <= tokens@.len(),
            all.subrange(at as int, at + i) == words.take(i as int),
        decreases n - i,
    {
        if !same(tokens[at + i].as_str(), phrase.words[i]) {
            proof {
                if all.subrange(at as int, at + n) == words {
                    assert(all.subrange(at as int, at + n)[i as int] == words[i as int]);
                }
            }
            return false;
        }
        assert(all.subrange(at as int, at + i + 1) =~= all.subrange(at as int, at + i).push(
            all[at + i],
        ));
        assert(words.take(i + 1) =~= words.take(i as int).push(words[i as int]));
        i = i + 1;
    }
    assert(words.take(n as int) =~= words);
    true
}

/// Words stand at a place where each of them is the word there, and the last of
/// them stands before the limit.
pub proof fn words_stand_one_by_one(
    tokens: Seq<Seq<char>>,
    at: int,
    limit: int,
    words: Seq<Seq<char>>,
)
    requires
        0 <= at,
        limit <= tokens.len(),
    ensures
        stands_at(tokens, at, limit, words) <==> at + words.len() <= limit && forall|k: int|
            0 <= k < words.len() ==> tokens[at + k] == #[trigger] words[k],
{
    if at + words.len() <= limit {
        let piece = tokens.subrange(at, at + words.len());
        if forall|k: int| 0 <= k < words.len() ==> tokens[at + k] == #[trigger] words[k] {
            assert(piece =~= words);
        }
        if piece == words {
            assert forall|k: int| 0 <= k < words.len() implies tokens[at + k]
                == #[trigger] words[k] by {
                assert(piece[k] == tokens[at + k]);
            }
        }
    }
}

} // verus!
