//! The recipe that produced a corpus, and vectors in their text form.

use vstd::prelude::*;
use vstd::string::*;

use crate::order::{arrange, arranged, arranging_keeps_elements, arranging_orders, picks, picks_one_more, Ordered};
use crate::score::Score;
use crate::text::{chars_of, decimal, has_prefix, is_space, joined, same, show, show_signed, signed_decimal, string_of, texts, trim, trimmed, trim_start, trim_end, join};

verus! {

/// Why the store cannot serve.
#[derive(Debug, PartialEq)]
pub enum StoreError {
    /// The database failed; why, in its own words.
    Db(String),
    /// The pool could not give out a connection.
    Pool(String),
    /// The database holds no ingested corpus.
    NoCorpus,
    /// No chunk of the corpus is fit for the startup canary.
    NoCanary,
    /// The corpus and the engine disagree on the vector space.
    CorpusMismatch {
        corpus_model: String,
        corpus_dim: i32,
        engine_model: String,
        engine_dim: usize,
    },
    /// The provider does not reproduce the stored vectors.
    CanaryFailed { chunk_id: String, got: Score, want: Score },
}

/// What is said of a refusal, with the numbers it is about written as `got`
/// and `want`.
pub open spec fn store_error_text(e: StoreError, got: Seq<char>, want: Seq<char>) -> Seq<char> {
    match e {
        StoreError::Db(why) => "database: "@ + why@,
        StoreError::Pool(why) => "pool: "@ + why@,
        StoreError::NoCorpus =>
            "no corpus_meta row · the database holds no ingested corpus"@,
        StoreError::NoCanary =>
            "no chunk is fit for the startup canary · the vector space cannot be verified"@,
        StoreError::CorpusMismatch { corpus_model, corpus_dim, engine_model, engine_dim } =>
            "corpus was embedded with '"@ + corpus_model@ + "' at "@ + signed_decimal(
                corpus_dim as int,
            ) + " dims but this engine is configured for '"@ + engine_model@ + "' at "@ + decimal(
                engine_dim as nat,
            ) + " · queries would land in a different vector space · refusing to serve"@,
        StoreError::CanaryFailed { chunk_id, got: _, want: _ } => "canary chunk "@ + chunk_id@
            + " came back at cosine "@ + got + ", below "@ + want
            + " · the provider does not reproduce the corpus's vector space · refusing to serve"@,
    }
}

impl StoreError {
    /// The message for the operator, with the numbers it is about written as
    /// `got` and `want`.
    pub fn message(&self, got: &str, want: &str) -> (r: String)
        ensures
            r@ == store_error_text(*self, got@, want@),
    {
        let mut out = String::new();
        match self {
            StoreError::Db(why) => {
                out = "database: ".to_owned();
                out.append(why.as_str());
            },
            StoreError::Pool(why) => {
                out = "pool: ".to_owned();
                out.append(why.as_str());
            },
            StoreError::NoCorpus => {
                out = "no corpus_meta row · the database holds no ingested corpus".to_owned();
            },
            StoreError::NoCanary => {
                out =
                "no chunk is fit for the startup canary · the vector space cannot be verified".to_owned();
            },
            StoreError::CorpusMismatch { corpus_model, corpus_dim, engine_model, engine_dim } => {
                out = "corpus was embedded with '".to_owned();
                out.append(corpus_model.as_str());
                out.append("' at ");
                let a = show_signed(*corpus_dim as i64);
                out.append(a.as_str());
                out.append(" dims but this engine is configured for '");
                out.append(engine_model.as_str());
                out.append("' at ");
                let b = show(*engine_dim as u64);
                out.append(b.as_str());
                out.append(
                    " · queries would land in a different vector space · refusing to serve",
                );
            },
            StoreError::CanaryFailed { chunk_id, got: _, want: _ } => {
                out = "canary chunk ".to_owned();
                out.append(chunk_id.as_str());
                out.append(" came back at cosine ");
                out.append(got);
                out.append(", below ");
                out.append(want);
                out.append(
                    " · the provider does not reproduce the corpus's vector space · refusing to serve",
                );
            },
        }
        out
    }
}

/// The recipe that produced the corpus: the authority on the vector space.
#[derive(Debug, PartialEq, Eq)]
pub struct CorpusMeta {
    pub id: String,
    pub dense_model: String,
    pub dense_dim: i32,
    pub dense_pooling: String,
    pub dense_normalize: bool,
    pub sparse_scheme: String,
    pub sparse_dim: i32,
    pub sparse_vocab_sha256: String,
}

/// The declared width as a count: zero where it is negative.
pub open spec fn width_of(dim: i32) -> int {
    if dim < 0 {
        0
    } else {
        dim as int
    }
}

impl CorpusMeta {
    /// The declared width as a count.
    pub fn width(&self) -> (r: usize)
        ensures
            r == width_of(self.dense_dim),
    {
        if self.dense_dim < 0 {
            0
        } else {
            self.dense_dim as usize
        }
    }

    /// Refuses to serve unless the engine and the corpus agree on the model and
    /// on the width. No engine has a negative width.
    pub fn ensure_compatible(&self, engine_model: &str, engine_dim: usize) -> (r: Result<
        (),
        StoreError,
    >)
        ensures
            r is Ok == (self.dense_model@ == engine_model@ && self.dense_dim as int
                == engine_dim as int),
            match r {
                Ok(_) => true,
                Err(
                    StoreError::CorpusMismatch {
                        corpus_model,
                        corpus_dim,
                        engine_model: model,
                        engine_dim: dim,
                    },
                ) => corpus_model == self.dense_model && corpus_dim == self.dense_dim && model@
                    == engine_model@ && dim == engine_dim,
                Err(_) => false,
            },
    {
        if !same(self.dense_model.as_str(), engine_model) || self.dense_dim < 0 || self.width()
            != engine_dim {
            return Err(
                StoreError::CorpusMismatch {
                    corpus_model: self.dense_model.clone(),
                    corpus_dim: self.dense_dim,
                    engine_model: engine_model.to_owned(),
                    engine_dim,
                },
            );
        }
        Ok(())
    }
}

// ---------------------------------------------------------------------------
// Vectors as text
// ---------------------------------------------------------------------------

/// A dense vector as a literal, given its numbers in writing.
pub open spec fn dense_text(numbers: Seq<Seq<char>>) -> Seq<char> {
    "["@ + joined(numbers, ","@) + "]"@
}

/// A dense vector as a literal such as `[0.1,0.2]`, given its numbers in
/// writing.
pub fn dense_literal(numbers: &Vec<String>) -> (r: String)
    ensures
        r@ == dense_text(texts(numbers@)),
{
    let mut out = "[".to_owned();
    let inner = join(numbers, ",");
    out.append(inner.as_str());
    out.append("]");
    out
}

/// One entry of a sparse vector: its index, counted from zero, and its weight
/// in writing.
#[derive(Debug, PartialEq, Eq)]
pub struct SparseEntry {
    pub index: u32,
    pub weight: String,
}

/// The lower index stands first.
impl Ordered for SparseEntry {
    open spec fn ahead(&self, other: &Self) -> bool {
        self.index < other.index
    }

    proof fn ahead_is_an_order(a: &Self, b: &Self, c: &Self) {
    }

    fn is_ahead(&self, other: &Self) -> bool {
        self.index < other.index
    }
}

/// An entry in writing: the index counted from one, and the weight.
pub open spec fn entry_text(e: SparseEntry) -> Seq<char> {
    decimal((e.index + 1) as nat) + ":"@ + e.weight@
}

/// The entries of a list in writing.
pub open spec fn entry_texts(v: Seq<SparseEntry>) -> Seq<Seq<char>> {
    v.map_values(|e: SparseEntry| entry_text(e))
}

/// A sparse vector as a literal such as `{1:0.5,7:0.25}/20000`. Its entries
/// stand in the order of their indices, and those are counted from one: off by
/// one, every term would get its neighbour's weight.
pub fn sparse_literal(entries: Vec<SparseEntry>, dim: u32) -> (r: String)
    ensures
        r@ == "{"@ + joined(entry_texts(arranged(entries@)), ","@) + "}/"@ + decimal(dim as nat),
{
    let sorted = arrange(entries);
    let ghost all = entry_texts(sorted@);
    let mut parts: Vec<String> = Vec::new();
    let mut i: usize = 0;
    while i < sorted.len()
        invariant
            i <= sorted@.len(),
            all == entry_texts(sorted@),
            texts(parts@) == all.take(i as int),
        decreases sorted@.len() - i,
    {
        let ghost before = texts(parts@);
        let mut part = show(sorted[i].index as u64 + 1);
        part.append(":");
        part.append(sorted[i].weight.as_str());
        assert(part@ == all[i as int]);
        parts.push(part);
        assert(texts(parts@) =~= before.push(all[i as int]));
        assert(texts(parts@) =~= all.take(i + 1));
        i = i + 1;
    }
    assert(all.take(i as int) =~= all);
    let mut out = "{".to_owned();
    let inner = join(&parts, ",");
    out.append(inner.as_str());
    out.append("}/");
    let width = show(dim as u64);
    out.append(width.as_str());
    out
}

/// A square bracket.
pub open spec fn is_bracket(c: char) -> bool {
    c == '[' || c == ']'
}

/// The text without the brackets it starts with.
pub open spec fn open_text(s: Seq<char>) -> Seq<char>
    decreases s.len(),
{
    if s.len() > 0 && is_bracket(s[0]) {
        open_text(s.skip(1))
    } else {
        s
    }
}

/// The text without the brackets it ends with.
pub open spec fn close_text(s: Seq<char>) -> Seq<char>
    decreases s.len(),
{
    if s.len() > 0 && is_bracket(s.last()) {
        close_text(s.drop_last())
    } else {
        s
    }
}

/// The pieces between the commas of a text, from the `i`-th character on; the
/// characters from `start` on belong to the first of them.
pub open spec fn pieces_from(s: Seq<char>, start: int, i: int) -> Seq<Seq<char>>
    decreases s.len() - i,
{
    if i >= s.len() {
        seq![s.subrange(start, s.len() as int)]
    } else if s[i] == ',' {
        seq![s.subrange(start, i)] + pieces_from(s, i + 1, i + 1)
    } else {
        pieces_from(s, start, i + 1)
    }
}

/// The pieces that hold anything, without the white space around them.
pub open spec fn filled(pieces: Seq<Seq<char>>) -> Seq<Seq<char>>
    decreases pieces.len(),
{
    if pieces.len() == 0 {
        Seq::empty()
    } else if pieces[0].len() == 0 {
        filled(pieces.skip(1))
    } else {
        seq![trimmed(pieces[0])] + filled(pieces.skip(1))
    }
}

/// The numbers of a vector's text form, in writing.
pub open spec fn vector_fields(s: Seq<char>) -> Seq<Seq<char>> {
    let inner = close_text(open_text(s));
    filled(pieces_from(inner, 0, 0))
}

fn bracket(c: char) -> (r: bool)
    ensures
        r == is_bracket(c),
{
    c == '[' || c == ']'
}

/// Reads a vector's text form: the numbers between the commas, in writing, for
/// the caller to parse. Tolerates white space and an empty text.
pub fn parse_vector(text: &str) -> (r: Vec<String>)
    ensures
        texts(r@) == vector_fields(text@),
{
    let v = chars_of(text);
    let mut from: usize = 0;
    assert(v@.skip(0) =~= v@);
    while from < v.len() && bracket(v[from])
        invariant
            from <= v@.len(),
            open_text(v@.skip(from as int)) == open_text(v@),
        decreases v@.len() - from,
    {
        assert(v@.skip(from as int).skip(1) =~= v@.skip(from + 1));
        assert(v@.skip(from as int)[0] == v@[from as int]);
        from = from + 1;
    }
    let ghost opened = v@.skip(from as int);
    assert(opened == open_text(v@));
    let mut to: usize = v.len();
    assert(v@.subrange(from as int, to as int) =~= opened);
    while to > from && bracket(v[to - 1])
        invariant
            from <= to <= v@.len(),
            close_text(v@.subrange(from as int, to as int)) == close_text(opened),
        decreases to - from,
    {
        assert(v@.subrange(from as int, to as int).drop_last() =~= v@.subrange(
            from as int,
            to - 1,
        ));
        assert(v@.subrange(from as int, to as int).last() == v@[to - 1]);
        to = to - 1;
    }
    let ghost inner = v@.subrange(from as int, to as int);
    assert(inner == close_text(opened));
    let mut out: Vec<String> = Vec::new();
    let mut start: usize = from;
    let mut i: usize = from;
    assert(texts(out@) + filled(pieces_from(inner, 0, 0)) =~= filled(pieces_from(inner, 0, 0)));
    while i < to
        invariant
            from <= start <= i <= to <= v@.len(),
            inner == v@.subrange(from as int, to as int),
            texts(out@) + filled(pieces_from(inner, start - from, i - from)) == filled(
                pieces_from(inner, 0, 0),
            ),
        decreases to - i,
    {
        assert(inner[i - from] == v@[i as int]);
        if v[i] == ',' {
            let ghost before = texts(out@);
            let ghost piece = inner.subrange(start - from, i - from);
            let ghost rest = pieces_from(inner, i - from + 1, i - from + 1);
            assert(v@.subrange(start as int, i as int) =~= piece);
            proof {
                let all = seq![piece] + rest;
                assert(all.skip(1) =~= rest);
                assert(all[0] == piece);
            }
            if i > start {
                let raw = string_of(&v, start, i);
                out.push(trim(raw.as_str()));
                assert(texts(out@) =~= before.push(trimmed(piece)));
                assert(before + (seq![trimmed(piece)] + filled(rest)) =~= texts(out@) + filled(
                    rest,
                ));
            }
            start = i + 1;
        }
        i = i + 1;
    }
    let ghost last = inner.subrange(start - from, to - from);
    assert(v@.subrange(start as int, to as int) =~= last);
    proof {
        let all = seq![last];
        assert(pieces_from(inner, start - from, to - from) =~= all);
        assert(all.skip(1) =~= Seq::empty());
        assert(filled(all.skip(1)) =~= Seq::empty());
    }
    let ghost before = texts(out@);
    if to > start {
        let raw = string_of(&v, start, to);
        out.push(trim(raw.as_str()));
        assert(texts(out@) =~= before.push(trimmed(last)));
        assert(before + (seq![trimmed(last)] + Seq::empty()) =~= texts(out@));
    } else {
        assert(before + Seq::empty() =~= texts(out@));
    }
    out
}

/// A number in writing: not empty, and without commas, brackets and white
/// space.
pub open spec fn is_numeral(s: Seq<char>) -> bool {
    &&& s.len() > 0
    &&& forall|i: int|
        0 <= i < s.len() ==> (#[trigger] s[i]) != ',' && !is_bracket(s[i]) && !is_space(s[i])
}

/// Reading a vector back gives the numbers that were written.
pub proof fn vectors_round_trip(numbers: Seq<Seq<char>>)
    requires
        forall|i: int| 0 <= i < numbers.len() ==> is_numeral(#[trigger] numbers[i]),
    ensures
        vector_fields(dense_text(numbers)) == numbers,
{
    reveal_strlit("[");
    reveal_strlit("]");
    reveal_strlit(",");
    let inner = joined(numbers, ","@);
    let whole = dense_text(numbers);
    joined_has_no_brackets(numbers);
    assert(whole.skip(1) =~= inner + "]"@);
    let tail = inner + "]"@;
    assert(open_text(whole) == open_text(tail));
    if inner.len() == 0 {
        assert(tail =~= seq![']']);
        assert(tail.skip(1) =~= Seq::<char>::empty());
        assert(open_text(tail) == open_text(tail.skip(1)));
        assert(open_text(tail) =~= inner);
        assert(close_text(inner) =~= inner);
    } else {
        assert(tail[0] == inner[0]);
        assert(open_text(tail) == tail);
        assert(tail.drop_last() =~= inner);
        assert(tail.last() == ']');
        assert(close_text(tail) == close_text(inner));
        assert(inner.last() == inner[inner.len() - 1]);
        assert(close_text(inner) == inner);
    }
    joined_splits_back(numbers);
}

proof fn joined_has_no_brackets(numbers: Seq<Seq<char>>)
    requires
        forall|i: int| 0 <= i < numbers.len() ==> is_numeral(#[trigger] numbers[i]),
    ensures
        forall|i: int|
            0 <= i < joined(numbers, ","@).len() ==> !is_bracket(
                #[trigger] joined(numbers, ","@)[i],
            ),
    decreases numbers.len(),
{
    reveal_strlit(",");
    let s = joined(numbers, ","@);
    if numbers.len() == 1 {
        assert(is_numeral(numbers[0]));
    } else if numbers.len() > 1 {
        let front = numbers.drop_last();
        assert forall|i: int| 0 <= i < front.len() implies is_numeral(#[trigger] front[i]) by {
            assert(front[i] == numbers[i]);
        }
        joined_has_no_brackets(front);
        assert(is_numeral(numbers[numbers.len() - 1]));
        let head = joined(front, ","@);
        assert forall|i: int| 0 <= i < s.len() implies !is_bracket(#[trigger] s[i]) by {
            if i < head.len() {
                assert(s[i] == head[i]);
            } else if i > head.len() {
                assert(s[i] == numbers.last()[i - head.len() - 1]);
            }
        }
    }
}

/// Splitting at the commas undoes joining with them.
proof fn joined_splits_back(numbers: Seq<Seq<char>>)
    requires
        forall|i: int| 0 <= i < numbers.len() ==> is_numeral(#[trigger] numbers[i]),
    ensures
        filled(pieces_from(joined(numbers, ","@), 0, 0)) == numbers,
    decreases numbers.len(),
{
    reveal_strlit(",");
    let s = joined(numbers, ","@);
    if numbers.len() == 0 {
        let all = pieces_from(s, 0, 0);
        assert(s.subrange(0, s.len() as int) =~= Seq::<char>::empty());
        assert(all =~= seq![Seq::<char>::empty()]);
        assert(all.skip(1) =~= Seq::empty());
        assert(filled(all.skip(1)) =~= Seq::empty());
        assert(filled(all) =~= numbers);
    } else if numbers.len() == 1 {
        no_comma_is_one_piece(s, 0, 0);
        let all = pieces_from(s, 0, 0);
        assert(s.subrange(0, s.len() as int) =~= s);
        assert(all =~= seq![s]);
        assert(all.skip(1) =~= Seq::empty());
        assert(filled(all.skip(1)) =~= Seq::empty());
        assert(is_numeral(numbers[0]));
        numeral_is_trimmed(s);
        assert(filled(all) =~= numbers);
    } else {
        let front = numbers.drop_last();
        let head = joined(front, ","@);
        let tail = numbers.last();
        assert forall|i: int| 0 <= i < front.len() implies is_numeral(#[trigger] front[i]) by {
            assert(front[i] == numbers[i]);
        }
        joined_splits_back(front);
        assert(s =~= head + seq![','] + tail);
        pieces_of_concatenation(head, tail, 0, 0);
        no_comma_is_one_piece(tail, 0, 0);
        assert(tail.subrange(0, tail.len() as int) =~= tail);
        let a = pieces_from(head, 0, 0);
        filled_of_push(a, tail);
        numeral_is_trimmed(tail);
        assert(pieces_from(s, 0, 0) =~= a.push(tail));
        assert(filled(pieces_from(s, 0, 0)) =~= front.push(tail));
        assert(front.push(tail) =~= numbers);
    }
}

proof fn no_comma_is_one_piece(s: Seq<char>, start: int, i: int)
    requires
        0 <= start <= i <= s.len(),
        forall|k: int| 0 <= k < s.len() ==> (#[trigger] s[k]) != ',',
    ensures
        pieces_from(s, start, i) == seq![s.subrange(start, s.len() as int)],
    decreases s.len() - i,
{
    if i < s.len() {
        no_comma_is_one_piece(s, start, i + 1);
    }
}

/// The pieces of two texts with a comma between them are the pieces of the
/// first, then those of the second, where the second holds no comma.
proof fn pieces_of_concatenation(head: Seq<char>, tail: Seq<char>, start: int, i: int)
    requires
        0 <= start <= i <= head.len(),
        forall|k: int| 0 <= k < tail.len() ==> (#[trigger] tail[k]) != ',',
    ensures
        pieces_from(head + seq![','] + tail, start, i) == pieces_from(head, start, i).push(tail),
    decreases head.len() - i,
{
    let s = head + seq![','] + tail;
    if i < head.len() {
        assert(s[i] == head[i]);
        if head[i] == ',' {
            pieces_of_concatenation(head, tail, i + 1, i + 1);
            assert(s.subrange(start, i) =~= head.subrange(start, i));
            assert(pieces_from(s, start, i) =~= pieces_from(head, start, i).push(tail));
        } else {
            pieces_of_concatenation(head, tail, start, i + 1);
        }
    } else {
        let n = head.len() as int;
        assert(s[n] == ',');
        assert(s.subrange(start, n) =~= head.subrange(start, n));
        tail_is_one_piece(head, tail, n + 1);
        assert(s.subrange(n + 1, s.len() as int) =~= tail);
        assert(pieces_from(s, start, i) =~= pieces_from(head, start, i).push(tail));
    }
}

proof fn tail_is_one_piece(head: Seq<char>, tail: Seq<char>, i: int)
    requires
        head.len() + 1 <= i <= head.len() + 1 + tail.len(),
        forall|k: int| 0 <= k < tail.len() ==> (#[trigger] tail[k]) != ',',
    ensures
        pieces_from(head + seq![','] + tail, head.len() as int + 1, i) == seq![
            (head + seq![','] + tail).subrange(
                head.len() as int + 1,
                (head + seq![','] + tail).len() as int,
            ),
        ],
    decreases head.len() + 1 + tail.len() - i,
{
    let s = head + seq![','] + tail;
    if i < s.len() {
        assert(s[i] == tail[i - head.len() - 1]);
        tail_is_one_piece(head, tail, i + 1);
    }
}

proof fn filled_of_push(pieces: Seq<Seq<char>>, last: Seq<char>)
    requires
        last.len() > 0,
    ensures
        filled(pieces.push(last)) == filled(pieces).push(trimmed(last)),
    decreases pieces.len(),
{
    let all = pieces.push(last);
    if pieces.len() == 0 {
        assert(all.skip(1) =~= Seq::empty());
        assert(filled(all.skip(1)) =~= Seq::empty());
        assert(filled(all) =~= filled(pieces).push(trimmed(last)));
    } else {
        filled_of_push(pieces.skip(1), last);
        assert(all.skip(1) =~= pieces.skip(1).push(last));
        assert(all[0] == pieces[0]);
        assert(filled(all) =~= filled(pieces).push(trimmed(last)));
    }
}

proof fn numeral_is_trimmed(s: Seq<char>)
    requires
        is_numeral(s),
    ensures
        trimmed(s) == s,
{
    assert(!is_space(s[0]));
    assert(trim_start(s) == s);
    assert(!is_space(s[s.len() - 1]));
    assert(trim_end(s) == s);
}

// ---------------------------------------------------------------------------
// What is read and written
// ---------------------------------------------------------------------------

/// A comma parts two pieces, and a text without one is a single piece.
pub proof fn commas_part_pieces(head: Seq<char>, tail: Seq<char>)
    requires
        forall|k: int| 0 <= k < tail.len() ==> (#[trigger] tail[k]) != ',',
    ensures
        pieces_from(tail, 0, 0) == seq![tail],
        pieces_from(head + seq![','] + tail, 0, 0) == pieces_from(head, 0, 0).push(tail),
{
    no_comma_is_one_piece(tail, 0, 0);
    assert(tail.subrange(0, tail.len() as int) =~= tail);
    pieces_of_concatenation(head, tail, 0, 0);
}

/// Every piece that holds anything is a field, without the white space around
/// it, and an empty piece is none. `q` says which piece each field is.
pub proof fn every_filled_piece_is_a_field(pieces: Seq<Seq<char>>) -> (q: Seq<int>)
    ensures
        picks(q, pieces.len() as int, |i: int| pieces[i].len() > 0),
        filled(pieces).len() == q.len(),
        forall|k: int|
            0 <= k < q.len() ==> filled(pieces)[k] == trimmed(pieces[#[trigger] q[k]]),
    decreases pieces.len(),
{
    if pieces.len() == 0 {
        Seq::empty()
    } else {
        let front = pieces.drop_last();
        let last = pieces.last();
        let p = every_filled_piece_is_a_field(front);
        let f = |i: int| front[i].len() > 0;
        let g = |i: int| pieces[i].len() > 0;
        assert(picks(p, front.len() as int, g)) by {
            assert forall|k: int| 0 <= k < p.len() implies g(#[trigger] p[k]) by {
                assert(f(p[k]));
            }
            assert forall|i: int| 0 <= i < front.len() && #[trigger] g(i) implies p.contains(i) by {
                assert(f(i));
            }
        }
        let q = picks_one_more(p, front.len() as int, g);
        assert(pieces =~= front.push(last));
        if last.len() > 0 {
            filled_of_push(front, last);
        } else {
            an_empty_piece_adds_nothing(front, last);
        }
        assert forall|k: int| 0 <= k < q.len() implies filled(pieces)[k] == trimmed(
            pieces[#[trigger] q[k]],
        ) by {
            if k < p.len() {
                assert(q[k] == p[k]);
                assert(pieces[p[k]] == front[p[k]]);
            }
        }
        q
    }
}

proof fn an_empty_piece_adds_nothing(pieces: Seq<Seq<char>>, last: Seq<char>)
    requires
        last.len() == 0,
    ensures
        filled(pieces.push(last)) == filled(pieces),
    decreases pieces.len(),
{
    let all = pieces.push(last);
    if pieces.len() == 0 {
        assert(all.skip(1) =~= Seq::empty());
        assert(filled(all.skip(1)) =~= Seq::empty());
    } else {
        an_empty_piece_adds_nothing(pieces.skip(1), last);
        assert(all.skip(1) =~= pieces.skip(1).push(last));
        assert(all[0] == pieces[0]);
    }
}

/// Only brackets are taken off around a vector: what is left is a piece of the
/// text that neither starts nor ends with one.
pub proof fn only_brackets_are_taken_off(s: Seq<char>) -> (p: (int, int))
    ensures
        0 <= p.0 <= p.1 <= s.len(),
        close_text(open_text(s)) == s.subrange(p.0, p.1),
        forall|i: int| 0 <= i < p.0 ==> (#[trigger] s[i]) == '[' || s[i] == ']',
        forall|i: int| p.1 <= i < s.len() ==> (#[trigger] s[i]) == '[' || s[i] == ']',
        p.0 < p.1 ==> s[p.0] != '[' && s[p.0] != ']' && s[p.1 - 1] != '[' && s[p.1 - 1] != ']',
{
    let a = leading_brackets(s);
    let t = open_text(s);
    let n = trailing_brackets(t);
    assert(t.take(n) =~= s.subrange(a, a + n));
    assert forall|i: int| a + n <= i < s.len() implies (#[trigger] s[i]) == '[' || s[i] == ']' by {
        assert(t[i - a] == s[i]);
    }
    if n > 0 {
        assert(t[0] == s[a]);
        assert(t[n - 1] == s[a + n - 1]);
    }
    (a, a + n)
}

proof fn leading_brackets(s: Seq<char>) -> (a: int)
    ensures
        0 <= a <= s.len(),
        open_text(s) == s.skip(a),
        forall|i: int| 0 <= i < a ==> is_bracket(#[trigger] s[i]),
        a < s.len() ==> !is_bracket(s[a]),
    decreases s.len(),
{
    if s.len() > 0 && is_bracket(s[0]) {
        let t = s.skip(1);
        let b = leading_brackets(t);
        assert(t.skip(b) =~= s.skip(b + 1));
        assert forall|i: int| 0 <= i < b + 1 implies is_bracket(#[trigger] s[i]) by {
            if i > 0 {
                assert(t[i - 1] == s[i]);
            }
        }
        if b < t.len() {
            assert(t[b] == s[b + 1]);
        }
        b + 1
    } else {
        assert(s.skip(0) =~= s);
        0
    }
}

proof fn trailing_brackets(s: Seq<char>) -> (n: int)
    ensures
        0 <= n <= s.len(),
        close_text(s) == s.take(n),
        forall|i: int| n <= i < s.len() ==> is_bracket(#[trigger] s[i]),
        n > 0 ==> !is_bracket(s[n - 1]),
    decreases s.len(),
{
    if s.len() > 0 && is_bracket(s.last()) {
        let t = s.drop_last();
        let n = trailing_brackets(t);
        assert(t.take(n) =~= s.take(n));
        assert forall|i: int| n <= i < s.len() implies is_bracket(#[trigger] s[i]) by {
            if i < t.len() {
                assert(t[i] == s[i]);
            }
        }
        if n > 0 {
            assert(t[n - 1] == s[n - 1]);
        }
        n
    } else {
        assert(s.take(s.len() as int) =~= s);
        s.len() as int
    }
}

/// The entries of a sparse vector stand by their indices, the lowest first,
/// and each is written with its index counted from one.
pub proof fn sparse_entries_stand_by_index(v: Seq<SparseEntry>)
    ensures
        entry_texts(arranged(v)).len() == v.len(),
        arranged(v).to_multiset() == v.to_multiset(),
        forall|i: int, j: int|
            #![trigger arranged(v)[i], arranged(v)[j]]
            0 <= i < j < v.len() ==> arranged(v)[i].index <= arranged(v)[j].index,
        forall|i: int|
            0 <= i < v.len() ==> #[trigger] entry_texts(arranged(v))[i] == decimal(
                (arranged(v)[i].index + 1) as nat,
            ) + seq![':'] + arranged(v)[i].weight@,
{
    reveal_strlit(":");
    arranging_keeps_elements(v);
    arranging_orders(v);
    assert(":"@ =~= seq![':']);
    assert forall|i: int, j: int|
        #![trigger arranged(v)[i], arranged(v)[j]]
        0 <= i < j < v.len() implies arranged(v)[i].index <= arranged(v)[j].index by {
        assert(!arranged(v)[j].ahead(&arranged(v)[i]));
    }
}

/// A width that is not below zero is itself.
pub proof fn a_width_is_never_below_zero(dim: i32)
    ensures
        width_of(dim) >= 0,
        dim >= 0 ==> width_of(dim) == dim,
        dim < 0 ==> width_of(dim) == 0,
{
}

/// A mismatch is told with the corpus first and the engine behind it, and a
/// failed canary with what it came back at and what it had to reach.
pub proof fn a_refusal_tells_the_corpus_first(e: StoreError, got: Seq<char>, want: Seq<char>)
    ensures
        match e {
            StoreError::CorpusMismatch { corpus_model, corpus_dim, engine_model, engine_dim } =>
                has_prefix(
                store_error_text(e, got, want),
                "corpus was embedded with '"@ + corpus_model@ + "' at "@ + signed_decimal(
                    corpus_dim as int,
                ) + " dims but this engine is configured for '"@ + engine_model@ + "' at "@
                    + decimal(engine_dim as nat),
            ),
            StoreError::CanaryFailed { chunk_id, got: _, want: _ } => has_prefix(
                store_error_text(e, got, want),
                "canary chunk "@ + chunk_id@ + " came back at cosine "@ + got + ", below "@ + want,
            ),
            _ => true,
        },
{
    match e {
        StoreError::CorpusMismatch { corpus_model, corpus_dim, engine_model, engine_dim } => {
            let x = "corpus was embedded with '"@ + corpus_model@ + "' at "@ + signed_decimal(
                corpus_dim as int,
            ) + " dims but this engine is configured for '"@ + engine_model@ + "' at "@ + decimal(
                engine_dim as nat,
            );
            assert(store_error_text(e, got, want).take(x.len() as int) =~= x);
        },
        StoreError::CanaryFailed { chunk_id, got: _, want: _ } => {
            let x = "canary chunk "@ + chunk_id@ + " came back at cosine "@ + got + ", below "@
                + want;
            assert(store_error_text(e, got, want).take(x.len() as int) =~= x);
        },
        _ => {},
    }
}

} // verus!
