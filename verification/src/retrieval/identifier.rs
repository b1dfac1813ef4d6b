//! Exact-identifier extraction: the path that routing cannot lose.
//!
//! A query that names a specific regulation can be routed to the wrong
//! clusters. Identifiers are therefore pulled out of the query text here and
//! searched globally, outside routing. The grammar is small and closed; the
//! work is in bringing many spellings to one canonical form.

use vstd::prelude::*;
use vstd::string::*;

use crate::order::{begins, picks, picks_one_more, taken, takes_all, taking_passes_nothing_over};
use crate::phrases::{is_at, one, phrase1, phrase2, phrase_views, stands_at, two, Phrase, PhraseView};
use crate::text::{all_digits, are_digits, are_runs, ascii, ascii_lower, chars_of, is_digit, is_plain, list_contains, lowercase_text, moved, number_of, places, run_texts, runs_are_unique, slices, slices_contain, spans, spans_are_runs, spans_from, spans_of_a_part, spans_of_joined_texts, string_of, texts, to_lowercase, word_char, word_end, word_spans, word_start, words, Span};

verus! {

/// A regulation identifier found in query text.
#[derive(Debug, PartialEq, Eq)]
pub struct Identifier {
    /// Canonical form, such as `UU 28/2007`: what the corpus stores.
    pub canonical: String,
    /// The span as the user wrote it.
    pub matched_on: String,
}

/// An identifier, as what it says.
pub ghost struct IdentifierView {
    pub canonical: Seq<char>,
    pub matched_on: Seq<char>,
}

impl Identifier {
    pub open spec fn view(self) -> IdentifierView {
        IdentifierView { canonical: self.canonical@, matched_on: self.matched_on@ }
    }
}

/// The identifiers of a list, as what they say.
pub open spec fn identifier_views(v: Seq<Identifier>) -> Seq<IdentifierView> {
    v.map_values(|id: Identifier| id@)
}

/// Document types that prefix a regulation number, longer spellings first.
pub open spec fn doc_types() -> Seq<PhraseView> {
    seq![
        phrase2("undang-undang"@, "dasar"@, "UUD"@),
        phrase1("undang-undang"@, "UU"@),
        phrase2("peraturan"@, "pemerintah"@, "PP"@),
        phrase2("peraturan"@, "presiden"@, "PERPRES"@),
        phrase2("peraturan"@, "menteri"@, "PERMEN"@),
        phrase2("peraturan"@, "daerah"@, "PERDA"@),
        phrase2("keputusan"@, "presiden"@, "KEPPRES"@),
        phrase2("instruksi"@, "presiden"@, "INPRES"@),
        phrase1("uud"@, "UUD"@),
        phrase1("uu"@, "UU"@),
        phrase1("perppu"@, "PERPPU"@),
        phrase1("perpres"@, "PERPRES"@),
        phrase1("permenkeu"@, "PERMENKEU"@),
        phrase1("permen"@, "PERMEN"@),
        phrase1("keppres"@, "KEPPRES"@),
        phrase1("inpres"@, "INPRES"@),
        phrase1("perda"@, "PERDA"@),
        phrase1("pmk"@, "PMK"@),
        phrase1("pp"@, "PP"@),
    ]
}

fn doc_type_phrases() -> (r: Vec<Phrase>)
    ensures
        phrase_views(r@) == doc_types(),
{
    let r = vec![
        two("undang-undang", "dasar", "UUD"),
        one("undang-undang", "UU"),
        two("peraturan", "pemerintah", "PP"),
        two("peraturan", "presiden", "PERPRES"),
        two("peraturan", "menteri", "PERMEN"),
        two("peraturan", "daerah", "PERDA"),
        two("keputusan", "presiden", "KEPPRES"),
        two("instruksi", "presiden", "INPRES"),
        one("uud", "UUD"),
        one("uu", "UU"),
        one("perppu", "PERPPU"),
        one("perpres", "PERPRES"),
        one("permenkeu", "PERMENKEU"),
        one("permen", "PERMEN"),
        one("keppres", "KEPPRES"),
        one("inpres", "INPRES"),
        one("perda", "PERDA"),
        one("pmk", "PMK"),
        one("pp", "PP"),
    ];
    assert(phrase_views(r@) =~= doc_types());
    r
}

/// Words that sit between the parts of a citation and carry no information.
pub open spec fn fillers() -> Seq<Seq<char>> {
    seq!["no"@, "nomor"@, "number"@, "tahun"@, "th"@, "year"@]
}

fn filler_words() -> (r: Vec<&'static str>)
    ensures
        slices(r@) == fillers(),
{
    let r: Vec<&'static str> = vec!["no", "nomor", "number", "tahun", "th", "year"];
    assert(slices(r@) =~= fillers());
    r
}

/// The words of a query, each made small. A hyphen stays inside a word.
pub open spec fn small_words(s: Seq<char>) -> Seq<Seq<char>> {
    spans(s, Some('-')).map_values(|p: (int, int)| lowercase_text(s.subrange(p.0, p.1)))
}

/// The first document type from the `k`-th in the table on that is written at
/// place `i`.
pub open spec fn doc_type_from(tokens: Seq<Seq<char>>, i: int, k: int) -> Option<PhraseView>
    decreases doc_types().len() - k,
{
    if k >= doc_types().len() {
        None
    } else if stands_at(tokens, i, tokens.len() as int, doc_types()[k].words) {
        Some(doc_types()[k])
    } else {
        doc_type_from(tokens, i, k + 1)
    }
}

/// The document type written at place `i`.
pub open spec fn doc_type_at(tokens: Seq<Seq<char>>, i: int) -> Option<PhraseView> {
    doc_type_from(tokens, i, 0)
}

/// Reads a document type at place `i`: how many words it takes up, and its
/// canonical abbreviation.
pub fn match_doc_type(tokens: &Vec<String>, i: usize) -> (r: Option<(usize, &'static str)>)
    requires
        i <= tokens@.len(),
    ensures
        match r {
            Some((n, c)) => doc_type_at(texts(tokens@), i as int) is Some && n == doc_type_at(
                texts(tokens@),
                i as int,
            )->0.words.len() && c@ == doc_type_at(texts(tokens@), i as int)->0.canonical && i + n
                <= tokens@.len(),
            None => doc_type_at(texts(tokens@), i as int) is None,
        },
{
    let table = doc_type_phrases();
    let ghost all = texts(tokens@);
    let mut k: usize = 0;
    while k < table.len()
        invariant
            k <= table@.len(),
            i <= tokens@.len(),
            phrase_views(table@) == doc_types(),
            all == texts(tokens@),
            doc_type_at(all, i as int) == doc_type_from(all, i as int, k as int),
        decreases table@.len() - k,
    {
        assert(phrase_views(table@)[k as int] == table@[k as int]@);
        if is_at(tokens, i, tokens.len(), &table[k]) {
            return Some((table[k].words.len(), table[k].canonical));
        }
        k = k + 1;
    }
    assert(phrase_views(table@).len() == table@.len());
    None
}

/// A regulation number: one to four digits.
pub open spec fn number_like(s: Seq<char>) -> bool {
    0 < s.len() <= 4 && all_digits(s)
}

/// The token, where it is a regulation number.
pub fn numeric(token: &str) -> (r: Option<&str>)
    ensures
        match r {
            Some(t) => number_like(token@) && t@ == token@,
            None => !number_like(token@),
        },
{
    let v = chars_of(token);
    if v.len() > 0 && v.len() <= 4 && are_digits(&v) {
        Some(token)
    } else {
        None
    }
}

/// A plausible year: four digits, from 1945 to 2100.
pub open spec fn plausible_year(s: Seq<char>) -> bool {
    s.len() == 4 && all_digits(s) && 1945 <= number_of(s) <= 2100
}

/// The token, where it is a plausible year.
pub fn year(token: &str) -> (r: Option<&str>)
    ensures
        match r {
            Some(t) => plausible_year(token@) && t@ == token@,
            None => !plausible_year(token@),
        },
{
    let v = chars_of(token);
    if v.len() != 4 || !are_digits(&v) {
        return None;
    }
    let mut n: u32 = 0;
    let mut i: usize = 0;
    while i < 4
        invariant
            i <= 4,
            v@.len() == 4,
            all_digits(v@),
            n == number_of(v@.take(i as int)),
            i == 0 ==> n == 0,
            i == 1 ==> n <= 9,
            i == 2 ==> n <= 99,
            i == 3 ==> n <= 999,
            i == 4 ==> n <= 9999,
        decreases 4 - i,
    {
        let c = v[i];
        assert(is_digit(v@[i as int]));
        assert(v@.take(i + 1).drop_last() =~= v@.take(i as int));
        assert(v@.take(i + 1).last() == c);
        n = n * 10 + (c as u32 - 48);
        i = i + 1;
    }
    assert(v@.take(4) =~= v@);
    if 1945 <= n && n <= 2100 {
        Some(token)
    } else {
        None
    }
}

/// The first place from `j` on that holds no filler word.
pub open spec fn past_fillers(tokens: Seq<Seq<char>>, j: int) -> int
    decreases tokens.len() - j,
{
    if j < tokens.len() && fillers().contains(tokens[j]) {
        past_fillers(tokens, j + 1)
    } else {
        j
    }
}

fn skip_fillers(tokens: &Vec<String>, from: usize) -> (r: usize)
    requires
        from <= tokens@.len(),
    ensures
        from <= r <= tokens@.len(),
        r == past_fillers(texts(tokens@), from as int),
{
    let table = filler_words();
    let ghost all = texts(tokens@);
    let mut j: usize = from;
    while j < tokens.len() && slices_contain(&table, tokens[j].as_str())
        invariant
            from <= j <= tokens@.len(),
            slices(table@) == fillers(),
            all == texts(tokens@),
            past_fillers(all, from as int) == past_fillers(all, j as int),
        decreases tokens@.len() - j,
    {
        assert(all[j as int] == tokens@[j as int]@);
        j = j + 1;
    }
    if j < tokens.len() {
        assert(all[j as int] == tokens@[j as int]@);
    }
    j
}

/// The citation written at place `i`: its canonical form, and the place of its
/// last word.
pub open spec fn citation_at(tokens: Seq<Seq<char>>, i: int) -> Option<(Seq<char>, int)> {
    match doc_type_at(tokens, i) {
        None => None,
        Some(t) => {
            let n = past_fillers(tokens, i + t.words.len());
            if !(n < tokens.len() && number_like(tokens[n])) {
                None
            } else {
                let y = past_fillers(tokens, n + 1);
                if !(y < tokens.len() && plausible_year(tokens[y])) {
                    None
                } else {
                    Some((t.canonical + " "@ + tokens[n] + "/"@ + tokens[y], y))
                }
            }
        },
    }
}

fn read_citation(tokens: &Vec<String>, i: usize) -> (r: Option<(String, usize)>)
    requires
        i < tokens@.len(),
    ensures
        match r {
            Some((c, j)) => citation_at(texts(tokens@), i as int) == Some((c@, j as int)) && i <= j
                < tokens@.len(),
            None => citation_at(texts(tokens@), i as int) is None,
        },
{
    let ghost all = texts(tokens@);
    match match_doc_type(tokens, i) {
        None => None,
        Some((consumed, doc_type)) => {
            let len = tokens.len();
            let n = skip_fillers(tokens, i + consumed);
            if n >= len {
                return None;
            }
            assert(all[n as int] == tokens@[n as int]@);
            match numeric(tokens[n].as_str()) {
                None => None,
                Some(number) => {
                    let y = skip_fillers(tokens, n + 1);
                    if y >= tokens.len() {
                        return None;
                    }
                    assert(all[y as int] == tokens@[y as int]@);
                    match year(tokens[y].as_str()) {
                        None => None,
                        Some(when) => {
                            let mut out = doc_type.to_owned();
                            out.append(" ");
                            out.append(number);
                            out.append("/");
                            out.append(when);
                            Some((out, y))
                        },
                    }
                },
            }
        },
    }
}

/// The citations written from place `i` on. The next one is looked for behind
/// the last word of one that was found.
pub open spec fn citations_from(s: Seq<char>, i: int) -> Seq<IdentifierView>
    decreases small_words(s).len() - i,
    when 0 <= i
    via citations_decrease
{
    let tokens = small_words(s);
    if i >= tokens.len() {
        Seq::empty()
    } else {
        match citation_at(tokens, i) {
            Some((canonical, j)) => seq![
                IdentifierView {
                    canonical,
                    matched_on: s.subrange(spans(s, Some('-'))[i].0, spans(s, Some('-'))[j].1),
                },
            ] + citations_from(s, j + 1),
            None => citations_from(s, i + 1),
        }
    }
}

#[via_fn]
proof fn citations_decrease(s: Seq<char>, i: int) {
    citation_ends_behind_its_start(small_words(s), i);
}

proof fn past_fillers_goes_on(tokens: Seq<Seq<char>>, j: int)
    ensures
        past_fillers(tokens, j) >= j,
    decreases tokens.len() - j,
{
    if j < tokens.len() && fillers().contains(tokens[j]) {
        past_fillers_goes_on(tokens, j + 1);
    }
}

/// A citation ends at or behind the word it starts with.
pub proof fn citation_ends_behind_its_start(tokens: Seq<Seq<char>>, i: int)
    ensures
        citation_at(tokens, i) is Some ==> i <= (citation_at(tokens, i)->0).1 < tokens.len(),
{
    match doc_type_at(tokens, i) {
        None => {},
        Some(t) => {
            past_fillers_goes_on(tokens, i + t.words.len());
            past_fillers_goes_on(tokens, past_fillers(tokens, i + t.words.len()) + 1);
        },
    }
}

/// Whether an earlier identifier has the canonical form of the `i`-th.
pub open spec fn cited_before(v: Seq<IdentifierView>, i: int) -> bool {
    exists|k: int| 0 <= k < i && (#[trigger] v[k]).canonical == v[i].canonical
}

/// The first `n` identifiers without those whose canonical form came before.
pub open spec fn first_citations(v: Seq<IdentifierView>, n: int) -> Seq<IdentifierView>
    decreases n,
{
    if n <= 0 {
        Seq::empty()
    } else if cited_before(v, n - 1) {
        first_citations(v, n - 1)
    } else {
        first_citations(v, n - 1).push(v[n - 1])
    }
}

/// The identifiers of a query, in order of appearance, each canonical form
/// once.
pub open spec fn identifiers(query: Seq<char>) -> Seq<IdentifierView> {
    let all = citations_from(query, 0);
    first_citations(all, all.len() as int)
}

/// What is true of the small form of a word of ASCII characters.
pub open spec fn is_small_plainly(w: Seq<char>) -> bool {
    ascii(w) ==> lowercase_text(w) == w.map_values(|c: char| ascii_lower(c))
}

/// What is true of a text, in the classes and small forms of its ASCII
/// characters.
pub open spec fn reads_plainly(s: Seq<char>) -> bool {
    &&& forall|k: int| 0 <= k < s.len() ==> is_plain(#[trigger] s[k])
    &&& forall|k: int|
        0 <= k < words(s, Some('-')).len() ==> is_small_plainly(
            #[trigger] words(s, Some('-'))[k],
        )
}

fn small(v: &Vec<char>, found: &Vec<Span>) -> (r: Vec<String>)
    requires
        places(found@) == spans(v@, Some('-')),
        forall|k: int|
            0 <= k < found@.len() ==> (#[trigger] found@[k]).start < found@[k].end <= v@.len(),
    ensures
        texts(r@) == small_words(v@),
        r@.len() == found@.len(),
        forall|k: int|
            0 <= k < words(v@, Some('-')).len() ==> is_small_plainly(
                #[trigger] words(v@, Some('-'))[k],
            ),
{
    let ghost all = small_words(v@);
    let mut out: Vec<String> = Vec::new();
    let mut i: usize = 0;
    while i < found.len()
        invariant
            i <= found@.len(),
            places(found@) == spans(v@, Some('-')),
            all == small_words(v@),
            forall|k: int|
                0 <= k < found@.len() ==> (#[trigger] found@[k]).start < found@[k].end <= v@.len(),
            texts(out@) == all.take(i as int),
            forall|k: int|
                0 <= k < i ==> is_small_plainly(#[trigger] words(v@, Some('-'))[k]),
        decreases found@.len() - i,
    {
        let p = found[i];
        let ghost before = texts(out@);
        assert(places(found@)[i as int] == (p.start as int, p.end as int));
        let word = string_of(v, p.start, p.end);
        out.push(to_lowercase(word.as_str()));
        assert(words(v@, Some('-'))[i as int] == word@);
        assert(texts(out@) =~= before.push(all[i as int]));
        assert(texts(out@) =~= all.take(i + 1));
        i = i + 1;
    }
    assert(places(found@).len() == found@.len());
    assert(all.take(i as int) =~= all);
    assert(texts(out@).len() == out@.len());
    out
}

/// Every citation of the query, repeated ones too.
fn all_citations(query: &str) -> (r: Vec<Identifier>)
    ensures
        identifier_views(r@) == citations_from(query@, 0),
        reads_plainly(query@),
{
    let v = chars_of(query);
    let found = word_spans(&v, Some('-'));
    let tokens = small(&v, &found);
    let mut out: Vec<Identifier> = Vec::new();
    let mut i: usize = 0;
    assert(identifier_views(out@) + citations_from(query@, 0) =~= citations_from(query@, 0));
    while i < tokens.len()
        invariant
            i <= tokens@.len(),
            v@ == query@,
            reads_plainly(v@),
            places(found@) == spans(v@, Some('-')),
            texts(tokens@) == small_words(v@),
            tokens@.len() == found@.len(),
            forall|k: int|
                0 <= k < found@.len() ==> (#[trigger] found@[k]).start < found@[k].end <= v@.len(),
            identifier_views(out@) + citations_from(query@, i as int) == citations_from(query@, 0),
        decreases tokens@.len() - i,
    {
        match read_citation(&tokens, i) {
            Some((canonical, j)) => {
                let ghost before = identifier_views(out@);
                let a = found[i];
                let b = found[j];
                assert(places(found@)[i as int] == (a.start as int, a.end as int));
                assert(places(found@)[j as int] == (b.start as int, b.end as int));
                proof {
                    spans_are_ordered(v@, Some('-'), i as int, j as int);
                }
                let matched_on = string_of(&v, a.start, b.end);
                let id = Identifier { canonical, matched_on };
                let ghost seen = id@;
                out.push(id);
                assert(identifier_views(out@) =~= before.push(seen));
                assert(before + citations_from(query@, i as int) =~= identifier_views(out@)
                    + citations_from(query@, j + 1));
                i = j + 1;
            },
            None => {
                i = i + 1;
            },
        }
    }
    assert(identifier_views(out@) + Seq::empty() =~= identifier_views(out@));
    out
}

/// A later word starts behind an earlier one.
proof fn spans_are_ordered(s: Seq<char>, inner: Option<char>, i: int, j: int)
    requires
        0 <= i <= j < spans(s, inner).len(),
    ensures
        spans(s, inner)[i].0 < spans(s, inner)[j].1 <= s.len(),
{
    spans_are_ordered_from(s, inner, 0, i, j);
}

proof fn spans_are_ordered_from(s: Seq<char>, inner: Option<char>, from: int, i: int, j: int)
    requires
        0 <= from <= s.len(),
        from == 0 || from == s.len() || !crate::text::word_char(s[from], inner),
        0 <= i <= j < crate::text::spans_from(s, inner, from).len(),
    ensures
        from <= crate::text::spans_from(s, inner, from)[i].0 < crate::text::spans_from(
            s,
            inner,
            from,
        )[j].1 <= s.len(),
    decreases s.len() - from,
{
    crate::text::spans_are_maximal_runs(s, inner, from);
    let all = crate::text::spans_from(s, inner, from);
    let b = all[0].1;
    assert(all =~= seq![all[0]] + crate::text::spans_from(s, inner, b));
    if i > 0 {
        assert(all[i] == crate::text::spans_from(s, inner, b)[i - 1]);
        assert(all[j] == crate::text::spans_from(s, inner, b)[j - 1]);
        spans_are_ordered_from(s, inner, b, i - 1, j - 1);
    } else if j > 0 {
        assert(all[j] == crate::text::spans_from(s, inner, b)[j - 1]);
        crate::text::spans_are_maximal_runs(s, inner, b);
    }
}

/// Extracts every regulation identifier in the query.
///
/// Recognises `UU 28/2007`, `UU No. 28 Tahun 2007`, `Undang-Undang Nomor 28
/// Tahun 2007` and the same shapes for other document types, and brings all of
/// them to one form. A regulation named twice costs one lookup, and a query in
/// that form is read as itself.
pub fn extract(query: &str) -> (r: Vec<Identifier>)
    ensures
        identifier_views(r@) == identifiers(query@),
        is_canonical(query@) ==> identifier_views(r@) == seq![
            IdentifierView { canonical: query@, matched_on: query@ },
        ],
        forall|p: Seq<(int, int)>, c: Written|
            ascii(query@) && #[trigger] are_runs(query@, p, Some('-')) && run_texts(query@, p)
                == #[trigger] c.tokens() && c.is_sound() ==> identifier_views(r@) == seq![
                IdentifierView {
                    canonical: c.says(),
                    matched_on: query@.subrange(p[0].0, p.last().1),
                },
            ],
{
    let found = all_citations(query);
    proof {
        if ascii(query@) {
            assert forall|p: Seq<(int, int)>, c: Written| #[trigger]
                are_runs(query@, p, Some('-')) && run_texts(query@, p) == #[trigger] c.tokens()
                    && c.is_sound() implies identifiers(query@) == seq![
                IdentifierView {
                    canonical: c.says(),
                    matched_on: query@.subrange(p[0].0, p.last().1),
                },
            ] by {
                a_written_citation_is_found(query@, p, c);
            }
        }
        if is_canonical(query@) {
            a_canonical_form_reads_as_itself(query@);
        }
    }
    let ghost all = identifier_views(found@);
    let mut seen: Vec<String> = Vec::new();
    let mut out: Vec<Identifier> = Vec::new();
    let mut i: usize = 0;
    assert(identifier_views(out@) =~= Seq::empty());
    while i < found.len()
        invariant
            i <= found@.len(),
            all == identifier_views(found@),
            all.len() == found@.len(),
            identifier_views(out@) == first_citations(all, i as int),
            forall|c: Seq<char>|
                texts(seen@).contains(c) <==> exists|k: int|
                    0 <= k < i && (#[trigger] all[k]).canonical == c,
        decreases found@.len() - i,
    {
        let id = &found[i];
        assert(all[i as int] == id@);
        let ghost before = identifier_views(out@);
        let ghost old_seen = texts(seen@);
        if !list_contains(&seen, id.canonical.as_str()) {
            assert(!cited_before(all, i as int));
            out.push(
                Identifier { canonical: id.canonical.clone(), matched_on: id.matched_on.clone() },
            );
            seen.push(id.canonical.clone());
            assert(identifier_views(out@) =~= before.push(id@));
            assert(texts(seen@) =~= old_seen.push(id.canonical@));
        } else {
            assert(cited_before(all, i as int));
        }
        assert forall|c: Seq<char>|
            texts(seen@).contains(c) <==> exists|k: int|
                0 <= k < i + 1 && (#[trigger] all[k]).canonical == c by {
            if texts(seen@).contains(c) && !old_seen.contains(c) {
                let k = texts(seen@).index_of(c);
                assert(k == old_seen.len());
                assert(all[i as int].canonical == c);
            }
            if old_seen.contains(c) {
                let k = old_seen.index_of(c);
                assert(texts(seen@)[k] == c);
            }
            if all[i as int].canonical == c {
                if texts(seen@) != old_seen {
                    assert(texts(seen@)[old_seen.len() as int] == c);
                }
            }
        }
        i = i + 1;
    }
    out
}

/// No canonical form is reported twice.
pub proof fn a_regulation_is_looked_up_once(query: Seq<char>, i: int, j: int)
    requires
        0 <= i < j < identifiers(query).len(),
    ensures
        identifiers(query)[i].canonical != identifiers(query)[j].canonical,
{
    let all = citations_from(query, 0);
    first_citations_are_distinct(all, all.len() as int);
}

proof fn first_citations_are_distinct(v: Seq<IdentifierView>, n: int)
    requires
        0 <= n <= v.len(),
    ensures
        forall|i: int, j: int|
            #![trigger first_citations(v, n)[i], first_citations(v, n)[j]]
            0 <= i < j < first_citations(v, n).len() ==> first_citations(v, n)[i].canonical
                != first_citations(v, n)[j].canonical,
        forall|i: int|
            0 <= i < first_citations(v, n).len() ==> v.take(n).contains(
                #[trigger] first_citations(v, n)[i],
            ),
    decreases n,
{
    if n > 0 {
        first_citations_are_distinct(v, n - 1);
        let s = first_citations(v, n - 1);
        let t = first_citations(v, n);
        assert forall|i: int| 0 <= i < t.len() implies v.take(n).contains(#[trigger] t[i]) by {
            if i < s.len() {
                assert(t[i] == s[i]);
                let k = v.take(n - 1).index_of(s[i]);
                assert(v.take(n)[k] == t[i]);
            } else {
                assert(v.take(n)[n - 1] == t[i]);
            }
        }
        assert forall|i: int, j: int|
            #![trigger t[i], t[j]]
            0 <= i < j < t.len() implies t[i].canonical != t[j].canonical by {
            assert(t[i] == s[i]);
            if j < s.len() {
                assert(t[j] == s[j]);
            } else {
                let k = v.take(n - 1).index_of(s[i]);
                assert(v[k] == t[i]);
                assert(t[j] == v[n - 1]);
            }
        }
    }
}

// ---------------------------------------------------------------------------
// Reading back what was found
// ---------------------------------------------------------------------------

/// Whether an identifier is the citation written at place `i` of a text.
pub open spec fn is_cited_at(id: IdentifierView, s: Seq<char>, i: int) -> bool {
    let p = spans(s, Some('-'));
    &&& 0 <= i < p.len()
    &&& citation_at(small_words(s), i) matches Some((canonical, j)) && id == (IdentifierView {
        canonical,
        matched_on: s.subrange(p[i].0, p[j].1),
    })
}

proof fn citations_stand_somewhere(s: Seq<char>, i: int, k: int)
    requires
        0 <= i,
        0 <= k < citations_from(s, i).len(),
    ensures
        exists|at: int| #[trigger] is_cited_at(citations_from(s, i)[k], s, at),
    decreases small_words(s).len() - i,
{
    let tokens = small_words(s);
    if i < tokens.len() {
        citation_ends_behind_its_start(tokens, i);
        match citation_at(tokens, i) {
            Some((canonical, j)) => {
                if k == 0 {
                    assert(is_cited_at(citations_from(s, i)[0], s, i));
                } else {
                    citations_stand_somewhere(s, j + 1, k - 1);
                    assert(citations_from(s, i)[k] == citations_from(s, j + 1)[k - 1]);
                }
            },
            None => {
                citations_stand_somewhere(s, i + 1, k);
            },
        }
    }
}

proof fn an_identifier_stands_somewhere(query: Seq<char>, k: int)
    requires
        0 <= k < identifiers(query).len(),
    ensures
        exists|at: int| #[trigger] is_cited_at(identifiers(query)[k], query, at),
{
    let all = citations_from(query, 0);
    first_citations_are_distinct(all, all.len() as int);
    assert(all.take(all.len() as int) =~= all);
    let m = all.index_of(identifiers(query)[k]);
    citations_stand_somewhere(query, 0, m);
}

proof fn fillers_of_a_part(tokens: Seq<Seq<char>>, i: int, j: int, at: int)
    requires
        0 <= i <= at,
        j < tokens.len(),
        past_fillers(tokens, at) <= j,
    ensures
        past_fillers(tokens.subrange(i, j + 1), at - i) == past_fillers(tokens, at) - i,
    decreases tokens.len() - at,
{
    past_fillers_goes_on(tokens, at);
    let part = tokens.subrange(i, j + 1);
    assert(part[at - i] == tokens[at]);
    if fillers().contains(tokens[at]) {
        past_fillers_goes_on(tokens, at + 1);
        fillers_of_a_part(tokens, i, j, at + 1);
    }
}

proof fn doc_type_of_a_part(tokens: Seq<Seq<char>>, i: int, j: int, k: int)
    requires
        0 <= i <= j < tokens.len(),
        0 <= k,
        doc_type_from(tokens, i, k) is Some,
        i + (doc_type_from(tokens, i, k)->0).words.len() <= j,
    ensures
        doc_type_from(tokens.subrange(i, j + 1), 0, k) == doc_type_from(tokens, i, k),
    decreases doc_types().len() - k,
{
    let part = tokens.subrange(i, j + 1);
    let w = doc_types()[k].words;
    if k < doc_types().len() {
        if i + w.len() <= j + 1 {
            assert(part.subrange(0, w.len() as int) =~= tokens.subrange(i, i + w.len()));
        }
        if !stands_at(tokens, i, tokens.len() as int, w) {
            doc_type_of_a_part(tokens, i, j, k + 1);
        }
    }
}

proof fn citation_of_a_part(tokens: Seq<Seq<char>>, i: int)
    requires
        0 <= i < tokens.len(),
        citation_at(tokens, i) is Some,
    ensures
        ({
            let (canonical, j) = citation_at(tokens, i)->0;
            citation_at(tokens.subrange(i, j + 1), 0) == Some((canonical, j - i))
        }),
{
    let (canonical, j) = citation_at(tokens, i)->0;
    let part = tokens.subrange(i, j + 1);
    let t = doc_type_at(tokens, i)->0;
    let n = past_fillers(tokens, i + t.words.len());
    past_fillers_goes_on(tokens, i + t.words.len());
    past_fillers_goes_on(tokens, n + 1);
    doc_type_of_a_part(tokens, i, j, 0);
    fillers_of_a_part(tokens, i, j, i + t.words.len());
    fillers_of_a_part(tokens, i, j, n + 1);
    assert(part[n - i] == tokens[n]);
    assert(part[j - i] == tokens[j]);
}

/// Where the citation at the first word takes up the whole text, it is all that
/// is found.
proof fn a_lone_citation(s: Seq<char>, canonical: Seq<char>)
    requires
        small_words(s).len() > 0,
        citation_at(small_words(s), 0) == Some((canonical, small_words(s).len() - 1)),
        spans(s, Some('-'))[0].0 == 0,
        spans(s, Some('-')).last().1 == s.len(),
    ensures
        identifiers(s) == seq![IdentifierView { canonical, matched_on: s }],
{
    let tokens = small_words(s);
    let all = citations_from(s, 0);
    assert(s.subrange(0, s.len() as int) =~= s);
    assert(citations_from(s, tokens.len() as int) =~= Seq::empty());
    assert(all =~= seq![IdentifierView { canonical, matched_on: s }]);
    reveal_with_fuel(first_citations, 2);
    assert(!cited_before(all, 0));
    assert(identifiers(s) =~= all);
}

/// What an identifier was matched on is a part of the query, and read by itself
/// it gives that identifier and nothing else.
pub proof fn a_match_is_read_back_as_itself(query: Seq<char>, k: int)
    requires
        0 <= k < identifiers(query).len(),
    ensures
        ({
            let id = identifiers(query)[k];
            &&& exists|a: int, b: int|
                0 <= a < b <= query.len() && id.matched_on == #[trigger] query.subrange(a, b)
            &&& identifiers(id.matched_on) == seq![id]
        }),
{
    let id = identifiers(query)[k];
    an_identifier_stands_somewhere(query, k);
    let i = choose|at: int| #[trigger] is_cited_at(id, query, at);
    let tokens = small_words(query);
    let p = spans(query, Some('-'));
    citation_ends_behind_its_start(tokens, i);
    let (canonical, j) = citation_at(tokens, i)->0;
    let m = id.matched_on;
    spans_of_a_part(query, Some('-'), i, j);
    assert(m == query.subrange(p[i].0, p[j].1));
    assert(small_words(m) =~= tokens.subrange(i, j + 1)) by {
        assert(small_words(m) =~= words(m, Some('-')).map_values(
            |w: Seq<char>| lowercase_text(w),
        ));
        assert(tokens =~= words(query, Some('-')).map_values(|w: Seq<char>| lowercase_text(w)));
    }
    citation_of_a_part(tokens, i);
    let q = spans(m, Some('-'));
    assert(q[0] == moved(p.subrange(i, j + 1), -p[i].0)[0]);
    assert(q.last() == moved(p.subrange(i, j + 1), -p[i].0)[j - i]);
    a_lone_citation(m, canonical);
}

// ---------------------------------------------------------------------------
// The canonical form
// ---------------------------------------------------------------------------

/// The canonical form of a citation: a document type, a number and a year.
pub open spec fn canonical_form(k: int, number: Seq<char>, year: Seq<char>) -> Seq<char> {
    doc_types()[k].canonical + " "@ + number + "/"@ + year
}

/// Whether a text is in canonical form.
pub open spec fn is_canonical(s: Seq<char>) -> bool {
    exists|k: int, number: Seq<char>, year: Seq<char>|
        0 <= k < doc_types().len() && number_like(number) && plausible_year(year) && s
            == #[trigger] canonical_form(k, number, year)
}

/// Every identifier is in canonical form. With what [`extract`] says of such a
/// query, what was extracted is extracted again from its own canonical form.
pub proof fn an_identifier_is_canonical(query: Seq<char>, i: int)
    requires
        0 <= i < identifiers(query).len(),
    ensures
        is_canonical(identifiers(query)[i].canonical),
{
    an_identifier_stands_somewhere(query, i);
    let at = choose|at: int| #[trigger] is_cited_at(identifiers(query)[i], query, at);
    let tokens = small_words(query);
    doc_types_come_from_the_table(tokens, at, 0);
    let k = choose|k: int|
        0 <= k < doc_types().len() && doc_type_at(tokens, at) == Some(#[trigger] doc_types()[k]);
    let n = past_fillers(tokens, at + doc_types()[k].words.len());
    let y = past_fillers(tokens, n + 1);
    assert(identifiers(query)[i].canonical == canonical_form(k, tokens[n], tokens[y]));
}

proof fn doc_types_come_from_the_table(tokens: Seq<Seq<char>>, i: int, k: int)
    requires
        0 <= k,
        doc_type_from(tokens, i, k) is Some,
    ensures
        exists|j: int|
            0 <= j < doc_types().len() && doc_type_from(tokens, i, k) == Some(
                #[trigger] doc_types()[j],
            ),
    decreases doc_types().len() - k,
{
    if k < doc_types().len() && !stands_at(tokens, i, tokens.len() as int, doc_types()[k].words) {
        doc_types_come_from_the_table(tokens, i, k + 1);
    }
}

/// A text of word characters alone is one word.
proof fn one_word(w: Seq<char>, inner: Option<char>)
    requires
        w.len() > 0,
        forall|i: int| 0 <= i < w.len() ==> word_char(#[trigger] w[i], inner),
    ensures
        spans(w, inner) == seq![(0int, w.len() as int)],
        words(w, inner) == seq![w],
{
    runs_to_the_end(w, inner, 0);
    assert(word_start(w, inner, 0) == 0);
    assert(spans_from(w, inner, w.len() as int) =~= Seq::empty());
    assert(spans(w, inner) =~= seq![(0int, w.len() as int)]);
    assert(w.subrange(0, w.len() as int) =~= w);
    assert(words(w, inner) =~= seq![w]);
}

proof fn runs_to_the_end(w: Seq<char>, inner: Option<char>, i: int)
    requires
        0 <= i <= w.len(),
        forall|i: int| 0 <= i < w.len() ==> word_char(#[trigger] w[i], inner),
    ensures
        word_end(w, inner, i) == w.len(),
    decreases w.len() - i,
{
    if i < w.len() {
        runs_to_the_end(w, inner, i + 1);
    }
}

/// The small form of an abbreviation.
pub open spec fn small_form(w: Seq<char>) -> Seq<char> {
    w.map_values(|c: char| ascii_lower(c))
}

/// Where an abbreviation stands in the table: its small form is a spelling of
/// one word, and none before it starts with that word.
proof fn an_abbreviation_is_a_spelling(k: int) -> (at: int)
    requires
        0 <= k < doc_types().len(),
    ensures
        0 <= at < doc_types().len(),
        doc_types()[at].canonical == doc_types()[k].canonical,
        doc_types()[at].words == seq![small_form(doc_types()[k].canonical)],
        forall|j: int| 0 <= j < at ==> (#[trigger] doc_types()[j]).words.len() > 0
            && doc_types()[j].words[0] != small_form(doc_types()[k].canonical),
        doc_types()[k].canonical.len() > 0,
        forall|i: int|
            0 <= i < doc_types()[k].canonical.len() ==> 'A' <= #[trigger] doc_types()[k].canonical[i]
                <= 'Z',
{
    reveal_strlit("undang-undang");
    reveal_strlit("peraturan");
    reveal_strlit("keputusan");
    reveal_strlit("instruksi");
    reveal_strlit("uud");
    reveal_strlit("uu");
    reveal_strlit("perppu");
    reveal_strlit("perpres");
    reveal_strlit("permenkeu");
    reveal_strlit("permen");
    reveal_strlit("keppres");
    reveal_strlit("inpres");
    reveal_strlit("perda");
    reveal_strlit("pmk");
    reveal_strlit("pp");
    reveal_strlit("UUD");
    reveal_strlit("UU");
    reveal_strlit("PERPPU");
    reveal_strlit("PERPRES");
    reveal_strlit("PERMENKEU");
    reveal_strlit("PERMEN");
    reveal_strlit("KEPPRES");
    reveal_strlit("INPRES");
    reveal_strlit("PERDA");
    reveal_strlit("PMK");
    reveal_strlit("PP");
    let at: int = if k == 0 {
        8
    } else if k == 1 {
        9
    } else if k == 2 {
        18
    } else if k == 3 {
        11
    } else if k == 4 {
        13
    } else if k == 5 {
        16
    } else if k == 6 {
        14
    } else if k == 7 {
        15
    } else {
        k
    };
    assert(small_form("UUD"@) =~= "uud"@);
    assert(small_form("UU"@) =~= "uu"@);
    assert(small_form("PERPPU"@) =~= "perppu"@);
    assert(small_form("PERPRES"@) =~= "perpres"@);
    assert(small_form("PERMENKEU"@) =~= "permenkeu"@);
    assert(small_form("PERMEN"@) =~= "permen"@);
    assert(small_form("KEPPRES"@) =~= "keppres"@);
    assert(small_form("INPRES"@) =~= "inpres"@);
    assert(small_form("PERDA"@) =~= "perda"@);
    assert(small_form("PMK"@) =~= "pmk"@);
    assert(small_form("PP"@) =~= "pp"@);
    assert("uud"@.len() == 3 && "uu"@.len() == 2 && "perppu"@.len() == 6 && "perpres"@.len() == 7
        && "permenkeu"@.len() == 9 && "permen"@.len() == 6 && "keppres"@.len() == 7
        && "inpres"@.len() == 6 && "perda"@.len() == 5 && "pmk"@.len() == 3 && "pp"@.len() == 2
        && "undang-undang"@.len() == 13 && "peraturan"@.len() == 9 && "keputusan"@.len() == 9
        && "instruksi"@.len() == 9);
    assert("uud"@[0] == 'u' && "pmk"@[0] == 'p' && "uu"@[0] == 'u' && "pp"@[0] == 'p');
    assert("perppu"@[3] == 'p' && "permen"@[3] == 'm' && "inpres"@[0] == 'i' && "perppu"@[0] == 'p'
        && "permen"@[0] == 'p');
    assert("perpres"@[0] == 'p' && "keppres"@[0] == 'k');
    assert("permenkeu"@[3] == 'm' && "peraturan"@[3] == 'a' && "keputusan"@[0] == 'k'
        && "instruksi"@[0] == 'i' && "permenkeu"@[0] == 'p');
    at
}

/// A document type is read where its abbreviation stands.
proof fn an_abbreviation_is_read(tokens: Seq<Seq<char>>, w: Seq<char>, at: int, k: int)
    requires
        0 <= k <= at < doc_types().len(),
        tokens.len() > 0,
        tokens[0] == w,
        doc_types()[at].words == seq![w],
        forall|j: int|
            0 <= j < at ==> (#[trigger] doc_types()[j]).words.len() > 0 && doc_types()[j].words[0]
                != w,
    ensures
        doc_type_from(tokens, 0, k) == Some(doc_types()[at]),
    decreases at - k,
{
    let words = doc_types()[k].words;
    if k < at {
        if stands_at(tokens, 0, tokens.len() as int, words) {
            assert(tokens.subrange(0, words.len() as int)[0] == tokens[0]);
        }
        an_abbreviation_is_read(tokens, w, at, k + 1);
    } else {
        assert(tokens.subrange(0, 1) =~= seq![w]);
    }
}

proof fn digits_are_no_filler(w: Seq<char>)
    requires
        w.len() > 0,
        all_digits(w),
    ensures
        !fillers().contains(w),
{
    reveal_strlit("no");
    reveal_strlit("nomor");
    reveal_strlit("number");
    reveal_strlit("tahun");
    reveal_strlit("th");
    reveal_strlit("year");
    assert(is_digit(w[0]));
    assert("no"@[0] == 'n' && "nomor"@[0] == 'n' && "number"@[0] == 'n' && "tahun"@[0] == 't'
        && "th"@[0] == 't' && "year"@[0] == 'y');
}

/// A text in canonical form is one citation, of itself.
proof fn a_canonical_form_reads_as_itself(s: Seq<char>)
    requires
        is_canonical(s),
        reads_plainly(s),
    ensures
        identifiers(s) == seq![IdentifierView { canonical: s, matched_on: s }],
{
    let (k, number, year) = choose|k: int, number: Seq<char>, year: Seq<char>|
        0 <= k < doc_types().len() && number_like(number) && plausible_year(year) && s
            == #[trigger] canonical_form(k, number, year);
    let at = an_abbreviation_is_a_spelling(k);
    let t = doc_types()[k].canonical;
    reveal_strlit(" ");
    reveal_strlit("/");
    let b = number.push('/') + year;
    let inner = Some('-');
    assert(s =~= t.push(' ') + b);
    let n = t.len() as int;
    let m = number.len() as int;
    assert forall|i: int| 0 <= i < n implies word_char(#[trigger] t[i], inner) by {
        assert(s[i] == t[i]);
    }
    assert forall|i: int| 0 <= i < m implies word_char(#[trigger] number[i], inner) by {
        assert(s[n + 1 + i] == number[i]);
        assert(is_digit(number[i]));
    }
    assert forall|i: int| 0 <= i < 4 implies word_char(#[trigger] year[i], inner) by {
        assert(s[n + 1 + m + 1 + i] == year[i]);
        assert(is_digit(year[i]));
    }
    assert(s[n] == ' ');
    assert(s[n + 1 + m] == '/');
    assert(!word_char(' ', inner) && !word_char('/', inner));
    one_word(t, inner);
    one_word(number, inner);
    one_word(year, inner);
    spans_of_joined_texts(number, '/', year, inner);
    spans_of_joined_texts(t, ' ', b, inner);
    let all = words(s, inner);
    assert(all =~= seq![t, number, year]);
    let p = spans(s, inner);
    assert(p.len() == 3);
    assert(p[0] == (0int, n));
    assert(moved(spans(year, inner), m + 1)[0] == (m + 1, m + 5));
    assert(spans(b, inner)[1] == (m + 1, m + 5));
    assert(p[2] == moved(spans(b, inner), n + 1)[1]);
    let tokens = small_words(s);
    assert(tokens =~= all.map_values(|w: Seq<char>| lowercase_text(w)));
    assert(is_small_plainly(all[0]) && is_small_plainly(all[1]) && is_small_plainly(all[2]));
    assert(tokens[0] == small_form(t));
    assert(tokens[1] == number) by {
        assert(small_form(number) =~= number) by {
            assert forall|i: int| 0 <= i < m implies ascii_lower(#[trigger] number[i])
                == number[i] by {
                assert(is_digit(number[i]));
            }
        }
        assert(ascii(number)) by {
            assert forall|i: int| 0 <= i < m implies (#[trigger] number[i] as u32) < 128 by {
                assert(is_digit(number[i]));
            }
        }
    }
    assert(tokens[2] == year) by {
        assert(small_form(year) =~= year) by {
            assert forall|i: int| 0 <= i < 4 implies ascii_lower(#[trigger] year[i]) == year[i] by {
                assert(is_digit(year[i]));
            }
        }
        assert(ascii(year)) by {
            assert forall|i: int| 0 <= i < 4 implies (#[trigger] year[i] as u32) < 128 by {
                assert(is_digit(year[i]));
            }
        }
    }
    an_abbreviation_is_read(tokens, small_form(t), at, 0);
    digits_are_no_filler(number);
    digits_are_no_filler(year);
    assert(past_fillers(tokens, 1) == 1);
    assert(past_fillers(tokens, 2) == 2);
    assert(citation_at(tokens, 0) == Some((s, 2int)));
    a_lone_citation(s, s);
}

// ---------------------------------------------------------------------------
// Citations as they are written
// ---------------------------------------------------------------------------

/// A citation as it is written: the words of a document type, filler words or
/// none, a number, filler words or none, and a year.
pub ghost struct Written {
    /// The place of the document type in the table.
    pub kind: int,
    pub before_number: Seq<Seq<char>>,
    pub number: Seq<char>,
    pub before_year: Seq<Seq<char>>,
    pub year: Seq<char>,
}

impl Written {
    /// The words of the citation, in order.
    pub open spec fn tokens(self) -> Seq<Seq<char>> {
        doc_types()[self.kind].words + self.before_number + seq![self.number] + self.before_year
            + seq![self.year]
    }

    /// Whether the parts are what they have to be: a number of one to four
    /// digits, and a year of four digits that lies between 1945 and 2100.
    pub open spec fn is_sound(self) -> bool {
        &&& 0 <= self.kind < doc_types().len()
        &&& forall|i: int|
            0 <= i < self.before_number.len() ==> is_filler(#[trigger] self.before_number[i])
        &&& forall|i: int|
            0 <= i < self.before_year.len() ==> is_filler(#[trigger] self.before_year[i])
        &&& 1 <= self.number.len() <= 4
        &&& forall|i: int| 0 <= i < self.number.len() ==> '0' <= #[trigger] self.number[i] <= '9'
        &&& self.year.len() == 4
        &&& forall|i: int| 0 <= i < self.year.len() ==> '0' <= #[trigger] self.year[i] <= '9'
        &&& 1945 <= (self.year[0] as u32 - 48) * 1000 + (self.year[1] as u32 - 48) * 100 + (
        self.year[2] as u32 - 48) * 10 + (self.year[3] as u32 - 48) <= 2100
    }

    /// The canonical form.
    pub open spec fn says(self) -> Seq<char> {
        doc_types()[self.kind].canonical + " "@ + self.number + "/"@ + self.year
    }
}

/// A word that sits between the parts of a citation.
pub open spec fn is_filler(w: Seq<char>) -> bool {
    w == "no"@ || w == "nomor"@ || w == "number"@ || w == "tahun"@ || w == "th"@ || w == "year"@
}

proof fn a_filler_is_in_the_table(w: Seq<char>)
    ensures
        is_filler(w) <==> fillers().contains(w),
        is_filler(w) ==> w != "dasar"@,
{
    let f = fillers();
    assert(f[0] == "no"@ && f[1] == "nomor"@ && f[2] == "number"@ && f[3] == "tahun"@ && f[4]
        == "th"@ && f[5] == "year"@);
    reveal_strlit("no");
    reveal_strlit("nomor");
    reveal_strlit("number");
    reveal_strlit("tahun");
    reveal_strlit("th");
    reveal_strlit("year");
    reveal_strlit("dasar");
    assert("no"@[0] == 'n' && "nomor"@[0] == 'n' && "number"@[0] == 'n' && "tahun"@[0] == 't'
        && "th"@[0] == 't' && "year"@[0] == 'y' && "dasar"@[0] == 'd');
}

/// A regulation number is one to four digits, and nothing else is.
pub proof fn a_number_is_one_to_four_digits(s: Seq<char>)
    ensures
        number_like(s) <==> 1 <= s.len() <= 4 && forall|i: int|
            0 <= i < s.len() ==> '0' <= #[trigger] s[i] <= '9',
{
}

/// A year is four digits that read as a number from 1945 to 2100.
pub proof fn a_year_lies_between_its_bounds(s: Seq<char>)
    requires
        s.len() == 4,
        forall|i: int| 0 <= i < 4 ==> '0' <= #[trigger] s[i] <= '9',
    ensures
        plausible_year(s) <==> 1945 <= (s[0] as u32 - 48) * 1000 + (s[1] as u32 - 48) * 100 + (
        s[2] as u32 - 48) * 10 + (s[3] as u32 - 48) <= 2100,
{
    assert(s.drop_last() =~= s.take(3));
    assert(s.take(3).drop_last() =~= s.take(2));
    assert(s.take(2).drop_last() =~= s.take(1));
    assert(s.take(1).drop_last() =~= Seq::<char>::empty());
    reveal_with_fuel(number_of, 5);
    assert(number_of(s.take(1)) == s[0] as u32 - 48);
    assert(number_of(s.take(2)) == number_of(s.take(1)) * 10 + (s[1] as u32 - 48));
    assert(number_of(s.take(3)) == number_of(s.take(2)) * 10 + (s[2] as u32 - 48));
    assert(number_of(s) == number_of(s.take(3)) * 10 + (s[3] as u32 - 48));
}

proof fn spellings_differ(j: int, k: int)
    requires
        0 <= j < k < doc_types().len(),
    ensures
        doc_types()[j].words.len() == 1 || doc_types()[j].words.len() == 2,
        doc_types()[k].words.len() == 1 || doc_types()[k].words.len() == 2,
        ({
            let a = doc_types()[j].words;
            let b = doc_types()[k].words;
            ||| a[0] != b[0]
            ||| a.len() == 2 && b.len() == 2 && a[1] != b[1]
            ||| a.len() == 2 && b.len() == 1 && a[1] == "dasar"@
        }),
{
    reveal_strlit("undang-undang");
    reveal_strlit("peraturan");
    reveal_strlit("keputusan");
    reveal_strlit("instruksi");
    reveal_strlit("uud");
    reveal_strlit("uu");
    reveal_strlit("perppu");
    reveal_strlit("perpres");
    reveal_strlit("permenkeu");
    reveal_strlit("permen");
    reveal_strlit("keppres");
    reveal_strlit("inpres");
    reveal_strlit("perda");
    reveal_strlit("pmk");
    reveal_strlit("pp");
    reveal_strlit("pemerintah");
    reveal_strlit("presiden");
    reveal_strlit("menteri");
    reveal_strlit("daerah");
    assert("uud"@.len() == 3 && "uu"@.len() == 2 && "perppu"@.len() == 6 && "perpres"@.len() == 7
        && "permenkeu"@.len() == 9 && "permen"@.len() == 6 && "keppres"@.len() == 7
        && "inpres"@.len() == 6 && "perda"@.len() == 5 && "pmk"@.len() == 3 && "pp"@.len() == 2
        && "undang-undang"@.len() == 13 && "peraturan"@.len() == 9 && "keputusan"@.len() == 9
        && "instruksi"@.len() == 9);
    assert("pemerintah"@.len() == 10 && "presiden"@.len() == 8 && "menteri"@.len() == 7
        && "daerah"@.len() == 6);
    assert("uud"@[0] == 'u' && "pmk"@[0] == 'p' && "uu"@[0] == 'u' && "pp"@[0] == 'p');
    assert("perppu"@[3] == 'p' && "permen"@[3] == 'm' && "inpres"@[0] == 'i' && "perppu"@[0] == 'p'
        && "permen"@[0] == 'p');
    assert("perpres"@[0] == 'p' && "keppres"@[0] == 'k');
    assert("permenkeu"@[3] == 'm' && "peraturan"@[3] == 'a' && "keputusan"@[0] == 'k'
        && "instruksi"@[0] == 'i' && "permenkeu"@[0] == 'p' && "peraturan"@[0] == 'p');
}

proof fn a_spelling_is_read(tokens: Seq<Seq<char>>, k: int, from: int)
    requires
        0 <= from <= k < doc_types().len(),
        doc_types()[k].words.len() < tokens.len(),
        tokens.subrange(0, doc_types()[k].words.len() as int) == doc_types()[k].words,
        tokens[doc_types()[k].words.len() as int] != "dasar"@,
    ensures
        doc_type_from(tokens, 0, from) == Some(doc_types()[k]),
    decreases k - from,
{
    let b = doc_types()[k].words;
    let part = tokens.subrange(0, b.len() as int);
    if from < k {
        let a = doc_types()[from].words;
        spellings_differ(from, k);
        if stands_at(tokens, 0, tokens.len() as int, a) {
            let other = tokens.subrange(0, a.len() as int);
            assert(other[0] == tokens[0] && part[0] == tokens[0]);
            if a.len() == 2 {
                assert(other[1] == tokens[1]);
            }
            if b.len() == 2 {
                assert(part[1] == tokens[1]);
            }
        }
        a_spelling_is_read(tokens, k, from + 1);
    }
}

proof fn fillers_are_passed(tokens: Seq<Seq<char>>, j: int, n: int)
    requires
        0 <= j <= n < tokens.len(),
        forall|i: int| j <= i < n ==> fillers().contains(#[trigger] tokens[i]),
        !fillers().contains(tokens[n]),
    ensures
        past_fillers(tokens, j) == n,
    decreases n - j,
{
    if j < n {
        fillers_are_passed(tokens, j + 1, n);
    }
}

/// The words of a citation read as one citation that takes up all of them: its
/// document type, its number and its year, in canonical form.
pub proof fn a_citation_is_read_as_it_is_written(c: Written)
    requires
        c.is_sound(),
    ensures
        citation_at(c.tokens(), 0) == Some((c.says(), c.tokens().len() - 1)),
{
    let tokens = c.tokens();
    let w = doc_types()[c.kind].words;
    let m = w.len() as int;
    let n = m + c.before_number.len();
    let y = n + 1 + c.before_year.len();
    assert(tokens[n] == c.number);
    assert(tokens[y] == c.year);
    assert(tokens.subrange(0, m) =~= w);
    assert(is_digit(c.number[0]));
    assert(is_digit(c.year[0]));
    digits_are_no_filler(c.number);
    digits_are_no_filler(c.year);
    assert forall|i: int| m <= i < n implies fillers().contains(#[trigger] tokens[i]) by {
        assert(tokens[i] == c.before_number[i - m]);
        a_filler_is_in_the_table(tokens[i]);
    }
    assert forall|i: int| n + 1 <= i < y implies fillers().contains(#[trigger] tokens[i]) by {
        assert(tokens[i] == c.before_year[i - n - 1]);
        a_filler_is_in_the_table(tokens[i]);
    }
    assert(tokens[m] != "dasar"@) by {
        reveal_strlit("dasar");
        assert("dasar"@[0] == 'd');
        if m < n {
            assert(tokens[m] == c.before_number[0]);
            a_filler_is_in_the_table(tokens[m]);
        }
    }
    a_spelling_is_read(tokens, c.kind, 0);
    fillers_are_passed(tokens, m, n);
    fillers_are_passed(tokens, n + 1, y);
    a_year_lies_between_its_bounds(c.year);
    a_number_is_one_to_four_digits(c.number);
}

/// A query that is one written citation gives that one identifier.
proof fn a_written_citation_is_found(s: Seq<char>, p: Seq<(int, int)>, c: Written)
    requires
        ascii(s),
        reads_plainly(s),
        are_runs(s, p, Some('-')),
        run_texts(s, p) == c.tokens(),
        c.is_sound(),
    ensures
        identifiers(s) == seq![
            IdentifierView { canonical: c.says(), matched_on: s.subrange(p[0].0, p.last().1) },
        ],
{
    let q = spans(s, Some('-'));
    spans_are_runs(s, Some('-'));
    runs_are_unique(s, p, q, Some('-'));
    let tokens = small_words(s);
    assert(tokens =~= c.tokens()) by {
        assert forall|k: int| 0 <= k < q.len() implies #[trigger] tokens[k] == run_texts(
            s,
            p,
        )[k] by {
            let w = words(s, Some('-'))[k];
            assert(w == s.subrange(q[k].0, q[k].1));
            assert(is_small_plainly(w));
            assert(0 <= q[k].0 < q[k].1 <= s.len());
            assert(ascii(w)) by {
                assert forall|i: int| 0 <= i < w.len() implies (#[trigger] w[i] as u32) < 128 by {
                    assert(w[i] == s[q[k].0 + i]);
                }
            }
        }
    }
    a_citation_is_read_as_it_is_written(c);
    let id = IdentifierView { canonical: c.says(), matched_on: s.subrange(p[0].0, p.last().1) };
    let all = citations_from(s, 0);
    assert(citations_from(s, tokens.len() as int) =~= Seq::empty());
    assert(all =~= seq![id]);
    reveal_with_fuel(first_citations, 2);
    assert(!cited_before(all, 0));
    assert(identifiers(s) =~= all);
}

/// Of citations with one canonical form the first is kept, and every other
/// citation is. `q` says which citation each kept one is.
pub proof fn the_first_citation_of_a_form_is_kept(v: Seq<IdentifierView>, n: int) -> (q: Seq<int>)
    requires
        0 <= n <= v.len(),
    ensures
        picks(
            q,
            n,
            |i: int| forall|k: int| 0 <= k < i ==> (#[trigger] v[k]).canonical != v[i].canonical,
        ),
        first_citations(v, n).len() == q.len(),
        forall|k: int| 0 <= k < q.len() ==> first_citations(v, n)[k] == v[#[trigger] q[k]],
    decreases n,
{
    let f = |i: int| forall|k: int| 0 <= k < i ==> (#[trigger] v[k]).canonical != v[i].canonical;
    if n <= 0 {
        Seq::empty()
    } else {
        let q = the_first_citation_of_a_form_is_kept(v, n - 1);
        assert(f(n - 1) == !cited_before(v, n - 1));
        picks_one_more(q, n - 1, f)
    }
}

/// At which word the citation that begins at each word ends, where one does.
pub open spec fn citation_ends(tokens: Seq<Seq<char>>) -> Seq<Option<int>> {
    Seq::new(
        tokens.len(),
        |i: int|
            match citation_at(tokens, i) {
                Some((canonical, j)) => Some(j),
                None => None,
            },
    )
}

/// Every citation of a text is found, in order. `q` says with which word each
/// begins: none overlaps another, and a word with which a citation could begin
/// lies within one that was found.
pub proof fn every_citation_is_found(s: Seq<char>) -> (q: Seq<int>)
    ensures
        takes_all(q, citation_ends(small_words(s)), 0),
        citations_from(s, 0).len() == q.len(),
        forall|k: int|
            0 <= k < q.len() ==> is_cited_at(citations_from(s, 0)[k], s, #[trigger] q[k]),
{
    let ends = citation_ends(small_words(s));
    assert forall|i: int| #[trigger] begins(ends, i) implies i <= ends[i]->0 < ends.len() by {
        citation_ends_behind_its_start(small_words(s), i);
    }
    taking_passes_nothing_over(ends, 0);
    citations_are_taken(s, 0);
    taken(ends, 0)
}

proof fn citations_are_taken(s: Seq<char>, from: int)
    requires
        0 <= from,
    ensures
        ({
            let q = taken(citation_ends(small_words(s)), from);
            &&& citations_from(s, from).len() == q.len()
            &&& forall|k: int|
                0 <= k < q.len() ==> is_cited_at(citations_from(s, from)[k], s, #[trigger] q[k])
        }),
    decreases small_words(s).len() - from,
{
    let tokens = small_words(s);
    let ends = citation_ends(tokens);
    if from < tokens.len() {
        citation_ends_behind_its_start(tokens, from);
        let q = taken(ends, from);
        let r = citations_from(s, from);
        match citation_at(tokens, from) {
            Some((canonical, j)) => {
                assert(ends[from] == Some(j));
                citations_are_taken(s, j + 1);
                let rest = taken(ends, j + 1);
                let behind = citations_from(s, j + 1);
                assert(is_cited_at(r[0], s, from));
                assert forall|k: int| 0 <= k < q.len() implies is_cited_at(
                    r[k],
                    s,
                    #[trigger] q[k],
                ) by {
                    if k > 0 {
                        assert(q[k] == rest[k - 1]);
                        assert(r[k] == behind[k - 1]);
                    }
                }
            },
            None => {
                assert(ends[from] is None);
                citations_are_taken(s, from + 1);
            },
        }
    }
}

} // verus!
