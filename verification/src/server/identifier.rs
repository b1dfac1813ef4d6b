//! Pulling regulation references out of a free-text query.
//!
//! What is recognised here is looked up globally, whatever routing decides, so
//! a regulation that the user names outright is never lost to it.
//!
//! ```text
//! UU 28/2007              number and year
//! PP No. 26 Tahun 2009    the same, spelled out
//! Nomor 26 Tahun 2009     the same, without a tier
//! ```

use vstd::prelude::*;

use crate::order::{begins, taken, takes_all, taking_passes_nothing_over};
use crate::phrases::{is_at, one, phrase1, phrase2, phrase3, phrase_views, stands_at, three, two, Phrase, PhraseView};
use crate::text::{all_digits, are_digits, are_runs, ascii, ascii_lower, chars_of, is_digit, is_plain, lowercase_text, number_of, run_texts, runs_are_unique, same, small_words_are_runs, string_of, texts, to_lowercase, word_spans, words};

verus! {

/// A regulation reference found in a query.
#[derive(Debug, PartialEq, Eq)]
pub struct Identifier {
    pub number: String,
    pub year: Option<i32>,
    /// The tier the user named. Number and year alone are no unique reference.
    /// `None` means that no tier was named and every tier is a legitimate hit.
    pub reg_type: Option<&'static str>,
}

/// A reference, as what it says.
pub ghost struct Mention {
    pub number: Seq<char>,
    pub year: Option<i32>,
    pub reg_type: Option<Seq<char>>,
}

impl Identifier {
    pub open spec fn view(self) -> Mention {
        Mention {
            number: self.number@,
            year: self.year,
            reg_type: match self.reg_type {
                Some(t) => Some(t@),
                None => None,
            },
        }
    }
}

/// The references of a list, as what they say.
pub open spec fn mentions(v: Seq<Identifier>) -> Seq<Mention> {
    v.map_values(|id: Identifier| id@)
}

/// How tiers of regulation are named in practice.
pub open spec fn tiers() -> Seq<PhraseView> {
    seq![
        phrase2("undang"@, "undang"@, "UNDANG-UNDANG"@),
        phrase1("uu"@, "UNDANG-UNDANG"@),
        phrase2("peraturan"@, "pemerintah"@, "PERATURAN PEMERINTAH"@),
        phrase1("pp"@, "PERATURAN PEMERINTAH"@),
        phrase2("peraturan"@, "presiden"@, "PERATURAN PRESIDEN"@),
        phrase1("perpres"@, "PERATURAN PRESIDEN"@),
        phrase2("instruksi"@, "presiden"@, "INSTRUKSI PRESIDEN"@),
        phrase1("inpres"@, "INSTRUKSI PRESIDEN"@),
        phrase2("peraturan"@, "gubernur"@, "PERATURAN GUBERNUR"@),
        phrase1("pergub"@, "PERATURAN GUBERNUR"@),
        phrase2("peraturan"@, "bupati"@, "PERATURAN BUPATI"@),
        phrase1("perbup"@, "PERATURAN BUPATI"@),
        phrase2("peraturan"@, "walikota"@, "PERATURAN WALIKOTA"@),
        phrase3("peraturan"@, "wali"@, "kota"@, "PERATURAN WALIKOTA"@),
        phrase1("perwali"@, "PERATURAN WALIKOTA"@),
        phrase3("peraturan"@, "daerah"@, "provinsi"@, "PERATURAN DAERAH PROVINSI"@),
        phrase3("peraturan"@, "daerah"@, "kabupaten"@, "PERATURAN DAERAH KABUPATEN"@),
        phrase3("peraturan"@, "daerah"@, "kota"@, "PERATURAN DAERAH KOTA"@),
    ]
}

fn tier_phrases() -> (r: Vec<Phrase>)
    ensures
        phrase_views(r@) == tiers(),
{
    let r = vec![
        two("undang", "undang", "UNDANG-UNDANG"),
        one("uu", "UNDANG-UNDANG"),
        two("peraturan", "pemerintah", "PERATURAN PEMERINTAH"),
        one("pp", "PERATURAN PEMERINTAH"),
        two("peraturan", "presiden", "PERATURAN PRESIDEN"),
        one("perpres", "PERATURAN PRESIDEN"),
        two("instruksi", "presiden", "INSTRUKSI PRESIDEN"),
        one("inpres", "INSTRUKSI PRESIDEN"),
        two("peraturan", "gubernur", "PERATURAN GUBERNUR"),
        one("pergub", "PERATURAN GUBERNUR"),
        two("peraturan", "bupati", "PERATURAN BUPATI"),
        one("perbup", "PERATURAN BUPATI"),
        two("peraturan", "walikota", "PERATURAN WALIKOTA"),
        three("peraturan", "wali", "kota", "PERATURAN WALIKOTA"),
        one("perwali", "PERATURAN WALIKOTA"),
        three("peraturan", "daerah", "provinsi", "PERATURAN DAERAH PROVINSI"),
        three("peraturan", "daerah", "kabupaten", "PERATURAN DAERAH KABUPATEN"),
        three("peraturan", "daerah", "kota", "PERATURAN DAERAH KOTA"),
    ];
    assert(phrase_views(r@) =~= tiers());
    r
}

/// Where the search for a tier begins: four words before the number at most.
pub open spec fn window_start(upto: int) -> int {
    if upto < 4 {
        0
    } else {
        upto - 4
    }
}

/// The end of the last mention of the words among `tokens[lo..upto]` that
/// starts before `start`.
pub open spec fn last_end(
    tokens: Seq<Seq<char>>,
    lo: int,
    upto: int,
    start: int,
    words: Seq<Seq<char>>,
) -> Option<int>
    decreases start - lo,
{
    if start <= lo {
        None
    } else if stands_at(tokens, start - 1, upto, words) {
        Some(start - 1 + words.len())
    } else {
        last_end(tokens, lo, upto, start - 1, words)
    }
}

/// The tier, of the first `n` in the table, that is named nearest before
/// `upto`, with the place where its name ends. Of names that end in the same
/// place the later in the table counts.
pub open spec fn nearest_of(tokens: Seq<Seq<char>>, lo: int, upto: int, n: int) -> Option<
    (int, Seq<char>),
>
    decreases n,
{
    if n <= 0 {
        None
    } else {
        let best = nearest_of(tokens, lo, upto, n - 1);
        match last_end(tokens, lo, upto, upto, tiers()[n - 1].words) {
            None => best,
            Some(end) => match best {
                Some((b, _)) => if end >= b {
                    Some((end, tiers()[n - 1].canonical))
                } else {
                    best
                },
                None => Some((end, tiers()[n - 1].canonical)),
            },
        }
    }
}

/// The tier named in the few words before `upto`, if any.
pub open spec fn nearest_tier(tokens: Seq<Seq<char>>, upto: int) -> Option<Seq<char>> {
    match nearest_of(tokens, window_start(upto), upto, tiers().len() as int) {
        Some((_, canonical)) => Some(canonical),
        None => None,
    }
}

fn find_last_end(tokens: &Vec<String>, lo: usize, upto: usize, phrase: &Phrase) -> (r: Option<
    usize,
>)
    requires
        lo <= upto <= tokens@.len(),
    ensures
        match r {
            Some(e) => last_end(
                texts(tokens@),
                lo as int,
                upto as int,
                upto as int,
                phrase@.words,
            ) == Some(e as int),
            None => last_end(
                texts(tokens@),
                lo as int,
                upto as int,
                upto as int,
                phrase@.words,
            ) is None,
        },
{
    let ghost all = texts(tokens@);
    let mut start: usize = upto;
    while start > lo
        invariant
            lo <= start <= upto <= tokens@.len(),
            all == texts(tokens@),
            last_end(all, lo as int, upto as int, upto as int, phrase@.words) == last_end(
                all,
                lo as int,
                upto as int,
                start as int,
                phrase@.words,
            ),
        decreases start - lo,
    {
        if is_at(tokens, start - 1, upto, phrase) {
            return Some(start - 1 + phrase.words.len());
        }
        start = start - 1;
    }
    None
}

/// The tier named in the words before a number, if any. Looks back a short
/// distance only, and the name nearest to the number counts.
pub fn type_before(tokens: &Vec<String>, upto: usize) -> (r: Option<&'static str>)
    requires
        upto <= tokens@.len(),
    ensures
        match r {
            Some(t) => nearest_tier(texts(tokens@), upto as int) == Some(t@),
            None => nearest_tier(texts(tokens@), upto as int) is None,
        },
{
    let lo: usize = if upto < 4 {
        0
    } else {
        upto - 4
    };
    let table = tier_phrases();
    let ghost all = texts(tokens@);
    let mut best: Option<(usize, &'static str)> = None;
    let mut k: usize = 0;
    while k < table.len()
        invariant
            k <= table@.len(),
            phrase_views(table@) == tiers(),
            all == texts(tokens@),
            lo <= upto <= tokens@.len(),
            match best {
                Some((e, c)) => nearest_of(all, lo as int, upto as int, k as int) == Some(
                    (e as int, c@),
                ),
                None => nearest_of(all, lo as int, upto as int, k as int) is None,
            },
        decreases table@.len() - k,
    {
        let phrase = &table[k];
        assert(phrase_views(table@)[k as int] == phrase@);
        match find_last_end(tokens, lo, upto, phrase) {
            Some(end) => {
                let better = match best {
                    Some((b, _)) => end >= b,
                    None => true,
                };
                if better {
                    best = Some((end, phrase.canonical));
                }
            },
            None => {},
        }
        k = k + 1;
    }
    assert(phrase_views(table@).len() == table@.len());
    match best {
        Some((_, c)) => Some(c),
        None => None,
    }
}

/// A four-digit number that begins with one or two.
pub open spec fn year_like(s: Seq<char>) -> bool {
    s.len() == 4 && all_digits(s) && (s[0] == '1' || s[0] == '2')
}

/// Whether the text reads as a year.
pub fn is_year(s: &str) -> (r: bool)
    ensures
        r == year_like(s@),
{
    let v = chars_of(s);
    v.len() == 4 && are_digits(&v) && (v[0] == '1' || v[0] == '2')
}

/// A number that is no year.
pub open spec fn plain_number(s: Seq<char>) -> bool {
    all_digits(s) && !year_like(s)
}

fn is_plain_number(s: &str) -> (r: bool)
    ensures
        r == plain_number(s@),
{
    let v = chars_of(s);
    are_digits(&v) && !is_year(s)
}

/// The year that a text stands for.
pub open spec fn year_of(s: Seq<char>) -> Option<i32> {
    Some(number_of(s) as i32)
}

fn read_year(s: &str) -> (r: Option<i32>)
    requires
        year_like(s@),
    ensures
        r == year_of(s@),
{
    let v = chars_of(s);
    let mut n: i32 = 0;
    let mut i: usize = 0;
    while i < 4
        invariant
            i <= 4,
            v@.len() == 4,
            all_digits(v@),
            n == number_of(v@.take(i as int)),
            i == 0 ==> n == 0,
            i == 1 ==> n <= 9,
            i == 2 ==> n <= 99,
            i == 3 ==> n <= 999,
            i == 4 ==> n <= 9999,
        decreases 4 - i,
    {
        let c = v[i];
        assert(is_digit(v@[i as int]));
        assert(v@.take(i + 1).drop_last() =~= v@.take(i as int));
        assert(v@.take(i + 1).last() == c);
        n = n * 10 + (c as i32 - 48);
        i = i + 1;
    }
    assert(v@.take(4) =~= v@);
    Some(n)
}

/// The place of the nearest plain number before `i`, looking back to `lo`.
pub open spec fn number_before(tokens: Seq<Seq<char>>, lo: int, i: int) -> Option<int>
    decreases i - lo,
{
    if i <= lo {
        None
    } else if plain_number(tokens[i - 1]) {
        Some(i - 1)
    } else {
        number_before(tokens, lo, i - 1)
    }
}

/// Where the search for the number of `tahun` begins: three words before it at
/// most.
pub open spec fn number_start(i: int) -> int {
    if i < 3 {
        0
    } else {
        i - 3
    }
}

fn find_number(tokens: &Vec<String>, i: usize) -> (r: Option<usize>)
    requires
        i < tokens@.len(),
    ensures
        match r {
            Some(k) => k < i && number_before(texts(tokens@), number_start(i as int), i as int)
                == Some(k as int),
            None => number_before(texts(tokens@), number_start(i as int), i as int) is None,
        },
{
    let lo: usize = if i < 3 {
        0
    } else {
        i - 3
    };
    let ghost all = texts(tokens@);
    let mut k: usize = i;
    while k > lo
        invariant
            lo <= k <= i < tokens@.len(),
            lo == number_start(i as int),
            all == texts(tokens@),
            number_before(all, lo as int, i as int) == number_before(all, lo as int, k as int),
        decreases k - lo,
    {
        assert(all[k - 1] == tokens@[k - 1]@);
        if is_plain_number(tokens[k - 1].as_str()) {
            return Some(k - 1);
        }
        k = k - 1;
    }
    None
}

/// The reference that is written at place `i`, which with the next word makes
/// it up: `tahun` and a year with a number shortly before, or a number and a
/// year.
pub open spec fn reference_at(tokens: Seq<Seq<char>>, i: int) -> Option<Mention> {
    if !(i + 1 < tokens.len() && year_like(tokens[i + 1])) {
        None
    } else if tokens[i] == "tahun"@ && number_before(tokens, number_start(i), i) is Some {
        Some(
            Mention {
                number: tokens[number_before(tokens, number_start(i), i)->0],
                year: year_of(tokens[i + 1]),
                reg_type: nearest_tier(tokens, i),
            },
        )
    } else if plain_number(tokens[i]) {
        Some(
            Mention {
                number: tokens[i],
                year: year_of(tokens[i + 1]),
                reg_type: nearest_tier(tokens, i),
            },
        )
    } else {
        None
    }
}

fn read_reference(tokens: &Vec<String>, i: usize) -> (r: Option<Identifier>)
    requires
        i < tokens@.len(),
    ensures
        match r {
            Some(id) => reference_at(texts(tokens@), i as int) == Some(id@),
            None => reference_at(texts(tokens@), i as int) is None,
        },
{
    let ghost all = texts(tokens@);
    let n = tokens.len();
    if i + 1 >= n {
        return None;
    }
    assert(all[i as int] == tokens@[i as int]@);
    assert(all[i + 1] == tokens@[i + 1]@);
    if !is_year(tokens[i + 1].as_str()) {
        return None;
    }
    if same(tokens[i].as_str(), "tahun") {
        match find_number(tokens, i) {
            Some(k) => {
                assert(all[k as int] == tokens@[k as int]@);
                return Some(
                    Identifier {
                        number: tokens[k].clone(),
                        year: read_year(tokens[i + 1].as_str()),
                        reg_type: type_before(tokens, i),
                    },
                );
            },
            None => {},
        }
    }
    if is_plain_number(tokens[i].as_str()) {
        return Some(
            Identifier {
                number: tokens[i].clone(),
                year: read_year(tokens[i + 1].as_str()),
                reg_type: type_before(tokens, i),
            },
        );
    }
    None
}

/// The place, from `i` on, of a reference with that number and year.
pub open spec fn same_reference(v: Seq<Mention>, m: Mention, i: int) -> Option<int>
    decreases v.len() - i,
{
    if i >= v.len() {
        None
    } else if v[i].number == m.number && v[i].year == m.year {
        Some(i)
    } else {
        same_reference(v, m, i + 1)
    }
}

/// The references with one more. One that is there already is not repeated; it
/// takes the tier where it had none.
pub open spec fn with_reference(v: Seq<Mention>, m: Mention) -> Seq<Mention> {
    match same_reference(v, m, 0) {
        Some(i) => if v[i].reg_type is None {
            v.update(i, Mention { reg_type: m.reg_type, ..v[i] })
        } else {
            v
        },
        None => v.push(m),
    }
}

/// Adds a reference unless it is there already; a tier that one mention names
/// is kept, whichever mention that is.
pub fn push_unique(out: &mut Vec<Identifier>, id: Identifier)
    ensures
        mentions(final(out)@) == with_reference(mentions(old(out)@), id@),
{
    let ghost before = mentions(out@);
    let ghost m = id@;
    let mut i: usize = 0;
    while i < out.len()
        invariant
            i <= out@.len(),
            before == mentions(out@),
            before == mentions(old(out)@),
            m == id@,
            same_reference(before, m, 0) == same_reference(before, m, i as int),
        decreases out@.len() - i,
    {
        assert(before[i as int] == out@[i as int]@);
        let equal_year = match (out[i].year, id.year) {
            (Some(a), Some(b)) => a == b,
            (None, None) => true,
            _ => false,
        };
        if same(out[i].number.as_str(), id.number.as_str()) && equal_year {
            if out[i].reg_type.is_none() {
                let merged = Identifier {
                    number: out[i].number.clone(),
                    year: out[i].year,
                    reg_type: id.reg_type,
                };
                out.set(i, merged);
                assert(mentions(out@) =~= before.update(
                    i as int,
                    Mention { reg_type: m.reg_type, ..before[i as int] },
                ));
            }
            return;
        }
        i = i + 1;
    }
    out.push(id);
    assert(mentions(out@) =~= before.push(m));
}

/// The references written from place `i` on, added to those found before. A
/// reference takes up two words.
pub open spec fn references_from(tokens: Seq<Seq<char>>, i: int, found: Seq<Mention>) -> Seq<
    Mention,
>
    decreases tokens.len() - i,
{
    if i >= tokens.len() {
        found
    } else {
        match reference_at(tokens, i) {
            Some(m) => references_from(tokens, i + 2, with_reference(found, m)),
            None => references_from(tokens, i + 1, found),
        }
    }
}

/// The references of a query, in order of appearance: those of its words, made
/// small.
pub open spec fn references(query: Seq<char>) -> Seq<Mention> {
    references_from(words(lowercase_text(query), None), 0, Seq::empty())
}

/// The words of a query, made small.
fn query_words(query: &str) -> (r: Vec<String>)
    ensures
        texts(r@) == words(lowercase_text(query@), None),
        ascii(query@) ==> lowercase_text(query@) == query@.map_values(|c: char| ascii_lower(c)),
        forall|k: int|
            0 <= k < lowercase_text(query@).len() ==> is_plain(
                #[trigger] lowercase_text(query@)[k],
            ),
{
    let lowered = to_lowercase(query);
    let v = chars_of(lowered.as_str());
    let found = word_spans(&v, None);
    let ghost all = words(v@, None);
    let mut out: Vec<String> = Vec::new();
    let mut i: usize = 0;
    while i < found.len()
        invariant
            i <= found@.len(),
            crate::text::places(found@) == crate::text::spans(v@, None),
            all == words(v@, None),
            forall|k: int|
                0 <= k < found@.len() ==> (#[trigger] found@[k]).start < found@[k].end <= v@.len(),
            texts(out@) == all.take(i as int),
        decreases found@.len() - i,
    {
        let p = found[i];
        let ghost before = texts(out@);
        assert(crate::text::places(found@)[i as int] == (p.start as int, p.end as int));
        out.push(string_of(&v, p.start, p.end));
        assert(texts(out@) =~= before.push(all[i as int]));
        assert(texts(out@) =~= all.take(i + 1));
        i = i + 1;
    }
    assert(crate::text::places(found@).len() == found@.len());
    assert(all.take(i as int) =~= all);
    out
}

/// Extracts every regulation reference in the query, in order of appearance.
///
/// Permissive about surrounding words and punctuation, strict about shape: a
/// bare number is no reference, or every query with a digit would trigger a
/// global scan.
///
/// An ASCII query is read by its runs of letters and digits, small or capital;
/// one that is a citation and nothing else gives the regulation that it cites.
pub fn extract(query: &str) -> (r: Vec<Identifier>)
    ensures
        mentions(r@) == references(query@),
        forall|p: Seq<(int, int)>|
            ascii(query@) && #[trigger] are_runs(query@, p, None) ==> mentions(r@) == references_from(
                run_texts(query@, p),
                0,
                Seq::empty(),
            ),
        forall|p: Seq<(int, int)>, c: Cited, k: int|
            ascii(query@) && #[trigger] are_runs(query@, p, None) && run_texts(query@, p)
                == #[trigger] c.tokens() && c.is_sound() && 0 <= k < tiers().len() && c.name
                == (#[trigger] tiers()[k]).words ==> mentions(r@) == seq![
                c.says(Some(tiers()[k].canonical)),
            ],
{
    let tokens = query_words(query);
    let ghost all = texts(tokens@);
    proof {
        if ascii(query@) {
            let low = lowercase_text(query@);
            small_words_are_runs(query@, low);
            assert forall|p: Seq<(int, int)>| #[trigger] are_runs(query@, p, None) implies all
                == run_texts(query@, p) by {
                runs_are_unique(query@, p, crate::text::spans(low, None), None);
            }
            assert forall|p: Seq<(int, int)>, c: Cited, k: int| #[trigger]
                are_runs(query@, p, None) && run_texts(query@, p) == #[trigger] c.tokens()
                    && c.is_sound() && 0 <= k < tiers().len() && c.name == (
                #[trigger] tiers()[k]).words implies references(query@) == seq![
                c.says(Some(tiers()[k].canonical)),
            ] by {
                name_letters();
                a_citation_is_one_reference(c, k);
            }
        }
    }
    let mut out: Vec<Identifier> = Vec::new();
    let mut i: usize = 0;
    assert(mentions(out@) =~= Seq::empty());
    while i < tokens.len()
        invariant
            all == texts(tokens@),
            references_from(all, 0, Seq::empty()) == references_from(
                all,
                i as int,
                mentions(out@),
            ),
        decreases tokens@.len() - i,
    {
        match read_reference(&tokens, i) {
            Some(id) => {
                push_unique(&mut out, id);
                i = i + 2;
            },
            None => {
                i = i + 1;
            },
        }
    }
    out
}

/// No two references have the same number and year.
pub open spec fn distinct_references(v: Seq<Mention>) -> bool {
    forall|i: int, j: int|
        #![trigger v[i], v[j]]
        0 <= i < j < v.len() ==> v[i].number != v[j].number || v[i].year != v[j].year
}

proof fn same_reference_finds(v: Seq<Mention>, m: Mention, i: int)
    requires
        0 <= i <= v.len(),
    ensures
        match same_reference(v, m, i) {
            Some(k) => i <= k < v.len() && v[k].number == m.number && v[k].year == m.year,
            None => forall|k: int|
                i <= k < v.len() ==> (#[trigger] v[k]).number != m.number || v[k].year != m.year,
        },
    decreases v.len() - i,
{
    if i < v.len() {
        same_reference_finds(v, m, i + 1);
    }
}

proof fn with_reference_keeps_distinct(v: Seq<Mention>, m: Mention)
    requires
        distinct_references(v),
    ensures
        distinct_references(with_reference(v, m)),
{
    same_reference_finds(v, m, 0);
}

/// The same regulation written twice is one reference.
pub proof fn a_regulation_is_referenced_once(query: Seq<char>)
    ensures
        distinct_references(references(query)),
{
    references_stay_distinct(words(lowercase_text(query), None), 0, Seq::empty());
}

proof fn references_stay_distinct(tokens: Seq<Seq<char>>, i: int, found: Seq<Mention>)
    requires
        distinct_references(found),
    ensures
        distinct_references(references_from(tokens, i, found)),
    decreases tokens.len() - i,
{
    if i < tokens.len() {
        match reference_at(tokens, i) {
            Some(m) => {
                with_reference_keeps_distinct(found, m);
                references_stay_distinct(tokens, i + 2, with_reference(found, m));
            },
            None => {
                references_stay_distinct(tokens, i + 1, found);
            },
        }
    }
}

/// A query without a year names no regulation, so the global lookup stays the
/// exception.
pub proof fn no_year_no_reference(query: Seq<char>)
    requires
        forall|i: int|
            0 <= i < words(lowercase_text(query), None).len() ==> !year_like(
                #[trigger] words(lowercase_text(query), None)[i],
            ),
    ensures
        references(query) == Seq::<Mention>::empty(),
{
    nothing_from(words(lowercase_text(query), None), 0, Seq::empty());
}

proof fn nothing_from(tokens: Seq<Seq<char>>, i: int, found: Seq<Mention>)
    requires
        0 <= i,
        forall|k: int| 0 <= k < tokens.len() ==> !year_like(#[trigger] tokens[k]),
    ensures
        references_from(tokens, i, found) == found,
    decreases tokens.len() - i,
{
    if i < tokens.len() {
        assert(reference_at(tokens, i) is None);
        nothing_from(tokens, i + 1, found);
    }
}

// ---------------------------------------------------------------------------
// What a citation says
// ---------------------------------------------------------------------------

/// A citation, written down: the words of a tier's name or none, a word for
/// `number` or none, the number, `tahun` where it is spelled out, and the year.
pub ghost struct Cited {
    pub name: Seq<Seq<char>>,
    pub filler: Seq<Seq<char>>,
    pub number: Seq<char>,
    pub spelled: bool,
    pub year: Seq<char>,
}

impl Cited {
    /// The words of the citation, in order.
    pub open spec fn tokens(self) -> Seq<Seq<char>> {
        self.name + self.filler + seq![self.number] + (if self.spelled {
            seq!["tahun"@]
        } else {
            Seq::empty()
        }) + seq![self.year]
    }

    /// Whether this is a citation of a regulation: a number of any length that
    /// is no year, a four-digit year that begins with one or two, and a name
    /// that is near enough to be read with the number.
    pub open spec fn is_sound(self) -> bool {
        &&& self.number.len() > 0
        &&& forall|i: int| 0 <= i < self.number.len() ==> '0' <= #[trigger] self.number[i] <= '9'
        &&& !(self.number.len() == 4 && (self.number[0] == '1' || self.number[0] == '2'))
        &&& self.year.len() == 4
        &&& forall|i: int| 0 <= i < 4 ==> '0' <= #[trigger] self.year[i] <= '9'
        &&& self.year[0] == '1' || self.year[0] == '2'
        &&& self.filler == Seq::<Seq<char>>::empty() || self.filler == seq!["no"@] || self.filler
            == seq!["nomor"@]
        &&& self.name.len() + self.filler.len() + (if self.spelled {
            1int
        } else {
            0
        }) <= 4
    }

    /// What the citation says, given the canonical name of its tier.
    pub open spec fn says(self, tier: Option<Seq<char>>) -> Mention {
        Mention {
            number: self.number,
            year: Some(
                ((self.year[0] as int - 48) * 1000 + (self.year[1] as int - 48) * 100 + (
                self.year[2] as int - 48) * 10 + (self.year[3] as int - 48)) as i32,
            ),
            reg_type: tier,
        }
    }
}

proof fn name_letters()
    ensures
        forall|k: int, i: int|
            #![trigger tiers()[k].words[i]]
            0 <= k < tiers().len() && 0 <= i < tiers()[k].words.len() ==> ({
                let w = tiers()[k].words[i];
                &&& w.len() >= 2
                &&& 'a' <= w[0] <= 'z'
                &&& w != "no"@
                &&& w != "nomor"@
                &&& w != "tahun"@
            }),
        tiers().len() == 18,
        forall|k: int| 0 <= k < 18 ==> 1 <= (#[trigger] tiers()[k]).words.len() <= 3,
        "no"@.len() == 2,
        "no"@[0] == 'n',
        "nomor"@.len() == 5,
        "nomor"@[0] == 'n',
        "tahun"@.len() == 5,
        "tahun"@[0] == 't',
{
    reveal_strlit("no");
    reveal_strlit("nomor");
    reveal_strlit("tahun");
    reveal_strlit("undang");
    reveal_strlit("uu");
    reveal_strlit("peraturan");
    reveal_strlit("pemerintah");
    reveal_strlit("pp");
    reveal_strlit("presiden");
    reveal_strlit("perpres");
    reveal_strlit("instruksi");
    reveal_strlit("inpres");
    reveal_strlit("gubernur");
    reveal_strlit("pergub");
    reveal_strlit("bupati");
    reveal_strlit("perbup");
    reveal_strlit("walikota");
    reveal_strlit("wali");
    reveal_strlit("kota");
    reveal_strlit("perwali");
    reveal_strlit("daerah");
    reveal_strlit("provinsi");
    reveal_strlit("kabupaten");
    assert("undang"@[0] == 'u' && "uu"@[0] == 'u' && "peraturan"@[0] == 'p' && "pemerintah"@[0]
        == 'p' && "pp"@[0] == 'p' && "presiden"@[0] == 'p' && "perpres"@[0] == 'p'
        && "instruksi"@[0] == 'i' && "inpres"@[0] == 'i' && "gubernur"@[0] == 'g' && "pergub"@[0]
        == 'p' && "bupati"@[0] == 'b' && "perbup"@[0] == 'p' && "walikota"@[0] == 'w'
        && "wali"@[0] == 'w' && "kota"@[0] == 'k' && "perwali"@[0] == 'p' && "daerah"@[0] == 'd'
        && "provinsi"@[0] == 'p' && "kabupaten"@[0] == 'k' && "no"@[0] == 'n' && "nomor"@[0] == 'n'
        && "tahun"@[0] == 't');
}

/// No name of a tier lies in another.
proof fn names_are_apart(k: int, j: int, at: int)
    requires
        0 <= k < tiers().len(),
        0 <= j < tiers().len(),
        0 <= at,
        at + tiers()[j].words.len() <= tiers()[k].words.len(),
        tiers()[k].words.subrange(at, at + tiers()[j].words.len()) == tiers()[j].words,
    ensures
        j == k,
        at == 0,
{
    reveal_strlit("undang");
    reveal_strlit("uu");
    reveal_strlit("peraturan");
    reveal_strlit("pemerintah");
    reveal_strlit("pp");
    reveal_strlit("presiden");
    reveal_strlit("perpres");
    reveal_strlit("instruksi");
    reveal_strlit("inpres");
    reveal_strlit("gubernur");
    reveal_strlit("pergub");
    reveal_strlit("bupati");
    reveal_strlit("perbup");
    reveal_strlit("walikota");
    reveal_strlit("wali");
    reveal_strlit("kota");
    reveal_strlit("perwali");
    reveal_strlit("daerah");
    reveal_strlit("provinsi");
    reveal_strlit("kabupaten");
    assert("undang"@.len() == 6 && "uu"@.len() == 2 && "peraturan"@.len() == 9
        && "pemerintah"@.len() == 10 && "pp"@.len() == 2 && "presiden"@.len() == 8
        && "perpres"@.len() == 7 && "instruksi"@.len() == 9 && "inpres"@.len() == 6
        && "gubernur"@.len() == 8 && "pergub"@.len() == 6 && "bupati"@.len() == 6
        && "perbup"@.len() == 6 && "walikota"@.len() == 8 && "wali"@.len() == 4 && "kota"@.len()
        == 4 && "perwali"@.len() == 7 && "daerah"@.len() == 6 && "provinsi"@.len() == 8
        && "kabupaten"@.len() == 9);
    assert("undang"@[0] == 'u' && "uu"@[0] == 'u' && "peraturan"@[0] == 'p' && "pp"@[0] == 'p'
        && "presiden"@[0] == 'p' && "presiden"@[2] == 'e' && "perpres"@[3] == 'p' && "instruksi"@[0]
        == 'i' && "inpres"@[0] == 'i' && "gubernur"@[0] == 'g' && "pergub"@[0] == 'p' && "pergub"@[3]
        == 'g' && "bupati"@[0] == 'b' && "perbup"@[0] == 'p' && "perbup"@[3] == 'b' && "walikota"@[0]
        == 'w' && "wali"@[0] == 'w' && "kota"@[0] == 'k' && "perwali"@[3] == 'w' && "daerah"@[0]
        == 'd' && "provinsi"@[0] == 'p' && "provinsi"@[2] == 'o' && "kabupaten"@[0] == 'k');
    let a = tiers()[k].words;
    let b = tiers()[j].words;
    let part = a.subrange(at, at + b.len());
    assert(part[0] == a[at] && part[0] == b[0]);
    if b.len() > 1 {
        assert(part[1] == a[at + 1] && part[1] == b[1]);
    }
    if b.len() > 2 {
        assert(part[2] == a[at + 2] && part[2] == b[2]);
    }
}

/// Before the number of a citation, no name stands but that of its tier.
proof fn only_the_name_stands(c: Cited, k: int, j: int, upto: int, at: int)
    requires
        c.is_sound(),
        0 <= k < tiers().len(),
        c.name == tiers()[k].words || c.name == Seq::<Seq<char>>::empty(),
        0 <= j < tiers().len(),
        upto == c.name.len() + c.filler.len() || upto == c.name.len() + c.filler.len() + 1,
        stands_at(c.tokens(), at, upto, tiers()[j].words),
    ensures
        c.name == tiers()[k].words,
        j == k,
        at == 0,
{
    name_letters();
    let t = c.tokens();
    let w = tiers()[j].words;
    let part = t.subrange(at, at + w.len());
    let n = c.name.len() as int;
    if at + w.len() > n {
        let i = if at < n {
            n - at
        } else {
            0
        };
        assert(part[i] == w[i]);
        assert(part[i] == t[at + i]);
        assert(tiers()[j].words[i].len() >= 2);
        if at + i < n + c.filler.len() {
            assert(t[at + i] == c.filler[at + i - n]);
        } else {
            assert(t[at + i] == c.number);
            assert('0' <= c.number[0] <= '9');
        }
    } else {
        assert(part =~= c.name.subrange(at, at + w.len()));
        names_are_apart(k, j, at);
    }
}

proof fn the_name_ends_where_it_ends(c: Cited, k: int, j: int, upto: int, start: int)
    requires
        c.is_sound(),
        0 <= k < tiers().len(),
        c.name == tiers()[k].words || c.name == Seq::<Seq<char>>::empty(),
        0 <= j < tiers().len(),
        upto == c.name.len() + c.filler.len() || upto == c.name.len() + c.filler.len() + 1,
        0 <= start <= upto,
    ensures
        last_end(c.tokens(), 0, upto, start, tiers()[j].words) == if start > 0 && j == k && c.name
            == tiers()[k].words {
            Some(c.name.len() as int)
        } else {
            None
        },
    decreases start,
{
    if start > 0 {
        name_letters();
        let w = tiers()[j].words;
        if stands_at(c.tokens(), start - 1, upto, w) {
            only_the_name_stands(c, k, j, upto, start - 1);
        } else {
            the_name_ends_where_it_ends(c, k, j, upto, start - 1);
            if start == 1 && j == k && c.name == tiers()[k].words {
                assert(c.tokens().subrange(0, w.len() as int) =~= w);
            }
        }
    }
}

proof fn the_name_is_the_nearest(c: Cited, k: int, upto: int, n: int)
    requires
        c.is_sound(),
        0 <= k < tiers().len(),
        c.name == tiers()[k].words || c.name == Seq::<Seq<char>>::empty(),
        upto == c.name.len() + c.filler.len() || upto == c.name.len() + c.filler.len() + 1,
        0 <= n <= tiers().len(),
    ensures
        nearest_of(c.tokens(), 0, upto, n) == if n > k && c.name == tiers()[k].words {
            Some((c.name.len() as int, tiers()[k].canonical))
        } else {
            None
        },
    decreases n,
{
    if n > 0 {
        name_letters();
        the_name_is_the_nearest(c, k, upto, n - 1);
        the_name_ends_where_it_ends(c, k, n - 1, upto, upto);
    }
}

proof fn nothing_before_the_year(c: Cited, k: int, i: int)
    requires
        c.is_sound(),
        0 <= k < tiers().len(),
        c.name == tiers()[k].words || c.name == Seq::<Seq<char>>::empty(),
        0 <= i <= c.tokens().len() - 2,
    ensures
        references_from(c.tokens(), i, Seq::empty()) == references_from(
            c.tokens(),
            c.tokens().len() - 2,
            Seq::empty(),
        ),
    decreases c.tokens().len() - i,
{
    let t = c.tokens();
    if i < t.len() - 2 {
        name_letters();
        let w = t[i + 1];
        assert(!year_like(w)) by {
            let n = c.name.len() as int;
            let m = n + c.filler.len();
            if i + 1 < n {
                assert(w == tiers()[k].words[i + 1]);
                if year_like(w) {
                    assert(is_digit(w[0]));
                }
            } else if i + 1 < m {
                assert(w == c.filler[i + 1 - n]);
            } else if i + 1 == m {
                assert(w == c.number);
            } else {
                assert(w == "tahun"@);
            }
        }
        nothing_before_the_year(c, k, i + 1);
    }
}

/// A citation names one regulation: the number as it is written, however many
/// digits it has, the year, and the tier where one is named.
pub proof fn a_citation_is_one_reference(c: Cited, k: int)
    requires
        c.is_sound(),
        0 <= k < tiers().len(),
        c.name == tiers()[k].words || c.name == Seq::<Seq<char>>::empty(),
    ensures
        references_from(c.tokens(), 0, Seq::empty()) == seq![
            c.says(
                if c.name.len() > 0 {
                    Some(tiers()[k].canonical)
                } else {
                    None
                },
            ),
        ],
{
    let t = c.tokens();
    let i = t.len() - 2;
    name_letters();
    nothing_before_the_year(c, k, 0);
    assert(t[i + 1] == c.year);
    assert(year_like(c.year)) by {
        assert forall|m: int| 0 <= m < c.year.len() implies is_digit(#[trigger] c.year[m]) by {}
    }
    assert(all_digits(c.number)) by {
        assert forall|m: int| 0 <= m < c.number.len() implies is_digit(#[trigger] c.number[m]) by {}
    }
    assert(plain_number(c.number));
    assert(c.number != "tahun"@) by {
        assert('0' <= c.number[0] <= '9');
    }
    let n = c.name.len() + c.filler.len();
    let tier = if c.name.len() > 0 {
        Some(tiers()[k].canonical)
    } else {
        None
    };
    assert(t[n as int] == c.number);
    if c.spelled {
        assert(i == n + 1);
        assert(t[i] == "tahun"@);
        assert(number_before(t, number_start(i), i) == Some(i - 1));
        the_name_is_the_nearest(c, k, i, 18);
    } else {
        assert(i == n);
        the_name_is_the_nearest(c, k, i, 18);
    }
    assert(window_start(i) == 0);
    assert(nearest_tier(t, i) == tier);
    let y = c.year;
    assert(number_of(y) == (y[0] as int - 48) * 1000 + (y[1] as int - 48) * 100 + (y[2] as int
        - 48) * 10 + (y[3] as int - 48)) by {
        reveal_with_fuel(number_of, 5);
        assert('0' <= y[0] <= '9' && '0' <= y[1] <= '9' && '0' <= y[2] <= '9' && '0' <= y[3] <= '9');
        assert(y.drop_last().last() == y[2]);
        assert(y.drop_last().drop_last().last() == y[1]);
        assert(y.drop_last().drop_last().drop_last().last() == y[0]);
    }
    let m = c.says(tier);
    assert(reference_at(t, i) == Some(m));
    assert(with_reference(Seq::empty(), m) =~= seq![m]);
    assert(references_from(t, i + 2, seq![m]) == seq![m]);
}

/// One reference more: it is among the references, none that was there is lost,
/// nothing else comes in, and a tier that is known stays.
pub proof fn a_further_reference_is_kept(v: Seq<Mention>, m: Mention)
    ensures
        ({
            let r = with_reference(v, m);
            &&& exists|i: int|
                0 <= i < r.len() && (#[trigger] r[i]).number == m.number && r[i].year == m.year
            &&& v.len() <= r.len() <= v.len() + 1
            &&& forall|i: int|
                0 <= i < v.len() ==> (#[trigger] r[i]).number == v[i].number && r[i].year
                    == v[i].year && (v[i].reg_type is Some ==> r[i] == v[i])
            &&& r.len() == v.len() + 1 ==> r.last() == m
        }),
{
    let i = a_reference_is_looked_for(v, m, 0);
    let r = with_reference(v, m);
    if i < v.len() {
        assert(r[i].number == m.number && r[i].year == m.year);
    } else {
        assert(r[v.len() as int] == m);
    }
}

proof fn a_reference_is_looked_for(v: Seq<Mention>, m: Mention, from: int) -> (i: int)
    requires
        0 <= from <= v.len(),
    ensures
        from <= i <= v.len(),
        i < v.len() ==> same_reference(v, m, from) == Some(i) && v[i].number == m.number
            && v[i].year == m.year,
        i == v.len() ==> same_reference(v, m, from) is None,
    decreases v.len() - from,
{
    if from == v.len() || (v[from].number == m.number && v[from].year == m.year) {
        from
    } else {
        a_reference_is_looked_for(v, m, from + 1)
    }
}

/// Whether references hold one with the number and the year of another.
pub open spec fn holds(v: Seq<Mention>, m: Mention) -> bool {
    exists|i: int| 0 <= i < v.len() && (#[trigger] v[i]).number == m.number && v[i].year == m.year
}

/// At which word the reference that is read at each word ends, where one is: it
/// takes up two.
pub open spec fn reference_ends(tokens: Seq<Seq<char>>) -> Seq<Option<int>> {
    Seq::new(
        tokens.len(),
        |i: int|
            if reference_at(tokens, i) is Some {
                Some(i + 1)
            } else {
                None
            },
    )
}

/// The references that are read at these places, added one by one to others.
pub open spec fn with_references(tokens: Seq<Seq<char>>, q: Seq<int>, found: Seq<Mention>) -> Seq<
    Mention,
>
    decreases q.len(),
{
    if q.len() == 0 {
        found
    } else {
        with_reference(
            with_references(tokens, q.drop_last(), found),
            reference_at(tokens, q.last())->0,
        )
    }
}

/// Every reference of a list of words is found. `q` says at which word each is
/// read: none overlaps another, a word at which one could be read lies within
/// one that was found, and the references are those, each added to the ones
/// before.
pub proof fn every_reference_is_found(tokens: Seq<Seq<char>>) -> (q: Seq<int>)
    ensures
        takes_all(q, reference_ends(tokens), 0),
        references_from(tokens, 0, Seq::empty()) == with_references(tokens, q, Seq::empty()),
        forall|k: int|
            0 <= k < q.len() ==> holds(
                references_from(tokens, 0, Seq::empty()),
                reference_at(tokens, #[trigger] q[k])->0,
            ),
{
    let ends = reference_ends(tokens);
    assert forall|i: int| #[trigger] begins(ends, i) implies i <= ends[i]->0 < ends.len() by {}
    taking_passes_nothing_over(ends, 0);
    references_are_taken(tokens, 0, Seq::empty());
    let q = taken(ends, 0);
    added_references_are_held(tokens, q, Seq::empty());
    q
}

proof fn references_are_taken(tokens: Seq<Seq<char>>, from: int, found: Seq<Mention>)
    requires
        0 <= from,
    ensures
        references_from(tokens, from, found) == with_references(
            tokens,
            taken(reference_ends(tokens), from),
            found,
        ),
    decreases tokens.len() - from,
{
    let ends = reference_ends(tokens);
    if from < tokens.len() {
        match reference_at(tokens, from) {
            Some(m) => {
                assert(ends[from] == Some(from + 1));
                let rest = taken(ends, from + 2);
                references_are_taken(tokens, from + 2, with_reference(found, m));
                the_first_is_added_first(tokens, from, rest, found);
            },
            None => {
                assert(ends[from] is None);
                references_are_taken(tokens, from + 1, found);
            },
        }
    }
}

proof fn the_first_is_added_first(
    tokens: Seq<Seq<char>>,
    i: int,
    rest: Seq<int>,
    found: Seq<Mention>,
)
    ensures
        with_references(tokens, seq![i] + rest, found) == with_references(
            tokens,
            rest,
            with_reference(found, reference_at(tokens, i)->0),
        ),
    decreases rest.len(),
{
    let q = seq![i] + rest;
    if rest.len() == 0 {
        assert(q.drop_last() =~= Seq::<int>::empty());
        assert(q.last() == i);
        assert(with_references(tokens, q.drop_last(), found) == found);
    } else {
        the_first_is_added_first(tokens, i, rest.drop_last(), found);
        assert(q.drop_last() =~= seq![i] + rest.drop_last());
        assert(q.last() == rest.last());
    }
}

proof fn added_references_are_held(tokens: Seq<Seq<char>>, q: Seq<int>, found: Seq<Mention>)
    ensures
        forall|k: int|
            0 <= k < q.len() ==> holds(
                with_references(tokens, q, found),
                reference_at(tokens, #[trigger] q[k])->0,
            ),
    decreases q.len(),
{
    if q.len() > 0 {
        let front = q.drop_last();
        added_references_are_held(tokens, front, found);
        let before = with_references(tokens, front, found);
        let m = reference_at(tokens, q.last())->0;
        let after = with_reference(before, m);
        a_further_reference_is_kept(before, m);
        assert(after == with_references(tokens, q, found));
        assert forall|k: int| 0 <= k < q.len() implies holds(
            after,
            reference_at(tokens, #[trigger] q[k])->0,
        ) by {
            let x = reference_at(tokens, q[k])->0;
            if k < front.len() {
                assert(front[k] == q[k]);
                assert(holds(before, x));
                let i = choose|i: int|
                    0 <= i < before.len() && (#[trigger] before[i]).number == x.number
                        && before[i].year == x.year;
                assert(after[i].number == x.number && after[i].year == x.year);
            }
        }
    }
}

} // verus!
