//! Multi-factor scoring: deciding what matters, once retrieval has decided what
//! is relevant.
//!
//! Factors are a bounded prior on relevance, not a replacement for it:
//!
//! ```text
//! final = relevance × (1 + Σ weight · factor)
//! ```
//!
//! This module decides which value a factor reads, which of a closed set of
//! bounded formulas applies to it and with what operands ([`Term`]), and which
//! candidates stay and in what order. The formulas are evaluated by the caller,
//! on machine numbers.

use vstd::prelude::*;
use vstd::string::*;

use crate::order::{picks, picks_one_more, arrange, arranged, Ordered};
use crate::patterns::{compile, escape, escaped, is_literal, is_match, pattern_matches, regex_match, regex_source, source, LITERAL_CHARS};
use crate::score::{Score, ONE_BITS};
use crate::text::{bytes_upto, chars_of, has_prefix, list_contains, lower_chars, lowered_chars, places, same, slices, slices_contain, spans, starts_with, string_of, texts, to_uppercase, trim, trimmed, uppercase_text, utf8_len, word_spans};

verus! {

/// The pattern of `0.5`.
pub const HALF_BITS: u32 = 0x3f00_0000;

/// The pattern of `400.0`: the body length past which more is not more.
pub const FULL_LENGTH_BITS: u32 = 0x43c8_0000;

/// Which stored label a [`StructuralRule`] reads.
#[derive(Debug, Clone, Copy, PartialEq, Eq, Structural)]
pub enum Field {
    Article,
    Chapter,
    Either,
}

/// One rule in the structural ladder: is this the operative body, or an annex?
/// The pattern is compiled once.
#[derive(Debug)]
pub struct StructuralRule {
    pub pattern: regex::Regex,
    pub field: Field,
    pub score: Score,
}

/// The pattern that a rule is compiled from. Always blind to case; anchored to
/// the start of the label where a mention inside it is no label.
pub open spec fn rule_source(pattern: Seq<char>, anchored: bool) -> Seq<char> {
    if anchored {
        "(?i)^\\s*(?:"@ + pattern + ")"@
    } else {
        "(?i)(?:"@ + pattern + ")"@
    }
}

/// The text that is compiled for a pattern.
pub fn rule_text(pattern: &str, anchored: bool) -> (r: String)
    ensures
        r@ == rule_source(pattern@, anchored),
{
    let mut body = if anchored {
        "(?i)^\\s*(?:".to_owned()
    } else {
        "(?i)(?:".to_owned()
    };
    body.append(pattern);
    body.append(")");
    body
}

impl StructuralRule {
    /// What a rule compiled from `text` is.
    pub open spec fn is_from(self, text: Seq<char>, field: Field, score: Score) -> bool {
        &&& regex_source(self.pattern) == text
        &&& forall|t: Seq<char>|
            #[trigger] regex_match(self.pattern, t) == pattern_matches(text, t)
        &&& self.field == field
        &&& self.score == score
    }

    /// Whether the rule applies to a candidate's labels.
    pub open spec fn applies(self, article: Seq<char>, chapter: Seq<char>) -> bool {
        match self.field {
            Field::Article => regex_match(self.pattern, article),
            Field::Chapter => regex_match(self.pattern, chapter),
            Field::Either => regex_match(self.pattern, article) || regex_match(
                self.pattern,
                chapter,
            ),
        }
    }

    /// Compiles a rule from [`rule_text`]. Fails where that does not compile,
    /// with the error of the compiler; an escaped text of no more than
    /// [`LITERAL_CHARS`] characters compiles. Of other patterns it is not said
    /// whether they do: the compiler refuses what grows over a limit, and the
    /// size depends on the machine. [`StructuralRule::from_compiled`] says what
    /// comes of either outcome.
    pub fn new(pattern: &str, field: Field, score: Score, anchored: bool) -> (r: Result<
        StructuralRule,
        regex::Error,
    >)
        ensures
            r is Ok ==> r->Ok_0.is_from(rule_source(pattern@, anchored), field, score),
            forall|text: Seq<char>|
                text.len() <= LITERAL_CHARS && pattern@ == #[trigger] escaped(text) ==> r is Ok,
    {
        let body = rule_text(pattern, anchored);
        assert forall|text: Seq<char>| pattern@ == #[trigger] escaped(text) implies is_literal(
            body@,
            text,
        ) by {}
        StructuralRule::from_compiled(compile(body.as_str()), field, score)
    }

    /// The rule over an expression that compiled.
    pub fn from_compiled(
        compiled: Result<regex::Regex, regex::Error>,
        field: Field,
        score: Score,
    ) -> (r: Result<StructuralRule, regex::Error>)
        ensures
            match compiled {
                Ok(re) => r is Ok && r->Ok_0.pattern == re && r->Ok_0.field == field
                    && r->Ok_0.score == score,
                Err(e) => r is Err && r->Err_0 == e,
            },
    {
        match compiled {
            Ok(re) => Ok(StructuralRule { pattern: re, field, score }),
            Err(e) => Err(e),
        }
    }

    /// Compiles a rule from a label, taken literally. A label of no more than
    /// [`LITERAL_CHARS`] characters compiles.
    pub fn literal(label: &str, field: Field, score: Score, anchored: bool) -> (r: Result<
        StructuralRule,
        regex::Error,
    >)
        ensures
            r is Ok ==> r->Ok_0.is_from(rule_source(escaped(label@), anchored), field, score),
            label@.len() <= LITERAL_CHARS ==> r is Ok,
    {
        let pattern = escape(label);
        StructuralRule::new(pattern.as_str(), field, score, anchored)
    }

    /// Whether two rules were built from the same declaration, given whether
    /// their scores are close enough to count as one.
    pub fn same_as(&self, other: &StructuralRule, close: bool) -> (r: bool)
        ensures
            r == (regex_source(self.pattern) == regex_source(other.pattern) && self.field
                == other.field && close),
    {
        same(source(&self.pattern), source(&other.pattern)) && self.field == other.field && close
    }
}

/// What a corpus declares about its own labels, so that the factors stay
/// general.
#[derive(Debug)]
pub struct Vocabulary {
    /// Source tier per label, in capitals. Higher binds harder.
    pub authority: Vec<(String, u8)>,
    /// The top of the declared scale.
    pub max_tier: Score,
    /// Ordered: the first match wins.
    pub structural: Vec<StructuralRule>,
    /// Score for a chunk that no rule matched.
    pub structural_default: Score,
    /// Function words dropped before term overlap is measured.
    pub stopwords: Vec<String>,
    /// A token must be longer than this to count.
    pub min_term_chars: usize,
}

impl Default for Vocabulary {
    fn default() -> (r: Vocabulary)
        ensures
            r.authority@.len() == 0,
            r.max_tier == (Score { bits: 0 }),
            r.structural@.len() == 0,
            r.structural_default == (Score { bits: 0 }),
            r.stopwords@.len() == 0,
            r.min_term_chars == 0,
    {
        Vocabulary {
            authority: Vec::new(),
            max_tier: Score { bits: 0 },
            structural: Vec::new(),
            structural_default: Score { bits: 0 },
            stopwords: Vec::new(),
            min_term_chars: 0,
        }
    }
}

/// Labels with their tiers, as what they say.
pub open spec fn tier_views(v: Seq<(String, u8)>) -> Seq<(Seq<char>, u8)> {
    v.map_values(|e: (String, u8)| (e.0@, e.1))
}

/// The tiers of Indonesian regulation.
pub open spec fn id_tiers() -> Seq<(Seq<char>, u8)> {
    seq![
        ("UNDANG-UNDANG"@, 8u8),
        ("PERATURAN PEMERINTAH"@, 7u8),
        ("PERATURAN PRESIDEN"@, 6u8),
        ("INSTRUKSI PRESIDEN"@, 5u8),
        ("PERATURAN DAERAH PROVINSI"@, 4u8),
        ("PERATURAN GUBERNUR"@, 3u8),
        ("PERATURAN DAERAH KABUPATEN"@, 3u8),
        ("PERATURAN DAERAH KOTA"@, 3u8),
        ("PERATURAN BUPATI"@, 2u8),
        ("PERATURAN WALIKOTA"@, 2u8),
    ]
}

/// Indonesian function words.
pub open spec fn id_stopwords() -> Seq<Seq<char>> {
    seq![
        "yang"@,
        "dan"@,
        "atau"@,
        "untuk"@,
        "dengan"@,
        "pada"@,
        "dari"@,
        "dalam"@,
        "oleh"@,
        "apakah"@,
        "bagaimana"@,
        "berapa"@,
        "siapa"@,
        "adalah"@,
        "itu"@,
        "ini"@,
        "ke"@,
        "di"@,
        "tidak"@,
        "dapat"@,
        "harus"@,
        "wajib"@,
        "jika"@,
        "akan"@,
        "sebagai"@,
    ]
}

/// Whether a vocabulary is the one for Indonesian regulation.
pub open spec fn is_id_regulation(v: Vocabulary) -> bool {
    &&& tier_views(v.authority@) == id_tiers()
    &&& v.max_tier == (Score { bits: 0x4120_0000 })
    &&& v.structural@.len() == 3
    &&& v.structural@[0].is_from(
        rule_source(escaped("LAMPIRAN"@), false),
        Field::Either,
        Score { bits: 0 },
    )
    &&& v.structural@[1].is_from(
        rule_source(escaped("PENJELASAN"@), false),
        Field::Chapter,
        Score { bits: 0x3e99_999a },
    )
    &&& v.structural@[2].is_from(
        rule_source(escaped("PASAL"@), true),
        Field::Article,
        Score { bits: ONE_BITS },
    )
    &&& v.structural_default == (Score { bits: HALF_BITS })
    &&& texts(v.stopwords@) == id_stopwords()
    &&& v.min_term_chars == 3
}

fn id_authority() -> (r: Vec<(String, u8)>)
    ensures
        tier_views(r@) == id_tiers(),
{
    let r: Vec<(String, u8)> = vec![
        ("UNDANG-UNDANG".to_owned(), 8u8),
        ("PERATURAN PEMERINTAH".to_owned(), 7u8),
        ("PERATURAN PRESIDEN".to_owned(), 6u8),
        ("INSTRUKSI PRESIDEN".to_owned(), 5u8),
        ("PERATURAN DAERAH PROVINSI".to_owned(), 4u8),
        ("PERATURAN GUBERNUR".to_owned(), 3u8),
        ("PERATURAN DAERAH KABUPATEN".to_owned(), 3u8),
        ("PERATURAN DAERAH KOTA".to_owned(), 3u8),
        ("PERATURAN BUPATI".to_owned(), 2u8),
        ("PERATURAN WALIKOTA".to_owned(), 2u8),
    ];
    assert(tier_views(r@) =~= id_tiers());
    r
}

fn id_stop() -> (r: Vec<String>)
    ensures
        texts(r@) == id_stopwords(),
{
    let r: Vec<String> = vec![
        "yang".to_owned(),
        "dan".to_owned(),
        "atau".to_owned(),
        "untuk".to_owned(),
        "dengan".to_owned(),
        "pada".to_owned(),
        "dari".to_owned(),
        "dalam".to_owned(),
        "oleh".to_owned(),
        "apakah".to_owned(),
        "bagaimana".to_owned(),
        "berapa".to_owned(),
        "siapa".to_owned(),
        "adalah".to_owned(),
        "itu".to_owned(),
        "ini".to_owned(),
        "ke".to_owned(),
        "di".to_owned(),
        "tidak".to_owned(),
        "dapat".to_owned(),
        "harus".to_owned(),
        "wajib".to_owned(),
        "jika".to_owned(),
        "akan".to_owned(),
        "sebagai".to_owned(),
    ];
    assert(texts(r@) =~= id_stopwords());
    r
}

/// The best tier among the first `n` labels that `want` starts with: the
/// longest label in bytes, and of equally long ones the last.
pub open spec fn best_tier(v: Seq<(Seq<char>, u8)>, want: Seq<char>, n: int) -> Option<(nat, u8)>
    decreases n,
{
    if n <= 0 {
        None
    } else {
        let best = best_tier(v, want, n - 1);
        let (label, tier) = v[n - 1];
        if has_prefix(want, label) && (best is None || (best->0).0 <= utf8_len(label)) {
            Some((utf8_len(label), tier))
        } else {
            best
        }
    }
}

/// A text in capitals; of nothing, nothing.
pub open spec fn capitals(s: Seq<char>) -> Seq<char> {
    if s.len() == 0 {
        s
    } else {
        uppercase_text(s)
    }
}

/// The tier of a label, matched blind to case on the trimmed value.
pub open spec fn tier_of(v: Seq<(Seq<char>, u8)>, label: Seq<char>) -> Option<u8> {
    match best_tier(v, capitals(trimmed(label)), v.len() as int) {
        Some((_, tier)) => Some(tier),
        None => None,
    }
}

/// A number above zero, for which the vocabulary is asked to act.
pub open spec fn acts(weight: Score) -> bool {
    !weight.nan() && weight.rank() > 0
}

impl Vocabulary {
    /// The vocabulary of the corpus this engine was first built for: a
    /// fallback. Its patterns compile, so it is always there.
    pub fn id_regulation() -> (r: Result<Vocabulary, regex::Error>)
        ensures
            r is Ok,
            is_id_regulation(r->Ok_0),
    {
        proof {
            reveal_strlit("LAMPIRAN");
            reveal_strlit("PENJELASAN");
            reveal_strlit("PASAL");
        }
        let annex = match StructuralRule::literal(
            "LAMPIRAN",
            Field::Either,
            Score { bits: 0 },
            false,
        ) {
            Ok(rule) => rule,
            Err(e) => return Err(e),
        };
        let elucidation = match StructuralRule::literal(
            "PENJELASAN",
            Field::Chapter,
            Score { bits: 0x3e99_999a },
            false,
        ) {
            Ok(rule) => rule,
            Err(e) => return Err(e),
        };
        let clause = match StructuralRule::literal(
            "PASAL",
            Field::Article,
            Score { bits: ONE_BITS },
            true,
        ) {
            Ok(rule) => rule,
            Err(e) => return Err(e),
        };
        Ok(Vocabulary::with_ladder(vec![annex, elucidation, clause]))
    }

    /// The tables for Indonesian regulation, over a structural ladder.
    pub fn with_ladder(structural: Vec<StructuralRule>) -> (r: Vocabulary)
        ensures
            tier_views(r.authority@) == id_tiers(),
            r.max_tier == (Score { bits: 0x4120_0000 }),
            r.structural == structural,
            r.structural_default == (Score { bits: HALF_BITS }),
            texts(r.stopwords@) == id_stopwords(),
            r.min_term_chars == 3,
    {
        Vocabulary {
            authority: id_authority(),
            max_tier: Score { bits: 0x4120_0000 },
            structural,
            structural_default: Score { bits: HALF_BITS },
            stopwords: id_stop(),
            min_term_chars: 3,
        }
    }

    /// Whether this vocabulary says what `other` says, given whether the scores
    /// of the rules at each place are close enough to count as one.
    pub open spec fn says(self, other: Vocabulary, close: Seq<bool>) -> bool {
        &&& tier_views(self.authority@) == tier_views(other.authority@)
        &&& self.max_tier.le_spec(other.max_tier) && other.max_tier.le_spec(self.max_tier)
        &&& self.structural@.len() == other.structural@.len()
        &&& forall|i: int|
            0 <= i < self.structural@.len() ==> regex_source(
                (#[trigger] self.structural@[i]).pattern,
            ) == regex_source(other.structural@[i].pattern) && self.structural@[i].field
                == other.structural@[i].field && close[i]
        &&& self.structural_default.le_spec(other.structural_default)
            && other.structural_default.le_spec(self.structural_default)
        &&& texts(self.stopwords@) == texts(other.stopwords@)
        &&& self.min_term_chars == other.min_term_chars
    }

    /// Whether this is the compiled-in fallback, handed in as `builtin`, rather
    /// than something the corpus declared. `close` says of the rules at each
    /// place whether their scores differ by less than rounding does.
    pub fn is_builtin(&self, builtin: &Vocabulary, close: &Vec<bool>) -> (r: bool)
        requires
            close@.len() >= builtin.structural@.len(),
        ensures
            r == self.says(*builtin, close@),
    {
        if !same_tiers(&self.authority, &builtin.authority) || !self.max_tier.le(builtin.max_tier)
            || !builtin.max_tier.le(self.max_tier) || self.structural.len()
            != builtin.structural.len() || !self.structural_default.le(builtin.structural_default)
            || !builtin.structural_default.le(self.structural_default) || !same_texts(
            &self.stopwords,
            &builtin.stopwords,
        ) || self.min_term_chars != builtin.min_term_chars {
            return false;
        }
        let mut i: usize = 0;
        while i < self.structural.len()
            invariant
                i <= self.structural@.len(),
                self.structural@.len() == builtin.structural@.len(),
                close@.len() >= builtin.structural@.len(),
                forall|k: int|
                    0 <= k < i ==> regex_source((#[trigger] self.structural@[k]).pattern)
                        == regex_source(builtin.structural@[k].pattern)
                        && self.structural@[k].field == builtin.structural@[k].field && close@[k],
            decreases self.structural@.len() - i,
        {
            if !self.structural[i].same_as(&builtin.structural[i], close[i]) {
                return false;
            }
            i = i + 1;
        }
        true
    }

    /// The tier of a label, or `None` for one this vocabulary does not
    /// describe. The longest matching label wins, in whatever order they are
    /// declared.
    pub fn tier(&self, label: &str) -> (r: Option<u8>)
        ensures
            r == tier_of(tier_views(self.authority@), label@),
    {
        let bare = trim(label);
        let want = to_uppercase(bare.as_str());
        assert(want@ =~= capitals(bare@));
        let ghost views = tier_views(self.authority@);
        let mut best: Option<(u128, u8)> = None;
        let mut i: usize = 0;
        while i < self.authority.len()
            invariant
                i <= self.authority@.len(),
                views == tier_views(self.authority@),
                match best {
                    Some((n, t)) => best_tier(views, want@, i as int) == Some((n as nat, t)),
                    None => best_tier(views, want@, i as int) is None,
                },
            decreases self.authority@.len() - i,
        {
            let key = &self.authority[i].0;
            let tier: u8 = self.authority[i].1;
            assert(views[i as int] == (key@, tier));
            if starts_with(want.as_str(), key.as_str()) {
                let v = chars_of(key.as_str());
                let n = bytes_upto(&v, v.len());
                assert(v@.take(v@.len() as int) =~= key@);
                let longer = match best {
                    Some((m, _)) => m <= n,
                    None => true,
                };
                if longer {
                    best = Some((n, tier));
                }
            }
            i = i + 1;
        }
        match best {
            Some((_, t)) => Some(t),
            None => None,
        }
    }

    /// Names the factors this vocabulary cannot evaluate, given weights that
    /// ask it to.
    pub fn missing_for(&self, w: &Weights) -> (r: Vec<&'static str>)
        ensures
            slices(r@) == missing_factors(*self, *w),
    {
        let mut out: Vec<&'static str> = Vec::new();
        assert(slices(out@) =~= Seq::<Seq<char>>::empty());
        if w.authority.is_positive() && self.authority.len() == 0 {
            out.push("authority");
        }
        if w.structural.is_positive() && self.structural.len() == 0 {
            out.push("structural");
        }
        assert(slices(out@) =~= missing_factors(*self, *w));
        out
    }
}

/// The factors that weights ask for and a vocabulary has no table for.
pub open spec fn missing_factors(v: Vocabulary, w: Weights) -> Seq<Seq<char>> {
    (if acts(w.authority) && v.authority@.len() == 0 {
        seq!["authority"@]
    } else {
        Seq::empty()
    }) + (if acts(w.structural) && v.structural@.len() == 0 {
        seq!["structural"@]
    } else {
        Seq::empty()
    })
}

fn same_tiers(a: &Vec<(String, u8)>, b: &Vec<(String, u8)>) -> (r: bool)
    ensures
        r == (tier_views(a@) == tier_views(b@)),
{
    let ghost x = tier_views(a@);
    let ghost y = tier_views(b@);
    if a.len() != b.len() {
        assert(x.len() != y.len());
        return false;
    }
    let mut i: usize = 0;
    while i < a.len()
        invariant
            i <= a@.len(),
            a@.len() == b@.len(),
            x == tier_views(a@),
            y == tier_views(b@),
            forall|k: int| 0 <= k < i ==> #[trigger] x[k] == y[k],
        decreases a@.len() - i,
    {
        assert(x[i as int] == (a@[i as int].0@, a@[i as int].1));
        assert(y[i as int] == (b@[i as int].0@, b@[i as int].1));
        if !same(a[i].0.as_str(), b[i].0.as_str()) || a[i].1 != b[i].1 {
            assert(x[i as int] != y[i as int]);
            return false;
        }
        i = i + 1;
    }
    assert(x =~= y);
    true
}

fn same_texts(a: &Vec<String>, b: &Vec<String>) -> (r: bool)
    ensures
        r == (texts(a@) == texts(b@)),
{
    let ghost x = texts(a@);
    let ghost y = texts(b@);
    if a.len() != b.len() {
        assert(x.len() != y.len());
        return false;
    }
    let mut i: usize = 0;
    while i < a.len()
        invariant
            i <= a@.len(),
            a@.len() == b@.len(),
            x == texts(a@),
            y == texts(b@),
            forall|k: int| 0 <= k < i ==> #[trigger] x[k] == y[k],
        decreases a@.len() - i,
    {
        assert(x[i as int] == a@[i as int]@);
        assert(y[i as int] == b@[i as int]@);
        if !same(a[i].as_str(), b[i].as_str()) {
            assert(x[i as int] != y[i as int]);
            return false;
        }
        i = i + 1;
    }
    assert(x =~= y);
    true
}

// ---------------------------------------------------------------------------
// Candidates and formulas
// ---------------------------------------------------------------------------

/// The metadata a candidate carries into scoring.
#[derive(Debug)]
pub struct Facets<'a> {
    pub regulation_type: Option<&'a str>,
    pub article: Option<&'a str>,
    pub chapter: Option<&'a str>,
    pub year: Option<i32>,
    pub about: Option<&'a str>,
    /// The chunk text, needed for the relevance floor.
    pub body: Option<&'a str>,
    pub body_len: usize,
    /// Numeric enrichment, by key.
    pub numbers: Vec<(String, Score)>,
    /// Text enrichment, by key.
    pub strings: Vec<(String, String)>,
}

impl<'a> Default for Facets<'a> {
    fn default() -> (r: Facets<'a>)
        ensures
            r.regulation_type is None,
            r.article is None,
            r.chapter is None,
            r.year is None,
            r.about is None,
            r.body is None,
            r.body_len == 0,
            r.numbers@.len() == 0,
            r.strings@.len() == 0,
    {
        Facets {
            regulation_type: None,
            article: None,
            chapter: None,
            year: None,
            about: None,
            body: None,
            body_len: 0,
            numbers: Vec::new(),
            strings: Vec::new(),
        }
    }
}

/// A stored number, as it was stored.
#[derive(Debug, Clone, Copy, PartialEq)]
pub enum Quantity {
    Length(usize),
    Year(i32),
    Number(Score),
}

/// A bounded formula with its operands. The value of every one of them is
/// brought into the range from zero to one.
#[derive(Debug, Clone, Copy, PartialEq)]
pub enum Term {
    /// This number.
    Fixed(Score),
    /// `tier / top`.
    Tier { tier: u8, top: Score },
    /// `matched / of`.
    Share { matched: usize, of: usize },
    /// `years / (years + age)`, the age counted from `now` and not below zero.
    HalfLife { years: Score, value: Quantity, now: i32 },
    /// `(value - oldest) / (newest - oldest)`.
    Span { value: Quantity, oldest: i32, newest: i32 },
    /// `1 - e^(-value / at)`.
    Saturate { value: Quantity, at: Score },
    /// One where `value >= min`, else zero.
    AtLeast { value: Quantity, min: Score },
}

/// The text of an optional label, empty where there is none.
pub open spec fn label_text(s: Option<&str>) -> Seq<char> {
    match s {
        Some(t) => t@,
        None => Seq::empty(),
    }
}

fn label_or_empty<'a>(s: Option<&'a str>) -> (r: &'a str)
    ensures
        r@ == label_text(s),
{
    match s {
        Some(t) => t,
        None => {
            proof {
                reveal_strlit("");
            }
            assert(""@ =~= Seq::empty());
            ""
        },
    }
}

/// The number zero, the number one and a half.
pub open spec fn fixed(bits: u32) -> Term {
    Term::Fixed(Score { bits })
}

/// How binding a label is: its tier on the declared scale; zero, which is
/// neutral and no penalty, for a label that is not ranked.
pub open spec fn authority_term(label: Option<Seq<char>>, v: Vocabulary) -> Term {
    match label {
        None => fixed(0),
        Some(l) => match tier_of(tier_views(v.authority@), l) {
            None => fixed(0),
            Some(tier) => Term::Tier {
                tier,
                top: if acts(v.max_tier) {
                    v.max_tier
                } else {
                    Score { bits: ONE_BITS }
                },
            },
        },
    }
}

fn rank_label(label: &str, v: &Vocabulary) -> (r: Term)
    ensures
        r == authority_term(Some(label@), *v),
{
    match v.tier(label) {
        None => Term::Fixed(Score { bits: 0 }),
        Some(tier) => {
            let top = if v.max_tier.is_positive() {
                v.max_tier
            } else {
                Score { bits: ONE_BITS }
            };
            Term::Tier { tier, top }
        },
    }
}

/// How binding is this instrument?
pub fn authority(f: &Facets<'_>, v: &Vocabulary) -> (r: Term)
    ensures
        r == authority_term(
            match f.regulation_type {
                Some(l) => Some(l@),
                None => None,
            },
            *v,
        ),
{
    match f.regulation_type {
        None => Term::Fixed(Score { bits: 0 }),
        Some(l) => rank_label(l, v),
    }
}

/// The score of the first rule from the `i`-th on that applies.
pub open spec fn ladder_from(
    rules: Seq<StructuralRule>,
    default: Score,
    article: Seq<char>,
    chapter: Seq<char>,
    i: int,
) -> Score
    decreases rules.len() - i,
{
    if i >= rules.len() {
        default
    } else if rules[i].applies(article, chapter) {
        rules[i].score
    } else {
        ladder_from(rules, default, article, chapter, i + 1)
    }
}

/// A candidate's place in the structural ladder: the score of the first rule
/// that applies to its labels.
pub open spec fn structural_score(f: Facets<'_>, v: Vocabulary) -> Score {
    ladder_from(
        v.structural@,
        v.structural_default,
        label_text(f.article),
        label_text(f.chapter),
        0,
    )
}

/// Is this an operative clause, or an annex? The first rule that applies
/// decides.
pub fn structural(f: &Facets<'_>, v: &Vocabulary) -> (r: Score)
    ensures
        r == structural_score(*f, *v),
{
    let article = label_or_empty(f.article);
    let chapter = label_or_empty(f.chapter);
    let mut i: usize = 0;
    while i < v.structural.len()
        invariant
            i <= v.structural@.len(),
            article@ == label_text(f.article),
            chapter@ == label_text(f.chapter),
            structural_score(*f, *v) == ladder_from(
                v.structural@,
                v.structural_default,
                article@,
                chapter@,
                i as int,
            ),
        decreases v.structural@.len() - i,
    {
        let rule = &v.structural[i];
        let matched = match rule.field {
            Field::Article => is_match(&rule.pattern, article),
            Field::Chapter => is_match(&rule.pattern, chapter),
            Field::Either => is_match(&rule.pattern, article) || is_match(&rule.pattern, chapter),
        };
        if matched {
            return rule.score;
        }
        i = i + 1;
    }
    v.structural_default
}

/// Is this a whole provision, or a fragment? Saturating: past a few hundred
/// characters more text is not more complete.
pub fn completeness(f: &Facets<'_>) -> (r: Term)
    ensures
        r == (Term::Saturate {
            value: Quantity::Length(f.body_len),
            at: (Score { bits: FULL_LENGTH_BITS }),
        }),
{
    Term::Saturate { value: Quantity::Length(f.body_len), at: Score { bits: FULL_LENGTH_BITS } }
}

/// Recency across the span present in the pool: a half where the year is
/// unknown or the pool has no span.
pub fn temporal(f: &Facets<'_>, oldest: i32, newest: i32) -> (r: Term)
    ensures
        r == match f.year {
            Some(y) => if newest > oldest {
                Term::Span { value: Quantity::Year(y), oldest, newest }
            } else {
                fixed(HALF_BITS)
            },
            None => fixed(HALF_BITS),
        },
{
    match f.year {
        Some(y) => if newest > oldest {
            Term::Span { value: Quantity::Year(y), oldest, newest }
        } else {
            Term::Fixed(Score { bits: HALF_BITS })
        },
        None => Term::Fixed(Score { bits: HALF_BITS }),
    }
}

// ---------------------------------------------------------------------------
// Terms of a text
// ---------------------------------------------------------------------------

/// The words of a text, each character made small.
pub open spec fn plain_words(s: Seq<char>) -> Seq<Seq<char>> {
    spans(s, Some('_')).map_values(|p: (int, int)| lowered_chars(s.subrange(p.0, p.1)))
}

/// The content words among the first `n`: long enough, no function word, and
/// not there before.
pub open spec fn content_upto(
    all: Seq<Seq<char>>,
    stopwords: Seq<Seq<char>>,
    min: nat,
    n: int,
) -> Seq<Seq<char>>
    decreases n,
{
    if n <= 0 {
        Seq::empty()
    } else {
        let before = content_upto(all, stopwords, min, n - 1);
        let w = all[n - 1];
        if w.len() > min && !stopwords.contains(w) && !before.contains(w) {
            before.push(w)
        } else {
            before
        }
    }
}

/// The content words of a text, in order of appearance.
pub open spec fn content(s: Seq<char>, v: Vocabulary) -> Seq<Seq<char>> {
    content_upto(
        plain_words(s),
        texts(v.stopwords@),
        v.min_term_chars as nat,
        plain_words(s).len() as int,
    )
}

/// The content words of a text: small, longer than the minimum, function words
/// removed, each once.
pub fn content_terms(text: &str, v: &Vocabulary) -> (r: Vec<String>)
    ensures
        texts(r@) == content(text@, *v),
{
    let chars = chars_of(text);
    let found = word_spans(&chars, Some('_'));
    let ghost all = plain_words(chars@);
    let ghost stop = texts(v.stopwords@);
    let mut out: Vec<String> = Vec::new();
    let mut i: usize = 0;
    assert(texts(out@) =~= Seq::<Seq<char>>::empty());
    while i < found.len()
        invariant
            i <= found@.len(),
            places(found@) == spans(chars@, Some('_')),
            all == plain_words(chars@),
            all.len() == found@.len(),
            stop == texts(v.stopwords@),
            forall|k: int|
                0 <= k < found@.len() ==> (#[trigger] found@[k]).start < found@[k].end
                    <= chars@.len(),
            texts(out@) == content_upto(all, stop, v.min_term_chars as nat, i as int),
        decreases found@.len() - i,
    {
        let p = found[i];
        assert(places(found@)[i as int] == (p.start as int, p.end as int));
        let low = lower_chars(&chars, p.start, p.end);
        assert(all[i as int] == low@);
        let word = string_of(&low, 0, low.len());
        assert(low@.subrange(0, low@.len() as int) =~= low@);
        let ghost before = texts(out@);
        if low.len() > v.min_term_chars && !list_contains(&v.stopwords, word.as_str())
            && !list_contains(&out, word.as_str()) {
            out.push(word);
            assert(texts(out@) =~= before.push(low@));
        }
        i = i + 1;
    }
    assert(places(found@).len() == found@.len());
    out
}

/// Content words are pairwise different, long enough, and no function words.
pub proof fn content_words_carry_meaning(s: Seq<char>, v: Vocabulary)
    ensures
        content(s, v).no_duplicates(),
        forall|i: int|
            0 <= i < content(s, v).len() ==> (#[trigger] content(s, v)[i]).len() > v.min_term_chars
                && !texts(v.stopwords@).contains(content(s, v)[i]),
{
    content_upto_carries_meaning(
        plain_words(s),
        texts(v.stopwords@),
        v.min_term_chars as nat,
        plain_words(s).len() as int,
    );
}

proof fn content_upto_carries_meaning(
    all: Seq<Seq<char>>,
    stopwords: Seq<Seq<char>>,
    min: nat,
    n: int,
)
    ensures
        content_upto(all, stopwords, min, n).no_duplicates(),
        forall|i: int|
            0 <= i < content_upto(all, stopwords, min, n).len() ==> (#[trigger] content_upto(
                all,
                stopwords,
                min,
                n,
            )[i]).len() > min && !stopwords.contains(content_upto(all, stopwords, min, n)[i]),
    decreases n,
{
    if n > 0 {
        content_upto_carries_meaning(all, stopwords, min, n - 1);
    }
}

/// How many of the first `n` query terms are among `have`.
pub open spec fn matches_upto(terms: Seq<Seq<char>>, have: Seq<Seq<char>>, n: int) -> nat
    decreases n,
{
    if n <= 0 {
        0
    } else {
        matches_upto(terms, have, n - 1) + if have.contains(terms[n - 1]) {
            1nat
        } else {
            0nat
        }
    }
}

/// How many of the query terms are among `have`.
pub open spec fn match_count(terms: Seq<Seq<char>>, have: Seq<Seq<char>>) -> nat {
    matches_upto(terms, have, terms.len() as int)
}

fn count_matches(terms: &Vec<String>, have: &Vec<String>) -> (r: usize)
    ensures
        r == match_count(texts(terms@), texts(have@)),
        r <= terms@.len(),
{
    let ghost t = texts(terms@);
    let ghost h = texts(have@);
    let mut n: usize = 0;
    let mut i: usize = 0;
    while i < terms.len()
        invariant
            i <= terms@.len(),
            t == texts(terms@),
            h == texts(have@),
            n == matches_upto(t, h, i as int),
            n <= i,
        decreases terms@.len() - i,
    {
        assert(t[i as int] == terms@[i as int]@);
        if list_contains(have, terms[i].as_str()) {
            n = n + 1;
        }
        i = i + 1;
    }
    n
}

/// How much of the query a text accounts for, or `none` where the query has no
/// content terms.
pub open spec fn share_term(text: Seq<char>, terms: Seq<Seq<char>>, v: Vocabulary, none: u32) -> Term {
    if terms.len() == 0 {
        fixed(none)
    } else {
        Term::Share {
            matched: match_count(terms, content(text, v)) as usize,
            of: terms.len() as usize,
        }
    }
}

fn share(text: &str, query_terms: &Vec<String>, v: &Vocabulary, none: u32) -> (r: Term)
    ensures
        r == share_term(text@, texts(query_terms@), *v, none),
{
    if query_terms.len() == 0 {
        return Term::Fixed(Score { bits: none });
    }
    let have = content_terms(text, v);
    Term::Share { matched: count_matches(query_terms, &have), of: query_terms.len() }
}

/// How much of the query is reflected in what the instrument is about. Whole
/// terms count, not parts of words.
pub fn topical(f: &Facets<'_>, query_terms: &Vec<String>, v: &Vocabulary) -> (r: Term)
    ensures
        r == share_term(label_text(f.about), texts(query_terms@), *v, 0),
{
    let about = label_or_empty(f.about);
    share(about, query_terms, v, 0)
}

/// Share of the query's content terms this text contains: what the relevance
/// floor is compared with. A query without content terms filters nothing.
pub fn coverage(text: &str, query_terms: &Vec<String>, v: &Vocabulary) -> (r: Term)
    ensures
        r == share_term(text@, texts(query_terms@), *v, ONE_BITS),
{
    share(text, query_terms, v, ONE_BITS)
}

// ---------------------------------------------------------------------------
// The five-term form
// ---------------------------------------------------------------------------

/// Relative influence of each factor.
#[derive(Debug, Clone, Copy, PartialEq)]
pub struct Weights {
    /// Minimum share of the query's content terms a candidate must contain to
    /// be ranked at all: a floor, not a weight.
    pub relevance_floor: Score,
    pub authority: Score,
    pub structural: Score,
    pub temporal: Score,
    pub completeness: Score,
    pub topical: Score,
}

/// A number that equals zero.
pub open spec fn is_zero(s: Score) -> bool {
    !s.nan() && s.rank() == 0
}

impl Weights {
    /// Every factor off.
    pub fn off() -> (r: Weights)
        ensures
            r.relevance_floor.bits == 0,
            r.authority.bits == 0,
            r.structural.bits == 0,
            r.temporal.bits == 0,
            r.completeness.bits == 0,
            r.topical.bits == 0,
    {
        let zero = Score { bits: 0 };
        Weights {
            relevance_floor: zero,
            authority: zero,
            structural: zero,
            temporal: zero,
            completeness: zero,
            topical: zero,
        }
    }

    /// The fitted weights: a floor of 0.3, and 0.5, 0.25 and 0.25 on authority,
    /// structure and topic.
    pub fn fitted() -> (r: Weights)
        ensures
            r.relevance_floor.bits == 0x3e99_999a,
            r.authority.bits == HALF_BITS,
            r.structural.bits == 0x3e80_0000,
            r.temporal.bits == 0,
            r.completeness.bits == 0,
            r.topical.bits == 0x3e80_0000,
    {
        Weights {
            relevance_floor: Score { bits: 0x3e99_999a },
            authority: Score { bits: HALF_BITS },
            structural: Score { bits: 0x3e80_0000 },
            temporal: Score { bits: 0 },
            completeness: Score { bits: 0 },
            topical: Score { bits: 0x3e80_0000 },
        }
    }

    /// Whether scoring leaves the fused order alone.
    pub open spec fn all_off(self) -> bool {
        &&& is_zero(self.relevance_floor)
        &&& is_zero(self.authority)
        &&& is_zero(self.structural)
        &&& is_zero(self.temporal)
        &&& is_zero(self.completeness)
        &&& is_zero(self.topical)
    }

    /// Whether scoring leaves the fused order alone.
    pub fn is_off(&self) -> (r: bool)
        ensures
            r == self.all_off(),
    {
        let zero = Score { bits: 0 };
        self.relevance_floor == zero && self.authority == zero && self.structural == zero
            && self.temporal == zero && self.completeness == zero && self.topical == zero
    }
}

impl Default for Weights {
    fn default() -> (r: Weights)
        ensures
            r.relevance_floor.bits == 0x3e99_999a,
            r.authority.bits == HALF_BITS,
            r.structural.bits == 0x3e80_0000,
            r.temporal.bits == 0,
            r.completeness.bits == 0,
            r.topical.bits == 0x3e80_0000,
    {
        Weights::fitted()
    }
}

/// A term and the weight it is multiplied by.
#[derive(Debug, Clone, Copy, PartialEq)]
pub struct WeightedTerm {
    pub weight: Score,
    pub term: Term,
}

/// The summands of the prior that a candidate's metadata earns, in the order
/// in which they are added.
pub open spec fn prior_terms(
    f: Facets<'_>,
    w: Weights,
    terms: Seq<Seq<char>>,
    oldest: i32,
    newest: i32,
    v: Vocabulary,
) -> Seq<WeightedTerm> {
    seq![
        WeightedTerm {
            weight: w.authority,
            term: authority_term(
                match f.regulation_type {
                    Some(l) => Some(l@),
                    None => None,
                },
                v,
            ),
        },
        WeightedTerm { weight: w.structural, term: Term::Fixed(structural_score(f, v)) },
        WeightedTerm {
            weight: w.completeness,
            term: (Term::Saturate {
                value: Quantity::Length(f.body_len),
                at: (Score { bits: FULL_LENGTH_BITS }),
            }),
        },
        WeightedTerm {
            weight: w.temporal,
            term: match f.year {
                Some(y) => if newest > oldest {
                    Term::Span { value: Quantity::Year(y), oldest, newest }
                } else {
                    fixed(HALF_BITS)
                },
                None => fixed(HALF_BITS),
            },
        },
        WeightedTerm { weight: w.topical, term: share_term(label_text(f.about), terms, v, 0) },
    ]
}

/// The summands of the bounded prior that a candidate's metadata earns.
pub fn prior(
    f: &Facets<'_>,
    w: &Weights,
    query_terms: &Vec<String>,
    oldest: i32,
    newest: i32,
    v: &Vocabulary,
) -> (r: Vec<WeightedTerm>)
    ensures
        r@ == prior_terms(*f, *w, texts(query_terms@), oldest, newest, *v),
{
    let r = vec![
        WeightedTerm { weight: w.authority, term: authority(f, v) },
        WeightedTerm { weight: w.structural, term: Term::Fixed(structural(f, v)) },
        WeightedTerm { weight: w.completeness, term: completeness(f) },
        WeightedTerm { weight: w.temporal, term: temporal(f, oldest, newest) },
        WeightedTerm { weight: w.topical, term: topical(f, query_terms, v) },
    ];
    assert(r@ =~= prior_terms(*f, *w, texts(query_terms@), oldest, newest, *v));
    r
}

// ---------------------------------------------------------------------------
// Assembled scoring
// ---------------------------------------------------------------------------

/// Where a factor reads its value.
#[derive(Debug, PartialEq, Eq)]
pub enum Variable {
    RegulationType,
    Article,
    Chapter,
    About,
    Body,
    BodyLen,
    Year,
    /// A numeric enrichment value, by key.
    Number(String),
    /// A text enrichment value, by key.
    Text(String),
}

/// How a raw value becomes a factor from zero to one.
#[derive(Debug, Clone, Copy, PartialEq)]
pub enum Transform {
    /// The corpus's authority ladder.
    Authority,
    /// The corpus's structural ladder.
    StructuralLadder,
    /// Recency decaying with age.
    HalfLife { years: Score },
    /// Position within the pool's own span of this variable.
    Range,
    /// Saturating growth.
    Saturate { at: Score },
    /// Share of the query's content terms this text contains.
    MatchShare,
    /// One when the value is present and not empty, else absent.
    Present,
    /// One when the value is at least `min`, else zero.
    AtLeast { min: Score },
}

/// One assembled factor.
#[derive(Debug, PartialEq)]
pub struct FactorSpec {
    /// Published in the response beside its contribution.
    pub name: String,
    pub variable: Variable,
    pub transform: Transform,
    pub weight: Score,
}

/// The whole scoring function: a floor, then a bounded sum of assembled terms.
#[derive(Debug, PartialEq)]
pub struct Composition {
    pub relevance_floor: Score,
    pub factors: Vec<FactorSpec>,
}

impl Default for Composition {
    fn default() -> (r: Composition)
        ensures
            r.relevance_floor.bits == 0,
            r.factors@.len() == 0,
    {
        Composition { relevance_floor: Score { bits: 0 }, factors: Vec::new() }
    }
}

/// Everything a transform may need beyond the candidate itself.
#[derive(Debug, Clone, Copy)]
pub struct Context<'a> {
    pub vocabulary: &'a Vocabulary,
    pub query_terms: &'a Vec<String>,
    /// The pool's own span of years.
    pub oldest: i32,
    pub newest: i32,
    /// The year that an age is measured against. Handed in, not read from a
    /// clock, so that the same corpus scores alike on two days.
    pub now: i32,
}

/// The first number stored under a key, from the `i`-th on.
pub open spec fn number_under(v: Seq<(String, Score)>, key: Seq<char>, i: int) -> Option<Score>
    decreases v.len() - i,
{
    if i >= v.len() {
        None
    } else if v[i].0@ == key {
        Some(v[i].1)
    } else {
        number_under(v, key, i + 1)
    }
}

/// The first text stored under a key, from the `i`-th on.
pub open spec fn text_under(v: Seq<(String, String)>, key: Seq<char>, i: int) -> Option<Seq<char>>
    decreases v.len() - i,
{
    if i >= v.len() {
        None
    } else if v[i].0@ == key {
        Some(v[i].1@)
    } else {
        text_under(v, key, i + 1)
    }
}

/// The text of an optional label.
pub open spec fn some_text(s: Option<&str>) -> Option<Seq<char>> {
    match s {
        Some(t) => Some(t@),
        None => None,
    }
}

/// The text that a variable holds for a candidate. An empty one counts as
/// none.
pub open spec fn text_value(f: Facets<'_>, v: Variable) -> Option<Seq<char>> {
    let t = match v {
        Variable::RegulationType => some_text(f.regulation_type),
        Variable::Article => some_text(f.article),
        Variable::Chapter => some_text(f.chapter),
        Variable::About => some_text(f.about),
        Variable::Body => some_text(f.body),
        Variable::Text(k) => text_under(f.strings@, k@, 0),
        _ => None,
    };
    if t is Some && (t->0).len() == 0 {
        None
    } else {
        t
    }
}

/// The number that a variable holds for a candidate.
pub open spec fn number_value(f: Facets<'_>, v: Variable) -> Option<Quantity> {
    match v {
        Variable::BodyLen => Some(Quantity::Length(f.body_len)),
        Variable::Year => match f.year {
            Some(y) => Some(Quantity::Year(y)),
            None => None,
        },
        Variable::Number(k) => match number_under(f.numbers@, k@, 0) {
            Some(n) => Some(Quantity::Number(n)),
            None => None,
        },
        _ => None,
    }
}

/// The formula of one factor for a candidate, or none where the variable is
/// absent: what the corpus does not record is not what scores lowest.
pub open spec fn factor_term(s: FactorSpec, f: Facets<'_>, cx: Context<'_>) -> Option<Term> {
    let text = text_value(f, s.variable);
    let number = number_value(f, s.variable);
    match s.transform {
        Transform::Authority => match text {
            Some(l) => Some(authority_term(Some(l), *cx.vocabulary)),
            None => None,
        },
        Transform::StructuralLadder => Some(Term::Fixed(structural_score(f, *cx.vocabulary))),
        Transform::HalfLife { years } => match number {
            Some(value) => Some(Term::HalfLife { years, value, now: cx.now }),
            None => None,
        },
        Transform::Range => match number {
            Some(value) => if cx.newest > cx.oldest {
                Some(Term::Span { value, oldest: cx.oldest, newest: cx.newest })
            } else {
                Some(fixed(HALF_BITS))
            },
            None => None,
        },
        Transform::Saturate { at } => match number {
            Some(value) => Some(Term::Saturate { value, at }),
            None => None,
        },
        Transform::MatchShare => match text {
            Some(t) => Some(share_term(t, texts(cx.query_terms@), *cx.vocabulary, 0)),
            None => None,
        },
        Transform::Present => if text is Some || number is Some {
            Some(fixed(ONE_BITS))
        } else {
            None
        },
        Transform::AtLeast { min } => match number {
            Some(Quantity::Number(n)) => if min.le_spec(n) {
                Some(fixed(ONE_BITS))
            } else {
                Some(fixed(0))
            },
            Some(value) => Some(Term::AtLeast { value, min }),
            None => None,
        },
    }
}

fn find_number(v: &Vec<(String, Score)>, key: &str) -> (r: Option<Score>)
    ensures
        r == number_under(v@, key@, 0),
{
    let mut i: usize = 0;
    while i < v.len()
        invariant
            i <= v@.len(),
            number_under(v@, key@, 0) == number_under(v@, key@, i as int),
        decreases v@.len() - i,
    {
        if same(v[i].0.as_str(), key) {
            return Some(v[i].1);
        }
        i = i + 1;
    }
    None
}

fn find_text<'a>(v: &'a Vec<(String, String)>, key: &str) -> (r: Option<&'a str>)
    ensures
        some_text(r) == text_under(v@, key@, 0),
{
    let mut i: usize = 0;
    while i < v.len()
        invariant
            i <= v@.len(),
            text_under(v@, key@, 0) == text_under(v@, key@, i as int),
        decreases v@.len() - i,
    {
        if same(v[i].0.as_str(), key) {
            return Some(v[i].1.as_str());
        }
        i = i + 1;
    }
    None
}

fn read_text<'a>(f: &'a Facets<'a>, v: &Variable) -> (r: Option<&'a str>)
    ensures
        some_text(r) == text_value(*f, *v),
{
    let t: Option<&'a str> = match v {
        Variable::RegulationType => f.regulation_type,
        Variable::Article => f.article,
        Variable::Chapter => f.chapter,
        Variable::About => f.about,
        Variable::Body => f.body,
        Variable::Text(k) => find_text(&f.strings, k.as_str()),
        _ => None,
    };
    match t {
        Some(s) => if s.is_empty() {
            None
        } else {
            Some(s)
        },
        None => None,
    }
}

fn read_number(f: &Facets<'_>, v: &Variable) -> (r: Option<Quantity>)
    ensures
        r == number_value(*f, *v),
{
    match v {
        Variable::BodyLen => Some(Quantity::Length(f.body_len)),
        Variable::Year => match f.year {
            Some(y) => Some(Quantity::Year(y)),
            None => None,
        },
        Variable::Number(k) => match find_number(&f.numbers, k.as_str()) {
            Some(n) => Some(Quantity::Number(n)),
            None => None,
        },
        _ => None,
    }
}

/// The formula of one factor for a candidate, or `None` where the variable is
/// absent. An absent term contributes nothing, which leaves the candidate
/// ranked on the factors that can be computed.
pub fn evaluate(spec: &FactorSpec, f: &Facets<'_>, cx: &Context<'_>) -> (r: Option<Term>)
    ensures
        r == factor_term(*spec, *f, *cx),
{
    match &spec.transform {
        Transform::Authority => match read_text(f, &spec.variable) {
            Some(label) => Some(rank_label(label, cx.vocabulary)),
            None => None,
        },
        // The ladder reads article and chapter, so it takes the whole
        // candidate rather than one variable.
        Transform::StructuralLadder => Some(Term::Fixed(structural(f, cx.vocabulary))),
        Transform::HalfLife { years } => match read_number(f, &spec.variable) {
            Some(value) => Some(Term::HalfLife { years: *years, value, now: cx.now }),
            None => None,
        },
        Transform::Range => match read_number(f, &spec.variable) {
            Some(value) => if cx.newest > cx.oldest {
                Some(Term::Span { value, oldest: cx.oldest, newest: cx.newest })
            } else {
                Some(Term::Fixed(Score { bits: HALF_BITS }))
            },
            None => None,
        },
        Transform::Saturate { at } => match read_number(f, &spec.variable) {
            Some(value) => Some(Term::Saturate { value, at: *at }),
            None => None,
        },
        Transform::MatchShare => match read_text(f, &spec.variable) {
            Some(haystack) => Some(share(haystack, cx.query_terms, cx.vocabulary, 0)),
            None => None,
        },
        Transform::Present => {
            let text = read_text(f, &spec.variable);
            let number = read_number(f, &spec.variable);
            if text.is_some() || number.is_some() {
                Some(Term::Fixed(Score { bits: ONE_BITS }))
            } else {
                None
            }
        },
        Transform::AtLeast { min } => match read_number(f, &spec.variable) {
            Some(Quantity::Number(n)) => if min.le(n) {
                Some(Term::Fixed(Score { bits: ONE_BITS }))
            } else {
                Some(Term::Fixed(Score { bits: 0 }))
            },
            Some(value) => Some(Term::AtLeast { value, min: *min }),
            None => None,
        },
    }
}

/// One factor with these parts.
pub open spec fn is_factor(
    s: FactorSpec,
    name: Seq<char>,
    variable: Variable,
    transform: Transform,
    weight: Score,
) -> bool {
    &&& s.name@ == name
    &&& s.variable == variable
    &&& s.transform == transform
    &&& s.weight == weight
}

/// Whether a composition is the five-term form of these weights.
pub open spec fn is_classic(c: Composition, w: Weights) -> bool {
    &&& c.relevance_floor == w.relevance_floor
    &&& c.factors@.len() == 5
    &&& is_factor(
        c.factors@[0],
        "authority"@,
        Variable::RegulationType,
        Transform::Authority,
        w.authority,
    )
    &&& is_factor(
        c.factors@[1],
        "structural"@,
        Variable::Article,
        Transform::StructuralLadder,
        w.structural,
    )
    &&& is_factor(
        c.factors@[2],
        "completeness"@,
        Variable::BodyLen,
        Transform::Saturate { at: (Score { bits: FULL_LENGTH_BITS }) },
        w.completeness,
    )
    &&& is_factor(c.factors@[3], "temporal"@, Variable::Year, Transform::Range, w.temporal)
    &&& is_factor(c.factors@[4], "topical"@, Variable::About, Transform::MatchShare, w.topical)
}

/// Whether a factor asks for something that the vocabulary or the rows cannot
/// supply.
pub open spec fn factor_is_missing(
    s: FactorSpec,
    v: Vocabulary,
    available: Seq<Seq<char>>,
) -> bool {
    &&& !(s.weight.le_spec(Score { bits: 0 }))
    &&& match s.transform {
        Transform::Authority => v.authority@.len() == 0,
        Transform::StructuralLadder => v.structural@.len() == 0,
        _ => match s.variable {
            Variable::Number(k) => !available.contains(k@),
            Variable::Text(k) => !available.contains(k@),
            _ => false,
        },
    }
}

/// The names of the factors among the first `n` that cannot be evaluated, each
/// once.
pub open spec fn missing_upto(
    factors: Seq<FactorSpec>,
    v: Vocabulary,
    available: Seq<Seq<char>>,
    n: int,
) -> Seq<Seq<char>>
    decreases n,
{
    if n <= 0 {
        Seq::empty()
    } else {
        let before = missing_upto(factors, v, available, n - 1);
        let s = factors[n - 1];
        if factor_is_missing(s, v, available) && !before.contains(s.name@) {
            before.push(s.name@)
        } else {
            before
        }
    }
}

impl Composition {
    /// The weights whose sum bounds the prior. The floor is a threshold, not a
    /// weight.
    pub fn weights(&self) -> (r: Vec<Score>)
        ensures
            r@ == self.factors@.map_values(|s: FactorSpec| s.weight),
    {
        let ghost all = self.factors@.map_values(|s: FactorSpec| s.weight);
        let mut out: Vec<Score> = Vec::new();
        let mut i: usize = 0;
        while i < self.factors.len()
            invariant
                i <= self.factors@.len(),
                all == self.factors@.map_values(|s: FactorSpec| s.weight),
                out@ == all.take(i as int),
            decreases self.factors@.len() - i,
        {
            out.push(self.factors[i].weight);
            assert(out@ =~= all.take(i + 1));
            i = i + 1;
        }
        assert(all.take(i as int) =~= all);
        out
    }

    /// Whether nothing is filtered and nothing is weighted.
    pub open spec fn inert(self) -> bool {
        &&& self.relevance_floor.le_spec(Score { bits: 0 })
        &&& forall|i: int| 0 <= i < self.factors@.len() ==> is_zero((#[trigger] self.factors@[i]).weight)
    }

    /// Whether nothing is filtered and nothing is weighted: such a composition
    /// leaves the fused order alone.
    pub fn is_inert(&self) -> (r: bool)
        ensures
            r == self.inert(),
    {
        let zero = Score { bits: 0 };
        if !self.relevance_floor.le(zero) {
            return false;
        }
        let mut i: usize = 0;
        while i < self.factors.len()
            invariant
                i <= self.factors@.len(),
                zero.bits == 0,
                forall|k: int| 0 <= k < i ==> is_zero((#[trigger] self.factors@[k]).weight),
            decreases self.factors@.len() - i,
        {
            if self.factors[i].weight != zero {
                assert(!is_zero(self.factors@[i as int].weight));
                return false;
            }
            i = i + 1;
        }
        true
    }

    /// The five factors, as a declared composition.
    pub fn classic(w: &Weights) -> (r: Composition)
        ensures
            is_classic(r, *w),
    {
        Composition {
            relevance_floor: w.relevance_floor,
            factors: vec![
                FactorSpec {
                    name: "authority".to_owned(),
                    variable: Variable::RegulationType,
                    transform: Transform::Authority,
                    weight: w.authority,
                },
                FactorSpec {
                    name: "structural".to_owned(),
                    variable: Variable::Article,
                    transform: Transform::StructuralLadder,
                    weight: w.structural,
                },
                FactorSpec {
                    name: "completeness".to_owned(),
                    variable: Variable::BodyLen,
                    transform: Transform::Saturate { at: Score { bits: FULL_LENGTH_BITS } },
                    weight: w.completeness,
                },
                FactorSpec {
                    name: "temporal".to_owned(),
                    variable: Variable::Year,
                    transform: Transform::Range,
                    weight: w.temporal,
                },
                FactorSpec {
                    name: "topical".to_owned(),
                    variable: Variable::About,
                    transform: Transform::MatchShare,
                    weight: w.topical,
                },
            ],
        }
    }

    /// The names of weighted factors that the candidate rows, or the corpus's
    /// tables, cannot supply. A weight on a value no row carries has no effect,
    /// and looks like one that was measured and found not to help.
    pub fn missing_for<'a>(&'a self, v: &Vocabulary, available: &Vec<String>) -> (r: Vec<&'a str>)
        ensures
            slices(r@) == missing_upto(
                self.factors@,
                *v,
                texts(available@),
                self.factors@.len() as int,
            ),
    {
        let zero = Score { bits: 0 };
        let mut out: Vec<&'a str> = Vec::new();
        let mut i: usize = 0;
        assert(slices(out@) =~= Seq::<Seq<char>>::empty());
        while i < self.factors.len()
            invariant
                i <= self.factors@.len(),
                zero == (Score { bits: 0 }),
                slices(out@) == missing_upto(self.factors@, *v, texts(available@), i as int),
            decreases self.factors@.len() - i,
        {
            let f = &self.factors[i];
            let absent = match (&f.variable, &f.transform) {
                (_, Transform::Authority) => v.authority.len() == 0,
                (_, Transform::StructuralLadder) => v.structural.len() == 0,
                (Variable::Number(k), _) => !list_contains(available, k.as_str()),
                (Variable::Text(k), _) => !list_contains(available, k.as_str()),
                _ => false,
            };
            let ghost before = slices(out@);
            if !f.weight.le(zero) && absent && !slices_contain(&out, f.name.as_str()) {
                out.push(f.name.as_str());
                assert(slices(out@) =~= before.push(f.name@));
            }
            i = i + 1;
        }
        out
    }
}

/// The summands that assembled factors earn, among the first `n`: those with a
/// weight and a value.
pub open spec fn composed_upto(
    factors: Seq<FactorSpec>,
    f: Facets<'_>,
    cx: Context<'_>,
    n: int,
) -> Seq<WeightedTerm>
    decreases n,
{
    if n <= 0 {
        Seq::empty()
    } else {
        let before = composed_upto(factors, f, cx, n - 1);
        let s = factors[n - 1];
        match factor_term(s, f, cx) {
            Some(term) => if is_zero(s.weight) {
                before
            } else {
                before.push(WeightedTerm { weight: s.weight, term })
            },
            None => before,
        }
    }
}

/// The summands of the bounded prior that a candidate's metadata earns.
pub fn composed_prior(f: &Facets<'_>, c: &Composition, cx: &Context<'_>) -> (r: Vec<WeightedTerm>)
    ensures
        r@ == composed_upto(c.factors@, *f, *cx, c.factors@.len() as int),
{
    let zero = Score { bits: 0 };
    let mut out: Vec<WeightedTerm> = Vec::new();
    let mut i: usize = 0;
    while i < c.factors.len()
        invariant
            i <= c.factors@.len(),
            zero.bits == 0,
            out@ == composed_upto(c.factors@, *f, *cx, i as int),
        decreases c.factors@.len() - i,
    {
        let s = &c.factors[i];
        match evaluate(s, f, cx) {
            Some(term) => if s.weight != zero {
                out.push(WeightedTerm { weight: s.weight, term });
            },
            None => {},
        }
        i = i + 1;
    }
    out
}

/// Per-factor formulas for one candidate, by name: what the response
/// publishes. An absent value is reported as absent, not as zero.
pub fn contributions<'a>(f: &Facets<'_>, c: &'a Composition, cx: &Context<'_>) -> (r: Vec<
    (&'a str, Option<Term>),
>)
    ensures
        r@.len() == c.factors@.len(),
        forall|i: int|
            0 <= i < r@.len() ==> (#[trigger] r@[i]).0@ == c.factors@[i].name@ && r@[i].1
                == factor_term(c.factors@[i], *f, *cx),
{
    let mut out: Vec<(&'a str, Option<Term>)> = Vec::new();
    let mut i: usize = 0;
    while i < c.factors.len()
        invariant
            i <= c.factors@.len(),
            out@.len() == i,
            forall|k: int|
                0 <= k < i ==> (#[trigger] out@[k]).0@ == c.factors@[k].name@ && out@[k].1
                    == factor_term(c.factors@[k], *f, *cx),
        decreases c.factors@.len() - i,
    {
        let s = &c.factors[i];
        out.push((s.name.as_str(), evaluate(s, f, cx)));
        i = i + 1;
    }
    out
}

/// A formula whose value is zero: the number, or a share of nothing.
pub open spec fn is_nothing(t: Term) -> bool {
    match t {
        Term::Fixed(x) => x.bits == 0,
        Term::Share { matched, of } => matched == 0 && of > 0,
        _ => false,
    }
}

proof fn an_empty_text_matches_nothing(terms: Seq<Seq<char>>, v: Vocabulary, n: int)
    requires
        0 <= n <= terms.len(),
    ensures
        content(Seq::empty(), v).len() == 0,
        matches_upto(terms, content(Seq::empty(), v), n) == 0,
    decreases n,
{
    assert(plain_words(Seq::empty()).len() == 0);
    if n > 0 {
        an_empty_text_matches_nothing(terms, v, n - 1);
    }
}

/// Whether no label of a vocabulary is empty.
pub open spec fn labels_are_texts(v: Vocabulary) -> bool {
    forall|i: int|
        0 <= i < tier_views(v.authority@).len() ==> (#[trigger] tier_views(v.authority@)[i]).0.len()
            > 0
}

proof fn an_empty_label_has_no_tier(v: Vocabulary, label: Seq<char>, n: int)
    requires
        labels_are_texts(v),
        label.len() == 0,
        0 <= n <= tier_views(v.authority@).len(),
    ensures
        best_tier(tier_views(v.authority@), capitals(trimmed(label)), n) is None,
    decreases n,
{
    assert(trimmed(label).len() == 0);
    if n > 0 {
        an_empty_label_has_no_tier(v, label, n - 1);
        assert(tier_views(v.authority@)[n - 1].0.len() > 0);
    }
}

/// The labels of the built-in vocabulary are not empty.
pub proof fn the_built_in_labels_are_texts(v: Vocabulary)
    requires
        is_id_regulation(v),
    ensures
        labels_are_texts(v),
{
    reveal_strlit("UNDANG-UNDANG");
    reveal_strlit("PERATURAN PEMERINTAH");
    reveal_strlit("PERATURAN PRESIDEN");
    reveal_strlit("INSTRUKSI PRESIDEN");
    reveal_strlit("PERATURAN DAERAH PROVINSI");
    reveal_strlit("PERATURAN GUBERNUR");
    reveal_strlit("PERATURAN DAERAH KABUPATEN");
    reveal_strlit("PERATURAN DAERAH KOTA");
    reveal_strlit("PERATURAN BUPATI");
    reveal_strlit("PERATURAN WALIKOTA");
}

/// Whether the five-term form and its assembled form agree on a candidate. The
/// five-term form gives a candidate without a year a half where the assembled
/// form gives it nothing, and an empty type has a value only where a vocabulary
/// ranks the empty label.
pub open spec fn is_ranked_alike(f: Facets<'_>, w: Weights, v: Vocabulary) -> bool {
    &&& f.year is Some || is_zero(w.temporal)
    &&& f.regulation_type is Some && (f.regulation_type->0)@.len() == 0 ==> labels_are_texts(v)
}

/// The five-term form, assembled, adds up to what the five functions add up to:
/// every factor has the same weight and the same formula, or is left out where
/// its formula comes to zero or its weight is zero.
pub proof fn the_classic_composition_reproduces_the_five_terms(
    c: Composition,
    w: Weights,
    f: Facets<'_>,
    cx: Context<'_>,
    i: int,
)
    requires
        is_classic(c, w),
        is_ranked_alike(f, w, *cx.vocabulary),
        cx.query_terms@.len() <= usize::MAX,
        0 <= i < 5,
    ensures
        ({
            let five = prior_terms(
                f,
                w,
                texts(cx.query_terms@),
                cx.oldest,
                cx.newest,
                *cx.vocabulary,
            );
            &&& c.factors@[i].weight == five[i].weight
            &&& match factor_term(c.factors@[i], f, cx) {
                Some(term) => term == five[i].term,
                None => is_nothing(five[i].term) || is_zero(five[i].weight),
            }
        }),
{
    let terms = texts(cx.query_terms@);
    if text_value(f, Variable::About) is None {
        assert(label_text(f.about) =~= Seq::empty());
        an_empty_text_matches_nothing(terms, *cx.vocabulary, terms.len() as int);
    }
    if f.regulation_type is Some && (f.regulation_type->0)@.len() == 0 {
        let views = tier_views(cx.vocabulary.authority@);
        an_empty_label_has_no_tier(
            *cx.vocabulary,
            (f.regulation_type->0)@,
            views.len() as int,
        );
    }
}

// ---------------------------------------------------------------------------
// The floor and the order
// ---------------------------------------------------------------------------

/// Whether the relevance floor filters at all.
pub open spec fn floor_acts(floor: Score, terms: Seq<Seq<char>>) -> bool {
    acts(floor) && terms.len() > 0
}

/// Whether the relevance floor filters at all: it is above zero, and the query
/// has content terms.
pub fn floor_applies(floor: Score, query_terms: &Vec<String>) -> (r: bool)
    ensures
        r == floor_acts(floor, texts(query_terms@)),
{
    assert(texts(query_terms@).len() == query_terms@.len());
    floor.is_positive() && query_terms.len() > 0
}

/// The candidates among the first `n` that reach the floor.
pub open spec fn covered_upto<T>(pool: Seq<T>, coverages: Seq<Score>, floor: Score, n: int) -> Seq<T>
    decreases n,
{
    if n <= 0 {
        Seq::empty()
    } else if floor.le_spec(coverages[n - 1]) {
        covered_upto(pool, coverages, floor, n - 1).push(pool[n - 1])
    } else {
        covered_upto(pool, coverages, floor, n - 1)
    }
}

/// What the floor leaves of a pool: those that reach it, or the first
/// candidate alone where none does.
pub open spec fn after_floor<T>(pool: Seq<T>, coverages: Seq<Score>, floor: Score) -> Seq<T> {
    let kept = covered_upto(pool, coverages, floor, pool.len() as int);
    if kept.len() > 0 || pool.len() == 0 {
        kept
    } else {
        seq![pool[0]]
    }
}

/// Applies the relevance floor, given what share of the query each candidate
/// covers. It removes candidates, since order alone cannot say that something
/// does not belong in the answer; and it never empties the pool, since that
/// the corpus cannot answer is another component's decision.
pub fn keep_covered<T: Copy>(pool: &Vec<T>, coverages: &Vec<Score>, floor: Score) -> (r: Vec<T>)
    requires
        coverages@.len() == pool@.len(),
    ensures
        r@ == after_floor(pool@, coverages@, floor),
{
    let mut kept: Vec<T> = Vec::new();
    let mut i: usize = 0;
    while i < pool.len()
        invariant
            i <= pool@.len(),
            coverages@.len() == pool@.len(),
            kept@ == covered_upto(pool@, coverages@, floor, i as int),
        decreases pool@.len() - i,
    {
        if floor.le(coverages[i]) {
            kept.push(pool[i]);
        }
        i = i + 1;
    }
    if kept.len() == 0 && pool.len() > 0 {
        kept.push(pool[0]);
        assert(kept@ =~= seq![pool@[0]]);
    }
    kept
}

proof fn covered_are_from_the_pool<T>(pool: Seq<T>, coverages: Seq<Score>, floor: Score, n: int)
    requires
        0 <= n <= pool.len(),
    ensures
        covered_upto(pool, coverages, floor, n).len() <= n,
        forall|k: int|
            0 <= k < covered_upto(pool, coverages, floor, n).len() ==> pool.take(n).contains(
                #[trigger] covered_upto(pool, coverages, floor, n)[k],
            ),
    decreases n,
{
    if n > 0 {
        covered_are_from_the_pool(pool, coverages, floor, n - 1);
        let s = covered_upto(pool, coverages, floor, n - 1);
        let t = covered_upto(pool, coverages, floor, n);
        assert forall|k: int| 0 <= k < t.len() implies pool.take(n).contains(#[trigger] t[k]) by {
            if k < s.len() {
                assert(t[k] == s[k]);
                let m = pool.take(n - 1).index_of(s[k]);
                assert(pool.take(n)[m] == t[k]);
            } else {
                assert(pool.take(n)[n - 1] == t[k]);
            }
        }
    }
}

/// The floor never empties a pool, never grows it, and adds nothing to it.
pub proof fn the_floor_never_empties_a_pool<T>(pool: Seq<T>, coverages: Seq<Score>, floor: Score)
    ensures
        pool.len() > 0 ==> after_floor(pool, coverages, floor).len() > 0,
        after_floor(pool, coverages, floor).len() <= pool.len(),
        forall|k: int|
            0 <= k < after_floor(pool, coverages, floor).len() ==> pool.contains(
                #[trigger] after_floor(pool, coverages, floor)[k],
            ),
{
    covered_are_from_the_pool(pool, coverages, floor, pool.len() as int);
    assert(pool.take(pool.len() as int) =~= pool);
    if pool.len() > 0 {
        assert(pool.contains(pool[0]));
    }
}

/// The years of a pool span from the first number to the second: both are
/// years of it, and every year of it lies between; zero and zero where it has
/// none.
pub open spec fn is_span(years: Seq<Option<i32>>, oldest: i32, newest: i32) -> bool {
    if exists|i: int| 0 <= i < years.len() && (#[trigger] years[i]) is Some {
        &&& years.contains(Some(oldest))
        &&& years.contains(Some(newest))
        &&& forall|i: int|
            0 <= i < years.len() && (#[trigger] years[i]) is Some ==> oldest <= years[i]->0
                <= newest
    } else {
        oldest == 0 && newest == 0
    }
}

/// The span of years in a pool. It is measured on the candidates that are
/// ranked, not on those that the floor removed.
pub fn year_span(years: &Vec<Option<i32>>) -> (r: (i32, i32))
    ensures
        is_span(years@, r.0, r.1),
{
    let mut span: Option<(i32, i32)> = None;
    let mut i: usize = 0;
    while i < years.len()
        invariant
            i <= years@.len(),
            match span {
                Some((a, b)) => {
                    &&& years@.take(i as int).contains(Some(a))
                    &&& years@.take(i as int).contains(Some(b))
                    &&& forall|k: int|
                        0 <= k < i && (#[trigger] years@[k]) is Some ==> a <= years@[k]->0 <= b
                },
                None => forall|k: int| 0 <= k < i ==> (#[trigger] years@[k]) is None,
            },
        decreases years@.len() - i,
    {
        let ghost before = years@.take(i as int);
        let ghost now = years@.take(i + 1);
        match years[i] {
            Some(y) => {
                assert(now[i as int] == Some(y));
                match span {
                    Some((a, b)) => {
                        proof {
                            let p = before.index_of(Some(a));
                            let q = before.index_of(Some(b));
                            assert(now[p] == Some(a) && now[q] == Some(b));
                        }
                        let lo = if y < a {
                            y
                        } else {
                            a
                        };
                        let hi = if y > b {
                            y
                        } else {
                            b
                        };
                        span = Some((lo, hi));
                    },
                    None => {
                        span = Some((y, y));
                    },
                }
            },
            None => {
                proof {
                    if span is Some {
                        let p = before.index_of(Some((span->0).0));
                        let q = before.index_of(Some((span->0).1));
                        assert(now[p] == Some((span->0).0) && now[q] == Some((span->0).1));
                    }
                }
            },
        }
        i = i + 1;
    }
    assert(years@.take(i as int) =~= years@);
    match span {
        Some((a, b)) => {
            proof {
                let p = years@.index_of(Some(a));
                assert(years@[p] is Some);
            }
            (a, b)
        },
        None => (0, 0),
    }
}

/// Something with the number it is ranked by.
#[derive(Debug, PartialEq)]
pub struct Weighed<T> {
    pub score: Score,
    pub item: T,
}

/// The greater number stands first.
impl<T> Ordered for Weighed<T> {
    open spec fn ahead(&self, other: &Self) -> bool {
        self.score.rank() > other.score.rank()
    }

    proof fn ahead_is_an_order(a: &Self, b: &Self, c: &Self) {
    }

    fn is_ahead(&self, other: &Self) -> bool {
        other.score.rank_before(self.score)
    }
}

/// Ranks candidates on their final scores, best first. Ties keep the incoming
/// order.
pub fn rank_by_score<T>(pool: Vec<Weighed<T>>) -> (r: Vec<Weighed<T>>)
    ensures
        r@ == arranged(pool@),
{
    arrange(pool)
}

/// Whether `p` is every place of a list of length `n`, each once.
pub open spec fn is_shuffle(p: Seq<int>, n: nat) -> bool {
    &&& p.len() == n
    &&& p.no_duplicates()
    &&& forall|i: int| 0 <= i < p.len() ==> 0 <= #[trigger] p[i] < n
}

/// Ranking gives back every candidate once, the greater score first, and of
/// equal scores the one that came first.
pub proof fn ranking_puts_the_best_first<T>(pool: Seq<Weighed<T>>) -> (p: Seq<int>)
    ensures
        is_shuffle(p, pool.len()),
        arranged(pool).len() == pool.len(),
        forall|i: int| 0 <= i < p.len() ==> arranged(pool)[i] == pool[#[trigger] p[i]],
        forall|i: int, j: int|
            #![trigger p[i], p[j]]
            0 <= i < j < p.len() ==> pool[p[i]].score.rank() > pool[p[j]].score.rank() || (
            pool[p[i]].score.rank() == pool[p[j]].score.rank() && p[i] < p[j]),
{
    let p = crate::order::arranging_is_stable(pool);
    crate::order::arranging_orders(pool);
    crate::order::arranging_keeps_elements(pool);
    let r = arranged(pool);
    assert forall|i: int, j: int|
        #![trigger p[i], p[j]]
        0 <= i < j < p.len() implies pool[p[i]].score.rank() > pool[p[j]].score.rank() || (
    pool[p[i]].score.rank() == pool[p[j]].score.rank() && p[i] < p[j]) by {
        assert(!r[j].ahead(&r[i]));
    }
    p
}

/// Candidates that all score alike keep the fused order.
pub proof fn equal_scores_keep_the_fused_order<T>(pool: Seq<Weighed<T>>)
    requires
        forall|i: int, j: int|
            #![trigger pool[i], pool[j]]
            0 <= i < pool.len() && 0 <= j < pool.len() ==> pool[i].score.rank()
                == pool[j].score.rank(),
    ensures
        arranged(pool) == pool,
{
    crate::order::arranging_keeps_what_is_in_order(pool);
}

// ---------------------------------------------------------------------------
// A whole pool
// ---------------------------------------------------------------------------

/// Whether a summand comes to zero: its weight is zero, or its formula under a
/// finite weight.
pub open spec fn is_idle(t: WeightedTerm) -> bool {
    is_zero(t.weight) || (is_nothing(t.term) && t.weight.finite())
}

/// The summands among the first `n` that count: those that do not come to zero.
pub open spec fn telling_upto(s: Seq<WeightedTerm>, n: int) -> Seq<WeightedTerm>
    decreases n,
{
    if n <= 0 {
        Seq::empty()
    } else if is_idle(s[n - 1]) {
        telling_upto(s, n - 1)
    } else {
        telling_upto(s, n - 1).push(s[n - 1])
    }
}

/// The summands that count.
pub open spec fn telling(s: Seq<WeightedTerm>) -> Seq<WeightedTerm> {
    telling_upto(s, s.len() as int)
}

/// The summands of a prior that count. To add up the others makes no difference,
/// and they are left out.
pub fn telling_terms(summands: &Vec<WeightedTerm>) -> (r: Vec<WeightedTerm>)
    ensures
        r@ == telling(summands@),
{
    let mut out: Vec<WeightedTerm> = Vec::new();
    let mut i: usize = 0;
    while i < summands.len()
        invariant
            i <= summands@.len(),
            out@ == telling_upto(summands@, i as int),
        decreases summands@.len() - i,
    {
        let t = summands[i];
        let nothing = match t.term {
            Term::Fixed(x) => x.bits == 0,
            Term::Share { matched, of } => matched == 0 && of > 0,
            _ => false,
        };
        if !(t.weight == Score::zero() || (nothing && t.weight.is_finite())) {
            out.push(t);
        }
        i = i + 1;
    }
    out
}

/// Weights that are finite and not negative.
pub open spec fn weights_are_sound(w: Weights) -> bool {
    &&& w.relevance_floor.finite() && w.relevance_floor.rank() >= 0
    &&& w.authority.finite() && w.authority.rank() >= 0
    &&& w.structural.finite() && w.structural.rank() >= 0
    &&& w.temporal.finite() && w.temporal.rank() >= 0
    &&& w.completeness.finite() && w.completeness.rank() >= 0
    &&& w.topical.finite() && w.topical.rank() >= 0
}

/// What the floor leaves of a pool of relevances, labels and items, given what
/// the formula of a coverage comes to.
pub open spec fn pool_after_floor<T>(
    pool: Seq<(Score, Facets<'_>, T)>,
    floor: Score,
    terms: Seq<Seq<char>>,
    v: Vocabulary,
    worth: spec_fn(Term) -> Score,
) -> Seq<(Score, Facets<'_>, T)> {
    if floor_acts(floor, terms) {
        after_floor(
            pool,
            pool.map_values(
                |e: (Score, Facets<'_>, T)|
                    worth(share_term(label_text(e.1.body), terms, v, ONE_BITS)),
            ),
            floor,
        )
    } else {
        pool
    }
}

/// A pool ranked on scores, best first, ties in the order in which they came.
pub open spec fn ranked_on<T>(
    pool: Seq<(Score, Facets<'_>, T)>,
    scores: Seq<Score>,
) -> Seq<(Score, Facets<'_>, T)> {
    arranged(
        Seq::new(pool.len(), |i: int| Weighed { score: scores[i], item: pool[i] }),
    ).map_values(|x: Weighed<(Score, Facets<'_>, T)>| x.item)
}

/// A pool scored and ranked by the five-term form. The span of years is that
/// of the context.
pub open spec fn rescored<'a, T>(
    pool: Seq<(Score, Facets<'a>, T)>,
    w: Weights,
    cx: Context<'_>,
    worth: spec_fn(Term) -> Score,
    lift: spec_fn(Score, Seq<WeightedTerm>) -> Score,
) -> Seq<(Score, Facets<'a>, T)> {
    let terms = texts(cx.query_terms@);
    let kept = pool_after_floor(pool, w.relevance_floor, terms, *cx.vocabulary, worth);
    if w.all_off() {
        pool
    } else {
        ranked_on(
            kept,
            kept.map_values(
                |e: (Score, Facets<'_>, T)|
                    lift(
                        e.0,
                        telling(
                            prior_terms(e.1, w, terms, cx.oldest, cx.newest, *cx.vocabulary),
                        ),
                    ),
            ),
        )
    }
}

/// A pool scored and ranked by an assembled form, in the same context.
pub open spec fn rescored_composed<'a, T>(
    pool: Seq<(Score, Facets<'a>, T)>,
    c: Composition,
    cx: Context<'_>,
    worth: spec_fn(Term) -> Score,
    lift: spec_fn(Score, Seq<WeightedTerm>) -> Score,
) -> Seq<(Score, Facets<'a>, T)> {
    let terms = texts(cx.query_terms@);
    let kept = pool_after_floor(pool, c.relevance_floor, terms, *cx.vocabulary, worth);
    if c.inert() {
        pool
    } else {
        ranked_on(
            kept,
            kept.map_values(
                |e: (Score, Facets<'_>, T)|
                    lift(
                        e.0,
                        telling(composed_upto(c.factors@, e.1, cx, c.factors@.len() as int)),
                    ),
            ),
        )
    }
}

proof fn telling_grows(s: Seq<WeightedTerm>, t: WeightedTerm, n: int)
    requires
        0 <= n <= s.len(),
    ensures
        telling_upto(s.push(t), n) == telling_upto(s, n),
    decreases n,
{
    if n > 0 {
        telling_grows(s, t, n - 1);
        assert(s.push(t)[n - 1] == s[n - 1]);
    }
}

proof fn both_forms_tell_the_same(
    c: Composition,
    w: Weights,
    f: Facets<'_>,
    cx: Context<'_>,
    n: int,
)
    requires
        is_classic(c, w),
        is_ranked_alike(f, w, *cx.vocabulary),
        weights_are_sound(w),
        cx.query_terms@.len() <= usize::MAX,
        0 <= n <= 5,
    ensures
        telling(composed_upto(c.factors@, f, cx, n)) == telling_upto(
            prior_terms(f, w, texts(cx.query_terms@), cx.oldest, cx.newest, *cx.vocabulary),
            n,
        ),
    decreases n,
{
    if n > 0 {
        both_forms_tell_the_same(c, w, f, cx, n - 1);
        the_classic_composition_reproduces_the_five_terms(c, w, f, cx, n - 1);
        let before = composed_upto(c.factors@, f, cx, n - 1);
        let s = c.factors@[n - 1];
        match factor_term(s, f, cx) {
            Some(term) => {
                if !is_zero(s.weight) {
                    let t = WeightedTerm { weight: s.weight, term };
                    telling_grows(before, t, before.len() as int);
                    assert(before.push(t)[before.len() as int] == t);
                }
            },
            None => {},
        }
    }
}

/// Scoring a pool by the five-term form and by its assembled form leaves the
/// same candidates in the same order, whatever a coverage comes to and however
/// the summands that count lift a relevance.
pub proof fn the_classic_composition_ranks_a_pool_alike<T>(
    pool: Seq<(Score, Facets<'_>, T)>,
    c: Composition,
    w: Weights,
    cx: Context<'_>,
    worth: spec_fn(Term) -> Score,
    lift: spec_fn(Score, Seq<WeightedTerm>) -> Score,
)
    requires
        is_classic(c, w),
        weights_are_sound(w),
        forall|i: int|
            0 <= i < pool.len() ==> is_ranked_alike((#[trigger] pool[i]).1, w, *cx.vocabulary),
        cx.query_terms@.len() <= usize::MAX,
    ensures
        rescored_composed(pool, c, cx, worth, lift) == rescored(pool, w, cx, worth, lift),
{
    let terms = texts(cx.query_terms@);
    let kept = pool_after_floor(pool, w.relevance_floor, terms, *cx.vocabulary, worth);
    assert(c.inert() == w.all_off()) by {
        assert(is_zero(c.factors@[0].weight) == is_zero(w.authority));
        assert(is_zero(c.factors@[1].weight) == is_zero(w.structural));
        assert(is_zero(c.factors@[2].weight) == is_zero(w.completeness));
        assert(is_zero(c.factors@[3].weight) == is_zero(w.temporal));
        assert(is_zero(c.factors@[4].weight) == is_zero(w.topical));
    }
    let coverages = pool.map_values(
        |e: (Score, Facets<'_>, T)|
            worth(share_term(label_text(e.1.body), terms, *cx.vocabulary, ONE_BITS)),
    );
    the_floor_never_empties_a_pool(pool, coverages, w.relevance_floor);
    let five = kept.map_values(
        |e: (Score, Facets<'_>, T)|
            lift(
                e.0,
                telling(prior_terms(e.1, w, terms, cx.oldest, cx.newest, *cx.vocabulary)),
            ),
    );
    let assembled = kept.map_values(
        |e: (Score, Facets<'_>, T)|
            lift(e.0, telling(composed_upto(c.factors@, e.1, cx, c.factors@.len() as int))),
    );
    assert forall|i: int| 0 <= i < kept.len() implies #[trigger] five[i] == assembled[i] by {
        let e = kept[i];
        assert(pool.contains(e)) by {
            if !floor_acts(w.relevance_floor, terms) {
                assert(pool[i] == e);
            }
        }
        let k = pool.index_of(e);
        assert(pool[k] == e);
        let a = prior_terms(e.1, w, terms, cx.oldest, cx.newest, *cx.vocabulary);
        let b = composed_upto(c.factors@, e.1, cx, 5);
        both_forms_tell_the_same(c, w, e.1, cx, 5);
        assert(telling(a) == telling(b));
    }
    assert(five =~= assembled);
}

// ---------------------------------------------------------------------------
// What the factors promise
// ---------------------------------------------------------------------------

/// A weight is zero in two patterns only, and acts where it is above them.
pub proof fn a_weight_acts_or_is_zero(w: Score)
    ensures
        is_zero(w) <==> w.bits == 0 || w.bits == 0x8000_0000,
        acts(w) <==> 0 < w.bits <= 0x7f80_0000,
{
}

/// What reaches the floor. `q` says from where in the pool each kept candidate
/// came: from every place that reaches it and from no other, in order. Where
/// none does, the first candidate alone is kept.
pub proof fn the_floor_keeps_what_reaches_it<T>(pool: Seq<T>, coverages: Seq<Score>, floor: Score) -> (q:
    Seq<int>)
    requires
        coverages.len() == pool.len(),
    ensures
        ({
            let r = after_floor(pool, coverages, floor);
            &&& r.len() == q.len()
            &&& forall|k: int| 0 <= k < r.len() ==> r[k] == pool[#[trigger] q[k]]
            &&& (exists|i: int| 0 <= i < pool.len() && floor.le_spec(#[trigger] coverages[i]))
                ==> picks(q, pool.len() as int, |i: int| floor.le_spec(coverages[i]))
            &&& !(exists|i: int| 0 <= i < pool.len() && floor.le_spec(#[trigger] coverages[i]))
                && pool.len() > 0 ==> q == seq![0int]
        }),
{
    let q = covered_places(pool, coverages, floor, pool.len() as int);
    let p = |i: int| floor.le_spec(coverages[i]);
    if exists|i: int| 0 <= i < pool.len() && floor.le_spec(#[trigger] coverages[i]) {
        let i = choose|i: int| 0 <= i < pool.len() && floor.le_spec(#[trigger] coverages[i]);
        assert(p(i));
        assert(q.contains(i));
        q
    } else if pool.len() > 0 {
        if q.len() > 0 {
            assert(p(q[0]));
        }
        seq![0int]
    } else {
        q
    }
}

proof fn covered_places<T>(pool: Seq<T>, coverages: Seq<Score>, floor: Score, n: int) -> (q: Seq<
    int,
>)
    requires
        0 <= n <= pool.len(),
        coverages.len() == pool.len(),
    ensures
        picks(q, n, |i: int| floor.le_spec(coverages[i])),
        covered_upto(pool, coverages, floor, n).len() == q.len(),
        forall|k: int|
            0 <= k < q.len() ==> covered_upto(pool, coverages, floor, n)[k] == pool[#[trigger] q[k]],
    decreases n,
{
    let p = |i: int| floor.le_spec(coverages[i]);
    if n <= 0 {
        Seq::empty()
    } else {
        let q = covered_places(pool, coverages, floor, n - 1);
        picks_one_more(q, n - 1, p)
    }
}

/// A label is ranked by the longest declared label that it starts with, blind
/// to case and to white space around it; of equally long ones the last. A label
/// that starts with none is not ranked.
pub proof fn the_longest_declared_label_ranks(v: Seq<(Seq<char>, u8)>, label: Seq<char>)
    ensures
        ({
            let want = capitals(trimmed(label));
            &&& tier_of(v, label) is None <==> forall|i: int|
                0 <= i < v.len() ==> !has_prefix(want, (#[trigger] v[i]).0)
            &&& tier_of(v, label) is Some ==> exists|i: int|
                0 <= i < v.len() && #[trigger] has_prefix(want, v[i].0) && tier_of(v, label)
                    == Some(v[i].1) && forall|j: int|
                    0 <= j < v.len() && #[trigger] has_prefix(want, v[j].0) ==> utf8_len(v[j].0)
                        < utf8_len(v[i].0) || (utf8_len(v[j].0) == utf8_len(v[i].0) && j <= i)
        }),
{
    the_best_tier_is_the_longest(v, capitals(trimmed(label)), v.len() as int);
}

proof fn the_best_tier_is_the_longest(v: Seq<(Seq<char>, u8)>, want: Seq<char>, n: int)
    requires
        0 <= n <= v.len(),
    ensures
        best_tier(v, want, n) is None <==> forall|i: int|
            0 <= i < n ==> !has_prefix(want, (#[trigger] v[i]).0),
        best_tier(v, want, n) is Some ==> exists|i: int|
            0 <= i < n && #[trigger] has_prefix(want, v[i].0) && best_tier(v, want, n) == Some(
                (utf8_len(v[i].0), v[i].1),
            ) && forall|j: int|
                0 <= j < n && #[trigger] has_prefix(want, v[j].0) ==> utf8_len(v[j].0) < utf8_len(
                    v[i].0,
                ) || (utf8_len(v[j].0) == utf8_len(v[i].0) && j <= i),
    decreases n,
{
    if n > 0 {
        the_best_tier_is_the_longest(v, want, n - 1);
        let before = best_tier(v, want, n - 1);
        let after = best_tier(v, want, n);
        if before is Some {
            let i = choose|i: int|
                0 <= i < n - 1 && #[trigger] has_prefix(want, v[i].0) && before == Some(
                    (utf8_len(v[i].0), v[i].1),
                ) && forall|j: int|
                    0 <= j < n - 1 && #[trigger] has_prefix(want, v[j].0) ==> utf8_len(v[j].0)
                        < utf8_len(v[i].0) || (utf8_len(v[j].0) == utf8_len(v[i].0) && j <= i);
            assert(has_prefix(want, v[i].0));
            if has_prefix(want, v[n - 1].0) {
                if utf8_len(v[i].0) <= utf8_len(v[n - 1].0) {
                    assert(after == Some((utf8_len(v[n - 1].0), v[n - 1].1)));
                }
            }
        } else if has_prefix(want, v[n - 1].0) {
            assert(after == Some((utf8_len(v[n - 1].0), v[n - 1].1)));
        }
    }
}

/// The first rule that matches the label it reads decides the place in the
/// ladder; where none does, the declared default.
pub proof fn the_first_matching_rule_decides(f: Facets<'_>, v: Vocabulary)
    ensures
        ({
            let a = label_text(f.article);
            let c = label_text(f.chapter);
            let hits = |r: StructuralRule|
                (r.field != Field::Chapter && regex_match(r.pattern, a)) || (r.field
                    != Field::Article && regex_match(r.pattern, c));
            ||| (forall|i: int| 0 <= i < v.structural@.len() ==> !hits(#[trigger] v.structural@[i]))
                && structural_score(f, v) == v.structural_default
            ||| exists|i: int|
                0 <= i < v.structural@.len() && hits(#[trigger] v.structural@[i])
                    && structural_score(f, v) == v.structural@[i].score && forall|j: int|
                    0 <= j < i ==> !hits(#[trigger] v.structural@[j])
        }),
{
    let a = label_text(f.article);
    let c = label_text(f.chapter);
    the_ladder_stops_at_the_first(v.structural@, v.structural_default, a, c, 0);
    let hits = |r: StructuralRule|
        (r.field != Field::Chapter && regex_match(r.pattern, a)) || (r.field != Field::Article
            && regex_match(r.pattern, c));
    assert forall|i: int| 0 <= i < v.structural@.len() implies hits(#[trigger] v.structural@[i])
        == v.structural@[i].applies(a, c) by {}
    if exists|i: int|
        0 <= i < v.structural@.len() && (#[trigger] v.structural@[i]).applies(a, c)
            && structural_score(f, v) == v.structural@[i].score && forall|j: int|
            0 <= j < i ==> !(#[trigger] v.structural@[j]).applies(a, c) {
        let i = choose|i: int|
            0 <= i < v.structural@.len() && (#[trigger] v.structural@[i]).applies(a, c)
                && structural_score(f, v) == v.structural@[i].score && forall|j: int|
                0 <= j < i ==> !(#[trigger] v.structural@[j]).applies(a, c);
        assert(hits(v.structural@[i]));
        assert forall|j: int| 0 <= j < i implies !hits(#[trigger] v.structural@[j]) by {
            assert(!v.structural@[j].applies(a, c));
        }
    }
}

proof fn the_ladder_stops_at_the_first(
    rules: Seq<StructuralRule>,
    default: Score,
    a: Seq<char>,
    c: Seq<char>,
    i: int,
)
    requires
        0 <= i <= rules.len(),
    ensures
        ({
            let s = ladder_from(rules, default, a, c, i);
            ||| (forall|k: int| i <= k < rules.len() ==> !(#[trigger] rules[k]).applies(a, c)) && s
                == default
            ||| exists|k: int|
                i <= k < rules.len() && (#[trigger] rules[k]).applies(a, c) && s == rules[k].score
                    && forall|j: int| i <= j < k ==> !(#[trigger] rules[j]).applies(a, c)
        }),
    decreases rules.len() - i,
{
    if i < rules.len() && !rules[i].applies(a, c) {
        the_ladder_stops_at_the_first(rules, default, a, c, i + 1);
        let s = ladder_from(rules, default, a, c, i + 1);
        if exists|k: int|
            i + 1 <= k < rules.len() && (#[trigger] rules[k]).applies(a, c) && s == rules[k].score
                && forall|j: int| i + 1 <= j < k ==> !(#[trigger] rules[j]).applies(a, c) {
            let k = choose|k: int|
                i + 1 <= k < rules.len() && (#[trigger] rules[k]).applies(a, c) && s
                    == rules[k].score && forall|j: int|
                    i + 1 <= j < k ==> !(#[trigger] rules[j]).applies(a, c);
            assert(rules[k].applies(a, c));
        }
    } else if i < rules.len() {
        assert(rules[i].applies(a, c));
    }
}

/// How binding a label is: a ranked one stands at its tier on the declared
/// scale, and one that is not ranked, or absent, is neutral.
pub proof fn a_ranked_label_stands_on_the_declared_scale(label: Option<Seq<char>>, v: Vocabulary)
    ensures
        label is None ==> authority_term(label, v) == Term::Fixed(Score { bits: 0 }),
        label is Some && tier_of(tier_views(v.authority@), label->0) is None ==> authority_term(
            label,
            v,
        ) == Term::Fixed(Score { bits: 0 }),
        label is Some && tier_of(tier_views(v.authority@), label->0) is Some
            && 0 < v.max_tier.bits <= 0x7f80_0000 ==> authority_term(label, v) == (Term::Tier {
            tier: tier_of(tier_views(v.authority@), label->0)->0,
            top: v.max_tier,
        }),
{
}

/// The content words of a text are its words that are longer than the minimum
/// and no function words: all of them and no others, each once, in order of
/// first appearance.
pub proof fn content_words_are_the_long_ones(s: Seq<char>, v: Vocabulary) -> (q: Seq<int>)
    ensures
        ({
            let all = plain_words(s);
            let r = content(s, v);
            &&& r.len() == q.len()
            &&& forall|k: int| 0 <= k < q.len() ==> r[k] == all[#[trigger] q[k]]
            &&& picks(
                q,
                all.len() as int,
                |i: int|
                    all[i].len() > v.min_term_chars && !texts(v.stopwords@).contains(all[i])
                        && !all.take(i).contains(all[i]),
            )
        }),
{
    content_places(
        plain_words(s),
        texts(v.stopwords@),
        v.min_term_chars as nat,
        plain_words(s).len() as int,
    )
}

proof fn content_places(all: Seq<Seq<char>>, stop: Seq<Seq<char>>, min: nat, n: int) -> (q: Seq<int>)
    requires
        0 <= n <= all.len(),
    ensures
        ({
            let r = content_upto(all, stop, min, n);
            &&& r.len() == q.len()
            &&& forall|k: int| 0 <= k < q.len() ==> r[k] == all[#[trigger] q[k]]
            &&& picks(
                q,
                n,
                |i: int|
                    all[i].len() > min && !stop.contains(all[i]) && !all.take(i).contains(all[i]),
            )
        }),
    decreases n,
{
    let p = |i: int|
        all[i].len() > min && !stop.contains(all[i]) && !all.take(i).contains(all[i]);
    if n <= 0 {
        Seq::empty()
    } else {
        let q = content_places(all, stop, min, n - 1);
        let before = content_upto(all, stop, min, n - 1);
        let w = all[n - 1];
        if w.len() > min && !stop.contains(w) {
            if before.contains(w) {
                let k = before.index_of(w);
                assert(all[q[k]] == w);
                assert(all.take(n - 1)[q[k]] == w);
            }
            if all.take(n - 1).contains(w) {
                let i = first_place(all, w, n - 1);
                assert(!all.take(i).contains(w));
                assert(p(i));
                assert(q.contains(i));
                let k = q.index_of(i);
                assert(before[k] == all[q[k]]);
                assert(before.contains(w));
            }
        }
        picks_one_more(q, n - 1, p)
    }
}

proof fn first_place(all: Seq<Seq<char>>, w: Seq<char>, n: int) -> (i: int)
    requires
        0 <= n <= all.len(),
        all.take(n).contains(w),
    ensures
        0 <= i < n,
        all[i] == w,
        !all.take(i).contains(w),
    decreases n,
{
    let k = all.take(n).index_of(w);
    assert(all[k] == w);
    if all.take(k).contains(w) {
        first_place(all, w, k)
    } else {
        k
    }
}

/// The share that a text accounts for counts the query terms that are among its
/// content words, each place of the query once, out of all of them.
pub proof fn a_share_counts_the_terms_that_are_there(
    text: Seq<char>,
    terms: Seq<Seq<char>>,
    v: Vocabulary,
    none: u32,
) -> (q: Seq<int>)
    requires
        terms.len() <= usize::MAX,
    ensures
        picks(q, terms.len() as int, |i: int| content(text, v).contains(terms[i])),
        terms.len() > 0 ==> share_term(text, terms, v, none) == (Term::Share {
            matched: q.len() as usize,
            of: terms.len() as usize,
        }),
        terms.len() == 0 ==> share_term(text, terms, v, none) == Term::Fixed(Score { bits: none }),
        q.len() <= terms.len(),
{
    matched_places(terms, content(text, v), terms.len() as int)
}

proof fn matched_places(terms: Seq<Seq<char>>, have: Seq<Seq<char>>, n: int) -> (q: Seq<int>)
    requires
        0 <= n <= terms.len(),
    ensures
        picks(q, n, |i: int| have.contains(terms[i])),
        matches_upto(terms, have, n) == q.len(),
        q.len() <= n,
    decreases n,
{
    if n <= 0 {
        Seq::empty()
    } else {
        let q = matched_places(terms, have, n - 1);
        picks_one_more(q, n - 1, |i: int| have.contains(terms[i]))
    }
}

/// An enrichment value is the one stored first under its key.
pub proof fn an_enrichment_value_is_found_by_its_key(
    numbers: Seq<(String, Score)>,
    strings: Seq<(String, String)>,
    key: Seq<char>,
)
    ensures
        match number_under(numbers, key, 0) {
            Some(n) => exists|i: int|
                0 <= i < numbers.len() && (#[trigger] numbers[i]).0@ == key && numbers[i].1 == n
                    && forall|j: int| 0 <= j < i ==> (#[trigger] numbers[j]).0@ != key,
            None => forall|i: int| 0 <= i < numbers.len() ==> (#[trigger] numbers[i]).0@ != key,
        },
        match text_under(strings, key, 0) {
            Some(t) => exists|i: int|
                0 <= i < strings.len() && (#[trigger] strings[i]).0@ == key && strings[i].1@ == t
                    && forall|j: int| 0 <= j < i ==> (#[trigger] strings[j]).0@ != key,
            None => forall|i: int| 0 <= i < strings.len() ==> (#[trigger] strings[i]).0@ != key,
        },
{
    numbers_from(numbers, key, 0);
    strings_from(strings, key, 0);
}

proof fn numbers_from(v: Seq<(String, Score)>, key: Seq<char>, from: int)
    requires
        0 <= from <= v.len(),
    ensures
        match number_under(v, key, from) {
            Some(n) => exists|i: int|
                from <= i < v.len() && (#[trigger] v[i]).0@ == key && v[i].1 == n && forall|j: int|
                    from <= j < i ==> (#[trigger] v[j]).0@ != key,
            None => forall|i: int| from <= i < v.len() ==> (#[trigger] v[i]).0@ != key,
        },
    decreases v.len() - from,
{
    if from < v.len() {
        if v[from].0@ == key {
            assert(v[from].0@ == key);
        } else {
            numbers_from(v, key, from + 1);
            if number_under(v, key, from + 1) is Some {
                let n = number_under(v, key, from + 1)->0;
                let i = choose|i: int|
                    from + 1 <= i < v.len() && (#[trigger] v[i]).0@ == key && v[i].1 == n
                        && forall|j: int| from + 1 <= j < i ==> (#[trigger] v[j]).0@ != key;
                assert(v[i].0@ == key);
            }
        }
    }
}

proof fn strings_from(v: Seq<(String, String)>, key: Seq<char>, from: int)
    requires
        0 <= from <= v.len(),
    ensures
        match text_under(v, key, from) {
            Some(n) => exists|i: int|
                from <= i < v.len() && (#[trigger] v[i]).0@ == key && v[i].1@ == n && forall|j: int|
                    from <= j < i ==> (#[trigger] v[j]).0@ != key,
            None => forall|i: int| from <= i < v.len() ==> (#[trigger] v[i]).0@ != key,
        },
    decreases v.len() - from,
{
    if from < v.len() {
        if v[from].0@ == key {
            assert(v[from].0@ == key);
        } else {
            strings_from(v, key, from + 1);
            if text_under(v, key, from + 1) is Some {
                let n = text_under(v, key, from + 1)->0;
                let i = choose|i: int|
                    from + 1 <= i < v.len() && (#[trigger] v[i]).0@ == key && v[i].1@ == n
                        && forall|j: int| from + 1 <= j < i ==> (#[trigger] v[j]).0@ != key;
                assert(v[i].0@ == key);
            }
        }
    }
}

/// A factor without a value is left out, and is no zero: it has a formula where,
/// and only where, its variable holds what its shape reads.
pub proof fn an_absent_value_is_no_zero(s: FactorSpec, f: Facets<'_>, cx: Context<'_>)
    ensures
        match s.transform {
            Transform::Authority | Transform::MatchShare => factor_term(s, f, cx) is Some
                <==> text_value(f, s.variable) is Some,
            Transform::StructuralLadder => factor_term(s, f, cx) is Some,
            Transform::HalfLife { .. }
            | Transform::Range
            | Transform::Saturate { .. }
            | Transform::AtLeast { .. } => factor_term(s, f, cx) is Some <==> number_value(
                f,
                s.variable,
            ) is Some,
            Transform::Present => factor_term(s, f, cx) is Some <==> text_value(f, s.variable) is Some
                || number_value(f, s.variable) is Some,
        },
        text_value(f, s.variable) is Some ==> (text_value(f, s.variable)->0).len() > 0,
        s.variable == Variable::Year ==> (number_value(f, s.variable) is Some <==> f.year is Some),
        s.variable == Variable::BodyLen ==> number_value(f, s.variable) == Some(
            Quantity::Length(f.body_len),
        ),
{
}

/// The summands of an assembled prior are the factors with a weight and a value:
/// all of them and no others, in order, each with its own weight and formula.
pub proof fn an_assembled_prior_holds_every_weighted_factor(
    factors: Seq<FactorSpec>,
    f: Facets<'_>,
    cx: Context<'_>,
    n: int,
) -> (q: Seq<int>)
    requires
        0 <= n <= factors.len(),
    ensures
        ({
            let r = composed_upto(factors, f, cx, n);
            &&& r.len() == q.len()
            &&& picks(
                q,
                n,
                |i: int| !is_zero(factors[i].weight) && factor_term(factors[i], f, cx) is Some,
            )
            &&& forall|k: int|
                0 <= k < q.len() ==> r[k].weight == factors[#[trigger] q[k]].weight && Some(
                    r[k].term,
                ) == factor_term(factors[q[k]], f, cx)
        }),
    decreases n,
{
    if n <= 0 {
        Seq::empty()
    } else {
        let q = an_assembled_prior_holds_every_weighted_factor(factors, f, cx, n - 1);
        picks_one_more(
            q,
            n - 1,
            |i: int| !is_zero(factors[i].weight) && factor_term(factors[i], f, cx) is Some,
        )
    }
}

/// A factor is reported as missing where it is weighted and cannot be evaluated,
/// and only there; no name is reported twice.
pub proof fn every_missing_factor_is_named(
    factors: Seq<FactorSpec>,
    v: Vocabulary,
    available: Seq<Seq<char>>,
    n: int,
)
    requires
        0 <= n <= factors.len(),
    ensures
        missing_upto(factors, v, available, n).no_duplicates(),
        forall|name: Seq<char>| #[trigger]
            missing_upto(factors, v, available, n).contains(name) <==> exists|i: int|
                0 <= i < n && (#[trigger] factors[i]).name@ == name && !(factors[i].weight.le_spec(
                    Score { bits: 0 },
                )) && ((factors[i].transform == Transform::Authority && v.authority@.len() == 0) || (
                factors[i].transform == Transform::StructuralLadder && v.structural@.len() == 0) || (
                factors[i].transform != Transform::Authority && factors[i].transform
                    != Transform::StructuralLadder && (match factors[i].variable {
                    Variable::Number(k) => !available.contains(k@),
                    Variable::Text(k) => !available.contains(k@),
                    _ => false,
                }))),
    decreases n,
{
    if n > 0 {
        every_missing_factor_is_named(factors, v, available, n - 1);
        let before = missing_upto(factors, v, available, n - 1);
        let after = missing_upto(factors, v, available, n);
        let s = factors[n - 1];
        assert forall|name: Seq<char>| #[trigger] after.contains(name) <==> before.contains(name)
            || (name == s.name@ && factor_is_missing(s, v, available)) by {
            if before.contains(name) {
                let k = before.index_of(name);
                assert(after[k] == name);
            }
            if name == s.name@ && factor_is_missing(s, v, available) && !before.contains(name) {
                assert(after[before.len() as int] == name);
            }
            if after.contains(name) {
                let k = after.index_of(name);
                if k < before.len() {
                    assert(before[k] == name);
                }
            }
        }
    }
}

/// A rule reads the labels of its field, and no other: that of the article,
/// that of the chapter, or either of them.
pub proof fn a_rule_reads_the_labels_of_its_field(
    rule: StructuralRule,
    article: Seq<char>,
    chapter: Seq<char>,
)
    ensures
        rule.field == Field::Article ==> (rule.applies(article, chapter) <==> regex_match(
            rule.pattern,
            article,
        )),
        rule.field == Field::Chapter ==> (rule.applies(article, chapter) <==> regex_match(
            rule.pattern,
            chapter,
        )),
        rule.field == Field::Either ==> (!rule.applies(article, chapter) <==> !regex_match(
            rule.pattern,
            article,
        ) && !regex_match(rule.pattern, chapter)),
{
}

/// A missing table is named where its weight acts, authority before structure.
pub proof fn a_missing_table_is_named_where_its_weight_acts(v: Vocabulary, w: Weights)
    ensures
        ({
            let grades = acts(w.authority) && v.authority@.len() == 0;
            let ladder = acts(w.structural) && v.structural@.len() == 0;
            &&& grades && ladder ==> missing_factors(v, w) == seq!["authority"@, "structural"@]
            &&& grades && !ladder ==> missing_factors(v, w) == seq!["authority"@]
            &&& !grades && ladder ==> missing_factors(v, w) == seq!["structural"@]
            &&& !grades && !ladder ==> missing_factors(v, w).len() == 0
        }),
{
    assert(seq!["authority"@] + seq!["structural"@] =~= seq!["authority"@, "structural"@]);
    assert(seq!["authority"@] + Seq::<Seq<char>>::empty() =~= seq!["authority"@]);
    assert(Seq::<Seq<char>>::empty() + seq!["structural"@] =~= seq!["structural"@]);
}

/// Every summand that does not come to zero counts, in order, and no other.
pub proof fn every_summand_that_tells_counts(s: Seq<WeightedTerm>, n: int) -> (q: Seq<int>)
    requires
        0 <= n <= s.len(),
    ensures
        picks(
            q,
            n,
            |i: int|
                !is_zero(s[i].weight) && (!is_nothing(s[i].term) || !s[i].weight.finite()),
        ),
        telling_upto(s, n).len() == q.len(),
        forall|k: int| 0 <= k < q.len() ==> telling_upto(s, n)[k] == s[#[trigger] q[k]],
    decreases n,
{
    let f = |i: int| !is_zero(s[i].weight) && (!is_nothing(s[i].term) || !s[i].weight.finite());
    if n <= 0 {
        Seq::empty()
    } else {
        let q = every_summand_that_tells_counts(s, n - 1);
        assert(f(n - 1) == !is_idle(s[n - 1]));
        picks_one_more(q, n - 1, f)
    }
}

/// The years of a pool lie within its span, and the span is no wider than they
/// are: one of them stands at each end.
pub proof fn a_span_is_as_wide_as_its_years(years: Seq<Option<i32>>, oldest: i32, newest: i32, i: int)
    requires
        is_span(years, oldest, newest),
        0 <= i < years.len(),
        years[i] is Some,
    ensures
        oldest <= years[i]->0 <= newest,
        exists|k: int| 0 <= k < years.len() && #[trigger] years[k] == Some(oldest),
        exists|k: int| 0 <= k < years.len() && #[trigger] years[k] == Some(newest),
{
    let a = years.index_of(Some(oldest));
    let b = years.index_of(Some(newest));
    assert(years[a] == Some(oldest));
    assert(years[b] == Some(newest));
}

/// A rule's pattern is blind to case, holds what was declared in a group, and
/// where it is anchored allows white space alone before it.
pub proof fn a_rule_pattern_is_a_group_blind_to_case(pattern: Seq<char>)
    ensures
        rule_source(pattern, false).len() == pattern.len() + 8,
        rule_source(pattern, false).subrange(7, 7 + pattern.len() as int) == pattern,
        rule_source(pattern, true).len() == pattern.len() + 12,
        rule_source(pattern, true).subrange(11, 11 + pattern.len() as int) == pattern,
        rule_source(pattern, true).subrange(0, 8) == seq!['(', '?', 'i', ')', '^', '\\', 's', '*'],
        rule_source(pattern, false).subrange(0, 7) == seq!['(', '?', 'i', ')', '(', '?', ':'],
        rule_source(pattern, true).subrange(8, 11) == seq!['(', '?', ':'],
        rule_source(pattern, true).last() == ')',
        rule_source(pattern, false).last() == ')',
{
    reveal_strlit("(?i)^\\s*(?:");
    reveal_strlit("(?i)(?:");
    reveal_strlit(")");
    let a = rule_source(pattern, true);
    let b = rule_source(pattern, false);
    assert(b.subrange(7, 7 + pattern.len() as int) =~= pattern);
    assert(a.subrange(11, 11 + pattern.len() as int) =~= pattern);
    assert(a.subrange(0, 8) =~= seq!['(', '?', 'i', ')', '^', '\\', 's', '*']);
    assert(b.subrange(0, 7) =~= seq!['(', '?', 'i', ')', '(', '?', ':']);
    assert(a.subrange(8, 11) =~= seq!['(', '?', ':']);
}

/// A pool that is ranked on scores keeps every candidate, the greater score
/// first, and of equal scores the one that came first.
pub proof fn a_pool_is_ranked_on_its_scores<T>(pool: Seq<(Score, Facets<'_>, T)>, scores: Seq<Score>) -> (p:
    Seq<int>)
    requires
        scores.len() == pool.len(),
    ensures
        is_shuffle(p, pool.len()),
        ranked_on(pool, scores).len() == pool.len(),
        forall|i: int| 0 <= i < p.len() ==> ranked_on(pool, scores)[i] == pool[#[trigger] p[i]],
        forall|i: int, j: int|
            #![trigger p[i], p[j]]
            0 <= i < j < p.len() ==> scores[p[i]].rank() > scores[p[j]].rank() || (
            scores[p[i]].rank() == scores[p[j]].rank() && p[i] < p[j]),
{
    let weighed = Seq::new(pool.len(), |i: int| Weighed { score: scores[i], item: pool[i] });
    let p = ranking_puts_the_best_first(weighed);
    assert forall|i: int| 0 <= i < p.len() implies ranked_on(pool, scores)[i]
        == pool[#[trigger] p[i]] by {
        assert(arranged(weighed)[i] == weighed[p[i]]);
    }
    p
}

/// Weights leave the order alone where each of them, and the floor, is zero.
pub proof fn weights_that_are_zero_change_nothing(w: Weights)
    ensures
        w.all_off() <==> {
            &&& w.relevance_floor.bits == 0 || w.relevance_floor.bits == 0x8000_0000
            &&& w.authority.bits == 0 || w.authority.bits == 0x8000_0000
            &&& w.structural.bits == 0 || w.structural.bits == 0x8000_0000
            &&& w.temporal.bits == 0 || w.temporal.bits == 0x8000_0000
            &&& w.completeness.bits == 0 || w.completeness.bits == 0x8000_0000
            &&& w.topical.bits == 0 || w.topical.bits == 0x8000_0000
        },
{
}

/// A value that is there has the formula of its shape: an age is measured
/// against the present, a place within the span of the pool where that has any
/// width and in the middle where it has none, a growth saturates where it was
/// declared to, and a bar is met from the bar on.
pub proof fn a_shape_has_its_own_formula(
    s: FactorSpec,
    f: Facets<'_>,
    cx: Context<'_>,
    value: Quantity,
    text: Seq<char>,
)
    ensures
        number_value(f, s.variable) == Some(value) ==> match s.transform {
            Transform::HalfLife { years } => factor_term(s, f, cx) == Some(
                Term::HalfLife { years, value, now: cx.now },
            ),
            Transform::Range => factor_term(s, f, cx) == if cx.oldest < cx.newest {
                Some(Term::Span { value, oldest: cx.oldest, newest: cx.newest })
            } else {
                Some(Term::Fixed(Score { bits: 0x3f00_0000 }))
            },
            Transform::Saturate { at } => factor_term(s, f, cx) == Some(
                Term::Saturate { value, at },
            ),
            Transform::Present => factor_term(s, f, cx) == Some(
                Term::Fixed(Score { bits: 0x3f80_0000 }),
            ),
            Transform::AtLeast { min } => match value {
                Quantity::Number(n) => !n.nan() && !min.nan() ==> factor_term(s, f, cx) == Some(
                    Term::Fixed(
                        Score {
                            bits: if n.lt_spec(min) {
                                0u32
                            } else {
                                0x3f80_0000u32
                            },
                        },
                    ),
                ),
                _ => factor_term(s, f, cx) == Some(Term::AtLeast { value, min }),
            },
            _ => true,
        },
        text_value(f, s.variable) == Some(text) ==> match s.transform {
            Transform::Authority => factor_term(s, f, cx) == Some(
                authority_term(Some(text), *cx.vocabulary),
            ),
            Transform::MatchShare => factor_term(s, f, cx) == Some(
                share_term(text, texts(cx.query_terms@), *cx.vocabulary, 0),
            ),
            Transform::Present => factor_term(s, f, cx) == Some(
                Term::Fixed(Score { bits: 0x3f80_0000 }),
            ),
            _ => true,
        },
        s.transform == Transform::StructuralLadder ==> factor_term(s, f, cx) == Some(
            Term::Fixed(structural_score(f, *cx.vocabulary)),
        ),
{
}

/// A variable reads its own column, and an empty text is none.
pub proof fn a_variable_reads_its_own_column(f: Facets<'_>)
    ensures
        f.regulation_type is Some && (f.regulation_type->0)@.len() > 0 ==> text_value(
            f,
            Variable::RegulationType,
        ) == Some((f.regulation_type->0)@),
        f.article is Some && (f.article->0)@.len() > 0 ==> text_value(f, Variable::Article) == Some(
            (f.article->0)@,
        ),
        f.chapter is Some && (f.chapter->0)@.len() > 0 ==> text_value(f, Variable::Chapter) == Some(
            (f.chapter->0)@,
        ),
        f.about is Some && (f.about->0)@.len() > 0 ==> text_value(f, Variable::About) == Some(
            (f.about->0)@,
        ),
        f.body is Some && (f.body->0)@.len() > 0 ==> text_value(f, Variable::Body) == Some(
            (f.body->0)@,
        ),
        f.year is Some ==> number_value(f, Variable::Year) == Some(Quantity::Year(f.year->0)),
        number_value(f, Variable::BodyLen) == Some(Quantity::Length(f.body_len)),
{
}

/// The five summands of a prior: authority, structure, completeness, time and
/// topic, each with its own weight. An unknown year, and a pool of one year,
/// stand in the middle.
pub proof fn a_prior_has_five_summands(
    f: Facets<'_>,
    w: Weights,
    terms: Seq<Seq<char>>,
    oldest: i32,
    newest: i32,
    v: Vocabulary,
)
    ensures
        ({
            let t = prior_terms(f, w, terms, oldest, newest, v);
            &&& t.len() == 5
            &&& t[0].weight == w.authority
            &&& t[1].weight == w.structural
            &&& t[2].weight == w.completeness
            &&& t[3].weight == w.temporal
            &&& t[4].weight == w.topical
            &&& f.regulation_type is Some ==> t[0].term == authority_term(
                Some((f.regulation_type->0)@),
                v,
            )
            &&& t[1].term == Term::Fixed(structural_score(f, v))
            &&& t[2].term == Term::Saturate {
                value: Quantity::Length(f.body_len),
                at: Score { bits: 0x43c8_0000 },
            }
            &&& f.year is Some && oldest < newest ==> t[3].term == Term::Span {
                value: Quantity::Year(f.year->0),
                oldest,
                newest,
            }
            &&& f.year is None || newest <= oldest ==> t[3].term == Term::Fixed(
                Score { bits: 0x3f00_0000 },
            )
            &&& f.about is Some ==> t[4].term == share_term((f.about->0)@, terms, v, 0)
        }),
{
}

} // verus!
