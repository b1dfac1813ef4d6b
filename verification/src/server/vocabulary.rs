//! The corpus's own scoring vocabulary, as it is declared.

use vstd::prelude::*;
use vstd::string::*;

use crate::engine::factors::{rule_source, tier_views, Field, StructuralRule, Vocabulary};
use crate::json::Json;
use crate::patterns::{escaped, LITERAL_CHARS};
use crate::score::Score;
use crate::text::{lowercase_text, same, texts, to_lowercase, to_uppercase, trim, trimmed, trimming_is_idempotent, uppercase_text};
use crate::textmap::TextMap;

verus! {

/// One declared rule of the structural ladder.
#[derive(Debug)]
pub struct StructuralRuleFile {
    /// Why this rule exists.
    pub note: Option<Json>,
    pub label: String,
    /// `article`, `chapter` or `either`.
    pub field: String,
    /// Whether the label has to stand at the start of a row's label, or
    /// anywhere in it. At the start, white space before it does not count: the
    /// rule is anchored as those of the built-in ladder are, which a file can
    /// thus declare rule by rule.
    pub prefix: bool,
    pub score: Score,
}

/// A declared vocabulary.
#[derive(Debug)]
pub struct VocabularyFile {
    pub comment: Option<Json>,
    pub note: Option<Json>,
    /// Label to tier. Higher binds harder.
    pub authority: TextMap<u8>,
    /// The top of the declared scale.
    pub max_tier: Score,
    /// Ordered: the first match wins.
    pub structural: Vec<StructuralRuleFile>,
    pub structural_default: Score,
    pub stopwords: Vec<String>,
    pub min_term_chars: usize,
}

/// The scale where none is declared: ten.
pub fn default_max_tier() -> (r: Score)
    ensures
        r.bits == 0x4120_0000,
{
    Score { bits: 0x4120_0000 }
}

/// The score of an unlabelled chunk where none is declared: a half.
pub fn default_structural() -> (r: Score)
    ensures
        r.bits == 0x3f00_0000,
{
    Score { bits: 0x3f00_0000 }
}

/// The length that a term has to exceed where none is declared.
pub fn default_min_term() -> (r: usize)
    ensures
        r == 3,
{
    3
}

/// The label that a rule reads where none is declared.
pub fn default_field() -> (r: String)
    ensures
        r@ == "either"@,
{
    "either".to_owned()
}

/// What is wrong with a declared number.
#[derive(Debug, Clone, Copy, PartialEq)]
pub enum ScoreFault {
    /// A scale that is not a positive finite number.
    NotPositive(Score),
    /// A default outside zero to one.
    OutsideUnit(Score),
    /// A rule's score outside zero to one.
    RuleOutsideUnit(Score),
}

/// Why a declared vocabulary is refused.
#[derive(Debug, PartialEq)]
pub enum VocabError {
    /// It did not parse.
    Malformed(String),
    /// A field that is none of the three. Refused rather than widened.
    BadField { label: String, field: String },
    /// A number outside its units.
    BadScore { label: String, why: ScoreFault },
    /// A label whose pattern did not compile.
    BadPattern { label: String },
}

/// The field that a declared name stands for.
pub open spec fn field_of(name: Seq<char>) -> Option<Field> {
    if name == "article"@ {
        Some(Field::Article)
    } else if name == "chapter"@ {
        Some(Field::Chapter)
    } else if name == "either"@ {
        Some(Field::Either)
    } else {
        None
    }
}

fn read_field(name: &str) -> (r: Option<Field>)
    ensures
        r == field_of(name@),
{
    if same(name, "article") {
        Some(Field::Article)
    } else if same(name, "chapter") {
        Some(Field::Chapter)
    } else if same(name, "either") {
        Some(Field::Either)
    } else {
        None
    }
}

/// What is wrong with a declared rule.
pub open spec fn rule_fault(r: StructuralRuleFile) -> Option<VocabErrorView> {
    if field_of(r.field@) is None {
        Some(VocabErrorView::BadField { label: r.label@, field: r.field@ })
    } else if !r.score.unit() {
        Some(
            VocabErrorView::BadScore { label: r.label@, why: ScoreFault::RuleOutsideUnit(r.score) },
        )
    } else {
        None
    }
}

/// The first thing wrong with a rule from the `i`-th on.
pub open spec fn rules_fault(rules: Seq<StructuralRuleFile>, i: int) -> Option<VocabErrorView>
    decreases rules.len() - i,
{
    if i >= rules.len() {
        None
    } else if rule_fault(rules[i]) is Some {
        rule_fault(rules[i])
    } else {
        rules_fault(rules, i + 1)
    }
}

/// The first thing wrong with a declared vocabulary.
pub open spec fn vocabulary_fault(f: VocabularyFile) -> Option<VocabErrorView> {
    if !f.max_tier.finite() || f.max_tier.rank() <= 0 {
        Some(
            VocabErrorView::BadScore {
                label: "max_tier"@,
                why: ScoreFault::NotPositive(f.max_tier),
            },
        )
    } else if !f.structural_default.unit() {
        Some(
            VocabErrorView::BadScore {
                label: "structural_default"@,
                why: ScoreFault::OutsideUnit(f.structural_default),
            },
        )
    } else {
        rules_fault(f.structural@, 0)
    }
}

/// A refusal, as what it says.
pub ghost enum VocabErrorView {
    Malformed(Seq<char>),
    BadField { label: Seq<char>, field: Seq<char> },
    BadScore { label: Seq<char>, why: ScoreFault },
    BadPattern { label: Seq<char> },
}

impl VocabError {
    pub open spec fn view(self) -> VocabErrorView {
        match self {
            VocabError::Malformed(m) => VocabErrorView::Malformed(m@),
            VocabError::BadField { label, field } => VocabErrorView::BadField {
                label: label@,
                field: field@,
            },
            VocabError::BadScore { label, why } => VocabErrorView::BadScore { label: label@, why },
            VocabError::BadPattern { label } => VocabErrorView::BadPattern { label: label@ },
        }
    }
}

/// A declared label, as rules and tiers hold it: trimmed and in capitals.
pub open spec fn label_of(s: Seq<char>) -> Seq<char> {
    uppercase_text(trimmed(s))
}

/// A declared function word, as the splitter compares it: trimmed and small.
pub open spec fn stopword_of(s: Seq<char>) -> Seq<char> {
    lowercase_text(trimmed(s))
}

/// Whether a rule is the one that a declaration asks for: the label taken
/// literally and blind to case, anchored behind white space at the start where
/// it is declared as a prefix.
pub open spec fn is_rule(rule: StructuralRule, f: StructuralRuleFile) -> bool {
    field_of(f.field@) is Some && rule.is_from(
        rule_source(escaped(label_of(f.label@)), f.prefix),
        field_of(f.field@)->0,
        f.score,
    )
}

/// A declared rule, given what compiling it came to. A rule that did not compile
/// is refused by its label.
pub fn declared_rule(label: &str, made: Result<StructuralRule, regex::Error>) -> (r: Result<
    StructuralRule,
    VocabError,
>)
    ensures
        match made {
            Ok(rule) => r is Ok && r->Ok_0 == rule,
            Err(_) => r is Err && r->Err_0@ == (VocabErrorView::BadPattern { label: label@ }),
        },
{
    match made {
        Ok(rule) => Ok(rule),
        Err(_) => Err(VocabError::BadPattern { label: label.to_owned() }),
    }
}

/// What a declared vocabulary says, mapped onto the engine's type.
pub open spec fn is_built_from(v: Vocabulary, f: VocabularyFile) -> bool {
    &&& tier_views(v.authority@).len() == f.authority.keys().len()
    &&& forall|i: int|
        0 <= i < f.authority.keys().len() ==> #[trigger] tier_views(v.authority@)[i] == (
            label_of(f.authority.keys()[i]),
            f.authority.values()[i],
        )
    &&& v.max_tier == f.max_tier
    &&& v.structural@.len() == f.structural@.len()
    &&& forall|i: int|
        0 <= i < f.structural@.len() ==> is_rule(#[trigger] v.structural@[i], f.structural@[i])
    &&& v.structural_default == f.structural_default
    &&& texts(v.stopwords@) == texts(f.stopwords@).map_values(|s: Seq<char>| stopword_of(s))
    &&& v.min_term_chars == f.min_term_chars
}

impl VocabularyFile {
    /// Whether every declared number and field is within its units. The first
    /// violation is returned.
    pub fn check(&self) -> (r: Result<(), VocabError>)
        ensures
            match r {
                Ok(_) => vocabulary_fault(*self) is None,
                Err(e) => vocabulary_fault(*self) == Some(e@),
            },
    {
        if !self.max_tier.is_finite() || !self.max_tier.is_positive() {
            return Err(
                VocabError::BadScore {
                    label: "max_tier".to_owned(),
                    why: ScoreFault::NotPositive(self.max_tier),
                },
            );
        }
        if !self.structural_default.in_unit() {
            return Err(
                VocabError::BadScore {
                    label: "structural_default".to_owned(),
                    why: ScoreFault::OutsideUnit(self.structural_default),
                },
            );
        }
        let mut i: usize = 0;
        while i < self.structural.len()
            invariant
                i <= self.structural@.len(),
                self.max_tier.finite() && self.max_tier.rank() > 0,
                self.structural_default.unit(),
                rules_fault(self.structural@, 0) == rules_fault(self.structural@, i as int),
            decreases self.structural@.len() - i,
        {
            let rule = &self.structural[i];
            if read_field(rule.field.as_str()).is_none() {
                return Err(
                    VocabError::BadField { label: rule.label.clone(), field: rule.field.clone() },
                );
            }
            if !rule.score.in_unit() {
                return Err(
                    VocabError::BadScore {
                        label: rule.label.clone(),
                        why: ScoreFault::RuleOutsideUnit(rule.score),
                    },
                );
            }
            i = i + 1;
        }
        Ok(())
    }

    /// Validates a declared vocabulary and maps it onto the engine's type. A
    /// declaration with nothing wrong in it fails only where the pattern of a
    /// label does not compile, and that of a label within [`LITERAL_CHARS`]
    /// does. Of a longer one it is not said: the compiler refuses what grows
    /// over a limit of its own.
    pub fn load(&self) -> (r: Result<Vocabulary, VocabError>)
        ensures
            match vocabulary_fault(*self) {
                Some(e) => r is Err && r->Err_0@ == e,
                None => match r {
                    Ok(v) => is_built_from(v, *self),
                    Err(e) => exists|i: int|
                        0 <= i < self.structural@.len() && e@ == (VocabErrorView::BadPattern {
                            label: (#[trigger] self.structural@[i]).label@,
                        }) && label_of(self.structural@[i].label@).len() > LITERAL_CHARS,
                },
            },
            vocabulary_fault(*self) is None && (forall|i: int|
                0 <= i < self.structural@.len() ==> label_of(
                    (#[trigger] self.structural@[i]).label@,
                ).len() <= LITERAL_CHARS) ==> r is Ok,
    {
        match self.check() {
            Err(e) => return Err(e),
            Ok(_) => {},
        }
        let mut structural: Vec<StructuralRule> = Vec::new();
        let mut i: usize = 0;
        while i < self.structural.len()
            invariant
                i <= self.structural@.len(),
                structural@.len() == i,
                vocabulary_fault(*self) is None,
                rules_fault(self.structural@, i as int) is None,
                forall|k: int|
                    0 <= k < i ==> is_rule(#[trigger] structural@[k], self.structural@[k]),
            decreases self.structural@.len() - i,
        {
            let rule = &self.structural[i];
            assert(*rule == self.structural@[i as int]);
            let bare = trim(rule.label.as_str());
            let label = to_uppercase(bare.as_str());
            match read_field(rule.field.as_str()) {
                Some(field) => {
                    let made = StructuralRule::literal(
                        label.as_str(),
                        field,
                        rule.score,
                        rule.prefix,
                    );
                    match declared_rule(rule.label.as_str(), made) {
                        Ok(compiled) => {
                            structural.push(compiled);
                        },
                        Err(e) => {
                            return Err(e);
                        },
                    }
                },
                None => {
                    return Err(VocabError::BadPattern { label: rule.label.clone() });
                },
            }
            i = i + 1;
        }
        Ok(self.with_rules(structural))
    }

    /// The engine's vocabulary, given the compiled rules.
    pub fn with_rules(&self, structural: Vec<StructuralRule>) -> (r: Vocabulary)
        ensures
            r.structural == structural,
            tier_views(r.authority@).len() == self.authority.keys().len(),
            forall|i: int|
                0 <= i < self.authority.keys().len() ==> #[trigger] tier_views(r.authority@)[i] == (
                    label_of(self.authority.keys()[i]),
                    self.authority.values()[i],
                ),
            r.max_tier == self.max_tier,
            r.structural_default == self.structural_default,
            texts(r.stopwords@) == texts(self.stopwords@).map_values(
                |s: Seq<char>| stopword_of(s),
            ),
            r.min_term_chars == self.min_term_chars,
    {
        let n = self.authority.len();
        let mut authority: Vec<(String, u8)> = Vec::new();
        let mut i: usize = 0;
        while i < n
            invariant
                i <= n,
                n == self.authority.keys().len(),
                n == self.authority.values().len(),
                authority@.len() == i,
                forall|k: int|
                    0 <= k < i ==> (#[trigger] authority@[k]).0@ == label_of(
                        self.authority.keys()[k],
                    ) && authority@[k].1 == self.authority.values()[k],
            decreases n - i,
        {
            let bare = trim(self.authority.key(i).as_str());
            let tier: u8 = *self.authority.value(i);
            authority.push((to_uppercase(bare.as_str()), tier));
            i = i + 1;
        }
        let mut stopwords: Vec<String> = Vec::new();
        let ghost want = texts(self.stopwords@).map_values(|s: Seq<char>| stopword_of(s));
        let mut k: usize = 0;
        while k < self.stopwords.len()
            invariant
                k <= self.stopwords@.len(),
                want == texts(self.stopwords@).map_values(|s: Seq<char>| stopword_of(s)),
                texts(stopwords@) == want.take(k as int),
            decreases self.stopwords@.len() - k,
        {
            let ghost before = texts(stopwords@);
            let bare = trim(self.stopwords[k].as_str());
            stopwords.push(to_lowercase(bare.as_str()));
            assert(texts(self.stopwords@)[k as int] == self.stopwords@[k as int]@);
            assert(texts(stopwords@) =~= before.push(want[k as int]));
            assert(texts(stopwords@) =~= want.take(k + 1));
            k = k + 1;
        }
        assert(want.take(k as int) =~= want);
        let r = Vocabulary {
            authority,
            max_tier: self.max_tier,
            structural,
            structural_default: self.structural_default,
            stopwords,
            min_term_chars: self.min_term_chars,
        };
        assert forall|j: int| 0 <= j < self.authority.keys().len() implies #[trigger] tier_views(
            r.authority@,
        )[j] == (label_of(self.authority.keys()[j]), self.authority.values()[j]) by {
            assert(r.authority@[j].0@ == label_of(self.authority.keys()[j]));
        }
        r
    }
}

/// The vocabulary that a corpus declares about itself: patterns, not labels,
/// for what is an annex and what is operative text.
#[derive(Debug)]
pub struct CorpusVocabulary {
    pub authority: TextMap<u8>,
    pub authority_scale: Score,
    pub annex: Vec<String>,
    pub annex_score: Score,
    pub operative: Vec<String>,
    pub operative_score: Score,
    /// The score of a label that matches no pattern.
    pub labelled_score: Score,
    pub stopwords: Vec<String>,
    pub min_term_chars: usize,
}

impl Default for CorpusVocabulary {
    /// What stands where a corpus declares nothing.
    fn default() -> (r: CorpusVocabulary)
        ensures
            r.authority.keys().len() == 0,
            r.authority_scale.bits == 0x4120_0000,
            r.annex@.len() == 0,
            r.annex_score.bits == 0x3e4c_cccd,
            r.operative@.len() == 0,
            r.operative_score.bits == 0x3f80_0000,
            r.labelled_score.bits == 0x3f19_999a,
            r.stopwords@.len() == 0,
            r.min_term_chars == 3,
    {
        CorpusVocabulary {
            authority: TextMap::new(),
            authority_scale: Score { bits: 0x4120_0000 },
            annex: Vec::new(),
            annex_score: Score { bits: 0x3e4c_cccd },
            operative: Vec::new(),
            operative_score: Score { bits: 0x3f80_0000 },
            labelled_score: Score { bits: 0x3f19_999a },
            stopwords: Vec::new(),
            min_term_chars: 3,
        }
    }
}

/// Whether rules are those of the declared patterns: each over either label,
/// and only at its start.
pub open spec fn are_rules(rules: Seq<StructuralRule>, patterns: Seq<String>, score: Score) -> bool {
    &&& rules.len() == patterns.len()
    &&& forall|i: int|
        0 <= i < rules.len() ==> (#[trigger] rules[i]).is_from(
            rule_source(patterns[i]@, true),
            Field::Either,
            score,
        )
}

/// What a corpus declares, mapped onto the engine's type: annexes first, so
/// that a label that is both is ranked as an annex.
pub open spec fn is_declared_by(v: Vocabulary, c: CorpusVocabulary) -> bool {
    let n = c.annex@.len() as int;
    &&& tier_views(v.authority@).len() == c.authority.keys().len()
    &&& forall|i: int|
        0 <= i < c.authority.keys().len() ==> #[trigger] tier_views(v.authority@)[i] == (
            uppercase_text(c.authority.keys()[i]),
            c.authority.values()[i],
        )
    &&& v.max_tier == c.authority_scale
    &&& v.structural@.len() == n + c.operative@.len()
    &&& are_rules(v.structural@.take(n), c.annex@, c.annex_score)
    &&& are_rules(v.structural@.skip(n), c.operative@, c.operative_score)
    &&& v.structural_default == c.labelled_score
    &&& texts(v.stopwords@) == texts(c.stopwords@).map_values(|s: Seq<char>| lowercase_text(s))
    &&& v.min_term_chars == c.min_term_chars
}

/// A pattern that is an escaped text within the length that is sure to
/// compile.
pub open spec fn is_short_literal(pattern: Seq<char>) -> bool {
    exists|t: Seq<char>| t.len() <= LITERAL_CHARS && pattern == #[trigger] escaped(t)
}

fn compile_rules(patterns: &Vec<String>, score: Score) -> (r: Result<
    Vec<StructuralRule>,
    VocabError,
>)
    ensures
        match r {
            Ok(rules) => are_rules(rules@, patterns@, score),
            Err(e) => exists|i: int|
                0 <= i < patterns@.len() && e@ == (VocabErrorView::BadPattern {
                    label: (#[trigger] patterns@[i])@,
                }) && !is_short_literal(patterns@[i]@),
        },
{
    let mut rules: Vec<StructuralRule> = Vec::new();
    let mut i: usize = 0;
    while i < patterns.len()
        invariant
            i <= patterns@.len(),
            rules@.len() == i,
            forall|k: int|
                0 <= k < i ==> (#[trigger] rules@[k]).is_from(
                    rule_source(patterns@[k]@, true),
                    Field::Either,
                    score,
                ),
        decreases patterns@.len() - i,
    {
        let made = StructuralRule::new(patterns[i].as_str(), Field::Either, score, true);
        match declared_rule(patterns[i].as_str(), made) {
            Ok(rule) => {
                rules.push(rule);
            },
            Err(e) => {
                return Err(e);
            },
        }
        i = i + 1;
    }
    Ok(rules)
}

impl CorpusVocabulary {
    /// Maps what a corpus declares onto the engine's type. Fails only where a
    /// declared pattern does not compile; an escaped text within
    /// [`LITERAL_CHARS`] does. What is compiled for a pattern is its
    /// [`rule_text`](crate::engine::factors::rule_text), and [`declared_rule`] says
    /// what comes of either outcome.
    pub fn load(&self) -> (r: Result<Vocabulary, VocabError>)
        ensures
            match r {
                Ok(v) => is_declared_by(v, *self),
                Err(e) => exists|i: int|
                    0 <= i < (self.annex@ + self.operative@).len() && e@ == (
                    VocabErrorView::BadPattern {
                        label: (#[trigger] (self.annex@ + self.operative@)[i])@,
                    }) && !is_short_literal((self.annex@ + self.operative@)[i]@),
            },
            (forall|i: int|
                0 <= i < (self.annex@ + self.operative@).len() ==> is_short_literal(
                    (#[trigger] (self.annex@ + self.operative@)[i])@,
                )) ==> r is Ok,
    {
        let ghost patterns = self.annex@ + self.operative@;
        let annex = match compile_rules(&self.annex, self.annex_score) {
            Ok(rules) => rules,
            Err(e) => {
                proof {
                    let i = choose|i: int|
                        0 <= i < self.annex@.len() && e@ == (VocabErrorView::BadPattern {
                            label: (#[trigger] self.annex@[i])@,
                        }) && !is_short_literal(self.annex@[i]@);
                    assert(patterns[i] == self.annex@[i]);
                }
                return Err(e);
            },
        };
        let operative = match compile_rules(&self.operative, self.operative_score) {
            Ok(rules) => rules,
            Err(e) => {
                proof {
                    let i = choose|i: int|
                        0 <= i < self.operative@.len() && e@ == (VocabErrorView::BadPattern {
                            label: (#[trigger] self.operative@[i])@,
                        }) && !is_short_literal(self.operative@[i]@);
                    assert(patterns[i + self.annex@.len()] == self.operative@[i]);
                }
                return Err(e);
            },
        };
        Ok(self.with_rules(annex, operative))
    }

    /// The engine's vocabulary, given the compiled rules.
    pub fn with_rules(&self, annex: Vec<StructuralRule>, operative: Vec<StructuralRule>) -> (r:
        Vocabulary)
        requires
            annex@.len() == self.annex@.len(),
            operative@.len() == self.operative@.len(),
        ensures
            r.structural@ == annex@ + operative@,
            are_rules(annex@, self.annex@, self.annex_score) && are_rules(
                operative@,
                self.operative@,
                self.operative_score,
            ) ==> is_declared_by(r, *self),
            tier_views(r.authority@).len() == self.authority.keys().len(),
            forall|i: int|
                0 <= i < self.authority.keys().len() ==> #[trigger] tier_views(r.authority@)[i] == (
                    uppercase_text(self.authority.keys()[i]),
                    self.authority.values()[i],
                ),
            r.max_tier == self.authority_scale,
            r.structural_default == self.labelled_score,
            texts(r.stopwords@) == texts(self.stopwords@).map_values(
                |s: Seq<char>| lowercase_text(s),
            ),
            r.min_term_chars == self.min_term_chars,
    {
        let ghost front = annex@;
        let ghost back = operative@;
        let mut structural = annex;
        let mut more = operative;
        structural.append(&mut more);
        assert(structural@ == front + back);
        assert(structural@.take(front.len() as int) =~= front);
        assert(structural@.skip(front.len() as int) =~= back);
        let n = self.authority.len();
        let mut authority: Vec<(String, u8)> = Vec::new();
        let mut i: usize = 0;
        while i < n
            invariant
                i <= n,
                n == self.authority.keys().len(),
                n == self.authority.values().len(),
                authority@.len() == i,
                forall|k: int|
                    0 <= k < i ==> (#[trigger] authority@[k]).0@ == uppercase_text(
                        self.authority.keys()[k],
                    ) && authority@[k].1 == self.authority.values()[k],
            decreases n - i,
        {
            let tier: u8 = *self.authority.value(i);
            authority.push((to_uppercase(self.authority.key(i).as_str()), tier));
            i = i + 1;
        }
        let mut stopwords: Vec<String> = Vec::new();
        let ghost want = texts(self.stopwords@).map_values(|s: Seq<char>| lowercase_text(s));
        let mut k: usize = 0;
        while k < self.stopwords.len()
            invariant
                k <= self.stopwords@.len(),
                want == texts(self.stopwords@).map_values(|s: Seq<char>| lowercase_text(s)),
                texts(stopwords@) == want.take(k as int),
            decreases self.stopwords@.len() - k,
        {
            let ghost before = texts(stopwords@);
            stopwords.push(to_lowercase(self.stopwords[k].as_str()));
            assert(texts(self.stopwords@)[k as int] == self.stopwords@[k as int]@);
            assert(texts(stopwords@) =~= before.push(want[k as int]));
            assert(texts(stopwords@) =~= want.take(k + 1));
            k = k + 1;
        }
        assert(want.take(k as int) =~= want);
        let r = Vocabulary {
            authority,
            max_tier: self.authority_scale,
            structural,
            structural_default: self.labelled_score,
            stopwords,
            min_term_chars: self.min_term_chars,
        };
        assert forall|j: int| 0 <= j < self.authority.keys().len() implies #[trigger] tier_views(
            r.authority@,
        )[j] == (uppercase_text(self.authority.keys()[j]), self.authority.values()[j]) by {
            assert(r.authority@[j].0@ == uppercase_text(self.authority.keys()[j]));
        }
        r
    }
}

/// What is said of a refusal, with the number it is about written as `shown`.
pub open spec fn vocab_error_text(e: VocabErrorView, shown: Seq<char>) -> Seq<char> {
    match e {
        VocabErrorView::Malformed(m) => "did not parse · "@ + m,
        VocabErrorView::BadField { label, field } => "structural rule `"@ + label
            + "` has field `"@ + field + "` · must be one of article, chapter, either"@,
        VocabErrorView::BadScore { label, why } => match why {
            ScoreFault::NotPositive(_) => "`"@ + label + "` · "@ + shown
                + " is not a positive finite number"@,
            ScoreFault::OutsideUnit(_) => "`"@ + label + "` · "@ + shown
                + " is outside 0.0..=1.0"@,
            ScoreFault::RuleOutsideUnit(_) => "`"@ + label + "` · score "@ + shown
                + " is outside 0.0..=1.0"@,
        },
        VocabErrorView::BadPattern { label } => "`"@ + label + "` · the label does not compile"@,
    }
}

impl VocabError {
    /// The message for the operator, with the number it is about written as
    /// `shown`.
    pub fn message(&self, shown: &str) -> (r: String)
        ensures
            r@ == vocab_error_text(self@, shown@),
    {
        let mut out = String::new();
        match self {
            VocabError::Malformed(m) => {
                out = "did not parse · ".to_owned();
                out.append(m.as_str());
            },
            VocabError::BadField { label, field } => {
                out = "structural rule `".to_owned();
                out.append(label.as_str());
                out.append("` has field `");
                out.append(field.as_str());
                out.append("` · must be one of article, chapter, either");
            },
            VocabError::BadScore { label, why } => {
                out = "`".to_owned();
                out.append(label.as_str());
                match why {
                    ScoreFault::NotPositive(_) => {
                        out.append("` · ");
                        out.append(shown);
                        out.append(" is not a positive finite number");
                    },
                    ScoreFault::OutsideUnit(_) => {
                        out.append("` · ");
                        out.append(shown);
                        out.append(" is outside 0.0..=1.0");
                    },
                    ScoreFault::RuleOutsideUnit(_) => {
                        out.append("` · score ");
                        out.append(shown);
                        out.append(" is outside 0.0..=1.0");
                    },
                }
            },
            VocabError::BadPattern { label } => {
                out = "`".to_owned();
                out.append(label.as_str());
                out.append("` · the label does not compile");
            },
        }
        out
    }
}

// ---------------------------------------------------------------------------
// What a declaration has to satisfy, and what it comes to
// ---------------------------------------------------------------------------

/// A declared vocabulary passes exactly where its scale is a number above zero
/// and short of infinity, its default and the score of every rule are shares,
/// and every rule names one of the three fields.
pub proof fn a_vocabulary_passes_where_every_number_fits(f: VocabularyFile)
    ensures
        vocabulary_fault(f) is None <==> {
            &&& 0 < f.max_tier.bits < 0x7f80_0000
            &&& f.structural_default.bits <= 0x3f80_0000 || f.structural_default.bits == 0x8000_0000
            &&& forall|i: int|
                0 <= i < f.structural@.len() ==> {
                    let r = #[trigger] f.structural@[i];
                    &&& r.field@ == "article"@ || r.field@ == "chapter"@ || r.field@ == "either"@
                    &&& r.score.bits <= 0x3f80_0000 || r.score.bits == 0x8000_0000
                }
        },
{
    let rules = f.structural@;
    let i = the_first_bad_rule_is_refused(rules, 0);
    assert forall|k: int| 0 <= k < rules.len() implies (rule_fault(#[trigger] rules[k]) is None) == ((
    rules[k].field@ == "article"@ || rules[k].field@ == "chapter"@ || rules[k].field@ == "either"@)
        && (rules[k].score.bits <= 0x3f80_0000 || rules[k].score.bits == 0x8000_0000)) by {}
    if i < rules.len() {
        assert(rule_fault(rules[i]) is Some);
    }
}

/// The fault of a list of rules is that of the first rule that has one.
pub proof fn the_first_bad_rule_is_refused(rules: Seq<StructuralRuleFile>, from: int) -> (i: int)
    requires
        0 <= from <= rules.len(),
    ensures
        from <= i <= rules.len(),
        forall|k: int| from <= k < i ==> rule_fault(#[trigger] rules[k]) is None,
        i < rules.len() ==> rule_fault(rules[i]) is Some && rules_fault(rules, from) == rule_fault(
            rules[i],
        ),
        i == rules.len() ==> rules_fault(rules, from) is None,
    decreases rules.len() - from,
{
    if from == rules.len() || rule_fault(rules[from]) is Some {
        from
    } else {
        the_first_bad_rule_is_refused(rules, from + 1)
    }
}

/// A field has one name, and no other name stands for one.
pub proof fn a_field_has_one_name(name: Seq<char>)
    ensures
        field_of(name) == Some(Field::Article) <==> name == "article"@,
        field_of(name) == Some(Field::Chapter) <==> name == "chapter"@,
        field_of(name) == Some(Field::Either) <==> name == "either"@,
{
    reveal_strlit("article");
    reveal_strlit("chapter");
    reveal_strlit("either");
    assert("article"@.len() == 7 && "chapter"@.len() == 7 && "either"@.len() == 6);
    assert("article"@[0] == 'a' && "chapter"@[0] == 'c');
}

/// White space around a declared label or function word does not count.
pub proof fn white_space_around_a_label_does_not_count(s: Seq<char>)
    ensures
        label_of(trimmed(s)) == label_of(s),
        stopword_of(trimmed(s)) == stopword_of(s),
        label_of(s) == uppercase_text(trimmed(s)),
        stopword_of(s) == lowercase_text(trimmed(s)),
{
    trimming_is_idempotent(s);
}

/// What a file declares stands in the engine's type one for one and in its
/// order: labels with their tiers, rules with their fields and scores, and
/// function words.
pub proof fn a_declaration_is_taken_over_one_for_one(v: Vocabulary, f: VocabularyFile, i: int)
    requires
        is_built_from(v, f),
    ensures
        v.max_tier == f.max_tier,
        v.structural_default == f.structural_default,
        v.min_term_chars == f.min_term_chars,
        v.authority@.len() == f.authority.keys().len(),
        0 <= i < v.authority@.len() ==> v.authority@[i].0@ == uppercase_text(
            trimmed(f.authority.keys()[i]),
        ) && v.authority@[i].1 == f.authority.values()[i],
        v.stopwords@.len() == f.stopwords@.len(),
        0 <= i < v.stopwords@.len() ==> v.stopwords@[i]@ == lowercase_text(
            trimmed(f.stopwords@[i]@),
        ),
        v.structural@.len() == f.structural@.len(),
        0 <= i < v.structural@.len() ==> v.structural@[i].score == f.structural@[i].score,
        0 <= i < v.structural@.len() ==> field_of(f.structural@[i].field@) == Some(
            v.structural@[i].field,
        ),
{
    assert(texts(v.stopwords@).len() == v.stopwords@.len());
    assert(texts(f.stopwords@).len() == f.stopwords@.len());
    assert(tier_views(v.authority@).len() == v.authority@.len());
    if 0 <= i < v.stopwords@.len() {
        assert(texts(v.stopwords@)[i] == v.stopwords@[i]@);
        assert(texts(f.stopwords@)[i] == f.stopwords@[i]@);
    }
    if 0 <= i < v.authority@.len() {
        assert(tier_views(v.authority@)[i] == (v.authority@[i].0@, v.authority@[i].1));
    }
    if 0 <= i < v.structural@.len() {
        assert(is_rule(v.structural@[i], f.structural@[i]));
    }
}

/// What a corpus declares stands in the engine's type with the annexes first:
/// a label that is both is ranked as an annex.
pub proof fn annexes_are_tried_first(v: Vocabulary, c: CorpusVocabulary, i: int)
    requires
        is_declared_by(v, c),
    ensures
        v.max_tier == c.authority_scale,
        v.structural_default == c.labelled_score,
        v.min_term_chars == c.min_term_chars,
        v.structural@.len() == c.annex@.len() + c.operative@.len(),
        0 <= i < c.annex@.len() ==> v.structural@[i].score == c.annex_score
            && v.structural@[i].field == Field::Either,
        c.annex@.len() <= i < v.structural@.len() ==> v.structural@[i].score == c.operative_score
            && v.structural@[i].field == Field::Either,
        v.authority@.len() == c.authority.keys().len(),
        0 <= i < v.authority@.len() ==> v.authority@[i].0@ == uppercase_text(c.authority.keys()[i])
            && v.authority@[i].1 == c.authority.values()[i],
        v.stopwords@.len() == c.stopwords@.len(),
        0 <= i < v.stopwords@.len() ==> v.stopwords@[i]@ == lowercase_text(c.stopwords@[i]@),
{
    let n = c.annex@.len() as int;
    if 0 <= i < n {
        assert(v.structural@.take(n)[i] == v.structural@[i]);
        assert(v.structural@.take(n)[i].is_from(
            rule_source(c.annex@[i]@, true),
            Field::Either,
            c.annex_score,
        ));
    }
    if n <= i < v.structural@.len() {
        assert(v.structural@.skip(n)[i - n] == v.structural@[i]);
        assert(v.structural@.skip(n)[i - n].is_from(
            rule_source(c.operative@[i - n]@, true),
            Field::Either,
            c.operative_score,
        ));
    }
    assert(texts(v.stopwords@).len() == v.stopwords@.len());
    assert(texts(c.stopwords@).len() == c.stopwords@.len());
    assert(tier_views(v.authority@).len() == v.authority@.len());
    if 0 <= i < v.stopwords@.len() {
        assert(texts(v.stopwords@)[i] == v.stopwords@[i]@);
        assert(texts(c.stopwords@)[i] == c.stopwords@[i]@);
    }
    if 0 <= i < v.authority@.len() {
        assert(tier_views(v.authority@)[i] == (v.authority@[i].0@, v.authority@[i].1));
    }
}

} // verus!
