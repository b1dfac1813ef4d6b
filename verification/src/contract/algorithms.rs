//! The algorithm registry: named scoring configurations, declared as data.
//!
//! Three rules hold of a registry that validates. The widest that an
//! algorithm's metadata can stretch relevance is bounded. An algorithm that
//! nobody measured can be called by name and is not offered. And an unknown
//! name is an error, never a fallback.

use vstd::prelude::*;
use vstd::string::*;

use crate::contract::options::{Expansion, FactorWeights};
use crate::json::Json;
use crate::order::{picks, picks_one_more};
use crate::score::Score;
use crate::text::{chars_of, decimal, digit_char, has_prefix, is_digit, same, show, slices, slices_contain, starts_with, trim, trimmed};
use crate::textmap::{increasing, TextMap};

verus! {

/// The widest prior any algorithm may declare, `2.00`, as a bit pattern.
pub const MAX_PRIOR_BOUND: u32 = 0x4000_0000;

/// The algorithm every registry must define: the default when a caller names
/// none.
pub const DEFAULT_ALGORITHM: &'static str = "balanced";

/// What an algorithm scored, and on what. Required for it to be offered.
#[derive(Debug, PartialEq)]
pub struct Fitted {
    pub recall_at_5: Score,
    pub recall_at_10: Option<Score>,
    pub mrr: Option<Score>,
    /// Labelled cases the figure came from.
    pub n: u32,
    /// The command that produced it.
    pub harness: String,
    /// Anything that qualifies the number.
    pub note: Option<String>,
}

/// How one assembled factor turns a stored value into a number from zero to
/// one. A closed set: the sum of the weights bounds the prior only if every
/// term is at most one.
#[derive(Debug, Clone, Copy, PartialEq)]
pub enum TransformSpec {
    /// The corpus's authority ladder.
    Authority,
    /// The corpus's structural ladder.
    StructuralLadder,
    /// Recency decaying with age.
    HalfLife { years: Score },
    /// Position within the pool's own span of this variable.
    Range,
    /// Saturating growth.
    Saturate { at: Score },
    /// Share of the query's content terms this text contains.
    MatchShare,
    /// One when the value is present and not empty, otherwise absent.
    Present,
    /// One when the value is at least `min`, else zero.
    AtLeast { min: Score },
}

/// One factor in an assembled scoring function.
#[derive(Debug, PartialEq)]
pub struct FactorEntry {
    /// Published beside its contribution in the response.
    pub name: String,
    /// Which stored value to read: a bare column, or `number:<key>` or
    /// `text:<key>` for an enrichment value.
    pub variable: String,
    pub transform: TransformSpec,
    pub weight: Score,
}

/// A factor, as what it says.
pub ghost struct FactorEntryView {
    pub name: Seq<char>,
    pub variable: Seq<char>,
    pub transform: TransformSpec,
    pub weight: Score,
}

impl FactorEntry {
    pub open spec fn view(self) -> FactorEntryView {
        FactorEntryView {
            name: self.name@,
            variable: self.variable@,
            transform: self.transform,
            weight: self.weight,
        }
    }
}

/// The factors of a list, as what they say.
pub open spec fn entry_views(v: Seq<FactorEntry>) -> Seq<FactorEntryView> {
    v.map_values(|e: FactorEntry| e@)
}

/// The same factors once more.
pub fn copy_entries(v: &Vec<FactorEntry>) -> (r: Vec<FactorEntry>)
    ensures
        r@ == v@,
{
    let mut out: Vec<FactorEntry> = Vec::new();
    let mut i: usize = 0;
    while i < v.len()
        invariant
            i <= v@.len(),
            out@ == v@.take(i as int),
        decreases v@.len() - i,
    {
        let e = &v[i];
        out.push(
            FactorEntry {
                name: e.name.clone(),
                variable: e.variable.clone(),
                transform: e.transform,
                weight: e.weight,
            },
        );
        assert(out@ =~= v@.take(i + 1));
        i = i + 1;
    }
    assert(v@.take(i as int) =~= v@);
    out
}

/// A named way to rank.
#[derive(Debug, PartialEq)]
pub struct Algorithm {
    /// A note about this algorithm, ignored by the engine.
    pub note: Option<Json>,
    /// One line, shown to the agent: when to use this.
    pub description: String,
    /// Absent means unmeasured, and therefore not offered.
    pub fitted: Option<Fitted>,
    pub factors: FactorWeights,
    /// An assembled scoring function, which wins over `factors` when present.
    pub composition: Option<Vec<FactorEntry>>,
    /// Expansions this algorithm turns on by default.
    pub expand: Vec<Expansion>,
}

impl Algorithm {
    /// The weights whose sum bounds the prior, taken from whichever form this
    /// algorithm ranks with.
    pub open spec fn weights(self) -> Seq<Score> {
        match self.composition {
            Some(entries) => entries@.map_values(|e: FactorEntry| e.weight),
            None => shorthand_weights(self.factors),
        }
    }

    /// The weights whose sum bounds the prior, taken from whichever form this
    /// algorithm ranks with. A bound taken from a form that does not run would
    /// check nothing.
    pub fn prior_weights(&self) -> (r: Vec<Score>)
        ensures
            r@ == self.weights(),
    {
        match &self.composition {
            Some(entries) => {
                let mut out: Vec<Score> = Vec::new();
                let mut i: usize = 0;
                while i < entries.len()
                    invariant
                        i <= entries@.len(),
                        out@ == entries@.map_values(|e: FactorEntry| e.weight).take(i as int),
                    decreases entries@.len() - i,
                {
                    out.push(entries[i].weight);
                    assert(out@ =~= entries@.map_values(|e: FactorEntry| e.weight).take(i + 1));
                    i = i + 1;
                }
                assert(out@ =~= self.weights());
                out
            },
            None => weight_terms(&self.factors),
        }
    }

    /// Whether the agent is offered this algorithm.
    pub fn is_fitted(&self) -> (r: bool)
        ensures
            r == (self.fitted is Some),
    {
        self.fitted.is_some()
    }
}

/// The terms of the five-term sum, in the order in which they are added. The
/// floor is a threshold, not a weight.
pub open spec fn shorthand_weights(w: FactorWeights) -> Seq<Score> {
    seq![w.authority, w.structural, w.temporal, w.completeness, w.topical]
}

/// The terms of the five-term sum, in the order in which they are added.
pub fn weight_terms(w: &FactorWeights) -> (r: Vec<Score>)
    ensures
        r@ == shorthand_weights(*w),
{
    let r = vec![w.authority, w.structural, w.temporal, w.completeness, w.topical];
    assert(r@ =~= shorthand_weights(*w));
    r
}

/// The pattern of `400.0`: the body length past which more is not more.
pub const SATURATE_AT: u32 = 0x43c8_0000;

/// One factor with these parts.
pub open spec fn entry(
    name: Seq<char>,
    variable: Seq<char>,
    transform: TransformSpec,
    weight: Score,
) -> FactorEntryView {
    FactorEntryView { name, variable, transform, weight }
}

/// The five-term shorthand, written out as an assembled composition.
pub open spec fn classic_entries(w: FactorWeights) -> Seq<FactorEntryView> {
    seq![
        entry("authority"@, "regulation_type"@, TransformSpec::Authority, w.authority),
        entry("structural"@, "article"@, TransformSpec::StructuralLadder, w.structural),
        entry(
            "completeness"@,
            "body_len"@,
            TransformSpec::Saturate { at: (Score { bits: SATURATE_AT }) },
            w.completeness,
        ),
        entry("temporal"@, "year"@, TransformSpec::Range, w.temporal),
        entry("topical"@, "about"@, TransformSpec::MatchShare, w.topical),
    ]
}

fn new_entry(name: &str, variable: &str, transform: TransformSpec, weight: Score) -> (r:
    FactorEntry)
    ensures
        r@ == entry(name@, variable@, transform, weight),
{
    FactorEntry { name: name.to_owned(), variable: variable.to_owned(), transform, weight }
}

/// The five-term shorthand, written out as an assembled composition.
pub fn classic_composition(w: &FactorWeights) -> (r: Vec<FactorEntry>)
    ensures
        entry_views(r@) == classic_entries(*w),
{
    let at = Score { bits: SATURATE_AT };
    let r = vec![
        new_entry("authority", "regulation_type", TransformSpec::Authority, w.authority),
        new_entry("structural", "article", TransformSpec::StructuralLadder, w.structural),
        new_entry("completeness", "body_len", TransformSpec::Saturate { at }, w.completeness),
        new_entry("temporal", "year", TransformSpec::Range, w.temporal),
        new_entry("topical", "about", TransformSpec::MatchShare, w.topical),
    ];
    assert(entry_views(r@) =~= classic_entries(*w));
    r
}

/// The shorthand and its composition carry the same weights.
pub proof fn classic_composition_keeps_the_weights(w: FactorWeights)
    ensures
        forall|s: Score|
            shorthand_weights(w).contains(s) <==> exists|i: int|
                0 <= i < classic_entries(w).len() && #[trigger] classic_entries(w)[i].weight == s,
{
    let t = classic_entries(w);
    let u = shorthand_weights(w);
    assert forall|s: Score|
        u.contains(s) <==> exists|i: int| 0 <= i < t.len() && #[trigger] t[i].weight == s by {
        if u.contains(s) {
            assert(t[0].weight == u[0] && t[1].weight == u[1] && t[2].weight == u[3] && t[3].weight
                == u[2] && t[4].weight == u[4]);
        }
        if exists|i: int| 0 <= i < t.len() && #[trigger] t[i].weight == s {
            let i = choose|i: int| 0 <= i < t.len() && #[trigger] t[i].weight == s;
            assert(u.contains(s)) by {
                assert(t[0].weight == u[0] && t[1].weight == u[1] && t[2].weight == u[3]
                    && t[3].weight == u[2] && t[4].weight == u[4]);
            }
        }
    }
}

/// Every algorithm this engine can be asked for.
#[derive(Debug, PartialEq)]
pub struct Registry {
    /// The file's own notes, ignored by the engine.
    pub comment: Option<Json>,
    pub algorithms: TextMap<Algorithm>,
}

/// What is wrong with a declared number or factor.
#[derive(Debug, PartialEq)]
pub enum Fault {
    /// A weight that is infinite or not a number.
    NotFinite(Score),
    /// A weight below zero.
    Negative(Score),
    /// A floor that is no share.
    OutsideUnit(Score),
    /// A composition without factors.
    Empty,
    /// A factor without a name.
    Unnamed,
    /// A factor name declared a second time.
    Twice(String),
    /// A factor weight that is not finite or below zero.
    FactorWeight { factor: String, weight: Score },
    /// A factor that reads no known column and no enrichment value.
    Variable { factor: String, variable: String },
    /// A shape parameter that cannot work.
    Shape { factor: String, what: &'static str, value: Score },
}

/// A fault, as what it says.
pub ghost enum FaultView {
    NotFinite(Score),
    Negative(Score),
    OutsideUnit(Score),
    Empty,
    Unnamed,
    Twice(Seq<char>),
    FactorWeight { factor: Seq<char>, weight: Score },
    Variable { factor: Seq<char>, variable: Seq<char> },
    Shape { factor: Seq<char>, what: Seq<char>, value: Score },
}

impl Fault {
    pub open spec fn view(self) -> FaultView {
        match self {
            Fault::NotFinite(v) => FaultView::NotFinite(v),
            Fault::Negative(v) => FaultView::Negative(v),
            Fault::OutsideUnit(v) => FaultView::OutsideUnit(v),
            Fault::Empty => FaultView::Empty,
            Fault::Unnamed => FaultView::Unnamed,
            Fault::Twice(name) => FaultView::Twice(name@),
            Fault::FactorWeight { factor, weight } => FaultView::FactorWeight {
                factor: factor@,
                weight,
            },
            Fault::Variable { factor, variable } => FaultView::Variable {
                factor: factor@,
                variable: variable@,
            },
            Fault::Shape { factor, what, value } => FaultView::Shape {
                factor: factor@,
                what: what@,
                value,
            },
        }
    }
}

/// Why a registry was refused. Every variant names the algorithm.
#[derive(Debug, PartialEq)]
pub enum RegistryError {
    /// The file did not parse.
    Malformed(String),
    /// The default algorithm is missing, so the registry cannot serve.
    MissingDefault,
    /// A name that cannot be a schema token.
    BadName { name: String, why: &'static str },
    /// A prior wider than the bound.
    PriorTooWide {
        name: String,
        /// Hundredths.
        bound_centi: u32,
    },
    /// A floor outside its units, a weight that is negative or not finite, or a
    /// factor that cannot be evaluated.
    BadWeight { name: String, field: &'static str, fault: Fault },
}

/// A refusal, as what it says.
pub ghost enum RegistryErrorView {
    Malformed(Seq<char>),
    MissingDefault,
    BadName { name: Seq<char>, why: Seq<char> },
    PriorTooWide { name: Seq<char>, bound_centi: u32 },
    BadWeight { name: Seq<char>, field: Seq<char>, fault: FaultView },
}

impl RegistryError {
    pub open spec fn view(self) -> RegistryErrorView {
        match self {
            RegistryError::Malformed(m) => RegistryErrorView::Malformed(m@),
            RegistryError::MissingDefault => RegistryErrorView::MissingDefault,
            RegistryError::BadName { name, why } => RegistryErrorView::BadName {
                name: name@,
                why: why@,
            },
            RegistryError::PriorTooWide { name, bound_centi } => RegistryErrorView::PriorTooWide {
                name: name@,
                bound_centi,
            },
            RegistryError::BadWeight { name, field, fault } => RegistryErrorView::BadWeight {
                name: name@,
                field: field@,
                fault: fault@,
            },
        }
    }
}

// ---------------------------------------------------------------------------
// What a registry has to satisfy
// ---------------------------------------------------------------------------

/// A character that a schema token may hold.
pub open spec fn name_char(c: char) -> bool {
    'a' <= c <= 'z' || is_digit(c) || c == '_'
}

/// What keeps a text from being an algorithm's name.
pub open spec fn name_fault(name: Seq<char>) -> Option<Seq<char>> {
    if name.len() == 0 {
        Some("empty"@)
    } else if exists|i: int| 0 <= i < name.len() && !name_char(#[trigger] name[i]) {
        Some("only lowercase ascii, digits and `_` · it appears verbatim in the tool schema"@)
    } else {
        None
    }
}

/// What is wrong with a weight of the five-term form.
pub open spec fn weight_fault(v: Score) -> Option<FaultView> {
    if !v.finite() {
        Some(FaultView::NotFinite(v))
    } else if v.rank() < 0 {
        Some(FaultView::Negative(v))
    } else {
        None
    }
}

/// The first thing wrong with the five-term form, with the field it is in.
pub open spec fn weights_fault(w: FactorWeights) -> Option<(Seq<char>, FaultView)> {
    if weight_fault(w.authority) is Some {
        Some(("authority"@, weight_fault(w.authority)->0))
    } else if weight_fault(w.structural) is Some {
        Some(("structural"@, weight_fault(w.structural)->0))
    } else if weight_fault(w.temporal) is Some {
        Some(("temporal"@, weight_fault(w.temporal)->0))
    } else if weight_fault(w.completeness) is Some {
        Some(("completeness"@, weight_fault(w.completeness)->0))
    } else if weight_fault(w.topical) is Some {
        Some(("topical"@, weight_fault(w.topical)->0))
    } else if !w.relevance_floor.unit() {
        Some(("relevance_floor"@, FaultView::OutsideUnit(w.relevance_floor)))
    } else {
        None
    }
}

/// The columns that a factor may read by their bare names.
pub open spec fn columns() -> Seq<Seq<char>> {
    seq![
        "regulation_type"@,
        "article"@,
        "chapter"@,
        "about"@,
        "body"@,
        "body_len"@,
        "year"@,
    ]
}

/// Whether a text names something a factor can read.
pub open spec fn known_variable(v: Seq<char>) -> bool {
    ||| columns().contains(v)
    ||| has_prefix(v, "number:"@) && v.len() > "number:"@.len()
    ||| has_prefix(v, "text:"@) && v.len() > "text:"@.len()
}

/// The shape parameter that cannot work, if there is one.
pub open spec fn shape_fault(t: TransformSpec) -> Option<(Seq<char>, Score)> {
    match t {
        TransformSpec::Saturate { at } => if !at.finite() || at.rank() <= 0 {
            Some(("saturate.at"@, at))
        } else {
            None
        },
        TransformSpec::HalfLife { years } => if !years.finite() || years.rank() <= 0 {
            Some(("half_life.years"@, years))
        } else {
            None
        },
        TransformSpec::AtLeast { min } => if !min.finite() {
            Some(("at_least.min"@, min))
        } else {
            None
        },
        _ => None,
    }
}

/// Whether an earlier factor has the name of the `i`-th.
pub open spec fn named_before(v: Seq<FactorEntryView>, i: int) -> bool {
    exists|k: int| 0 <= k < i && (#[trigger] v[k]).name == v[i].name
}

/// What is wrong with the `i`-th factor of a composition.
pub open spec fn entry_fault(v: Seq<FactorEntryView>, i: int) -> Option<FaultView> {
    let e = v[i];
    if trimmed(e.name).len() == 0 {
        Some(FaultView::Unnamed)
    } else if named_before(v, i) {
        Some(FaultView::Twice(e.name))
    } else if !e.weight.finite() || e.weight.rank() < 0 {
        Some(FaultView::FactorWeight { factor: e.name, weight: e.weight })
    } else if !known_variable(trimmed(e.variable)) {
        Some(FaultView::Variable { factor: e.name, variable: trimmed(e.variable) })
    } else if shape_fault(e.transform) is Some {
        let (what, value) = shape_fault(e.transform)->0;
        Some(FaultView::Shape { factor: e.name, what, value })
    } else {
        None
    }
}

/// The first thing wrong with a factor from the `i`-th on.
pub open spec fn entries_fault(v: Seq<FactorEntryView>, i: int) -> Option<FaultView>
    decreases v.len() - i,
{
    if i >= v.len() {
        None
    } else if entry_fault(v, i) is Some {
        entry_fault(v, i)
    } else {
        entries_fault(v, i + 1)
    }
}

/// The first thing wrong with an assembled composition, with the field it is
/// in.
pub open spec fn composition_fault(floor: Score, v: Seq<FactorEntryView>) -> Option<
    (Seq<char>, FaultView),
> {
    if !floor.unit() {
        Some(("relevance_floor"@, FaultView::OutsideUnit(floor)))
    } else if v.len() == 0 {
        Some(("composition"@, FaultView::Empty))
    } else if entries_fault(v, 0) is Some {
        Some(("composition"@, entries_fault(v, 0)->0))
    } else {
        None
    }
}

/// The widest that an algorithm's metadata can stretch relevance: one plus the
/// sum of its weights.
#[derive(Debug, Clone, Copy, PartialEq)]
pub struct PriorBound {
    pub bound: Score,
    /// The bound in whole hundredths.
    pub centi: u32,
}

/// Why one algorithm is refused, if it is.
pub open spec fn algorithm_fault(name: Seq<char>, a: Algorithm, b: PriorBound) -> Option<
    RegistryErrorView,
> {
    let fault = match a.composition {
        Some(entries) => composition_fault(a.factors.relevance_floor, entry_views(entries@)),
        None => weights_fault(a.factors),
    };
    if name_fault(name) is Some {
        Some(RegistryErrorView::BadName { name, why: name_fault(name)->0 })
    } else if fault is Some {
        let (field, fault) = fault->0;
        Some(RegistryErrorView::BadWeight { name, field, fault })
    } else if (Score { bits: MAX_PRIOR_BOUND }).lt_spec(b.bound) {
        Some(RegistryErrorView::PriorTooWide { name, bound_centi: b.centi })
    } else {
        None
    }
}

/// Why the first bad algorithm from the `i`-th on is refused, if there is one.
pub open spec fn algorithms_fault(
    names: Seq<Seq<char>>,
    algorithms: Seq<Algorithm>,
    bounds: Seq<PriorBound>,
    i: int,
) -> Option<RegistryErrorView>
    decreases names.len() - i,
{
    if i >= names.len() {
        None
    } else if algorithm_fault(names[i], algorithms[i], bounds[i]) is Some {
        algorithm_fault(names[i], algorithms[i], bounds[i])
    } else {
        algorithms_fault(names, algorithms, bounds, i + 1)
    }
}

/// Why a registry is refused, if it is.
pub open spec fn registry_fault(r: Registry, bounds: Seq<PriorBound>) -> Option<RegistryErrorView> {
    if !r.algorithms.has("balanced"@) {
        Some(RegistryErrorView::MissingDefault)
    } else {
        algorithms_fault(r.algorithms.keys(), r.algorithms.values(), bounds, 0)
    }
}

/// In a registry that validates, every algorithm passes every rule.
pub proof fn a_valid_registry_has_no_bad_algorithm(r: Registry, bounds: Seq<PriorBound>, i: int)
    requires
        registry_fault(r, bounds) is None,
        0 <= i < r.algorithms.keys().len(),
    ensures
        r.algorithms.has("balanced"@),
        algorithm_fault(r.algorithms.keys()[i], r.algorithms.values()[i], bounds[i]) is None,
{
    no_fault_from(r.algorithms.keys(), r.algorithms.values(), bounds, 0, i);
}

proof fn no_fault_from(
    names: Seq<Seq<char>>,
    algorithms: Seq<Algorithm>,
    bounds: Seq<PriorBound>,
    from: int,
    i: int,
)
    requires
        0 <= from <= i < names.len(),
        algorithms_fault(names, algorithms, bounds, from) is None,
    ensures
        algorithm_fault(names[i], algorithms[i], bounds[i]) is None,
    decreases i - from,
{
    if from < i {
        no_fault_from(names, algorithms, bounds, from + 1, i);
    }
}

/// A prior that is a number and that passed is at most two: the weights of an
/// algorithm that validates can at most double its relevance.
pub proof fn a_valid_prior_is_bounded(name: Seq<char>, a: Algorithm, b: PriorBound)
    requires
        algorithm_fault(name, a, b) is None,
        !b.bound.nan(),
    ensures
        b.bound.le_spec(Score { bits: MAX_PRIOR_BOUND }),
{
}

/// Weights that passed are finite and not below zero, in whichever form runs.
pub proof fn valid_weights_are_finite_and_not_negative(
    name: Seq<char>,
    a: Algorithm,
    b: PriorBound,
    i: int,
)
    requires
        algorithm_fault(name, a, b) is None,
        0 <= i < a.weights().len(),
    ensures
        a.weights()[i].finite(),
        a.weights()[i].rank() >= 0,
        a.factors.relevance_floor.unit(),
{
    match a.composition {
        Some(entries) => {
            let v = entry_views(entries@);
            no_entry_fault_from(v, 0, i);
            assert(v[i].weight == a.weights()[i]);
        },
        None => {},
    }
}

proof fn no_entry_fault_from(v: Seq<FactorEntryView>, from: int, i: int)
    requires
        0 <= from <= i < v.len(),
        entries_fault(v, from) is None,
    ensures
        entry_fault(v, i) is None,
    decreases i - from,
{
    if from < i {
        no_entry_fault_from(v, from + 1, i);
    }
}

/// The factors of a composition that passed have pairwise different names.
pub proof fn valid_factor_names_are_distinct(floor: Score, v: Seq<FactorEntryView>, i: int, j: int)
    requires
        composition_fault(floor, v) is None,
        0 <= i < j < v.len(),
    ensures
        v[i].name != v[j].name,
{
    no_entry_fault_from(v, 0, j);
    assert(!named_before(v, j));
}

// ---------------------------------------------------------------------------
// The checks
// ---------------------------------------------------------------------------

/// Whether the text can be an algorithm's name.
pub fn check_name(name: &str) -> (r: Result<(), RegistryError>)
    ensures
        match r {
            Ok(_) => name_fault(name@) is None,
            Err(e) => name_fault(name@) is Some && e@ == (RegistryErrorView::BadName {
                name: name@,
                why: name_fault(name@)->0,
            }),
        },
{
    if name.is_empty() {
        return Err(RegistryError::BadName { name: name.to_owned(), why: "empty" });
    }
    let v = chars_of(name);
    let mut i: usize = 0;
    while i < v.len()
        invariant
            i <= v@.len(),
            v@ == name@,
            name@.len() > 0,
            forall|k: int| 0 <= k < i ==> name_char(#[trigger] v@[k]),
        decreases v@.len() - i,
    {
        let c = v[i];
        let good = ('a' <= c && c <= 'z') || ('0' <= c && c <= '9') || c == '_';
        if !good {
            assert(!name_char(name@[i as int]));
            return Err(
                RegistryError::BadName {
                    name: name.to_owned(),
                    why:
                        "only lowercase ascii, digits and `_` · it appears verbatim in the tool schema",
                },
            );
        }
        i = i + 1;
    }
    Ok(())
}

fn check_weight(name: &str, field: &'static str, v: Score) -> (r: Result<(), RegistryError>)
    ensures
        match r {
            Ok(_) => weight_fault(v) is None,
            Err(e) => weight_fault(v) is Some && e@ == (RegistryErrorView::BadWeight {
                name: name@,
                field: field@,
                fault: weight_fault(v)->0,
            }),
        },
{
    if !v.is_finite() {
        return Err(
            RegistryError::BadWeight { name: name.to_owned(), field, fault: Fault::NotFinite(v) },
        );
    }
    if v.is_negative() {
        return Err(
            RegistryError::BadWeight { name: name.to_owned(), field, fault: Fault::Negative(v) },
        );
    }
    Ok(())
}

/// Whether the five-term form can be used: finite weights that are not
/// negative, and a floor that is a share. Negative weights are refused rather
/// than clamped.
pub fn check_weights(name: &str, w: &FactorWeights) -> (r: Result<(), RegistryError>)
    ensures
        match r {
            Ok(_) => weights_fault(*w) is None,
            Err(e) => weights_fault(*w) is Some && e@ == (RegistryErrorView::BadWeight {
                name: name@,
                field: (weights_fault(*w)->0).0,
                fault: (weights_fault(*w)->0).1,
            }),
        },
{
    match check_weight(name, "authority", w.authority) {
        Err(e) => return Err(e),
        Ok(_) => {},
    }
    match check_weight(name, "structural", w.structural) {
        Err(e) => return Err(e),
        Ok(_) => {},
    }
    match check_weight(name, "temporal", w.temporal) {
        Err(e) => return Err(e),
        Ok(_) => {},
    }
    match check_weight(name, "completeness", w.completeness) {
        Err(e) => return Err(e),
        Ok(_) => {},
    }
    match check_weight(name, "topical", w.topical) {
        Err(e) => return Err(e),
        Ok(_) => {},
    }
    if !w.relevance_floor.in_unit() {
        return Err(
            RegistryError::BadWeight {
                name: name.to_owned(),
                field: "relevance_floor",
                fault: Fault::OutsideUnit(w.relevance_floor),
            },
        );
    }
    Ok(())
}

/// The columns that a factor may read by their bare names.
fn column_names() -> (r: Vec<&'static str>)
    ensures
        slices(r@) == columns(),
{
    let r: Vec<&'static str> = vec![
        "regulation_type",
        "article",
        "chapter",
        "about",
        "body",
        "body_len",
        "year",
    ];
    assert(slices(r@) =~= columns());
    r
}

/// Whether the text names something a factor can read.
pub fn is_known_variable(v: &str) -> (r: bool)
    ensures
        r == known_variable(v@),
{
    let names = column_names();
    let chars = chars_of(v);
    proof {
        reveal_strlit("number:");
        reveal_strlit("text:");
    }
    slices_contain(&names, v) || (starts_with(v, "number:") && chars.len() > 7) || (starts_with(
        v,
        "text:",
    ) && chars.len() > 5)
}

fn bad_shape(t: TransformSpec) -> (r: Option<(&'static str, Score)>)
    ensures
        match r {
            Some((what, value)) => shape_fault(t) == Some((what@, value)),
            None => shape_fault(t) is None,
        },
{
    match t {
        TransformSpec::Saturate { at } => if !at.is_finite() || !at.is_positive() {
            Some(("saturate.at", at))
        } else {
            None
        },
        TransformSpec::HalfLife { years } => if !years.is_finite() || !years.is_positive() {
            Some(("half_life.years", years))
        } else {
            None
        },
        TransformSpec::AtLeast { min } => if !min.is_finite() {
            Some(("at_least.min", min))
        } else {
            None
        },
        _ => None,
    }
}

fn is_named_before(v: &Vec<FactorEntry>, i: usize) -> (r: bool)
    requires
        i < v@.len(),
    ensures
        r == named_before(entry_views(v@), i as int),
{
    let ghost views = entry_views(v@);
    let mut k: usize = 0;
    while k < i
        invariant
            k <= i < v@.len(),
            views == entry_views(v@),
            forall|m: int| 0 <= m < k ==> (#[trigger] views[m]).name != views[i as int].name,
        decreases i - k,
    {
        if same(v[k].name.as_str(), v[i].name.as_str()) {
            assert(views[k as int].name == views[i as int].name);
            return true;
        }
        k = k + 1;
    }
    false
}

fn fault_of_entry(v: &Vec<FactorEntry>, i: usize) -> (r: Option<Fault>)
    requires
        i < v@.len(),
    ensures
        match r {
            Some(f) => entry_fault(entry_views(v@), i as int) == Some(f@),
            None => entry_fault(entry_views(v@), i as int) is None,
        },
{
    let e = &v[i];
    let ghost views = entry_views(v@);
    assert(views[i as int] == e@);
    let bare = trim(e.name.as_str());
    if bare.as_str().is_empty() {
        return Some(Fault::Unnamed);
    }
    // Names are published as contributions, so a duplicate would make the
    // explanation ambiguous.
    if is_named_before(v, i) {
        return Some(Fault::Twice(e.name.clone()));
    }
    if !e.weight.is_finite() || e.weight.is_negative() {
        return Some(Fault::FactorWeight { factor: e.name.clone(), weight: e.weight });
    }
    let variable = trim(e.variable.as_str());
    if !is_known_variable(variable.as_str()) {
        return Some(Fault::Variable { factor: e.name.clone(), variable });
    }
    match bad_shape(e.transform) {
        Some((what, value)) => Some(Fault::Shape { factor: e.name.clone(), what, value }),
        None => None,
    }
}

/// Whether an assembled composition can be used.
pub fn check_composition(name: &str, floor: Score, entries: &Vec<FactorEntry>) -> (r: Result<
    (),
    RegistryError,
>)
    ensures
        match r {
            Ok(_) => composition_fault(floor, entry_views(entries@)) is None,
            Err(e) => composition_fault(floor, entry_views(entries@)) is Some && e@ == (
            RegistryErrorView::BadWeight {
                name: name@,
                field: (composition_fault(floor, entry_views(entries@))->0).0,
                fault: (composition_fault(floor, entry_views(entries@))->0).1,
            }),
        },
{
    if !floor.in_unit() {
        return Err(
            RegistryError::BadWeight {
                name: name.to_owned(),
                field: "relevance_floor",
                fault: Fault::OutsideUnit(floor),
            },
        );
    }
    if entries.len() == 0 {
        return Err(
            RegistryError::BadWeight {
                name: name.to_owned(),
                field: "composition",
                fault: Fault::Empty,
            },
        );
    }
    let ghost views = entry_views(entries@);
    let mut i: usize = 0;
    while i < entries.len()
        invariant
            i <= entries@.len(),
            views == entry_views(entries@),
            views.len() > 0,
            floor.unit(),
            entries_fault(views, 0) == entries_fault(views, i as int),
        decreases entries@.len() - i,
    {
        match fault_of_entry(entries, i) {
            Some(fault) => {
                return Err(
                    RegistryError::BadWeight { name: name.to_owned(), field: "composition", fault },
                );
            },
            None => {},
        }
        i = i + 1;
    }
    Ok(())
}

impl Registry {
    /// The registry used when no file is configured: one measured algorithm
    /// under the default name.
    pub fn builtin(default: FactorWeights) -> (r: Registry)
        ensures
            r.comment is None,
            r.algorithms@.dom() == set!["balanced"@],
            r.algorithms.keys() == seq!["balanced"@],
            ({
                let a = r.algorithms.at("balanced"@);
                &&& a.factors == default
                &&& a.composition is None
                &&& a.expand@.len() == 0
                &&& a.note is None
                &&& a.description@ == "The general case · the measured default."@
                &&& a.fitted is Some
                &&& a.fitted->0.n == 44
                &&& a.fitted->0.recall_at_5 == (Score { bits: 0x3f0b_851f })
                &&& a.fitted->0.recall_at_10 == Some((Score { bits: 0x3f17_4bc7 }))
                &&& a.fitted->0.mrr == Some((Score { bits: 0x3ee8_72b0 }))
                &&& a.fitted->0.harness@ == "dev_tools/eval/e2e.py"@
                &&& a.fitted->0.note is Some
                &&& a.fitted->0.note->0@
                    == "Fitted before the 2026-09-19 re-embed, on a corpus where the dense arm contributed 0.0%. Needs refitting (docs/SCORING.md §9)."@
            }),
    {
        let mut algorithms: TextMap<Algorithm> = TextMap::new();
        let fitted = Fitted {
            recall_at_5: Score { bits: 0x3f0b_851f },
            recall_at_10: Some(Score { bits: 0x3f17_4bc7 }),
            mrr: Some(Score { bits: 0x3ee8_72b0 }),
            n: 44,
            harness: "dev_tools/eval/e2e.py".to_owned(),
            note: Some(
                "Fitted before the 2026-09-19 re-embed, on a corpus where the dense arm contributed 0.0%. Needs refitting (docs/SCORING.md §9).".to_owned(),
            ),
        };
        let a = Algorithm {
            note: None,
            description: "The general case · the measured default.".to_owned(),
            fitted: Some(fitted),
            factors: default,
            composition: None,
            expand: Vec::new(),
        };
        let ghost was = algorithms@;
        algorithms.insert(DEFAULT_ALGORITHM.to_owned(), a);
        let n = algorithms.len();
        proof {
            let m = algorithms@;
            assert(m =~= was.insert("balanced"@, a));
            assert(m.dom() =~= set!["balanced"@]);
            let keys = algorithms.keys();
            assert(m.contains_key("balanced"@));
            assert(keys.contains("balanced"@));
            let i = keys.index_of("balanced"@);
            assert forall|k: int| 0 <= k < keys.len() implies #[trigger] keys[k] == "balanced"@ by {
                assert(keys.contains(keys[k]));
                assert(m.contains_key(keys[k]));
            }
            if keys.len() > 1 {
                assert(keys[0] == keys[1]);
            }
            assert(keys =~= seq!["balanced"@]);
            assert(algorithms.at("balanced"@) == m["balanced"@]);
        }
        Registry { comment: None, algorithms }
    }

    /// Whether the registry can serve: the default is there, and every
    /// algorithm passes every rule. The first violation found is returned, in
    /// dictionary order of the names, so the same bad file always names the
    /// same algorithm.
    ///
    /// `bounds` holds one plus the sum of [`Algorithm::prior_weights`], for
    /// every algorithm in dictionary order.
    pub fn validate(&self, bounds: &Vec<PriorBound>) -> (r: Result<(), RegistryError>)
        requires
            bounds@.len() == self.algorithms.keys().len(),
        ensures
            match r {
                Ok(_) => registry_fault(*self, bounds@) is None,
                Err(e) => registry_fault(*self, bounds@) == Some(e@),
            },
    {
        if !self.algorithms.contains_key(DEFAULT_ALGORITHM) {
            return Err(RegistryError::MissingDefault);
        }
        let n = self.algorithms.len();
        let mut i: usize = 0;
        while i < n
            invariant
                i <= n,
                n == self.algorithms.keys().len(),
                bounds@.len() == n,
                self.algorithms.has("balanced"@),
                algorithms_fault(self.algorithms.keys(), self.algorithms.values(), bounds@, 0)
                    == algorithms_fault(
                    self.algorithms.keys(),
                    self.algorithms.values(),
                    bounds@,
                    i as int,
                ),
            decreases n - i,
        {
            let name = self.algorithms.key(i);
            let algo = self.algorithms.value(i);
            let bound = bounds[i];
            match check_name(name.as_str()) {
                Err(e) => return Err(e),
                Ok(_) => {},
            }
            let checked = match &algo.composition {
                Some(entries) => check_composition(
                    name.as_str(),
                    algo.factors.relevance_floor,
                    entries,
                ),
                None => check_weights(name.as_str(), &algo.factors),
            };
            match checked {
                Err(e) => return Err(e),
                Ok(_) => {},
            }
            // The bound is checked against whichever form runs.
            let widest = Score { bits: MAX_PRIOR_BOUND };
            if widest.lt(bound.bound) {
                return Err(
                    RegistryError::PriorTooWide { name: name.clone(), bound_centi: bound.centi },
                );
            }
            i = i + 1;
        }
        Ok(())
    }

    /// Looks an algorithm up by name.
    pub fn get(&self, name: &str) -> (r: Option<&Algorithm>)
        ensures
            r is Some == self.algorithms.has(name@),
            r is Some ==> *r->0 == self.algorithms.at(name@),
    {
        self.algorithms.get(name)
    }

    /// The names offered in the tool schema: measured algorithms only, in
    /// dictionary order.
    pub fn offered(&self) -> (r: Vec<&str>)
        ensures
            slices(r@) == self.offered_names(),
    {
        let n = self.algorithms.len();
        let mut out: Vec<&str> = Vec::new();
        let mut i: usize = 0;
        assert(slices(out@) =~= Seq::<Seq<char>>::empty());
        while i < n
            invariant
                i <= n,
                n == self.algorithms.keys().len(),
                n == self.algorithms.values().len(),
                slices(out@) == offered_upto(
                    self.algorithms.keys(),
                    self.algorithms.values(),
                    i as int,
                ),
            decreases n - i,
        {
            let ghost before = slices(out@);
            if self.algorithms.value(i).is_fitted() {
                out.push(self.algorithms.key(i).as_str());
                assert(slices(out@) =~= before.push(self.algorithms.keys()[i as int]));
            }
            i = i + 1;
        }
        out
    }

    /// The names offered in the tool schema.
    pub open spec fn offered_names(self) -> Seq<Seq<char>> {
        offered_upto(
            self.algorithms.keys(),
            self.algorithms.values(),
            self.algorithms.keys().len() as int,
        )
    }

    /// Every name, measured or not, in dictionary order.
    pub fn names(&self) -> (r: Vec<&str>)
        ensures
            slices(r@) == self.algorithms.keys(),
            increasing(slices(r@)),
    {
        let n = self.algorithms.len();
        let mut out: Vec<&str> = Vec::new();
        let mut i: usize = 0;
        assert(slices(out@) =~= self.algorithms.keys().take(0));
        while i < n
            invariant
                i <= n,
                n == self.algorithms.keys().len(),
                slices(out@) == self.algorithms.keys().take(i as int),
            decreases n - i,
        {
            let ghost before = slices(out@);
            out.push(self.algorithms.key(i).as_str());
            assert(slices(out@) =~= before.push(self.algorithms.keys()[i as int]));
            assert(slices(out@) =~= self.algorithms.keys().take(i + 1));
            i = i + 1;
        }
        assert(self.algorithms.keys().take(i as int) =~= self.algorithms.keys());
        out
    }
}

/// The measured ones among the first `n` algorithms, by name.
pub open spec fn offered_upto(names: Seq<Seq<char>>, algorithms: Seq<Algorithm>, n: int) -> Seq<
    Seq<char>,
>
    decreases n,
{
    if n <= 0 {
        Seq::empty()
    } else if algorithms[n - 1].fitted is Some {
        offered_upto(names, algorithms, n - 1).push(names[n - 1])
    } else {
        offered_upto(names, algorithms, n - 1)
    }
}

/// An algorithm is offered exactly when it was measured.
pub proof fn only_measured_algorithms_are_offered(
    names: Seq<Seq<char>>,
    algorithms: Seq<Algorithm>,
    n: int,
    i: int,
)
    requires
        0 <= i < n <= names.len(),
        names.no_duplicates(),
        names.len() == algorithms.len(),
    ensures
        offered_upto(names, algorithms, n).contains(names[i]) <==> algorithms[i].fitted is Some,
    decreases n,
{
    let s = offered_upto(names, algorithms, n - 1);
    offered_come_from_names(names, algorithms, n - 1);
    if i == n - 1 {
        if algorithms[i].fitted is Some {
            assert(s.push(names[i])[s.len() as int] == names[i]);
        } else if s.contains(names[i]) {
            let m = names.take(n - 1).index_of(names[i]);
            assert(names[m] == names[i]);
        }
    } else {
        only_measured_algorithms_are_offered(names, algorithms, n - 1, i);
        if algorithms[n - 1].fitted is Some {
            let t = s.push(names[n - 1]);
            if s.contains(names[i]) {
                let k = s.index_of(names[i]);
                assert(t[k] == names[i]);
            }
            if t.contains(names[i]) {
                let k = t.index_of(names[i]);
                assert(names[i] != names[n - 1]);
                assert(k < s.len());
                assert(s[k] == names[i]);
            }
        }
    }
}

proof fn offered_come_from_names(names: Seq<Seq<char>>, algorithms: Seq<Algorithm>, n: int)
    requires
        0 <= n <= names.len(),
    ensures
        forall|x: Seq<char>|
            offered_upto(names, algorithms, n).contains(x) ==> names.take(n).contains(x),
    decreases n,
{
    if n > 0 {
        offered_come_from_names(names, algorithms, n - 1);
        let s = offered_upto(names, algorithms, n - 1);
        let t = offered_upto(names, algorithms, n);
        assert forall|x: Seq<char>| t.contains(x) implies names.take(n).contains(x) by {
            let k = t.index_of(x);
            if k < s.len() {
                assert(s[k] == x);
                assert(s.contains(x));
                let m = names.take(n - 1).index_of(x);
                assert(names.take(n)[m] == x);
            } else {
                assert(names.take(n)[n - 1] == x);
            }
        }
    }
}

// ---------------------------------------------------------------------------
// Messages
// ---------------------------------------------------------------------------

/// A number below a hundred, in two digits.
pub open spec fn two_digits(n: nat) -> Seq<char> {
    if n < 10 {
        "0"@ + decimal(n)
    } else {
        decimal(n)
    }
}

/// What is said of a fault, with the number it is about written as `shown`.
pub open spec fn fault_text(f: FaultView, shown: Seq<char>) -> Seq<char> {
    match f {
        FaultView::NotFinite(_) => shown + " is not a finite number"@,
        FaultView::Negative(_) => shown + " is negative · see the note in source"@,
        FaultView::OutsideUnit(_) => shown
            + " is outside 0.0..=1.0 · it is a share of the query's content terms"@,
        FaultView::Empty => "declared but empty · omit it to use the five-term `factors` form"@,
        FaultView::Unnamed => "a factor with no name"@,
        FaultView::Twice(name) => "`"@ + name
            + "` declared twice · contributions are reported by name"@,
        FaultView::FactorWeight { factor, weight } => "`"@ + factor + "` has weight "@ + shown
            + " · must be finite and non-negative"@,
        FaultView::Variable { factor, variable } => "`"@ + factor + "` reads `"@ + variable
            + "`, which is neither a known column (regulation_type, article, chapter, about, body, body_len, year) nor prefixed `number:` / `text:` for an enrichment value"@,
        FaultView::Shape { factor, what, value } => "`"@ + factor + "` declares "@ + what + " = "@
            + shown + " · must be finite and positive"@,
    }
}

impl Fault {
    /// The number a fault is about, where it is about one.
    pub fn number(&self) -> (r: Option<Score>)
        ensures
            r == match self@ {
                FaultView::NotFinite(v) => Some(v),
                FaultView::Negative(v) => Some(v),
                FaultView::OutsideUnit(v) => Some(v),
                FaultView::FactorWeight { factor, weight } => Some(weight),
                FaultView::Shape { factor, what, value } => Some(value),
                _ => None,
            },
    {
        match self {
            Fault::NotFinite(v) => Some(*v),
            Fault::Negative(v) => Some(*v),
            Fault::OutsideUnit(v) => Some(*v),
            Fault::FactorWeight { factor: _, weight } => Some(*weight),
            Fault::Shape { factor: _, what: _, value } => Some(*value),
            _ => None,
        }
    }

    /// What is wrong, in words, with the number it is about written as `shown`.
    pub fn message(&self, shown: &str) -> (r: String)
        ensures
            r@ == fault_text(self@, shown@),
    {
        let mut out = String::new();
        match self {
            Fault::NotFinite(_) => {
                out = shown.to_owned();
                out.append(" is not a finite number");
            },
            Fault::Negative(_) => {
                out = shown.to_owned();
                out.append(" is negative · see the note in source");
            },
            Fault::OutsideUnit(_) => {
                out = shown.to_owned();
                out.append(" is outside 0.0..=1.0 · it is a share of the query's content terms");
            },
            Fault::Empty => {
                out = "declared but empty · omit it to use the five-term `factors` form".to_owned();
            },
            Fault::Unnamed => {
                out = "a factor with no name".to_owned();
            },
            Fault::Twice(name) => {
                out = "`".to_owned();
                out.append(name.as_str());
                out.append("` declared twice · contributions are reported by name");
            },
            Fault::FactorWeight { factor, weight: _ } => {
                out = "`".to_owned();
                out.append(factor.as_str());
                out.append("` has weight ");
                out.append(shown);
                out.append(" · must be finite and non-negative");
            },
            Fault::Variable { factor, variable } => {
                out = "`".to_owned();
                out.append(factor.as_str());
                out.append("` reads `");
                out.append(variable.as_str());
                out.append(
                    "`, which is neither a known column (regulation_type, article, chapter, about, body, body_len, year) nor prefixed `number:` / `text:` for an enrichment value",
                );
            },
            Fault::Shape { factor, what, value: _ } => {
                out = "`".to_owned();
                out.append(factor.as_str());
                out.append("` declares ");
                out.append(what);
                out.append(" = ");
                out.append(shown);
                out.append(" · must be finite and positive");
            },
        }
        out
    }
}

/// What is said of a refusal, with the number it is about written as `shown`.
pub open spec fn error_text(e: RegistryErrorView, shown: Seq<char>) -> Seq<char> {
    match e {
        RegistryErrorView::Malformed(m) => "algorithm registry did not parse · "@ + m,
        RegistryErrorView::MissingDefault =>
            "algorithm registry defines no `balanced` · it is the default for every request that names no profile, so the registry cannot serve without it"@,
        RegistryErrorView::BadName { name, why } => "algorithm name `"@ + name
            + "` is unusable · "@ + why,
        RegistryErrorView::PriorTooWide { name, bound_centi } => "algorithm `"@ + name
            + "` has a prior bound of "@ + decimal((bound_centi / 100) as nat) + "."@ + two_digits(
            (bound_centi % 100) as nat,
        )
            + "x, above the 2.00x the fit was constrained to · a prior wider than the pool's own relevance spread can reorder the pool on metadata alone (docs/SCORING.md §3, invariant 9)"@,
        RegistryErrorView::BadWeight { name, field, fault } => "algorithm `"@ + name + "` field `"@
            + field + "` · "@ + fault_text(fault, shown),
    }
}

impl RegistryError {
    /// The message for the operator, with the number it is about written as
    /// `shown`.
    pub fn message(&self, shown: &str) -> (r: String)
        ensures
            r@ == error_text(self@, shown@),
    {
        let mut out = String::new();
        match self {
            RegistryError::Malformed(m) => {
                out = "algorithm registry did not parse · ".to_owned();
                out.append(m.as_str());
            },
            RegistryError::MissingDefault => {
                out =
                    "algorithm registry defines no `balanced` · it is the default for every request that names no profile, so the registry cannot serve without it".to_owned();
            },
            RegistryError::BadName { name, why } => {
                out = "algorithm name `".to_owned();
                out.append(name.as_str());
                out.append("` is unusable · ");
                out.append(why);
            },
            RegistryError::PriorTooWide { name, bound_centi } => {
                out = "algorithm `".to_owned();
                out.append(name.as_str());
                out.append("` has a prior bound of ");
                let whole: u32 = *bound_centi / 100;
                let part: u32 = *bound_centi % 100;
                let whole_text = show(whole as u64);
                out.append(whole_text.as_str());
                out.append(".");
                let ghost head = out@;
                if part < 10 {
                    out.append("0");
                }
                let part_text = show(part as u64);
                out.append(part_text.as_str());
                assert(out@ =~= head + two_digits(part as nat));
                out.append(
                    "x, above the 2.00x the fit was constrained to · a prior wider than the pool's own relevance spread can reorder the pool on metadata alone (docs/SCORING.md §3, invariant 9)",
                );
            },
            RegistryError::BadWeight { name, field, fault } => {
                out = "algorithm `".to_owned();
                out.append(name.as_str());
                out.append("` field `");
                out.append(field);
                out.append("` · ");
                let tail = fault.message(shown);
                out.append(tail.as_str());
            },
        }
        out
    }
}

// ---------------------------------------------------------------------------
// What a registry that validates holds, and what it is refused for
// ---------------------------------------------------------------------------

/// A weight that can be used: a number from zero up, short of infinity.
pub open spec fn usable_weight(w: Score) -> bool {
    w.bits < 0x7f80_0000 || w.bits == 0x8000_0000
}

/// A share: a number from zero to one.
pub open spec fn usable_floor(w: Score) -> bool {
    w.bits <= 0x3f80_0000 || w.bits == 0x8000_0000
}

/// A shape parameter that can be used: a length of time or of text above zero
/// and short of infinity, or any finite bar.
pub open spec fn usable_shape(t: TransformSpec) -> bool {
    match t {
        TransformSpec::Saturate { at } => 0 < at.bits < 0x7f80_0000,
        TransformSpec::HalfLife { years } => 0 < years.bits < 0x7f80_0000,
        TransformSpec::AtLeast { min } => min.bits < 0x7f80_0000 || 0x8000_0000 <= min.bits
            < 0xff80_0000,
        _ => true,
    }
}

/// An algorithm passes exactly where its name is a schema token, its numbers
/// can be used in the form that runs, and its prior is not above two.
pub proof fn an_algorithm_passes_where_every_part_can_be_used(
    name: Seq<char>,
    a: Algorithm,
    b: PriorBound,
)
    ensures
        algorithm_fault(name, a, b) is None <==> {
            &&& name.len() > 0
            &&& forall|i: int|
                0 <= i < name.len() ==> 'a' <= #[trigger] name[i] <= 'z' || '0' <= name[i] <= '9'
                    || name[i] == '_'
            &&& usable_floor(a.factors.relevance_floor)
            &&& a.composition is None ==> usable_weight(a.factors.authority) && usable_weight(
                a.factors.structural,
            ) && usable_weight(a.factors.temporal) && usable_weight(a.factors.completeness)
                && usable_weight(a.factors.topical)
            &&& a.composition is Some ==> a.composition->0@.len() > 0 && forall|i: int|
                0 <= i < a.composition->0@.len() ==> usable_entry(
                    a.composition->0@,
                    #[trigger] a.composition->0@[i],
                    i,
                )
            &&& !(0x4000_0000 < b.bound.bits <= 0x7f80_0000)
        },
{
    if a.composition is Some {
        let e = a.composition->0@;
        let v = entry_views(e);
        assert forall|i: int| 0 <= i < e.len() implies (entry_fault(v, i) is None) == usable_entry(
            e,
            #[trigger] e[i],
            i,
        ) by {
            assert(v[i] == e[i]@);
            if named_before(v, i) {
                let k = choose|k: int| 0 <= k < i && (#[trigger] v[k]).name == v[i].name;
                assert(v[k] == e[k]@);
                assert(e[k].name@ == e[i].name@);
            } else {
                assert forall|k: int| 0 <= k < i implies (#[trigger] e[k]).name@ != e[i].name@ by {
                    assert(v[k] == e[k]@);
                }
            }
        }
        assert(v.len() == e.len());
        if entries_fault(v, 0) is None {
            assert forall|i: int| 0 <= i < e.len() implies usable_entry(e, #[trigger] e[i], i) by {
                no_entry_fault_from(v, 0, i);
            }
        } else {
            let i = the_first_bad_factor_is_refused(v, 0);
            assert(!usable_entry(e, e[i], i));
        }
    }
}

/// Whether the `i`-th factor of a list can be used: it has a name that no
/// earlier one has, a weight and a shape that can be used, and a variable that
/// is known.
pub open spec fn usable_entry(all: Seq<FactorEntry>, e: FactorEntry, i: int) -> bool {
    &&& trimmed(e.name@).len() > 0
    &&& forall|k: int| 0 <= k < i ==> (#[trigger] all[k]).name@ != e.name@
    &&& usable_weight(e.weight)
    &&& known_variable(trimmed(e.variable@))
    &&& usable_shape(e.transform)
}

/// The fault of a list of factors is that of the first one that has a fault.
pub proof fn the_first_bad_factor_is_refused(v: Seq<FactorEntryView>, from: int) -> (i: int)
    requires
        0 <= from,
        entries_fault(v, from) is Some,
    ensures
        from <= i < v.len(),
        entries_fault(v, from) == entry_fault(v, i),
        entry_fault(v, i) is Some,
        forall|k: int| from <= k < i ==> #[trigger] entry_fault(v, k) is None,
    decreases v.len() - from,
{
    if entry_fault(v, from) is Some {
        from
    } else {
        the_first_bad_factor_is_refused(v, from + 1)
    }
}

/// A registry is refused for a missing default, or else for the first of its
/// algorithms, in dictionary order, that does not pass.
pub proof fn the_first_bad_algorithm_is_refused(r: Registry, bounds: Seq<PriorBound>) -> (i: int)
    requires
        registry_fault(r, bounds) is Some,
    ensures
        registry_fault(r, bounds)->0 is MissingDefault <==> !r.algorithms.has("balanced"@),
        r.algorithms.has("balanced"@) ==> {
            &&& 0 <= i < r.algorithms.keys().len()
            &&& registry_fault(r, bounds) == algorithm_fault(
                r.algorithms.keys()[i],
                r.algorithms.values()[i],
                bounds[i],
            )
            &&& forall|k: int|
                0 <= k < i ==> algorithm_fault(
                    #[trigger] r.algorithms.keys()[k],
                    r.algorithms.values()[k],
                    bounds[k],
                ) is None
        },
{
    if r.algorithms.has("balanced"@) {
        first_bad(r.algorithms.keys(), r.algorithms.values(), bounds, 0)
    } else {
        0
    }
}

proof fn first_bad(
    names: Seq<Seq<char>>,
    algorithms: Seq<Algorithm>,
    bounds: Seq<PriorBound>,
    from: int,
) -> (i: int)
    requires
        0 <= from,
        algorithms_fault(names, algorithms, bounds, from) is Some,
    ensures
        from <= i < names.len(),
        algorithms_fault(names, algorithms, bounds, from) == algorithm_fault(
            names[i],
            algorithms[i],
            bounds[i],
        ),
        algorithm_fault(names[i], algorithms[i], bounds[i]) is Some,
        forall|k: int|
            from <= k < i ==> algorithm_fault(#[trigger] names[k], algorithms[k], bounds[k]) is None,
    decreases names.len() - from,
{
    if algorithm_fault(names[from], algorithms[from], bounds[from]) is Some {
        from
    } else {
        first_bad(names, algorithms, bounds, from + 1)
    }
}

/// A refusal names the algorithm, and the reason is one that holds: a name that
/// is no token, a bound above two, or a field that cannot be used.
pub proof fn a_refusal_names_what_is_wrong(name: Seq<char>, a: Algorithm, b: PriorBound)
    requires
        algorithm_fault(name, a, b) is Some,
    ensures
        match algorithm_fault(name, a, b)->0 {
            RegistryErrorView::BadName { name: n, why } => {
                &&& n == name
                &&& (why == "empty"@ && name.len() == 0) || (why
                    == "only lowercase ascii, digits and `_` · it appears verbatim in the tool schema"@
                    && name.len() > 0 && exists|i: int|
                    0 <= i < name.len() && !('a' <= #[trigger] name[i] <= 'z' || '0' <= name[i]
                        <= '9' || name[i] == '_'))
            },
            RegistryErrorView::PriorTooWide { name: n, bound_centi } => n == name && bound_centi
                == b.centi && 0x4000_0000 < b.bound.bits <= 0x7f80_0000,
            RegistryErrorView::BadWeight { name: n, field, fault } => {
                &&& n == name
                &&& match fault {
                    FaultView::NotFinite(v) => !v.finite() && is_weight_at(a.factors, field, v),
                    FaultView::Negative(v) => v.finite() && !usable_weight(v) && is_weight_at(
                        a.factors,
                        field,
                        v,
                    ),
                    FaultView::OutsideUnit(v) => field == "relevance_floor"@ && v
                        == a.factors.relevance_floor && !usable_floor(v),
                    _ => a.composition is Some && field == "composition"@,
                }
            },
            _ => false,
        },
{
    if a.composition is Some {
        let v = entry_views(a.composition->0@);
        if entries_fault(v, 0) is Some {
            let i = the_first_bad_factor_is_refused(v, 0);
        }
    }
}

/// Whether a field of the five-term form holds this weight.
pub open spec fn is_weight_at(w: FactorWeights, field: Seq<char>, v: Score) -> bool {
    ||| field == "authority"@ && v == w.authority
    ||| field == "structural"@ && v == w.structural
    ||| field == "temporal"@ && v == w.temporal
    ||| field == "completeness"@ && v == w.completeness
    ||| field == "topical"@ && v == w.topical
}

/// A factor's fault is one that it has.
pub proof fn a_fault_is_the_factors_own(v: Seq<FactorEntryView>, i: int)
    requires
        0 <= i < v.len(),
        entry_fault(v, i) is Some,
    ensures
        match entry_fault(v, i)->0 {
            FaultView::Unnamed => trimmed(v[i].name).len() == 0,
            FaultView::Twice(name) => name == v[i].name && exists|k: int|
                0 <= k < i && (#[trigger] v[k]).name == name,
            FaultView::FactorWeight { factor, weight } => factor == v[i].name && weight
                == v[i].weight && !usable_weight(weight),
            FaultView::Variable { factor, variable } => factor == v[i].name && variable == trimmed(
                v[i].variable,
            ) && !known_variable(variable),
            FaultView::Shape { factor, what, value } => factor == v[i].name && !usable_shape(
                v[i].transform,
            ) && ((what == "saturate.at"@ && v[i].transform == TransformSpec::Saturate {
                at: value,
            }) || (what == "half_life.years"@ && v[i].transform == TransformSpec::HalfLife {
                years: value,
            }) || (what == "at_least.min"@ && v[i].transform == TransformSpec::AtLeast {
                min: value,
            })),
            _ => false,
        },
{
}

/// The names that are offered are those of the measured algorithms, all of
/// them, in the order of the names.
pub proof fn every_measured_algorithm_is_offered(
    names: Seq<Seq<char>>,
    algorithms: Seq<Algorithm>,
    n: int,
) -> (q: Seq<int>)
    requires
        0 <= n <= names.len(),
        names.len() == algorithms.len(),
    ensures
        picks(q, n, |i: int| algorithms[i].fitted is Some),
        offered_upto(names, algorithms, n).len() == q.len(),
        forall|k: int|
            0 <= k < q.len() ==> offered_upto(names, algorithms, n)[k] == names[#[trigger] q[k]],
    decreases n,
{
    if n <= 0 {
        Seq::empty()
    } else {
        let q = every_measured_algorithm_is_offered(names, algorithms, n - 1);
        picks_one_more(q, n - 1, |i: int| algorithms[i].fitted is Some)
    }
}

/// The weights that bound a prior are those of the form that runs.
pub proof fn a_prior_is_bounded_by_the_form_that_runs(a: Algorithm)
    ensures
        a.composition is Some ==> a.weights().len() == a.composition->0@.len() && forall|i: int|
            0 <= i < a.composition->0@.len() ==> a.weights()[i] == (
            #[trigger] a.composition->0@[i]).weight,
        a.composition is None ==> a.weights() == seq![
            a.factors.authority,
            a.factors.structural,
            a.factors.temporal,
            a.factors.completeness,
            a.factors.topical,
        ],
{
}

/// A known variable is a column, or a key of at least one character behind its
/// prefix.
pub proof fn a_known_variable_is_a_column_or_a_key(v: Seq<char>, key: Seq<char>)
    ensures
        known_variable("number:"@ + key) <==> key.len() > 0,
        known_variable("text:"@ + key) <==> key.len() > 0,
        v == "regulation_type"@ || v == "article"@ || v == "chapter"@ || v == "about"@ || v
            == "body"@ || v == "body_len"@ || v == "year"@ ==> known_variable(v),
{
    let c = columns();
    reveal_strlit("number:");
    reveal_strlit("text:");
    reveal_strlit("regulation_type");
    reveal_strlit("article");
    reveal_strlit("chapter");
    reveal_strlit("about");
    reveal_strlit("body");
    reveal_strlit("body_len");
    reveal_strlit("year");
    assert(("number:"@ + key).take(7) =~= "number:"@);
    assert(("text:"@ + key).take(5) =~= "text:"@);
    assert(c[0] == "regulation_type"@ && c[1] == "article"@ && c[2] == "chapter"@ && c[3]
        == "about"@ && c[4] == "body"@ && c[5] == "body_len"@ && c[6] == "year"@);
    let a = "number:"@ + key;
    let b = "text:"@ + key;
    if key.len() == 0 {
        assert(a[6] == ':' && a.len() == 7);
        assert(b[4] == ':' && b.len() == 5);
        assert(a[0] == 'n');
        assert(b[0] == 't');
    }
}

/// A number of hundredths is written with two digits.
pub proof fn hundredths_are_written_with_two_digits(n: nat)
    requires
        n < 100,
    ensures
        two_digits(n).len() == 2,
        two_digits(n)[0] as u32 == '0' as u32 + n / 10,
        two_digits(n)[1] as u32 == '0' as u32 + n % 10,
{
    reveal_strlit("0");
    reveal_with_fuel(decimal, 2);
    if n < 10 {
        assert(decimal(n) =~= seq![digit_char(n)]);
    } else {
        assert(decimal(n / 10) =~= seq![digit_char(n / 10)]);
        assert(decimal(n) =~= seq![digit_char(n / 10), digit_char(n % 10)]);
    }
}

/// A bound that is too wide is told with its algorithm and its value, in whole
/// numbers and hundredths.
pub proof fn a_wide_prior_is_told_with_its_value(name: Seq<char>, bound_centi: u32, shown: Seq<char>)
    ensures
        has_prefix(
            error_text(RegistryErrorView::PriorTooWide { name, bound_centi }, shown),
            "algorithm `"@ + name + "` has a prior bound of "@ + decimal((bound_centi / 100) as nat)
                + "."@ + two_digits((bound_centi % 100) as nat),
        ),
{
    let x = "algorithm `"@ + name + "` has a prior bound of "@ + decimal((bound_centi / 100) as nat)
        + "."@ + two_digits((bound_centi % 100) as nat);
    let e = error_text(RegistryErrorView::PriorTooWide { name, bound_centi }, shown);
    assert(e.take(x.len() as int) =~= x);
}

} // verus!
