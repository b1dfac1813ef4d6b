//! The scoring function that ranks a request.
//!
//! On the wire a factor names what it reads; here it is held as what it reads.

use vstd::prelude::*;
use vstd::string::*;

use crate::contract::algorithms::{classic_entries, columns, entry_views, known_variable, FactorEntry, TransformSpec};
use crate::contract::options::FactorWeights;
use crate::engine::factors::{is_classic, missing_upto, Composition, FactorSpec, Transform, Variable, Vocabulary};
use crate::order::{picks, picks_one_more};
use crate::score::Score;
use crate::server::config::engine_weights;
use crate::text::{chars_of, has_prefix, is_space, same, slices, starts_with, string_of, texts, trim, trimmed};

verus! {

/// Whether a variable is what a name stands for.
pub open spec fn reads(v: Variable, name: Seq<char>) -> bool {
    match v {
        Variable::RegulationType => name == "regulation_type"@,
        Variable::Article => name == "article"@,
        Variable::Chapter => name == "chapter"@,
        Variable::About => name == "about"@,
        Variable::Body => name == "body"@,
        Variable::BodyLen => name == "body_len"@,
        Variable::Year => name == "year"@,
        Variable::Number(k) => k@.len() > 0 && name == "number:"@ + k@,
        Variable::Text(k) => k@.len() > 0 && name == "text:"@ + k@,
    }
}

proof fn column_is_known(name: Seq<char>, i: int)
    requires
        0 <= i < columns().len(),
        name == columns()[i],
    ensures
        known_variable(name),
{
    assert(columns().contains(name));
}

/// The variable that a name stands for, if it stands for one.
pub fn variable_of(name: &str) -> (r: Option<Variable>)
    ensures
        match r {
            Some(v) => reads(v, trimmed(name@)) && known_variable(trimmed(name@)),
            None => !known_variable(trimmed(name@)),
        },
{
    let bare = trim(name);
    let s = bare.as_str();
    proof {
        reveal_strlit("number:");
        reveal_strlit("text:");
    }
    if same(s, "regulation_type") {
        proof {
            column_is_known(s@, 0);
        }
        return Some(Variable::RegulationType);
    }
    if same(s, "article") {
        proof {
            column_is_known(s@, 1);
        }
        return Some(Variable::Article);
    }
    if same(s, "chapter") {
        proof {
            column_is_known(s@, 2);
        }
        return Some(Variable::Chapter);
    }
    if same(s, "about") {
        proof {
            column_is_known(s@, 3);
        }
        return Some(Variable::About);
    }
    if same(s, "body") {
        proof {
            column_is_known(s@, 4);
        }
        return Some(Variable::Body);
    }
    if same(s, "body_len") {
        proof {
            column_is_known(s@, 5);
        }
        return Some(Variable::BodyLen);
    }
    if same(s, "year") {
        proof {
            column_is_known(s@, 6);
        }
        return Some(Variable::Year);
    }
    let v = chars_of(s);
    let n = v.len();
    if n > 7 && starts_with(s, "number:") {
        let key = string_of(&v, 7, n);
        assert(s@ =~= "number:"@ + key@);
        return Some(Variable::Number(key));
    }
    if n > 5 && starts_with(s, "text:") {
        let key = string_of(&v, 5, n);
        assert(s@ =~= "text:"@ + key@);
        return Some(Variable::Text(key));
    }
    None
}

/// The shape that a declared one stands for.
pub open spec fn shape_of(t: TransformSpec) -> Transform {
    match t {
        TransformSpec::Authority => Transform::Authority,
        TransformSpec::StructuralLadder => Transform::StructuralLadder,
        TransformSpec::HalfLife { years } => Transform::HalfLife { years },
        TransformSpec::Range => Transform::Range,
        TransformSpec::Saturate { at } => Transform::Saturate { at },
        TransformSpec::MatchShare => Transform::MatchShare,
        TransformSpec::Present => Transform::Present,
        TransformSpec::AtLeast { min } => Transform::AtLeast { min },
    }
}

/// The shape that a declared one stands for.
pub fn transform_of(t: TransformSpec) -> (r: Transform)
    ensures
        r == shape_of(t),
{
    match t {
        TransformSpec::Authority => Transform::Authority,
        TransformSpec::StructuralLadder => Transform::StructuralLadder,
        TransformSpec::HalfLife { years } => Transform::HalfLife { years },
        TransformSpec::Range => Transform::Range,
        TransformSpec::Saturate { at } => Transform::Saturate { at },
        TransformSpec::MatchShare => Transform::MatchShare,
        TransformSpec::Present => Transform::Present,
        TransformSpec::AtLeast { min } => Transform::AtLeast { min },
    }
}

/// The entries among the first `n` whose variable is known. Another one would
/// read nothing on any row.
pub open spec fn known_upto(entries: Seq<FactorEntry>, n: int) -> Seq<FactorEntry>
    decreases n,
{
    if n <= 0 {
        Seq::empty()
    } else if known_variable(trimmed(entries[n - 1].variable@)) {
        known_upto(entries, n - 1).push(entries[n - 1])
    } else {
        known_upto(entries, n - 1)
    }
}

/// Whether a factor is what an entry declares.
pub open spec fn declares(e: FactorEntry, s: FactorSpec) -> bool {
    &&& s.name@ == e.name@
    &&& reads(s.variable, trimmed(e.variable@))
    &&& s.transform == shape_of(e.transform)
    &&& s.weight == e.weight
}

/// Whether factors are what entries declare, one for one.
pub open spec fn all_declared(entries: Seq<FactorEntry>, factors: Seq<FactorSpec>) -> bool {
    &&& factors.len() == entries.len()
    &&& forall|i: int| 0 <= i < entries.len() ==> declares(#[trigger] entries[i], factors[i])
}

/// Whether a composition is what entries declare, above a floor.
pub open spec fn is_declared(c: Composition, entries: Seq<FactorEntry>, floor: Score) -> bool {
    &&& c.relevance_floor == floor
    &&& all_declared(known_upto(entries, entries.len() as int), c.factors@)
}

/// The composition that entries declare, above a floor.
pub fn composition_of(entries: &Vec<FactorEntry>, floor: Score) -> (r: Composition)
    ensures
        is_declared(r, entries@, floor),
{
    let mut factors: Vec<FactorSpec> = Vec::new();
    let mut i: usize = 0;
    while i < entries.len()
        invariant
            i <= entries@.len(),
            all_declared(known_upto(entries@, i as int), factors@),
        decreases entries@.len() - i,
    {
        let e = &entries[i];
        let ghost known = known_upto(entries@, i as int);
        let ghost before = factors@;
        match variable_of(e.variable.as_str()) {
            Some(variable) => {
                let transform = transform_of(e.transform);
                factors.push(
                    FactorSpec { name: e.name.clone(), variable, transform, weight: e.weight },
                );
                assert forall|k: int| 0 <= k < known.len() + 1 implies declares(
                    #[trigger] known.push(*e)[k],
                    factors@[k],
                ) by {
                    if k < known.len() {
                        assert(known.push(*e)[k] == known[k]);
                        assert(factors@[k] == before[k]);
                    }
                }
            },
            None => {},
        }
        i = i + 1;
    }
    Composition { relevance_floor: floor, factors }
}

// ---------------------------------------------------------------------------
// What a composition asks of a corpus
// ---------------------------------------------------------------------------

/// Whether a name stands for an enrichment value.
pub open spec fn is_enrichment(name: Seq<char>) -> bool {
    (has_prefix(name, "number:"@) && name.len() > "number:"@.len()) || (has_prefix(
        name,
        "text:"@,
    ) && name.len() > "text:"@.len())
}

/// Whether an entry asks for something that cannot be supplied: a table that
/// the vocabulary does not have, or an enrichment value. Rows carry none.
pub open spec fn asks_in_vain(e: FactorEntry, v: Vocabulary) -> bool {
    &&& !e.weight.le_spec(Score { bits: 0 })
    &&& match e.transform {
        TransformSpec::Authority => v.authority@.len() == 0,
        TransformSpec::StructuralLadder => v.structural@.len() == 0,
        _ => is_enrichment(trimmed(e.variable@)),
    }
}

/// The names of the entries among the first `n` that ask in vain, each once.
pub open spec fn vain_upto(entries: Seq<FactorEntry>, v: Vocabulary, n: int) -> Seq<Seq<char>>
    decreases n,
{
    if n <= 0 {
        Seq::empty()
    } else {
        let before = vain_upto(entries, v, n - 1);
        let e = entries[n - 1];
        if asks_in_vain(e, v) && !before.contains(e.name@) {
            before.push(e.name@)
        } else {
            before
        }
    }
}

proof fn a_column_is_no_enrichment(name: Seq<char>)
    requires
        columns().contains(name),
    ensures
        !is_enrichment(name),
{
    reveal_strlit("regulation_type");
    reveal_strlit("article");
    reveal_strlit("chapter");
    reveal_strlit("about");
    reveal_strlit("body");
    reveal_strlit("body_len");
    reveal_strlit("year");
    reveal_strlit("number:");
    reveal_strlit("text:");
    let i = columns().index_of(name);
    assert(name == columns()[i]);
    if has_prefix(name, "number:"@) && name.len() > 7 {
        assert(name[6] == "number:"@[6]);
        assert(name[0] == "number:"@[0]);
    }
    if has_prefix(name, "text:"@) && name.len() > 5 {
        assert(name[4] == "text:"@[4]);
        assert(name[0] == "text:"@[0]);
    }
}

proof fn reading_tells_enrichment(v: Variable, name: Seq<char>)
    requires
        reads(v, name),
    ensures
        is_enrichment(name) == (v is Number || v is Text),
{
    reveal_strlit("number:");
    reveal_strlit("text:");
    match v {
        Variable::Number(k) => {
            assert(name.take(7) =~= "number:"@);
            assert(has_prefix(name, "number:"@));
        },
        Variable::Text(k) => {
            assert(name.take(5) =~= "text:"@);
            assert(has_prefix(name, "text:"@));
        },
        _ => {
            let i: int = match v {
                Variable::RegulationType => 0,
                Variable::Article => 1,
                Variable::Chapter => 2,
                Variable::About => 3,
                Variable::Body => 4,
                Variable::BodyLen => 5,
                _ => 6,
            };
            assert(columns()[i] == name);
            assert(columns().contains(name));
            a_column_is_no_enrichment(name);
        },
    }
}

proof fn missing_is_asked_in_vain(
    entries: Seq<FactorEntry>,
    factors: Seq<FactorSpec>,
    v: Vocabulary,
    n: int,
)
    requires
        all_declared(entries, factors),
        0 <= n <= entries.len(),
    ensures
        missing_upto(factors, v, Seq::empty(), n) == vain_upto(entries, v, n),
    decreases n,
{
    if n > 0 {
        missing_is_asked_in_vain(entries, factors, v, n - 1);
        assert(declares(entries[n - 1], factors[n - 1]));
        reading_tells_enrichment(factors[n - 1].variable, trimmed(entries[n - 1].variable@));
    }
}

/// The names of the factors that an algorithm's entries ask for in vain.
pub fn unsupplied(entries: &Vec<FactorEntry>, v: &Vocabulary) -> (r: Vec<String>)
    ensures
        ({
            let known = known_upto(entries@, entries@.len() as int);
            texts(r@) == vain_upto(known, *v, known.len() as int)
        }),
{
    let c = composition_of(entries, Score { bits: 0 });
    let nothing: Vec<String> = Vec::new();
    assert(texts(nothing@) =~= Seq::<Seq<char>>::empty());
    let names = c.missing_for(v, &nothing);
    proof {
        let known = known_upto(entries@, entries@.len() as int);
        missing_is_asked_in_vain(known, c.factors@, *v, known.len() as int);
    }
    let mut out: Vec<String> = Vec::new();
    let mut i: usize = 0;
    while i < names.len()
        invariant
            i <= names@.len(),
            texts(out@) == slices(names@).take(i as int),
        decreases names@.len() - i,
    {
        let ghost before = texts(out@);
        out.push(names[i].to_owned());
        assert(texts(out@) =~= before.push(slices(names@)[i as int]));
        assert(texts(out@) =~= slices(names@).take(i + 1));
        i = i + 1;
    }
    assert(slices(names@).take(i as int) =~= slices(names@));
    out
}

// ---------------------------------------------------------------------------
// The shorthand
// ---------------------------------------------------------------------------

proof fn columns_differ()
    ensures
        forall|i: int, j: int|
            0 <= i < j < columns().len() ==> #[trigger] columns()[i] != #[trigger] columns()[j],
{
    reveal_strlit("regulation_type");
    reveal_strlit("article");
    reveal_strlit("chapter");
    reveal_strlit("about");
    reveal_strlit("body");
    reveal_strlit("body_len");
    reveal_strlit("year");
    let c = columns();
    assert forall|i: int, j: int| 0 <= i < j < c.len() implies #[trigger] c[i] != #[trigger] c[j] by {
        if c[i].len() == c[j].len() {
            assert(c[i][0] != c[j][0]);
        }
    }
}

proof fn a_column_is_read_as_itself(v: Variable, i: int)
    requires
        0 <= i < columns().len(),
        reads(v, columns()[i]),
    ensures
        v == if i == 0 {
            Variable::RegulationType
        } else if i == 1 {
            Variable::Article
        } else if i == 2 {
            Variable::Chapter
        } else if i == 3 {
            Variable::About
        } else if i == 4 {
            Variable::Body
        } else if i == 5 {
            Variable::BodyLen
        } else {
            Variable::Year
        },
{
    columns_differ();
    reading_tells_enrichment(v, columns()[i]);
    assert(columns().contains(columns()[i]));
    a_column_is_no_enrichment(columns()[i]);
    let c = columns();
    assert(c[0] == "regulation_type"@ && c[1] == "article"@ && c[2] == "chapter"@ && c[3]
        == "about"@ && c[4] == "body"@ && c[5] == "body_len"@ && c[6] == "year"@);
}

proof fn a_column_stays_when_trimmed(i: int)
    requires
        0 <= i < columns().len(),
    ensures
        trimmed(columns()[i]) == columns()[i],
{
    reveal_strlit("regulation_type");
    reveal_strlit("article");
    reveal_strlit("chapter");
    reveal_strlit("about");
    reveal_strlit("body");
    reveal_strlit("body_len");
    reveal_strlit("year");
    let name = columns()[i];
    assert(!is_space(name[0]) && !is_space(name.last()));
}

/// Five weights, written out as entries and read back, are the five-term form
/// of those weights: one code path serves the shorthand and the general form.
pub proof fn the_shorthand_becomes_the_classic_composition(
    w: FactorWeights,
    entries: Seq<FactorEntry>,
    c: Composition,
)
    requires
        entry_views(entries) == classic_entries(w),
        is_declared(c, entries, w.relevance_floor),
    ensures
        is_classic(c, engine_weights(w)),
{
    let views = entry_views(entries);
    assert(views.len() == classic_entries(w).len());
    assert(entries.len() == 5);
    let places = seq![0int, 1, 5, 6, 3];
    assert forall|k: int| 0 <= k < 5 implies #[trigger] trimmed(entries[k].variable@)
        == columns()[places[k]] by {
        assert(views[k] == entries[k]@);
        a_column_stays_when_trimmed(places[k]);
    }
    assert forall|k: int| 0 <= k < 5 implies known_variable(
        #[trigger] trimmed(entries[k].variable@),
    ) by {
        column_is_known(columns()[places[k]], places[k]);
    }
    reveal_with_fuel(known_upto, 6);
    let known = known_upto(entries, 5);
    assert(known_variable(trimmed(entries[0].variable@)));
    assert(known_variable(trimmed(entries[1].variable@)));
    assert(known_variable(trimmed(entries[2].variable@)));
    assert(known_variable(trimmed(entries[3].variable@)));
    assert(known_variable(trimmed(entries[4].variable@)));
    assert(known =~= entries);
    assert forall|k: int| 0 <= k < 5 implies declares(entries[k], #[trigger] c.factors@[k])
        && reads(c.factors@[k].variable, columns()[places[k]]) by {
        assert(known[k] == entries[k]);
        assert(trimmed(entries[k].variable@) == columns()[places[k]]);
    }
    a_column_is_read_as_itself(c.factors@[0].variable, 0);
    a_column_is_read_as_itself(c.factors@[1].variable, 1);
    a_column_is_read_as_itself(c.factors@[2].variable, 5);
    a_column_is_read_as_itself(c.factors@[3].variable, 6);
    a_column_is_read_as_itself(c.factors@[4].variable, 3);
    assert(views[0] == entries[0]@);
    assert(views[1] == entries[1]@);
    assert(views[2] == entries[2]@);
    assert(views[3] == entries[3]@);
    assert(views[4] == entries[4]@);
}

// ---------------------------------------------------------------------------
// What declared factors satisfy
// ---------------------------------------------------------------------------

/// Every entry whose variable is known becomes a factor, and no other does.
/// `q` says which entry each factor comes from: they keep their order.
pub proof fn every_known_entry_becomes_a_factor(
    c: Composition,
    entries: Seq<FactorEntry>,
    floor: Score,
) -> (q: Seq<int>)
    requires
        is_declared(c, entries, floor),
    ensures
        c.relevance_floor == floor,
        picks(q, entries.len() as int, |i: int| known_variable(trimmed(entries[i].variable@))),
        c.factors@.len() == q.len(),
        forall|k: int|
            0 <= k < q.len() ==> {
                let e = entries[#[trigger] q[k]];
                let s = c.factors@[k];
                &&& s.name@ == e.name@
                &&& s.weight == e.weight
                &&& s.transform == shape_of(e.transform)
                &&& reads(s.variable, trimmed(e.variable@))
            },
{
    let q = known_places(entries, entries.len() as int);
    let known = known_upto(entries, entries.len() as int);
    assert forall|k: int| 0 <= k < q.len() implies declares(entries[#[trigger] q[k]], c.factors@[k]) by {
        assert(declares(known[k], c.factors@[k]));
    }
    q
}

proof fn known_places(entries: Seq<FactorEntry>, n: int) -> (q: Seq<int>)
    requires
        0 <= n <= entries.len(),
    ensures
        picks(q, n, |i: int| known_variable(trimmed(entries[i].variable@))),
        known_upto(entries, n).len() == q.len(),
        forall|k: int| 0 <= k < q.len() ==> known_upto(entries, n)[k] == entries[#[trigger] q[k]],
    decreases n,
{
    if n <= 0 {
        Seq::empty()
    } else {
        let q = known_places(entries, n - 1);
        picks_one_more(q, n - 1, |i: int| known_variable(trimmed(entries[i].variable@)))
    }
}

/// A name that can be read is that of a column, or a key behind `number:` or
/// `text:`, and it is read as one variable only.
pub proof fn a_name_is_read_as_one_variable(v: Variable, w: Variable, name: Seq<char>)
    requires
        reads(v, name),
        reads(w, name),
    ensures
        known_variable(name),
        v is Number ==> w is Number && v->Number_0@ == w->Number_0@ && name == "number:"@
            + v->Number_0@,
        v is Text ==> w is Text && v->Text_0@ == w->Text_0@ && name == "text:"@ + v->Text_0@,
        !(v is Number) && !(v is Text) ==> v == w,
{
    reading_tells_enrichment(v, name);
    reading_tells_enrichment(w, name);
    reveal_strlit("number:");
    reveal_strlit("text:");
    if v is Number || v is Text {
        if v is Number {
            assert(name[0] == 'n');
            assert(w is Number);
            assert(v->Number_0@ =~= name.skip(7));
            assert(w->Number_0@ =~= name.skip(7));
        } else {
            assert(name[0] == 't');
            assert(w is Text);
            assert(v->Text_0@ =~= name.skip(5));
            assert(w->Text_0@ =~= name.skip(5));
        }
    } else {
        let i: int = match v {
            Variable::RegulationType => 0,
            Variable::Article => 1,
            Variable::Chapter => 2,
            Variable::About => 3,
            Variable::Body => 4,
            Variable::BodyLen => 5,
            _ => 6,
        };
        assert(columns()[i] == name);
        column_is_known(name, i);
        a_column_is_read_as_itself(v, i);
        a_column_is_read_as_itself(w, i);
    }
}

/// Each column is read by its own name.
pub proof fn a_column_is_read_by_its_name(v: Variable)
    ensures
        reads(v, "regulation_type"@) <==> v is RegulationType,
        reads(v, "article"@) <==> v is Article,
        reads(v, "chapter"@) <==> v is Chapter,
        reads(v, "about"@) <==> v is About,
        reads(v, "body"@) <==> v is Body,
        reads(v, "body_len"@) <==> v is BodyLen,
        reads(v, "year"@) <==> v is Year,
{
    let c = columns();
    assert(c[0] == "regulation_type"@ && c[1] == "article"@ && c[2] == "chapter"@ && c[3]
        == "about"@ && c[4] == "body"@ && c[5] == "body_len"@ && c[6] == "year"@);
    assert forall|i: int| 0 <= i < 7 && reads(v, #[trigger] c[i]) implies !(v is Number) && !(
    v is Text) by {
        a_column_is_read_as_itself(v, i);
    }
    assert forall|i: int, w: Variable| 0 <= i < 7 && #[trigger] reads(w, c[i]) implies w == (if i
        == 0 {
        Variable::RegulationType
    } else if i == 1 {
        Variable::Article
    } else if i == 2 {
        Variable::Chapter
    } else if i == 3 {
        Variable::About
    } else if i == 4 {
        Variable::Body
    } else if i == 5 {
        Variable::BodyLen
    } else {
        Variable::Year
    }) by {
        a_column_is_read_as_itself(w, i);
    }
}

/// A declared shape keeps its parameter.
pub proof fn a_shape_keeps_its_parameter(t: TransformSpec)
    ensures
        t is Authority <==> shape_of(t) == Transform::Authority,
        t is StructuralLadder <==> shape_of(t) == Transform::StructuralLadder,
        t is Range <==> shape_of(t) == Transform::Range,
        t is MatchShare <==> shape_of(t) == Transform::MatchShare,
        t is Present <==> shape_of(t) == Transform::Present,
        t is HalfLife <==> shape_of(t) is HalfLife,
        t is HalfLife ==> shape_of(t)->years == t->years,
        t is Saturate <==> shape_of(t) is Saturate,
        t is Saturate ==> shape_of(t)->at == t->at,
        t is AtLeast <==> shape_of(t) is AtLeast,
        t is AtLeast ==> shape_of(t)->min == t->min,
{
}

/// What cannot be supplied is named, each name once: an entry above zero that
/// asks for a table of grades or of ladder rules where there is none, or for an
/// enrichment value.
pub proof fn what_cannot_be_supplied_is_named(entries: Seq<FactorEntry>, v: Vocabulary, n: int)
    requires
        0 <= n <= entries.len(),
    ensures
        vain_upto(entries, v, n).no_duplicates(),
        forall|name: Seq<char>| #[trigger]
            vain_upto(entries, v, n).contains(name) <==> exists|i: int|
                0 <= i < n && (#[trigger] entries[i]).name@ == name && !(entries[i].weight.le_spec(
                    Score { bits: 0 },
                )) && ((entries[i].transform is Authority && v.authority@.len() == 0) || (
                entries[i].transform is StructuralLadder && v.structural@.len() == 0) || (
                !(entries[i].transform is Authority) && !(entries[i].transform is StructuralLadder)
                    && is_enrichment(trimmed(entries[i].variable@)))),
    decreases n,
{
    if n > 0 {
        what_cannot_be_supplied_is_named(entries, v, n - 1);
        let before = vain_upto(entries, v, n - 1);
        let after = vain_upto(entries, v, n);
        let e = entries[n - 1];
        assert forall|name: Seq<char>| #[trigger] after.contains(name) <==> before.contains(name)
            || (name == e.name@ && asks_in_vain(e, v)) by {
            if before.contains(name) {
                let k = before.index_of(name);
                assert(after[k] == name);
            }
            if name == e.name@ && asks_in_vain(e, v) && !before.contains(name) {
                assert(after[before.len() as int] == name);
            }
            if after.contains(name) {
                let k = after.index_of(name);
                if k < before.len() {
                    assert(before[k] == name);
                }
            }
        }
    }
}

} // verus!
