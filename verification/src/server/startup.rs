//! Deciding at startup whether to serve at all.

use vstd::prelude::*;
use vstd::string::*;

use crate::contract::algorithms::Registry;
use crate::engine::factors::{missing_factors, Vocabulary};
use crate::order::{picks, picks_one_more};
use crate::score::Score;
use crate::server::config::{engine_weights, weights_from_contract};
use crate::server::scoring::{known_upto, unsupplied, vain_upto};
use crate::store::meta::{store_error_text, width_of, CorpusMeta, StoreError};
use crate::text::{join, joined, list_contains, slices, texts};

verus! {

/// Why the engine would not start.
#[derive(Debug, PartialEq)]
pub enum StartupError {
    Store(StoreError),
    /// The corpus declares something this engine cannot score with.
    CorpusVocabulary { why: String },
    /// A weight asks for a factor the live vocabulary has no table for.
    FactorWithoutVocabulary {
        algorithms: String,
        factors: String,
        plural: &'static str,
        from_where: &'static str,
    },
}

/// What is said of a refusal to start.
pub open spec fn startup_error_text(e: StartupError, got: Seq<char>, want: Seq<char>) -> Seq<char> {
    match e {
        StartupError::Store(inner) => store_error_text(inner, got, want),
        StartupError::CorpusVocabulary { why } =>
            "the corpus declares a scoring vocabulary this engine cannot use · "@ + why@
                + " · it was written by Ravel from its profile, so the profile is where to fix it"@,
        StartupError::FactorWithoutVocabulary { algorithms, factors, plural, from_where } =>
            "algorithm(s) "@ + algorithms@ + " weight "@ + factors@
                + ", but the scoring vocabulary in use ("@ + from_where@
                + ") declares no table for "@ + plural@
                + " · every candidate would score 0.0 and the weight would do nothing at all. Either set those weights to 0, or declare the table -- in the corpus profile if Ravel built this corpus, otherwise in VOCABULARY_PATH"@,
    }
}

impl StartupError {
    /// The message for the operator, with the numbers a store error is about
    /// written as `got` and `want`.
    pub fn message(&self, got: &str, want: &str) -> (r: String)
        ensures
            r@ == startup_error_text(*self, got@, want@),
    {
        match self {
            StartupError::Store(inner) => inner.message(got, want),
            StartupError::CorpusVocabulary { why } => {
                let mut out =
                    "the corpus declares a scoring vocabulary this engine cannot use · ".to_owned();
                out.append(why.as_str());
                out.append(
                    " · it was written by Ravel from its profile, so the profile is where to fix it",
                );
                out
            },
            StartupError::FactorWithoutVocabulary { algorithms, factors, plural, from_where } => {
                let mut out = "algorithm(s) ".to_owned();
                out.append(algorithms.as_str());
                out.append(" weight ");
                out.append(factors.as_str());
                out.append(", but the scoring vocabulary in use (");
                out.append(from_where);
                out.append(") declares no table for ");
                out.append(plural);
                out.append(
                    " · every candidate would score 0.0 and the weight would do nothing at all. Either set those weights to 0, or declare the table -- in the corpus profile if Ravel built this corpus, otherwise in VOCABULARY_PATH",
                );
                out
            },
        }
    }
}

/// Where the vocabulary in use comes from. The corpus decides where it declares
/// one; a file is consulted only where it does not.
pub fn vocabulary_source(builtin: bool, declared: bool) -> (r: &'static str)
    ensures
        r@ == if declared {
            "corpus_meta (declared by the corpus)"@
        } else if builtin {
            "built-in id_regulation"@
        } else {
            "VOCABULARY_PATH"@
        },
{
    if declared {
        "corpus_meta (declared by the corpus)"
    } else if builtin {
        "built-in id_regulation"
    } else {
        "VOCABULARY_PATH"
    }
}

/// The factors that the `i`-th algorithm weights and the vocabulary has no
/// table for.
pub open spec fn missing_in(v: Vocabulary, registry: Registry, i: int) -> Seq<Seq<char>> {
    let algorithm = registry.algorithms.values()[i];
    match algorithm.composition {
        Some(entries) => {
            let known = known_upto(entries@, entries@.len() as int);
            vain_upto(known, v, known.len() as int)
        },
        None => missing_factors(v, engine_weights(algorithm.factors)),
    }
}

/// The factors that an algorithm weights in vain. What is held against the
/// vocabulary is the form that ranks.
fn missing_of(v: &Vocabulary, registry: &Registry, i: usize) -> (r: Vec<String>)
    requires
        i < registry.algorithms.keys().len(),
    ensures
        texts(r@) == missing_in(*v, *registry, i as int),
{
    let algorithm = registry.algorithms.value(i);
    match &algorithm.composition {
        Some(entries) => unsupplied(entries, v),
        None => {
            let weights = weights_from_contract(&algorithm.factors);
            let names = v.missing_for(&weights);
            let mut out: Vec<String> = Vec::new();
            let mut k: usize = 0;
            while k < names.len()
                invariant
                    k <= names@.len(),
                    texts(out@) == slices(names@).take(k as int),
                decreases names@.len() - k,
            {
                let ghost before = texts(out@);
                out.push(names[k].to_owned());
                assert(texts(out@) =~= before.push(slices(names@)[k as int]));
                assert(texts(out@) =~= slices(names@).take(k + 1));
                k = k + 1;
            }
            assert(slices(names@).take(k as int) =~= slices(names@));
            out
        },
    }
}

/// The names of the first `n` algorithms that lean on a factor without a table.
pub open spec fn blamed_upto(v: Vocabulary, registry: Registry, n: int) -> Seq<Seq<char>>
    decreases n,
{
    if n <= 0 {
        Seq::empty()
    } else if missing_in(v, registry, n - 1).len() > 0 {
        blamed_upto(v, registry, n - 1).push(registry.algorithms.keys()[n - 1])
    } else {
        blamed_upto(v, registry, n - 1)
    }
}

/// A list with the first `n` names added, each only where it is not there yet.
pub open spec fn with_names(list: Seq<Seq<char>>, names: Seq<Seq<char>>, n: int) -> Seq<Seq<char>>
    decreases n,
{
    if n <= 0 {
        list
    } else {
        let before = with_names(list, names, n - 1);
        if before.contains(names[n - 1]) {
            before
        } else {
            before.push(names[n - 1])
        }
    }
}

/// The factors without a table that the first `n` algorithms lean on, each
/// once.
pub open spec fn unusable_upto(v: Vocabulary, registry: Registry, n: int) -> Seq<Seq<char>>
    decreases n,
{
    if n <= 0 {
        Seq::empty()
    } else {
        let names = missing_in(v, registry, n - 1);
        with_names(unusable_upto(v, registry, n - 1), names, names.len() as int)
    }
}

/// Names, each between back quotes.
pub open spec fn ticked(names: Seq<Seq<char>>) -> Seq<Seq<char>> {
    names.map_values(|s: Seq<char>| "`"@ + s + "`"@)
}

fn tick_all(names: &Vec<String>) -> (r: String)
    ensures
        r@ == joined(ticked(texts(names@)), ", "@),
{
    let mut out: Vec<String> = Vec::new();
    let mut i: usize = 0;
    while i < names.len()
        invariant
            i <= names@.len(),
            out@.len() == i,
            forall|k: int| 0 <= k < i ==> (#[trigger] out@[k])@ == "`"@ + names@[k]@ + "`"@,
        decreases names@.len() - i,
    {
        let mut s = "`".to_owned();
        s.append(names[i].as_str());
        s.append("`");
        out.push(s);
        i = i + 1;
    }
    assert(texts(out@) =~= ticked(texts(names@)));
    join(&out, ", ")
}

/// Refuses weights on factors that the vocabulary has no table for: such a
/// weight has no effect at all, and looks like one that was measured and found
/// not to help. The refusal names the algorithms as well as the factors.
pub fn check_factors(
    vocabulary: &Vocabulary,
    registry: &Registry,
    from_where: &'static str,
) -> (r: Result<(), StartupError>)
    ensures
        ({
            let n = registry.algorithms.keys().len() as int;
            let unusable = unusable_upto(*vocabulary, *registry, n);
            match r {
                Ok(_) => unusable.len() == 0,
                Err(
                    StartupError::FactorWithoutVocabulary {
                        algorithms,
                        factors,
                        plural,
                        from_where: named,
                    },
                ) => {
                    &&& unusable.len() > 0
                    &&& algorithms@ == joined(
                        ticked(blamed_upto(*vocabulary, *registry, n)),
                        ", "@,
                    )
                    &&& factors@ == joined(ticked(unusable), ", "@)
                    &&& plural@ == if unusable.len() == 1 {
                        "it"@
                    } else {
                        "them"@
                    }
                    &&& named == from_where
                },
                Err(_) => false,
            }
        }),
{
    let n = registry.algorithms.len();
    let mut unusable: Vec<String> = Vec::new();
    let mut blamed: Vec<String> = Vec::new();
    let mut i: usize = 0;
    assert(texts(unusable@) =~= Seq::<Seq<char>>::empty());
    assert(texts(blamed@) =~= Seq::<Seq<char>>::empty());
    while i < n
        invariant
            i <= n,
            n == registry.algorithms.keys().len(),
            texts(unusable@) == unusable_upto(*vocabulary, *registry, i as int),
            texts(blamed@) == blamed_upto(*vocabulary, *registry, i as int),
        decreases n - i,
    {
        let missing = missing_of(vocabulary, registry, i);
        let ghost names = missing_in(*vocabulary, *registry, i as int);
        assert(missing@.len() == texts(missing@).len());
        if missing.len() > 0 {
            let ghost before = texts(blamed@);
            blamed.push(registry.algorithms.key(i).clone());
            assert(texts(blamed@) =~= before.push(registry.algorithms.keys()[i as int]));
        }
        let mut k: usize = 0;
        while k < missing.len()
            invariant
                k <= missing@.len(),
                texts(missing@) == names,
                texts(unusable@) == with_names(
                    unusable_upto(*vocabulary, *registry, i as int),
                    names,
                    k as int,
                ),
            decreases missing@.len() - k,
        {
            assert(names[k as int] == missing@[k as int]@);
            let ghost before = texts(unusable@);
            if !list_contains(&unusable, missing[k].as_str()) {
                unusable.push(missing[k].clone());
                assert(texts(unusable@) =~= before.push(names[k as int]));
            }
            k = k + 1;
        }
        i = i + 1;
    }
    assert(texts(unusable@).len() == unusable@.len());
    if unusable.len() == 0 {
        return Ok(());
    }
    Err(
        StartupError::FactorWithoutVocabulary {
            algorithms: tick_all(&blamed),
            factors: tick_all(&unusable),
            plural: if unusable.len() == 1 {
                "it"
            } else {
                "them"
            },
            from_where,
        },
    )
}

/// Refuses a corpus that was not built with this model, or whose width is
/// negative.
pub fn check_model(meta: &CorpusMeta, model: &str) -> (r: Result<(), StoreError>)
    ensures
        r is Ok == (meta.dense_model@ == model@ && meta.dense_dim >= 0),
        match r {
            Ok(_) => true,
            Err(
                StoreError::CorpusMismatch { corpus_model, corpus_dim, engine_model, engine_dim },
            ) => corpus_model == meta.dense_model && corpus_dim == meta.dense_dim && engine_model@
                == model@ && engine_dim == width_of(meta.dense_dim),
            Err(_) => false,
        },
{
    meta.ensure_compatible(model, meta.width())
}

/// The canary: a chunk's own text, embedded once more, has to land where
/// ingestion put it. `got` is the cosine of the two vectors.
pub fn check_canary(chunk_id: String, got: Score, want: Score) -> (r: Result<(), StoreError>)
    ensures
        r == if got.lt_spec(want) {
            Err::<(), StoreError>(StoreError::CanaryFailed { chunk_id, got, want })
        } else {
            Ok(())
        },
{
    if got.lt(want) {
        return Err(StoreError::CanaryFailed { chunk_id, got, want });
    }
    Ok(())
}

/// The refusal where the canary could not be embedded at all: serving without
/// having verified the space is what the canary exists to prevent.
pub fn canary_unverified(why: &str) -> (r: StoreError)
    ensures
        match r {
            StoreError::Pool(text) => text@
                == "canary embed failed · cannot verify the vector space: "@ + why@,
            _ => false,
        },
{
    let mut text = "canary embed failed · cannot verify the vector space: ".to_owned();
    text.append(why);
    StoreError::Pool(text)
}

/// Refuses a corpus that the tables cannot rank, that was not built with this
/// model, or whose width is negative. The tables come first: their refusal names what to change.
pub fn check_corpus(
    meta: &CorpusMeta,
    model: &str,
    vocabulary: &Vocabulary,
    registry: &Registry,
    from_where: &'static str,
) -> (r: Result<(), StartupError>)
    ensures
        ({
            let n = registry.algorithms.keys().len() as int;
            let unusable = unusable_upto(*vocabulary, *registry, n);
            match r {
                Ok(_) => unusable.len() == 0 && meta.dense_model@ == model@ && meta.dense_dim
                    >= 0,
                Err(
                    StartupError::FactorWithoutVocabulary {
                        algorithms,
                        factors,
                        plural,
                        from_where: named,
                    },
                ) => {
                    &&& unusable.len() > 0
                    &&& algorithms@ == joined(
                        ticked(blamed_upto(*vocabulary, *registry, n)),
                        ", "@,
                    )
                    &&& factors@ == joined(ticked(unusable), ", "@)
                    &&& plural@ == if unusable.len() == 1 {
                        "it"@
                    } else {
                        "them"@
                    }
                    &&& named == from_where
                },
                Err(
                    StartupError::Store(
                        StoreError::CorpusMismatch {
                            corpus_model,
                            corpus_dim,
                            engine_model,
                            engine_dim,
                        },
                    ),
                ) => {
                    &&& unusable.len() == 0
                    &&& meta.dense_model@ != model@ || meta.dense_dim < 0
                    &&& corpus_model == meta.dense_model
                    &&& corpus_dim == meta.dense_dim
                    &&& engine_model@ == model@
                    &&& engine_dim == width_of(meta.dense_dim)
                },
                Err(_) => false,
            }
        }),
{
    match check_factors(vocabulary, registry, from_where) {
        Ok(_) => {},
        Err(e) => {
            return Err(e);
        },
    }
    match check_model(meta, model) {
        Ok(_) => Ok(()),
        Err(e) => Err(StartupError::Store(e)),
    }
}

/// The canary, whatever became of embedding it: `embedded` holds the cosine of
/// the fresh and the stored vector, or why there is none.
pub fn check_round_trip(
    chunk_id: String,
    embedded: Result<Score, String>,
    want: Score,
) -> (r: Result<(), StoreError>)
    ensures
        match embedded {
            Ok(got) => r == if got.lt_spec(want) {
                Err::<(), StoreError>(StoreError::CanaryFailed { chunk_id, got, want })
            } else {
                Ok(())
            },
            Err(why) => match r {
                Err(StoreError::Pool(text)) => text@
                    == "canary embed failed · cannot verify the vector space: "@ + why@,
                _ => false,
            },
        },
{
    match embedded {
        Ok(got) => check_canary(chunk_id, got, want),
        Err(why) => Err(canary_unverified(why.as_str())),
    }
}

/// What is embedded for a query: the corpus says which instruction it was
/// built under, if any.
pub open spec fn embedded_text(instruction: Option<&str>, query: Seq<char>) -> Seq<char> {
    match instruction {
        Some(prefix) => prefix@ + query,
        None => query,
    }
}

/// What is embedded for a query.
pub fn query_text(instruction: Option<&str>, query: &str) -> (r: String)
    ensures
        r@ == embedded_text(instruction, query@),
{
    match instruction {
        Some(prefix) => {
            let mut out = prefix.to_owned();
            out.append(query);
            out
        },
        None => query.to_owned(),
    }
}

/// A vocabulary that passes has a table for every factor that any algorithm
/// weights.
pub proof fn a_served_weight_has_a_table(v: Vocabulary, registry: Registry, i: int)
    requires
        0 <= i < registry.algorithms.keys().len(),
        unusable_upto(v, registry, registry.algorithms.keys().len() as int).len() == 0,
    ensures
        missing_in(v, registry, i).len() == 0,
{
    unusable_grows(v, registry, i + 1, registry.algorithms.keys().len() as int);
    let names = missing_in(v, registry, i);
    if names.len() > 0 {
        let before = unusable_upto(v, registry, i);
        names_are_added(before, names, names.len() as int);
    }
}

proof fn names_are_added(list: Seq<Seq<char>>, names: Seq<Seq<char>>, n: int)
    requires
        0 <= n <= names.len(),
    ensures
        with_names(list, names, n).len() >= list.len(),
        n > 0 ==> with_names(list, names, n).len() > 0,
    decreases n,
{
    if n > 0 {
        names_are_added(list, names, n - 1);
    }
}

proof fn unusable_grows(v: Vocabulary, registry: Registry, i: int, n: int)
    requires
        0 <= i <= n,
    ensures
        unusable_upto(v, registry, i).len() <= unusable_upto(v, registry, n).len(),
    decreases n,
{
    if i < n {
        unusable_grows(v, registry, i, n - 1);
        let names = missing_in(v, registry, n - 1);
        names_are_added(unusable_upto(v, registry, n - 1), names, names.len() as int);
    }
}

// ---------------------------------------------------------------------------
// What a refusal to start names
// ---------------------------------------------------------------------------

/// Every algorithm that leans on a factor without a table is named, and no
/// other is, in dictionary order.
pub proof fn every_leaning_algorithm_is_blamed(v: Vocabulary, registry: Registry, n: int) -> (q: Seq<
    int,
>)
    requires
        0 <= n <= registry.algorithms.keys().len(),
    ensures
        picks(q, n, |i: int| missing_in(v, registry, i).len() > 0),
        blamed_upto(v, registry, n).len() == q.len(),
        forall|k: int|
            0 <= k < q.len() ==> blamed_upto(v, registry, n)[k] == registry.algorithms.keys()[
                #[trigger] q[k]],
    decreases n,
{
    if n <= 0 {
        Seq::empty()
    } else {
        let q = every_leaning_algorithm_is_blamed(v, registry, n - 1);
        picks_one_more(q, n - 1, |i: int| missing_in(v, registry, i).len() > 0)
    }
}

proof fn names_come_together(list: Seq<Seq<char>>, names: Seq<Seq<char>>, n: int)
    requires
        0 <= n <= names.len(),
        list.no_duplicates(),
    ensures
        with_names(list, names, n).no_duplicates(),
        forall|x: Seq<char>| #[trigger]
            with_names(list, names, n).contains(x) <==> list.contains(x) || names.take(n).contains(
                x,
            ),
    decreases n,
{
    if n > 0 {
        names_come_together(list, names, n - 1);
        let before = with_names(list, names, n - 1);
        let after = with_names(list, names, n);
        let a = names.take(n - 1);
        let b = names.take(n);
        assert forall|x: Seq<char>| #[trigger] after.contains(x) <==> list.contains(x) || b.contains(
            x,
        ) by {
            if before.contains(x) {
                let k = before.index_of(x);
                assert(after[k] == x);
            }
            if a.contains(x) {
                let k = a.index_of(x);
                assert(b[k] == x);
            }
            if x == names[n - 1] {
                assert(b[n - 1] == x);
                if !before.contains(x) {
                    assert(after[before.len() as int] == x);
                }
            }
            if after.contains(x) {
                let k = after.index_of(x);
                if k < before.len() {
                    assert(before[k] == x);
                }
            }
            if b.contains(x) {
                let k = b.index_of(x);
                if k < n - 1 {
                    assert(a[k] == x);
                }
            }
        }
    } else {
        assert(names.take(0) =~= Seq::<Seq<char>>::empty());
    }
}

/// The factors without a table are those that some algorithm weights in vain,
/// all of them, each once.
pub proof fn every_unusable_factor_is_named_once(v: Vocabulary, registry: Registry, n: int)
    requires
        0 <= n <= registry.algorithms.keys().len(),
    ensures
        unusable_upto(v, registry, n).no_duplicates(),
        forall|x: Seq<char>| #[trigger]
            unusable_upto(v, registry, n).contains(x) <==> exists|i: int|
                0 <= i < n && (#[trigger] missing_in(v, registry, i)).contains(x),
    decreases n,
{
    if n > 0 {
        every_unusable_factor_is_named_once(v, registry, n - 1);
        let before = unusable_upto(v, registry, n - 1);
        let names = missing_in(v, registry, n - 1);
        names_come_together(before, names, names.len() as int);
        assert(names.take(names.len() as int) =~= names);
        let after = unusable_upto(v, registry, n);
        assert forall|x: Seq<char>| #[trigger] after.contains(x) <==> exists|i: int|
            0 <= i < n && (#[trigger] missing_in(v, registry, i)).contains(x) by {
            assert(after.contains(x) <==> before.contains(x) || names.contains(x));
        }
    }
}

/// A name in a refusal stands between back quotes.
pub proof fn a_name_stands_between_back_quotes(names: Seq<Seq<char>>, i: int)
    requires
        0 <= i < names.len(),
    ensures
        ticked(names).len() == names.len(),
        ticked(names)[i].len() == names[i].len() + 2,
        ticked(names)[i][0] == '`',
        ticked(names)[i].last() == '`',
        ticked(names)[i].subrange(1, (names[i].len() + 1) as int) == names[i],
{
    reveal_strlit("`");
    assert(ticked(names)[i].subrange(1, (names[i].len() + 1) as int) =~= names[i]);
}

/// A query is embedded behind the instruction of the corpus, and as it stands
/// where there is none.
pub proof fn a_query_is_embedded_behind_its_instruction(prefix: &str, query: Seq<char>)
    ensures
        embedded_text(None, query) == query,
        embedded_text(Some(prefix), query).len() == prefix@.len() + query.len(),
        embedded_text(Some(prefix), query).take(prefix@.len() as int) == prefix@,
        embedded_text(Some(prefix), query).skip(prefix@.len() as int) == query,
{
    assert(embedded_text(Some(prefix), query).take(prefix@.len() as int) =~= prefix@);
    assert(embedded_text(Some(prefix), query).skip(prefix@.len() as int) =~= query);
}

} // verus!
