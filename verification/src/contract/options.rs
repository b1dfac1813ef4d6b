//! Per-request search options: what the caller may steer.
//!
//! A caller may narrow a server limit, never widen it; everything that changed
//! the ranking is echoed back; and every field is optional, with the measured
//! default.

use vstd::prelude::*;
use vstd::string::*;

use crate::contract::algorithms::{classic_composition, classic_entries, copy_entries, entry_views, Algorithm, FactorEntry, Registry};
use crate::score::Score;
use crate::text::{decimal, join, joined, show, texts};

verus! {

/// Which retrieval arms run.
#[derive(Debug, Clone, Copy, PartialEq, Eq, Structural)]
pub enum Mode {
    /// All arms, fused. The measured default.
    Hybrid,
    /// Sparse and text arms only.
    Keyword,
    /// The dense arm alone.
    Semantic,
}

impl Default for Mode {
    fn default() -> (r: Mode)
        ensures
            r == Mode::Hybrid,
    {
        Mode::Hybrid
    }
}

impl Mode {
    /// Whether this mode is known to contribute nothing on the current corpus.
    /// Drives a hint on the response, not a refusal: the caller asked.
    pub fn is_measured_empty(self) -> (r: bool)
        ensures
            r == (self == Mode::Semantic),
    {
        match self {
            Mode::Semantic => true,
            _ => false,
        }
    }
}

/// Explicit factor weights.
#[derive(Debug, Clone, Copy, PartialEq)]
pub struct FactorWeights {
    /// Minimum share of the query's content terms a candidate must contain: a
    /// floor, not a weight.
    pub relevance_floor: Score,
    pub authority: Score,
    pub structural: Score,
    pub temporal: Score,
    pub completeness: Score,
    pub topical: Score,
}

/// Which neighbours may be pulled in beside what retrieval found.
#[derive(Debug, Clone, Copy, PartialEq, Eq, Structural)]
pub enum Expansion {
    /// Other chunks of the same regulation.
    Siblings,
}

/// What the caller asked for. `None` means the measured default.
#[derive(Debug, PartialEq)]
pub struct SearchOptions {
    pub mode: Option<Mode>,
    /// Results returned, narrowed to the server's ceiling.
    pub top_k: Option<usize>,
    /// Candidates ranked before the cut, narrowed to the server's ceiling and
    /// raised to the number of results.
    pub candidate_pool: Option<usize>,
    /// A name in the algorithm registry. An unknown one is an error.
    pub profile: Option<String>,
    pub factor_weights: Option<FactorWeights>,
    pub expand: Option<Vec<Expansion>>,
}

impl Default for SearchOptions {
    fn default() -> (r: SearchOptions)
        ensures
            r.mode is None,
            r.top_k is None,
            r.candidate_pool is None,
            r.profile is None,
            r.factor_weights is None,
            r.expand is None,
    {
        SearchOptions {
            mode: None,
            top_k: None,
            candidate_pool: None,
            profile: None,
            factor_weights: None,
            expand: None,
        }
    }
}

/// The server's ceilings: what a caller may narrow toward.
#[derive(Debug, Clone, Copy, PartialEq, Eq)]
pub struct Ceilings {
    pub top_k: usize,
    pub candidate_pool: usize,
}

/// What the engine actually used, echoed on every response.
#[derive(Debug, PartialEq)]
pub struct AppliedOptions {
    pub mode: Mode,
    pub top_k: usize,
    pub candidate_pool: usize,
    /// The registry name that ranked this request.
    pub profile: String,
    pub factor_weights: FactorWeights,
    /// The scoring function that actually ran.
    pub composition: Vec<FactorEntry>,
    pub expand: Vec<Expansion>,
    /// Set when the caller supplied raw weights, or named an algorithm that
    /// nobody measured.
    pub experimental: bool,
    /// Every place the request was narrowed or raised, in words.
    pub clamped: Vec<String>,
}

/// A request that cannot be served as written.
#[derive(Debug, PartialEq, Eq)]
pub enum ResolveError {
    /// The caller named an algorithm the registry does not define.
    UnknownProfile {
        asked: String,
        /// Every name the registry does define.
        available: Vec<String>,
    },
}

/// What is said of a request that cannot be served as written.
pub open spec fn resolve_error_text(e: ResolveError) -> Seq<char> {
    match e {
        ResolveError::UnknownProfile { asked, available } => "no algorithm named `"@ + asked@
            + "` · this engine serves: "@ + joined(texts(available@), ", "@),
    }
}

impl ResolveError {
    /// The message for the caller.
    pub fn message(&self) -> (r: String)
        ensures
            r@ == resolve_error_text(*self),
    {
        match self {
            ResolveError::UnknownProfile { asked, available } => {
                let mut out = "no algorithm named `".to_owned();
                out.append(asked.as_str());
                out.append("` · this engine serves: ");
                let names = join(available, ", ");
                out.append(names.as_str());
                out
            },
        }
    }
}

// ---------------------------------------------------------------------------
// What a request resolves to
// ---------------------------------------------------------------------------

/// How many results are returned.
pub open spec fn effective_top_k(asked: Option<usize>, ceiling: usize) -> usize {
    match asked {
        Some(n) => if n == 0 {
            1
        } else if n > ceiling {
            ceiling
        } else {
            n
        },
        None => ceiling,
    }
}

/// How many candidates the request itself settles on.
pub open spec fn narrowed_pool(asked: Option<usize>, ceiling: usize) -> usize {
    match asked {
        Some(n) => if n > ceiling {
            ceiling
        } else {
            n
        },
        None => ceiling,
    }
}

/// How many candidates are ranked: never fewer than are returned.
pub open spec fn effective_pool(
    asked: Option<usize>,
    asked_top_k: Option<usize>,
    ceilings: Ceilings,
) -> usize {
    let pool = narrowed_pool(asked, ceilings.candidate_pool);
    let top_k = effective_top_k(asked_top_k, ceilings.top_k);
    if pool < top_k {
        top_k
    } else {
        pool
    }
}

/// What is said of the number of results.
pub open spec fn top_k_notes(asked: Option<usize>, ceiling: usize) -> Seq<Seq<char>> {
    match asked {
        Some(n) => if n == 0 {
            seq!["top_k 0 raised to 1"@]
        } else if n > ceiling {
            seq![
                "top_k "@ + decimal(n as nat) + " narrowed to the server ceiling "@ + decimal(
                    ceiling as nat,
                ),
            ]
        } else {
            Seq::empty()
        },
        None => Seq::empty(),
    }
}

/// What is said where the caller asked for too many candidates.
pub open spec fn pool_notes(asked: Option<usize>, ceiling: usize) -> Seq<Seq<char>> {
    match asked {
        Some(n) => if n > ceiling {
            seq![
                "candidate_pool "@ + decimal(n as nat) + " narrowed to the server ceiling "@
                    + decimal(ceiling as nat),
            ]
        } else {
            Seq::empty()
        },
        None => Seq::empty(),
    }
}

/// What is said where the pool had to grow to the number of results.
pub open spec fn floor_notes(pool: usize, top_k: usize) -> Seq<Seq<char>> {
    if pool < top_k {
        seq![
            "candidate_pool "@ + decimal(pool as nat) + " raised to top_k "@ + decimal(
                top_k as nat,
            ),
        ]
    } else {
        Seq::empty()
    }
}

/// Everything that is said of a request's limits, in order.
pub open spec fn clamp_notes(options: SearchOptions, ceilings: Ceilings) -> Seq<Seq<char>> {
    top_k_notes(options.top_k, ceilings.top_k) + pool_notes(
        options.candidate_pool,
        ceilings.candidate_pool,
    ) + floor_notes(
        narrowed_pool(options.candidate_pool, ceilings.candidate_pool),
        effective_top_k(options.top_k, ceilings.top_k),
    )
}

/// The name of the algorithm that a request asks for.
pub open spec fn asked_profile(options: SearchOptions) -> Seq<char> {
    match options.profile {
        Some(name) => name@,
        None => "balanced"@,
    }
}

/// The expansions of an algorithm and of a request together, each once.
pub open spec fn all_expansions(own: Seq<Expansion>, asked: Option<Vec<Expansion>>) -> Seq<
    Expansion,
> {
    let more = match asked {
        Some(v) => v@,
        None => Seq::empty(),
    };
    if own.len() + more.len() > 0 {
        seq![Expansion::Siblings]
    } else {
        Seq::empty()
    }
}

/// What a request that names a known algorithm resolves to.
pub open spec fn resolves_to(
    options: SearchOptions,
    ceilings: Ceilings,
    algorithm: Algorithm,
    applied: AppliedOptions,
) -> bool {
    let weights = match options.factor_weights {
        Some(w) => w,
        None => algorithm.factors,
    };
    &&& applied.mode == match options.mode {
        Some(m) => m,
        None => Mode::Hybrid,
    }
    &&& applied.top_k == effective_top_k(options.top_k, ceilings.top_k)
    &&& applied.candidate_pool == effective_pool(options.candidate_pool, options.top_k, ceilings)
    &&& applied.profile@ == asked_profile(options)
    &&& applied.factor_weights == weights
    &&& entry_views(applied.composition@) == match (algorithm.composition, options.factor_weights) {
        (Some(entries), None) => entry_views(entries@),
        _ => classic_entries(weights),
    }
    &&& applied.expand@ == all_expansions(algorithm.expand@, options.expand)
    &&& applied.experimental == (options.factor_weights is Some || algorithm.fitted is None)
    &&& texts(applied.clamped@) == clamp_notes(options, ceilings)
}

fn push_note(notes: &mut Vec<String>, a: &str, n: usize, b: &str, m: usize)
    ensures
        texts(final(notes)@) == texts(old(notes)@).push(
            a@ + decimal(n as nat) + b@ + decimal(m as nat),
        ),
{
    let mut s = a.to_owned();
    let first = show(n as u64);
    s.append(first.as_str());
    s.append(b);
    let second = show(m as u64);
    s.append(second.as_str());
    notes.push(s);
    assert(texts(notes@) =~= texts(old(notes)@).push(
        a@ + decimal(n as nat) + b@ + decimal(m as nat),
    ));
}

impl SearchOptions {
    /// Resolves a request against the server's ceilings and its registry.
    ///
    /// Narrows only. A caller asking for more than the server allows gets the
    /// server's value and a line in `clamped` saying so. Naming an algorithm
    /// that the registry does not define is refused, with every name it does
    /// define.
    pub fn resolve(&self, ceilings: Ceilings, registry: &Registry) -> (r: Result<
        AppliedOptions,
        ResolveError,
    >)
        ensures
            r is Ok == registry.algorithms.has(asked_profile(*self)),
            match r {
                Ok(applied) => resolves_to(
                    *self,
                    ceilings,
                    registry.algorithms.at(asked_profile(*self)),
                    applied,
                ),
                Err(ResolveError::UnknownProfile { asked, available }) => {
                    &&& asked@ == asked_profile(*self)
                    &&& texts(available@) == registry.algorithms.keys()
                },
            },
    {
        let mut clamped: Vec<String> = Vec::new();
        assert(texts(clamped@) =~= Seq::empty());
        let top_k: usize = match self.top_k {
            Some(n) => if n == 0 {
                clamped.push("top_k 0 raised to 1".to_owned());
                1
            } else if n > ceilings.top_k {
                push_note(
                    &mut clamped,
                    "top_k ",
                    n,
                    " narrowed to the server ceiling ",
                    ceilings.top_k,
                );
                ceilings.top_k
            } else {
                n
            },
            None => ceilings.top_k,
        };
        assert(texts(clamped@) =~= top_k_notes(self.top_k, ceilings.top_k));

        let mut candidate_pool: usize = match self.candidate_pool {
            Some(n) => if n > ceilings.candidate_pool {
                push_note(
                    &mut clamped,
                    "candidate_pool ",
                    n,
                    " narrowed to the server ceiling ",
                    ceilings.candidate_pool,
                );
                ceilings.candidate_pool
            } else {
                n
            },
            None => ceilings.candidate_pool,
        };
        assert(texts(clamped@) =~= top_k_notes(self.top_k, ceilings.top_k) + pool_notes(
            self.candidate_pool,
            ceilings.candidate_pool,
        ));

        // Raised, not merely checked: a pool smaller than the answer would cap
        // the reply below what the caller asked for.
        if candidate_pool < top_k {
            push_note(&mut clamped, "candidate_pool ", candidate_pool, " raised to top_k ", top_k);
            candidate_pool = top_k;
        }
        assert(texts(clamped@) =~= clamp_notes(*self, ceilings));

        let name: String = match &self.profile {
            Some(p) => p.clone(),
            None => "balanced".to_owned(),
        };
        let found = registry.get(name.as_str());
        match found {
            None => {
                let names = registry.names();
                let mut available: Vec<String> = Vec::new();
                let mut i: usize = 0;
                while i < names.len()
                    invariant
                        i <= names@.len(),
                        texts(available@) == crate::text::slices(names@).take(i as int),
                    decreases names@.len() - i,
                {
                    let ghost before = texts(available@);
                    available.push(names[i].to_owned());
                    assert(texts(available@) =~= before.push(names@[i as int]@));
                    assert(crate::text::slices(names@).take(i + 1) =~= before.push(
                        names@[i as int]@,
                    ));
                    i = i + 1;
                }
                assert(crate::text::slices(names@).take(i as int) =~= crate::text::slices(names@));
                Err(ResolveError::UnknownProfile { asked: name, available })
            },
            Some(algo) => {
                // Raw weights win over the algorithm's, and say so. An unfitted
                // algorithm makes the same claim, so both raise the one flag.
                let experimental = self.factor_weights.is_some() || !algo.is_fitted();
                let factor_weights = match self.factor_weights {
                    Some(w) => w,
                    None => algo.factors,
                };
                let composition = match (&algo.composition, self.factor_weights) {
                    (Some(entries), None) => copy_entries(entries),
                    _ => classic_composition(&factor_weights),
                };
                // The algorithm's own expansions are a floor, not a
                // replacement.
                let mut wanted: usize = 0;
                if algo.expand.len() > 0 {
                    wanted = 1;
                }
                match &self.expand {
                    Some(v) => if v.len() > 0 {
                        wanted = 1;
                    },
                    None => {},
                }
                let mut expand: Vec<Expansion> = Vec::new();
                if wanted > 0 {
                    expand.push(Expansion::Siblings);
                }
                assert(expand@ =~= all_expansions(algo.expand@, self.expand));
                let mode = match self.mode {
                    Some(m) => m,
                    None => Mode::Hybrid,
                };
                Ok(
                    AppliedOptions {
                        mode,
                        top_k,
                        candidate_pool,
                        profile: name,
                        factor_weights,
                        composition,
                        expand,
                        experimental,
                        clamped,
                    },
                )
            },
        }
    }
}

/// A caller may narrow a limit and never widen one, on a server that returns at
/// least one result and ranks at least as many candidates as it returns.
pub proof fn limits_are_never_widened(
    options: SearchOptions,
    ceilings: Ceilings,
    algorithm: Algorithm,
    applied: AppliedOptions,
)
    requires
        resolves_to(options, ceilings, algorithm, applied),
        1 <= ceilings.top_k <= ceilings.candidate_pool,
    ensures
        1 <= applied.top_k <= ceilings.top_k,
        applied.top_k <= applied.candidate_pool <= ceilings.candidate_pool,
{
}

/// Nothing is changed in silence: a limit that is not the one the caller asked
/// for comes with a line saying so.
pub proof fn every_clamp_is_reported(
    options: SearchOptions,
    ceilings: Ceilings,
    algorithm: Algorithm,
    applied: AppliedOptions,
)
    requires
        resolves_to(options, ceilings, algorithm, applied),
    ensures
        options.top_k is Some && applied.top_k != options.top_k->0 ==> applied.clamped@.len() > 0,
        options.candidate_pool is Some && applied.candidate_pool != options.candidate_pool->0
            ==> applied.clamped@.len() > 0,
        applied.clamped@.len() == 0 ==> applied.candidate_pool >= applied.top_k,
{
    assert(texts(applied.clamped@).len() == applied.clamped@.len());
}

/// Asking for an expansion once or more often, or in addition to the
/// algorithm's own, admits it once; an algorithm's own expansions survive a
/// caller that passes none.
pub proof fn expansions_are_a_floor(
    options: SearchOptions,
    ceilings: Ceilings,
    algorithm: Algorithm,
    applied: AppliedOptions,
)
    requires
        resolves_to(options, ceilings, algorithm, applied),
    ensures
        applied.expand@.no_duplicates(),
        forall|e: Expansion|
            applied.expand@.contains(e) <==> algorithm.expand@.contains(e) || (options.expand is Some
                && options.expand->0@.contains(e)),
{
    assert forall|e: Expansion|
        applied.expand@.contains(e) <==> algorithm.expand@.contains(e) || (options.expand is Some
            && options.expand->0@.contains(e)) by {
        assert(e == Expansion::Siblings);
        if algorithm.expand@.len() > 0 {
            assert(algorithm.expand@[0] == e);
        }
        if options.expand is Some && options.expand->0@.len() > 0 {
            assert(options.expand->0@[0] == e);
        }
        if applied.expand@.len() > 0 {
            assert(applied.expand@[0] == e);
        }
    }
}

/// A number of results within the ceiling is kept as asked; one above it
/// becomes the ceiling, none at all becomes one, and a request that names none
/// gets the ceiling.
pub proof fn the_number_of_results_is_the_one_asked(
    options: SearchOptions,
    ceilings: Ceilings,
    algorithm: Algorithm,
    applied: AppliedOptions,
)
    requires
        resolves_to(options, ceilings, algorithm, applied),
    ensures
        options.top_k is None ==> applied.top_k == ceilings.top_k,
        options.top_k is Some && 1 <= options.top_k->0 <= ceilings.top_k ==> applied.top_k
            == options.top_k->0,
        options.top_k is Some && options.top_k->0 >= 1 && options.top_k->0 > ceilings.top_k
            ==> applied.top_k == ceilings.top_k,
        options.top_k == Some(0usize) ==> applied.top_k == 1,
{
}

/// A pool that is within the ceiling and no smaller than the number of results
/// is kept as asked; one above the ceiling becomes the ceiling, and one that is
/// smaller than the number of results becomes that number.
pub proof fn the_pool_is_the_one_asked(
    options: SearchOptions,
    ceilings: Ceilings,
    algorithm: Algorithm,
    applied: AppliedOptions,
)
    requires
        resolves_to(options, ceilings, algorithm, applied),
    ensures
        applied.top_k <= applied.candidate_pool,
        ceilings.candidate_pool < applied.top_k ==> applied.candidate_pool == applied.top_k,
        options.candidate_pool is None && applied.top_k <= ceilings.candidate_pool
            ==> applied.candidate_pool == ceilings.candidate_pool,
        options.candidate_pool is Some && applied.top_k <= options.candidate_pool->0
            <= ceilings.candidate_pool ==> applied.candidate_pool == options.candidate_pool->0,
        options.candidate_pool is Some && applied.top_k <= ceilings.candidate_pool
            < options.candidate_pool->0 ==> applied.candidate_pool == ceilings.candidate_pool,
        options.candidate_pool is Some && options.candidate_pool->0 < applied.top_k
            ==> applied.candidate_pool == applied.top_k,
{
}

/// A request is answered with the mode, the algorithm and the weights that it
/// names: by default both arms, the balanced algorithm, and that algorithm's
/// own weights and factors. Weights of the caller's own displace the declared
/// factors, and are experimental, as is an algorithm that was not fitted.
pub proof fn what_a_request_names_is_applied(
    options: SearchOptions,
    ceilings: Ceilings,
    algorithm: Algorithm,
    applied: AppliedOptions,
)
    requires
        resolves_to(options, ceilings, algorithm, applied),
    ensures
        options.mode is Some ==> applied.mode == options.mode->0,
        options.mode is None ==> applied.mode == Mode::Hybrid,
        options.profile is Some ==> applied.profile@ == options.profile->0@,
        options.profile is None ==> applied.profile@ == "balanced"@,
        options.factor_weights is Some ==> applied.factor_weights == options.factor_weights->0
            && entry_views(applied.composition@) == classic_entries(options.factor_weights->0)
            && applied.experimental,
        options.factor_weights is None ==> applied.factor_weights == algorithm.factors
            && applied.experimental == (algorithm.fitted is None),
        options.factor_weights is None && algorithm.composition is Some ==> entry_views(
            applied.composition@,
        ) == entry_views(algorithm.composition->0@),
        options.factor_weights is None && algorithm.composition is None ==> entry_views(
            applied.composition@,
        ) == classic_entries(algorithm.factors),
{
}

/// A line about a limit names what was asked for and what was used, and there
/// is a line for each limit that was changed and for no other: first the number
/// of results, next a pool over the ceiling, last a pool that had to grow.
pub proof fn a_clamp_names_both_numbers(
    options: SearchOptions,
    ceilings: Ceilings,
    algorithm: Algorithm,
    applied: AppliedOptions,
)
    requires
        resolves_to(options, ceilings, algorithm, applied),
    ensures
        ({
            let few = options.top_k == Some(0usize);
            let many = options.top_k is Some && options.top_k->0 > ceilings.top_k && !few;
            let wide = options.candidate_pool is Some && options.candidate_pool->0
                > ceilings.candidate_pool;
            let asked = if options.candidate_pool is None || wide {
                ceilings.candidate_pool
            } else {
                options.candidate_pool->0
            };
            let narrow = asked < applied.top_k;
            let a: int = if few || many {
                1
            } else {
                0
            };
            let b: int = a + if wide {
                1int
            } else {
                0
            };
            &&& applied.clamped@.len() == b + if narrow {
                1int
            } else {
                0
            }
            &&& few ==> applied.clamped@[0]@ == "top_k 0 raised to 1"@
            &&& many ==> applied.clamped@[0]@ == "top_k "@ + decimal(options.top_k->0 as nat)
                + " narrowed to the server ceiling "@ + decimal(applied.top_k as nat)
            &&& wide ==> applied.clamped@[a]@ == "candidate_pool "@ + decimal(
                options.candidate_pool->0 as nat,
            ) + " narrowed to the server ceiling "@ + decimal(ceilings.candidate_pool as nat)
            &&& narrow ==> applied.clamped@[b]@ == "candidate_pool "@ + decimal(asked as nat)
                + " raised to top_k "@ + decimal(applied.candidate_pool as nat)
        }),
{
    let t = texts(applied.clamped@);
    assert(t.len() == applied.clamped@.len());
    let x = top_k_notes(options.top_k, ceilings.top_k);
    let y = pool_notes(options.candidate_pool, ceilings.candidate_pool);
    let z = floor_notes(
        narrowed_pool(options.candidate_pool, ceilings.candidate_pool),
        effective_top_k(options.top_k, ceilings.top_k),
    );
    assert(t == x + y + z);
    if x.len() > 0 {
        assert(t[0] == x[0]);
        assert(t[0] == applied.clamped@[0]@);
    }
    if y.len() > 0 {
        assert(t[x.len() as int] == y[0]);
        assert(t[x.len() as int] == applied.clamped@[x.len() as int]@);
    }
    if z.len() > 0 {
        let n = (x.len() + y.len()) as int;
        assert(t[n] == z[0]);
        assert(t[n] == applied.clamped@[n]@);
    }
}

/// A request that cannot be served is answered with the name it gave and with
/// the names that there are, in their order.
pub proof fn a_refusal_lists_what_is_served(e: ResolveError, rest: Seq<char>)
    requires
        resolve_error_text(e) == "no algorithm named `"@ + e->asked@ + "` · this engine serves: "@
            + rest,
    ensures
        rest == joined(texts(e->available@), ", "@),
{
    let front = "no algorithm named `"@ + e->asked@ + "` · this engine serves: "@;
    let back = joined(texts(e->available@), ", "@);
    let n = front.len() as int;
    assert((front + rest).skip(n) =~= rest);
    assert((front + back).skip(n) =~= back);
    assert(resolve_error_text(e) == front + back);
}

} // verus!
