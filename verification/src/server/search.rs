//! The course of a search, one stage after the other.
//!
//! Between two stages the caller does what cannot be done here: it embeds, asks
//! the database, or forms a number. Each stage takes what came back, decides,
//! and says what to do next.

use vstd::prelude::*;

use crate::contract::algorithms::Registry;
use crate::contract::options::{asked_profile, resolve_error_text, resolves_to, AppliedOptions, Ceilings, Expansion, ResolveError, SearchOptions};
use crate::contract::response::ExactMatch;
use crate::embed::provider::{embed_error_text, EmbedError};
use crate::engine::factors::{composed_prior, composed_upto, coverage, is_span, share_term, the_floor_never_empties_a_pool, Composition, Context, Facets, Term, Vocabulary, WeightedTerm};
use crate::engine::routing::{cluster_ids, first, select_clusters, ClusterMatch};
use crate::order::{arranged, arranging_keeps_elements};
use crate::retrieval::fusion::{arms_upto, gather, hit_views, arm_views, reciprocal_rank_fusion, scored, ArmView, Fused, Gathered};
use crate::score::{Score, ONE_BITS};
use crate::server::answer::{accounts_for, closes, conclude, counted, domain_gate, exact_arm, exact_notes_upto, is_assembled, is_empty_answer, match_views, matches_upto, note_of_gate, note_of_pool, notes_of_arms, opening, opening_notes, said, top_cluster, top_of, Answer, Assembly, Closing, GateFigures};
use crate::server::config::Config;
use crate::server::scoring::{composition_of, is_declared};
use crate::server::identifier::{extract, mentions, references, Identifier};
use crate::server::ranking::{admit_siblings, admitted_upto, arm_limit, arms_of, batch_of, budget_of, by_score, ceiling, ceiling_upto, concat, expansion_note, facets_of, factor_notes, floor_pool, floored, hit_ids, hit_lists, is_facets, leading_ids, lesser, merge_windows, note_of_expansion, notes_of_factors, pair, paired_upto, point_into, pool_of, reorder, reordered, request_floor, span_of, three_arms, walks, walks_upto, years_of, window_limit, window_views, windows, windows_from, with_scores, Candidate};
use crate::store::meta::{store_error_text, StoreError};
use crate::store::search::{ChunkRow, ExactHit, Scored};
use crate::text::texts;

verus! {

/// Why a request was not answered.
#[derive(Debug, PartialEq)]
pub enum PipelineError {
    Store(StoreError),
    Embed(EmbedError),
    /// The caller named an algorithm that is not served.
    Options(ResolveError),
}

/// What is said of a request that was not answered, with the two numbers that a
/// failed comparison is about written as `got` and `want`.
pub open spec fn pipeline_error_text(e: PipelineError, got: Seq<char>, want: Seq<char>) -> Seq<
    char,
> {
    match e {
        PipelineError::Store(inner) => store_error_text(inner, got, want),
        PipelineError::Embed(inner) => embed_error_text(inner@, got, want),
        PipelineError::Options(inner) => resolve_error_text(inner),
    }
}

impl PipelineError {
    /// The message for the caller: that of what went wrong.
    pub fn message(&self, got: &str, want: &str) -> (r: String)
        ensures
            r@ == pipeline_error_text(*self, got@, want@),
    {
        match self {
            PipelineError::Store(inner) => inner.message(got, want),
            PipelineError::Embed(inner) => inner.message(got, want),
            PipelineError::Options(inner) => inner.message(),
        }
    }
}

// ---------------------------------------------------------------------------
// Asking
// ---------------------------------------------------------------------------

/// A request whose options are resolved.
#[derive(Debug)]
pub struct Asked {
    pub query: String,
    /// The corpus that answers.
    pub domain: String,
    pub cfg: Config,
    pub applied: AppliedOptions,
}

/// The ceilings of a configuration.
pub open spec fn ceilings_of(cfg: Config) -> Ceilings {
    Ceilings { top_k: cfg.top_k, candidate_pool: cfg.candidate_pool }
}

/// Resolves what a caller asks for. Options narrow and never widen.
pub fn ask(
    query: &str,
    domain: &str,
    cfg: Config,
    options: &SearchOptions,
    registry: &Registry,
) -> (r: Result<Asked, ResolveError>)
    ensures
        r is Ok == registry.algorithms.has(asked_profile(*options)),
        match r {
            Ok(asked) => {
                &&& asked.query@ == query@
                &&& asked.domain@ == domain@
                &&& asked.cfg == cfg
                &&& resolves_to(
                    *options,
                    ceilings_of(cfg),
                    registry.algorithms.at(asked_profile(*options)),
                    asked.applied,
                )
            },
            Err(ResolveError::UnknownProfile { asked, available }) => {
                &&& asked@ == asked_profile(*options)
                &&& texts(available@) == registry.algorithms.keys()
            },
        },
{
    let ceilings = Ceilings { top_k: cfg.top_k, candidate_pool: cfg.candidate_pool };
    match options.resolve(ceilings, registry) {
        Ok(applied) => Ok(
            Asked { query: query.to_owned(), domain: domain.to_owned(), cfg, applied },
        ),
        Err(e) => Err(e),
    }
}

// ---------------------------------------------------------------------------
// Routing
// ---------------------------------------------------------------------------

/// Clusters that one statement scans, and how many rows it may return.
#[derive(Debug, PartialEq, Eq)]
pub struct Window {
    pub clusters: Vec<i32>,
    pub limit: i64,
}

/// A request whose clusters are chosen. The windows go to the dense arm; the
/// other two arms scan globally; the identifiers are looked up globally.
#[derive(Debug)]
pub struct Routed {
    pub asked: Asked,
    /// How many clusters there are.
    pub clusters: usize,
    pub probed: Vec<ClusterMatch>,
    pub windows: Vec<Window>,
    pub identifiers: Vec<Identifier>,
    pub progress: Vec<String>,
}

/// The clusters of windows, as what they hold.
pub open spec fn window_clusters(v: Seq<Window>) -> Seq<Seq<i32>> {
    v.map_values(|w: Window| w.clusters@)
}

/// Chooses the clusters that a query opens, given how near it is to each of
/// them and how wide its embedding is.
pub fn route(asked: Asked, dims: usize, similarities: Vec<ClusterMatch>) -> (r: Routed)
    ensures
        r.asked == asked,
        r.clusters == similarities@.len(),
        r.probed@ == first(arranged(similarities@), asked.cfg.clusters_probed as nat),
        window_clusters(r.windows@) == windows_from(
            cluster_ids(r.probed@),
            batch_of(asked.cfg.cluster_batch),
            0,
        ),
        forall|i: int|
            0 <= i < r.windows@.len() ==> (#[trigger] r.windows@[i]).limit == budget_of(
                asked.cfg.per_cluster_k,
                r.windows@[i].clusters@.len(),
            ),
        mentions(r.identifiers@) == references(asked.query@),
        texts(r.progress@) == opening_notes(
            texts(asked.applied.clamped@),
            dims as nat,
            r.probed@.len(),
            similarities@.len(),
        ),
{
    let clusters = similarities.len();
    let probed = select_clusters(similarities, asked.cfg.clusters_probed);
    let progress = opening(&asked.applied.clamped, dims, probed.len(), clusters);
    let mut ids: Vec<i32> = Vec::new();
    let mut i: usize = 0;
    while i < probed.len()
        invariant
            i <= probed@.len(),
            ids@ == cluster_ids(probed@).take(i as int),
        decreases probed@.len() - i,
    {
        ids.push(probed[i].id);
        assert(ids@ =~= cluster_ids(probed@).take(i + 1));
        i = i + 1;
    }
    assert(ids@ =~= cluster_ids(probed@));
    let lists = windows(&ids, asked.cfg.cluster_batch);
    let ghost want = windows_from(ids@, batch_of(asked.cfg.cluster_batch), 0);
    let mut rest = lists;
    let mut out: Vec<Window> = Vec::new();
    assert(window_clusters(out@) =~= want.skip(want.len() as int));
    while rest.len() > 0
        invariant
            rest@.len() <= want.len(),
            window_views(rest@) == want.take(rest@.len() as int),
            window_clusters(out@) == want.skip(rest@.len() as int),
            forall|k: int|
                0 <= k < out@.len() ==> (#[trigger] out@[k]).limit == budget_of(
                    asked.cfg.per_cluster_k,
                    out@[k].clusters@.len(),
                ),
        decreases rest@.len(),
    {
        let ghost n = rest@.len() as int;
        let ghost tail = out@;
        let ghost views = window_views(rest@);
        match rest.pop() {
            Some(w) => {
                assert(w@ == views[n - 1]);
                assert(views[n - 1] == want[n - 1]);
                let limit = window_limit(asked.cfg.per_cluster_k, w.len());
                out.insert(0, Window { clusters: w, limit });
                assert(window_views(rest@) =~= want.take(n - 1));
                assert(window_clusters(out@) =~= seq![want[n - 1]] + window_clusters(tail));
                assert(window_clusters(out@) =~= want.skip(n - 1));
                assert forall|k: int| 0 <= k < out@.len() implies (#[trigger] out@[k]).limit
                    == budget_of(asked.cfg.per_cluster_k, out@[k].clusters@.len()) by {
                    if k > 0 {
                        assert(out@[k] == tail[k - 1]);
                    }
                }
            },
            None => {},
        }
    }
    assert(want.skip(0) =~= want);
    let identifiers = extract(asked.query.as_str());
    Routed { asked, clusters, probed, windows: out, identifiers, progress }
}

// ---------------------------------------------------------------------------
// Collecting
// ---------------------------------------------------------------------------

/// A request with what its arms returned.
#[derive(Debug)]
pub struct Collected {
    pub asked: Asked,
    pub clusters: usize,
    pub probed: Vec<ClusterMatch>,
    pub dense: Vec<Scored>,
    pub sparse: Vec<Scored>,
    pub text: Vec<Scored>,
    pub exact: Vec<ExactMatch>,
    /// The query names a regulation: it is never gated, and never filtered.
    pub named: bool,
    /// The ids of the hits that the domain gate judges.
    pub sample: Vec<String>,
    pub progress: Vec<String>,
}

/// Takes what the windows, the other two arms and the exact lookups returned.
pub fn collect(
    routed: Routed,
    found: Vec<Vec<Scored>>,
    sparse: Vec<Scored>,
    text: Vec<Scored>,
    hits: &Vec<Vec<ExactHit>>,
) -> (r: Collected)
    requires
        hits@.len() == routed.identifiers@.len(),
    ensures
        r.asked == routed.asked,
        r.clusters == routed.clusters,
        r.probed == routed.probed,
        r.dense@ == first(
            by_score(concat(hit_lists(found@))),
            arm_limit(routed.asked.cfg.per_arm_k),
        ),
        r.sparse == sparse,
        r.text == text,
        match_views(r.exact@) == matches_upto(hits@, hits@.len() as int),
        r.named == (routed.identifiers@.len() > 0),
        texts(r.sample@) == hit_ids(first(sparse@, routed.asked.cfg.gate_sample as nat)),
        texts(r.progress@) == texts(routed.progress@) + seq![
            counted("dense: "@, r.dense@.len()),
            counted("sparse: "@, sparse@.len()),
            counted("text: "@, text@.len()),
        ] + exact_notes_upto(
            mentions(routed.identifiers@),
            hits@,
            hits@.len() as int,
        ),
{
    let dense = merge_windows(found, routed.asked.cfg.per_arm_k);
    let mut progress = routed.progress;
    let ghost one = progress@;
    let mut arms = notes_of_arms(dense.len(), sparse.len(), text.len());
    let ghost two = arms@;
    progress.append(&mut arms);
    let exact = exact_arm(&routed.identifiers, hits);
    let mut notes = exact.notes;
    let ghost three = notes@;
    progress.append(&mut notes);
    assert(texts(progress@) =~= texts(one) + texts(two) + texts(three));
    let sample = leading_ids(&sparse, routed.asked.cfg.gate_sample);
    let named = routed.identifiers.len() > 0;
    Collected {
        asked: routed.asked,
        clusters: routed.clusters,
        probed: routed.probed,
        dense,
        sparse,
        text,
        exact: exact.matches,
        named,
        sample,
        progress,
    }
}

// ---------------------------------------------------------------------------
// The domain gate
// ---------------------------------------------------------------------------

/// A request that passed the domain gate, with every place that an arm gave an id.
#[derive(Debug)]
pub struct Contest {
    pub asked: Asked,
    pub clusters: usize,
    pub probed: Vec<ClusterMatch>,
    pub dense: Vec<Scored>,
    pub sparse: Vec<Scored>,
    pub exact: Vec<ExactMatch>,
    pub named: bool,
    pub hits: Vec<Gathered>,
    pub progress: Vec<String>,
}

/// What the domain gate makes of a request.
#[derive(Debug)]
pub enum Judged {
    Refused(Answer),
    Open(Contest),
}

/// Whether the domain gate lets a request through.
pub open spec fn passes(c: Collected, lexical: Score) -> bool {
    c.named || accounts_for(
        lexical,
        c.asked.cfg.domain_lexical_floor,
        top_of(c.probed@),
        c.asked.cfg.domain_floor,
    )
}

/// The note on the domain gate. A request that names a regulation skips it.
pub open spec fn gate_notes(c: Collected, f: GateFigures) -> Seq<Seq<char>> {
    if c.named {
        Seq::empty()
    } else {
        seq![
            "domain gate: lexical "@ + f.lexical@ + " (floor "@ + f.lexical_floor@
                + "), centroid "@ + f.centroid@ + " (floor "@ + f.centroid_floor@ + ")"@,
        ]
    }
}

/// The weights of the three arms for a request.
pub open spec fn arm_weights_of(asked: Asked) -> (Score, Score, Score) {
    match asked.applied.mode {
        crate::contract::options::Mode::Hybrid => (
            asked.cfg.dense_weight,
            asked.cfg.sparse_weight,
            asked.cfg.text_weight,
        ),
        crate::contract::options::Mode::Keyword => (
            Score { bits: 0 },
            asked.cfg.sparse_weight,
            asked.cfg.text_weight,
        ),
        crate::contract::options::Mode::Semantic => (
            asked.cfg.dense_weight.max_spec(Score { bits: crate::score::ONE_BITS }),
            Score { bits: 0 },
            Score { bits: 0 },
        ),
    }
}

/// The three arms of a request, as what they say.
pub open spec fn its_arms(c: Collected) -> Seq<ArmView> {
    arms_of(hit_ids(c.dense@), hit_ids(c.sparse@), hit_ids(c.text@), arm_weights_of(c.asked))
}

/// Applies the domain gate, given how much of the question the sampled hits account
/// for. A refusal is an answer; `percent` is that share in writing.
pub fn judge(c: Collected, lexical: Score, figures: &GateFigures, percent: &str) -> (r: Judged)
    requires
        c.named == (references(c.asked.query@).len() > 0),
    ensures
        match r {
            Judged::Refused(a) => {
                &&& !passes(c, lexical)
                &&& is_empty_answer(a)
                &&& a.query@ == c.asked.query@
                &&& a.detected_domain is None
                &&& a.domain_confidence == (Score { bits: 0 })
                &&& a.clusters_probed == 0
                &&& a.exact_matches@.len() == 0
                &&& texts(a.progress@) == texts(c.progress@) + gate_notes(c, *figures)
                &&& said(a.hint) == Some(
                    "this corpus does not appear to cover the question · the best matching documents account for only "@
                        + percent@
                        + "% of its distinctive terms · check list_domains for what this engine covers"@,
                )
            },
            Judged::Open(k) => {
                &&& passes(c, lexical)
                &&& k.asked == c.asked
                &&& k.clusters == c.clusters
                &&& k.probed == c.probed
                &&& k.dense == c.dense
                &&& k.sparse == c.sparse
                &&& k.exact == c.exact
                &&& k.named == c.named
                &&& hit_views(k.hits@) == arms_upto(its_arms(c), 3)
                &&& texts(k.progress@) == texts(c.progress@) + gate_notes(c, *figures)
            },
        },
{
    let top = top_cluster(&c.probed);
    let gate = domain_gate(
        c.asked.query.as_str(),
        lexical,
        c.asked.cfg.domain_lexical_floor,
        top,
        c.asked.cfg.domain_floor,
    );
    let mut progress = Vec::new();
    let mut said_before = c.progress;
    let ghost before = said_before@;
    progress.append(&mut said_before);
    assert(progress@ =~= before);
    if !c.named {
        progress.push(note_of_gate(figures));
    }
    assert(texts(progress@) =~= texts(before) + gate_notes(c, *figures));
    if !gate.passes {
        return Judged::Refused(Answer::refused(c.asked.query.as_str(), percent, progress));
    }
    let weights = c.asked.cfg.arm_weights(c.asked.applied.mode);
    let n = c.dense.len();
    let dense_ids = leading_ids(&c.dense, n);
    let m = c.sparse.len();
    let sparse_ids = leading_ids(&c.sparse, m);
    let t = c.text.len();
    let text_ids = leading_ids(&c.text, t);
    let arms = three_arms(&dense_ids, &sparse_ids, &text_ids, weights);
    assert(arm_views(arms@) == its_arms(c));
    let hits = gather(&arms);
    Judged::Open(
        Contest {
            asked: c.asked,
            clusters: c.clusters,
            probed: c.probed,
            dense: c.dense,
            sparse: c.sparse,
            exact: c.exact,
            named: c.named,
            hits,
            progress,
        },
    )
}

// ---------------------------------------------------------------------------
// The pool
// ---------------------------------------------------------------------------

/// A request with its pool of candidates.
#[derive(Debug)]
pub struct Pool {
    pub asked: Asked,
    pub clusters: usize,
    pub probed: Vec<ClusterMatch>,
    pub dense: Vec<Scored>,
    pub sparse: Vec<Scored>,
    pub exact: Vec<ExactMatch>,
    pub named: bool,
    pub pool: Vec<Fused>,
    pub progress: Vec<String>,
}

/// What fusion makes of a request.
#[derive(Debug)]
pub enum Pooled {
    Nothing(Answer),
    Filled(Pool),
}

/// The pool of a request, given the score of each id.
pub open spec fn pool_from(k: Contest, scores: Seq<Score>) -> Seq<Fused> {
    first(arranged(scored(k.hits@, scores)), k.asked.applied.candidate_pool as nat)
}

/// Fuses the arms, given the score that each id's places add up to. Where
/// nothing was retrieved, the answer names the domain and holds no results.
pub fn fuse(k: Contest, scores: &Vec<Score>) -> (r: Pooled)
    requires
        scores@.len() == k.hits@.len(),
    ensures
        ({
            let pool = pool_from(k, scores@);
            let notes = texts(k.progress@).push(counted("fused to "@, pool.len()));
            match r {
                Pooled::Nothing(a) => {
                    &&& pool.len() == 0
                    &&& is_empty_answer(a)
                    &&& a.query@ == k.asked.query@
                    &&& said(a.detected_domain) == Some(k.asked.domain@)
                    &&& a.domain_confidence == top_of(k.probed@)
                    &&& a.clusters_probed == k.probed@.len()
                    &&& a.exact_matches == k.exact
                    &&& texts(a.progress@) == notes
                    &&& said(a.hint) == Some(
                        "the domain matched but no document in it did · rephrase the question, or name a regulation"@,
                    )
                },
                Pooled::Filled(p) => {
                    &&& pool.len() > 0
                    &&& p.asked == k.asked
                    &&& p.clusters == k.clusters
                    &&& p.probed == k.probed
                    &&& p.dense == k.dense
                    &&& p.sparse == k.sparse
                    &&& p.exact == k.exact
                    &&& p.named == k.named
                    &&& p.pool@ == pool
                    &&& texts(p.progress@) == notes
                },
            }
        }),
{
    let fused = reciprocal_rank_fusion(k.hits, scores);
    let pool = pool_of(fused, k.asked.applied.candidate_pool);
    let mut progress = k.progress;
    let ghost before = progress@;
    let note = note_of_pool(pool.len());
    let ghost text = note@;
    progress.push(note);
    assert(texts(progress@) =~= texts(before).push(text));
    if pool.len() == 0 {
        let top = top_cluster(&k.probed);
        return Pooled::Nothing(
            Answer::nothing_matched(
                k.asked.query.as_str(),
                k.asked.domain.as_str(),
                top,
                k.probed.len(),
                k.exact,
                progress,
            ),
        );
    }
    Pooled::Filled(
        Pool {
            asked: k.asked,
            clusters: k.clusters,
            probed: k.probed,
            dense: k.dense,
            sparse: k.sparse,
            exact: k.exact,
            named: k.named,
            pool,
            progress,
        },
    )
}

// ---------------------------------------------------------------------------
// Ranking
// ---------------------------------------------------------------------------

/// A request with its candidates and the rows they point into.
#[derive(Debug)]
pub struct Race {
    pub asked: Asked,
    pub clusters: usize,
    pub probed: Vec<ClusterMatch>,
    pub dense: Vec<Scored>,
    pub sparse: Vec<Scored>,
    pub exact: Vec<ExactMatch>,
    pub named: bool,
    /// How many candidates were fused.
    pub pool: usize,
    pub rows: Vec<ChunkRow>,
    pub ranked: Vec<Candidate>,
    pub progress: Vec<String>,
}

/// What two stages of a ranking share: all but the rows, the candidates and
/// the notes.
pub open spec fn same_request(a: Race, b: Race) -> bool {
    &&& a.asked == b.asked
    &&& a.clusters == b.clusters
    &&& a.probed == b.probed
    &&& a.dense == b.dense
    &&& a.sparse == b.sparse
    &&& a.exact == b.exact
    &&& a.named == b.named
    &&& a.pool == b.pool
}

/// Whether this is what the factors of kept candidates are read in.
pub open spec fn is_context(
    cx: Context<'_>,
    kept: Seq<Candidate>,
    rows: Seq<ChunkRow>,
    terms: &Vec<String>,
    vocabulary: &Vocabulary,
) -> bool {
    &&& cx.vocabulary == vocabulary
    &&& cx.query_terms == terms
    &&& is_span(years_of(kept, rows), cx.oldest, cx.newest)
    &&& cx.now == cx.newest
}

/// Whether a row earns these summands of a prior.
pub open spec fn earns(
    summands: Seq<WeightedTerm>,
    c: Composition,
    row: ChunkRow,
    cx: Context<'_>,
) -> bool {
    exists|f: Facets<'_>| #[trigger]
        is_facets(f, row) && summands == composed_upto(
            c.factors@,
            f,
            cx,
            c.factors@.len() as int,
        )
}

impl Race {
    /// Whether every candidate points at a row.
    pub open spec fn wf(self) -> bool {
        point_into(self.ranked@, self.rows@.len())
    }

    /// Pairs the pool with the rows that were read for it.
    pub fn start(p: Pool, rows: Vec<ChunkRow>) -> (r: Race)
        ensures
            r.wf(),
            r.asked == p.asked,
            r.clusters == p.clusters,
            r.probed == p.probed,
            r.dense == p.dense,
            r.sparse == p.sparse,
            r.exact == p.exact,
            r.named == p.named,
            r.pool == p.pool@.len(),
            r.rows == rows,
            r.ranked@ == paired_upto(p.pool@, rows@, p.pool@.len() as int),
            r.progress == p.progress,
    {
        let ranked = pair(&p.pool, &rows);
        Race {
            asked: p.asked,
            clusters: p.clusters,
            probed: p.probed,
            dense: p.dense,
            sparse: p.sparse,
            exact: p.exact,
            named: p.named,
            pool: p.pool.len(),
            rows,
            ranked,
            progress: p.progress,
        }
    }

    /// Whether a composition is the scoring function of this request.
    pub open spec fn is_scored_by(self, c: Composition) -> bool {
        is_declared(
            c,
            self.asked.applied.composition@,
            request_floor(self.asked.applied.factor_weights, !self.named),
        )
    }

    /// The scoring function of this request: the composition that its answer
    /// reports. Where it names a regulation, the floor is off.
    pub fn composition(&self) -> (r: Composition)
        ensures
            self.is_scored_by(r),
    {
        let floor = if self.named {
            Score { bits: 0 }
        } else {
            self.asked.applied.factor_weights.relevance_floor
        };
        composition_of(&self.asked.applied.composition, floor)
    }

    /// How much of the query each candidate accounts for.
    pub fn coverages(&self, terms: &Vec<String>, vocabulary: &Vocabulary) -> (r: Vec<Term>)
        requires
            self.wf(),
        ensures
            r@.len() == self.ranked@.len(),
            forall|i: int|
                0 <= i < r@.len() ==> #[trigger] r@[i] == share_term(
                    self.rows@[self.ranked@[i].row as int].body@,
                    texts(terms@),
                    *vocabulary,
                    ONE_BITS,
                ),
    {
        let mut out: Vec<Term> = Vec::new();
        let mut i: usize = 0;
        while i < self.ranked.len()
            invariant
                i <= self.ranked@.len(),
                self.wf(),
                out@.len() == i,
                forall|k: int|
                    0 <= k < i ==> #[trigger] out@[k] == share_term(
                        self.rows@[self.ranked@[k].row as int].body@,
                        texts(terms@),
                        *vocabulary,
                        ONE_BITS,
                    ),
            decreases self.ranked@.len() - i,
        {
            let row = &self.rows[self.ranked[i].row];
            out.push(coverage(row.body.as_str(), terms, vocabulary));
            i = i + 1;
        }
        out
    }

    /// The candidates that the floor leaves, given what share of the query
    /// each one covers.
    pub fn kept(&self, c: &Composition, coverages: &Vec<Score>, terms: &Vec<String>) -> (r: Vec<
        Candidate,
    >)
        requires
            self.wf(),
            coverages@.len() == self.ranked@.len(),
        ensures
            r@ == floored(self.ranked@, coverages@, *c, texts(terms@)),
            point_into(r@, self.rows@.len()),
    {
        let r = floor_pool(&self.ranked, coverages, c, terms);
        proof {
            the_floor_never_empties_a_pool(self.ranked@, coverages@, c.relevance_floor);
            assert forall|i: int| 0 <= i < r@.len() implies (#[trigger] r@[i]).row
                < self.rows@.len() && match r@[i].expanded_from {
                Some(seed) => seed < self.rows@.len(),
                None => true,
            } by {
                assert(self.ranked@.contains(r@[i])) by {
                    if r@ == self.ranked@ {
                        assert(self.ranked@[i] == r@[i]);
                    }
                }
                let k = self.ranked@.index_of(r@[i]);
                assert(self.ranked@[k] == r@[i]);
            }
        }
        r
    }

    /// The summands of the prior that each kept candidate earns. The span of
    /// years is that of the kept ones, and an age is counted from its newest.
    pub fn priors(
        &self,
        c: &Composition,
        kept: &Vec<Candidate>,
        terms: &Vec<String>,
        vocabulary: &Vocabulary,
    ) -> (r: Vec<Vec<WeightedTerm>>)
        requires
            point_into(kept@, self.rows@.len()),
        ensures
            r@.len() == kept@.len(),
            exists|cx: Context<'_>|
                {
                    &&& #[trigger] is_context(cx, kept@, self.rows@, terms, vocabulary)
                    &&& forall|i: int|
                        0 <= i < r@.len() ==> earns(
                            (#[trigger] r@[i])@,
                            *c,
                            self.rows@[kept@[i].row as int],
                            cx,
                        )
                },
    {
        let (oldest, newest) = span_of(kept, &self.rows);
        let cx = Context { vocabulary, query_terms: terms, oldest, newest, now: newest };
        let mut out: Vec<Vec<WeightedTerm>> = Vec::new();
        let mut i: usize = 0;
        while i < kept.len()
            invariant
                i <= kept@.len(),
                point_into(kept@, self.rows@.len()),
                out@.len() == i,
                forall|k: int|
                    0 <= k < i ==> earns(
                        (#[trigger] out@[k])@,
                        *c,
                        self.rows@[kept@[k].row as int],
                        cx,
                    ),
            decreases kept@.len() - i,
        {
            let f = facets_of(&self.rows[kept[i].row]);
            let summands = composed_prior(&f, c, &cx);
            assert(is_facets(f, self.rows@[kept@[i as int].row as int]));
            out.push(summands);
            i = i + 1;
        }
        assert(is_context(cx, kept@, self.rows@, terms, vocabulary));
        out
    }

    /// Ranks the candidates that were kept on their final scores, and notes
    /// what that changed.
    pub fn rerank(self, c: &Composition, kept: &Vec<Candidate>, scores: &Vec<Score>) -> (r: Race)
        requires
            self.wf(),
            point_into(kept@, self.rows@.len()),
            scores@.len() == kept@.len(),
        ensures
            r.wf(),
            same_request(r, self),
            r.rows == self.rows,
            r.ranked@ == if c.inert() {
                kept@
            } else {
                reordered(kept@, scores@)
            },
            texts(r.progress@) == texts(self.progress@) + factor_notes(
                self.ranked@,
                r.ranked@,
                self.rows@,
                !self.named,
            ),
    {
        let ranked = reorder(kept, scores, c);
        proof {
            reordering_points_into(kept@, scores@, self.rows@.len());
        }
        let mut notes = notes_of_factors(&self.ranked, &ranked, &self.rows, !self.named);
        let ghost more = notes@;
        let mut progress = self.progress;
        let ghost before = progress@;
        progress.append(&mut notes);
        assert(texts(progress@) =~= texts(before) + texts(more));
        Race {
            asked: self.asked,
            clusters: self.clusters,
            probed: self.probed,
            dense: self.dense,
            sparse: self.sparse,
            exact: self.exact,
            named: self.named,
            pool: self.pool,
            rows: self.rows,
            ranked,
            progress,
        }
    }

    /// Whether the siblings of what ranked are asked for. An expansion admits
    /// what no arm retrieved, so it is off unless it is asked for.
    pub fn expands(&self) -> (r: bool)
        ensures
            r == self.asked.applied.expand@.contains(Expansion::Siblings),
    {
        let mut i: usize = 0;
        while i < self.asked.applied.expand.len()
            invariant
                i <= self.asked.applied.expand@.len(),
                forall|k: int|
                    0 <= k < i ==> #[trigger] self.asked.applied.expand@[k] != Expansion::Siblings,
            decreases self.asked.applied.expand@.len() - i,
        {
            if self.asked.applied.expand[i] == Expansion::Siblings {
                assert(self.asked.applied.expand@[i as int] == Expansion::Siblings);
                return true;
            }
            i = i + 1;
        }
        false
    }

    /// Whether there are more candidates than the `known` ones of before. An
    /// expansion that admitted none leaves the ranking as it is; one that
    /// admitted some has the whole pool ranked again.
    pub fn outgrew(&self, known: usize) -> (r: bool)
        ensures
            r == (self.ranked@.len() > known),
    {
        self.ranked.len() > known
    }

    /// The places among the ranked candidates from which the expansion walks.
    pub fn starts(&self) -> (r: Vec<usize>)
        requires
            self.wf(),
        ensures
            r@ == walks_upto(
                self.ranked@,
                self.rows@,
                lesser(self.ranked@.len(), self.asked.cfg.expand_seeds as nat) as int,
            ),
            forall|k: int| 0 <= k < r@.len() ==> #[trigger] r@[k] < self.ranked@.len(),
    {
        walks(&self.ranked, &self.rows, self.asked.cfg.expand_seeds)
    }

    /// Admits the siblings that are relevant on their own evidence, and notes
    /// how many were read. `walked` is the number of regulations that were
    /// walked, `shown` the floor in writing.
    pub fn expand(self, litters: Vec<Litter>, walked: usize, shown: &str) -> (r: Race)
        requires
            self.wf(),
            forall|k: int|
                0 <= k < litters@.len() ==> (#[trigger] litters@[k]).seed < self.rows@.len()
                    && litters@[k].evidence@.len() == litters@[k].rows@.len()
                    && litters@[k].scaled@.len() == litters@[k].rows@.len(),
        ensures
            r.wf(),
            same_request(r, self),
            ({
                let floor = self.asked.applied.factor_weights.relevance_floor;
                let top = ceiling_upto(self.ranked@, self.ranked@.len() as int);
                let n = litters@.len() as int;
                let grown = grown_upto(self.rows@, litters@, n);
                let admitted = litters_upto(self.rows@, litters@, floor, top, n);
                &&& r.rows@ == grown
                &&& r.ranked@ == self.ranked@ + admitted
                &&& texts(r.progress@) == texts(self.progress@).push(
                    expansion_note(
                        (grown.len() - self.rows@.len()) as nat,
                        walked as nat,
                        admitted.len(),
                        shown@,
                    ),
                )
            }),
    {
        let ghost start = self.rows@;
        let ghost base = self.ranked@;
        let ghost all = litters@;
        let floor = self.asked.applied.factor_weights.relevance_floor;
        let top = ceiling(&self.ranked);
        let first_rows = self.rows.len();
        let mut rows = self.rows;
        let mut ranked = self.ranked;
        let known = ranked.len();
        let mut back: Vec<Litter> = Vec::new();
        let mut rest = litters;
        while rest.len() > 0
            invariant
                rest@.len() <= all.len(),
                rest@ == all.take(rest@.len() as int),
                back@ == all.skip(rest@.len() as int).reverse(),
            decreases rest@.len(),
        {
            let ghost n = rest@.len() as int;
            match rest.pop() {
                Some(l) => {
                    back.push(l);
                    assert(rest@ =~= all.take(n - 1));
                    assert(back@ =~= all.skip(n - 1).reverse());
                },
                None => {},
            }
        }
        assert(back@ =~= all.reverse());
        let ghost mut done: int = 0;
        assert(base + Seq::<Candidate>::empty() =~= base);
        while back.len() > 0
            invariant
                0 <= done <= all.len(),
                back@.len() == all.len() - done,
                back@ == all.skip(done).reverse(),
                floor == self.asked.applied.factor_weights.relevance_floor,
                start == self.rows@,
                base == self.ranked@,
                point_into(base, start.len()),
                forall|k: int|
                    0 <= k < all.len() ==> (#[trigger] all[k]).seed < start.len()
                        && all[k].evidence@.len() == all[k].rows@.len() && all[k].scaled@.len()
                        == all[k].rows@.len(),
                rows@ == grown_upto(start, all, done),
                start.len() <= rows@.len(),
                ranked@ == base + litters_upto(start, all, floor, top, done),
                point_into(ranked@, rows@.len()),
            decreases back@.len(),
        {
            let ghost old_rows = rows@;
            let ghost old_ranked = ranked@;
            match back.pop() {
                Some(l) => {
                    assert(l == all.skip(done).reverse()[all.len() - done - 1]);
                    assert(l == all[done]);
                    let at = rows.len();
                    let mut more = l.rows;
                    let count = more.len();
                    rows.append(&mut more);
                    let total = rows.len();
                    assert(at + count == total);
                    let mut admitted = admit_siblings(
                        l.seed,
                        at,
                        &l.evidence,
                        &l.scaled,
                        floor,
                        top,
                    );
                    let ghost new = admitted@;
                    ranked.append(&mut admitted);
                    proof {
                        assert(grown_upto(start, all, done + 1) == old_rows + all[done].rows@);
                        assert(ranked@ =~= base + litters_upto(start, all, floor, top, done + 1));
                        assert forall|i: int| 0 <= i < ranked@.len() implies (
                        #[trigger] ranked@[i]).row < rows@.len() && match ranked@[i].expanded_from {
                            Some(seed) => seed < rows@.len(),
                            None => true,
                        } by {
                            if i < old_ranked.len() {
                                assert(ranked@[i] == old_ranked[i]);
                            } else {
                                assert(ranked@[i] == new[i - old_ranked.len()]);
                            }
                        }
                        done = done + 1;
                        assert(back@ =~= all.skip(done).reverse());
                    }
                },
                None => {},
            }
        }
        let read: usize = rows.len() - first_rows;
        let note = note_of_expansion(read, walked, ranked.len() - known, shown);
        let ghost text = note@;
        let mut progress = self.progress;
        let ghost before = progress@;
        progress.push(note);
        assert(texts(progress@) =~= texts(before).push(text));
        Race {
            asked: self.asked,
            clusters: self.clusters,
            probed: self.probed,
            dense: self.dense,
            sparse: self.sparse,
            exact: self.exact,
            named: self.named,
            pool: self.pool,
            rows,
            ranked,
            progress,
        }
    }

    /// Answers with the candidates as they are ranked, cut to the number of
    /// results. `shown` is the similarity of the nearest cluster in writing.
    pub fn finish(self, shown: &str) -> (r: Answer)
        requires
            self.wf(),
        ensures
            answers(r, self, shown@),
    {
        let top = top_cluster(&self.probed);
        let probed = self.probed.len();
        let closing = Closing {
            query: self.asked.query,
            domain: self.asked.domain,
            clusters: self.clusters,
            probed,
            top_cluster: top,
            top_shown: shown.to_owned(),
            domain_floor: self.asked.cfg.domain_floor,
            pool: self.pool,
            snippet_chars: self.asked.cfg.snippet_chars,
            exact_matches: self.exact,
            progress: self.progress,
            applied: self.asked.applied,
        };
        let ghost c = closing;
        let r = conclude(closing, self.ranked, &self.rows, &self.dense, &self.sparse);
        assert(closing_of(c, self, shown@));
        r
    }
}

/// The siblings of one seed: their rows, how much of the query each accounts
/// for, and the seed's relevance scaled by that.
#[derive(Debug)]
pub struct Litter {
    /// The row of the seed.
    pub seed: usize,
    pub rows: Vec<ChunkRow>,
    pub evidence: Vec<Score>,
    pub scaled: Vec<Score>,
}

/// The rows after those of the first `n` litters were added.
pub open spec fn grown_upto(rows: Seq<ChunkRow>, litters: Seq<Litter>, n: int) -> Seq<ChunkRow>
    decreases n,
{
    if n <= 0 {
        rows
    } else {
        grown_upto(rows, litters, n - 1) + litters[n - 1].rows@
    }
}

/// What is admitted of the first `n` litters.
pub open spec fn litters_upto(
    rows: Seq<ChunkRow>,
    litters: Seq<Litter>,
    floor: Score,
    top: Score,
    n: int,
) -> Seq<Candidate>
    decreases n,
{
    if n <= 0 {
        Seq::empty()
    } else {
        let l = litters[n - 1];
        litters_upto(rows, litters, floor, top, n - 1) + admitted_upto(
            l.seed,
            grown_upto(rows, litters, n - 1).len() as int,
            l.evidence@,
            l.scaled@,
            floor,
            top,
            l.evidence@.len() as int,
        )
    }
}

/// What an answer is closed with.
pub open spec fn closing_of(c: Closing, race: Race, shown: Seq<char>) -> bool {
    &&& c.query == race.asked.query
    &&& c.domain == race.asked.domain
    &&& c.clusters == race.clusters
    &&& c.probed == race.probed@.len()
    &&& c.top_cluster == top_of(race.probed@)
    &&& c.top_shown@ == shown
    &&& c.domain_floor == race.asked.cfg.domain_floor
    &&& c.pool == race.pool
    &&& c.snippet_chars == race.asked.cfg.snippet_chars
    &&& c.exact_matches == race.exact
    &&& c.progress == race.progress
    &&& c.applied == race.asked.applied
}

/// Whether an answer is that of a ranking.
pub open spec fn answers(a: Answer, race: Race, shown: Seq<char>) -> bool {
    exists|p: Assembly, c: Closing| #[trigger]
        is_assembled(a, p) && #[trigger] closing_of(c, race, shown) && closes(
            p,
            c,
            race.ranked@,
            race.rows@,
            race.dense@,
            race.sparse@,
        )
}

proof fn reordering_points_into(kept: Seq<Candidate>, scores: Seq<Score>, n: nat)
    requires
        point_into(kept, n),
        scores.len() == kept.len(),
    ensures
        point_into(reordered(kept, scores), n),
{
    let r = reordered(kept, scores);
    let s = with_scores(kept, scores);
    arranging_keeps_elements(s);
    assert forall|i: int| 0 <= i < r.len() implies (#[trigger] r[i]).row < n && match r[i].expanded_from {
        Some(seed) => seed < n,
        None => true,
    } by {
        broadcast use vstd::seq_lib::group_to_multiset_ensures;

        let w = arranged(s)[i];
        assert(arranged(s).to_multiset().count(w) > 0);
        assert(s.contains(w));
        let k = s.index_of(w);
        assert(s[k] == w);
        assert(kept[k] == r[i]);
    }
}

// ---------------------------------------------------------------------------
// What holds of the whole course
// ---------------------------------------------------------------------------

/// A query that names a regulation is never refused.
pub proof fn a_named_regulation_is_never_refused(c: Collected, lexical: Score)
    requires
        c.named,
    ensures
        passes(c, lexical),
{
}

/// What ranking starts with was retrieved: nothing is expanded yet, and no
/// more candidates are ranked than were fused.
pub proof fn ranking_starts_from_what_was_retrieved(pool: Seq<Fused>, rows: Seq<ChunkRow>, n: int)
    requires
        0 <= n <= pool.len(),
    ensures
        paired_upto(pool, rows, n).len() <= n,
        forall|i: int|
            0 <= i < paired_upto(pool, rows, n).len() ==> (#[trigger] paired_upto(
                pool,
                rows,
                n,
            )[i]).expanded_from is None,
    decreases n,
{
    if n > 0 {
        ranking_starts_from_what_was_retrieved(pool, rows, n - 1);
    }
}

/// Neither the floor nor the order brings in a candidate: what is ranked
/// afterwards was ranked before.
pub proof fn ranking_adds_nothing(
    ranked: Seq<Candidate>,
    coverages: Seq<Score>,
    scores: Seq<Score>,
    c: Composition,
    terms: Seq<Seq<char>>,
    i: int,
)
    requires
        scores.len() == floored(ranked, coverages, c, terms).len(),
        0 <= i < reordered(floored(ranked, coverages, c, terms), scores).len(),
    ensures
        ranked.contains(reordered(floored(ranked, coverages, c, terms), scores)[i]),
{
    let kept = floored(ranked, coverages, c, terms);
    let s = with_scores(kept, scores);
    arranging_keeps_elements(s);
    the_floor_never_empties_a_pool(ranked, coverages, c.relevance_floor);
    let r = reordered(kept, scores);
    assert(kept.contains(r[i])) by {
        broadcast use vstd::seq_lib::group_to_multiset_ensures;

        let x = arranged(s)[i];
        assert(arranged(s).to_multiset().count(x) > 0);
        assert(s.contains(x));
        let k = s.index_of(x);
        assert(s[k] == x);
        assert(kept[k] == r[i]);
    }
    let k = kept.index_of(r[i]);
    assert(kept[k] == r[i]);
}

/// An expansion only adds candidates: what was ranked keeps its place before
/// the ranking is done once more, and what is added is marked.
pub proof fn an_expansion_only_adds(
    ranked: Seq<Candidate>,
    rows: Seq<ChunkRow>,
    litters: Seq<Litter>,
    floor: Score,
    n: int,
    k: int,
)
    requires
        0 <= n <= litters.len(),
        ({
            let top = ceiling_upto(ranked, ranked.len() as int);
            0 <= k < litters_upto(rows, litters, floor, top, n).len()
        }),
    ensures
        ({
            let top = ceiling_upto(ranked, ranked.len() as int);
            let c = litters_upto(rows, litters, floor, top, n)[k];
            c.expanded_from is Some && c.relevance.le_spec(top)
        }),
    decreases n,
{
    let top = ceiling_upto(ranked, ranked.len() as int);
    let before = litters_upto(rows, litters, floor, top, n - 1);
    if k < before.len() {
        an_expansion_only_adds(ranked, rows, litters, floor, n - 1, k);
    } else {
        let l = litters[n - 1];
        crate::server::ranking::an_expanded_candidate_is_marked_and_capped(
            l.seed,
            grown_upto(rows, litters, n - 1).len() as int,
            l.evidence@,
            l.scaled@,
            floor,
            ranked,
            l.evidence@.len() as int,
            k - before.len(),
        );
    }
}

/// An answer holds no more results than were asked for, and says so where
/// something was cut.
pub proof fn an_answer_keeps_its_limit(a: Answer, race: Race, shown: Seq<char>)
    requires
        answers(a, race, shown),
    ensures
        a.results@.len() <= race.asked.applied.top_k,
        a.truncated == (race.ranked@.len() > race.asked.applied.top_k),
        said(a.detected_domain) == Some(race.asked.domain@),
        a.exact_matches == race.exact,
{
    let (p, c) = choose|p: Assembly, c: Closing| #[trigger]
        is_assembled(a, p) && #[trigger] closing_of(c, race, shown) && closes(
            p,
            c,
            race.ranked@,
            race.rows@,
            race.dense@,
            race.sparse@,
        );
    crate::server::answer::a_cut_answer_says_so(
        a,
        p,
        c,
        race.ranked@,
        race.rows@,
        race.dense@,
        race.sparse@,
    );
}

/// A query that names no regulation passes where, and only where, both the
/// evidence and the nearest cluster reach their floors.
pub proof fn an_unnamed_query_is_judged_on_both_halves(c: Collected, lexical: Score)
    requires
        !c.named,
    ensures
        passes(c, lexical) <==> c.asked.cfg.domain_lexical_floor.le_spec(lexical)
            && c.asked.cfg.domain_floor.le_spec(
            if c.probed@.len() > 0 {
                c.probed@[0].similarity
            } else {
                Score { bits: 0 }
            },
        ),
{
}

/// The arms of a request carry the configured weights, each on the arm it is
/// configured for: all three in hybrid mode, all but the dense one in keyword
/// mode, and the dense one alone in semantic mode.
pub proof fn a_mode_weighs_its_own_arms(c: Collected)
    ensures
        its_arms(c).len() == 3,
        its_arms(c)[0].name == "dense"@ && its_arms(c)[0].ids == hit_ids(c.dense@),
        its_arms(c)[1].name == "sparse"@ && its_arms(c)[1].ids == hit_ids(c.sparse@),
        its_arms(c)[2].name == "text"@ && its_arms(c)[2].ids == hit_ids(c.text@),
        c.asked.applied.mode == crate::contract::options::Mode::Hybrid ==> its_arms(c)[0].weight
            == c.asked.cfg.dense_weight,
        c.asked.applied.mode == crate::contract::options::Mode::Keyword ==> its_arms(
            c,
        )[0].weight.bits == 0,
        c.asked.applied.mode != crate::contract::options::Mode::Semantic ==> its_arms(c)[1].weight
            == c.asked.cfg.sparse_weight && its_arms(c)[2].weight == c.asked.cfg.text_weight,
        c.asked.applied.mode == crate::contract::options::Mode::Semantic ==> its_arms(
            c,
        )[1].weight.bits == 0 && its_arms(c)[2].weight.bits == 0 && !its_arms(c)[0].weight.lt_spec(
            Score { bits: 0x3f80_0000 },
        ) && !its_arms(c)[0].weight.lt_spec(c.asked.cfg.dense_weight) && (its_arms(c)[0].weight.bits
            == 0x3f80_0000 || its_arms(c)[0].weight == c.asked.cfg.dense_weight),
{
    crate::score::extremes_are_of_the_two(
        c.asked.cfg.dense_weight,
        Score { bits: 0x3f80_0000 },
    );
}

/// The windows of a request hold the probed clusters, each once and in order; no
/// window holds more than a batch, and every one but the last a whole one.
pub proof fn windows_hold_the_probed_clusters(r: Routed)
    requires
        window_clusters(r.windows@) == windows_from(
            cluster_ids(r.probed@),
            batch_of(r.asked.cfg.cluster_batch),
            0,
        ),
    ensures
        crate::server::ranking::concat(window_clusters(r.windows@)) == cluster_ids(r.probed@),
        forall|i: int|
            0 <= i < r.windows@.len() ==> 0 < (#[trigger] r.windows@[i]).clusters@.len()
                <= batch_of(r.asked.cfg.cluster_batch),
        forall|i: int|
            0 <= i < r.windows@.len() - 1 ==> (#[trigger] r.windows@[i]).clusters@.len()
                == batch_of(r.asked.cfg.cluster_batch),
{
    let ids = cluster_ids(r.probed@);
    let batch = r.asked.cfg.cluster_batch;
    crate::server::ranking::windows_cover_every_cluster_once(ids, batch_of(batch), 0);
    crate::server::ranking::windows_are_full_but_the_last(ids, batch, 0);
    let w = window_clusters(r.windows@);
    assert(ids.skip(0) =~= ids);
    assert(w.len() == r.windows@.len());
    assert forall|i: int| 0 <= i < r.windows@.len() implies w[i] == (
    #[trigger] r.windows@[i]).clusters@ by {}
    assert forall|i: int| 0 <= i < r.windows@.len() implies 0 < (
    #[trigger] r.windows@[i]).clusters@.len() <= batch_of(batch) by {
        assert(w[i] == r.windows@[i].clusters@);
    }
    assert forall|i: int| 0 <= i < r.windows@.len() - 1 implies (
    #[trigger] r.windows@[i]).clusters@.len() == batch_of(batch) by {
        assert(w[i] == r.windows@[i].clusters@);
    }
}

proof fn rows_only_grow(rows: Seq<ChunkRow>, litters: Seq<Litter>, m: int, n: int)
    requires
        0 <= m <= n <= litters.len(),
    ensures
        grown_upto(rows, litters, m).len() <= grown_upto(rows, litters, n).len(),
        forall|i: int|
            0 <= i < grown_upto(rows, litters, m).len() ==> #[trigger] grown_upto(
                rows,
                litters,
                n,
            )[i] == grown_upto(rows, litters, m)[i],
    decreases n,
{
    if m < n {
        rows_only_grow(rows, litters, m, n - 1);
    }
}

/// What an expansion admits are siblings: each candidate points at the row of a
/// sibling whose evidence does not fall below the floor, is marked with that
/// sibling's seed, and stands on its scaled relevance, or on the ceiling where
/// that is lower. The rows that were there keep their places.
pub proof fn an_admitted_candidate_is_a_sibling(
    rows: Seq<ChunkRow>,
    litters: Seq<Litter>,
    floor: Score,
    top: Score,
    n: int,
    k: int,
)
    requires
        0 <= n <= litters.len(),
        forall|l: int|
            0 <= l < litters.len() ==> (#[trigger] litters[l]).evidence@.len()
                == litters[l].rows@.len() && litters[l].scaled@.len() == litters[l].rows@.len(),
        grown_upto(rows, litters, n).len() <= usize::MAX,
        !top.nan(),
        0 <= k < litters_upto(rows, litters, floor, top, n).len(),
    ensures
        ({
            let grown = grown_upto(rows, litters, n);
            let c = litters_upto(rows, litters, floor, top, n)[k];
            &&& c.row < grown.len()
            &&& rows.len() <= grown.len()
            &&& forall|i: int| 0 <= i < rows.len() ==> #[trigger] grown[i] == rows[i]
            &&& exists|l: int, i: int|
                0 <= l < n && 0 <= i < litters[l].rows@.len() && grown[c.row as int]
                    == #[trigger] litters[l].rows@[i] && c.expanded_from == Some(litters[l].seed)
                    && !litters[l].evidence@[i].lt_spec(floor) && (litters[l].scaled@[i].le_spec(
                    top,
                ) ==> c.relevance == litters[l].scaled@[i]) && (top.lt_spec(
                    litters[l].scaled@[i],
                ) ==> c.relevance == top)
        }),
    decreases n,
{
    let grown = grown_upto(rows, litters, n);
    let all = litters_upto(rows, litters, floor, top, n);
    let before = litters_upto(rows, litters, floor, top, n - 1);
    rows_only_grow(rows, litters, 0, n);
    rows_only_grow(rows, litters, n - 1, n);
    if k < before.len() {
        an_admitted_candidate_is_a_sibling(rows, litters, floor, top, n - 1, k);
        assert(all[k] == before[k]);
        let g = grown_upto(rows, litters, n - 1);
        let c = all[k];
        let (l, i) = choose|l: int, i: int|
            0 <= l < n - 1 && 0 <= i < litters[l].rows@.len() && g[c.row as int]
                == #[trigger] litters[l].rows@[i] && c.expanded_from == Some(litters[l].seed)
                && !litters[l].evidence@[i].lt_spec(floor) && (litters[l].scaled@[i].le_spec(top)
                ==> c.relevance == litters[l].scaled@[i]) && (top.lt_spec(litters[l].scaled@[i])
                ==> c.relevance == top);
        assert(grown[c.row as int] == g[c.row as int]);
        assert(grown[c.row as int] == litters[l].rows@[i]);
    } else {
        let l = litters[n - 1];
        let base = grown_upto(rows, litters, n - 1).len() as int;
        let m = l.evidence@.len() as int;
        let mine = crate::server::ranking::admitted_upto(
            l.seed,
            base,
            l.evidence@,
            l.scaled@,
            floor,
            top,
            m,
        );
        let q = crate::server::ranking::a_sibling_stands_on_its_scaled_relevance(
            l.seed,
            base,
            l.evidence@,
            l.scaled@,
            floor,
            top,
            m,
        );
        let j = k - before.len();
        assert(all[k] == mine[j]);
        assert(mine[j].row == base + q[j]);
        assert(grown[base + q[j]] == l.rows@[q[j]]);
        assert(grown[all[k].row as int] == litters[n - 1].rows@[q[j]]);
    }
}

/// An answer shows the ranking: the result at place `i` is the candidate ranked
/// there, with the id, the provenance and a preview of its row, its relevance as
/// the score, and the id of the row it was expanded from.
pub proof fn an_answer_shows_the_ranking(a: Answer, race: Race, shown: Seq<char>, i: int)
    requires
        answers(a, race, shown),
        0 <= i < a.results@.len(),
    ensures
        a.results@.len() == if race.asked.applied.top_k < race.ranked@.len() {
            race.asked.applied.top_k as nat
        } else {
            race.ranked@.len()
        },
        ({
            let c = race.ranked@[i];
            let row = race.rows@[c.row as int];
            let f = a.results@[i];
            &&& f.id@ == row.id@
            &&& f.score == c.relevance
            &&& f.source.title@ == row.source_title@
            &&& said(f.source.url) == said(row.source_url)
            &&& said(f.source.section) == crate::server::answer::address_of(
                row.chapter,
                row.article,
            )
            &&& f.snippet@ == crate::contract::chunk::preview(
                crate::server::answer::collapsed(row.body@),
                race.asked.cfg.snippet_chars,
            )
            &&& f.scores.dense == crate::server::answer::arm_score(race.dense@, row.id@, 0)
            &&& f.scores.bm25 == crate::server::answer::arm_score(race.sparse@, row.id@, 0)
            &&& c.expanded_from is None ==> f.expanded_from is None
            &&& c.expanded_from is Some ==> f.expanded_from is Some && (f.expanded_from->0)@
                == race.rows@[c.expanded_from->0 as int].id@
        }),
        a.query@ == race.asked.query@,
        a.domain_confidence == (if race.probed@.len() > 0 {
            race.probed@[0].similarity
        } else {
            Score { bits: 0 }
        }),
        a.clusters_probed == race.probed@.len(),
        a.applied == Some(race.asked.applied),
{
    let (p, c) = choose|p: Assembly, c: Closing| #[trigger]
        is_assembled(a, p) && #[trigger] closing_of(c, race, shown) && closes(
            p,
            c,
            race.ranked@,
            race.rows@,
            race.dense@,
            race.sparse@,
        );
    let kept = first(race.ranked@, race.asked.applied.top_k as nat);
    assert(kept[i] == race.ranked@[i]);
    let v = p.results@[i]@;
    assert(v == a.results@[i]@);
    assert(v.id == race.rows@[race.ranked@[i].row as int].id@);
}

/// The pool of a request is the best of what was fused, the greater score
/// first, as many as the request asks for where there are as many.
pub proof fn a_pool_is_the_best_of_the_fused(k: Contest, scores: Seq<Score>)
    requires
        scores.len() == k.hits@.len(),
    ensures
        pool_from(k, scores).len() == if k.asked.applied.candidate_pool < k.hits@.len() {
            k.asked.applied.candidate_pool as nat
        } else {
            k.hits@.len()
        },
        forall|i: int|
            0 <= i < pool_from(k, scores).len() ==> #[trigger] pool_from(k, scores)[i] == arranged(
                scored(k.hits@, scores),
            )[i],
{
    arranging_keeps_elements(scored(k.hits@, scores));
}

/// What the factors of a pool are read in: its newest year is the present, and
/// every year of it lies between the oldest and the newest.
pub proof fn a_pool_is_read_in_its_own_years(
    cx: Context<'_>,
    kept: Seq<Candidate>,
    rows: Seq<ChunkRow>,
    terms: &Vec<String>,
    vocabulary: &Vocabulary,
    i: int,
)
    requires
        is_context(cx, kept, rows, terms, vocabulary),
        0 <= i < kept.len(),
        rows[kept[i].row as int].year is Some,
    ensures
        cx.oldest <= rows[kept[i].row as int].year->0 <= cx.newest,
        cx.now == cx.newest,
        cx.query_terms@ == terms@,
        cx.vocabulary == vocabulary,
{
    assert(years_of(kept, rows)[i] == rows[kept[i].row as int].year);
}

/// A request that names no regulation is told what the domain gate held against
/// which floor; one that names one is not.
pub proof fn the_domain_gate_is_told_where_it_is_asked(c: Collected, f: GateFigures)
    ensures
        c.named ==> gate_notes(c, f).len() == 0,
        !c.named ==> gate_notes(c, f) == seq![
            "domain gate: lexical "@ + f.lexical@ + " (floor "@ + f.lexical_floor@
                + "), centroid "@ + f.centroid@ + " (floor "@ + f.centroid_floor@ + ")"@,
        ],
{
}

/// Every sibling whose evidence does not fall below the floor is admitted,
/// whichever seed it belongs to: a candidate points at its row, and is marked
/// with its seed.
pub proof fn every_sibling_with_evidence_is_admitted(
    rows: Seq<ChunkRow>,
    litters: Seq<Litter>,
    floor: Score,
    top: Score,
    n: int,
    l: int,
    i: int,
) -> (k: int)
    requires
        0 <= l < n <= litters.len(),
        0 <= i < litters[l].rows@.len(),
        forall|m: int|
            0 <= m < litters.len() ==> (#[trigger] litters[m]).evidence@.len()
                == litters[m].rows@.len() && litters[m].scaled@.len() == litters[m].rows@.len(),
        grown_upto(rows, litters, n).len() <= usize::MAX,
        !litters[l].evidence@[i].lt_spec(floor),
    ensures
        0 <= k < litters_upto(rows, litters, floor, top, n).len(),
        ({
            let c = litters_upto(rows, litters, floor, top, n)[k];
            &&& c.row < grown_upto(rows, litters, n).len()
            &&& grown_upto(rows, litters, n)[c.row as int] == litters[l].rows@[i]
            &&& c.expanded_from == Some(litters[l].seed)
        }),
    decreases n,
{
    let grown = grown_upto(rows, litters, n);
    let g = grown_upto(rows, litters, n - 1);
    let all = litters_upto(rows, litters, floor, top, n);
    let before = litters_upto(rows, litters, floor, top, n - 1);
    rows_only_grow(rows, litters, n - 1, n);
    if l < n - 1 {
        let k = every_sibling_with_evidence_is_admitted(rows, litters, floor, top, n - 1, l, i);
        assert(all[k] == before[k]);
        assert(grown[all[k].row as int] == g[all[k].row as int]);
        k
    } else {
        let x = litters[n - 1];
        let base = g.len() as int;
        let m = x.evidence@.len() as int;
        let mine = admitted_upto(x.seed, base, x.evidence@, x.scaled@, floor, top, m);
        let q = crate::server::ranking::a_sibling_stands_on_its_scaled_relevance(
            x.seed,
            base,
            x.evidence@,
            x.scaled@,
            floor,
            top,
            m,
        );
        assert(q.contains(i));
        let j = q.index_of(i);
        let k = before.len() + j;
        assert(all[k] == mine[j]);
        assert(mine[j].row == base + q[j]);
        assert(grown[base + i] == x.rows@[i]);
        k
    }
}

} // verus!
