//! A search, step by step. The caller embeds the query, asks the store and does
//! the arithmetic; each step says what to ask for next.
//!
//! Identifiers come first and are looked up whatever routing decides, so that
//! a regulation which the query names is never lost to it.

use vstd::prelude::*;
use vstd::string::*;

use crate::contract::chunk::Chunk;
use crate::contract::response::{ExactMatch, SearchResponse, SearchResult};
use crate::engine::factors::is_zero;
use crate::engine::routing::{domain_of, first, AnchorMatch};
use crate::order::{arranged, arranging_keeps_elements};
use crate::retrieval::fusion::{arms_upto, gather, has_hit, hit_views, reciprocal_rank_fusion, scored, what_an_arm_returned_is_fused, Fused, Gathered};
use crate::retrieval::identifier::{extract, identifier_views, identifiers, Identifier};
use crate::retrieval::routing::{detect_domain, nearest_clusters, DetectedDomain, ProbedCluster};
use crate::retrieval::search::{arms_of, check_width, exact_hits, exact_ids, exact_upto, exact_views, flat, hydrate, hydrated_upto, ids_of, merge_by_score, ranked_ids, answers, respond, result_views, search_arms, EngineError, Findings, Probe};
use crate::retrieval::topk::Scored;
use crate::score::{Score, ONE_BITS};
use crate::space::config::Config;
use crate::text::texts;

verus! {

/// What a search may use.
#[derive(Debug, Clone, Copy, PartialEq)]
pub struct Dials {
    /// The width of the corpus's vectors.
    pub dim: usize,
    /// How near a query has to be to a domain.
    pub domain_threshold: Score,
    pub max_results: usize,
    pub snippet_chars: usize,
}

impl Dials {
    /// The dials of a configuration.
    pub fn of(config: &Config) -> (r: Dials)
        ensures
            r.dim == config.embedding.dim,
            r.domain_threshold == config.routing.domain_threshold,
            r.max_results == config.search.max_results,
            r.snippet_chars == config.search.snippet_chars,
    {
        Dials {
            dim: config.embedding.dim,
            domain_threshold: config.routing.domain_threshold,
            max_results: config.search.max_results,
            snippet_chars: config.search.snippet_chars,
        }
    }

    /// How many candidates of one kind are fused.
    pub open spec fn cap(self) -> int {
        self.max_results * 10
    }
}

/// A search that has begun. Next, the store is asked for each identifier, and
/// the query is compared with the anchors of the domains.
#[derive(Debug)]
pub struct Begun {
    pub query: String,
    pub dials: Dials,
    pub identifiers: Vec<Identifier>,
}

/// Begins a search with a query vector of that width.
pub fn begin(query: &str, width: usize, dials: Dials) -> (r: Result<Begun, EngineError>)
    ensures
        match r {
            Ok(b) => {
                &&& width == dials.dim
                &&& b.query@ == query@
                &&& b.dials == dials
                &&& identifier_views(b.identifiers@) == identifiers(query@)
            },
            Err(e) => width != dials.dim && e == (EngineError::QueryWidth {
                expected: dials.dim,
                got: width,
            }),
        },
{
    match check_width(dials.dim, width) {
        Ok(_) => Ok(Begun { query: query.to_owned(), dials, identifiers: extract(query) }),
        Err(e) => Err(e),
    }
}

/// A search that has been placed in a domain, or in none. Next, the query is
/// compared with the centroids of the domain.
#[derive(Debug)]
pub struct Placed {
    pub query: String,
    pub dials: Dials,
    /// How many identifiers the query holds.
    pub named: usize,
    pub exact: Vec<ExactMatch>,
    pub domain: Option<DetectedDomain>,
}

/// Whether this is the domain that the anchors give.
pub open spec fn is_domain(
    d: Option<DetectedDomain>,
    anchors: Seq<AnchorMatch>,
    threshold: Score,
) -> bool {
    match d {
        Some(d) => {
            &&& domain_of(anchors, threshold) is Some
            &&& d.id == anchors[domain_of(anchors, threshold)->0].id
            &&& d.similarity == anchors[domain_of(anchors, threshold)->0].similarity
        },
        None => domain_of(anchors, threshold) is None,
    }
}

impl Begun {
    /// Takes in what the store found of each identifier, and which domains are
    /// near.
    pub fn place(self, found: &Vec<Vec<String>>, anchors: &Vec<AnchorMatch>) -> (r: Placed)
        requires
            found@.len() == self.identifiers@.len(),
        ensures
            r.query == self.query,
            r.dials == self.dials,
            r.named == self.identifiers@.len(),
            exact_views(r.exact@) == exact_upto(
                self.identifiers@,
                found@,
                self.identifiers@.len() as int,
            ),
            is_domain(r.domain, anchors@, self.dials.domain_threshold),
    {
        let exact = exact_hits(&self.identifiers, found);
        let domain = detect_domain(anchors, self.dials.domain_threshold);
        Placed {
            query: self.query,
            dials: self.dials,
            named: self.identifiers.len(),
            exact,
            domain,
        }
    }
}

/// A search with the clusters that it opens. Next, each of them is scanned,
/// one at a time.
#[derive(Debug)]
pub struct Opened {
    pub query: String,
    pub dials: Dials,
    pub named: usize,
    pub exact: Vec<ExactMatch>,
    pub domain: Option<DetectedDomain>,
    pub probed: Vec<ProbedCluster>,
    /// How many clusters there are.
    pub clusters: usize,
}

/// How many clusters are opened, of that many.
pub open spec fn probe_width(p: Probe, clusters: nat) -> nat {
    match p {
        Probe::Nearest(n) => n as nat,
        Probe::Exhaustive => clusters,
    }
}

impl Placed {
    /// Picks the clusters to open. Without a domain there is nothing to open.
    pub fn open(self, centroids: Vec<ProbedCluster>, probe: Probe) -> (r: Opened)
        ensures
            r.query == self.query,
            r.dials == self.dials,
            r.named == self.named,
            r.exact == self.exact,
            r.domain == self.domain,
            r.clusters == centroids@.len(),
            r.probed@ == if self.domain is Some {
                first(arranged(centroids@), probe_width(probe, centroids@.len()))
            } else {
                Seq::empty()
            },
    {
        let clusters = centroids.len();
        let probed = if self.domain.is_some() {
            nearest_clusters(centroids, probe.width(clusters))
        } else {
            Vec::new()
        };
        Opened {
            query: self.query,
            dials: self.dials,
            named: self.named,
            exact: self.exact,
            domain: self.domain,
            probed,
            clusters,
        }
    }
}

/// A search with everything that was found. Next, the places that each hit was
/// given are added up.
#[derive(Debug)]
pub struct Gleaned {
    pub query: String,
    pub dials: Dials,
    pub named: usize,
    pub exact: Vec<ExactMatch>,
    pub domain: Option<DetectedDomain>,
    pub probed: usize,
    pub clusters: usize,
    pub rows_scanned: usize,
    pub dense: Vec<Scored>,
    pub keyword: Vec<Scored>,
    pub hits: Vec<Gathered>,
}

/// The ids of exact hits, in order.
pub open spec fn exact_texts(v: Seq<ExactMatch>) -> Seq<Seq<char>> {
    v.map_values(|m: ExactMatch| m.id@)
}

impl Gleaned {
    /// Whether the hits are those of the scan, of the keyword search and of the
    /// lookup of identifiers.
    pub open spec fn wf(self) -> bool {
        let arms = arms_of(ids_of(self.dense@), ids_of(self.keyword@), exact_texts(self.exact@));
        hit_views(self.hits@) == arms_upto(arms, arms.len() as int)
    }
}

impl Opened {
    /// Takes in what the scans and the keyword searches of the opened clusters
    /// found, and gathers it with the exact hits.
    pub fn glean(
        self,
        dense: Vec<Vec<Scored>>,
        keyword: Vec<Vec<Scored>>,
        rows_scanned: usize,
    ) -> (r: Gleaned)
        requires
            self.dials.cap() <= usize::MAX,
        ensures
            r.wf(),
            r.query == self.query,
            r.dials == self.dials,
            r.named == self.named,
            r.exact == self.exact,
            r.domain == self.domain,
            r.probed == self.probed@.len(),
            r.clusters == self.clusters,
            r.rows_scanned == rows_scanned,
            r.dense@ == first(arranged(flat(dense@)), self.dials.cap() as nat),
            r.keyword@ == first(arranged(flat(keyword@)), self.dials.cap() as nat),
    {
        let cap: usize = self.dials.max_results * 10;
        let dense = merge_by_score(dense, cap);
        let keyword = merge_by_score(keyword, cap);
        let a = ranked_ids(&dense);
        let b = ranked_ids(&keyword);
        let c = exact_ids(&self.exact);
        let arms = search_arms(&a, &b, &c);
        let hits = gather(&arms);
        assert(texts(c@) == exact_texts(self.exact@));
        proof {
            let views = crate::retrieval::fusion::arm_views(arms@);
            assert(views.len() == arms@.len());
        }
        Gleaned {
            query: self.query,
            dials: self.dials,
            named: self.named,
            exact: self.exact,
            domain: self.domain,
            probed: self.probed.len(),
            clusters: self.clusters,
            rows_scanned,
            dense,
            keyword,
            hits,
        }
    }
}

/// A search with its order. Next, the chunks of what stands in it are fetched.
#[derive(Debug)]
pub struct Ranked {
    pub query: String,
    pub dials: Dials,
    pub named: usize,
    pub exact: Vec<ExactMatch>,
    pub domain: Option<DetectedDomain>,
    pub probed: usize,
    pub clusters: usize,
    pub rows_scanned: usize,
    pub dense: Vec<Scored>,
    pub keyword: Vec<Scored>,
    pub fused: Vec<Fused>,
}

impl Gleaned {
    /// Orders the hits on what their places add up to, and cuts them to the
    /// number of results.
    pub fn rank(self, scores: &Vec<Score>) -> (r: Ranked)
        requires
            scores@.len() == self.hits@.len(),
        ensures
            r.query == self.query,
            r.dials == self.dials,
            r.named == self.named,
            r.exact == self.exact,
            r.domain == self.domain,
            r.probed == self.probed,
            r.clusters == self.clusters,
            r.rows_scanned == self.rows_scanned,
            r.dense == self.dense,
            r.keyword == self.keyword,
            r.fused@ == first(
                arranged(scored(self.hits@, scores@)),
                self.dials.max_results as nat,
            ),
    {
        let mut fused = reciprocal_rank_fusion(self.hits, scores);
        let ghost all = fused@;
        fused.truncate(self.dials.max_results);
        assert(fused@ =~= first(all, self.dials.max_results as nat));
        Ranked {
            query: self.query,
            dials: self.dials,
            named: self.named,
            exact: self.exact,
            domain: self.domain,
            probed: self.probed,
            clusters: self.clusters,
            rows_scanned: self.rows_scanned,
            dense: self.dense,
            keyword: self.keyword,
            fused,
        }
    }
}

impl Ranked {
    /// The results that the fetched chunks make, for the answer.
    pub fn results(&self, chunks: &Vec<Chunk>) -> (r: Vec<SearchResult>)
        ensures
            result_views(r@) == hydrated_upto(
                self.fused@,
                chunks@,
                self.dials.snippet_chars,
                self.dense@,
                self.keyword@,
                self.fused@.len() as int,
            ),
    {
        hydrate(&self.fused, chunks, self.dials.snippet_chars, &self.dense, &self.keyword)
    }

    /// The answer, with two figures in writing: the similarity of the domain and
    /// the top score.
    pub fn answer(
        self,
        results: Vec<SearchResult>,
        similarity_text: String,
        top_text: String,
    ) -> (r: SearchResponse)
        ensures
            answers(r, self.query@, findings_of(self, results, similarity_text, top_text)),
    {
        let found = Findings {
            domain: self.domain,
            similarity_text,
            probed: self.probed,
            clusters: self.clusters,
            rows_scanned: self.rows_scanned,
            identifiers: self.named,
            exact: self.exact,
            fused: self.fused.len(),
            results,
            top_text,
        };
        respond(self.query.as_str(), found)
    }
}

/// What a search has found, for the answer to be made of.
pub open spec fn findings_of(
    s: Ranked,
    results: Vec<SearchResult>,
    similarity_text: String,
    top_text: String,
) -> Findings {
    Findings {
        domain: s.domain,
        similarity_text,
        probed: s.probed,
        clusters: s.clusters,
        rows_scanned: s.rows_scanned,
        identifiers: s.named,
        exact: s.exact,
        fused: s.fused.len(),
        results,
        top_text,
    }
}

/// Routing never gates identifiers: whatever routing decided and whatever was
/// scanned, every exact hit is among what is fused.
pub proof fn routing_never_gates_identifiers(g: Gleaned, i: int)
    requires
        g.wf(),
        0 <= i < g.exact@.len(),
    ensures
        has_hit(hit_views(g.hits@), g.exact@[i].id@),
{
    let ids = exact_texts(g.exact@);
    let arms = arms_of(ids_of(g.dense@), ids_of(g.keyword@), ids);
    assert(ids.len() == g.exact@.len());
    assert(arms[2].ids == ids);
    assert(ids[i] == g.exact@[i].id@);
    assert(!is_zero(Score { bits: ONE_BITS })) by {
        assert((Score { bits: ONE_BITS }).rank() != (Score { bits: 0 }).rank());
    }
    what_an_arm_returned_is_fused(arms, 3, 2, i);
}

/// Results come from the order only, and there are no more of them than the
/// order is long.
pub proof fn results_come_from_the_order(
    fused: Seq<Fused>,
    chunks: Seq<Chunk>,
    snippet_chars: usize,
    dense: Seq<Scored>,
    keyword: Seq<Scored>,
    n: int,
)
    requires
        0 <= n <= fused.len(),
    ensures
        ({
            let results = hydrated_upto(fused, chunks, snippet_chars, dense, keyword, n);
            &&& results.len() <= n
            &&& forall|i: int|
                0 <= i < results.len() ==> exists|k: int|
                    0 <= k < n && (#[trigger] fused[k]).id@ == (#[trigger] results[i]).id
                        && fused[k].score == results[i].score
        }),
    decreases n,
{
    if n > 0 {
        results_come_from_the_order(fused, chunks, snippet_chars, dense, keyword, n - 1);
        let before = hydrated_upto(fused, chunks, snippet_chars, dense, keyword, n - 1);
        let results = hydrated_upto(fused, chunks, snippet_chars, dense, keyword, n);
        assert forall|i: int| 0 <= i < results.len() implies exists|k: int|
            0 <= k < n && (#[trigger] fused[k]).id@ == (#[trigger] results[i]).id
                && fused[k].score == results[i].score by {
            if i < before.len() {
                assert(results[i] == before[i]);
            } else {
                assert(fused[n - 1].id@ == results[i].id);
            }
        }
    }
}

/// Ten candidates of each kind are fused for every result.
pub proof fn ten_candidates_are_fused_for_each_result(a: Dials, b: Dials)
    ensures
        b.max_results == a.max_results + 1 ==> b.cap() == a.cap() + 10,
        a.max_results == 0 ==> a.cap() == 0,
{
}

/// An exhaustive search opens every cluster, the nearest first; another opens
/// as many as it asks for, where there are as many.
pub proof fn a_search_opens_as_many_clusters_as_it_asks_for(centroids: Seq<ProbedCluster>, n: usize)
    ensures
        first(arranged(centroids), probe_width(Probe::Exhaustive, centroids.len())) == arranged(
            centroids,
        ),
        n <= centroids.len() ==> first(
            arranged(centroids),
            probe_width(Probe::Nearest(n), centroids.len()),
        ).len() == n,
        n > centroids.len() ==> first(
            arranged(centroids),
            probe_width(Probe::Nearest(n), centroids.len()),
        ) == arranged(centroids),
{
    arranging_keeps_elements(centroids);
}

/// What is answered of a search is what it found: its domain, its counts and
/// its exact hits, as they stand.
pub proof fn an_answer_is_made_of_what_was_found(
    s: Ranked,
    results: Vec<SearchResult>,
    similarity_text: String,
    top_text: String,
)
    ensures
        ({
            let f = findings_of(s, results, similarity_text, top_text);
            &&& f.domain == s.domain
            &&& f.probed == s.probed
            &&& f.clusters == s.clusters
            &&& f.rows_scanned == s.rows_scanned
            &&& f.identifiers == s.named
            &&& f.exact == s.exact
            &&& f.fused == s.fused@.len()
            &&& f.results == results
            &&& f.similarity_text == similarity_text
            &&& f.top_text == top_text
        }),
{
}

} // verus!
