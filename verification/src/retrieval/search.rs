//! The course of a search: identifiers, routing, scanning, fusing and the
//! answer.
//!
//! The store is asked by the caller. What is asked, and what is made of the
//! replies, is decided here. Identifiers are looked up before routing and
//! whatever routing decides, so a regulation that the query names is never
//! lost to it.

use vstd::prelude::*;
use vstd::string::*;

use crate::contract::chunk::{preview, Chunk};
use crate::contract::response::{citation_block, citation_lines, rendered, Citation, ComponentScores, Confidence, ExactMatch, SearchResponse, SearchResult, Source, SummaryPayload};
use crate::engine::factors::is_shuffle;
use crate::engine::routing::first;
use crate::order::{arrange, arranged, picks, picks_one_more};
use crate::retrieval::fusion::{arm_views, Arm, ArmView, Fused};
use crate::retrieval::identifier::Identifier;
use crate::retrieval::routing::DetectedDomain;
use crate::retrieval::topk::{the_best_comes_out_first, Scored};
use crate::score::{Score, ONE_BITS};
use crate::text::{decimal, list_contains, same, show, texts, trimmed};

verus! {

/// Why a search cannot be run.
#[derive(Debug, Clone, Copy, PartialEq, Eq)]
pub enum EngineError {
    /// The query vector does not have the corpus's width.
    QueryWidth { expected: usize, got: usize },
}

impl EngineError {
    /// The message for the caller.
    pub fn message(&self) -> (r: String)
        ensures
            match self {
                EngineError::QueryWidth { expected, got } => r@ == "query vector has "@ + decimal(
                    *got as nat,
                ) + " dimensions but the corpus is "@ + decimal(*expected as nat),
            },
    {
        match self {
            EngineError::QueryWidth { expected, got } => {
                let mut out = "query vector has ".to_owned();
                let a = show(*got as u64);
                out.append(a.as_str());
                out.append(" dimensions but the corpus is ");
                let b = show(*expected as u64);
                out.append(b.as_str());
                out
            },
        }
    }
}

/// Whether a query vector of this width can be compared with the corpus.
pub fn check_width(expected: usize, got: usize) -> (r: Result<(), EngineError>)
    ensures
        match r {
            Ok(_) => got == expected,
            Err(e) => got != expected && e == (EngineError::QueryWidth { expected, got }),
        },
{
    if got != expected {
        Err(EngineError::QueryWidth { expected, got })
    } else {
        Ok(())
    }
}

/// How many clusters to open.
#[derive(Debug, Clone, Copy, PartialEq, Eq)]
pub enum Probe {
    /// The nearest ones.
    Nearest(usize),
    /// Every cluster of the domain: the baseline that routing is measured
    /// against.
    Exhaustive,
}

impl Probe {
    /// How many clusters to open, of a domain with that many.
    pub fn width(&self, clusters: usize) -> (r: usize)
        ensures
            r == match self {
                Probe::Nearest(n) => *n,
                Probe::Exhaustive => clusters,
            },
    {
        match self {
            Probe::Nearest(n) => *n,
            Probe::Exhaustive => clusters,
        }
    }
}

/// The lists one after another.
pub open spec fn flat(lists: Seq<Vec<Scored>>) -> Seq<Scored>
    decreases lists.len(),
{
    if lists.len() == 0 {
        Seq::empty()
    } else {
        flat(lists.drop_last()) + lists.last()@
    }
}

/// Merges the ranked lists of several clusters into one, best first, no longer
/// than `cap`.
pub fn merge_by_score(lists: Vec<Vec<Scored>>, cap: usize) -> (r: Vec<Scored>)
    ensures
        r@ == first(arranged(flat(lists@)), cap as nat),
{
    let ghost all = lists@;
    let mut rest = lists;
    let mut list: Vec<Scored> = Vec::new();
    proof {
        assert(all.take(all.len() as int) =~= all);
        assert(flat(all) + list@ =~= flat(all));
    }
    while rest.len() > 0
        invariant
            rest@ == all.take(rest@.len() as int),
            rest@.len() <= all.len(),
            flat(rest@) + list@ == flat(all),
        decreases rest@.len(),
    {
        let ghost n = rest@.len();
        let ghost was = rest@;
        match rest.pop() {
            Some(mut head) => {
                let ghost h = head@;
                let ghost tail = list@;
                head.append(&mut list);
                list = head;
                assert(list@ =~= h + tail);
                assert(was.drop_last() =~= rest@);
                assert(rest@ =~= all.take(n - 1));
                assert(flat(was) + tail =~= flat(rest@) + list@);
            },
            None => {},
        }
    }
    assert(flat(rest@) + list@ =~= list@);
    let mut merged = arrange(list);
    let ghost sorted = merged@;
    merged.truncate(cap);
    assert(merged@ =~= first(sorted, cap as nat));
    merged
}

/// An exact hit, as what it says: the chunk, and the words that named it.
pub open spec fn exact_views(v: Seq<ExactMatch>) -> Seq<(Seq<char>, Seq<char>)> {
    v.map_values(|m: ExactMatch| (m.id@, m.matched_on@))
}

/// The hits of one identifier.
pub open spec fn hits_of(id: Identifier, found: Vec<String>) -> Seq<(Seq<char>, Seq<char>)> {
    found@.map_values(|c: String| (c@, id.matched_on@))
}

/// The hits of the first `n` identifiers, in order.
pub open spec fn exact_upto(ids: Seq<Identifier>, found: Seq<Vec<String>>, n: int) -> Seq<
    (Seq<char>, Seq<char>),
>
    decreases n,
{
    if n <= 0 {
        Seq::empty()
    } else {
        exact_upto(ids, found, n - 1) + hits_of(ids[n - 1], found[n - 1])
    }
}

/// The exact hits of a query: for every identifier, in the order of the query,
/// every chunk that the store found under its canonical form.
pub fn exact_hits(identifiers: &Vec<Identifier>, found: &Vec<Vec<String>>) -> (r: Vec<ExactMatch>)
    requires
        found@.len() == identifiers@.len(),
    ensures
        exact_views(r@) == exact_upto(identifiers@, found@, identifiers@.len() as int),
{
    let mut out: Vec<ExactMatch> = Vec::new();
    let mut i: usize = 0;
    assert(exact_views(out@) =~= Seq::empty());
    while i < identifiers.len()
        invariant
            i <= identifiers@.len(),
            found@.len() == identifiers@.len(),
            exact_views(out@) == exact_upto(identifiers@, found@, i as int),
        decreases identifiers@.len() - i,
    {
        let chunks = &found[i];
        let ghost before = exact_views(out@);
        let ghost mine = hits_of(identifiers@[i as int], found@[i as int]);
        let mut k: usize = 0;
        assert(before + mine.take(0) =~= before);
        while k < chunks.len()
            invariant
                k <= chunks@.len(),
                i < identifiers@.len(),
                found@.len() == identifiers@.len(),
                *chunks == found@[i as int],
                mine == hits_of(identifiers@[i as int], found@[i as int]),
                exact_views(out@) == before + mine.take(k as int),
            decreases chunks@.len() - k,
        {
            let ghost so_far = exact_views(out@);
            out.push(
                ExactMatch {
                    id: chunks[k].clone(),
                    matched_on: identifiers[i].matched_on.clone(),
                },
            );
            assert(exact_views(out@) =~= so_far.push(mine[k as int]));
            assert(before + mine.take(k + 1) =~= so_far.push(mine[k as int]));
            k = k + 1;
        }
        assert(mine.take(k as int) =~= mine);
        i = i + 1;
    }
    out
}

/// The ids of a list of candidates.
pub open spec fn ids_of(v: Seq<Scored>) -> Seq<Seq<char>> {
    v.map_values(|s: Scored| s.id@)
}

/// The ids of a ranked list, in order.
pub fn ranked_ids(v: &Vec<Scored>) -> (r: Vec<String>)
    ensures
        texts(r@) == ids_of(v@),
{
    let mut out: Vec<String> = Vec::new();
    let mut i: usize = 0;
    while i < v.len()
        invariant
            i <= v@.len(),
            texts(out@) == ids_of(v@).take(i as int),
        decreases v@.len() - i,
    {
        let ghost before = texts(out@);
        out.push(v[i].id.clone());
        assert(texts(out@) =~= before.push(v@[i as int].id@));
        assert(texts(out@) =~= ids_of(v@).take(i + 1));
        i = i + 1;
    }
    assert(texts(out@) =~= ids_of(v@));
    out
}

/// The ids of the exact hits, in order.
pub fn exact_ids(v: &Vec<ExactMatch>) -> (r: Vec<String>)
    ensures
        texts(r@) == v@.map_values(|m: ExactMatch| m.id@),
{
    let ghost all = v@.map_values(|m: ExactMatch| m.id@);
    let mut out: Vec<String> = Vec::new();
    let mut i: usize = 0;
    while i < v.len()
        invariant
            i <= v@.len(),
            all == v@.map_values(|m: ExactMatch| m.id@),
            texts(out@) == all.take(i as int),
        decreases v@.len() - i,
    {
        let ghost before = texts(out@);
        out.push(v[i].id.clone());
        assert(texts(out@) =~= before.push(v@[i as int].id@));
        assert(texts(out@) =~= all.take(i + 1));
        i = i + 1;
    }
    assert(texts(out@) =~= all);
    out
}

/// The arms that are fused, as what they say.
pub open spec fn arms_of(
    dense: Seq<Seq<char>>,
    keyword: Seq<Seq<char>>,
    exact: Seq<Seq<char>>,
) -> Seq<ArmView> {
    let one = Score { bits: ONE_BITS };
    let routed = seq![
        ArmView { name: "dense"@, ids: dense, weight: one },
        ArmView { name: "bm25"@, ids: keyword, weight: one },
    ];
    if exact.len() > 0 {
        routed.push(ArmView { name: "exact"@, ids: exact, weight: one })
    } else {
        routed
    }
}

/// The arms that are fused: what the scan found, what the keyword search
/// found, and the exact hits where there are any, each with the same weight.
pub fn search_arms<'a>(
    dense: &'a Vec<String>,
    keyword: &'a Vec<String>,
    exact: &'a Vec<String>,
) -> (r: Vec<Arm<'a>>)
    ensures
        arm_views(r@) == arms_of(texts(dense@), texts(keyword@), texts(exact@)),
{
    let one = Score { bits: ONE_BITS };
    let mut arms: Vec<Arm<'a>> = vec![
        Arm { name: "dense", ids: dense, weight: one },
        Arm { name: "bm25", ids: keyword, weight: one },
    ];
    if exact.len() > 0 {
        arms.push(Arm { name: "exact", ids: exact, weight: one });
    }
    assert(arm_views(arms@) =~= arms_of(texts(dense@), texts(keyword@), texts(exact@)));
    arms
}

/// The score that a list gave an id, from the `i`-th place on; zero where it
/// did not return it.
pub open spec fn score_in(v: Seq<Scored>, id: Seq<char>, i: int) -> Score
    decreases v.len() - i,
{
    if i >= v.len() {
        Score { bits: 0 }
    } else if v[i].id@ == id {
        v[i].score
    } else {
        score_in(v, id, i + 1)
    }
}

fn find_score(v: &Vec<Scored>, id: &str) -> (r: Score)
    ensures
        r == score_in(v@, id@, 0),
{
    let mut i: usize = 0;
    while i < v.len()
        invariant
            i <= v@.len(),
            score_in(v@, id@, 0) == score_in(v@, id@, i as int),
        decreases v@.len() - i,
    {
        if same(v[i].id.as_str(), id) {
            return v[i].score;
        }
        i = i + 1;
    }
    Score { bits: 0 }
}

/// The place of the last of the first `n` chunks that has that id.
pub open spec fn chunk_upto(chunks: Seq<Chunk>, id: Seq<char>, n: int) -> Option<int>
    decreases n,
{
    if n <= 0 {
        None
    } else if chunks[n - 1].id@ == id {
        Some(n - 1)
    } else {
        chunk_upto(chunks, id, n - 1)
    }
}

fn find_chunk(chunks: &Vec<Chunk>, id: &str) -> (r: Option<usize>)
    ensures
        match r {
            Some(i) => i < chunks@.len() && chunk_upto(chunks@, id@, chunks@.len() as int) == Some(
                i as int,
            ),
            None => chunk_upto(chunks@, id@, chunks@.len() as int) is None,
        },
{
    let mut n: usize = chunks.len();
    while n > 0
        invariant
            n <= chunks@.len(),
            chunk_upto(chunks@, id@, chunks@.len() as int) == chunk_upto(chunks@, id@, n as int),
        decreases n,
    {
        if same(chunks[n - 1].id.as_str(), id) {
            return Some(n - 1);
        }
        n = n - 1;
    }
    None
}

/// A result, as what it says.
pub ghost struct ResultView {
    pub id: Seq<char>,
    pub snippet: Seq<char>,
    pub score: Score,
    pub scores: ComponentScores,
    pub title: Seq<char>,
    pub url: Seq<char>,
    pub page: Option<i32>,
    pub section: Option<Seq<char>>,
}

/// An optional text, as what it says.
pub open spec fn optional_text(s: Option<String>) -> Option<Seq<char>> {
    match s {
        Some(t) => Some(t@),
        None => None,
    }
}

impl SearchResult {
    pub open spec fn view(self) -> ResultView {
        ResultView {
            id: self.id@,
            snippet: self.snippet@,
            score: self.score,
            scores: self.scores,
            title: self.source.title@,
            url: self.source.url@,
            page: self.source.locator.page,
            section: optional_text(self.source.locator.section),
        }
    }
}

/// The results of a list, as what they say.
pub open spec fn result_views(v: Seq<SearchResult>) -> Seq<ResultView> {
    v.map_values(|r: SearchResult| r@)
}

/// The result that a fused id makes of its chunk.
pub open spec fn result_of(
    f: Fused,
    chunk: Chunk,
    snippet_chars: usize,
    dense: Seq<Scored>,
    keyword: Seq<Scored>,
) -> ResultView {
    ResultView {
        id: f.id@,
        snippet: preview(trimmed(chunk.body@), snippet_chars),
        score: f.score,
        scores: ComponentScores {
            dense: score_in(dense, f.id@, 0),
            bm25: score_in(keyword, f.id@, 0),
        },
        title: chunk.source_title@,
        url: chunk.source_url@,
        page: chunk.locator_page,
        section: optional_text(chunk.locator_section),
    }
}

/// The results of the first `n` fused ids: those whose chunk was fetched, in
/// fused order.
pub open spec fn hydrated_upto(
    fused: Seq<Fused>,
    chunks: Seq<Chunk>,
    snippet_chars: usize,
    dense: Seq<Scored>,
    keyword: Seq<Scored>,
    n: int,
) -> Seq<ResultView>
    decreases n,
{
    if n <= 0 {
        Seq::empty()
    } else {
        let before = hydrated_upto(fused, chunks, snippet_chars, dense, keyword, n - 1);
        let f = fused[n - 1];
        match chunk_upto(chunks, f.id@, chunks.len() as int) {
            Some(c) => before.push(result_of(f, chunks[c], snippet_chars, dense, keyword)),
            None => before,
        }
    }
}

/// Turns fused ids into full results with snippets and provenance. The order
/// of the ranking is kept; an id whose chunk was not fetched is left out.
pub fn hydrate(
    fused: &Vec<Fused>,
    chunks: &Vec<Chunk>,
    snippet_chars: usize,
    dense: &Vec<Scored>,
    keyword: &Vec<Scored>,
) -> (r: Vec<SearchResult>)
    ensures
        result_views(r@) == hydrated_upto(
            fused@,
            chunks@,
            snippet_chars,
            dense@,
            keyword@,
            fused@.len() as int,
        ),
{
    let mut out: Vec<SearchResult> = Vec::new();
    let mut i: usize = 0;
    assert(result_views(out@) =~= Seq::<ResultView>::empty());
    while i < fused.len()
        invariant
            i <= fused@.len(),
            result_views(out@) == hydrated_upto(
                fused@,
                chunks@,
                snippet_chars,
                dense@,
                keyword@,
                i as int,
            ),
        decreases fused@.len() - i,
    {
        let f = &fused[i];
        let ghost before = result_views(out@);
        match find_chunk(chunks, f.id.as_str()) {
            Some(c) => {
                let chunk = &chunks[c];
                let r = SearchResult {
                    id: f.id.clone(),
                    snippet: chunk.snippet(snippet_chars),
                    score: f.score,
                    scores: ComponentScores {
                        dense: find_score(dense, f.id.as_str()),
                        bm25: find_score(keyword, f.id.as_str()),
                    },
                    source: chunk.source(),
                };
                let ghost v = r@;
                assert(v == result_of(
                    fused@[i as int],
                    chunks@[c as int],
                    snippet_chars,
                    dense@,
                    keyword@,
                ));
                out.push(r);
                assert(result_views(out@) =~= before.push(v));
            },
            None => {},
        }
        i = i + 1;
    }
    out
}

// ---------------------------------------------------------------------------
// The answer
// ---------------------------------------------------------------------------

/// The pattern of `0.60`.
pub const SURE: u32 = 0x3f19_999a;

/// The pattern of `0.40`.
pub const FAIRLY_SURE: u32 = 0x3ecc_cccd;

/// How sure routing was, on the published scale.
pub open spec fn routing_confidence(similarity: Score, results: nat) -> Confidence {
    if results == 0 {
        Confidence::Absent
    } else if (Score { bits: SURE }).le_spec(similarity) {
        Confidence::High
    } else if (Score { bits: FAIRLY_SURE }).le_spec(similarity) {
        Confidence::Medium
    } else {
        Confidence::Low
    }
}

/// Maps domain similarity and result count onto the published confidence. Even
/// a perfect domain match means nothing if the leaves were empty.
pub fn confidence_for(domain_similarity: Score, result_count: usize) -> (r: Confidence)
    ensures
        r == routing_confidence(domain_similarity, result_count as nat),
{
    if result_count == 0 {
        return Confidence::Absent;
    }
    let sure = Score { bits: SURE };
    let fairly = Score { bits: FAIRLY_SURE };
    if sure.le(domain_similarity) {
        Confidence::High
    } else if fairly.le(domain_similarity) {
        Confidence::Medium
    } else {
        Confidence::Low
    }
}

/// How much a result set is trusted: nothing found is never confident, and an
/// exact identifier is the strongest evidence there is.
pub open spec fn confidence_of(similarity: Score, results: nat, exact: nat) -> Confidence {
    if results > 0 && exact > 0 {
        Confidence::High
    } else {
        routing_confidence(similarity, results)
    }
}

/// The document that a result comes from, in one line.
pub open spec fn source_line(s: Source) -> Seq<char> {
    s.title@ + " — "@ + s.url@
}

/// The lines of a list of results.
pub open spec fn source_lines(v: Seq<SearchResult>) -> Seq<Seq<char>> {
    v.map_values(|r: SearchResult| source_line(r.source))
}

/// A reference to the citation under a number.
pub open spec fn reference(n: nat) -> Seq<char> {
    "["@ + decimal(n) + "]"@
}

/// References to the first citation of every document among the first `n`
/// results.
pub open spec fn references_upto(lines: Seq<Seq<char>>, n: int) -> Seq<Seq<char>>
    decreases n,
{
    if n <= 0 {
        Seq::empty()
    } else if lines.take(n - 1).contains(lines[n - 1]) {
        references_upto(lines, n - 1)
    } else {
        references_upto(lines, n - 1).push(reference(n as nat))
    }
}

/// What is said of how broadly the corpus was consulted.
pub open spec fn coverage_text(clusters: nat, documents: nat, top: Seq<char>) -> Seq<char> {
    decimal(clusters) + " clusters probed, "@ + decimal(documents)
        + " distinct documents, top score "@ + top
}

/// Material for the agent to write prose from: every snippet; a reference to
/// the citation of every document, once; and how broadly the corpus was
/// consulted, with the top score written as `top`.
pub fn summary_payload(results: &Vec<SearchResult>, clusters_probed: usize, top: &str) -> (r:
    SummaryPayload)
    ensures
        texts(r.snippets@) == results@.map_values(|x: SearchResult| x.snippet@),
        texts(r.sources@) == references_upto(source_lines(results@), results@.len() as int),
        r.coverage@ == coverage_text(clusters_probed as nat, r.sources@.len(), top@),
{
    let ghost lines = source_lines(results@);
    let ghost cuts = results@.map_values(|x: SearchResult| x.snippet@);
    let mut snippets: Vec<String> = Vec::new();
    let mut sources: Vec<String> = Vec::new();
    let mut seen: Vec<String> = Vec::new();
    let mut i: usize = 0;
    assert(texts(sources@) =~= Seq::<Seq<char>>::empty());
    assert(texts(seen@) =~= lines.take(0));
    while i < results.len()
        invariant
            i <= results@.len(),
            lines == source_lines(results@),
            cuts == results@.map_values(|x: SearchResult| x.snippet@),
            texts(snippets@) == cuts.take(i as int),
            texts(sources@) == references_upto(lines, i as int),
            texts(seen@) == lines.take(i as int),
        decreases results@.len() - i,
    {
        let r = &results[i];
        let mut line = r.source.title.clone();
        line.append(" — ");
        line.append(r.source.url.as_str());
        assert(line@ == lines[i as int]);
        let ghost old_sources = texts(sources@);
        let ghost old_snippets = texts(snippets@);
        let ghost old_seen = texts(seen@);
        if !list_contains(&seen, line.as_str()) {
            let mut reference_text = "[".to_owned();
            let number = show(i as u64 + 1);
            reference_text.append(number.as_str());
            reference_text.append("]");
            sources.push(reference_text);
            assert(texts(sources@) =~= old_sources.push(reference((i + 1) as nat)));
        }
        seen.push(line);
        assert(texts(seen@) =~= old_seen.push(lines[i as int]));
        assert(texts(seen@) =~= lines.take(i + 1));
        snippets.push(r.snippet.clone());
        assert(texts(snippets@) =~= old_snippets.push(cuts[i as int]));
        assert(texts(snippets@) =~= cuts.take(i + 1));
        i = i + 1;
    }
    assert(cuts.take(i as int) =~= cuts);
    let mut coverage = show(clusters_probed as u64);
    coverage.append(" clusters probed, ");
    let documents = show(sources.len() as u64);
    coverage.append(documents.as_str());
    coverage.append(" distinct documents, top score ");
    coverage.append(top);
    SummaryPayload { snippets, sources, coverage }
}

/// What a search found, for the answer to be made of.
#[derive(Debug)]
pub struct Findings {
    /// The domain, where one cleared its threshold.
    pub domain: Option<DetectedDomain>,
    /// The domain's similarity, written with three decimals.
    pub similarity_text: String,
    /// Clusters that were opened, and how many the domain has.
    pub probed: usize,
    pub clusters: usize,
    /// Rows that the scan touched.
    pub rows_scanned: usize,
    /// How many identifiers the query holds.
    pub identifiers: usize,
    pub exact: Vec<ExactMatch>,
    /// How many ids were left after fusing and cutting.
    pub fused: usize,
    pub results: Vec<SearchResult>,
    /// The top score, written with two decimals.
    pub top_text: String,
}

/// What is said of the global lookup, where the query names anything.
pub open spec fn exact_notes(f: Findings) -> Seq<Seq<char>> {
    if f.identifiers > 0 {
        seq![
            "exact:global "@ + decimal(f.identifiers as nat) + " identifier(s) → "@ + decimal(
                f.exact@.len(),
            ) + " hit(s)"@,
        ]
    } else {
        Seq::empty()
    }
}

/// What is said of routing and of what followed it.
pub open spec fn routing_notes(f: Findings) -> Seq<Seq<char>> {
    match f.domain {
        None => seq!["route:layer1 no anchor above threshold"@],
        Some(d) => seq![
            "route:layer1 domain="@ + d.id@ + " sim="@ + f.similarity_text@,
            "route:layer2 probing "@ + decimal(f.probed as nat) + " of "@ + decimal(
                f.clusters as nat,
            ) + " clusters"@,
            "scan:layer3 "@ + decimal(f.rows_scanned as nat) + " rows"@,
        ],
    }
}

/// Everything that is said of the course of a search, in order.
pub open spec fn progress_notes(f: Findings) -> Seq<Seq<char>> {
    let head = exact_notes(f) + routing_notes(f);
    if f.domain is None && f.exact@.len() == 0 {
        head
    } else {
        head.push("fuse:rrf "@ + decimal(f.fused as nat) + " candidates"@)
    }
}

fn progress_of(f: &Findings) -> (r: Vec<String>)
    ensures
        texts(r@) == progress_notes(*f),
{
    let mut out: Vec<String> = Vec::new();
    assert(texts(out@) =~= Seq::<Seq<char>>::empty());
    if f.identifiers > 0 {
        let mut line = "exact:global ".to_owned();
        let a = show(f.identifiers as u64);
        line.append(a.as_str());
        line.append(" identifier(s) → ");
        let b = show(f.exact.len() as u64);
        line.append(b.as_str());
        line.append(" hit(s)");
        out.push(line);
    }
    assert(texts(out@) =~= exact_notes(*f));
    let ghost before = texts(out@);
    match &f.domain {
        None => {
            out.push("route:layer1 no anchor above threshold".to_owned());
        },
        Some(d) => {
            let mut first_line = "route:layer1 domain=".to_owned();
            first_line.append(d.id.as_str());
            first_line.append(" sim=");
            first_line.append(f.similarity_text.as_str());
            out.push(first_line);
            let mut second = "route:layer2 probing ".to_owned();
            let a = show(f.probed as u64);
            second.append(a.as_str());
            second.append(" of ");
            let b = show(f.clusters as u64);
            second.append(b.as_str());
            second.append(" clusters");
            out.push(second);
            let mut third = "scan:layer3 ".to_owned();
            let c = show(f.rows_scanned as u64);
            third.append(c.as_str());
            third.append(" rows");
            out.push(third);
        },
    }
    assert(texts(out@) =~= before + routing_notes(*f));
    let ghost head = texts(out@);
    if f.domain.is_some() || f.exact.len() > 0 {
        let mut line = "fuse:rrf ".to_owned();
        let n = show(f.fused as u64);
        line.append(n.as_str());
        line.append(" candidates");
        let ghost text = line@;
        out.push(line);
        assert(texts(out@) =~= head.push(text));
    }
    out
}

/// What the answer says of the domain: its name and similarity, or nothing and
/// zero.
pub open spec fn domain_part(f: Findings) -> (Option<Seq<char>>, Score) {
    match f.domain {
        Some(d) => (Some(d.id@), d.similarity),
        None => (None, Score { bits: 0 }),
    }
}

/// Whether this answers a search that found that: where neither routing nor the
/// global lookup found anything it is the honest empty answer; exact hits are
/// answered with or without a domain.
pub open spec fn answers(r: SearchResponse, query: Seq<char>, found: Findings) -> bool {
    &&& r.success
    &&& r.op@ == "search_knowledge"@
    &&& r.query@ == query
    &&& r.exact_matches == found.exact
    &&& texts(r.progress@) == progress_notes(found)
    &&& optional_text(r.detected_domain) == domain_part(found).0
    &&& r.domain_confidence == domain_part(found).1
    &&& r.token_estimate == 0
    &&& !r.truncated
    &&& if found.domain is None && found.exact@.len() == 0 {
        &&& r.results@.len() == 0
        &&& r.citation_block@.len() == 0
        &&& r.clusters_probed == 0
        &&& r.confidence == Confidence::Absent
        &&& r.summary_payload.snippets@.len() == 0
        &&& r.summary_payload.sources@.len() == 0
        &&& r.summary_payload.coverage@.len() == 0
        &&& optional_text(r.hint) == Some(
            "query matched no known knowledge base · widen the query, or check list_domains for what this engine covers"@,
        )
    } else {
        &&& r.results == found.results
        &&& r.clusters_probed == found.probed
        &&& r.confidence == confidence_of(
            domain_part(found).1,
            found.results@.len(),
            found.exact@.len(),
        )
        &&& texts(r.citation_block@) == citation_lines(found.results@)
        &&& texts(r.summary_payload.snippets@) == found.results@.map_values(
            |x: SearchResult| x.snippet@,
        )
        &&& texts(r.summary_payload.sources@) == references_upto(
            source_lines(found.results@),
            found.results@.len() as int,
        )
        &&& r.summary_payload.coverage@ == coverage_text(
            found.probed as nat,
            r.summary_payload.sources@.len(),
            found.top_text@,
        )
        &&& r.hint is None
    }
}

/// The answer to a search, whatever routing decided. Its cost is filled in by
/// [`SearchResponse::sized`].
pub fn respond(query: &str, found: Findings) -> (r: SearchResponse)
    ensures
        answers(r, query@, found),
{
    let progress = progress_of(&found);
    if found.domain.is_none() && found.exact.len() == 0 {
        let mut empty = SearchResponse::no_matching_domain(query, progress);
        empty.exact_matches = found.exact;
        return empty;
    }
    let count = found.results.len();
    let exact = found.exact.len();
    let (detected_domain, domain_confidence) = match found.domain {
        Some(d) => (Some(d.id), d.similarity),
        None => (None, Score { bits: 0 }),
    };
    let confidence = if count > 0 && exact > 0 {
        Confidence::High
    } else {
        confidence_for(domain_confidence, count)
    };
    let block = citation_block(&found.results);
    assert(block@.map_values(|c: Citation| c.text@) =~= citation_lines(found.results@));
    let citations = rendered(block);
    let payload = summary_payload(&found.results, found.probed, found.top_text.as_str());
    SearchResponse {
        success: true,
        op: "search_knowledge",
        query: query.to_owned(),
        detected_domain,
        domain_confidence,
        clusters_probed: found.probed,
        results: found.results,
        citation_block: citations,
        summary_payload: payload,
        exact_matches: found.exact,
        confidence,
        progress,
        token_estimate: 0,
        truncated: false,
        hint: None,
    }
}

// ---------------------------------------------------------------------------
// What merging, lookup and hydration promise
// ---------------------------------------------------------------------------

/// Lists stand one after the other as they stand.
pub proof fn lists_stand_one_after_the_other(a: Seq<Vec<Scored>>, b: Seq<Vec<Scored>>, one: Vec<Scored>)
    ensures
        flat(Seq::<Vec<Scored>>::empty()) == Seq::<Scored>::empty(),
        flat(seq![one]) == one@,
        flat(a + b) == flat(a) + flat(b),
    decreases b.len(),
{
    assert(seq![one].drop_last() =~= Seq::<Vec<Scored>>::empty());
    assert(flat(seq![one].drop_last()) =~= Seq::<Scored>::empty());
    assert(flat(seq![one]) =~= one@);
    if b.len() > 0 {
        lists_stand_one_after_the_other(a, b.drop_last(), one);
        assert((a + b).drop_last() =~= a + b.drop_last());
        assert(flat(a + b) =~= flat(a) + flat(b));
    } else {
        assert(a + b =~= a);
        assert(flat(a) + flat(b) =~= flat(a));
    }
}

/// The merged list stands by descending score: it holds some of what the lists
/// hold, each once, of equal scores what came first; nothing that was cut off has
/// a higher score than something that was kept, and nothing is cut off within
/// the cap.
pub proof fn a_merged_list_stands_by_score(lists: Seq<Vec<Scored>>, cap: usize) -> (p: Seq<int>)
    ensures
        ({
            let all = flat(lists);
            let r = first(arranged(all), cap as nat);
            &&& is_shuffle(p, all.len())
            &&& r.len() == if cap < all.len() {
                cap as nat
            } else {
                all.len()
            }
            &&& forall|i: int| 0 <= i < r.len() ==> r[i] == all[#[trigger] p[i]]
            &&& forall|i: int, j: int|
                #![trigger p[i], p[j]]
                0 <= i < j < p.len() ==> all[p[i]].score.rank() > all[p[j]].score.rank() || (
                all[p[i]].score.rank() == all[p[j]].score.rank() && p[i] < p[j])
        }),
{
    the_best_comes_out_first(flat(lists))
}

/// Every chunk that was found under an identifier is an exact hit that names
/// that identifier, and every exact hit is one of these.
pub proof fn an_exact_hit_names_its_identifier(
    ids: Seq<Identifier>,
    found: Seq<Vec<String>>,
    n: int,
    a: int,
    i: int,
)
    requires
        0 <= n <= ids.len(),
        found.len() == ids.len(),
    ensures
        0 <= a < n && 0 <= i < found[a]@.len() ==> exact_upto(ids, found, n).contains(
            (found[a]@[i]@, ids[a].matched_on@),
        ),
        forall|k: int|
            0 <= k < exact_upto(ids, found, n).len() ==> exists|b: int, m: int|
                0 <= b < n && 0 <= m < found[b]@.len() && #[trigger] exact_upto(ids, found, n)[k] == (
                    #[trigger] found[b]@[m]@,
                    ids[b].matched_on@,
                ),
    decreases n,
{
    if n > 0 {
        an_exact_hit_names_its_identifier(ids, found, n - 1, a, i);
        let before = exact_upto(ids, found, n - 1);
        let mine = hits_of(ids[n - 1], found[n - 1]);
        let all = exact_upto(ids, found, n);
        if 0 <= a < n && 0 <= i < found[a]@.len() {
            let want = (found[a]@[i]@, ids[a].matched_on@);
            if a < n - 1 {
                let k = before.index_of(want);
                assert(all[k] == want);
            } else {
                assert(mine[i] == want);
                assert(all[before.len() + i] == want);
            }
        }
        assert forall|k: int| 0 <= k < all.len() implies exists|b: int, m: int|
            0 <= b < n && 0 <= m < found[b]@.len() && #[trigger] all[k] == (
                #[trigger] found[b]@[m]@,
                ids[b].matched_on@,
            ) by {
            if k < before.len() {
                assert(all[k] == before[k]);
                let (b, m) = choose|b: int, m: int|
                    0 <= b < n - 1 && 0 <= m < found[b]@.len() && before[k] == (
                        #[trigger] found[b]@[m]@,
                        ids[b].matched_on@,
                    );
                assert(all[k] == (found[b]@[m]@, ids[b].matched_on@));
            } else {
                let m = k - before.len();
                assert(all[k] == mine[m]);
                assert(all[k] == (found[n - 1]@[m]@, ids[n - 1].matched_on@));
            }
        }
    }
}

/// The score that a list gave an id is that of its first place there, and zero
/// where it is not there.
pub proof fn a_score_is_the_one_of_the_first_place(v: Seq<Scored>, id: Seq<char>, from: int)
    requires
        0 <= from <= v.len(),
    ensures
        (forall|i: int| from <= i < v.len() ==> (#[trigger] v[i]).id@ != id) ==> score_in(
            v,
            id,
            from,
        ).bits == 0,
        forall|i: int|
            from <= i < v.len() && (#[trigger] v[i]).id@ == id && (forall|j: int|
                from <= j < i ==> (#[trigger] v[j]).id@ != id) ==> score_in(v, id, from) == v[i].score,
    decreases v.len() - from,
{
    if from < v.len() && v[from].id@ != id {
        a_score_is_the_one_of_the_first_place(v, id, from + 1);
    }
}

/// A chunk is found by its id, the last one stored under it.
pub proof fn a_chunk_is_found_by_its_id(chunks: Seq<Chunk>, id: Seq<char>, n: int)
    requires
        0 <= n <= chunks.len(),
    ensures
        match chunk_upto(chunks, id, n) {
            Some(i) => 0 <= i < n && chunks[i].id@ == id && forall|j: int|
                i < j < n ==> (#[trigger] chunks[j]).id@ != id,
            None => forall|j: int| 0 <= j < n ==> (#[trigger] chunks[j]).id@ != id,
        },
    decreases n,
{
    if n > 0 && chunks[n - 1].id@ != id {
        a_chunk_is_found_by_its_id(chunks, id, n - 1);
    }
}

/// Results keep the fused order: every fused id whose chunk was fetched is a
/// result with its id and its fused score, the provenance of the chunk under
/// that id, and a preview of that chunk's body; nothing else is a result.
pub proof fn results_keep_the_fused_order(
    fused: Seq<Fused>,
    chunks: Seq<Chunk>,
    snippet_chars: usize,
    dense: Seq<Scored>,
    keyword: Seq<Scored>,
    n: int,
) -> (q: Seq<int>)
    requires
        0 <= n <= fused.len(),
    ensures
        ({
            let r = hydrated_upto(fused, chunks, snippet_chars, dense, keyword, n);
            &&& r.len() == q.len()
            &&& picks(
                q,
                n,
                |i: int|
                    exists|m: int|
                        0 <= m < chunks.len() && (#[trigger] chunks[m]).id@ == fused[i].id@,
            )
            &&& forall|k: int|
                0 <= k < r.len() ==> (#[trigger] r[k]).id == fused[q[k]].id@ && r[k].score
                    == fused[q[k]].score && r[k].scores.dense == score_in(dense, r[k].id, 0)
                    && r[k].scores.bm25 == score_in(keyword, r[k].id, 0) && exists|m: int|
                    0 <= m < chunks.len() && (#[trigger] chunks[m]).id@ == r[k].id && r[k].title
                        == chunks[m].source_title@ && r[k].url == chunks[m].source_url@ && r[k].page
                        == chunks[m].locator_page && r[k].section == optional_text(
                        chunks[m].locator_section,
                    ) && r[k].snippet == preview(trimmed(chunks[m].body@), snippet_chars)
        }),
    decreases n,
{
    let p = |i: int|
        exists|m: int| 0 <= m < chunks.len() && (#[trigger] chunks[m]).id@ == fused[i].id@;
    if n <= 0 {
        Seq::empty()
    } else {
        let q = results_keep_the_fused_order(fused, chunks, snippet_chars, dense, keyword, n - 1);
        let before = hydrated_upto(fused, chunks, snippet_chars, dense, keyword, n - 1);
        let r = hydrated_upto(fused, chunks, snippet_chars, dense, keyword, n);
        a_chunk_is_found_by_its_id(chunks, fused[n - 1].id@, chunks.len() as int);
        let t = picks_one_more(q, n - 1, p);
        match chunk_upto(chunks, fused[n - 1].id@, chunks.len() as int) {
            Some(m) => {
                assert(chunks[m].id@ == fused[n - 1].id@);
                assert(p(n - 1));
            },
            None => {
                assert(!p(n - 1));
            },
        }
        assert forall|k: int| 0 <= k < r.len() implies (#[trigger] r[k]).id == fused[t[k]].id@
            && r[k].score == fused[t[k]].score && r[k].scores.dense == score_in(dense, r[k].id, 0)
            && r[k].scores.bm25 == score_in(keyword, r[k].id, 0) && exists|m: int|
            0 <= m < chunks.len() && (#[trigger] chunks[m]).id@ == r[k].id && r[k].title
                == chunks[m].source_title@ && r[k].url == chunks[m].source_url@ && r[k].page
                == chunks[m].locator_page && r[k].section == optional_text(
                chunks[m].locator_section,
            ) && r[k].snippet == preview(trimmed(chunks[m].body@), snippet_chars) by {
            if k < before.len() {
                assert(r[k] == before[k]);
                assert(t[k] == q[k]);
            } else {
                let m = chunk_upto(chunks, fused[n - 1].id@, chunks.len() as int)->0;
                assert(chunks[m].id@ == r[k].id);
            }
        }
        t
    }
}

/// The sources of a summary are references to the first citation of every
/// document, and to no other: `[n]` stands for the `n`-th result.
pub proof fn every_document_is_referenced_once(lines: Seq<Seq<char>>, n: int) -> (q: Seq<int>)
    requires
        0 <= n <= lines.len(),
    ensures
        picks(
            q,
            n,
            |i: int| forall|j: int| 0 <= j < i ==> #[trigger] lines[j] != lines[i],
        ),
        references_upto(lines, n).len() == q.len(),
        forall|k: int|
            0 <= k < q.len() ==> references_upto(lines, n)[k] == "["@ + decimal(
                (#[trigger] q[k] + 1) as nat,
            ) + "]"@,
    decreases n,
{
    let p = |i: int| forall|j: int| 0 <= j < i ==> #[trigger] lines[j] != lines[i];
    if n <= 0 {
        Seq::empty()
    } else {
        let q = every_document_is_referenced_once(lines, n - 1);
        let t = picks_one_more(q, n - 1, p);
        let before = lines.take(n - 1);
        if before.contains(lines[n - 1]) {
            let j = before.index_of(lines[n - 1]);
            assert(lines[j] == lines[n - 1]);
            assert(!p(n - 1));
        } else {
            assert(p(n - 1)) by {
                assert forall|j: int| 0 <= j < n - 1 implies #[trigger] lines[j] != lines[n - 1] by {
                    assert(before[j] == lines[j]);
                }
            }
        }
        t
    }
}

/// Confidence rests on the results and grows with the similarity: without
/// results it is absent, an exact hit among results is of the highest, and at
/// 0.60 and at 0.40 it steps up.
pub proof fn confidence_grows_with_the_evidence(similarity: Score, results: nat, exact: nat)
    requires
        !similarity.nan(),
        similarity.bits < 0x8000_0000,
    ensures
        results == 0 ==> confidence_of(similarity, results, exact) == Confidence::Absent,
        results > 0 && exact > 0 ==> confidence_of(similarity, results, exact) == Confidence::High,
        results > 0 && exact == 0 ==> confidence_of(similarity, results, exact)
            == if similarity.bits >= 0x3f19_999a {
            Confidence::High
        } else if similarity.bits >= 0x3ecc_cccd {
            Confidence::Medium
        } else {
            Confidence::Low
        },
{
}

/// The scan and the keyword search are always fused, the lookup where it hit
/// anything, and each of them with the weight one.
pub proof fn the_lookup_is_fused_where_it_hit(
    dense: Seq<Seq<char>>,
    keyword: Seq<Seq<char>>,
    exact: Seq<Seq<char>>,
)
    ensures
        arms_of(dense, keyword, exact).len() == if exact.len() > 0 {
            3nat
        } else {
            2
        },
        arms_of(dense, keyword, exact)[0].ids == dense,
        arms_of(dense, keyword, exact)[1].ids == keyword,
        exact.len() > 0 ==> arms_of(dense, keyword, exact)[2].ids == exact,
        forall|i: int|
            0 <= i < arms_of(dense, keyword, exact).len() ==> (#[trigger] arms_of(
                dense,
                keyword,
                exact,
            )[i]).weight.bits == 0x3f80_0000,
{
}

/// The course of a search is told in order: the lookup where the query names
/// anything, the domain or that there is none, how many clusters were probed of
/// how many, how many rows were scanned, and how many candidates were fused.
pub proof fn the_course_is_told_in_order(f: Findings)
    ensures
        ({
            let t = progress_notes(f);
            let a: int = if f.identifiers > 0 {
                1
            } else {
                0
            };
            let fuses = f.domain is Some || f.exact@.len() > 0;
            &&& t.len() == a + (if f.domain is Some {
                3int
            } else {
                1
            }) + (if fuses {
                1int
            } else {
                0
            })
            &&& f.identifiers > 0 ==> t[0] == "exact:global "@ + decimal(f.identifiers as nat)
                + " identifier(s) → "@ + decimal(f.exact@.len()) + " hit(s)"@
            &&& f.domain is None ==> t[a] == "route:layer1 no anchor above threshold"@
            &&& f.domain is Some ==> t[a] == "route:layer1 domain="@ + f.domain->0.id@ + " sim="@
                + f.similarity_text@ && t[a + 1] == "route:layer2 probing "@ + decimal(
                f.probed as nat,
            ) + " of "@ + decimal(f.clusters as nat) + " clusters"@ && t[a + 2] == "scan:layer3 "@
                + decimal(f.rows_scanned as nat) + " rows"@
            &&& fuses ==> t.last() == "fuse:rrf "@ + decimal(f.fused as nat) + " candidates"@
        }),
{
}

/// An answer is empty, and says so with a hint, exactly where neither routing
/// nor the lookup found anything; else it holds the results that were found.
pub proof fn an_answer_is_empty_where_nothing_was_found(
    r: SearchResponse,
    query: Seq<char>,
    f: Findings,
)
    requires
        answers(r, query, f),
    ensures
        r.query@ == query,
        r.exact_matches@ == f.exact@,
        f.domain is Some ==> r.detected_domain is Some && (r.detected_domain->0)@ == f.domain->0.id@
            && r.domain_confidence == f.domain->0.similarity,
        f.domain is None ==> r.detected_domain is None && r.domain_confidence.bits == 0,
        f.domain is None && f.exact@.len() == 0 ==> r.results@.len() == 0 && r.hint is Some
            && r.confidence == Confidence::Absent && r.clusters_probed == 0,
        f.domain is Some || f.exact@.len() > 0 ==> r.results@ == f.results@ && r.hint is None
            && r.clusters_probed == f.probed && r.summary_payload.snippets@.len()
            == f.results@.len() && r.summary_payload.coverage@ == decimal(f.probed as nat)
            + " clusters probed, "@ + decimal(r.summary_payload.sources@.len())
            + " distinct documents, top score "@ + f.top_text@,
        forall|i: int|
            (f.domain is Some || f.exact@.len() > 0) && 0 <= i < f.results@.len() ==> (
            #[trigger] r.summary_payload.snippets@[i])@ == f.results@[i].snippet@,
{
    if f.domain is Some || f.exact@.len() > 0 {
        let s = r.summary_payload.snippets@;
        assert(texts(s).len() == s.len());
        assert forall|i: int| 0 <= i < f.results@.len() implies (#[trigger] s[i])@
            == f.results@[i].snippet@ by {
            assert(texts(s)[i] == s[i]@);
        }
    }
}

/// Exact hits stand in the order of their identifiers, and under one identifier
/// in the order in which they were found; nothing is repeated or left out.
pub proof fn exact_hits_stand_in_the_order_of_identifiers(
    ids: Seq<Identifier>,
    found: Seq<Vec<String>>,
    n: int,
    i: int,
)
    requires
        0 < n <= ids.len(),
        found.len() == ids.len(),
    ensures
        ({
            let before = exact_upto(ids, found, n - 1);
            let all = exact_upto(ids, found, n);
            &&& all.len() == before.len() + found[n - 1]@.len()
            &&& 0 <= i < before.len() ==> all[i] == before[i]
            &&& 0 <= i < found[n - 1]@.len() ==> all[before.len() + i] == (
                found[n - 1]@[i]@,
                ids[n - 1].matched_on@,
            )
        }),
        exact_upto(ids, found, 0).len() == 0,
{
}

} // verus!
