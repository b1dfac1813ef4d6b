//! Assembling the answer: evidence with its sources, and what led to it.

use vstd::prelude::*;
use vstd::string::*;

use crate::contract::chunk::{preview, preview_of};
use crate::contract::options::{AppliedOptions, Mode};
use crate::contract::response::{estimate, tokens_of, ComponentScores, Confidence, ExactMatch, SummaryPayload};
use crate::engine::routing::{cluster_ids, first, ClusterMatch};
use crate::order::{picks, picks_one_more};
use crate::retrieval::trust::{trust_from, Trust, HIGH_TRUST, MEDIUM_TRUST};
use crate::score::{Score, ONE_BITS};
use crate::server::identifier::{extract, mentions, references, Identifier, Mention};
use crate::server::ranking::{point_into, Candidate};
use crate::store::search::{ChunkRow, ExactHit, Scored};
use crate::text::{chars_of, decimal, decimal_is_injective, has_prefix, is_space, is_whitespace, join, joined, same, show, show_signed, signed_decimal, string_of, texts};

verus! {

// ---------------------------------------------------------------------------
// Previews and addresses
// ---------------------------------------------------------------------------

/// The first `n` characters with every run of white space made one blank, and
/// none at either end.
pub open spec fn collapsed_upto(s: Seq<char>, n: int) -> Seq<char>
    decreases n,
{
    if n <= 0 {
        Seq::empty()
    } else {
        let before = collapsed_upto(s, n - 1);
        if is_space(s[n - 1]) {
            before
        } else if n >= 2 && is_space(s[n - 2]) && before.len() > 0 {
            before.push(' ').push(s[n - 1])
        } else {
            before.push(s[n - 1])
        }
    }
}

/// A text with every run of white space made one blank, and none at either
/// end.
pub open spec fn collapsed(s: Seq<char>) -> Seq<char> {
    collapsed_upto(s, s.len() as int)
}

/// A text with every run of white space made one blank, and none at either
/// end.
pub(crate) fn collapse(v: &Vec<char>) -> (r: Vec<char>)
    ensures
        r@ == collapsed(v@),
{
    let mut flat: Vec<char> = Vec::new();
    let mut i: usize = 0;
    while i < v.len()
        invariant
            i <= v@.len(),
            flat@ == collapsed_upto(v@, i as int),
        decreases v@.len() - i,
    {
        if !is_whitespace(v[i]) {
            if i >= 1 && is_whitespace(v[i - 1]) && flat.len() > 0 {
                flat.push(' ');
            }
            flat.push(v[i]);
        }
        i = i + 1;
    }
    flat
}

/// Bounded preview: white space collapsed, cut on a word break.
pub fn snippet(body: &str, max_chars: usize) -> (r: String)
    ensures
        r@ == preview(collapsed(body@), max_chars),
{
    let v = chars_of(body);
    let flat = collapse(&v);
    preview_of(&flat, max_chars)
}

/// A preview holds no two blanks in a row, and neither starts with one.
pub proof fn collapsing_leaves_single_blanks(s: Seq<char>, n: int)
    requires
        0 <= n <= s.len(),
    ensures
        collapsed_upto(s, n).len() > 0 ==> !is_space(collapsed_upto(s, n)[0]) && !is_space(
            collapsed_upto(s, n).last(),
        ),
        forall|k: int|
            0 <= k < collapsed_upto(s, n).len() - 1 && is_space(
                #[trigger] collapsed_upto(s, n)[k],
            ) ==> !is_space(collapsed_upto(s, n)[k + 1]),
    decreases n,
{
    if n > 0 {
        collapsing_leaves_single_blanks(s, n - 1);
        let before = collapsed_upto(s, n - 1);
        let after = collapsed_upto(s, n);
        assert forall|k: int|
            0 <= k < after.len() - 1 && is_space(#[trigger] after[k]) implies !is_space(
            after[k + 1],
        ) by {
            if k < before.len() - 1 {
                assert(after[k] == before[k]);
                assert(after[k + 1] == before[k + 1]);
            } else if k < before.len() {
                assert(after[k] == before.last());
            }
        }
    }
}

/// The most precise address that ingestion recorded: never a placeholder.
pub open spec fn address_of(chapter: Option<String>, article: Option<String>) -> Option<Seq<char>> {
    match article {
        Some(a) => match chapter {
            Some(c) => if c@ != "N/A"@ && c@.len() > 0 {
                Some(c@ + " / "@ + a@)
            } else if a@.len() > 0 {
                Some(a@)
            } else {
                None
            },
            None => if a@.len() > 0 {
                Some(a@)
            } else {
                None
            },
        },
        None => None,
    }
}

/// An optional text, as what it says.
pub open spec fn said(s: Option<String>) -> Option<Seq<char>> {
    match s {
        Some(t) => Some(t@),
        None => None,
    }
}

/// The most precise address that ingestion recorded.
pub fn locator_of(row: &ChunkRow) -> (r: Option<String>)
    ensures
        said(r) == address_of(row.chapter, row.article),
{
    match &row.article {
        Some(a) => {
            match &row.chapter {
                Some(c) => {
                    if !same(c.as_str(), "N/A") && !c.as_str().is_empty() {
                        let mut out = c.clone();
                        out.append(" / ");
                        out.append(a.as_str());
                        return Some(out);
                    }
                },
                None => {},
            }
            if !a.as_str().is_empty() {
                Some(a.clone())
            } else {
                None
            }
        },
        None => None,
    }
}

/// What a bounded read gives back of a text.
pub open spec fn head_of(s: Seq<char>, max_chars: usize) -> Seq<char> {
    if s.len() > max_chars {
        s.take(max_chars as int)
    } else {
        s
    }
}

/// Bounded read of one chunk: the body up to a number of characters, and
/// whether something was cut.
pub fn read_chunk(row: &ChunkRow, max_chars: usize) -> (r: (String, bool))
    ensures
        r.0@ == head_of(row.body@, max_chars),
        r.1 == (row.body@.len() > max_chars),
{
    let v = chars_of(row.body.as_str());
    if v.len() > max_chars {
        let body = string_of(&v, 0, max_chars);
        assert(v@.subrange(0, max_chars as int) =~= row.body@.take(max_chars as int));
        (body, true)
    } else {
        (row.body.clone(), false)
    }
}

// ---------------------------------------------------------------------------
// The domain gate
// ---------------------------------------------------------------------------

/// What the domain gate decided.
#[derive(Debug, Clone, Copy, PartialEq, Eq, Structural)]
pub struct Gate {
    /// The query names a regulation, so the domain gate was skipped.
    pub bypassed: bool,
    pub passes: bool,
}

/// Whether the retrieved evidence accounts for the question: both halves have
/// to reach their floor.
pub open spec fn accounts_for(
    lexical: Score,
    lexical_floor: Score,
    centroid: Score,
    centroid_floor: Score,
) -> bool {
    lexical_floor.le_spec(lexical) && centroid_floor.le_spec(centroid)
}

/// What the domain gate decides of a query.
pub open spec fn gate_of(
    query: Seq<char>,
    lexical: Score,
    lexical_floor: Score,
    centroid: Score,
    centroid_floor: Score,
) -> Gate {
    let bypassed = references(query).len() > 0;
    Gate {
        bypassed,
        passes: bypassed || accounts_for(lexical, lexical_floor, centroid, centroid_floor),
    }
}

/// Whether a query names a regulation. Such a query is never gated.
pub fn names_a_regulation(query: &str) -> (r: bool)
    ensures
        r == (references(query@).len() > 0),
{
    let found = extract(query);
    assert(mentions(found@).len() == found@.len());
    found.len() > 0
}

/// The domain gate: does this corpus hold anything that accounts for the
/// question? It judges the evidence that was retrieved, not the query.
pub fn domain_gate(
    query: &str,
    lexical: Score,
    lexical_floor: Score,
    centroid: Score,
    centroid_floor: Score,
) -> (r: Gate)
    ensures
        r == gate_of(query@, lexical, lexical_floor, centroid, centroid_floor),
{
    let bypassed = names_a_regulation(query);
    Gate {
        bypassed,
        passes: bypassed || (lexical_floor.le(lexical) && centroid_floor.le(centroid)),
    }
}

/// A query that names a regulation passes, whatever the evidence is worth.
pub proof fn an_identifier_bypasses_the_gate(
    query: Seq<char>,
    lexical: Score,
    lexical_floor: Score,
    centroid: Score,
    centroid_floor: Score,
)
    requires
        references(query).len() > 0,
    ensures
        gate_of(query, lexical, lexical_floor, centroid, centroid_floor) == (Gate {
            bypassed: true,
            passes: true,
        }),
{
}

/// Numbers as they are written in a note on the domain gate.
#[derive(Debug)]
pub struct GateFigures {
    pub lexical: String,
    pub lexical_floor: String,
    pub centroid: String,
    pub centroid_floor: String,
}

/// The note on the domain gate.
pub fn note_of_gate(f: &GateFigures) -> (r: String)
    ensures
        r@ == "domain gate: lexical "@ + f.lexical@ + " (floor "@ + f.lexical_floor@
            + "), centroid "@ + f.centroid@ + " (floor "@ + f.centroid_floor@ + ")"@,
{
    let mut s = "domain gate: lexical ".to_owned();
    s.append(f.lexical.as_str());
    s.append(" (floor ");
    s.append(f.lexical_floor.as_str());
    s.append("), centroid ");
    s.append(f.centroid.as_str());
    s.append(" (floor ");
    s.append(f.centroid_floor.as_str());
    s.append(")");
    s
}

// ---------------------------------------------------------------------------
// What routing decided
// ---------------------------------------------------------------------------

/// What routing decided, for a caller that wants to check it.
#[derive(Debug, PartialEq)]
pub struct RouteExplain {
    /// `None` when the domain gate would refuse: the same value that a search reports
    /// for this query.
    pub domain: Option<String>,
    pub clusters_probed: Vec<i32>,
    pub cluster_scores: Vec<ClusterMatch>,
    pub total_clusters: usize,
    /// Both halves of the domain gate, with the floors they were held against, so
    /// that a refusal can be attributed to one of them.
    pub lexical_evidence: Score,
    pub centroid_similarity: Score,
    pub lexical_floor: Score,
    pub centroid_floor: Score,
    pub would_refuse: bool,
    /// The query names a regulation, so the domain gate is skipped.
    pub gate_bypassed: bool,
    pub identifiers: Vec<String>,
    pub provider: String,
}

/// How a reference is written: its number and its year, or zero where no year
/// was given.
pub open spec fn reference_text(m: Mention) -> Seq<char> {
    m.number + "/"@ + match m.year {
        Some(y) => signed_decimal(y as int),
        None => signed_decimal(0),
    }
}

fn show_reference(id: &Identifier) -> (r: String)
    ensures
        r@ == reference_text(id@),
{
    let mut s = id.number.clone();
    s.append("/");
    let year: i64 = match id.year {
        Some(y) => y as i64,
        None => 0,
    };
    let shown = show_signed(year);
    s.append(shown.as_str());
    s
}

/// The similarity of the nearest cluster, or zero where none was probed.
pub open spec fn top_of(probed: Seq<ClusterMatch>) -> Score {
    if probed.len() > 0 {
        probed[0].similarity
    } else {
        Score { bits: 0 }
    }
}

/// The similarity of the nearest cluster.
pub fn top_cluster(probed: &Vec<ClusterMatch>) -> (r: Score)
    ensures
        r == top_of(probed@),
{
    if probed.len() > 0 {
        probed[0].similarity
    } else {
        Score { bits: 0 }
    }
}

/// What an explanation says of the domain gate.
pub open spec fn explains_gate(e: RouteExplain, gate: Gate, domain: Seq<char>, lexical: Score) -> bool {
    &&& said(e.domain) == if gate.passes {
        Some(domain)
    } else {
        None
    }
    &&& e.would_refuse == !gate.passes
    &&& e.gate_bypassed == gate.bypassed
    &&& e.lexical_evidence == if gate.bypassed {
        Score { bits: ONE_BITS }
    } else {
        lexical
    }
}

/// Explains the routing of a query: the clusters it probes and what the domain gate
/// makes of it. `lexical` is the evidence that a search would judge; a query
/// that names a regulation needs none.
pub fn explain(
    query: &str,
    domain: &str,
    probed: Vec<ClusterMatch>,
    total_clusters: usize,
    lexical: Score,
    lexical_floor: Score,
    centroid_floor: Score,
    provider: &str,
) -> (r: RouteExplain)
    ensures
        explains_gate(
            r,
            gate_of(query@, lexical, lexical_floor, top_of(probed@), centroid_floor),
            domain@,
            lexical,
        ),
        r.clusters_probed@ == cluster_ids(probed@),
        r.cluster_scores == probed,
        r.total_clusters == total_clusters,
        r.centroid_similarity == top_of(probed@),
        r.lexical_floor == lexical_floor,
        r.centroid_floor == centroid_floor,
        texts(r.identifiers@) == references(query@).map_values(|m: Mention| reference_text(m)),
        r.provider@ == provider@,
{
    let found = extract(query);
    let ghost named = references(query@);
    assert(named.len() == found@.len());
    let mut identifiers: Vec<String> = Vec::new();
    let mut i: usize = 0;
    while i < found.len()
        invariant
            i <= found@.len(),
            identifiers@.len() == i,
            mentions(found@) == named,
            forall|k: int|
                0 <= k < i ==> (#[trigger] identifiers@[k])@ == reference_text(named[k]),
        decreases found@.len() - i,
    {
        assert(named[i as int] == found@[i as int]@);
        identifiers.push(show_reference(&found[i]));
        i = i + 1;
    }
    assert(texts(identifiers@) =~= named.map_values(|m: Mention| reference_text(m)));
    let centroid = top_cluster(&probed);
    let gate = domain_gate(query, lexical, lexical_floor, centroid, centroid_floor);
    let mut clusters: Vec<i32> = Vec::new();
    let mut k: usize = 0;
    while k < probed.len()
        invariant
            k <= probed@.len(),
            clusters@ == cluster_ids(probed@).take(k as int),
        decreases probed@.len() - k,
    {
        clusters.push(probed[k].id);
        assert(clusters@ =~= cluster_ids(probed@).take(k + 1));
        k = k + 1;
    }
    assert(clusters@ =~= cluster_ids(probed@));
    RouteExplain {
        domain: if gate.passes {
            Some(domain.to_owned())
        } else {
            None
        },
        clusters_probed: clusters,
        cluster_scores: probed,
        total_clusters,
        lexical_evidence: if gate.bypassed {
            Score { bits: ONE_BITS }
        } else {
            lexical
        },
        centroid_similarity: centroid,
        lexical_floor,
        centroid_floor,
        would_refuse: !gate.passes,
        gate_bypassed: gate.bypassed,
        identifiers,
        provider: provider.to_owned(),
    }
}

// ---------------------------------------------------------------------------
// Notes on the way
// ---------------------------------------------------------------------------

/// The notes on what was asked and where the query landed.
pub open spec fn opening_notes(clamped: Seq<Seq<char>>, dims: nat, probed: nat, clusters: nat) -> Seq<
    Seq<char>,
> {
    clamped.map_values(|s: Seq<char>| "clamped: "@ + s) + seq![
        "embedded query ("@ + decimal(dims) + " dims)"@,
        "probed "@ + decimal(probed) + " of "@ + decimal(clusters) + " clusters"@,
    ]
}

/// The notes on what was asked and where the query landed.
pub fn opening(clamped: &Vec<String>, dims: usize, probed: usize, clusters: usize) -> (r: Vec<
    String,
>)
    ensures
        texts(r@) == opening_notes(texts(clamped@), dims as nat, probed as nat, clusters as nat),
{
    let mut out: Vec<String> = Vec::new();
    let mut i: usize = 0;
    while i < clamped.len()
        invariant
            i <= clamped@.len(),
            out@.len() == i,
            forall|k: int| 0 <= k < i ==> (#[trigger] out@[k])@ == "clamped: "@ + clamped@[k]@,
        decreases clamped@.len() - i,
    {
        let mut s = "clamped: ".to_owned();
        s.append(clamped[i].as_str());
        out.push(s);
        i = i + 1;
    }
    let mut a = "embedded query (".to_owned();
    let d = show(dims as u64);
    a.append(d.as_str());
    a.append(" dims)");
    let mut b = "probed ".to_owned();
    let p = show(probed as u64);
    b.append(p.as_str());
    b.append(" of ");
    let c = show(clusters as u64);
    b.append(c.as_str());
    b.append(" clusters");
    out.push(a);
    out.push(b);
    assert(texts(out@) =~= opening_notes(
        texts(clamped@),
        dims as nat,
        probed as nat,
        clusters as nat,
    ));
    out
}

/// A note that counts candidates.
pub open spec fn counted(what: Seq<char>, n: nat) -> Seq<char> {
    what + decimal(n) + " candidates"@
}

fn count_note(what: &str, n: usize) -> (r: String)
    ensures
        r@ == counted(what@, n as nat),
{
    let mut s = what.to_owned();
    let shown = show(n as u64);
    s.append(shown.as_str());
    s.append(" candidates");
    s
}

/// The notes on the three arms.
pub fn notes_of_arms(dense: usize, sparse: usize, text: usize) -> (r: Vec<String>)
    ensures
        texts(r@) == seq![
            counted("dense: "@, dense as nat),
            counted("sparse: "@, sparse as nat),
            counted("text: "@, text as nat),
        ],
{
    let r = vec![
        count_note("dense: ", dense),
        count_note("sparse: ", sparse),
        count_note("text: ", text),
    ];
    assert(texts(r@) =~= seq![
        counted("dense: "@, dense as nat),
        counted("sparse: "@, sparse as nat),
        counted("text: "@, text as nat),
    ]);
    r
}

/// The note on the pool.
pub fn note_of_pool(n: usize) -> (r: String)
    ensures
        r@ == counted("fused to "@, n as nat),
{
    count_note("fused to ", n)
}

/// The note on the cut.
pub fn note_of_cut(kept: usize, pool: usize) -> (r: String)
    ensures
        r@ == counted("returning "@ + decimal(kept as nat) + " of "@, pool as nat),
{
    let mut s = "returning ".to_owned();
    let k = show(kept as u64);
    s.append(k.as_str());
    s.append(" of ");
    count_note(s.as_str(), pool)
}

/// Exact matches, as what they say.
pub open spec fn match_views(v: Seq<ExactMatch>) -> Seq<(Seq<char>, Seq<char>)> {
    v.map_values(|m: ExactMatch| (m.id@, m.matched_on@))
}

/// Hits of an exact lookup, as what they say.
pub open spec fn hit_views(v: Seq<ExactHit>) -> Seq<(Seq<char>, Seq<char>)> {
    v.map_values(|h: ExactHit| (h.id@, h.matched_on@))
}

/// The hits of the first `n` lookups, in order.
pub open spec fn matches_upto(found: Seq<Vec<ExactHit>>, n: int) -> Seq<(Seq<char>, Seq<char>)>
    decreases n,
{
    if n <= 0 {
        Seq::empty()
    } else {
        matches_upto(found, n - 1) + hit_views(found[n - 1]@)
    }
}

/// The note on an exact lookup that found something.
pub open spec fn exact_note(m: Mention, hits: nat) -> Seq<char> {
    "exact identifier "@ + reference_text(m) + ": "@ + decimal(hits)
        + " hits (routing bypassed)"@
}

/// The notes on the first `n` lookups: those that found something.
pub open spec fn exact_notes_upto(ids: Seq<Mention>, found: Seq<Vec<ExactHit>>, n: int) -> Seq<
    Seq<char>,
>
    decreases n,
{
    if n <= 0 {
        Seq::empty()
    } else if found[n - 1]@.len() > 0 {
        exact_notes_upto(ids, found, n - 1).push(exact_note(ids[n - 1], found[n - 1]@.len()))
    } else {
        exact_notes_upto(ids, found, n - 1)
    }
}

/// What the exact lookups found, and what is said of them.
#[derive(Debug, PartialEq, Eq)]
pub struct ExactArm {
    pub matches: Vec<ExactMatch>,
    pub notes: Vec<String>,
}

/// Gathers the global identifier lookups. They are never gated by which
/// clusters were selected.
pub fn exact_arm(identifiers: &Vec<Identifier>, found: &Vec<Vec<ExactHit>>) -> (r: ExactArm)
    requires
        found@.len() == identifiers@.len(),
    ensures
        match_views(r.matches@) == matches_upto(found@, found@.len() as int),
        texts(r.notes@) == exact_notes_upto(
            mentions(identifiers@),
            found@,
            found@.len() as int,
        ),
{
    let ghost ids = mentions(identifiers@);
    let mut matches: Vec<ExactMatch> = Vec::new();
    let mut notes: Vec<String> = Vec::new();
    let mut i: usize = 0;
    assert(match_views(matches@) =~= Seq::<(Seq<char>, Seq<char>)>::empty());
    assert(texts(notes@) =~= Seq::<Seq<char>>::empty());
    while i < found.len()
        invariant
            i <= found@.len(),
            found@.len() == identifiers@.len(),
            ids == mentions(identifiers@),
            match_views(matches@) == matches_upto(found@, i as int),
            texts(notes@) == exact_notes_upto(ids, found@, i as int),
        decreases found@.len() - i,
    {
        let hits = &found[i];
        if hits.len() > 0 {
            let ghost before = texts(notes@);
            assert(ids[i as int] == identifiers@[i as int]@);
            let mut s = "exact identifier ".to_owned();
            let name = show_reference(&identifiers[i]);
            s.append(name.as_str());
            s.append(": ");
            let n = show(hits.len() as u64);
            s.append(n.as_str());
            s.append(" hits (routing bypassed)");
            notes.push(s);
            assert(texts(notes@) =~= before.push(exact_note(ids[i as int], hits@.len())));
        }
        let ghost start = match_views(matches@);
        let mut k: usize = 0;
        assert(start + hit_views(hits@).take(0) =~= start);
        while k < hits.len()
            invariant
                k <= hits@.len(),
                match_views(matches@) == start + hit_views(hits@).take(k as int),
            decreases hits@.len() - k,
        {
            let ghost before = match_views(matches@);
            matches.push(
                ExactMatch { id: hits[k].id.clone(), matched_on: hits[k].matched_on.clone() },
            );
            assert(match_views(matches@) =~= before.push(
                (hits@[k as int].id@, hits@[k as int].matched_on@),
            ));
            assert(match_views(matches@) =~= start + hit_views(hits@).take(k + 1));
            k = k + 1;
        }
        assert(hit_views(hits@).take(k as int) =~= hit_views(hits@));
        i = i + 1;
    }
    ExactArm { matches, notes }
}

// ---------------------------------------------------------------------------
// Results
// ---------------------------------------------------------------------------

/// Where a result came from. Straight from ingestion, never made up.
#[derive(Debug, PartialEq, Eq)]
pub struct Provenance {
    pub title: String,
    pub url: Option<String>,
    pub section: Option<String>,
}

/// One result: a bounded preview, the scores, and the source.
#[derive(Debug, PartialEq)]
pub struct Found {
    pub id: String,
    pub snippet: String,
    pub score: Score,
    pub scores: ComponentScores,
    pub source: Provenance,
    /// The result this one was expanded from, where no arm retrieved it.
    pub expanded_from: Option<String>,
}

/// A result, as what it says.
pub ghost struct FoundView {
    pub id: Seq<char>,
    pub snippet: Seq<char>,
    pub score: Score,
    pub scores: ComponentScores,
    pub title: Seq<char>,
    pub url: Option<Seq<char>>,
    pub section: Option<Seq<char>>,
    pub expanded_from: Option<Seq<char>>,
}

impl Found {
    pub open spec fn view(self) -> FoundView {
        FoundView {
            id: self.id@,
            snippet: self.snippet@,
            score: self.score,
            scores: self.scores,
            title: self.source.title@,
            url: said(self.source.url),
            section: said(self.source.section),
            expanded_from: said(self.expanded_from),
        }
    }
}

/// The score that an arm gave an id, from the `i`-th hit on; zero where it did
/// not return it.
pub open spec fn arm_score(v: Seq<Scored>, id: Seq<char>, i: int) -> Score
    decreases v.len() - i,
{
    if i >= v.len() {
        Score { bits: 0 }
    } else if v[i].id@ == id {
        v[i].score
    } else {
        arm_score(v, id, i + 1)
    }
}

fn find_score(v: &Vec<Scored>, id: &str) -> (r: Score)
    ensures
        r == arm_score(v@, id@, 0),
{
    let mut i: usize = 0;
    while i < v.len()
        invariant
            i <= v@.len(),
            arm_score(v@, id@, 0) == arm_score(v@, id@, i as int),
        decreases v@.len() - i,
    {
        if same(v[i].id.as_str(), id) {
            return v[i].score;
        }
        i = i + 1;
    }
    Score { bits: 0 }
}

/// The result that a candidate stands for.
pub open spec fn found_of(
    c: Candidate,
    rows: Seq<ChunkRow>,
    dense: Seq<Scored>,
    sparse: Seq<Scored>,
    snippet_chars: usize,
) -> FoundView {
    let row = rows[c.row as int];
    FoundView {
        id: row.id@,
        snippet: preview(collapsed(row.body@), snippet_chars),
        score: c.relevance,
        scores: ComponentScores {
            dense: arm_score(dense, row.id@, 0),
            bm25: arm_score(sparse, row.id@, 0),
        },
        title: row.source_title@,
        url: said(row.source_url),
        section: address_of(row.chapter, row.article),
        expanded_from: match c.expanded_from {
            Some(seed) => Some(rows[seed as int].id@),
            None => None,
        },
    }
}

fn copy_text(s: &Option<String>) -> (r: Option<String>)
    ensures
        said(r) == said(*s),
{
    match s {
        Some(t) => Some(t.clone()),
        None => None,
    }
}

/// Renders the candidates that survived, in order.
pub fn to_results(
    ranked: &Vec<Candidate>,
    rows: &Vec<ChunkRow>,
    dense: &Vec<Scored>,
    sparse: &Vec<Scored>,
    snippet_chars: usize,
) -> (r: Vec<Found>)
    requires
        point_into(ranked@, rows@.len()),
    ensures
        r@.len() == ranked@.len(),
        forall|i: int|
            0 <= i < r@.len() ==> (#[trigger] r@[i])@ == found_of(
                ranked@[i],
                rows@,
                dense@,
                sparse@,
                snippet_chars,
            ),
{
    let mut out: Vec<Found> = Vec::new();
    let mut i: usize = 0;
    while i < ranked.len()
        invariant
            i <= ranked@.len(),
            point_into(ranked@, rows@.len()),
            out@.len() == i,
            forall|k: int|
                0 <= k < i ==> (#[trigger] out@[k])@ == found_of(
                    ranked@[k],
                    rows@,
                    dense@,
                    sparse@,
                    snippet_chars,
                ),
        decreases ranked@.len() - i,
    {
        let c = ranked[i];
        let row = &rows[c.row];
        let expanded_from = match c.expanded_from {
            Some(seed) => Some(rows[seed].id.clone()),
            None => None,
        };
        let f = Found {
            id: row.id.clone(),
            snippet: snippet(row.body.as_str(), snippet_chars),
            score: c.relevance,
            scores: ComponentScores {
                dense: find_score(dense, row.id.as_str()),
                bm25: find_score(sparse, row.id.as_str()),
            },
            source: Provenance {
                title: row.source_title.clone(),
                url: copy_text(&row.source_url),
                section: locator_of(row),
            },
            expanded_from,
        };
        assert(f@ == found_of(ranked@[i as int], rows@, dense@, sparse@, snippet_chars));
        out.push(f);
        i = i + 1;
    }
    out
}

/// The citation line of a result, under a number. What was not recorded is
/// left out.
pub open spec fn line_of(index: nat, f: FoundView) -> Seq<char> {
    "["@ + decimal(index) + "] "@ + f.title + match f.section {
        Some(s) => if s.len() == 0 {
            s
        } else {
            ", "@ + s
        },
        None => Seq::empty(),
    } + match f.url {
        Some(u) => " — "@ + u,
        None => Seq::empty(),
    }
}

fn cite(index: usize, f: &Found) -> (r: String)
    ensures
        r@ == line_of(index as nat, f@),
{
    let mut out = "[".to_owned();
    let number = show(index as u64);
    out.append(number.as_str());
    out.append("] ");
    out.append(f.source.title.as_str());
    let ghost head = out@;
    match &f.source.section {
        Some(s) => {
            if !s.as_str().is_empty() {
                out.append(", ");
                out.append(s.as_str());
            }
        },
        None => {},
    }
    let ghost middle = match f@.section {
        Some(s) => if s.len() == 0 {
            s
        } else {
            ", "@ + s
        },
        None => Seq::empty(),
    };
    assert(out@ =~= head + middle);
    let ghost front = out@;
    match &f.source.url {
        Some(u) => {
            out.append(" — ");
            out.append(u.as_str());
        },
        None => {},
    }
    assert(out@ =~= front + match f@.url {
        Some(u) => " — "@ + u,
        None => Seq::empty(),
    });
    out
}

// ---------------------------------------------------------------------------
// The answer
// ---------------------------------------------------------------------------

/// The full answer to a search.
#[derive(Debug, PartialEq)]
pub struct Answer {
    pub success: bool,
    pub op: &'static str,
    pub query: String,
    pub detected_domain: Option<String>,
    pub domain_confidence: Score,
    pub clusters_probed: usize,
    pub results: Vec<Found>,
    /// Lines that are ready to render, one per result.
    pub citation_block: Vec<String>,
    pub summary_payload: SummaryPayload,
    pub exact_matches: Vec<ExactMatch>,
    pub confidence: Confidence,
    pub progress: Vec<String>,
    pub token_estimate: usize,
    pub truncated: bool,
    /// What ranked this answer. Absent where nothing was ranked.
    pub applied: Option<AppliedOptions>,
    pub hint: Option<String>,
}

/// Everything the answer is assembled from.
#[derive(Debug)]
pub struct Assembly {
    pub query: String,
    pub domain: String,
    /// How many clusters there are.
    pub clusters: usize,
    pub probed: usize,
    pub top_cluster: Score,
    /// The similarity of the nearest cluster, in writing.
    pub top_shown: String,
    pub domain_floor: Score,
    pub results: Vec<Found>,
    /// Candidates that survived scoring, before the cut.
    pub scored: usize,
    pub exact_matches: Vec<ExactMatch>,
    pub progress: Vec<String>,
    pub applied: AppliedOptions,
}

/// How many of the first `n` results have no address to open.
pub open spec fn unlinked_upto(v: Seq<Found>, n: int) -> nat
    decreases n,
{
    if n <= 0 {
        0
    } else if v[n - 1].source.url is None {
        unlinked_upto(v, n - 1) + 1
    } else {
        unlinked_upto(v, n - 1)
    }
}

/// What a caller of the answer should know, in order.
pub open spec fn hint_notes(p: Assembly) -> Seq<Seq<char>> {
    let unlinked = unlinked_upto(p.results@, p.results@.len() as int);
    (if p.applied.mode == Mode::Semantic {
        seq![
            "mode=semantic uses the dense arm alone, which scores 0.0% Recall@5 on                  this corpus and ships at weight 0.0 · use hybrid or keyword for results                  that reflect what was measured"@,
        ]
    } else {
        Seq::empty()
    }) + (if p.applied.experimental {
        seq![
            "experimental: factor_weights were supplied by the caller rather than                  fitted · the effective weights are in `applied` so this ranking can be                  reproduced"@,
        ]
    } else {
        Seq::empty()
    }) + (if p.top_cluster.lt_spec(p.domain_floor) {
        seq![
            "weak domain match ("@ + p.top_shown@
                + ") · the corpus may not cover this question · check the citations before relying on these results"@,
        ]
    } else {
        Seq::empty()
    }) + (if unlinked > 0 {
        seq![
            decimal(unlinked) + " of "@ + decimal(p.results@.len())
                + " results have no source_url · this corpus was ingested without one · cite by title and locator, and treat the link as unavailable"@,
        ]
    } else {
        Seq::empty()
    })
}

/// How much an answer is trusted: on its best score, where there is one.
pub open spec fn trusted(results: Seq<Found>) -> Confidence {
    if results.len() == 0 {
        Confidence::Absent
    } else if (Score { bits: HIGH_TRUST }).le_spec(results[0].score) {
        Confidence::High
    } else if (Score { bits: MEDIUM_TRUST }).le_spec(results[0].score) {
        Confidence::Medium
    } else {
        Confidence::Low
    }
}

fn collect_notes(p: &Assembly) -> (r: Vec<String>)
    ensures
        texts(r@) == hint_notes(*p),
{
    let mut notes: Vec<String> = Vec::new();
    let mut unlinked: usize = 0;
    let mut i: usize = 0;
    while i < p.results.len()
        invariant
            i <= p.results@.len(),
            unlinked == unlinked_upto(p.results@, i as int),
            unlinked <= i,
        decreases p.results@.len() - i,
    {
        if p.results[i].source.url.is_none() {
            unlinked = unlinked + 1;
        }
        i = i + 1;
    }
    assert(texts(notes@) =~= Seq::<Seq<char>>::empty());
    if p.applied.mode.is_measured_empty() {
        notes.push(
            "mode=semantic uses the dense arm alone, which scores 0.0% Recall@5 on                  this corpus and ships at weight 0.0 · use hybrid or keyword for results                  that reflect what was measured".to_owned(),
        );
    }
    assert(texts(notes@) =~= if p.applied.mode == Mode::Semantic {
        seq![
            "mode=semantic uses the dense arm alone, which scores 0.0% Recall@5 on                  this corpus and ships at weight 0.0 · use hybrid or keyword for results                  that reflect what was measured"@,
        ]
    } else {
        Seq::empty()
    });
    let ghost one = texts(notes@);
    if p.applied.experimental {
        notes.push(
            "experimental: factor_weights were supplied by the caller rather than                  fitted · the effective weights are in `applied` so this ranking can be                  reproduced".to_owned(),
        );
        assert(texts(notes@) =~= one.push(
            "experimental: factor_weights were supplied by the caller rather than                  fitted · the effective weights are in `applied` so this ranking can be                  reproduced"@,
        ));
    }
    let ghost two = texts(notes@);
    if p.top_cluster.lt(p.domain_floor) {
        let mut s = "weak domain match (".to_owned();
        s.append(p.top_shown.as_str());
        s.append(
            ") · the corpus may not cover this question · check the citations before relying on these results",
        );
        let ghost t = s@;
        notes.push(s);
        assert(texts(notes@) =~= two.push(t));
    }
    let ghost three = texts(notes@);
    if unlinked > 0 {
        let mut s = show(unlinked as u64);
        s.append(" of ");
        let n = show(p.results.len() as u64);
        s.append(n.as_str());
        s.append(
            " results have no source_url · this corpus was ingested without one · cite by title and locator, and treat the link as unavailable",
        );
        let ghost t = s@;
        notes.push(s);
        assert(texts(notes@) =~= three.push(t));
    }
    assert(texts(notes@) =~= hint_notes(*p));
    notes
}

/// The citation lines of results, numbered from one.
pub open spec fn lines(v: Seq<Found>) -> Seq<Seq<char>> {
    Seq::new(v.len(), |i: int| line_of((i + 1) as nat, v[i]@))
}

/// The answer that the parts make.
pub open spec fn is_assembled(a: Answer, p: Assembly) -> bool {
    &&& a.success
    &&& a.op@ == "search_knowledge"@
    &&& a.query == p.query
    &&& a.detected_domain == Some(p.domain)
    &&& a.domain_confidence == p.top_cluster
    &&& a.clusters_probed == p.probed
    &&& a.results == p.results
    &&& texts(a.citation_block@) == lines(p.results@)
    &&& texts(a.summary_payload.snippets@) == p.results@.map_values(|f: Found| f.snippet@)
    &&& texts(a.summary_payload.sources@) == lines(p.results@)
    &&& a.summary_payload.coverage@ == decimal(p.results@.len()) + " results from "@ + decimal(
        p.probed as nat,
    ) + " of "@ + decimal(p.clusters as nat) + " clusters"@
    &&& a.exact_matches == p.exact_matches
    &&& a.confidence == trusted(p.results@)
    &&& a.progress == p.progress
    &&& a.token_estimate == 0
    &&& a.truncated == (p.scored > p.results@.len())
    &&& a.applied == Some(p.applied)
    &&& said(a.hint) == if hint_notes(p).len() > 0 {
        Some(joined(hint_notes(p), " · "@))
    } else {
        None
    }
}

/// Assembles the answer. Its cost is filled in by [`Answer::sized`].
pub fn assemble(parts: Assembly) -> (r: Answer)
    ensures
        is_assembled(r, parts),
{
    let n = parts.results.len();
    let mut citations: Vec<String> = Vec::new();
    let mut snippets: Vec<String> = Vec::new();
    let mut sources: Vec<String> = Vec::new();
    let mut i: usize = 0;
    while i < n
        invariant
            i <= n,
            n == parts.results@.len(),
            citations@.len() == i,
            snippets@.len() == i,
            sources@.len() == i,
            forall|k: int|
                0 <= k < i ==> (#[trigger] citations@[k])@ == line_of(
                    (k + 1) as nat,
                    parts.results@[k]@,
                ),
            forall|k: int|
                0 <= k < i ==> (#[trigger] sources@[k])@ == line_of(
                    (k + 1) as nat,
                    parts.results@[k]@,
                ),
            forall|k: int|
                0 <= k < i ==> (#[trigger] snippets@[k])@ == parts.results@[k].snippet@,
        decreases n - i,
    {
        let index: usize = i + 1;
        let text = cite(index, &parts.results[i]);
        sources.push(text.clone());
        citations.push(text);
        snippets.push(parts.results[i].snippet.clone());
        i = i + 1;
    }
    assert(texts(sources@) =~= lines(parts.results@));
    assert(texts(citations@) =~= lines(parts.results@));
    assert(texts(snippets@) =~= parts.results@.map_values(|f: Found| f.snippet@));
    let mut coverage = show(n as u64);
    coverage.append(" results from ");
    let p = show(parts.probed as u64);
    coverage.append(p.as_str());
    coverage.append(" of ");
    let c = show(parts.clusters as u64);
    coverage.append(c.as_str());
    coverage.append(" clusters");
    let top_score = if n > 0 {
        parts.results[0].score
    } else {
        Score { bits: 0 }
    };
    let confidence = match trust_from(true, n, top_score) {
        Trust::High => Confidence::High,
        Trust::Medium => Confidence::Medium,
        Trust::Low => Confidence::Low,
        Trust::Absent => Confidence::Absent,
    };
    let notes = collect_notes(&parts);
    assert(texts(notes@).len() == notes@.len());
    let hint = if notes.len() > 0 {
        Some(join(&notes, " · "))
    } else {
        None
    };
    Answer {
        success: true,
        op: "search_knowledge",
        query: parts.query,
        detected_domain: Some(parts.domain),
        domain_confidence: parts.top_cluster,
        clusters_probed: parts.probed,
        results: parts.results,
        citation_block: citations,
        summary_payload: SummaryPayload { snippets, sources, coverage },
        exact_matches: parts.exact_matches,
        confidence,
        progress: parts.progress,
        token_estimate: 0,
        truncated: parts.scored > n,
        applied: Some(parts.applied),
        hint,
    }
}

/// What is known of a request once its candidates are ranked.
#[derive(Debug)]
pub struct Closing {
    pub query: String,
    pub domain: String,
    pub clusters: usize,
    pub probed: usize,
    pub top_cluster: Score,
    pub top_shown: String,
    pub domain_floor: Score,
    /// How many candidates were fused into the pool.
    pub pool: usize,
    pub snippet_chars: usize,
    pub exact_matches: Vec<ExactMatch>,
    pub progress: Vec<String>,
    pub applied: AppliedOptions,
}

/// The parts that a request's answer is assembled from.
pub open spec fn closes(
    p: Assembly,
    c: Closing,
    ranked: Seq<Candidate>,
    rows: Seq<ChunkRow>,
    dense: Seq<Scored>,
    sparse: Seq<Scored>,
) -> bool {
    let kept = first(ranked, c.applied.top_k as nat);
    &&& p.query == c.query
    &&& p.domain == c.domain
    &&& p.clusters == c.clusters
    &&& p.probed == c.probed
    &&& p.top_cluster == c.top_cluster
    &&& p.top_shown == c.top_shown
    &&& p.domain_floor == c.domain_floor
    &&& p.scored == ranked.len()
    &&& p.exact_matches == c.exact_matches
    &&& p.applied == c.applied
    &&& p.results@.len() == kept.len()
    &&& forall|i: int|
        0 <= i < kept.len() ==> (#[trigger] p.results@[i])@ == found_of(
            kept[i],
            rows,
            dense,
            sparse,
            c.snippet_chars,
        )
    &&& texts(p.progress@) == texts(c.progress@).push(
        counted("returning "@ + decimal(kept.len()) + " of "@, c.pool as nat),
    )
}

/// Cuts the ranked candidates to the number of results and answers with them.
/// What survived scoring is counted before the cut, since it alone says whether
/// a larger number would show more.
pub fn conclude(
    closing: Closing,
    ranked: Vec<Candidate>,
    rows: &Vec<ChunkRow>,
    dense: &Vec<Scored>,
    sparse: &Vec<Scored>,
) -> (r: Answer)
    requires
        point_into(ranked@, rows@.len()),
    ensures
        exists|p: Assembly| #[trigger]
            is_assembled(r, p) && closes(p, closing, ranked@, rows@, dense@, sparse@),
{
    let scored = ranked.len();
    let mut kept = ranked;
    kept.truncate(closing.applied.top_k);
    assert(kept@ =~= first(ranked@, closing.applied.top_k as nat));
    let note = note_of_cut(kept.len(), closing.pool);
    let results = to_results(&kept, rows, dense, sparse, closing.snippet_chars);
    let mut progress = closing.progress;
    let ghost before = texts(progress@);
    let ghost said_of_cut = note@;
    progress.push(note);
    assert(texts(progress@) =~= before.push(said_of_cut));
    let parts = Assembly {
        query: closing.query,
        domain: closing.domain,
        clusters: closing.clusters,
        probed: closing.probed,
        top_cluster: closing.top_cluster,
        top_shown: closing.top_shown,
        domain_floor: closing.domain_floor,
        results,
        scored,
        exact_matches: closing.exact_matches,
        progress,
        applied: closing.applied,
    };
    let ghost p = parts;
    let r = assemble(parts);
    assert(closes(p, closing, ranked@, rows@, dense@, sparse@));
    r
}

/// An answer without results.
pub open spec fn is_empty_answer(a: Answer) -> bool {
    &&& a.success
    &&& a.op@ == "search_knowledge"@
    &&& a.results@.len() == 0
    &&& a.citation_block@.len() == 0
    &&& a.summary_payload.snippets@.len() == 0
    &&& a.summary_payload.sources@.len() == 0
    &&& a.summary_payload.coverage@.len() == 0
    &&& a.confidence == Confidence::Absent
    &&& a.token_estimate == 0
    &&& !a.truncated
    &&& a.applied is None
}

impl Answer {
    /// The refusal of the domain gate. `shown` is the share of the question that the
    /// evidence accounts for, in percent. A refusal is an answer, not an error.
    pub fn refused(query: &str, shown: &str, progress: Vec<String>) -> (r: Answer)
        ensures
            is_empty_answer(r),
            r.query@ == query@,
            r.detected_domain is None,
            r.domain_confidence == (Score { bits: 0 }),
            r.clusters_probed == 0,
            r.exact_matches@.len() == 0,
            r.progress == progress,
            said(r.hint) == Some(
                "this corpus does not appear to cover the question · the best matching documents account for only "@
                    + shown@
                    + "% of its distinctive terms · check list_domains for what this engine covers"@,
            ),
    {
        let mut hint =
            "this corpus does not appear to cover the question · the best matching documents account for only ".to_owned();
        hint.append(shown);
        hint.append("% of its distinctive terms · check list_domains for what this engine covers");
        Answer {
            success: true,
            op: "search_knowledge",
            query: query.to_owned(),
            detected_domain: None,
            domain_confidence: Score { bits: 0 },
            clusters_probed: 0,
            results: Vec::new(),
            citation_block: Vec::new(),
            summary_payload: SummaryPayload {
                snippets: Vec::new(),
                sources: Vec::new(),
                coverage: String::new(),
            },
            exact_matches: Vec::new(),
            confidence: Confidence::Absent,
            progress,
            token_estimate: 0,
            truncated: false,
            applied: None,
            hint: Some(hint),
        }
    }

    /// The domain matched and retrieval came back empty. The domain gate has passed by
    /// then, so the domain is named: a null one would say that the corpus does
    /// not cover the subject.
    pub fn nothing_matched(
        query: &str,
        domain: &str,
        top_cluster: Score,
        probed: usize,
        exact_matches: Vec<ExactMatch>,
        progress: Vec<String>,
    ) -> (r: Answer)
        ensures
            is_empty_answer(r),
            r.query@ == query@,
            said(r.detected_domain) == Some(domain@),
            r.domain_confidence == top_cluster,
            r.clusters_probed == probed,
            r.exact_matches == exact_matches,
            r.progress == progress,
            said(r.hint) == Some(
                "the domain matched but no document in it did · rephrase the question, or name a regulation"@,
            ),
    {
        Answer {
            success: true,
            op: "search_knowledge",
            query: query.to_owned(),
            detected_domain: Some(domain.to_owned()),
            domain_confidence: top_cluster,
            clusters_probed: probed,
            results: Vec::new(),
            citation_block: Vec::new(),
            summary_payload: SummaryPayload {
                snippets: Vec::new(),
                sources: Vec::new(),
                coverage: String::new(),
            },
            exact_matches,
            confidence: Confidence::Absent,
            progress,
            token_estimate: 0,
            truncated: false,
            applied: None,
            hint: Some(
                "the domain matched but no document in it did · rephrase the question, or name a regulation".to_owned(),
            ),
        }
    }

    /// The same answer with its cost filled in, given how it is written out.
    pub fn sized(self, serialized: Option<&str>) -> (r: Answer)
        ensures
            r == (Answer { token_estimate: r.token_estimate, ..self }),
            r.token_estimate == match serialized {
                Some(text) => if tokens_of(text@) > usize::MAX {
                    usize::MAX as nat
                } else {
                    tokens_of(text@)
                },
                None => 0,
            },
    {
        let token_estimate: usize = match serialized {
            Some(text) => estimate(text),
            None => 0,
        };
        Answer { token_estimate, ..self }
    }
}

/// What a search answers of a query: a refusal where the domain gate does not pass,
/// else an answer that names the domain.
pub open spec fn answers_gate(a: Answer, gate: Gate, domain: Seq<char>) -> bool {
    if gate.passes {
        said(a.detected_domain) == Some(domain)
    } else {
        is_empty_answer(a) && a.detected_domain is None
    }
}

/// The explanation of a query and the answer to it agree: they name the same
/// domain, and the one says that the query would be refused exactly where the
/// other refuses it.
pub proof fn the_explanation_agrees_with_the_answer(
    e: RouteExplain,
    a: Answer,
    gate: Gate,
    domain: Seq<char>,
    lexical: Score,
)
    requires
        explains_gate(e, gate, domain, lexical),
        answers_gate(a, gate, domain),
    ensures
        said(e.domain) == said(a.detected_domain),
        e.would_refuse == (a.detected_domain is None),
{
}

/// A result never carries an address that ingestion did not record, nor drops
/// one that it did: every answer repeats its rows.
pub proof fn provenance_is_never_invented(
    a: Answer,
    p: Assembly,
    c: Closing,
    ranked: Seq<Candidate>,
    rows: Seq<ChunkRow>,
    dense: Seq<Scored>,
    sparse: Seq<Scored>,
    i: int,
)
    requires
        is_assembled(a, p),
        closes(p, c, ranked, rows, dense, sparse),
        0 <= i < a.results@.len(),
    ensures
        a.results@[i].source.title@ == rows[ranked[i].row as int].source_title@,
        said(a.results@[i].source.url) == said(rows[ranked[i].row as int].source_url),
{
    let kept = first(ranked, c.applied.top_k as nat);
    let f = p.results@[i];
    assert(f@ == found_of(kept[i], rows, dense, sparse, c.snippet_chars));
}

/// An answer never holds more results than were asked for, and says that
/// something was cut exactly where a larger number would show more.
pub proof fn a_cut_answer_says_so(
    a: Answer,
    p: Assembly,
    c: Closing,
    ranked: Seq<Candidate>,
    rows: Seq<ChunkRow>,
    dense: Seq<Scored>,
    sparse: Seq<Scored>,
)
    requires
        is_assembled(a, p),
        closes(p, c, ranked, rows, dense, sparse),
    ensures
        a.results@.len() <= c.applied.top_k,
        a.truncated == (ranked.len() > c.applied.top_k),
{
}

/// A citation line reads `[n] title, section — url`: what was not recorded is
/// left out with its separator.
pub proof fn a_citation_line_reads_number_title_section_url(index: nat, f: FoundView)
    ensures
        ({
            let head = "["@ + decimal(index) + "] "@ + f.title;
            &&& f.section is None && f.url is None ==> line_of(index, f) == head
            &&& f.section is None && f.url is Some ==> line_of(index, f) == head + " — "@ + f.url->0
            &&& f.section is Some && (f.section->0).len() > 0 && f.url is None ==> line_of(index, f)
                == head + ", "@ + f.section->0
            &&& f.section is Some && (f.section->0).len() > 0 && f.url is Some ==> line_of(index, f)
                == head + ", "@ + f.section->0 + " — "@ + f.url->0
        }),
{
    let head = "["@ + decimal(index) + "] "@ + f.title;
    assert(head + Seq::<char>::empty() =~= head);
    match f.section {
        Some(s) => {
            assert(head + (", "@ + s) =~= head + ", "@ + s);
            match f.url {
                Some(u) => {
                    assert(line_of(index, f) =~= head + ", "@ + s + " — "@ + u || s.len() == 0);
                },
                None => {
                    assert(line_of(index, f) =~= head + ", "@ + s || s.len() == 0);
                },
            }
        },
        None => match f.url {
            Some(u) => {
                assert(line_of(index, f) =~= head + " — "@ + u);
            },
            None => {
                assert(line_of(index, f) =~= head);
            },
        },
    }
}

/// The citation line and the source at place `i` of an answer begin with the
/// number `i + 1` in brackets and go on with the title of the result at that
/// place, so `[n]` addresses the `n`-th result, and no two lines begin with the
/// same number. There is one snippet, one line and one source per result.
pub proof fn a_citation_addresses_its_result(a: Answer, p: Assembly, i: int, j: int)
    requires
        is_assembled(a, p),
        0 <= i < p.results@.len(),
        0 <= j < p.results@.len(),
    ensures
        a.citation_block@.len() == a.results@.len(),
        a.summary_payload.sources@.len() == a.results@.len(),
        a.summary_payload.snippets@.len() == a.results@.len(),
        a.results@ == p.results@,
        has_prefix(
            a.citation_block@[i]@,
            "["@ + decimal((i + 1) as nat) + "] "@ + a.results@[i].source.title@,
        ),
        a.summary_payload.sources@[i]@ == a.citation_block@[i]@,
        a.summary_payload.snippets@[i]@ == a.results@[i].snippet@,
        a.citation_block@[i]@ == line_of((i + 1) as nat, a.results@[i]@),
        i != j ==> decimal((i + 1) as nat) != decimal((j + 1) as nat),
{
    let line = a.citation_block@[i]@;
    assert(texts(a.citation_block@).len() == a.citation_block@.len());
    assert(texts(a.summary_payload.sources@).len() == a.summary_payload.sources@.len());
    assert(texts(a.summary_payload.snippets@).len() == a.summary_payload.snippets@.len());
    assert(texts(a.citation_block@)[i] == line);
    assert(texts(a.summary_payload.sources@)[i] == a.summary_payload.sources@[i]@);
    assert(texts(a.summary_payload.snippets@)[i] == a.summary_payload.snippets@[i]@);
    let head = "["@ + decimal((i + 1) as nat) + "] "@ + a.results@[i].source.title@;
    assert(line.take(head.len() as int) =~= head);
    if i != j && decimal((i + 1) as nat) == decimal((j + 1) as nat) {
        decimal_is_injective((i + 1) as nat, (j + 1) as nat);
    }
}

/// An answer says of itself what its parts say: nothing of the request is lost,
/// and only an answer that left candidates out says that it was cut.
pub proof fn an_answer_keeps_its_parts(a: Answer, p: Assembly)
    requires
        is_assembled(a, p),
    ensures
        a.success,
        a.query@ == p.query@,
        a.detected_domain is Some && (a.detected_domain->0)@ == p.domain@,
        a.domain_confidence == p.top_cluster,
        a.clusters_probed == p.probed,
        a.exact_matches@ == p.exact_matches@,
        a.progress@ == p.progress@,
        a.applied == Some(p.applied),
        a.truncated <==> p.scored > a.results@.len(),
        a.results@.len() == 0 <==> a.confidence == Confidence::Absent,
{
}

/// Collapsing keeps the words of a text and puts one blank between them: a text
/// without white space stays as it is, and of a text with white space somewhere
/// the parts before and behind it are collapsed, with one blank between them
/// where both hold something.
pub proof fn collapsing_keeps_the_words(a: Seq<char>, space: char, b: Seq<char>)
    requires
        is_space(space),
    ensures
        (forall|i: int| 0 <= i < a.len() ==> !is_space(#[trigger] a[i])) ==> collapsed(a) == a,
        collapsed(a.push(space) + b) == collapsed(a) + (if collapsed(a).len() > 0 && collapsed(b).len()
            > 0 {
            seq![' ']
        } else {
            Seq::<char>::empty()
        }) + collapsed(b),
{
    if forall|i: int| 0 <= i < a.len() ==> !is_space(#[trigger] a[i]) {
        words_stay(a, a.len() as int);
    }
    collapsed_parts(a, space, b, b.len() as int);
    assert(b.take(b.len() as int) =~= b);
    collapsed_reads_only_the_beginning(b, b, b.len() as int);
}

proof fn words_stay(a: Seq<char>, n: int)
    requires
        0 <= n <= a.len(),
        forall|i: int| 0 <= i < a.len() ==> !is_space(#[trigger] a[i]),
    ensures
        collapsed_upto(a, n) == a.take(n),
    decreases n,
{
    if n > 0 {
        words_stay(a, n - 1);
        assert(a.take(n - 1).push(a[n - 1]) =~= a.take(n));
        if n >= 2 {
            assert(!is_space(a[n - 2]));
        }
        assert(!is_space(a[n - 1]));
    }
}

proof fn collapsed_reads_only_the_beginning(s: Seq<char>, t: Seq<char>, n: int)
    requires
        0 <= n <= s.len(),
        n <= t.len(),
        forall|i: int| 0 <= i < n ==> #[trigger] s[i] == t[i],
    ensures
        collapsed_upto(s, n) == collapsed_upto(t, n),
    decreases n,
{
    if n > 0 {
        collapsed_reads_only_the_beginning(s, t, n - 1);
        assert(s[n - 1] == t[n - 1]);
        if n >= 2 {
            assert(s[n - 2] == t[n - 2]);
        }
    }
}

proof fn collapsed_parts(a: Seq<char>, space: char, b: Seq<char>, n: int)
    requires
        is_space(space),
        0 <= n <= b.len(),
    ensures
        collapsed_upto(a.push(space) + b, a.len() + 1 + n) == collapsed(a) + (if collapsed(a).len()
            > 0 && collapsed_upto(b, n).len() > 0 {
            seq![' ']
        } else {
            Seq::<char>::empty()
        }) + collapsed_upto(b, n),
    decreases n,
{
    let s = a.push(space) + b;
    let m = a.len() as int;
    if n == 0 {
        assert(s[m] == space);
        collapsed_reads_only_the_beginning(s, a, m);
        assert(collapsed_upto(s, m + 1) == collapsed_upto(s, m));
        assert(collapsed(a) + Seq::<char>::empty() + Seq::<char>::empty() =~= collapsed(a));
    } else {
        collapsed_parts(a, space, b, n - 1);
        let before = collapsed_upto(s, m + n);
        let c = s[m + n];
        assert(c == b[n - 1]);
        let x = collapsed(a);
        let y = collapsed_upto(b, n - 1);
        if is_space(c) {
        } else {
            if n >= 2 {
                assert(s[m + n - 1] == b[n - 2]);
                nothing_before_the_first_word(b, n - 1);
            } else {
                assert(s[m] == space);
            }
            if is_space(s[m + n - 1]) && before.len() > 0 {
                if y.len() > 0 {
                    assert(before.push(' ').push(c) =~= x + (if x.len() > 0 {
                        seq![' ']
                    } else {
                        Seq::<char>::empty()
                    }) + y.push(' ').push(c));
                } else {
                    assert(x + Seq::<char>::empty() + y =~= x);
                    assert(before.push(' ').push(c) =~= x + seq![' '] + y.push(c));
                }
            } else {
                if y.len() > 0 {
                    assert(before.push(c) =~= x + (if x.len() > 0 {
                        seq![' ']
                    } else {
                        Seq::<char>::empty()
                    }) + y.push(c));
                } else {
                    assert(x.len() == 0 || is_space(s[m + n - 1]));
                    assert(before.push(c) =~= x + Seq::<char>::empty() + y.push(c));
                }
            }
        }
    }
}

/// Where nothing was kept so far, all so far was white space.
proof fn nothing_before_the_first_word(b: Seq<char>, n: int)
    requires
        0 <= n <= b.len(),
    ensures
        collapsed_upto(b, n).len() == 0 ==> forall|i: int| 0 <= i < n ==> is_space(#[trigger] b[i]),
    decreases n,
{
    if n > 0 {
        nothing_before_the_first_word(b, n - 1);
    }
}

/// An address is the article, behind the chapter where one is recorded; without
/// an article there is none.
pub proof fn an_address_is_the_article_behind_its_chapter(
    chapter: Option<String>,
    article: Option<String>,
)
    ensures
        article is None ==> address_of(chapter, article) is None,
        article is Some && chapter is None && (article->0)@.len() > 0 ==> address_of(
            chapter,
            article,
        ) == Some((article->0)@),
        article is Some && chapter is None && (article->0)@.len() == 0 ==> address_of(
            chapter,
            article,
        ) is None,
        article is Some && chapter is Some && (chapter->0)@.len() > 0 && (chapter->0)@ != "N/A"@
            ==> address_of(chapter, article) == Some((chapter->0)@ + " / "@ + (article->0)@),
        article is Some && chapter is Some && ((chapter->0)@.len() == 0 || (chapter->0)@ == "N/A"@)
            && (article->0)@.len() > 0 ==> address_of(chapter, article) == Some((article->0)@),
{
}

/// A bounded read gives the beginning of a text, as long as the bound allows.
pub proof fn a_bounded_read_is_a_beginning(s: Seq<char>, max_chars: usize)
    ensures
        has_prefix(s, head_of(s, max_chars)),
        head_of(s, max_chars).len() == if s.len() < max_chars {
            s.len()
        } else {
            max_chars as nat
        },
{
    assert(s.take(head_of(s, max_chars).len() as int) =~= head_of(s, max_chars));
}

/// The domain gate asks for both halves: it lets a query through where it names
/// a regulation, or where neither the evidence nor the similarity falls below
/// its floor.
pub proof fn the_gate_asks_for_both_halves(
    query: Seq<char>,
    lexical: Score,
    lexical_floor: Score,
    centroid: Score,
    centroid_floor: Score,
)
    requires
        !lexical.nan() && !lexical_floor.nan() && !centroid.nan() && !centroid_floor.nan(),
    ensures
        ({
            let g = gate_of(query, lexical, lexical_floor, centroid, centroid_floor);
            &&& g.bypassed <==> references(query).len() > 0
            &&& g.passes <==> references(query).len() > 0 || (!lexical.lt_spec(lexical_floor)
                && !centroid.lt_spec(centroid_floor))
        }),
{
}

/// The similarity of a probe is that of its nearest cluster, or zero.
pub proof fn the_top_is_the_first_probed(probed: Seq<ClusterMatch>)
    ensures
        probed.len() > 0 ==> top_of(probed) == probed[0].similarity,
        probed.len() == 0 ==> top_of(probed).bits == 0,
{
}

/// The score that an arm gave an id is that of its first place there, and zero
/// where it is not there.
pub proof fn an_arm_score_is_the_one_of_the_first_place(v: Seq<Scored>, id: Seq<char>, from: int)
    requires
        0 <= from <= v.len(),
    ensures
        (forall|i: int| from <= i < v.len() ==> (#[trigger] v[i]).id@ != id) ==> arm_score(
            v,
            id,
            from,
        ).bits == 0,
        forall|i: int|
            from <= i < v.len() && (#[trigger] v[i]).id@ == id && (forall|j: int|
                from <= j < i ==> (#[trigger] v[j]).id@ != id) ==> arm_score(v, id, from)
                == v[i].score,
    decreases v.len() - from,
{
    if from < v.len() && v[from].id@ != id {
        an_arm_score_is_the_one_of_the_first_place(v, id, from + 1);
    }
}

/// Results without an address are counted, each once.
pub proof fn results_without_an_address_are_counted(v: Seq<Found>, n: int) -> (q: Seq<int>)
    requires
        0 <= n <= v.len(),
    ensures
        picks(q, n, |i: int| v[i].source.url is None),
        unlinked_upto(v, n) == q.len(),
    decreases n,
{
    if n <= 0 {
        Seq::empty()
    } else {
        let q = results_without_an_address_are_counted(v, n - 1);
        picks_one_more(q, n - 1, |i: int| v[i].source.url is None)
    }
}

/// Every hit of a lookup is an exact match as it was found, and every exact match
/// is one of these.
pub proof fn exact_matches_are_the_hits(found: Seq<Vec<ExactHit>>, n: int, a: int, i: int)
    requires
        0 <= n <= found.len(),
    ensures
        0 <= a < n && 0 <= i < found[a]@.len() ==> matches_upto(found, n).contains(
            (found[a]@[i].id@, found[a]@[i].matched_on@),
        ),
        forall|k: int|
            0 <= k < matches_upto(found, n).len() ==> exists|b: int, m: int|
                0 <= b < n && 0 <= m < found[b]@.len() && #[trigger] matches_upto(found, n)[k] == (
                    (#[trigger] found[b]@[m]).id@,
                    found[b]@[m].matched_on@,
                ),
    decreases n,
{
    if n > 0 {
        exact_matches_are_the_hits(found, n - 1, a, i);
        let before = matches_upto(found, n - 1);
        let mine = hit_views(found[n - 1]@);
        let all = matches_upto(found, n);
        if 0 <= a < n && 0 <= i < found[a]@.len() {
            let want = (found[a]@[i].id@, found[a]@[i].matched_on@);
            if a < n - 1 {
                let k = before.index_of(want);
                assert(all[k] == want);
            } else {
                assert(mine[i] == want);
                assert(all[before.len() + i] == want);
            }
        }
        assert forall|k: int| 0 <= k < all.len() implies exists|b: int, m: int|
            0 <= b < n && 0 <= m < found[b]@.len() && #[trigger] all[k] == (
                (#[trigger] found[b]@[m]).id@,
                found[b]@[m].matched_on@,
            ) by {
            if k < before.len() {
                assert(all[k] == before[k]);
                let (b, m) = choose|b: int, m: int|
                    0 <= b < n - 1 && 0 <= m < found[b]@.len() && before[k] == (
                        (#[trigger] found[b]@[m]).id@,
                        found[b]@[m].matched_on@,
                    );
                assert(all[k] == (found[b]@[m].id@, found[b]@[m].matched_on@));
            } else {
                let m = k - before.len();
                assert(all[k] == mine[m]);
                assert(all[k] == (found[n - 1]@[m].id@, found[n - 1]@[m].matched_on@));
            }
        }
    }
}

/// Trust in an answer steps up with its best score, at 0.020 and at 0.030;
/// without results there is none.
pub proof fn an_answer_is_trusted_on_its_best_score(results: Seq<Found>)
    ensures
        results.len() == 0 <==> trusted(results) == Confidence::Absent,
        results.len() > 0 && results[0].score.bits < 0x7f80_0000 ==> trusted(results)
            == if results[0].score.bits >= 0x3cf5_c28f {
            Confidence::High
        } else if results[0].score.bits >= 0x3ca3_d70a {
            Confidence::Medium
        } else {
            Confidence::Low
        },
{
}

/// A lookup that found something is told, with the number and the year that
/// were looked up and how many hits there were; one that found nothing is not.
pub proof fn every_lookup_that_hit_is_told(ids: Seq<Mention>, found: Seq<Vec<ExactHit>>, n: int) -> (q:
    Seq<int>)
    requires
        0 <= n <= found.len(),
        ids.len() == found.len(),
    ensures
        picks(q, n, |i: int| found[i]@.len() > 0),
        exact_notes_upto(ids, found, n).len() == q.len(),
        forall|k: int|
            0 <= k < q.len() && ids[#[trigger] q[k]].year is Some ==> exact_notes_upto(
                ids,
                found,
                n,
            )[k] == "exact identifier "@ + (ids[q[k]].number + "/"@ + signed_decimal(
                ids[q[k]].year->0 as int,
            )) + ": "@ + decimal(found[q[k]]@.len()) + " hits (routing bypassed)"@,
    decreases n,
{
    if n <= 0 {
        Seq::empty()
    } else {
        let p = every_lookup_that_hit_is_told(ids, found, n - 1);
        let q = picks_one_more(p, n - 1, |i: int| found[i]@.len() > 0);
        let before = exact_notes_upto(ids, found, n - 1);
        let after = exact_notes_upto(ids, found, n);
        assert forall|k: int|
            0 <= k < q.len() && ids[#[trigger] q[k]].year is Some implies after[k]
            == "exact identifier "@ + (ids[q[k]].number + "/"@ + signed_decimal(
            ids[q[k]].year->0 as int,
        )) + ": "@ + decimal(found[q[k]]@.len()) + " hits (routing bypassed)"@ by {
            if k < p.len() {
                assert(q[k] == p[k]);
                assert(after[k] == before[k]);
            }
        }
        q
    }
}

/// What a caller should know is said, each thing where it holds and only there:
/// that the dense arm alone was asked, that the weights are the caller's own,
/// that the domain match is weak, and how many results have no address.
pub proof fn every_hint_is_given_where_it_holds(p: Assembly)
    ensures
        ({
            let unlinked = unlinked_upto(p.results@, p.results@.len() as int);
            let a: int = if p.applied.mode == Mode::Semantic {
                1
            } else {
                0
            };
            let b: int = a + if p.applied.experimental {
                1int
            } else {
                0
            };
            let weak = p.top_cluster.lt_spec(p.domain_floor);
            let c: int = b + if weak {
                1int
            } else {
                0
            };
            &&& hint_notes(p).len() == c + if unlinked > 0 {
                1int
            } else {
                0
            }
            &&& weak ==> hint_notes(p)[b] == "weak domain match ("@ + p.top_shown@
                + ") · the corpus may not cover this question · check the citations before relying on these results"@
            &&& unlinked > 0 ==> has_prefix(
                hint_notes(p)[c],
                decimal(unlinked) + " of "@ + decimal(p.results@.len()),
            )
        }),
{
    let unlinked = unlinked_upto(p.results@, p.results@.len() as int);
    if unlinked > 0 {
        let head = decimal(unlinked) + " of "@ + decimal(p.results@.len());
        let note = hint_notes(p).last();
        assert(note.take(head.len() as int) =~= head);
    }
}

/// An answer opens with every clamp, in order, then the width of the embedded
/// query, then how many clusters were probed of how many.
pub proof fn an_answer_opens_with_its_clamps(
    clamped: Seq<Seq<char>>,
    dims: nat,
    probed: nat,
    clusters: nat,
)
    ensures
        ({
            let t = opening_notes(clamped, dims, probed, clusters);
            let n = clamped.len() as int;
            &&& t.len() == n + 2
            &&& forall|i: int| 0 <= i < n ==> #[trigger] t[i] == "clamped: "@ + clamped[i]
            &&& t[n] == "embedded query ("@ + decimal(dims) + " dims)"@
            &&& t[n + 1] == "probed "@ + decimal(probed) + " of "@ + decimal(clusters)
                + " clusters"@
        }),
{
}

/// An answer sums itself up: its snippets are those of its results, its sources
/// are its citations, it says how many results came from how many clusters, and
/// it carries a hint where there is anything to know.
pub proof fn an_answer_sums_itself_up(a: Answer, p: Assembly, i: int)
    requires
        is_assembled(a, p),
        0 <= i < p.results@.len(),
    ensures
        a.results@ == p.results@,
        a.summary_payload.snippets@.len() == p.results@.len(),
        a.summary_payload.snippets@[i]@ == p.results@[i].snippet@,
        a.summary_payload.sources@.len() == a.citation_block@.len(),
        a.summary_payload.sources@[i]@ == a.citation_block@[i]@,
        a.summary_payload.coverage@ == decimal(a.results@.len()) + " results from "@ + decimal(
            a.clusters_probed as nat,
        ) + " of "@ + decimal(p.clusters as nat) + " clusters"@,
        a.hint is Some <==> hint_notes(p).len() > 0,
        a.hint is Some ==> (a.hint->0)@ == joined(hint_notes(p), " · "@),
{
    let s = a.summary_payload.snippets@;
    let t = a.summary_payload.sources@;
    let c = a.citation_block@;
    assert(texts(s).len() == s.len());
    assert(texts(t).len() == t.len());
    assert(texts(c).len() == c.len());
    assert(texts(s)[i] == s[i]@);
    assert(texts(t)[i] == t[i]@);
    assert(texts(c)[i] == c[i]@);
}

/// Exact matches stand in the order of the lookups, and of one lookup in the
/// order in which they were found; nothing is repeated or left out.
pub proof fn exact_matches_stand_in_the_order_of_lookups(found: Seq<Vec<ExactHit>>, n: int, i: int)
    requires
        0 < n <= found.len(),
    ensures
        ({
            let before = matches_upto(found, n - 1);
            let all = matches_upto(found, n);
            &&& all.len() == before.len() + found[n - 1]@.len()
            &&& 0 <= i < before.len() ==> all[i] == before[i]
            &&& 0 <= i < found[n - 1]@.len() ==> all[before.len() + i] == (
                found[n - 1]@[i].id@,
                found[n - 1]@[i].matched_on@,
            )
        }),
        matches_upto(found, 0).len() == 0,
{
}

} // verus!
