//! The answer to a search: evidence with its sources, and never a summary.

use vstd::prelude::*;
use vstd::string::*;

use crate::score::Score;
use crate::text::{bytes_upto, chars_of, decimal, has_prefix, show, show_signed, signed_decimal, texts, utf8_len};

verus! {

/// How much the engine trusts a result set. `Absent` is no error: it is the
/// honest answer when nothing matched, and reads `none` on the wire.
#[derive(Debug, Clone, Copy, PartialEq, Eq, Structural)]
pub enum Confidence {
    High,
    Medium,
    Low,
    Absent,
}

/// Where a result came from, precisely enough for a human to check it.
#[derive(Debug, PartialEq, Eq)]
pub struct Source {
    pub title: String,
    /// The original source a human opens.
    pub url: String,
    pub locator: Locator,
}

/// The most precise address available.
#[derive(Debug, PartialEq, Eq)]
pub struct Locator {
    pub page: Option<i32>,
    pub section: Option<String>,
}

impl Default for Locator {
    fn default() -> (r: Locator)
        ensures
            r.page is None,
            r.section is None,
    {
        Locator { page: None, section: None }
    }
}

/// How a locator is written at the end of a citation line.
pub open spec fn locator_text(l: Locator) -> Seq<char> {
    match (l.section, l.page) {
        (Some(s), Some(p)) => s@ + ", p."@ + signed_decimal(p as int),
        (Some(s), None) => s@,
        (None, Some(p)) => "p."@ + signed_decimal(p as int),
        (None, None) => Seq::empty(),
    }
}

impl Locator {
    /// The readable tail of a citation line, such as `Pasal 9 ayat (3), p.14`.
    /// Empty when ingest recorded neither part.
    pub fn render(&self) -> (r: String)
        ensures
            r@ == locator_text(*self),
    {
        match (&self.section, self.page) {
            (Some(s), Some(p)) => {
                let mut out = s.clone();
                out.append(", p.");
                let page = show_signed(p as i64);
                out.append(page.as_str());
                out
            },
            (Some(s), None) => s.clone(),
            (None, Some(p)) => {
                let mut out = "p.".to_owned();
                let page = show_signed(p as i64);
                out.append(page.as_str());
                out
            },
            (None, None) => String::new(),
        }
    }
}

/// Scores per retrieval arm, published so the agent can see why something
/// ranked.
#[derive(Debug, Clone, Copy, PartialEq)]
pub struct ComponentScores {
    pub dense: Score,
    pub bm25: Score,
}

#[derive(Debug, PartialEq)]
pub struct SearchResult {
    pub id: String,
    /// Bounded preview, never the full body.
    pub snippet: String,
    /// Fused score.
    pub score: Score,
    pub scores: ComponentScores,
    pub source: Source,
}

/// A hit from the global exact-identifier path that bypasses routing.
#[derive(Debug, PartialEq, Eq)]
pub struct ExactMatch {
    pub id: String,
    pub matched_on: String,
}

/// A ready-to-render citation line, numbered from one.
#[derive(Debug, PartialEq, Eq)]
pub struct Citation {
    pub index: usize,
    pub text: String,
}

/// Compact material the agent uses to write its summary.
#[derive(Debug, PartialEq, Eq)]
pub struct SummaryPayload {
    pub snippets: Vec<String>,
    pub sources: Vec<String>,
    pub coverage: String,
}

impl Default for SummaryPayload {
    fn default() -> (r: SummaryPayload)
        ensures
            r.snippets@.len() == 0,
            r.sources@.len() == 0,
            r.coverage@.len() == 0,
    {
        SummaryPayload { snippets: Vec::new(), sources: Vec::new(), coverage: String::new() }
    }
}

/// The full answer to a search.
#[derive(Debug, PartialEq)]
pub struct SearchResponse {
    pub success: bool,
    pub op: &'static str,
    pub query: String,
    /// `None` when no domain matched, never a guess.
    pub detected_domain: Option<String>,
    pub domain_confidence: Score,
    pub clusters_probed: usize,
    pub results: Vec<SearchResult>,
    /// Lines that are ready to render, one per result.
    pub citation_block: Vec<String>,
    pub summary_payload: SummaryPayload,
    pub exact_matches: Vec<ExactMatch>,
    pub confidence: Confidence,
    pub progress: Vec<String>,
    pub token_estimate: usize,
    pub truncated: bool,
    pub hint: Option<String>,
}

/// What a text costs an agent's context: a token for every four bytes.
pub open spec fn tokens_of(text: Seq<char>) -> nat {
    utf8_len(text) / 4
}

/// What a text costs an agent's context. Capped at the largest machine number.
pub fn estimate(text: &str) -> (r: usize)
    ensures
        r == if tokens_of(text@) > usize::MAX {
            usize::MAX as nat
        } else {
            tokens_of(text@)
        },
{
    let v = chars_of(text);
    let total = bytes_upto(&v, v.len());
    assert(v@.take(v@.len() as int) =~= text@);
    let tokens: u128 = total / 4;
    if tokens > usize::MAX as u128 {
        usize::MAX
    } else {
        tokens as usize
    }
}

impl SearchResponse {
    /// The honest empty answer: no domain matched. The engine worked and found
    /// nothing, which is a success and not an error. Its cost is filled in by
    /// [`SearchResponse::sized`].
    pub fn no_matching_domain(query: &str, progress: Vec<String>) -> (r: SearchResponse)
        ensures
            r.success,
            r.op@ == "search_knowledge"@,
            r.query@ == query@,
            r.detected_domain is None,
            r.domain_confidence == (Score { bits: 0 }),
            r.clusters_probed == 0,
            r.results@.len() == 0,
            r.citation_block@.len() == 0,
            r.summary_payload.snippets@.len() == 0,
            r.summary_payload.sources@.len() == 0,
            r.summary_payload.coverage@.len() == 0,
            r.exact_matches@.len() == 0,
            r.confidence == Confidence::Absent,
            r.progress == progress,
            r.token_estimate == 0,
            !r.truncated,
            r.hint is Some,
            r.hint->0@
                == "query matched no known knowledge base · widen the query, or check list_domains for what this engine covers"@,
    {
        SearchResponse {
            success: true,
            op: "search_knowledge",
            query: query.to_owned(),
            detected_domain: None,
            domain_confidence: Score { bits: 0 },
            clusters_probed: 0,
            results: Vec::new(),
            citation_block: Vec::new(),
            summary_payload: SummaryPayload {
                snippets: Vec::new(),
                sources: Vec::new(),
                coverage: String::new(),
            },
            exact_matches: Vec::new(),
            confidence: Confidence::Absent,
            progress,
            token_estimate: 0,
            truncated: false,
            hint: Some(
                "query matched no known knowledge base · widen the query, or check list_domains for what this engine covers".to_owned(),
            ),
        }
    }

    /// What this response costs, written out as `serialized`. A response that
    /// could not be written out costs nothing.
    pub fn estimate_tokens(&self, serialized: Option<&str>) -> (r: usize)
        ensures
            r == match serialized {
                Some(text) => if tokens_of(text@) > usize::MAX {
                    usize::MAX as nat
                } else {
                    tokens_of(text@)
                },
                None => 0,
            },
    {
        match serialized {
            Some(text) => estimate(text),
            None => 0,
        }
    }

    /// The same response with its cost filled in.
    pub fn sized(self, serialized: Option<&str>) -> (r: SearchResponse)
        ensures
            r == (SearchResponse { token_estimate: r.token_estimate, ..self }),
            r.token_estimate == match serialized {
                Some(text) => if tokens_of(text@) > usize::MAX {
                    usize::MAX as nat
                } else {
                    tokens_of(text@)
                },
                None => 0,
            },
    {
        let token_estimate: usize = self.estimate_tokens(serialized);
        SearchResponse { token_estimate, ..self }
    }
}

/// The citation line of a source, under a number.
pub open spec fn citation_text(index: nat, source: Source) -> Seq<char> {
    let tail = locator_text(source.locator);
    let middle = if tail.len() == 0 {
        tail
    } else {
        ", "@ + tail
    };
    "["@ + decimal(index) + "] "@ + source.title@ + middle + " — "@ + source.url@
}

fn cite(index: usize, source: &Source) -> (r: String)
    ensures
        r@ == citation_text(index as nat, *source),
{
    let mut out = "[".to_owned();
    let number = show(index as u64);
    out.append(number.as_str());
    out.append("] ");
    out.append(source.title.as_str());
    let ghost head = out@;
    let tail = source.locator.render();
    if !tail.as_str().is_empty() {
        out.append(", ");
        out.append(tail.as_str());
    }
    assert(out@ =~= head + if tail@.len() == 0 {
        tail@
    } else {
        ", "@ + tail@
    });
    out.append(" — ");
    out.append(source.url.as_str());
    out
}

/// The numbered citation block of ranked results: one line per result, in rank
/// order, so that `[1]` always addresses the first one.
pub fn citation_block(results: &Vec<SearchResult>) -> (r: Vec<Citation>)
    ensures
        r@.len() == results@.len(),
        forall|i: int|
            0 <= i < r@.len() ==> (#[trigger] r@[i]).index == i + 1 && r@[i].text@ == citation_text(
                (i + 1) as nat,
                results@[i].source,
            ),
{
    let mut out: Vec<Citation> = Vec::new();
    let mut i: usize = 0;
    while i < results.len()
        invariant
            i <= results@.len(),
            out@.len() == i,
            forall|k: int|
                0 <= k < i ==> (#[trigger] out@[k]).index == k + 1 && out@[k].text@
                    == citation_text((k + 1) as nat, results@[k].source),
        decreases results@.len() - i,
    {
        let index: usize = i + 1;
        let text = cite(index, &results[i].source);
        out.push(Citation { index, text });
        i = i + 1;
    }
    out
}

/// The citation lines of ranked results, numbered from one.
pub open spec fn citation_lines(results: Seq<SearchResult>) -> Seq<Seq<char>> {
    Seq::new(results.len(), |i: int| citation_text((i + 1) as nat, results[i].source))
}

/// The lines of a citation block, as a response carries them: whoever renders
/// them has nothing left to put together.
pub fn rendered(block: Vec<Citation>) -> (r: Vec<String>)
    ensures
        texts(r@) == block@.map_values(|c: Citation| c.text@),
{
    let mut out: Vec<String> = Vec::new();
    let mut i: usize = 0;
    while i < block.len()
        invariant
            i <= block@.len(),
            out@.len() == i,
            forall|k: int| 0 <= k < i ==> (#[trigger] out@[k])@ == block@[k].text@,
        decreases block@.len() - i,
    {
        out.push(block[i].text.clone());
        i = i + 1;
    }
    assert(texts(out@) =~= block@.map_values(|c: Citation| c.text@));
    out
}

/// A token for every four bytes: the estimate times four does not exceed the
/// bytes of a text, and falls short of them by less than four.
pub proof fn a_token_is_four_bytes(text: Seq<char>)
    ensures
        4 * tokens_of(text) <= utf8_len(text) < 4 * tokens_of(text) + 4,
{
}

/// A citation line reads `[n] title, locator — url`, and leaves an empty locator
/// out; a locator is the section, the page, or both.
pub proof fn a_citation_reads_number_title_locator_url(index: nat, source: Source)
    ensures
        ({
            let head = "["@ + decimal(index) + "] "@ + source.title@;
            let l = locator_text(source.locator);
            &&& l.len() == 0 ==> citation_text(index, source) == head + " — "@ + source.url@
            &&& l.len() > 0 ==> citation_text(index, source) == head + ", "@ + l + " — "@
                + source.url@
        }),
        match (source.locator.section, source.locator.page) {
            (None, None) => locator_text(source.locator).len() == 0,
            (Some(s), None) => locator_text(source.locator) == s@,
            (None, Some(p)) => locator_text(source.locator) == "p."@ + signed_decimal(p as int),
            (Some(s), Some(p)) => locator_text(source.locator) == s@ + ", p."@ + signed_decimal(
                p as int,
            ),
        },
{
    let head = "["@ + decimal(index) + "] "@ + source.title@;
    let l = locator_text(source.locator);
    if l.len() == 0 {
        assert(head + l =~= head);
    } else {
        assert(head + (", "@ + l) =~= head + ", "@ + l);
    }
}

/// The line at place `i` begins with the number `i + 1` in brackets and the
/// title of the result at that place: `[n]` addresses the `n`-th result.
pub proof fn a_line_addresses_its_result(results: Seq<SearchResult>, i: int, j: int)
    requires
        0 <= i < results.len(),
        0 <= j < results.len(),
    ensures
        citation_lines(results).len() == results.len(),
        has_prefix(
            citation_lines(results)[i],
            "["@ + decimal((i + 1) as nat) + "] "@ + results[i].source.title@,
        ),
        i != j ==> decimal((i + 1) as nat) != decimal((j + 1) as nat),
{
    let line = citation_lines(results)[i];
    let head = "["@ + decimal((i + 1) as nat) + "] "@ + results[i].source.title@;
    assert(line.take(head.len() as int) =~= head);
    if i != j && decimal((i + 1) as nat) == decimal((j + 1) as nat) {
        crate::text::decimal_is_injective((i + 1) as nat, (j + 1) as nat);
    }
}

} // verus!
