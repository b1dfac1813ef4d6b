//! Chunks, citations and the answer's shape.

use vera::contract::chunk::Chunk;
use vera::contract::response::{citation_block, estimate, Confidence, ComponentScores, Locator, SearchResponse, SearchResult, Source};
use vera::score::Score;

fn s(x: f32) -> Score {
    Score { bits: x.to_bits() }
}

fn chunk(body: &str) -> Chunk {
    Chunk {
        id: "reg::uu-28-2007::pasal-9::c3".into(),
        domain_id: "regulations".into(),
        cluster_id: 7,
        body: body.into(),
        source_title: "UU No. 28 Tahun 2007".into(),
        source_url: "https://peraturan.example/uu-28-2007.pdf".into(),
        locator_page: Some(14),
        locator_section: Some("Pasal 9 ayat (3)".into()),
        heading_path: None,
        identifier: Some("UU 28/2007".into()),
    }
}

fn result(title: &str, page: Option<i32>, section: Option<&str>) -> SearchResult {
    SearchResult {
        id: "c1".into(),
        snippet: "Wajib Pajak…".into(),
        score: s(0.871),
        scores: ComponentScores { dense: s(0.83), bm25: s(0.61) },
        source: Source {
            title: title.into(),
            url: "https://peraturan.example/uu-28-2007.pdf".into(),
            locator: Locator { page, section: section.map(Into::into) },
        },
    }
}

#[test]
fn short_bodies_are_returned_whole_without_an_ellipsis() {
    let c = chunk("Wajib Pajak");
    assert_eq!(c.snippet(64), "Wajib Pajak");
}

#[test]
fn lib_long_bodies_are_cut_on_a_word_break() {
    let c = chunk("Wajib Pajak yang terlambat menyampaikan laporan dikenai sanksi");
    let s = c.snippet(20);
    assert!(s.ends_with('…'), "{s}");
    assert!(s.starts_with("Wajib Pajak"), "{s}");
}

#[test]
fn snippet_never_splits_a_multibyte_char() {
    // A cut at an arbitrary byte offset would panic or corrupt; chars() cannot.
    let c = chunk("pératuran émbedding ünicode ✓ 日本語のテキストもここにある");
    for n in 1..40 {
        let s = c.snippet(n);
        assert!(s.is_char_boundary(s.len()));
    }
}

#[test]
fn provenance_comes_from_stored_fields_and_is_never_invented() {
    let source = chunk("x").source();
    assert_eq!(source.url, "https://peraturan.example/uu-28-2007.pdf");
    assert_eq!(source.locator.page, Some(14));
    assert_eq!(source.locator.section.as_deref(), Some("Pasal 9 ayat (3)"));
}

#[test]
fn a_chunk_ingested_without_a_locator_reports_an_empty_one() {
    let mut c = chunk("x");
    c.locator_page = None;
    c.locator_section = None;
    let locator = c.source().locator;
    assert!(locator.page.is_none() && locator.section.is_none());
}

#[test]
fn a_snippet_is_cut_where_a_word_ends_late_enough() {
    // Twenty characters end inside "terlambat"; the last blank among them
    // stands at byte sixteen, past three quarters of the budget.
    let c = chunk("Wajib Pajak yang terlambat menyampaikan laporan dikenai sanksi");
    assert_eq!(c.snippet(20), "Wajib Pajak yang…");
    // The only blank stands too early, so the word is cut.
    assert_eq!(chunk("ab cdefghijklmnop").snippet(10), "ab cdefghi…");
    assert_eq!(chunk("   padded   ").snippet(6), "padded");
    assert_eq!(chunk("abc").snippet(0), "…");
}

#[test]
fn locator_prefers_the_most_precise_address_available() {
    assert_eq!(
        Locator { page: Some(14), section: Some("Pasal 9 ayat (3)".into()) }.render(),
        "Pasal 9 ayat (3), p.14"
    );
    assert_eq!(Locator { page: Some(14), section: None }.render(), "p.14");
    // Nothing recorded gives nothing, not a placeholder like "p.?" that would
    // read as provenance a human could act on.
    assert_eq!(Locator::default().render(), "");
}

#[test]
fn a_section_alone_is_its_own_address() {
    assert_eq!(
        Locator { page: None, section: Some("Pasal 9".into()) }.render(),
        "Pasal 9"
    );
    assert_eq!(Locator { page: Some(-3), section: None }.render(), "p.-3");
}

#[test]
fn citations_are_numbered_from_one_in_rank_order() {
    let block = citation_block(&vec![
        result("UU No. 28 Tahun 2007", Some(14), Some("Pasal 9 ayat (3)")),
        result("PP No. 74 Tahun 2011", Some(3), None),
    ]);
    assert_eq!(block[0].index, 1);
    assert!(
        block[0]
            .text
            .starts_with("[1] UU No. 28 Tahun 2007, Pasal 9 ayat (3), p.14 — https://")
    );
    assert_eq!(block[1].index, 2);
    assert!(block[1].text.contains("[2] PP No. 74 Tahun 2011, p.3 — "));
}

#[test]
fn a_citation_without_a_locator_still_renders_a_usable_line() {
    let block = citation_block(&vec![result("Untitled Source", None, None)]);
    assert_eq!(
        block[0].text,
        "[1] Untitled Source — https://peraturan.example/uu-28-2007.pdf"
    );
}

#[test]
fn no_matching_domain_succeeds_with_nothing_rather_than_guessing() {
    let serialized = r#"{"success":true,"op":"search_knowledge","query":"ketentuan sanksi"}"#;
    let r = SearchResponse::no_matching_domain("ketentuan sanksi", vec!["embed".into()])
        .sized(Some(serialized));
    assert!(r.success, "engine worked correctly · it simply found nothing");
    assert!(r.detected_domain.is_none());
    assert_eq!(r.confidence, Confidence::Absent);
    assert!(r.results.is_empty());
    assert!(r.hint.is_some(), "must tell the agent what to do next");
    assert!(r.token_estimate > 0);
}

#[test]
fn a_refusal_names_its_operation_and_keeps_its_query() {
    let r = SearchResponse::no_matching_domain("q", vec!["embed".into(), "route".into()]);
    assert_eq!(r.op, "search_knowledge");
    assert_eq!(r.query, "q");
    assert_eq!(r.progress, vec!["embed", "route"]);
    assert_eq!(r.clusters_probed, 0);
    assert!(r.citation_block.is_empty());
    assert!(r.exact_matches.is_empty());
    assert!(!r.truncated);
}

#[test]
fn an_estimate_is_a_quarter_of_the_text_in_bytes() {
    assert_eq!(estimate(""), 0);
    assert_eq!(estimate("abcd"), 1);
    assert_eq!(estimate("abcde"), 1);
    // Three bytes to a character that is written as one.
    assert_eq!(estimate("……"), 1);
    let r = SearchResponse::no_matching_domain("q", vec![]);
    assert_eq!(r.estimate_tokens(None), 0);
    assert_eq!(r.estimate_tokens(Some("12345678")), 2);
}
