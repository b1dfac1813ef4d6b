//! The lexical shape of a corpus.

use vera::sample::{percentile, sorted_sample};
use vera::score::Score;
use vera::space::profile::{keyword_caveat, keyword_metrics_are_representative, tokenize, KeywordFigures, KeywordTexts, HeadTerm, ProfileBuilder, ProfileCounts, HEAD_TERMS};

fn s(x: f32) -> Score {
    Score { bits: x.to_bits() }
}

/// The shares and means that are formed from the counts.
struct Profile {
    counts: ProfileCounts,
    vocabulary: usize,
    hapax_fraction: f32,
    mean_idf: f32,
    mean_idf_weighted: f32,
    head_terms: Vec<(String, f32)>,
    top_term_row_share: f32,
    zipf_slope: f32,
    mean_doc_tokens: f32,
    identifier_density: f32,
}

fn slope(sorted_desc: &[usize]) -> f32 {
    let n = sorted_desc.len().min(1_000);
    if n < 8 {
        return 0.0;
    }
    let points: Vec<(f64, f64)> = (0..n)
        .map(|i| ((i as f64 + 1.0).ln(), (sorted_desc[i] as f64).max(1.0).ln()))
        .collect();
    let mean_x = points.iter().map(|(x, _)| x).sum::<f64>() / n as f64;
    let mean_y = points.iter().map(|(_, y)| y).sum::<f64>() / n as f64;
    let covariance: f64 = points.iter().map(|(x, y)| (x - mean_x) * (y - mean_y)).sum();
    let variance: f64 = points.iter().map(|(x, _)| (x - mean_x).powi(2)).sum();
    if variance.abs() < f64::EPSILON {
        return 0.0;
    }
    (covariance / variance) as f32
}

fn profile(b: ProfileBuilder) -> Profile {
    let counts = b.finish();
    let rows = counts.rows;
    let reaches: Vec<usize> = counts.by_frequency.iter().map(|t| t.rows).collect();
    let vocabulary = reaches.len();
    let idf = |df: usize| (rows as f32 / df as f32).ln();
    let mean_idf = if vocabulary == 0 || rows == 0 {
        0.0
    } else {
        reaches.iter().map(|df| idf(*df)).sum::<f32>() / vocabulary as f32
    };
    let total: f64 = reaches.iter().map(|df| *df as f64).sum();
    let mean_idf_weighted = if total <= 0.0 {
        0.0
    } else {
        (reaches.iter().map(|df| *df as f64 * f64::from(idf(*df))).sum::<f64>() / total) as f32
    };
    let head_terms: Vec<(String, f32)> = counts
        .head()
        .into_iter()
        .map(|t| (t.term, if t.of == 0 { 0.0 } else { t.rows as f32 / t.of as f32 }))
        .collect();
    Profile {
        vocabulary,
        hapax_fraction: if vocabulary == 0 { 0.0 } else { counts.hapax as f32 / vocabulary as f32 },
        mean_idf,
        mean_idf_weighted,
        top_term_row_share: head_terms.first().map_or(0.0, |(_, share)| *share),
        head_terms,
        zipf_slope: slope(&reaches),
        mean_doc_tokens: if rows == 0 { 0.0 } else { counts.tokens_total as f32 / rows as f32 },
        identifier_density: if rows == 0 {
            0.0
        } else {
            counts.rows_with_identifier as f32 / rows as f32
        },
        counts,
    }
}

impl Profile {
    fn expected_query_reach(&self, term_count: usize) -> f32 {
        let per_term = (-self.mean_idf_weighted).exp().clamp(0.0, 1.0);
        1.0 - (1.0 - per_term).powi(term_count as i32)
    }

    fn figures(&self) -> KeywordFigures {
        KeywordFigures {
            vocabulary: self.vocabulary,
            zipf_slope: s(self.zipf_slope),
            reach: s(self.expected_query_reach(8)),
        }
    }

    fn keyword_metrics_are_representative(&self) -> bool {
        keyword_metrics_are_representative(&self.figures())
    }

    fn keyword_caveat(&self) -> Option<String> {
        let texts = KeywordTexts {
            zipf_slope: format!("{:.2}", self.zipf_slope),
            weighted_idf: format!("{:.2}", self.mean_idf_weighted),
            reach: format!("{:.0}", self.expected_query_reach(8) * 100.0),
            commonest: self
                .head_terms
                .first()
                .map(|(term, share)| (term.clone(), format!("{:.0}", share * 100.0))),
        };
        keyword_caveat(&self.figures(), &texts)
    }
}

/// A corpus where every row draws from the same tiny closed vocabulary.
fn uniform_corpus(rows: usize) -> Profile {
    let mut b = ProfileBuilder::new();
    let vocab = ["wajib", "pajak", "sanksi", "ketentuan", "umum"];
    for i in 0..rows {
        let body = vocab.join(" ");
        b.observe(&body, &format!("doc-{}", i % 10), None);
    }
    profile(b)
}

/// A corpus with a Zipfian vocabulary.
fn zipfian_corpus(rows: usize) -> Profile {
    let mut b = ProfileBuilder::new();
    for i in 0..rows {
        // Term j appears in roughly rows/j documents.
        let mut body = String::new();
        for j in 1..=40usize {
            if i % j == 0 {
                body.push_str(&format!("t{j} "));
            }
        }
        // A term unique to this row.
        body.push_str(&format!("uniq{i}"));
        b.observe(&body, &format!("doc-{}", i / 3), Some("UU 28/2007"));
    }
    profile(b)
}

#[test]
fn a_closed_vocabulary_is_flagged_as_unrepresentative() {
    let p = uniform_corpus(500);
    assert_eq!(p.vocabulary, 5);
    assert!(!p.keyword_metrics_are_representative());
    let caveat = p.keyword_caveat().expect("must explain itself");
    assert!(caveat.contains("does not transfer"), "{caveat}");
}

#[test]
fn every_term_in_every_row_means_zero_selectivity() {
    let p = uniform_corpus(500);
    assert!(p.mean_idf.abs() < 1e-4, "{}", p.mean_idf);
    assert!((p.top_term_row_share - 1.0).abs() < 1e-4);
}

#[test]
fn a_zipfian_corpus_slopes_down_and_carries_real_selectivity() {
    let p = zipfian_corpus(2_000);
    assert!(p.zipf_slope < -0.5, "slope {}", p.zipf_slope);
    assert!(p.mean_idf > 2.0, "mean idf {}", p.mean_idf);
}

#[test]
fn a_long_tail_lifts_the_type_average_while_queries_still_reach_everything() {
    let p = zipfian_corpus(2_000);
    assert!(p.mean_idf > 4.0, "type average is high: {}", p.mean_idf);
    assert!(
        p.mean_idf_weighted < p.mean_idf,
        "weighted {} must sit below type {}",
        p.mean_idf_weighted,
        p.mean_idf
    );
    assert!(
        p.expected_query_reach(8) > 0.25,
        "an 8-term OR should still reach a large share of rows: {}",
        p.expected_query_reach(8)
    );
    assert!(
        !p.keyword_metrics_are_representative(),
        "a corpus whose queries reach every row is not representative"
    );
}

#[test]
fn a_zipf_head_that_is_still_selective_is_the_case_that_passes() {
    let mut b = ProfileBuilder::new();
    for i in 0..20_000usize {
        let mut body = format!("uniq{i}");
        for j in 1..=40usize {
            if i % (20 * j) == 0 {
                body.push_str(&format!(" t{j}"));
            }
        }
        b.observe(&body, &format!("doc-{}", i / 4), None);
    }
    let p = profile(b);
    assert!(p.zipf_slope <= -0.5, "slope {}", p.zipf_slope);
    assert!(p.top_term_row_share < 0.10, "head share {}", p.top_term_row_share);
    assert!(p.expected_query_reach(8) < 0.25, "reach {}", p.expected_query_reach(8));
    assert!(p.keyword_metrics_are_representative(), "{:?}", p.keyword_caveat());
}

#[test]
fn the_head_terms_name_what_is_dragging_keyword_search() {
    let mut b = ProfileBuilder::new();
    for i in 0..1_000 {
        b.observe(&format!("wajib rare{i}"), "doc", None);
    }
    let p = profile(b);
    let (term, share) = &p.head_terms[0];
    assert_eq!(term, "wajib");
    assert!((share - 1.0).abs() < 1e-4, "{share}");
    assert!(p.keyword_caveat().unwrap().contains("'wajib'"));
}

#[test]
fn hapax_terms_are_counted() {
    // The `uniq{i}` term of every row occurs exactly once.
    let p = zipfian_corpus(1_000);
    assert!(p.hapax_fraction > 0.9, "{}", p.hapax_fraction);
}

#[test]
fn document_frequency_counts_a_row_once_however_often_a_term_repeats() {
    let mut b = ProfileBuilder::new();
    b.observe(&"pajak ".repeat(100), "doc-1", None);
    b.observe("sanksi", "doc-2", None);
    let p = profile(b);
    assert_eq!(p.vocabulary, 2);
    assert_eq!(p.counts.tokens_total, 101, "token count still counts repeats");
    // Each term reaches 1 of 2 rows, so its idf is ln(2).
    assert!((p.mean_idf - 2.0f32.ln()).abs() < 1e-4, "{}", p.mean_idf);
}

#[test]
fn identifier_density_measures_the_reach_of_the_routing_bypass() {
    let mut b = ProfileBuilder::new();
    for i in 0..100 {
        let id = if i % 10 == 0 { Some("UU 28/2007") } else { None };
        b.observe("ketentuan umum", "doc", id);
    }
    let p = profile(b);
    assert!((p.identifier_density - 0.10).abs() < 1e-5, "{}", p.identifier_density);
    assert_eq!(p.counts.distinct_identifiers, 1);
}

#[test]
fn document_lengths_are_reported_as_percentiles_not_a_mean_alone() {
    let mut b = ProfileBuilder::new();
    for i in 0..100 {
        let n = if i < 95 { 10 } else { 500 };
        b.observe(&"kata ".repeat(n), "doc", None);
    }
    let p = profile(b);
    assert_eq!(p.counts.p50_doc_tokens, 10);
    assert_eq!(p.counts.p95_doc_tokens, 10);
    assert!(p.mean_doc_tokens > 10.0, "the tail moves the mean: {}", p.mean_doc_tokens);
}

#[test]
fn an_empty_corpus_profiles_to_zeroes_rather_than_dividing_by_zero() {
    let p = profile(ProfileBuilder::new());
    assert_eq!(p.counts.rows, 0);
    assert_eq!(p.vocabulary, 0);
    assert!(p.mean_idf.abs() < f32::EPSILON);
    assert!(p.zipf_slope.abs() < f32::EPSILON);
    assert!(!p.keyword_metrics_are_representative());
}

#[test]
fn tokenization_matches_what_the_keyword_half_will_see() {
    let got: Vec<String> = tokenize("Wajib Pajak · UU 28/2007");
    assert_eq!(got, ["wajib", "pajak", "uu", "28", "2007"]);
}

#[test]
fn terms_are_listed_by_reach_and_then_by_name() {
    let mut b = ProfileBuilder::new();
    b.observe("beta alpha alpha", "one", Some("UU 1/2000"));
    b.observe("ALPHA gamma", "one", None);
    b.observe("alpha", "two", Some("UU 2/2000"));
    let c = b.finish();
    let listed: Vec<(&str, usize)> =
        c.by_frequency.iter().map(|t| (t.term.as_str(), t.rows)).collect();
    assert_eq!(listed, vec![("alpha", 3), ("beta", 1), ("gamma", 1)]);
    assert_eq!(c.rows, 3);
    assert_eq!(c.hapax, 2);
    assert_eq!(c.tokens_total, 6);
    assert_eq!(c.distinct_documents, 2);
    assert_eq!(c.rows_with_identifier, 2);
    assert_eq!(c.distinct_identifiers, 2);
    assert_eq!(c.p50_doc_tokens, 2);
    assert_eq!(c.p95_doc_tokens, 3);
}

#[test]
fn each_condition_on_a_corpus_is_held_on_its_own() {
    let good = KeywordFigures { vocabulary: 1_000, zipf_slope: s(-0.5), reach: s(0.25) };
    assert!(keyword_metrics_are_representative(&good));
    assert!(!keyword_metrics_are_representative(&KeywordFigures { vocabulary: 999, ..good }));
    assert!(!keyword_metrics_are_representative(&KeywordFigures { zipf_slope: s(-0.49), ..good }));
    assert!(!keyword_metrics_are_representative(&KeywordFigures { reach: s(0.26), ..good }));
}

#[test]
fn a_caveat_is_written_out_in_full() {
    let figures = KeywordFigures { vocabulary: 50, zipf_slope: s(0.0), reach: s(1.0) };
    let texts = KeywordTexts {
        zipf_slope: "0.00".to_owned(),
        weighted_idf: "0.00".to_owned(),
        reach: "100".to_owned(),
        commonest: Some(("wajib".to_owned(), "99".to_owned())),
    };
    assert_eq!(
        keyword_caveat(&figures, &texts).unwrap(),
        "vocabulary 50 terms · Zipf slope 0.00 · weighted IDF 0.00 → an 8-term OR reaches ~100% of rows (commonest term 'wajib' alone is in 99%) · BM25 latency measured here describes a scan, ✗ an index lookup, and does not transfer"
    );
}

#[test]
fn a_percentile_is_the_nearest_place_that_covers_its_share() {
    let v = sorted_sample(vec![5, 1, 4, 2, 3]);
    assert_eq!(v, vec![1, 2, 3, 4, 5]);
    assert_eq!(percentile(&v, 50), 3);
    assert_eq!(percentile(&v, 95), 5);
    assert_eq!(percentile(&v, 0), 1);
    assert_eq!(percentile(&vec![], 50), 0);
}

#[test]
fn a_head_is_the_commonest_terms_with_ties_in_dictionary_order() {
    let mut b = ProfileBuilder::new();
    b.observe("pajak wajib", "a", None);
    b.observe("pajak sanksi sanksi", "a", None);
    b.observe("wajib", "b", None);
    let head = b.finish().head();
    assert_eq!(
        head,
        vec![
            HeadTerm { term: "pajak".to_owned(), rows: 2, of: 3 },
            HeadTerm { term: "wajib".to_owned(), rows: 2, of: 3 },
            HeadTerm { term: "sanksi".to_owned(), rows: 1, of: 3 },
        ]
    );
}

#[test]
fn a_head_stops_at_its_bound() {
    let mut b = ProfileBuilder::new();
    let terms: Vec<String> = (0..40).map(|i| format!("t{i:02}")).collect();
    b.observe(&terms.join(" "), "a", None);
    b.observe("t39", "b", None);
    let counts = b.finish();
    assert_eq!(counts.by_frequency.len(), 40);
    let head = counts.head();
    assert_eq!(head.len(), HEAD_TERMS);
    assert_eq!(head[0], HeadTerm { term: "t39".to_owned(), rows: 2, of: 2 });
    assert_eq!(head[1].term, "t00");
    assert_eq!(head[31].term, "t30");
    assert!(ProfileBuilder::new().finish().head().is_empty());
}

#[test]
fn the_order_of_the_rows_does_not_change_a_profile() {
    let rows = [
        ("pajak bumi dan bangunan", "a", Some("UU 12/1985")),
        ("sanksi administrasi", "b", None),
        ("pajak pajak", "a", Some("UU 28/2007")),
        ("ketentuan umum", "c", Some("UU 12/1985")),
    ];
    let fed = |order: [usize; 4]| {
        let mut b = ProfileBuilder::new();
        for i in order {
            b.observe(rows[i].0, rows[i].1, rows[i].2);
        }
        b.finish()
    };
    let first = fed([0, 1, 2, 3]);
    assert_eq!(first.rows, 4);
    assert_eq!(first.distinct_documents, 3);
    assert_eq!(first.distinct_identifiers, 2);
    assert_eq!(first.rows_with_identifier, 3);
    for order in [[3, 2, 1, 0], [1, 3, 0, 2], [2, 0, 3, 1]] {
        assert_eq!(fed(order), first);
    }
}
