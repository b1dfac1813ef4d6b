//! Routing, scanning and fusing.

use vera::contract::chunk::Chunk;
use vera::contract::response::{Confidence, ComponentScores, Locator, SearchResponse, SearchResult, Source};
use vera::engine::routing::{detect_domain, route, select_clusters, AnchorMatch, ClusterMatch};
use vera::retrieval::course::{begin, Dials};
use vera::retrieval::fusion::{gather, reciprocal_rank_fusion, Arm, Fused, DEFAULT_K};
use vera::retrieval::identifier::extract;
use vera::retrieval::routing::{detect_domain_with, nearest_clusters, CalibratedAnchor, ProbedCluster};
use vera::retrieval::search::{check_width, confidence_for, merge_by_score, summary_payload, EngineError, Probe};
use vera::retrieval::topk::{Scored, TopK};
use vera::retrieval::trust::{trust_from, Trust};
use vera::score::Score;

fn s(x: f32) -> Score {
    Score { bits: x.to_bits() }
}

fn f(x: Score) -> f32 {
    f32::from_bits(x.bits)
}

fn cosine(a: &[f32], b: &[f32]) -> f32 {
    let dot: f32 = a.iter().zip(b).map(|(x, y)| x * y).sum();
    let na: f32 = a.iter().map(|x| x * x).sum();
    let nb: f32 = b.iter().map(|x| x * x).sum();
    let denom = na.sqrt() * nb.sqrt();
    if denom <= f32::EPSILON {
        0.0
    } else {
        dot / denom
    }
}

fn unit(v: &[f32]) -> Vec<f32> {
    let n: f32 = v.iter().map(|x| x * x).sum::<f32>().sqrt();
    v.iter().map(|x| x / n).collect()
}

// ---------------------------------------------------------------------------
// Trust
// ---------------------------------------------------------------------------

#[test]
fn no_domain_means_no_confidence_regardless_of_score() {
    assert_eq!(trust_from(false, 10, s(0.9)), Trust::Absent);
}

#[test]
fn an_empty_result_set_is_none_not_low() {
    assert_eq!(trust_from(true, 0, s(0.0)), Trust::Absent);
}

#[test]
fn trust_tracks_the_top_fused_score() {
    assert_eq!(trust_from(true, 5, s(0.040)), Trust::High);
    assert_eq!(trust_from(true, 5, s(0.025)), Trust::Medium);
    assert_eq!(trust_from(true, 5, s(0.005)), Trust::Low);
    assert_eq!(trust_from(true, 5, s(0.030)), Trust::High);
    assert_eq!(trust_from(true, 5, s(0.020)), Trust::Medium);
}

// ---------------------------------------------------------------------------
// Fusion
// ---------------------------------------------------------------------------

fn ids(xs: &[&str]) -> Vec<String> {
    xs.iter().map(|x| (*x).to_owned()).collect()
}

fn arm<'a>(name: &'static str, ids: &'a Vec<String>, weight: f32) -> Arm<'a> {
    Arm { name, ids, weight: s(weight) }
}

/// Fuses arms, each place counting its weight over the damped rank.
fn fuse(arms: &Vec<Arm<'_>>) -> Vec<Fused> {
    let k = f32::from_bits(DEFAULT_K);
    let hits = gather(arms);
    let scores = hits
        .iter()
        .map(|h| s(h.contributions.iter().map(|c| f(c.weight) / (k + c.rank as f32)).sum()))
        .collect();
    reciprocal_rank_fusion(hits, &scores)
}

#[test]
fn an_item_ranked_well_by_two_arms_beats_one_ranked_well_by_one() {
    let a = ids(&["x", "y"]);
    let b = ids(&["x", "z"]);
    let fused = fuse(&vec![arm("dense", &a, 1.0), arm("sparse", &b, 1.0)]);
    assert_eq!(fused[0].id, "x");
    assert_eq!(fused[0].contributions.len(), 2, "found by both arms");
}

#[test]
fn fusing_identical_lists_preserves_their_order() {
    let a = ids(&["a", "b", "c"]);
    let fused = fuse(&vec![arm("one", &a, 1.0), arm("two", &a, 1.0)]);
    assert_eq!(fused.iter().map(|x| x.id.as_str()).collect::<Vec<_>>(), ["a", "b", "c"]);
}

#[test]
fn a_zero_weight_arm_contributes_nothing() {
    let good = ids(&["right"]);
    let noise = ids(&["wrong", "wrong2"]);
    let fused = fuse(&vec![arm("sparse", &good, 1.0), arm("dense", &noise, 0.0)]);
    assert_eq!(fused.len(), 1);
    assert_eq!(fused[0].id, "right");
}

#[test]
fn weights_shift_the_ordering_without_touching_the_arms() {
    let dense = ids(&["d"]);
    let sparse = ids(&["s"]);
    let weighted = |wd: f32, ws: f32| {
        fuse(&vec![arm("dense", &dense, wd), arm("sparse", &sparse, ws)])[0].id.clone()
    };
    assert_eq!(weighted(2.0, 1.0), "d");
    assert_eq!(weighted(1.0, 2.0), "s");
}

#[test]
fn output_is_deterministic_when_scores_tie() {
    let a = ids(&["b"]);
    let b = ids(&["a"]);
    let run = || fuse(&vec![arm("one", &a, 1.0), arm("two", &b, 1.0)]);
    // Equal scores: the id breaks the tie, and it breaks it the same way twice.
    assert_eq!(run()[0].id, "a");
    assert_eq!(run(), run());
}

#[test]
fn contributions_record_the_rank_each_arm_gave() {
    let dense = ids(&["p", "q"]);
    let sparse = ids(&["q", "p"]);
    let fused = fuse(&vec![arm("dense", &dense, 1.0), arm("sparse", &sparse, 1.0)]);
    let p = fused.iter().find(|x| x.id == "p").unwrap();
    assert!(p.contributions.iter().any(|c| c.arm == "dense" && c.rank == 1));
    assert!(p.contributions.iter().any(|c| c.arm == "sparse" && c.rank == 2));
}

#[test]
fn no_arms_yields_no_results_rather_than_panicking() {
    assert!(fuse(&vec![]).is_empty());
}

#[test]
fn the_damping_constant_is_sixty() {
    assert_eq!(f32::from_bits(DEFAULT_K), 60.0);
    let a = ids(&["a"]);
    let fused = fuse(&vec![arm("one", &a, 1.0)]);
    assert_eq!(fused[0].score, s(1.0 / 61.0));
}

// ---------------------------------------------------------------------------
// Top k
// ---------------------------------------------------------------------------

fn names(v: Vec<Scored>) -> Vec<String> {
    v.into_iter().map(|x| x.id).collect()
}

#[test]
fn it_keeps_the_best_k_and_orders_them_best_first() {
    let mut t = TopK::new(3);
    for (id, score) in [("a", 0.1), ("b", 0.9), ("c", 0.5), ("d", 0.7), ("e", 0.2)] {
        t.offer(id, s(score));
    }
    assert_eq!(names(t.into_ranked()), ["b", "d", "c"]);
}

#[test]
fn memory_stays_bounded_no_matter_how_many_rows_stream_through() {
    let mut t = TopK::new(50);
    for i in 0..100_000 {
        t.offer(&format!("row-{i}"), s((i % 977) as f32));
        assert!(t.len() <= 50);
    }
    assert_eq!(t.len(), 50);
}

#[test]
fn fewer_candidates_than_k_are_all_kept() {
    let mut t = TopK::new(10);
    t.offer("a", s(1.0));
    t.offer("b", s(2.0));
    assert_eq!(t.into_ranked().len(), 2);
}

#[test]
fn a_zero_width_collector_keeps_nothing_rather_than_panicking() {
    let mut t = TopK::new(0);
    t.offer("a", s(1.0));
    assert!(t.is_empty());
}

#[test]
fn a_nan_score_is_refused_rather_than_corrupting_the_ranking() {
    let mut t = TopK::new(2);
    t.offer("nan", s(f32::NAN));
    t.offer("good", s(0.5));
    t.offer("better", s(0.9));
    assert_eq!(names(t.into_ranked()), ["better", "good"]);
}

#[test]
fn a_nan_arriving_after_the_heap_is_full_changes_nothing() {
    let mut t = TopK::new(2);
    t.offer("a", s(0.5));
    t.offer("b", s(0.9));
    t.offer("nan", s(f32::NAN));
    assert_eq!(names(t.into_ranked()), ["b", "a"]);
}

#[test]
fn an_all_nan_scan_yields_nothing_rather_than_garbage() {
    let mut t = TopK::new(5);
    for i in 0..10 {
        t.offer(&format!("r{i}"), s(f32::NAN));
    }
    assert!(t.is_empty());
}

#[test]
fn ties_are_kept_rather_than_collapsed() {
    let mut t = TopK::new(3);
    for id in ["a", "b", "c", "d"] {
        t.offer(id, s(0.5));
    }
    assert_eq!(t.into_ranked().len(), 3);
}

// ---------------------------------------------------------------------------
// Routing
// ---------------------------------------------------------------------------

fn near(query: &[f32], anchors: &[(&str, Vec<f32>)]) -> Vec<AnchorMatch> {
    anchors
        .iter()
        .map(|(id, v)| AnchorMatch { id: (*id).to_owned(), similarity: s(cosine(query, v)) })
        .collect()
}

fn anchors() -> Vec<(&'static str, Vec<f32>)> {
    vec![("regulations", unit(&[1.0, 0.0, 0.0])), ("medical", unit(&[0.0, 1.0, 0.0]))]
}

fn matches_of(query: &[f32], centroids: &[(i32, Vec<f32>)]) -> Vec<ClusterMatch> {
    centroids
        .iter()
        .map(|(id, v)| ClusterMatch { id: *id, similarity: s(cosine(query, v)) })
        .collect()
}

#[test]
fn the_nearest_anchor_above_threshold_wins() {
    let q = unit(&[0.9, 0.1, 0.0]);
    let (id, score) = detect_domain(&near(&q, &anchors()), s(0.5)).unwrap();
    assert_eq!(id, "regulations");
    assert!(f(score) > 0.9);
}

#[test]
fn nothing_above_threshold_returns_none_rather_than_the_closest() {
    let q = unit(&[0.0, 0.0, 1.0]);
    assert!(detect_domain(&near(&q, &anchors()), s(0.5)).is_none());
    let r = route(&near(&q, &anchors()), vec![], s(0.5), 5);
    assert!(r.domain.is_none());
    assert!(f(r.domain_confidence).abs() < f32::EPSILON);
    assert!(r.clusters.is_empty(), "no domain means nothing to probe");
}

#[test]
fn probing_selects_the_nearest_centroids_in_order() {
    let centroids = vec![
        (1, unit(&[1.0, 0.0, 0.0])),
        (2, unit(&[0.0, 1.0, 0.0])),
        (3, unit(&[0.9, 0.1, 0.0])),
    ];
    let q = unit(&[1.0, 0.0, 0.0]);
    let picked = select_clusters(matches_of(&q, &centroids), 2);
    assert_eq!(picked.iter().map(|c| c.id).collect::<Vec<_>>(), [1, 3]);
    assert!(
        f(picked[0].similarity) >= f(picked[1].similarity),
        "sorted by similarity, best first"
    );
}

#[test]
fn probing_more_clusters_than_exist_is_not_an_error() {
    let centroids = vec![(7, unit(&[1.0, 0.0, 0.0]))];
    let q = unit(&[1.0, 0.0, 0.0]);
    assert_eq!(select_clusters(matches_of(&q, &centroids), 50).len(), 1);
}

#[test]
fn cluster_selection_is_deterministic_when_similarities_tie() {
    let centroids = vec![(9, unit(&[1.0, 0.0, 0.0])), (4, unit(&[1.0, 0.0, 0.0]))];
    let q = unit(&[1.0, 0.0, 0.0]);
    assert_eq!(select_clusters(matches_of(&q, &centroids), 1)[0].id, 4);
    assert_eq!(
        select_clusters(matches_of(&q, &centroids), 1),
        select_clusters(matches_of(&q, &centroids), 1)
    );
}

#[test]
fn a_matched_domain_yields_probed_clusters_and_their_scores() {
    let centroids = vec![(1, unit(&[1.0, 0.0, 0.0])), (2, unit(&[0.0, 0.0, 1.0]))];
    let q = unit(&[1.0, 0.0, 0.0]);
    let r = route(&near(&q, &anchors()), matches_of(&q, &centroids), s(0.5), 2);
    assert_eq!(r.domain.as_deref(), Some("regulations"));
    assert_eq!(r.clusters, [1, 2]);
    assert_eq!(r.cluster_scores.len(), 2);
}

fn detected(query: &[f32], anchors: &[(&str, Vec<f32>)], threshold: f32) -> Option<(String, f32)> {
    vera::retrieval::routing::detect_domain(&near(query, anchors), s(threshold))
        .map(|d| (d.id, f(d.similarity)))
}

fn probed(query: &[f32], centroids: &[(i32, Vec<f32>)], n: usize) -> Vec<ProbedCluster> {
    let list = centroids
        .iter()
        .map(|(id, v)| ProbedCluster {
            cluster_id: *id,
            similarity: s(cosine(query, v)),
            row_count: 100,
        })
        .collect();
    nearest_clusters(list, n)
}

fn cluster_names(v: &[ProbedCluster]) -> Vec<i32> {
    v.iter().map(|p| p.cluster_id).collect()
}

#[test]
fn the_closest_anchor_above_threshold_wins() {
    let anchors = [("regulations", vec![1.0, 0.0]), ("contracts", vec![0.0, 1.0])];
    let (id, similarity) = detected(&[0.9, 0.1], &anchors, 0.25).unwrap();
    assert_eq!(id, "regulations");
    assert!(similarity > 0.9);
}

#[test]
fn an_off_topic_query_detects_nothing_rather_than_the_nearest_domain() {
    let anchors = [("regulations", vec![1.0, 0.0])];
    assert!(detected(&[0.0, 1.0], &anchors, 0.25).is_none());
}

#[test]
fn a_query_exactly_at_the_threshold_is_accepted() {
    let anchors = [("d", vec![1.0, 0.0])];
    let exact = std::f32::consts::FRAC_1_SQRT_2;
    assert!(detected(&[1.0, 1.0], &anchors, exact).is_some());
    assert!(detected(&[1.0, 1.0], &anchors, exact + 1e-4).is_none());
}

#[test]
fn an_empty_corpus_detects_no_domain() {
    assert!(detected(&[1.0, 0.0], &[], 0.0).is_none());
}

#[test]
fn clusters_come_back_nearest_first_and_capped() {
    let centroids = [(1, vec![1.0, 0.0]), (2, vec![0.7, 0.7]), (3, vec![0.0, 1.0])];
    let p = probed(&[1.0, 0.0], &centroids, 2);
    assert_eq!(p.len(), 2);
    assert_eq!(p[0].cluster_id, 1);
    assert_eq!(p[1].cluster_id, 2);
    assert!(f(p[0].similarity) > f(p[1].similarity));
}

#[test]
fn asking_for_more_clusters_than_exist_returns_what_there_is() {
    assert_eq!(probed(&[1.0, 0.0], &[(1, vec![1.0, 0.0])], 50).len(), 1);
}

#[test]
fn probing_zero_clusters_yields_none() {
    assert!(probed(&[1.0, 0.0], &[(1, vec![1.0, 0.0])], 0).is_empty());
}

#[test]
fn tied_centroids_are_ordered_deterministically() {
    let centroids = [(7, vec![1.0, 0.0]), (3, vec![1.0, 0.0]), (5, vec![1.0, 0.0])];
    for _ in 0..20 {
        assert_eq!(cluster_names(&probed(&[1.0, 0.0], &centroids, 2)), [3, 5]);
    }
}

#[test]
fn probing_more_clusters_never_drops_one_it_already_chose() {
    let centroids: Vec<(i32, Vec<f32>)> = (0i16..20)
        .map(|i| (i32::from(i), vec![1.0 - f32::from(i) * 0.01, f32::from(i) * 0.01]))
        .collect();
    let query = [1.0, 0.0];
    let small = cluster_names(&probed(&query, &centroids, 3));
    let large = cluster_names(&probed(&query, &centroids, 10));
    assert_eq!(large[..3], small[..], "the first 3 must be unchanged");
}

#[test]
fn each_domain_is_held_to_its_own_threshold() {
    let list = vec![
        CalibratedAnchor { id: "tight".into(), similarity: s(0.80), threshold: s(0.90) },
        CalibratedAnchor { id: "loose".into(), similarity: s(0.50), threshold: s(0.40) },
    ];
    assert_eq!(detect_domain_with(&list).unwrap().id, "loose");
    // Two equally near anchors: the later one is taken.
    let tied = vec![
        CalibratedAnchor { id: "one".into(), similarity: s(0.5), threshold: s(0.1) },
        CalibratedAnchor { id: "two".into(), similarity: s(0.5), threshold: s(0.1) },
    ];
    assert_eq!(detect_domain_with(&tied).unwrap().id, "two");
}

// ---------------------------------------------------------------------------
// Identifiers
// ---------------------------------------------------------------------------

fn canonicals(q: &str) -> Vec<String> {
    extract(q).into_iter().map(|i| i.canonical).collect()
}

#[test]
fn the_slash_form_is_recognized() {
    assert_eq!(canonicals("apa isi UU 28/2007"), ["UU 28/2007"]);
}

#[test]
fn the_verbose_form_normalizes_to_the_same_canonical() {
    for q in [
        "UU No. 28 Tahun 2007",
        "Undang-Undang Nomor 28 Tahun 2007",
        "uu nomor 28 tahun 2007",
    ] {
        assert_eq!(canonicals(q), ["UU 28/2007"], "failed on {q}");
    }
}

#[test]
fn other_document_types_are_recognized() {
    assert_eq!(canonicals("PP No. 74 Tahun 2011"), ["PP 74/2011"]);
    assert_eq!(canonicals("Perpres 16/2018"), ["PERPRES 16/2018"]);
    assert_eq!(canonicals("Peraturan Pemerintah Nomor 74 Tahun 2011"), ["PP 74/2011"]);
}

#[test]
fn several_identifiers_in_one_query_are_all_extracted() {
    assert_eq!(
        canonicals("bandingkan UU 28/2007 dengan PP 74/2011"),
        ["UU 28/2007", "PP 74/2011"]
    );
}

#[test]
fn the_same_regulation_named_twice_costs_one_lookup() {
    assert_eq!(canonicals("UU 28/2007 dan juga UU No. 28 Tahun 2007"), ["UU 28/2007"]);
    // A duplicate that is not adjacent.
    assert_eq!(
        canonicals("UU 28/2007, PP 74/2011, lalu Undang-Undang Nomor 28 Tahun 2007"),
        ["UU 28/2007", "PP 74/2011"]
    );
}

#[test]
fn the_original_spelling_is_preserved_for_explain_routing() {
    let found = extract("lihat Undang-Undang Nomor 28 Tahun 2007 pasal 9");
    assert_eq!(found[0].matched_on, "Undang-Undang Nomor 28 Tahun 2007");
    assert_eq!(found[0].canonical, "UU 28/2007");
}

#[test]
fn a_purely_conceptual_query_yields_nothing_to_bypass_with() {
    assert!(extract("apa sanksi keterlambatan pelaporan pajak").is_empty());
    assert!(extract("").is_empty());
}

#[test]
fn a_section_reference_is_not_a_document_identifier() {
    assert!(extract("pasal 9 ayat 3").is_empty());
}

#[test]
fn a_type_without_a_usable_number_and_year_is_rejected() {
    assert!(extract("undang-undang perpajakan").is_empty());
    assert!(extract("UU tentang pajak").is_empty());
    // A year out of range: a bare number pair is not a citation.
    assert!(extract("UU 28 1234").is_empty());
}

#[test]
fn matching_survives_multibyte_text_around_the_identifier() {
    let found = extract("peraturan “khusus” — UU 28/2007 — berlaku");
    assert_eq!(found.len(), 1);
    assert_eq!(found[0].matched_on, "UU 28/2007");
}

#[test]
fn a_character_whose_lowercase_is_longer_does_not_corrupt_spans() {
    let found = extract("İSTANBUL peraturan UU 28/2007 berlaku");
    assert_eq!(found.len(), 1);
    assert_eq!(found[0].matched_on, "UU 28/2007");
}

#[test]
fn extraction_is_case_insensitive_but_reports_canonical_uppercase() {
    assert_eq!(canonicals("uu 28/2007"), ["UU 28/2007"]);
    assert_eq!(canonicals("Uu No 28 Tahun 2007"), ["UU 28/2007"]);
}

// ---------------------------------------------------------------------------
// The course of a search
// ---------------------------------------------------------------------------

struct Row {
    chunk: Chunk,
    vector: [f32; 4],
}

fn row(i: usize, id: String, body: String, title: &str, vector: [f32; 4], named: bool) -> Row {
    Row {
        chunk: Chunk {
            id,
            domain_id: "regulations".into(),
            cluster_id: (i % 3) as i32,
            body,
            source_title: title.into(),
            source_url: "https://peraturan.example/uu-28-2007.pdf".into(),
            locator_page: Some(14),
            locator_section: Some("Pasal 9 ayat (3)".into()),
            heading_path: None,
            identifier: if named { Some("UU 28/2007".to_owned()) } else { None },
        },
        vector,
    }
}

fn copy_of(c: &Chunk) -> Chunk {
    Chunk {
        id: c.id.clone(),
        domain_id: c.domain_id.clone(),
        cluster_id: c.cluster_id,
        body: c.body.clone(),
        source_title: c.source_title.clone(),
        source_url: c.source_url.clone(),
        locator_page: c.locator_page,
        locator_section: c.locator_section.clone(),
        heading_path: c.heading_path.clone(),
        identifier: c.identifier.clone(),
    }
}

/// Runs a search over rows held in memory.
fn search(rows: &[Row], threshold: f32, query: &str, vector: &[f32], probe: Probe) -> SearchResponse {
    let dials = Dials { dim: 4, domain_threshold: s(threshold), max_results: 10, snippet_chars: 280 };
    let begun = begin(query, vector.len(), dials).expect("width");
    let found: Vec<Vec<String>> = begun
        .identifiers
        .iter()
        .map(|i| {
            rows.iter()
                .filter(|r| r.chunk.identifier.as_deref() == Some(i.canonical.as_str()))
                .map(|r| r.chunk.id.clone())
                .collect()
        })
        .collect();

    let mut anchor = vec![0.0; 4];
    for r in rows {
        for (a, x) in anchor.iter_mut().zip(r.vector) {
            *a += x;
        }
    }
    let placed = begun.place(&found, &near(vector, &[("regulations", anchor)]));
    let centroids: Vec<ProbedCluster> = (0..3)
        .map(|id| ProbedCluster { cluster_id: id, similarity: s(1.0), row_count: 8 })
        .collect();
    let opened = placed.open(centroids, probe);

    let mut rows_scanned = 0;
    let mut dense_lists = vec![];
    let mut keyword_lists = vec![];
    for c in &opened.probed {
        let mut top = TopK::new(20);
        let mut hits = vec![];
        for r in rows.iter().filter(|r| r.chunk.cluster_id == c.cluster_id) {
            rows_scanned += 1;
            top.offer(&r.chunk.id, s(cosine(vector, &r.vector)));
            let n = query.split(' ').filter(|w| r.chunk.body.contains(w)).count();
            if n > 0 {
                hits.push(Scored { id: r.chunk.id.clone(), score: s(n as f32) });
            }
        }
        dense_lists.push(top.into_ranked());
        keyword_lists.push(hits);
    }
    let gleaned = opened.glean(dense_lists, keyword_lists, rows_scanned);
    let scores = gleaned
        .hits
        .iter()
        .map(|h| {
            s(h.contributions
                .iter()
                .map(|c| f(c.weight) / (f32::from_bits(DEFAULT_K) + c.rank as f32))
                .sum())
        })
        .collect();
    let ranked = gleaned.rank(&scores);
    let chunks: Vec<Chunk> = rows.iter().map(|r| copy_of(&r.chunk)).collect();
    let results = ranked.results(&chunks);
    let top_text = format!("{:.2}", results.first().map_or(0.0, |r| f(r.score)));
    let similarity_text = format!("{:.3}", ranked.domain.as_ref().map_or(0.0, |d| f(d.similarity)));
    ranked.answer(results, similarity_text, top_text)
}

fn response() -> SearchResponse {
    let rows: Vec<Row> = (0..24)
        .map(|i| {
            row(
                i,
                format!("reg::uu-28-2007::pasal-9::c{i}"),
                format!(
                    "Wajib Pajak yang terlambat menyampaikan laporan dikenai sanksi administrasi bagian {i}"
                ),
                "UU No. 28 Tahun 2007 — Ketentuan Umum Perpajakan",
                [1.0, 0.0, 0.0, 0.0],
                i == 3,
            )
        })
        .collect();
    let out = search(
        &rows,
        0.25,
        "sanksi keterlambatan pelaporan pajak UU 28/2007",
        &[1.0, 0.0, 0.0, 0.0],
        Probe::Nearest(5),
    );
    assert!(!out.results.is_empty(), "the assertions below would be vacuous");
    out
}

#[test]
fn the_top_level_fields_match_the_documented_contract() {
    let SearchResponse {
        success,
        op,
        query,
        detected_domain,
        domain_confidence,
        clusters_probed,
        results,
        citation_block,
        summary_payload,
        exact_matches,
        confidence,
        progress,
        token_estimate,
        truncated,
        hint,
    } = response();
    assert!(success);
    assert_eq!(op, "search_knowledge");
    assert_eq!(query, "sanksi keterlambatan pelaporan pajak UU 28/2007");
    assert_eq!(detected_domain.as_deref(), Some("regulations"));
    assert!(f(domain_confidence) > 0.99);
    assert_eq!(clusters_probed, 3);
    assert_eq!(results.len(), 10);
    assert_eq!(citation_block.len(), 10);
    assert_eq!(summary_payload.snippets.len(), 10);
    assert_eq!(exact_matches.len(), 1);
    assert_eq!(confidence, Confidence::High);
    assert_eq!(
        progress,
        vec![
            "exact:global 1 identifier(s) → 1 hit(s)",
            "route:layer1 domain=regulations sim=1.000",
            "route:layer2 probing 3 of 3 clusters",
            "scan:layer3 24 rows",
            "fuse:rrf 10 candidates",
        ]
    );
    assert_eq!(token_estimate, 0);
    assert!(!truncated);
    assert_eq!(hint, None);
}

#[test]
fn a_result_matches_the_documented_shape() {
    let v = response();
    let SearchResult { id, snippet, score, scores, source } = &v.results[0];
    assert_eq!(id, "reg::uu-28-2007::pasal-9::c3");
    assert!(snippet.starts_with("Wajib Pajak"));
    assert!(f(*score) > 0.0);
    assert_eq!(f(scores.dense), 1.0);
    assert!(f(scores.bm25) > 0.0);
    assert_eq!(source.title, "UU No. 28 Tahun 2007 — Ketentuan Umum Perpajakan");
    assert_eq!(source.url, "https://peraturan.example/uu-28-2007.pdf");
    assert_eq!(source.locator.page, Some(14));
    assert_eq!(source.locator.section.as_deref(), Some("Pasal 9 ayat (3)"));
}

#[test]
fn citation_block_is_an_array_of_ready_to_render_strings() {
    let v = response();
    assert!(!v.citation_block.is_empty());
    // An entry is the line itself, not an object to put one together from.
    let block: &Vec<String> = &v.citation_block;
    let first: &str = &block[0];
    assert!(first.starts_with("[1] "), "{first}");
    assert!(first.contains("Pasal 9 ayat (3), p.14"), "{first}");
    assert!(first.contains("https://peraturan.example/"), "{first}");
}

#[test]
fn summary_payload_sources_are_citation_references() {
    let v = response();
    let sources = &v.summary_payload.sources;
    assert!(!sources.is_empty());
    let first = &sources[0];
    assert!(
        first.starts_with('[') && first.ends_with(']'),
        "expected a citation reference like \"[1]\", got {first:?}"
    );
}

#[test]
fn summary_payload_coverage_describes_the_search() {
    let coverage = response().summary_payload.coverage;
    assert!(coverage.contains("cluster"), "coverage was {coverage:?}");
    assert!(coverage.contains("document"), "coverage was {coverage:?}");
    assert!(coverage.contains("score"), "coverage was {coverage:?}");
}

#[test]
fn confidence_reflects_result_quality_not_only_routing_certainty() {
    let v = response();
    assert!(!v.exact_matches.is_empty(), "an exact-identifier hit was expected");
    assert_eq!(
        v.confidence,
        Confidence::High,
        "an exact-identifier match present must read as high confidence"
    );
}

/// Rows near one axis, with one carrying a citable id.
fn corpus() -> Vec<Row> {
    (0..40)
        .map(|i| {
            let v = if i == 7 { [1.0, 0.0, 0.0, 0.0] } else { [0.99, 0.14, 0.0, 0.0] };
            row(
                i,
                format!("c{i}"),
                format!("ketentuan umum perpajakan bagian {i}"),
                "Undang-Undang Ketentuan Umum Perpajakan",
                v,
                i == 7,
            )
        })
        .collect()
}

#[test]
fn a_named_regulation_is_found_even_when_layer_1_rejects_the_query() {
    let out = search(
        &corpus(),
        0.999_9,
        "apa isi UU 28/2007",
        &[0.0, 0.0, 1.0, 0.0],
        Probe::Nearest(5),
    );
    assert!(out.success);
    assert!(
        out.detected_domain.is_none(),
        "routing was supposed to fail for this test to mean anything"
    );
    assert!(!out.exact_matches.is_empty(), "the named regulation was silently lost");
    assert_eq!(out.exact_matches[0].id, "c7");
    assert!(
        !out.results.is_empty(),
        "exact hits must reach `results`, not only `exact_matches`"
    );
    assert_eq!(out.results[0].id, "c7");
    assert_eq!(out.results[0].source.url, "https://peraturan.example/uu-28-2007.pdf");
    assert!(!out.citation_block.is_empty());
}

#[test]
fn an_off_topic_query_with_no_identifier_still_returns_nothing() {
    let out = search(
        &corpus(),
        0.999_9,
        "resep rendang padang",
        &[0.0, 0.0, 1.0, 0.0],
        Probe::Nearest(5),
    );
    assert!(out.success, "finding nothing is not an error");
    assert!(out.detected_domain.is_none());
    assert!(out.results.is_empty());
    assert!(out.exact_matches.is_empty());
    assert!(out.hint.is_some(), "must say what to do next");
}

#[test]
fn a_regulation_named_in_a_query_that_does_route_is_also_returned() {
    let out = search(
        &corpus(),
        0.25,
        "sanksi UU 28/2007",
        &[1.0, 0.0, 0.0, 0.0],
        Probe::Nearest(5),
    );
    assert!(out.detected_domain.is_some(), "should have routed");
    assert!(out.exact_matches.iter().any(|m| m.id == "c7"), "{:?}", out.exact_matches);
    assert!(out.results.iter().any(|r| r.id == "c7"));
}

#[test]
fn an_exhaustive_probe_opens_every_cluster() {
    assert_eq!(Probe::Exhaustive.width(85), 85);
    assert_eq!(Probe::Nearest(5).width(85), 5);
    let out = search(
        &corpus(),
        0.25,
        "ketentuan umum",
        &[1.0, 0.0, 0.0, 0.0],
        Probe::Exhaustive,
    );
    assert_eq!(out.clusters_probed, 3);
    assert_eq!(out.results.len(), 10);
    assert_eq!(out.confidence, Confidence::High);
}

#[test]
fn a_query_of_another_width_is_refused() {
    let e = check_width(1024, 4096).unwrap_err();
    assert_eq!(e, EngineError::QueryWidth { expected: 1024, got: 4096 });
    assert_eq!(e.message(), "query vector has 4096 dimensions but the corpus is 1024");
}

#[test]
fn confidence_tracks_routing_certainty() {
    assert_eq!(confidence_for(s(0.9), 5), Confidence::High);
    assert_eq!(confidence_for(s(0.5), 5), Confidence::Medium);
    assert_eq!(confidence_for(s(0.3), 5), Confidence::Low);
}

#[test]
fn no_results_is_never_reported_as_confident() {
    assert_eq!(confidence_for(s(0.99), 0), Confidence::Absent);
}

#[test]
fn the_summary_payload_dedupes_sources_but_keeps_every_snippet() {
    let r = |snippet: &str, title: &str| SearchResult {
        id: "x".into(),
        snippet: snippet.into(),
        score: s(1.0),
        scores: ComponentScores { dense: s(0.0), bm25: s(0.0) },
        source: Source {
            title: title.into(),
            url: "https://e/1".into(),
            locator: Locator::default(),
        },
    };
    // Two chunks of one document: one source, two snippets.
    let p = summary_payload(&vec![r("a", "Doc"), r("b", "Doc")], 5, "1.00");
    assert_eq!(p.snippets.len(), 2);
    assert_eq!(p.sources.len(), 1);
    // A second document is referred to by the number of its own citation.
    let p = summary_payload(&vec![r("a", "Doc"), r("b", "Doc"), r("c", "Other")], 5, "1.00");
    assert_eq!(p.sources, ["[1]", "[3]"]);
    assert_eq!(p.coverage, "5 clusters probed, 2 distinct documents, top score 1.00");
}

#[test]
fn lists_of_several_clusters_become_one() {
    let list = |v: &[(&str, f32)]| {
        v.iter().map(|(id, x)| Scored { id: (*id).to_owned(), score: s(*x) }).collect::<Vec<_>>()
    };
    let merged = merge_by_score(
        vec![list(&[("a", 0.9), ("b", 0.2)]), list(&[("c", 0.5), ("d", 0.2)])],
        3,
    );
    // Equal scores keep the order of the clusters.
    assert_eq!(names(merged), ["a", "c", "b"]);
}

#[test]
fn what_was_matched_is_read_back_as_itself() {
    let query = "bandingkan Undang-Undang Nomor 28 Tahun 2007 dengan PP No. 74 Tahun 2011";
    let found = extract(query);
    assert_eq!(found.len(), 2);
    for id in &found {
        let again = extract(&id.matched_on);
        assert_eq!(again.len(), 1);
        assert_eq!(again[0].canonical, id.canonical);
        assert_eq!(again[0].matched_on, id.matched_on);

        let settled = extract(&id.canonical);
        assert_eq!(settled.len(), 1);
        assert_eq!(settled[0].canonical, id.canonical);
        assert_eq!(settled[0].matched_on, id.canonical);
    }
}

#[test]
fn every_arrangement_of_clusters_is_probed_alike() {
    let list = [(3, 0.5), (1, 0.9), (2, 0.9), (4, 0.1)];
    let probed = |order: [usize; 4]| {
        let v = order
            .iter()
            .map(|i| ProbedCluster { cluster_id: list[*i].0, similarity: s(list[*i].1), row_count: 7 })
            .collect();
        nearest_clusters(v, 3)
    };
    let chosen = |order: [usize; 4]| {
        let v =
            order.iter().map(|i| ClusterMatch { id: list[*i].0, similarity: s(list[*i].1) }).collect();
        select_clusters(v, 3)
    };
    assert_eq!(cluster_names(&probed([0, 1, 2, 3])), [1, 2, 3]);
    for order in [[3, 2, 1, 0], [2, 0, 3, 1], [1, 3, 0, 2]] {
        assert_eq!(probed(order), probed([0, 1, 2, 3]));
        assert_eq!(chosen(order), chosen([0, 1, 2, 3]));
    }
}
