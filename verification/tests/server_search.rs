//! The course of a search, the corpus it runs on, and what it answers.

use vera::contract::algorithms::{Algorithm, FactorEntry, Registry, TransformSpec};
use vera::contract::options::{Expansion, FactorWeights, Mode, ResolveError, SearchOptions};
use vera::contract::response::Confidence;
use vera::embed::provider::EmbedError;
use vera::engine::factors::{content_terms, Composition, Quantity, Term, Variable, Vocabulary, WeightedTerm, Weights};
use vera::engine::routing::ClusterMatch;
use vera::json::Json;
use vera::retrieval::fusion::DEFAULT_K;
use vera::score::Score;
use vera::server::answer::{domain_gate, explain, locator_of, note_of_gate, read_chunk, snippet, Answer, GateFigures};
use vera::server::calls::{chunk_reply, dispatch, explain_reply, health_reply, list_algorithms, list_domains, no_chunk, provenance_reply, Call, Limits};
use vera::server::config::{weights_from_contract, weights_to_contract, Config};
use vera::server::ranking::{window_limit, windows, Candidate};
use vera::server::scoring::{composition_of, unsupplied, variable_of};
use vera::server::search::{ask, collect, fuse, judge, route, Judged, Litter, PipelineError, Pooled, Race, Window};
use vera::server::startup::{canary_unverified, check_canary, check_corpus, check_factors, check_model, check_round_trip, query_text, vocabulary_source, StartupError};
use vera::store::meta::{dense_literal, parse_vector, sparse_literal, CorpusMeta, SparseEntry, StoreError};
use vera::store::search::{overfetch, settle, ChunkRow, ExactHit, Scored, SiblingKey};

fn s(x: f32) -> Score {
    Score { bits: x.to_bits() }
}

fn f(x: Score) -> f32 {
    f32::from_bits(x.bits)
}

// ---------------------------------------------------------------------------
// The corpus
// ---------------------------------------------------------------------------

fn meta() -> CorpusMeta {
    CorpusMeta {
        id: "spike-01".into(),
        dense_model: "qwen/qwen3-embedding-0.6b".into(),
        dense_dim: 1024,
        dense_pooling: "last-token".into(),
        dense_normalize: true,
        sparse_scheme: "bm25".into(),
        sparse_dim: 20000,
        sparse_vocab_sha256: "abc".into(),
    }
}

#[test]
fn a_matching_corpus_and_engine_may_serve() {
    assert!(meta().ensure_compatible("qwen/qwen3-embedding-0.6b", 1024).is_ok());
}

#[test]
fn a_different_model_refuses_to_serve() {
    let e = meta().ensure_compatible("qwen/qwen3-embedding-8b", 1024).unwrap_err();
    assert!(matches!(e, StoreError::CorpusMismatch { .. }));
    assert!(e.message("", "").contains("different vector space"));
}

#[test]
fn a_negative_width_agrees_with_no_engine() {
    let m = CorpusMeta { dense_dim: -1, ..meta() };
    assert_eq!(
        m.ensure_compatible("qwen/qwen3-embedding-0.6b", 0),
        Err(StoreError::CorpusMismatch {
            corpus_model: "qwen/qwen3-embedding-0.6b".into(),
            corpus_dim: -1,
            engine_model: "qwen/qwen3-embedding-0.6b".into(),
            engine_dim: 0,
        })
    );
    assert!(check_model(&m, "qwen/qwen3-embedding-0.6b").is_err());
    let none = CorpusMeta { dense_dim: 0, ..meta() };
    assert!(none.ensure_compatible("qwen/qwen3-embedding-0.6b", 0).is_ok());
}

#[test]
fn a_different_width_refuses_to_serve() {
    let e = meta().ensure_compatible("qwen/qwen3-embedding-0.6b", 4096).unwrap_err();
    assert!(matches!(e, StoreError::CorpusMismatch { corpus_dim: 1024, .. }));
}

/// Numbers in writing, with six decimals.
fn written(v: &[f32]) -> Vec<String> {
    v.iter().map(|x| format!("{x:.6}")).collect()
}

fn sparse(v: &[(u32, f32)]) -> Vec<SparseEntry> {
    v.iter()
        .map(|(index, w)| SparseEntry { index: *index, weight: format!("{w:.6}") })
        .collect()
}

#[test]
fn dense_literals_are_pgvector_shaped() {
    assert_eq!(dense_literal(&written(&[1.0, -0.5])), "[1.000000,-0.500000]");
    assert_eq!(dense_literal(&vec![]), "[]");
}

#[test]
fn sparse_literals_are_one_based_and_sorted() {
    let text = sparse_literal(sparse(&[(7, 0.25), (0, 0.5)]), 20000);
    assert_eq!(text, "{1:0.500000,8:0.250000}/20000");
}

#[test]
fn an_empty_sparse_vector_is_still_well_formed() {
    assert_eq!(sparse_literal(vec![], 20000), "{}/20000");
}

fn parsed(text: &str) -> Vec<f32> {
    parse_vector(text).iter().filter_map(|x| x.parse().ok()).collect()
}

#[test]
fn vectors_round_trip_through_their_text_form() {
    let v = vec![0.25_f32, -0.5, 1.0];
    let back = parsed(&dense_literal(&written(&v)));
    assert_eq!(back.len(), 3);
    for (a, b) in v.iter().zip(&back) {
        assert!((a - b).abs() < 1e-5, "{a} vs {b}");
    }
}

#[test]
fn parsing_tolerates_whitespace_and_empty_input() {
    assert_eq!(parsed("[1.0, 2.0]").len(), 2);
    assert!(parsed("[]").is_empty());
    assert!(parsed("").is_empty());
}

fn blank() -> ChunkRow {
    ChunkRow {
        id: "c1".into(),
        body: "x".into(),
        source_title: "t".into(),
        source_url: None,
        chapter: None,
        article: None,
        regulation_type: None,
        regulation_number: None,
        year: None,
        about: None,
        truncated_at_source: false,
        cluster_id: None,
    }
}

#[test]
fn a_chunk_without_a_url_is_not_provenance_complete() {
    let row = ChunkRow {
        id: "c1".into(),
        body: "x".into(),
        source_title: "UU No. 28 Tahun 2007".into(),
        source_url: None,
        chapter: None,
        article: Some("Pasal 9".into()),
        regulation_type: Some("UNDANG-UNDANG".into()),
        regulation_number: Some("28".into()),
        year: Some(2007),
        about: Some("PAJAK DAERAH DAN RETRIBUSI DAERAH".into()),
        truncated_at_source: false,
        cluster_id: Some(3),
    };
    assert!(!row.provenance_complete());
    let with_url = ChunkRow { source_url: Some("https://x".into()), ..row };
    assert!(with_url.provenance_complete());
}

fn hit(id: &str, score: f32) -> Scored {
    Scored { id: id.into(), score: s(score) }
}

fn names(v: &[Scored]) -> Vec<&str> {
    v.iter().map(|x| x.id.as_str()).collect()
}

#[test]
fn settle_breaks_ties_on_id_rather_than_on_arrival_order() {
    let forward = settle(vec![hit("b", 1.0), hit("a", 1.0), hit("c", 0.5)], 3);
    let reverse = settle(vec![hit("a", 1.0), hit("b", 1.0), hit("c", 0.5)], 3);
    assert_eq!(names(&forward), ["a", "b", "c"], "ties must order on id");
    assert_eq!(forward, reverse, "input order must not reach the output");
}

#[test]
fn settle_picks_the_same_members_out_of_a_tie_group_at_the_cut() {
    let a = settle(
        vec![hit("keep", 2.0), hit("tie-a", 1.0), hit("tie-b", 1.0), hit("tie-c", 1.0)],
        2,
    );
    let b = settle(
        vec![hit("tie-c", 1.0), hit("tie-b", 1.0), hit("keep", 2.0), hit("tie-a", 1.0)],
        2,
    );
    assert_eq!(a, b);
    assert_eq!(a[1].id, "tie-a", "the lowest id wins the last slot");
}

#[test]
fn settle_keeps_the_arms_score_order() {
    let out = settle(vec![hit("low", 0.1), hit("high", 0.9), hit("mid", 0.5)], 3);
    assert_eq!(names(&out), ["high", "mid", "low"]);
}

#[test]
fn an_arm_reads_more_than_it_returns() {
    assert_eq!(overfetch(20), 60);
    assert_eq!(settle(vec![hit("a", 1.0), hit("b", 0.5)], -1).len(), 2);
}

#[test]
fn an_exact_hit_says_what_it_matched_on() {
    let h = ExactHit::of("c1".into(), Some("UNDANG-UNDANG".into()), Some("28".into()), Some(2007));
    assert_eq!(h.id, "c1");
    assert!(h.matched_on.contains("28") && h.matched_on.contains("2007"), "{}", h.matched_on);
}

// ---------------------------------------------------------------------------
// Startup
// ---------------------------------------------------------------------------

#[test]
fn the_corpus_decides_which_model_serves() {
    assert!(check_model(&meta(), "qwen/qwen3-embedding-0.6b").is_ok());
    let e = check_model(&meta(), "qwen/qwen3-embedding-8b").unwrap_err();
    assert!(matches!(e, StoreError::CorpusMismatch { engine_dim: 1024, .. }), "{e:?}");
}

#[test]
fn a_drifted_provider_is_not_served() {
    assert!(check_canary("c1".into(), s(0.999), s(0.98)).is_ok());
    let e = check_canary("c1".into(), s(0.13), s(0.98)).unwrap_err();
    let text = e.message("0.13000", "0.98");
    assert!(text.contains("c1") && text.contains("0.13000"), "{text}");
    let e = canary_unverified("timed out");
    assert!(e.message("", "").contains("cannot verify the vector space: timed out"));
    assert!(StartupError::Store(StoreError::NoCorpus).message("", "").len() > 0);
}

#[test]
fn a_query_is_embedded_the_way_the_corpus_says() {
    assert_eq!(query_text(Some("Query: "), "tarif"), "Query: tarif");
    assert_eq!(query_text(None, "tarif"), "tarif");
    assert_eq!(vocabulary_source(true, true), "corpus_meta (declared by the corpus)");
    assert_eq!(vocabulary_source(true, false), "built-in id_regulation");
    assert_eq!(vocabulary_source(false, false), "VOCABULARY_PATH");
}

fn fitted() -> FactorWeights {
    weights_to_contract(&Weights::fitted())
}

fn algorithm(composition: Option<Vec<FactorEntry>>) -> Algorithm {
    Algorithm {
        note: None,
        description: "d".to_owned(),
        fitted: None,
        factors: fitted(),
        composition,
        expand: vec![],
    }
}

fn entry(name: &str, variable: &str, transform: TransformSpec, weight: f32) -> FactorEntry {
    FactorEntry {
        name: name.to_owned(),
        variable: variable.to_owned(),
        transform,
        weight: s(weight),
    }
}

#[test]
fn a_weight_that_cannot_act_is_refused_at_startup() {
    let mut registry = Registry::builtin(fitted());
    assert!(check_factors(&vocabulary(), &registry, "built-in id_regulation").is_ok());
    let e = check_factors(&Vocabulary::default(), &registry, "VOCABULARY_PATH").unwrap_err();
    assert_eq!(
        e,
        StartupError::FactorWithoutVocabulary {
            algorithms: "`balanced`".to_owned(),
            factors: "`authority`, `structural`".to_owned(),
            plural: "them",
            from_where: "VOCABULARY_PATH",
        }
    );
    assert!(e.message("", "").starts_with("algorithm(s) `balanced` weight `authority`"));
    // Where a composition ranks, it is the composition that is held.
    registry.algorithms.insert(
        "cited".to_owned(),
        algorithm(Some(vec![entry("citations", "number:cited_by", TransformSpec::Present, 0.5)])),
    );
    let e = check_factors(&vocabulary(), &registry, "built-in id_regulation").unwrap_err();
    assert_eq!(
        e,
        StartupError::FactorWithoutVocabulary {
            algorithms: "`cited`".to_owned(),
            factors: "`citations`".to_owned(),
            plural: "it",
            from_where: "built-in id_regulation",
        }
    );
}

#[test]
fn a_corpus_is_checked_for_its_tables_before_its_model() {
    let registry = Registry::builtin(fitted());
    let model = "qwen/qwen3-embedding-0.6b";
    let source = "built-in id_regulation";
    assert!(check_corpus(&meta(), model, &vocabulary(), &registry, source).is_ok());
    let e = check_corpus(&meta(), "another", &vocabulary(), &registry, source).unwrap_err();
    assert!(matches!(e, StartupError::Store(StoreError::CorpusMismatch { .. })), "{e:?}");
    // Both are wrong: the tables are named.
    let e = check_corpus(&meta(), "another", &Vocabulary::default(), &registry, source).unwrap_err();
    assert!(matches!(e, StartupError::FactorWithoutVocabulary { plural: "them", .. }), "{e:?}");
}

#[test]
fn the_canary_has_to_be_embedded_and_to_land_where_it_was() {
    assert!(check_round_trip("c1".into(), Ok(s(0.98)), s(0.98)).is_ok());
    assert_eq!(
        check_round_trip("c1".into(), Ok(s(0.5)), s(0.98)),
        Err(StoreError::CanaryFailed { chunk_id: "c1".into(), got: s(0.5), want: s(0.98) })
    );
    assert_eq!(
        check_round_trip("c1".into(), Err("timed out".into()), s(0.98)),
        Err(StoreError::Pool(
            "canary embed failed · cannot verify the vector space: timed out".into()
        ))
    );
}

#[test]
fn a_request_that_was_not_answered_says_what_went_wrong() {
    let e = PipelineError::Store(StoreError::Db("connection reset".into()));
    assert_eq!(e.message("", ""), "database: connection reset");
    let e = PipelineError::Store(StoreError::NoCanary);
    assert_eq!(
        e.message("", ""),
        "no chunk is fit for the startup canary · the vector space cannot be verified"
    );
    let embed = EmbedError::Transport("timed out".into());
    let text = embed.message("", "");
    assert_eq!(PipelineError::Embed(embed).message("", ""), text);
    let options = ask(
        "tarif",
        "id_regulation",
        Config::default(),
        &SearchOptions { profile: Some("nope".into()), ..SearchOptions::default() },
        &Registry::builtin(fitted()),
    )
    .unwrap_err();
    let text = options.message();
    assert!(text.contains("nope"), "{text}");
    assert_eq!(PipelineError::Options(options).message("", ""), text);
}

// ---------------------------------------------------------------------------
// Text
// ---------------------------------------------------------------------------

#[test]
fn snippets_collapse_whitespace_and_stay_within_budget() {
    let text = snippet("Menimbang :\n\n  Mengingat :\n Menetapkan", 200);
    assert_eq!(text, "Menimbang : Mengingat : Menetapkan");
}

#[test]
fn pipeline_long_bodies_are_cut_on_a_word_break() {
    let body = "Wajib Pajak yang terlambat menyampaikan laporan dikenai sanksi";
    let text = snippet(body, 20);
    assert!(text.ends_with('…'), "{text}");
    assert!(text.starts_with("Wajib Pajak"), "{text}");
}

#[test]
fn snippets_never_split_a_multibyte_character() {
    let body = "pératuran émbedding ünicode ✓ 日本語のテキスト";
    for n in 1..40 {
        let text = snippet(body, n);
        assert!(text.is_char_boundary(text.len()));
    }
}

fn at(chapter: Option<&str>, article: Option<&str>) -> ChunkRow {
    ChunkRow { chapter: chapter.map(Into::into), article: article.map(Into::into), ..blank() }
}

#[test]
fn locators_prefer_chapter_and_article_together() {
    assert_eq!(
        locator_of(&at(Some("BAB I"), Some("Pasal 1"))).as_deref(),
        Some("BAB I / Pasal 1")
    );
}

#[test]
fn the_placeholder_chapter_is_not_treated_as_a_locator() {
    assert_eq!(
        locator_of(&at(Some("N/A"), Some("Pembukaan"))).as_deref(),
        Some("Pembukaan")
    );
}

#[test]
fn a_row_with_nothing_recorded_has_no_locator() {
    assert!(locator_of(&at(None, None)).is_none());
    assert!(locator_of(&at(Some("N/A"), Some(""))).is_none());
}

#[test]
fn a_long_chunk_is_cut_and_says_so() {
    let row = ChunkRow { body: "日本語".into(), ..blank() };
    assert_eq!(read_chunk(&row, 2), ("日本".to_owned(), true));
    assert_eq!(read_chunk(&row, 3), ("日本語".to_owned(), false));
}

// ---------------------------------------------------------------------------
// The course of a search
// ---------------------------------------------------------------------------

fn vocabulary() -> Vocabulary {
    Vocabulary::id_regulation().expect("compiles")
}

fn law(id: &str, reg: &str, article: &str, number: &str, body: &str) -> ChunkRow {
    ChunkRow {
        id: id.into(),
        body: body.into(),
        source_title: format!("{reg} {number}"),
        source_url: Some(format!("https://x/{id}")),
        chapter: None,
        article: Some(article.into()),
        regulation_type: Some(reg.into()),
        regulation_number: Some(number.into()),
        year: Some(2010),
        about: Some("kelas jalan".into()),
        truncated_at_source: false,
        cluster_id: Some(0),
    }
}

fn corpus() -> Vec<ChunkRow> {
    vec![
        law("annex", "PERATURAN DAERAH KOTA", "LAMPIRAN I", "1", "daftar kelas jalan kota"),
        law("statute", "UNDANG-UNDANG", "Pasal 8", "2", "kelas jalan terdiri atas kelas satu"),
        law("sibling", "UNDANG-UNDANG", "Pasal 9", "2", "jalan menurut kelas dan fungsi"),
        law("other", "UNDANG-UNDANG", "Pasal 1", "3", "retribusi pelayanan pasar"),
    ]
}

fn copy(r: &ChunkRow) -> ChunkRow {
    ChunkRow {
        id: r.id.clone(),
        body: r.body.clone(),
        source_title: r.source_title.clone(),
        source_url: r.source_url.clone(),
        chapter: r.chapter.clone(),
        article: r.article.clone(),
        regulation_type: r.regulation_type.clone(),
        regulation_number: r.regulation_number.clone(),
        year: r.year,
        about: r.about.clone(),
        truncated_at_source: r.truncated_at_source,
        cluster_id: r.cluster_id,
    }
}

fn rows_of(ids: &[String]) -> Vec<ChunkRow> {
    corpus().into_iter().filter(|r| ids.contains(&r.id)).collect()
}

fn quantity(q: Quantity) -> f32 {
    match q {
        Quantity::Length(n) => n as f32,
        Quantity::Year(y) => y as f32,
        Quantity::Number(x) => f(x),
    }
}

fn value(t: Term) -> f32 {
    let raw = match t {
        Term::Fixed(x) => f(x),
        Term::Tier { tier, top } => f32::from(tier) / f(top),
        Term::Share { matched, of } => matched as f32 / of as f32,
        Term::HalfLife { years, value, now } => {
            f(years) / (f(years) + (now as f32 - quantity(value)).max(0.0))
        }
        Term::Span { value, oldest, newest } => {
            (quantity(value) - oldest as f32) / (newest - oldest) as f32
        }
        Term::Saturate { value, at } => 1.0 - (-quantity(value) / f(at)).exp(),
        Term::AtLeast { value, min } => f32::from(u8::from(quantity(value) >= f(min))),
    };
    raw.clamp(0.0, 1.0)
}

fn total(summands: &[WeightedTerm]) -> f32 {
    summands.iter().map(|w| f(w.weight) * value(w.term)).sum()
}

/// Applies the factors of a request to its candidates.
fn factors(race: Race) -> Race {
    let v = vocabulary();
    let terms = content_terms(&race.asked.query, &v);
    let c = race.composition();
    let covered = race.coverages(&terms, &v).into_iter().map(|t| s(value(t))).collect();
    let kept = race.kept(&c, &covered, &terms);
    let priors = race.priors(&c, &kept, &terms, &v);
    let scores = kept
        .iter()
        .zip(&priors)
        .map(|(k, p)| s(f(k.relevance) * (1.0 + total(p))))
        .collect();
    race.rerank(&c, &kept, &scores)
}

/// The share of the query's words that a text holds.
fn evidence(query: &str, body: &str) -> f32 {
    let words: Vec<&str> = query.split(' ').collect();
    words.iter().filter(|w| body.contains(**w)).count() as f32 / words.len() as f32
}

struct Run<'a> {
    options: SearchOptions,
    lexical: f32,
    centroid: f32,
    arms: [&'a [&'a str]; 3],
    exact: Vec<Vec<ExactHit>>,
}

fn usual<'a>() -> Run<'a> {
    Run {
        options: SearchOptions::default(),
        lexical: 0.9,
        centroid: 0.8,
        arms: [&["other"], &["annex", "statute"], &["annex", "statute"]],
        exact: vec![],
    }
}

fn list(ids: &[&str]) -> Vec<Scored> {
    ids.iter().enumerate().map(|(i, id)| hit(id, 1.0 / (i + 1) as f32)).collect()
}

fn search(query: &str, run: Run<'_>) -> Answer {
    let registry = Registry::builtin(fitted());
    let cfg = Config::default();
    let asked = ask(query, "spike-01", cfg, &run.options, &registry).expect("resolves");
    let clusters = vec![
        ClusterMatch { id: 7, similarity: s(run.centroid) },
        ClusterMatch { id: 3, similarity: s(run.centroid) },
    ];
    let routed = route(asked, 1024, clusters);
    assert_eq!(
        routed.windows,
        vec![
            Window { clusters: vec![3], limit: 20 },
            Window { clusters: vec![7], limit: 20 },
        ]
    );
    let found = vec![list(run.arms[0]), vec![]];
    let collected = collect(routed, found, list(run.arms[1]), list(run.arms[2]), &run.exact);
    let figures = GateFigures {
        lexical: format!("{:.3}", run.lexical),
        lexical_floor: "0.40".into(),
        centroid: format!("{:.3}", run.centroid),
        centroid_floor: "0.45".into(),
    };
    let percent = format!("{:.0}", run.lexical * 100.0);
    let contest = match judge(collected, s(run.lexical), &figures, &percent) {
        Judged::Refused(a) => return a,
        Judged::Open(c) => c,
    };
    let k = f32::from_bits(DEFAULT_K);
    let scores = contest
        .hits
        .iter()
        .map(|h| s(h.contributions.iter().map(|c| f(c.weight) / (k + c.rank as f32)).sum()))
        .collect();
    let pool = match fuse(contest, &scores) {
        Pooled::Nothing(a) => return a,
        Pooled::Filled(p) => p,
    };
    let ids: Vec<String> = pool.pool.iter().map(|x| x.id.clone()).collect();
    let mut race = factors(Race::start(pool, rows_of(&ids)));
    if race.expands() {
        let starts = race.starts();
        let seen: Vec<String> =
            race.ranked.iter().map(|c| race.rows[c.row].id.clone()).collect();
        let litters: Vec<Litter> = starts
            .iter()
            .map(|i| {
                let c = race.ranked[*i];
                let seed = &race.rows[c.row];
                let key = SiblingKey::of(seed).expect("a start has a regulation");
                let rows: Vec<ChunkRow> = corpus()
                    .into_iter()
                    .filter(|r| {
                        SiblingKey::of(r).is_some_and(|k| k.same_as(&key)) && !seen.contains(&r.id)
                    })
                    .collect();
                let of_seed = evidence(query, &seed.body);
                let found: Vec<f32> = rows.iter().map(|r| evidence(query, &r.body)).collect();
                Litter {
                    seed: c.row,
                    evidence: found.iter().map(|e| s(*e)).collect(),
                    scaled: found.iter().map(|e| s(f(c.relevance) * (e / of_seed))).collect(),
                    rows: rows.iter().map(copy).collect(),
                }
            })
            .collect();
        let before = race.ranked.len();
        race = race.expand(litters, starts.len(), "0.30");
        if race.outgrew(before) {
            race = factors(race);
        }
    }
    race.finish(&format!("{:.3}", run.centroid))
}

fn result_ids(a: &Answer) -> Vec<&str> {
    a.results.iter().map(|r| r.id.as_str()).collect()
}

#[test]
fn an_ordinary_query_is_answered_whole() {
    let a = search("kelas jalan", usual());
    assert!(a.success);
    assert_eq!(a.op, "search_knowledge");
    assert_eq!(a.detected_domain.as_deref(), Some("spike-01"));
    // The statute is promoted over the annex that matched first.
    assert_eq!(result_ids(&a), ["statute", "annex"]);
    assert_eq!(a.clusters_probed, 2);
    assert_eq!(a.citation_block[0], "[1] UNDANG-UNDANG 2, Pasal 8 — https://x/statute");
    assert!(!a.truncated);
    assert!(a.results.iter().all(|r| r.expanded_from.is_none()), "nothing was asked for");
    assert_eq!(
        a.progress,
        vec![
            "embedded query (1024 dims)",
            "probed 2 of 2 clusters",
            "dense: 1 candidates",
            "sparse: 2 candidates",
            "text: 2 candidates",
            "domain gate: lexical 0.900 (floor 0.40), centroid 0.800 (floor 0.45)",
            "fused to 2 candidates",
            "factors promoted statute over annex",
            "returning 2 of 2 candidates",
        ]
    );
    let applied = a.applied.expect("always present");
    assert_eq!(applied.mode, Mode::Hybrid);
    assert!(!applied.experimental);
}

#[test]
fn a_question_the_corpus_does_not_cover_is_refused() {
    let a = search("ibu kota prancis", Run { lexical: 0.2, ..usual() });
    assert!(a.success);
    assert!(a.detected_domain.is_none());
    assert!(a.results.is_empty());
    assert_eq!(a.confidence, Confidence::Absent);
    assert!(a.hint.expect("says what to do next").contains("only 20% of its distinctive terms"));
    // Either half of the domain gate is enough.
    let a = search("ibu kota prancis", Run { centroid: 0.1, ..usual() });
    assert!(a.detected_domain.is_none());
}

#[test]
fn a_named_regulation_is_never_gated_and_never_filtered() {
    let exact = vec![vec![ExactHit { id: "statute".into(), matched_on: "UU 2/2010".into() }]];
    let a = search("UU 2/2010", Run { lexical: 0.0, centroid: 0.0, exact, ..usual() });
    assert_eq!(a.detected_domain.as_deref(), Some("spike-01"));
    assert_eq!(a.exact_matches.len(), 1);
    assert_eq!(result_ids(&a).len(), 2);
    assert!(a.progress.iter().any(|p| p.contains("relevance floor skipped")), "{:?}", a.progress);
    assert!(!a.progress.iter().any(|p| p.contains("domain gate")));
    // Named, and not in the corpus: still not gated.
    let a = search("UU 99/1999", Run { lexical: 0.0, exact: vec![vec![]], ..usual() });
    assert_eq!(a.detected_domain.as_deref(), Some("spike-01"));
}

#[test]
fn nothing_retrieved_is_not_an_uncovered_domain() {
    let a = search("kelas jalan", Run { arms: [&[], &[], &[]], ..usual() });
    assert_eq!(a.detected_domain.as_deref(), Some("spike-01"));
    assert!(a.results.is_empty());
    assert!(a.hint.is_some());
}

#[test]
fn a_mode_turns_arms_off() {
    let options = SearchOptions { mode: Some(Mode::Semantic), ..SearchOptions::default() };
    let a = search("retribusi", Run { options, ..usual() });
    assert_eq!(result_ids(&a), ["other"]);
    assert!(a.hint.expect("labelled").contains("semantic"));
}

#[test]
fn the_floor_drops_what_does_not_account_for_the_query() {
    let run = Run { arms: [&[], &["other", "statute"], &["statute"]], ..usual() };
    let a = search("kelas jalan", run);
    assert_eq!(result_ids(&a), ["statute"]);
    assert!(
        a.progress.iter().any(|p| p == "relevance floor dropped 1 of 2 candidates"),
        "{:?}",
        a.progress
    );
}

#[test]
fn a_cut_answer_says_that_there_is_more() {
    let options = SearchOptions { top_k: Some(1), ..SearchOptions::default() };
    let a = search("kelas jalan", Run { options, ..usual() });
    assert_eq!(a.results.len(), 1);
    assert!(a.truncated);
    assert_eq!(a.progress.last().map(String::as_str), Some("returning 1 of 2 candidates"));
}

#[test]
fn siblings_are_admitted_only_where_they_are_asked_for() {
    let options = SearchOptions {
        expand: Some(vec![Expansion::Siblings]),
        ..SearchOptions::default()
    };
    let a = search("kelas jalan", Run { options, ..usual() });
    let sibling = a.results.iter().find(|r| r.id == "sibling").expect("admitted");
    assert_eq!(sibling.expanded_from.as_deref(), Some("statute"));
    assert!(
        a.progress.iter().any(|p| p
            == "expansion: read 1 siblings of 2 regulations, admitted 1 at evidence >= 0.30"),
        "{:?}",
        a.progress
    );
    let best = a
        .results
        .iter()
        .filter(|r| r.expanded_from.is_none())
        .map(|r| f(r.score))
        .fold(0.0, f32::max);
    assert!(f(sibling.score) <= best, "an expanded chunk never outranks what was found");
}

#[test]
fn an_unknown_profile_stops_a_search_before_it_costs_anything() {
    let options = SearchOptions { profile: Some("sanctions".into()), ..SearchOptions::default() };
    let registry = Registry::builtin(fitted());
    let e = ask("q", "d", Config::default(), &options, &registry).unwrap_err();
    assert!(matches!(e, ResolveError::UnknownProfile { .. }));
}

#[test]
fn a_declared_composition_is_what_ranks() {
    let mut registry = Registry::builtin(fitted());
    // Rank by length alone: the annex is shorter than the statute.
    registry.algorithms.insert(
        "long".to_owned(),
        algorithm(Some(vec![entry(
            "length",
            "body_len",
            TransformSpec::AtLeast { min: s(30.0) },
            1.0,
        )])),
    );
    let options = SearchOptions { profile: Some("long".into()), ..SearchOptions::default() };
    let asked = ask("kelas jalan", "d", Config::default(), &options, &registry).expect("resolves");
    assert_eq!(asked.applied.composition.len(), 1);
    let race = Race {
        asked,
        clusters: 1,
        probed: vec![],
        dense: vec![],
        sparse: vec![],
        exact: vec![],
        named: false,
        pool: 2,
        rows: corpus(),
        ranked: vec![
            Candidate { row: 0, relevance: s(0.016), expanded_from: None },
            Candidate { row: 1, relevance: s(0.015), expanded_from: None },
        ],
        progress: vec![],
    };
    let after = factors(race);
    assert_eq!(after.ranked[0].row, 1);
}

#[test]
fn names_of_factors_are_read_back() {
    assert_eq!(variable_of(" regulation_type "), Some(Variable::RegulationType));
    assert_eq!(variable_of("number:cited_by"), Some(Variable::Number("cited_by".into())));
    assert_eq!(variable_of("text:court"), Some(Variable::Text("court".into())));
    assert_eq!(variable_of("number:"), None);
    assert_eq!(variable_of("regulaton_type"), None);
    // The shorthand, written out and read back, is the five-term form.
    let w = Weights::fitted();
    let entries = vera::contract::algorithms::classic_composition(&fitted());
    assert_eq!(composition_of(&entries, w.relevance_floor), Composition::classic(&w));
    assert_eq!(unsupplied(&entries, &Vocabulary::default()), ["authority", "structural"]);
}

#[test]
fn windows_hold_every_cluster_once() {
    assert_eq!(windows(&vec![5, 4, 3, 2, 1], 2), vec![vec![5, 4], vec![3, 2], vec![1]]);
    assert_eq!(windows(&vec![1, 2], 0), vec![vec![1], vec![2]]);
    assert!(windows(&vec![], 3).is_empty());
}

#[test]
fn weights_survive_the_wire() {
    let w = Weights::fitted();
    assert_eq!(weights_from_contract(&weights_to_contract(&w)), w);
}

// ---------------------------------------------------------------------------
// Explaining
// ---------------------------------------------------------------------------

#[test]
fn the_gate_asks_for_both_halves() {
    let gate = |lexical: f32, centroid: f32| {
        domain_gate("apa itu", s(lexical), s(0.40), s(centroid), s(0.45)).passes
    };
    assert!(gate(0.40, 0.45));
    assert!(!gate(0.39, 0.99));
    assert!(!gate(0.99, 0.44));
    let named = domain_gate("PP 26 tahun 2009", s(0.0), s(0.40), s(0.0), s(0.45));
    assert!(named.bypassed && named.passes);
    let figures = GateFigures {
        lexical: "0.333".into(),
        lexical_floor: "0.40".into(),
        centroid: "0.717".into(),
        centroid_floor: "0.45".into(),
    };
    assert_eq!(
        note_of_gate(&figures),
        "domain gate: lexical 0.333 (floor 0.40), centroid 0.717 (floor 0.45)"
    );
}

#[test]
fn an_explanation_agrees_with_the_answer_it_explains() {
    for (query, lexical, centroid) in
        [("kelas jalan", 0.9, 0.8), ("ibu kota prancis", 0.2, 0.8), ("UU 99/1999", 0.0, 0.0)]
    {
        let exact = if query.starts_with("UU") { vec![vec![]] } else { vec![] };
        let a = search(query, Run { lexical, centroid, exact, ..usual() });
        let e = explain(
            query,
            "spike-01",
            vec![ClusterMatch { id: 3, similarity: s(centroid) }],
            2,
            s(lexical),
            s(0.40),
            s(0.45),
            "stub",
        );
        assert_eq!(e.domain, a.detected_domain, "{query}");
        assert_eq!(e.would_refuse, a.detected_domain.is_none(), "{query}");
        assert_eq!(e.clusters_probed, vec![3]);
        assert_eq!(e.total_clusters, 2);
    }
}

#[test]
fn an_explanation_lists_what_the_query_names() {
    let e = explain("UU 28/2007", "d", vec![], 0, s(1.0), s(0.4), s(0.45), "stub");
    assert_eq!(e.identifiers, ["28/2007"]);
    assert!(e.gate_bypassed && !e.would_refuse);
}

// ---------------------------------------------------------------------------
// Calls
// ---------------------------------------------------------------------------

fn call(name: &str, arguments: Json) -> Json {
    Json::object().set("name", Json::text(name)).set("arguments", arguments)
}

const LIMITS: Limits = Limits { read_chunk_chars: 4000, max_provenance_ids: 2 };

#[test]
fn a_call_is_read_within_its_limits() {
    assert_eq!(dispatch(&call("list_domains", Json::object()), LIMITS), Call::ListDomains);
    assert_eq!(
        dispatch(&call("search_knowledge", Json::object().set("query", Json::text("q"))), LIMITS),
        Call::Search { query: "q".into() }
    );
    let read = Json::object().set("id", Json::text("c1")).set("max_chars", Json::number(9_000));
    assert_eq!(
        dispatch(&call("read_chunk", read), LIMITS),
        Call::ReadChunk { id: "c1".into(), max_chars: 4000 }
    );
    let short = Json::object().set("id", Json::text("c1")).set("max_chars", Json::number(10));
    assert_eq!(
        dispatch(&call("read_chunk", short), LIMITS),
        Call::ReadChunk { id: "c1".into(), max_chars: 10 }
    );
    let refused = dispatch(&call("search_knowledge", Json::object()), LIMITS);
    assert!(matches!(refused, Call::Refused(_)), "{refused:?}");
    let unknown = dispatch(&call("drop_tables", Json::object()), LIMITS);
    assert!(matches!(unknown, Call::Refused(_)), "{unknown:?}");
}

#[test]
fn replies_name_their_operation() {
    let op = |j: &Json| j.get("op").and_then(Json::as_str).unwrap_or_default().to_owned();
    assert_eq!(op(&list_domains("spike-01", "m", 1024, 85)), "list_domains");
    assert_eq!(op(&list_algorithms(&Registry::builtin(fitted()))), "list_algorithms");
    let row = &corpus()[1];
    let reply = chunk_reply(row, "kelas", true);
    assert_eq!(op(&reply), "read_chunk");
    assert_eq!(reply.get("truncated"), Some(&Json::Bool(true)));
    assert_eq!(op(&no_chunk("c9")), "read_chunk");
    assert_eq!(op(&provenance_reply(&corpus())), "get_provenance");
    let e = explain("q", "d", vec![], 0, s(0.0), s(0.4), s(0.45), "stub");
    assert_eq!(op(&explain_reply(&e)), "explain_routing");
    assert!(health_reply(85, 4, "0.1.0").get("clusters").is_some());
}

#[test]
fn a_budget_out_of_range_is_held_at_its_end() {
    assert_eq!(window_limit(20, 3), 60);
    assert_eq!(window_limit(-2, 3), -6);
    assert_eq!(window_limit(i64::MAX, 2), i64::MAX);
    assert_eq!(window_limit(i64::MIN, 2), i64::MIN);
    assert_eq!(window_limit(i64::MAX, 0), 0);
}

#[test]
fn every_arrangement_of_hits_settles_alike() {
    let hits = || [hit("b", 1.0), hit("a", 1.0), hit("c", 0.5), hit("a", 1.0), hit("d", -0.0)];
    let of = |order: [usize; 5]| {
        let mut left: Vec<Option<Scored>> = hits().into_iter().map(Some).collect();
        let list = order.iter().map(|i| left[*i].take().expect("once")).collect();
        settle(list, 4)
    };
    let first = of([0, 1, 2, 3, 4]);
    assert_eq!(first.iter().map(|h| h.id.as_str()).collect::<Vec<_>>(), ["a", "a", "b", "c"]);
    for order in [[4, 3, 2, 1, 0], [2, 0, 4, 1, 3], [1, 4, 0, 3, 2]] {
        assert_eq!(of(order), first);
    }
}
