//! What metadata contributes to a ranking.

use vera::engine::factors::{authority, completeness, composed_prior, content_terms, contributions, coverage, evaluate, floor_applies, keep_covered, prior, rank_by_score, rule_text, structural, telling_terms, temporal, topical, year_span, Composition, Context, FactorSpec, Facets, Field, Quantity, StructuralRule, Term, Transform, Variable, Vocabulary, Weighed, WeightedTerm, Weights};
use vera::score::Score;

fn s(x: f32) -> Score {
    Score { bits: x.to_bits() }
}

fn f(x: Score) -> f32 {
    f32::from_bits(x.bits)
}

/// The vocabulary of Indonesian regulation.
fn v() -> Vocabulary {
    Vocabulary::id_regulation().expect("the labels are plain text")
}

fn terms(t: &[&str]) -> Vec<String> {
    t.iter().map(|x| (*x).to_owned()).collect()
}

fn quantity(q: Quantity) -> f32 {
    match q {
        Quantity::Length(n) => n as f32,
        Quantity::Year(y) => y as f32,
        Quantity::Number(x) => f(x),
    }
}

/// The number that a formula stands for.
fn value(t: Term) -> f32 {
    let raw = match t {
        Term::Fixed(x) => f(x),
        Term::Tier { tier, top } => f32::from(tier) / f(top),
        Term::Share { matched, of } => matched as f32 / of as f32,
        Term::HalfLife { years, value, now } => {
            let age = (now as f32 - quantity(value)).max(0.0);
            let h = f(years).max(f32::EPSILON);
            h / (h + age)
        }
        Term::Span { value, oldest, newest } => {
            (quantity(value) - oldest as f32) / (newest - oldest) as f32
        }
        Term::Saturate { value, at } => {
            1.0 - (-quantity(value) / f(at).max(f32::EPSILON)).exp()
        }
        Term::AtLeast { value, min } => {
            if quantity(value) >= f(min) {
                1.0
            } else {
                0.0
            }
        }
    };
    raw.clamp(0.0, 1.0)
}

fn total(summands: &[WeightedTerm]) -> f32 {
    summands.iter().map(|w| f(w.weight) * value(w.term)).sum()
}

type Pool = Vec<(f32, Facets<'static>, u8)>;

/// What the floor leaves, by place.
fn floored(pool: &Pool, floor: Score, q: &Vec<String>, v: &Vocabulary) -> Vec<usize> {
    let places: Vec<usize> = (0..pool.len()).collect();
    if !floor_applies(floor, q) {
        return places;
    }
    let covered: Vec<Score> = pool
        .iter()
        .map(|p| s(value(coverage(p.1.body.unwrap_or_default(), q, v))))
        .collect();
    keep_covered(&places, &covered, floor)
}

fn span(pool: &Pool, kept: &[usize]) -> (i32, i32) {
    year_span(&kept.iter().map(|i| pool[*i].1.year).collect())
}

fn ranked(pool: &Pool, kept: &[usize], priors: &[f32]) -> Vec<u8> {
    let list = kept
        .iter()
        .zip(priors)
        .map(|(i, p)| Weighed { score: s(pool[*i].0 * (1.0 + p)), item: pool[*i].2 })
        .collect();
    rank_by_score(list).iter().map(|w| w.item).collect()
}

/// The ids of a pool, ranked on five weights.
fn rescore(pool: &Pool, w: &Weights, q: &[&str], v: &Vocabulary) -> Vec<u8> {
    if w.is_off() {
        return pool.iter().map(|p| p.2).collect();
    }
    let q = terms(q);
    let kept = floored(pool, w.relevance_floor, &q, v);
    let (oldest, newest) = span(pool, &kept);
    let priors: Vec<f32> = kept
        .iter()
        .map(|i| total(&prior(&pool[*i].1, w, &q, oldest, newest, v)))
        .collect();
    ranked(pool, &kept, &priors)
}

/// The ids of a pool, ranked on a composition.
fn rescore_composed(pool: &Pool, c: &Composition, cx: &Context<'_>) -> Vec<u8> {
    if c.is_inert() {
        return pool.iter().map(|p| p.2).collect();
    }
    let kept = floored(pool, c.relevance_floor, cx.query_terms, cx.vocabulary);
    let (oldest, newest) = span(pool, &kept);
    let cx = Context { oldest, newest, ..*cx };
    let priors: Vec<f32> =
        kept.iter().map(|i| total(&composed_prior(&pool[*i].1, c, &cx))).collect();
    ranked(pool, &kept, &priors)
}

fn facets(reg: &'static str, article: &'static str) -> Facets<'static> {
    Facets {
        regulation_type: Some(reg),
        article: Some(article),
        year: Some(2010),
        body_len: 800,
        ..Facets::default()
    }
}

/// Weights with the floor off, for tests about order.
fn ordering_only() -> Weights {
    Weights { relevance_floor: s(0.0), ..Weights::fitted() }
}

fn weight_sum(w: &Weights) -> f32 {
    f(w.authority) + f(w.structural) + f(w.temporal) + f(w.completeness) + f(w.topical)
}

fn rule(label: &str, field: Field, score: f32, anchored: bool) -> StructuralRule {
    StructuralRule::literal(label, field, s(score), anchored).expect("a literal compiles")
}

#[test]
fn the_hierarchy_orders_national_above_local() {
    assert!(v().tier("UNDANG-UNDANG") > v().tier("PERATURAN PEMERINTAH"));
    assert!(v().tier("PERATURAN PEMERINTAH") > v().tier("PERATURAN PRESIDEN"));
    assert!(v().tier("PERATURAN PRESIDEN") > v().tier("PERATURAN DAERAH PROVINSI"));
}

#[test]
fn legislation_outranks_the_executive_regulation_implementing_it() {
    assert!(v().tier("PERATURAN DAERAH PROVINSI") > v().tier("PERATURAN GUBERNUR"));
    assert!(v().tier("PERATURAN DAERAH KOTA") > v().tier("PERATURAN WALIKOTA"));
    assert!(v().tier("PERATURAN DAERAH KABUPATEN") > v().tier("PERATURAN BUPATI"));
}

#[test]
fn an_unknown_regulation_type_is_neutral_not_penalised() {
    let f = Facets { regulation_type: Some("SURAT EDARAN"), ..Facets::default() };
    assert!((value(authority(&f, &v())) - 0.0).abs() < f32::EPSILON);
    assert_eq!(v().tier("SURAT EDARAN"), None);
}

#[test]
fn the_hierarchy_lookup_tolerates_case_and_padding() {
    assert_eq!(v().tier("  undang-undang  "), Some(8));
}

#[test]
fn an_annex_scores_below_an_article() {
    assert!(
        f(structural(&facets("UNDANG-UNDANG", "Pasal 8"), &v()))
            > f(structural(&facets("UNDANG-UNDANG", "LAMPIRAN I"), &v()))
    );
}

#[test]
fn an_annex_in_the_chapter_is_still_an_annex() {
    let facets = Facets {
        article: Some("Pasal 3"),
        chapter: Some("LAMPIRAN"),
        ..Facets::default()
    };
    // The chapter must win: a "Pasal" inside an annex is annex material.
    assert!((f(structural(&facets, &v())) - 0.0).abs() < f32::EPSILON);
}

#[test]
fn completeness_saturates_rather_than_rewarding_length() {
    let of = |n: usize| value(completeness(&Facets { body_len: n, ..Facets::default() }));
    let short = of(100);
    let long = of(2_000);
    let huge = of(40_000);
    assert!(short < long);
    assert!(huge - long < (long - short) / 100.0, "{short} {long} {huge}");
}

#[test]
fn off_weights_leave_the_fused_order_untouched() {
    let pool = vec![
        (0.9_f32, facets("PERATURAN DAERAH KOTA", "LAMPIRAN I"), 1_u8),
        (0.8, facets("UNDANG-UNDANG", "Pasal 8"), 2),
    ];
    assert_eq!(rescore(&pool, &Weights::off(), &[], &v()), vec![1, 2]);
}

#[test]
fn a_statute_outranks_a_local_annex_of_similar_relevance() {
    let pool = vec![
        (0.90_f32, facets("PERATURAN DAERAH KOTA", "LAMPIRAN I"), 1_u8),
        (0.85, facets("UNDANG-UNDANG", "Pasal 8"), 2),
    ];
    let order = rescore(&pool, &ordering_only(), &[], &v());
    assert_eq!(order[0], 2, "the statute should lead");
}

#[test]
fn the_prior_cannot_outrun_a_real_relevance_gap() {
    let w = ordering_only();
    let bound = 1.0 + weight_sum(&w);

    let pool = vec![
        (bound * 1.5, facets("PERATURAN DAERAH KOTA", "LAMPIRAN I"), 1_u8),
        (1.0, facets("UNDANG-UNDANG", "Pasal 8"), 2),
    ];
    let order = rescore(&pool, &w, &[], &v());
    assert_eq!(order[0], 1, "a gap wider than the bound must hold");

    // And the honest converse, which is why the floor exists.
    let rrf_spread = (1.0 / 60.0) / (1.0 / 119.0);
    assert!(
        bound > rrf_spread,
        "the prior bound ({bound:.2}) is inside the pool's RRF spread ({rrf_spread:.2})"
    );
}

#[test]
fn content_terms_keeps_only_words_that_carry_meaning() {
    let t = content_terms("Dalam Peraturan ini yang dimaksud dengan izin usaha", &v());
    assert!(!t.iter().any(|x| x == "yang"), "{t:?}");
    assert!(!t.iter().any(|x| x == "dengan"), "{t:?}");
    assert!(!t.iter().any(|x| x == "ini"), "{t:?}");
    assert!(t.iter().any(|x| x == "peraturan"), "{t:?}");
    assert!(t.iter().any(|x| x == "usaha"), "{t:?}");
}

#[test]
fn content_terms_are_deduplicated() {
    let t = content_terms("pajak pajak pajak daerah", &v());
    assert_eq!(t.iter().filter(|x| *x == "pajak").count(), 1, "{t:?}");
}

#[test]
fn coverage_matches_the_python_that_fitted_the_floor() {
    let body = "Pemegang izin usaha pertambangan wajib melaksanakan pengelolaan";
    let q = terms(&["izin", "usaha", "pertambangan", "reklamasi"]);
    let got = value(coverage(body, &q, &v()));
    assert!((got - 0.75).abs() < 1e-6, "{got}");
    assert!(value(coverage("teks pendek", &terms(&["izin"]), &v())).abs() < f32::EPSILON);
}

#[test]
fn an_empty_query_never_filters_anything() {
    assert!((value(coverage("apa pun", &vec![], &v())) - 1.0).abs() < f32::EPSILON);
}

fn with_body(body: &'static str) -> Facets<'static> {
    Facets {
        regulation_type: Some("UNDANG-UNDANG"),
        article: Some("Pasal 8"),
        body: Some(body),
        body_len: body.len(),
        year: Some(2010),
        ..Facets::default()
    }
}

#[test]
fn the_floor_removes_candidates_rather_than_reordering_them() {
    let pool = vec![
        (0.010_f32, with_body("ketentuan mengenai retribusi pelayanan pasar"), 1_u8),
        (0.009, with_body("izin usaha pertambangan mineral dan batubara"), 2),
    ];
    let order = rescore(&pool, &Weights::fitted(), &["izin", "usaha", "pertambangan"], &v());
    assert_eq!(order.len(), 1, "the unrelated candidate must be dropped");
    assert_eq!(order[0], 2);
}

#[test]
fn the_floor_never_empties_the_pool_on_its_own() {
    let pool = vec![
        (0.010_f32, with_body("sama sekali tidak berkaitan"), 1_u8),
        (0.009, with_body("juga tidak berkaitan sedikit pun"), 2),
    ];
    let order = rescore(&pool, &Weights::fitted(), &["izin", "usaha", "pertambangan"], &v());
    assert_eq!(order.len(), 1, "one survivor, never zero");
}

#[test]
fn a_zero_floor_filters_nothing() {
    let pool = vec![
        (0.010_f32, with_body("tidak berkaitan sama sekali"), 1_u8),
        (0.009, with_body("izin usaha pertambangan"), 2),
    ];
    let order = rescore(&pool, &Weights::off(), &["izin"], &v());
    assert_eq!(order.len(), 2);
    assert_eq!(order[0], 1, "off must not reorder either");
}

#[test]
fn a_floor_leaves_room_for_a_partial_match() {
    let body = "izin usaha pertambangan wajib memenuhi persyaratan";
    let q = terms(&["izin", "usaha", "reklamasi", "jaminan"]);
    let got = value(coverage(body, &q, &v()));
    assert!(
        got >= f(Weights::fitted().relevance_floor),
        "coverage {got} fell below the floor"
    );
}

#[test]
fn the_shipped_weights_stay_inside_the_pool_spread() {
    let sum = weight_sum(&Weights::fitted());
    assert!(
        1.0 + sum <= 2.00 + f32::EPSILON,
        "prior bound {:.2}x exceeds the 2.00x the fit was constrained to",
        1.0 + sum
    );
}

#[test]
fn the_shipped_floor_stays_where_it_is_free() {
    assert!((f(Weights::fitted().relevance_floor) - 0.3).abs() < 1e-6);
}

#[test]
fn the_prior_is_bounded_by_the_sum_of_weights() {
    let best = Facets {
        regulation_type: Some("UNDANG-UNDANG"),
        article: Some("Pasal 1"),
        about: Some("pajak"),
        year: Some(2018),
        body_len: 100_000,
        ..Facets::default()
    };
    let w = Weights::fitted();
    let sum = weight_sum(&w);
    let p = total(&prior(&best, &w, &terms(&["pajak"]), 1945, 2018, &v()));
    assert!(p <= sum + f32::EPSILON, "prior {p} exceeded {sum}");
}

#[test]
fn the_rust_prior_matches_the_python_that_fitted_it() {
    let w = Weights::fitted();
    let cases: [(Facets<'_>, f32); 3] = [
        (
            Facets {
                regulation_type: Some("UNDANG-UNDANG"),
                article: Some("Pasal 8"),
                year: Some(2007),
                body_len: 800,
                ..Facets::default()
            },
            0.65,
        ),
        (
            Facets {
                regulation_type: Some("PERATURAN DAERAH KOTA"),
                article: Some("LAMPIRAN I"),
                chapter: Some("LAMPIRAN"),
                year: Some(2011),
                body_len: 3_000,
                ..Facets::default()
            },
            0.15,
        ),
        (
            Facets {
                regulation_type: Some("PERATURAN PEMERINTAH"),
                article: Some("Pasal 43"),
                chapter: Some("PENJELASAN"),
                year: Some(2005),
                body_len: 250,
                ..Facets::default()
            },
            0.425,
        ),
    ];
    for (facets, expected) in cases {
        let got = total(&prior(&facets, &w, &vec![], 2005, 2011, &v()));
        assert!((got - expected).abs() < 1e-5, "prior {got} != {expected}");
    }
}

#[test]
fn temporal_is_neutral_when_the_pool_shares_one_year() {
    let facets = Facets { year: Some(2010), ..Facets::default() };
    assert!((value(temporal(&facets, 2010, 2010)) - 0.5).abs() < f32::EPSILON);
}

#[test]
fn topical_measures_query_coverage_of_the_subject() {
    let facets = Facets { about: Some("KETENAGALISTRIKAN DAN ENERGI"), ..Facets::default() };
    let of = |q: &[&str]| value(topical(&facets, &terms(q), &v()));
    assert!((of(&["energi"]) - 1.0).abs() < f32::EPSILON);
    assert!((of(&["energi", "pajak"]) - 0.5).abs() < f32::EPSILON);
    assert!((of(&[]) - 0.0).abs() < f32::EPSILON);
}

#[test]
fn topical_matches_whole_terms_not_substrings() {
    let facets = Facets { about: Some("KETENTUAN UMUM PERPAJAKAN"), ..Facets::default() };
    let of = |q: &[&str]| value(topical(&facets, &terms(q), &v()));
    assert!(
        (of(&["pajak"]) - 0.0).abs() < f32::EPSILON,
        "substring match leaked in: {}",
        of(&["pajak"])
    );
    assert!((of(&["perpajakan"]) - 1.0).abs() < f32::EPSILON);
}

#[test]
fn topical_ignores_a_subject_line_the_corpus_never_recorded() {
    let facets = Facets { about: None, ..Facets::default() };
    assert!((value(topical(&facets, &terms(&["energi"]), &v())) - 0.0).abs() < f32::EPSILON);
}

#[test]
fn nothing_indonesian_is_compiled_into_the_factor_functions() {
    let v = Vocabulary {
        authority: vec![
            ("INTERNET STANDARD".to_owned(), 5),
            ("PROPOSED STANDARD".to_owned(), 3),
        ],
        max_tier: s(5.0),
        structural: vec![
            rule("APPENDIX", Field::Either, 0.0, false),
            rule("SECTION", Field::Article, 1.0, true),
        ],
        structural_default: s(0.5),
        stopwords: vec!["the".to_owned(), "and".to_owned()],
        min_term_chars: 2,
    };

    let std_doc = Facets {
        regulation_type: Some("Internet Standard"),
        article: Some("Section 4.2"),
        ..Facets::default()
    };
    let appendix = Facets {
        regulation_type: Some("Proposed Standard"),
        article: Some("Appendix B"),
        ..Facets::default()
    };
    assert!(value(authority(&std_doc, &v)) > value(authority(&appendix, &v)));
    assert!(f(structural(&std_doc, &v)) > f(structural(&appendix, &v)));

    // And the Indonesian labels are now just unknown strings.
    let uu = Facets {
        regulation_type: Some("UNDANG-UNDANG"),
        article: Some("Pasal 9"),
        ..Facets::default()
    };
    assert!(
        (value(authority(&uu, &v)) - 0.0).abs() < f32::EPSILON,
        "an unknown label is neutral"
    );
    assert!((f(structural(&uu, &v)) - f(v.structural_default)).abs() < f32::EPSILON);
}

#[test]
fn the_term_splitter_takes_its_stop_list_from_the_corpus() {
    let en = Vocabulary {
        stopwords: vec!["the".to_owned(), "and".to_owned()],
        min_term_chars: 2,
        ..Vocabulary::default()
    };
    let got = content_terms("the tax and the penalty", &en);
    assert_eq!(got, vec!["tax".to_owned(), "penalty".to_owned()]);

    // Under the Indonesian vocabulary "the" is dropped for its length.
    assert!(!content_terms("the tax and the penalty", &v()).contains(&"the".to_owned()));
}

#[test]
fn a_weight_the_vocabulary_cannot_evaluate_is_reported() {
    let empty = Vocabulary::default();
    assert_eq!(empty.missing_for(&Weights::fitted()), vec!["authority", "structural"]);
    // Zero weights ask nothing of the vocabulary, so nothing is missing.
    assert!(empty.missing_for(&Weights::off()).is_empty());
    // The corpus that declares its tables is clean at any weight.
    assert!(v().missing_for(&Weights::fitted()).is_empty());
}

#[test]
fn the_longest_matching_label_wins_not_the_first_declared() {
    let v = Vocabulary {
        authority: vec![
            ("PERATURAN DAERAH".to_owned(), 3),
            ("PERATURAN DAERAH KABUPATEN".to_owned(), 7),
        ],
        max_tier: s(10.0),
        ..Vocabulary::default()
    };
    assert_eq!(v.tier("PERATURAN DAERAH KABUPATEN BANDUNG"), Some(7));
    assert_eq!(v.tier("PERATURAN DAERAH"), Some(3));
}

fn cx<'a>(v: &'a Vocabulary, q: &'a Vec<String>) -> Context<'a> {
    Context { vocabulary: v, query_terms: q, oldest: 1945, newest: 2026, now: 2026 }
}

/// A pool spanning several tiers, structures, lengths and years.
fn mixed_pool() -> Pool {
    vec![
        (
            0.016_f32,
            Facets {
                regulation_type: Some("PERATURAN BUPATI"),
                article: Some("LAMPIRAN II"),
                about: Some("izin usaha pertambangan mineral"),
                body: Some("Pemegang izin usaha pertambangan wajib melaksanakan reklamasi"),
                year: Some(2019),
                body_len: 900,
                ..Facets::default()
            },
            1,
        ),
        (
            0.014,
            Facets {
                regulation_type: Some("UNDANG-UNDANG"),
                article: Some("Pasal 99"),
                about: Some("pertambangan mineral dan batubara"),
                body: Some("Pemegang izin usaha pertambangan wajib menyerahkan rencana reklamasi"),
                year: Some(2009),
                body_len: 240,
                ..Facets::default()
            },
            2,
        ),
        (
            0.011,
            Facets {
                regulation_type: Some("PERATURAN PEMERINTAH"),
                chapter: Some("PENJELASAN"),
                article: Some("Angka 4"),
                about: Some("reklamasi dan pascatambang"),
                body: Some("Yang dimaksud dengan reklamasi adalah kegiatan izin usaha"),
                year: Some(2010),
                body_len: 120,
                ..Facets::default()
            },
            3,
        ),
        (
            0.009,
            Facets {
                regulation_type: Some("SURAT EDARAN"),
                article: Some("Romawi I"),
                body: Some("Pemegang izin usaha pertambangan reklamasi wajib"),
                year: Some(2024),
                body_len: 60,
                ..Facets::default()
            },
            4,
        ),
    ]
}

#[test]
fn the_classic_composition_reproduces_the_hand_written_scorer_exactly() {
    let vocab = v();
    let q = ["izin", "usaha", "pertambangan", "reklamasi"];
    let weights = Weights::fitted();
    let composition = Composition::classic(&weights);
    let list = terms(&q);
    assert_eq!(
        rescore(&mixed_pool(), &weights, &q, &vocab),
        rescore_composed(&mixed_pool(), &composition, &cx(&vocab, &list)),
        "composed ranking must match the compiled one"
    );
}

#[test]
fn the_classic_composition_matches_term_by_term_not_just_in_order() {
    let vocab = v();
    let q = terms(&["izin", "usaha", "pertambangan", "reklamasi"]);
    let weights = Weights::fitted();
    let composition = Composition::classic(&weights);
    let context = cx(&vocab, &q);

    for (_, facets, id) in mixed_pool() {
        let compiled = total(&prior(&facets, &weights, &q, 1945, 2026, &vocab));
        let composed = total(&composed_prior(&facets, &composition, &context));
        assert!(
            (compiled - composed).abs() < 1e-6,
            "candidate {id}: compiled {compiled} vs composed {composed}"
        );
    }
}

#[test]
fn the_classic_composition_carries_the_same_bound() {
    let c = Composition::classic(&Weights::fitted());
    let bound = 1.0 + c.weights().iter().map(|w| f(*w)).sum::<f32>();
    assert!((bound - 2.00).abs() < 1e-6, "{bound}");
}

#[test]
fn an_all_zero_composition_is_the_identity_on_the_fused_order() {
    let vocab = v();
    let none = vec![];
    let c = Composition::classic(&Weights::off());
    let pool = mixed_pool();
    let before: Vec<u8> = pool.iter().map(|x| x.2).collect();
    assert_eq!(before, rescore_composed(&pool, &c, &cx(&vocab, &none)));
}

fn citations(weight: f32) -> FactorSpec {
    FactorSpec {
        name: "citations".to_owned(),
        variable: Variable::Number("citation_in_degree".to_owned()),
        transform: Transform::Saturate { at: s(20.0) },
        weight: s(weight),
    }
}

#[test]
fn a_factor_over_an_enrichment_value_needs_no_new_code() {
    let vocab = v();
    let none = vec![];
    let c = Composition { relevance_floor: s(0.0), factors: vec![citations(1.0)] };
    let carrying = |x: f32| Facets {
        numbers: vec![("citation_in_degree".to_owned(), s(x))],
        ..Facets::default()
    };
    let pool = vec![(0.010_f32, carrying(0.0), 1_u8), (0.009, carrying(40.0), 2)];
    let order = rescore_composed(&pool, &c, &cx(&vocab, &none));
    assert_eq!(order[0], 2, "the heavily cited chunk must be lifted");
}

#[test]
fn an_absent_enrichment_value_contributes_nothing_rather_than_zero() {
    let vocab = v();
    let none = vec![];
    let spec = citations(1.0);
    let bare = Facets::default();
    assert_eq!(evaluate(&spec, &bare, &cx(&vocab, &none)), None);

    let c = Composition { relevance_floor: s(0.0), factors: vec![spec] };
    assert!(total(&composed_prior(&bare, &c, &cx(&vocab, &none))).abs() < f32::EPSILON);
}

#[test]
fn every_transform_stays_inside_the_unit_interval() {
    let vocab = v();
    let q = terms(&["izin"]);
    let facets = Facets {
        regulation_type: Some("UNDANG-UNDANG DASAR"),
        article: Some("Pasal 1"),
        about: Some("izin usaha"),
        year: Some(3000),
        body_len: usize::MAX,
        numbers: vec![("x".to_owned(), s(1e9)), ("neg".to_owned(), s(-500.0))],
        ..Facets::default()
    };
    let cx = cx(&vocab, &q);

    for (variable, transform) in [
        (Variable::RegulationType, Transform::Authority),
        (Variable::Article, Transform::StructuralLadder),
        (Variable::Year, Transform::HalfLife { years: s(25.0) }),
        (Variable::Year, Transform::Range),
        (Variable::BodyLen, Transform::Saturate { at: s(400.0) }),
        (Variable::Number("x".to_owned()), Transform::Saturate { at: s(0.0) }),
        (Variable::Number("neg".to_owned()), Transform::Saturate { at: s(1.0) }),
        (Variable::About, Transform::MatchShare),
        (Variable::About, Transform::Present),
        (Variable::Number("x".to_owned()), Transform::AtLeast { min: s(1.0) }),
    ] {
        let spec = FactorSpec { name: "t".to_owned(), variable, transform, weight: s(1.0) };
        if let Some(term) = evaluate(&spec, &facets, &cx) {
            let got = value(term);
            assert!((0.0..=1.0).contains(&got), "{transform:?} produced {got}");
        }
    }
}

#[test]
fn a_half_life_does_not_drift_with_the_wall_clock() {
    let vocab = v();
    let none = vec![];
    let spec = FactorSpec {
        name: "recency".to_owned(),
        variable: Variable::Year,
        transform: Transform::HalfLife { years: s(25.0) },
        weight: s(1.0),
    };
    let facets = Facets { year: Some(2001), ..Facets::default() };

    let a = evaluate(&spec, &facets, &Context { now: 2026, ..cx(&vocab, &none) }).map(value);
    let b = evaluate(&spec, &facets, &Context { now: 2026, ..cx(&vocab, &none) }).map(value);
    let later = evaluate(&spec, &facets, &Context { now: 2051, ..cx(&vocab, &none) }).map(value);

    assert_eq!(a, b);
    assert!(later < a, "an older document decays");
    assert!((a.expect("value") - 0.5).abs() < 1e-6, "25 years = half");
}

#[test]
fn a_weight_on_a_variable_no_row_supplies_is_reported() {
    let vocab = v();
    let with = |weight: f32| Composition {
        relevance_floor: s(0.3),
        factors: vec![
            citations(weight),
            FactorSpec {
                name: "authority".to_owned(),
                variable: Variable::RegulationType,
                transform: Transform::Authority,
                weight: s(0.5),
            },
        ],
    };
    let c = with(0.5);

    assert_eq!(c.missing_for(&vocab, &vec![]), vec!["citations"]);
    assert!(c.missing_for(&vocab, &terms(&["citation_in_degree"])).is_empty());
    // And a factor weighted 0.0 asks nothing of the corpus.
    assert!(with(0.0).missing_for(&vocab, &vec![]).is_empty());
}

#[test]
fn contributions_report_absence_as_absence() {
    let vocab = v();
    let none = vec![];
    let c = Composition {
        relevance_floor: s(0.0),
        factors: vec![
            FactorSpec {
                name: "authority".to_owned(),
                variable: Variable::RegulationType,
                transform: Transform::Authority,
                weight: s(0.5),
            },
            citations(0.5),
        ],
    };
    let facets = Facets { regulation_type: Some("UNDANG-UNDANG"), ..Facets::default() };

    let got = contributions(&facets, &c, &cx(&vocab, &none));
    assert_eq!(got[0].0, "authority");
    assert!(got[0].1.is_some());
    assert_eq!(got[1], ("citations", None));
}

#[test]
fn an_anchored_rule_matches_at_the_start_only() {
    let anchored = Vocabulary {
        structural: vec![rule("PASAL", Field::Article, 1.0, true)],
        structural_default: s(0.5),
        ..Vocabulary::default()
    };
    let of = |article: &'static str| {
        f(structural(&Facets { article: Some(article), ..Facets::default() }, &anchored))
    };
    assert_eq!(of("Pasal 9"), 1.0);
    assert_eq!(of("Penjelasan Pasal 9"), 0.5);
    // A literal is a literal: the dot stands for itself.
    let dotted = Vocabulary {
        structural: vec![rule("a.b", Field::Article, 1.0, false)],
        structural_default: s(0.5),
        ..Vocabulary::default()
    };
    let dot = |article: &'static str| {
        f(structural(&Facets { article: Some(article), ..Facets::default() }, &dotted))
    };
    assert_eq!(dot("x a.b y"), 1.0);
    assert_eq!(dot("x axb y"), 0.5);
}

#[test]
fn a_pattern_that_does_not_compile_is_handed_back() {
    assert!(StructuralRule::new("[", Field::Article, s(1.0), false).is_err());
    let ok = StructuralRule::new("PASAL|AYAT", Field::Article, s(1.0), true).expect("compiles");
    assert!(ok.pattern.is_match("ayat (3)"));
}

#[test]
fn a_label_of_a_hundred_characters_compiles() {
    // Every character with significance, the largest classes that case
    // folding makes, and the longest encodings.
    let all = "\\.+*?()|[]{}^$#&-~ \t\n\u{345}\u{1fbe}kK\u{212a}\u{10400}\u{10ffff}";
    for anchored in [false, true] {
        for c in all.chars() {
            let label = c.to_string().repeat(100);
            let rule = rule(&label, Field::Either, 1.0, anchored);
            assert!(rule.pattern.is_match(&label), "{c:?}");
        }
        let mixed: String = all.chars().cycle().take(100).collect();
        let mixed_rule = rule(&mixed, Field::Either, 1.0, anchored);
        assert!(mixed_rule.pattern.is_match(&mixed));
        assert!(rule("", Field::Either, 1.0, anchored).pattern.is_match(""));
    }
}

#[test]
fn the_formulas_carry_their_operands() {
    let facets = facets("UNDANG-UNDANG", "Pasal 8");
    assert_eq!(authority(&facets, &v()), Term::Tier { tier: 8, top: s(10.0) });
    assert_eq!(
        completeness(&facets),
        Term::Saturate { value: Quantity::Length(800), at: s(400.0) }
    );
    assert_eq!(
        temporal(&facets, 2000, 2020),
        Term::Span { value: Quantity::Year(2010), oldest: 2000, newest: 2020 }
    );
    assert!((value(temporal(&facets, 2000, 2020)) - 0.5).abs() < 1e-6);
    assert!((value(completeness(&facets)) - (1.0 - (-2.0_f32).exp())).abs() < 1e-6);
}

#[test]
fn a_rule_is_compiled_from_its_pattern_in_a_group() {
    assert_eq!(rule_text("PASAL|AYAT", true), "(?i)^\\s*(?:PASAL|AYAT)");
    assert_eq!(rule_text("PASAL|AYAT", false), "(?i)(?:PASAL|AYAT)");
    let rule = StructuralRule::new("PASAL|AYAT", Field::Article, s(1.0), true).expect("compiles");
    assert_eq!(rule.pattern.as_str(), rule_text("PASAL|AYAT", true));
    // The anchor holds for every alternative.
    assert!(rule.pattern.is_match("  Ayat (3)"));
    assert!(!rule.pattern.is_match("Ketentuan Ayat (3)"));
}

#[test]
fn a_summand_that_comes_to_zero_is_left_out() {
    let t = |weight: f32, term: Term| WeightedTerm { weight: s(weight), term };
    let all = vec![
        t(0.5, Term::Share { matched: 1, of: 2 }),
        t(0.5, Term::Share { matched: 0, of: 2 }),
        t(0.0, Term::Fixed(s(1.0))),
        t(-0.0, Term::Fixed(s(1.0))),
        t(0.25, Term::Fixed(s(0.0))),
        t(0.25, Term::Fixed(s(1.0))),
        t(f32::INFINITY, Term::Fixed(s(0.0))),
    ];
    assert_eq!(telling_terms(&all), vec![all[0], all[5], all[6]]);

    let vocab = v();
    let q = terms(&["izin", "usaha", "pertambangan", "reklamasi"]);
    let weights = Weights::fitted();
    let context = cx(&vocab, &q);
    for (_, facets, id) in mixed_pool() {
        let compiled = prior(&facets, &weights, &q, 1945, 2026, &vocab);
        let composed = composed_prior(&facets, &Composition::classic(&weights), &context);
        assert_eq!(total(&telling_terms(&compiled)), total(&compiled), "candidate {id}");
        assert_eq!(telling_terms(&compiled), telling_terms(&composed), "candidate {id}");
    }
}
