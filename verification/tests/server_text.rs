//! What the server makes of text: query vectors, references, vocabularies.

use vera::engine::factors::{authority, structural, Facets, Field, StructuralRule, Term, Vocabulary, Weights};
use vera::score::Score;
use vera::server::bm25::{tokenize, Artifact, Bm25Error, EvidenceTerm, QueryVectorizer, ENGINE_TOKEN_PATTERN};
use vera::server::identifier::{extract, Identifier};
use vera::server::vocabulary::{declared_rule, default_field, default_max_tier, default_min_term, default_structural, CorpusVocabulary, ScoreFault, StructuralRuleFile, VocabError, VocabularyFile};
use vera::textmap::TextMap;

fn s(x: f32) -> Score {
    Score { bits: x.to_bits() }
}

fn f(x: Score) -> f32 {
    f32::from_bits(x.bits)
}

// ---------------------------------------------------------------------------
// Query vectors
// ---------------------------------------------------------------------------

#[test]
fn tokenisation_lowercases_and_drops_single_characters() {
    assert_eq!(tokenize("Sanksi a Denda"), ["sanksi", "denda"]);
}

#[test]
fn punctuation_and_digits_split_the_way_the_python_side_splits_them() {
    assert_eq!(tokenize("UU 28/2007"), ["uu", "28", "2007"]);
    assert_eq!(tokenize("Pasal 9 ayat (3)"), ["pasal", "ayat"]);
}

#[test]
fn indonesian_text_tokenises_without_loss() {
    assert_eq!(
        tokenize("Wajib Pajak yang terlambat"),
        ["wajib", "pajak", "yang", "terlambat"]
    );
}

#[test]
fn empty_and_symbol_only_input_yield_no_tokens() {
    assert!(tokenize("").is_empty());
    assert!(tokenize("--- ... ///").is_empty());
}

fn vz() -> QueryVectorizer {
    let mut vocab = TextMap::new();
    vocab.insert("sanksi".to_owned(), 5);
    vocab.insert("denda".to_owned(), 2);
    vocab.insert("yang".to_owned(), 9);
    let mut idf = TextMap::new();
    idf.insert("sanksi".to_owned(), s(6.0));
    idf.insert("denda".to_owned(), s(6.0));
    idf.insert("yang".to_owned(), s(0.5));
    QueryVectorizer { vocab, idf, unknown_idf: s(9.0), dim: 20000 }
}

/// The share of the query's mass that was found.
fn share(terms: &[EvidenceTerm]) -> f32 {
    let total: f32 = terms.iter().map(|t| f(t.weight)).sum();
    if total <= 0.0 {
        return 0.0;
    }
    terms.iter().filter(|t| t.found).map(|t| f(t.weight)).sum::<f32>() / total
}

fn evidence(query: &str, docs: &[&str]) -> f32 {
    let docs = docs.iter().map(|d| (*d).to_owned()).collect();
    share(&vz().evidence(query, &docs))
}

#[test]
fn evidence_is_the_share_of_a_query_the_documents_account_for() {
    let docs = ["ketentuan sanksi dan denda yang berlaku"];
    assert!((evidence("sanksi denda", &docs) - 1.0).abs() < 1e-6, "every term found");
    assert!(evidence("sanksi denda", &["tidak ada apa pun"]).abs() < 1e-6, "no term found");
}

#[test]
fn an_unknown_word_counts_against_the_query_more_than_a_common_one() {
    let docs = ["sanksi denda yang berlaku"];
    let common_missing = evidence("sanksi denda yang", &docs);
    let unknown_missing = evidence("sanksi denda kwacamole", &docs);
    assert!(
        unknown_missing < common_missing,
        "unknown {unknown_missing} should hurt more than common {common_missing}"
    );
}

#[test]
fn evidence_pools_across_documents() {
    let split = ["hanya sanksi", "hanya denda"];
    assert!((evidence("sanksi denda", &split) - 1.0).abs() < 1e-6);
}

#[test]
fn an_empty_query_yields_no_evidence_rather_than_full_confidence() {
    assert!(evidence("", &["apa pun"]).abs() < 1e-6);
}

#[test]
fn a_query_maps_known_terms_and_drops_the_rest() {
    let v = vz().query("sanksi denda kwacamole");
    assert_eq!(v, [(2, s(1.0)), (5, s(1.0))], "sorted, presence-weighted");
}

#[test]
fn repeated_terms_appear_once() {
    assert_eq!(vz().query("denda denda denda").len(), 1);
}

#[test]
fn a_query_of_only_unknown_terms_is_empty_rather_than_an_error() {
    assert!(vz().query("zzz qqq").is_empty());
}

#[test]
fn an_unknown_word_weighs_what_the_rarest_known_one_does() {
    let terms = vz().evidence("denda kwacamole", &vec!["denda".to_owned()]);
    assert_eq!(
        terms,
        vec![
            EvidenceTerm { weight: s(6.0), found: true },
            EvidenceTerm { weight: s(9.0), found: false },
        ]
    );
}

fn artifact(pattern: &str) -> Artifact {
    let mut vocab = TextMap::new();
    vocab.insert("denda".to_owned(), 2);
    let mut idf = TextMap::new();
    idf.insert("denda".to_owned(), s(6.0));
    idf.insert("yang".to_owned(), s(0.5));
    Artifact { dim: 20000, token_pattern: pattern.to_owned(), vocab, idf }
}

#[test]
fn an_artifact_of_another_tokenizer_is_refused() {
    let ok = QueryVectorizer::load(artifact(ENGINE_TOKEN_PATTERN)).expect("the same tokenizer");
    assert_eq!(ok.dim(), 20000);
    assert_eq!(ok.unknown_idf, s(6.0));
    let err = QueryVectorizer::load(artifact("\\w+")).expect_err("another tokenizer");
    assert_eq!(
        err,
        Bm25Error::TokenizerDrift {
            artifact: "\\w+".to_owned(),
            engine: ENGINE_TOKEN_PATTERN,
        }
    );
    assert!(err.message().contains("\\w+"), "{}", err.message());
}

// ---------------------------------------------------------------------------
// References
// ---------------------------------------------------------------------------

fn one(q: &str) -> Identifier {
    let found = extract(q);
    assert_eq!(found.len(), 1, "expected exactly one in {q:?}, got {found:?}");
    found.into_iter().next().unwrap()
}

#[test]
fn slash_form_is_recognised() {
    assert_eq!(
        one("UU 28/2007"),
        Identifier {
            number: "28".into(),
            year: Some(2007),
            reg_type: Some("UNDANG-UNDANG"),
        }
    );
}

#[test]
fn spelled_out_form_is_recognised() {
    assert_eq!(
        one("Peraturan Pemerintah No. 26 Tahun 2009"),
        Identifier {
            number: "26".into(),
            year: Some(2009),
            reg_type: Some("PERATURAN PEMERINTAH"),
        }
    );
}

#[test]
fn nomor_without_a_type_prefix_is_recognised() {
    assert_eq!(
        one("nomor 26 tahun 2009"),
        Identifier { number: "26".into(), year: Some(2009), reg_type: None }
    );
}

#[test]
fn the_tier_the_user_typed_is_kept() {
    assert_eq!(one("PP 60/2014").reg_type, Some("PERATURAN PEMERINTAH"));
    assert_eq!(one("UU No. 17 Tahun 2013").reg_type, Some("UNDANG-UNDANG"));
    assert_eq!(one("Perpres 76/2016").reg_type, Some("PERATURAN PRESIDEN"));
    assert_eq!(one("perbup 27/2013").reg_type, Some("PERATURAN BUPATI"));
    assert_eq!(
        one("Peraturan Daerah Kabupaten 1/2010").reg_type,
        Some("PERATURAN DAERAH KABUPATEN")
    );
}

#[test]
fn pp_and_perpres_are_never_confused() {
    assert_eq!(one("PP 76/2016").reg_type, Some("PERATURAN PEMERINTAH"));
    assert_eq!(
        one("Peraturan Presiden 76 Tahun 2016").reg_type,
        Some("PERATURAN PRESIDEN")
    );
}

#[test]
fn a_tier_word_far_from_the_number_is_not_claimed() {
    let found = one("apakah pemerintah daerah wajib melapor sesuai aturan nomor 12 tahun 2011");
    assert_eq!(found.reg_type, None, "{found:?}");
}

#[test]
fn a_conceptual_query_yields_no_identifier() {
    assert!(extract("sanksi administrasi berupa denda di bidang cukai").is_empty());
    assert!(extract("apa itu wajib pajak").is_empty());
}

#[test]
fn a_bare_number_is_not_an_identifier() {
    assert!(extract("pasal 9").is_empty());
    assert!(extract("26").is_empty());
}

#[test]
fn a_bare_year_is_not_an_identifier() {
    assert!(extract("peraturan tahun 2009").is_empty());
}

#[test]
fn several_references_in_one_query_are_all_found() {
    let ids = extract("bandingkan UU 28/2007 dengan PP 26 tahun 2009");
    assert_eq!(ids.len(), 2);
    assert_eq!(ids[0].number, "28");
    assert_eq!(ids[1].number, "26");
}

#[test]
fn the_same_reference_written_twice_is_reported_once() {
    let ids = extract("UU 28/2007 dan juga 28 tahun 2007");
    assert_eq!(ids.len(), 1);
    // The tier survives even though the second mention omitted it.
    assert_eq!(ids[0].reg_type, Some("UNDANG-UNDANG"));
}

#[test]
fn a_tier_stated_only_on_the_second_mention_is_still_kept() {
    let ids = extract("aturan 28 tahun 2007, maksud saya UU 28/2007");
    assert_eq!(ids.len(), 1);
    assert_eq!(ids[0].reg_type, Some("UNDANG-UNDANG"));
}

#[test]
fn mixed_case_and_punctuation_do_not_matter() {
    assert_eq!(one("UU No.28/2007 tentang pajak").number, "28");
}

// ---------------------------------------------------------------------------
// Vocabularies
// ---------------------------------------------------------------------------

/// A file in which nothing is declared.
fn empty_file() -> VocabularyFile {
    VocabularyFile {
        comment: None,
        note: None,
        authority: TextMap::new(),
        max_tier: default_max_tier(),
        structural: vec![],
        structural_default: default_structural(),
        stopwords: vec![],
        min_term_chars: default_min_term(),
    }
}

fn rule(label: &str, field: &str, prefix: bool, score: f32) -> StructuralRuleFile {
    StructuralRuleFile {
        note: None,
        label: label.to_owned(),
        field: field.to_owned(),
        prefix,
        score: s(score),
    }
}

fn tiers(v: &[(&str, u8)]) -> TextMap<u8> {
    let mut out = TextMap::new();
    for (label, tier) in v {
        out.insert((*label).to_owned(), *tier);
    }
    out
}

/// Whether a vocabulary is the built-in one.
fn is_builtin(v: &Vocabulary) -> bool {
    let builtin = Vocabulary::id_regulation().expect("compiles");
    let close = builtin
        .structural
        .iter()
        .zip(&v.structural)
        .map(|(a, b)| (f(a.score) - f(b.score)).abs() < f32::EPSILON)
        .chain(std::iter::repeat(false))
        .take(builtin.structural.len())
        .collect();
    v.is_builtin(&builtin, &close)
}

#[test]
fn a_corpus_that_is_not_indonesian_can_declare_its_own_ladder() {
    let v = VocabularyFile {
        authority: tiers(&[
            ("INTERNET STANDARD", 5),
            ("PROPOSED STANDARD", 3),
            ("INFORMATIONAL", 1),
        ]),
        max_tier: s(5.0),
        structural: vec![
            rule("APPENDIX", "either", false, 0.0),
            rule("SECTION", "article", true, 1.0),
        ],
        structural_default: s(0.5),
        stopwords: vec!["the".to_owned(), "and".to_owned(), "for".to_owned()],
        min_term_chars: 2,
        ..empty_file()
    }
    .load()
    .expect("valid");

    assert_eq!(v.tier("Internet Standard"), Some(5));
    assert_eq!(v.tier("PROPOSED STANDARD"), Some(3));
    assert_eq!(v.tier("UNDANG-UNDANG"), None, "no Indonesian leaks in");
    assert!(!is_builtin(&v));

    let appendix = Facets { article: Some("Appendix B"), ..Facets::default() };
    let section = Facets { article: Some("Section 4.2"), ..Facets::default() };
    assert!(f(structural(&section, &v)) > f(structural(&appendix, &v)));
}

#[test]
fn authority_normalises_against_the_declared_scale_not_this_corpus() {
    let v = VocabularyFile {
        authority: tiers(&[("INTERNET STANDARD", 5)]),
        max_tier: s(5.0),
        ..empty_file()
    }
    .load()
    .expect("valid");
    let facets = Facets { regulation_type: Some("INTERNET STANDARD"), ..Facets::default() };
    // Five of five.
    assert_eq!(authority(&facets, &v), Term::Tier { tier: 5, top: s(5.0) });
}

#[test]
fn an_unrecognised_field_is_refused_rather_than_widened() {
    let err = VocabularyFile {
        structural: vec![rule("X", "heading", false, 0.5)],
        ..empty_file()
    }
    .load()
    .expect_err("must not load");
    assert!(matches!(err, VocabError::BadField { .. }), "{err:?}");
    assert!(err.message("").contains("heading"), "{err:?}");
}

#[test]
fn a_score_outside_its_own_units_is_refused() {
    let err = VocabularyFile {
        structural: vec![rule("X", "either", false, 8.0)],
        ..empty_file()
    }
    .load()
    .expect_err("8.0 is not a factor score");
    assert!(matches!(err, VocabError::BadScore { .. }));
    assert_eq!(
        err,
        VocabError::BadScore {
            label: "X".to_owned(),
            why: ScoreFault::RuleOutsideUnit(s(8.0)),
        }
    );
}

#[test]
fn stopwords_are_lowercased_because_the_splitter_compares_lowercase() {
    let v = VocabularyFile {
        stopwords: vec!["THE".to_owned(), "And".to_owned()],
        ..empty_file()
    }
    .load()
    .expect("valid");
    assert_eq!(v.stopwords, vec!["the".to_owned(), "and".to_owned()]);
}

#[test]
fn an_empty_file_is_a_vocabulary_that_scores_nothing() {
    let v = empty_file().load().expect("valid");
    assert!(v.authority.is_empty() && v.structural.is_empty());
    assert_eq!(v.missing_for(&Weights::fitted()), vec!["authority", "structural"]);
}

#[test]
fn the_builtin_vocabulary_reports_itself_as_builtin() {
    assert!(is_builtin(&Vocabulary::id_regulation().expect("compiles")));
}

#[test]
fn the_defaults_of_a_file_are_the_declared_ones() {
    assert_eq!(default_max_tier(), s(10.0));
    assert_eq!(default_min_term(), 3);
    assert_eq!(default_field(), "either");
    let scale = VocabularyFile { max_tier: s(0.0), ..empty_file() }.load();
    assert!(matches!(
        scale.expect_err("a scale of zero"),
        VocabError::BadScore { why: ScoreFault::NotPositive(_), .. }
    ));
    let default = VocabularyFile { structural_default: s(-1.0), ..empty_file() }.load();
    assert!(matches!(
        default.expect_err("a default below zero"),
        VocabError::BadScore { why: ScoreFault::OutsideUnit(_), .. }
    ));
    assert!(VocabError::Malformed("expected value".to_owned())
        .message("")
        .contains("expected value"));
}

/// What a corpus of Indonesian regulation declares of itself.
fn declared() -> CorpusVocabulary {
    CorpusVocabulary {
        authority: tiers(&[("undang-undang", 8), ("peraturan bupati", 2)]),
        annex: vec!["LAMPIRAN".to_owned()],
        operative: vec!["PASAL\\s".to_owned()],
        stopwords: vec!["YANG".to_owned()],
        ..CorpusVocabulary::default()
    }
}

#[test]
fn a_corpus_declares_its_own_ladder() {
    let v = declared().load().expect("compiles");
    assert_eq!(v.tier("UNDANG-UNDANG"), Some(8));
    assert_eq!(v.tier("PERATURAN BUPATI"), Some(2));
    assert_eq!(v.stopwords, ["yang"]);
    let of = |article: &'static str| {
        f(structural(&Facets { article: Some(article), ..Facets::default() }, &v))
    };
    assert!(of("LAMPIRAN I") < of("Pasal 5"));
    // Every rule of a corpus is anchored: a marker inside prose is no heading.
    assert!(of("Ketentuan Pasal 9") < of("Pasal 9"));
}

#[test]
fn a_numbered_section_is_a_pattern_and_not_a_label() {
    let v = CorpusVocabulary {
        operative: vec!["SECTION".to_owned(), "\\d+(\\.\\d+)*\\.?\\s".to_owned()],
        annex: vec!["APPENDIX".to_owned()],
        ..CorpusVocabulary::default()
    }
    .load()
    .expect("compiles");
    let of = |article: &'static str| {
        f(structural(&Facets { article: Some(article), ..Facets::default() }, &v))
    };
    assert_eq!(of("Section 4.2"), 1.0);
    assert_eq!(of("4.2 Retention of records"), 1.0);
    assert!(of("Appendix B") < 1.0);
    // It declares no hierarchy, so authority cannot act; its ladder can.
    assert_eq!(v.missing_for(&Weights::fitted()), vec!["authority"]);
}

#[test]
fn a_pattern_a_corpus_declares_wrongly_is_named() {
    let err = CorpusVocabulary { annex: vec!["[".to_owned()], ..CorpusVocabulary::default() }
        .load()
        .expect_err("does not compile");
    assert!(matches!(&err, VocabError::BadPattern { label } if label == "["), "{err:?}");
    assert!(err.message("").contains('['));
}

#[test]
fn a_separator_parts_the_tokens_of_two_texts() {
    let (a, b) = ("Wajib Pajak_2", "sanksi 9% dan x");
    let mut both = tokenize(a);
    both.extend(tokenize(b));
    for separator in [' ', '.', '-', '\u{2014}'] {
        assert_eq!(tokenize(&format!("{a}{separator}{b}")), both);
    }
    assert_eq!(both, ["wajib", "pajak_2", "sanksi", "dan"]);
    // An underscore joins, and is no separator.
    assert_eq!(tokenize("pajak_sanksi"), ["pajak_sanksi"]);
}

#[test]
fn labels_of_ordinary_length_always_compile() {
    let longest = "(".repeat(100);
    let v = VocabularyFile {
        structural: vec![rule(&longest, "either", true, 0.5), rule("A.B*", "article", false, 1.0)],
        ..empty_file()
    }
    .load()
    .expect("a text of that length compiles");
    assert_eq!(v.structural.len(), 2);

    let v = CorpusVocabulary {
        annex: vec!["lampiran".to_owned()],
        operative: vec!["pasal".to_owned(), "ayat".to_owned()],
        ..CorpusVocabulary::default()
    }
    .load()
    .expect("plain words compile");
    assert_eq!(v.structural.len(), 3);
}

#[test]
fn a_prefix_stands_at_the_start_behind_white_space() {
    let v = VocabularyFile {
        structural: vec![rule("Section", "article", true, 1.0), rule("annex", "article", false, 0.0)],
        structural_default: s(0.5),
        ..empty_file()
    }
    .load()
    .expect("valid");
    let of = |article: &'static str| {
        f(structural(&Facets { article: Some(article), ..Facets::default() }, &v))
    };
    assert_eq!(of("SECTION 4"), 1.0);
    assert_eq!(of("  section 4"), 1.0);
    assert_eq!(of("Subsection 4"), 0.5);
    assert_eq!(of("the Annex to section 4"), 0.0);
}

#[test]
fn a_file_can_declare_the_built_in_ladder() {
    let v = VocabularyFile {
        structural: vec![
            rule("LAMPIRAN", "either", false, 0.0),
            rule("PENJELASAN", "chapter", false, 0.3),
            rule("PASAL", "article", true, 1.0),
        ],
        ..empty_file()
    }
    .load()
    .expect("valid");
    let builtin = Vocabulary::id_regulation().expect("compiles");
    assert_eq!(v.structural.len(), builtin.structural.len());
    for (a, b) in v.structural.iter().zip(&builtin.structural) {
        assert!(a.same_as(b, a.score == b.score), "{a:?} {b:?}");
    }
}

#[test]
fn a_rule_that_did_not_compile_is_refused_by_its_label() {
    let made = StructuralRule::new("ayat", Field::Either, s(1.0), true);
    assert_eq!(declared_rule("ayat", made).expect("compiles").pattern.as_str(), "(?i)^\\s*(?:ayat)");
    let made = StructuralRule::new("(", Field::Either, s(1.0), true);
    let err = declared_rule("(", made).expect_err("does not compile");
    assert_eq!(err, VocabError::BadPattern { label: "(".to_owned() });
}
