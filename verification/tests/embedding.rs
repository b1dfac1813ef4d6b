//! What is accepted from an embedding provider, and the spaces it answers in.

use vera::embed::provider::{canary_check, describe_http, describe_space, endpoint_of, first_embedding, validate_against, validate_response, EmbedError, StubProvider};
use vera::score::Score;
use vera::space::config::{Config, EmbeddingSpace};

fn s(x: f32) -> Score {
    Score { bits: x.to_bits() }
}

fn vector(x: f32, n: usize) -> Vec<Score> {
    vec![s(x); n]
}

const MODEL: &str = "qwen/qwen3-embedding-0.6b";
const DIM: usize = 1024;

fn space_1024() -> EmbeddingSpace {
    EmbeddingSpace::qwen3_06b()
}

/// The numbers that a text's draws stand for.
fn vector_for(text: &str, dim: usize) -> Vec<f32> {
    StubProvider::draws_for(text, dim)
        .iter()
        .map(|h| ((*h as f64 / (1u64 << 53) as f64) * 2.0 - 1.0) as f32)
        .collect()
}

#[test]
fn a_different_model_fails_closed_rather_than_degrading() {
    let e = validate_against(MODEL, DIM, "openai/text-embedding-3-large", vector(0.0, DIM))
        .unwrap_err();
    assert!(matches!(e, EmbedError::ModelMismatch { .. }), "{e:?}");
    assert!(e.message("", "").contains("would not share a space"));
}

#[test]
fn a_truncated_vector_is_rejected() {
    let e = validate_against(MODEL, DIM, MODEL, vector(0.0, 512)).unwrap_err();
    assert!(matches!(e, EmbedError::DimensionMismatch { expected: DIM, got: 512 }));
    assert_eq!(e.message("", ""), "provider returned 512 dimensions, expected 1024");
}

#[test]
fn an_empty_response_is_rejected() {
    let e = validate_against(MODEL, DIM, MODEL, vec![]).unwrap_err();
    assert!(matches!(e, EmbedError::Empty));
    assert_eq!(e.message("", ""), "provider returned no embedding for the query");
}

#[test]
fn the_corpuss_own_space_passes() {
    assert!(validate_against(MODEL, DIM, MODEL, vector(0.5, DIM)).is_ok());
}

#[test]
fn stub_values_stay_in_a_plausible_embedding_range() {
    let v = vector_for("anything", DIM);
    assert!(v.iter().all(|x| (-1.0..=1.0).contains(x)));
}

#[test]
fn ac_03_a_provider_serving_another_space_fails_closed() {
    // The corpus's own space is accepted.
    assert!(validate_against(MODEL, DIM, MODEL, vector(0.1, DIM)).is_ok());

    // A different model produces vectors in a different space.
    let mismatch =
        validate_against(MODEL, DIM, "openai/text-embedding-3-large", vector(0.1, DIM)).unwrap_err();
    assert!(matches!(mismatch, EmbedError::ModelMismatch { .. }));

    // The right model, a truncated vector.
    let truncated = validate_against(MODEL, DIM, MODEL, vector(0.1, 512)).unwrap_err();
    assert!(matches!(truncated, EmbedError::DimensionMismatch { expected: DIM, got: 512 }));
}

#[test]
fn lib_a_different_model_fails_closed_rather_than_degrading() {
    let space = space_1024();
    let e = validate_response(&space, "openai/text-embedding-3-large", vector(0.0, space.dim))
        .unwrap_err();
    assert!(matches!(e, EmbedError::ModelMismatch { .. }), "{e:?}");
    assert!(e.message("", "").contains("would not share a space"));
}

#[test]
fn a_wrong_width_vector_is_rejected_against_the_configured_space() {
    // 4096 is wrong here: the configured corpus is 1024.
    let space = space_1024();
    let e = validate_response(&space, &space.model_id, vector(0.0, 4096)).unwrap_err();
    assert!(matches!(e, EmbedError::DimensionMismatch { expected: 1024, got: 4096 }));
}

#[test]
fn lib_an_empty_response_is_rejected() {
    let space = space_1024();
    assert!(matches!(
        validate_response(&space, &space.model_id, vec![]).unwrap_err(),
        EmbedError::Empty
    ));
}

#[test]
fn the_configured_model_at_the_configured_width_passes() {
    let space = space_1024();
    assert!(validate_response(&space, &space.model_id, vector(0.5, 1024)).is_ok());
}

#[test]
fn a_vector_that_passes_is_handed_on_unchanged() {
    let v: Vec<Score> = (0..DIM).map(|i| s(i as f32)).collect();
    let back = validate_against(MODEL, DIM, MODEL, v.clone()).unwrap();
    assert_eq!(back, v);
}

#[test]
fn the_hash_is_the_published_one() {
    // The offset basis alone, then the published values of one and six letters.
    assert_eq!(StubProvider::hash(0, b""), 0xcbf2_9ce4_8422_2325);
    assert_eq!(StubProvider::hash(0, b"a"), 0xaf63_dc4c_8601_ec8c);
    assert_eq!(StubProvider::hash(0, b"foobar"), 0x8594_4171_f739_67e8);
    assert_ne!(StubProvider::hash(1, b"a"), StubProvider::hash(0, b"a"));
}

#[test]
fn a_stub_draws_the_same_numbers_for_the_same_text() {
    let a = StubProvider::draws_for("ketentuan sanksi", DIM);
    assert_eq!(a, StubProvider::draws_for("ketentuan sanksi", DIM));
    assert_ne!(a, StubProvider::draws_for("tarif pajak", DIM));
    assert_eq!(a.len(), DIM);
    assert_eq!(StubProvider::draws_for("x", 4096).len(), 4096);
    assert_eq!(a[3], StubProvider::hash(3, "ketentuan sanksi".as_bytes()) >> 11);
}

#[test]
fn providers_say_what_they_are() {
    let p = StubProvider::new(MODEL, DIM);
    assert_eq!(p.model(), MODEL);
    assert_eq!(
        p.describe(),
        "stub(deterministic, model=qwen/qwen3-embedding-0.6b, dim=1024)"
    );
    assert_eq!(
        describe_http("http://127.0.0.1:8080", MODEL, DIM),
        "http(http://127.0.0.1:8080, model=qwen/qwen3-embedding-0.6b, dim=1024)"
    );
    assert_eq!(describe_space(&space_1024()), "qwen/qwen3-embedding-0.6b(dim=1024)");
    assert_eq!(endpoint_of("http://127.0.0.1:8080//"), "http://127.0.0.1:8080");
    assert_eq!(endpoint_of("/a/"), "/a");
    assert_eq!(endpoint_of("//"), "");
}

#[test]
fn the_first_embedding_is_the_querys() {
    assert_eq!(first_embedding(vec![]), Err(EmbedError::Empty));
    let two = vec![vector(0.25, 2), vector(0.5, 2)];
    assert_eq!(first_embedding(two), Ok(vector(0.25, 2)));
}

#[test]
fn the_canary_holds_width_before_cosine() {
    assert_eq!(canary_check(4, 4, s(0.9999), s(0.999)), Ok(s(0.9999)));
    assert_eq!(canary_check(4, 4, s(0.999), s(0.999)), Ok(s(0.999)));
    let e = canary_check(4, 4, s(0.5), s(0.999)).unwrap_err();
    assert_eq!(e, EmbedError::CanaryDrift { cosine: s(0.5), threshold: s(0.999) });
    assert_eq!(
        e.message("0.500000", "0.999000"),
        "startup canary: cosine 0.500000 against the stored reference is below 0.999000 · the provider has drifted out of the corpus space · refusing to serve"
    );
    assert_eq!(
        canary_check(3, 4, s(0.5), s(0.999)),
        Err(EmbedError::DimensionMismatch { expected: 4, got: 3 })
    );
    assert_eq!(
        EmbedError::Transport("timed out".to_owned()).message("", ""),
        "embedding provider transport: timed out"
    );
}

#[test]
fn defaults_describe_the_production_target() {
    let c = Config::default();
    assert_eq!(c.embedding.dim, 4096);
    assert_eq!(c.routing.clusters_probed, 5);
    assert_eq!(c.concurrency.max_concurrent, 4);
}

#[test]
fn a_matching_space_is_accepted() {
    assert!(EmbeddingSpace::qwen3_06b()
        .assert_matches(&EmbeddingSpace::qwen3_06b())
        .is_ok());
}

#[test]
fn a_width_mismatch_fails_closed() {
    let err = EmbeddingSpace::qwen3_8b()
        .assert_matches(&EmbeddingSpace::qwen3_06b())
        .unwrap_err();
    assert_eq!(err.field, "model_id");
    assert!(err.message().contains("would not share a space"));
}

#[test]
fn same_width_different_model_is_still_a_mismatch() {
    // Shapes agree and geometry does not, so nothing crashes.
    let mut corpus = EmbeddingSpace::qwen3_06b();
    corpus.model_id = "intfloat/multilingual-e5-large".to_owned();
    let err = EmbeddingSpace::qwen3_06b().assert_matches(&corpus).unwrap_err();
    assert_eq!(err.field, "model_id");
}

#[test]
fn normalization_disagreement_is_a_mismatch() {
    let mut corpus = EmbeddingSpace::qwen3_06b();
    corpus.normalized = false;
    let err = EmbeddingSpace::qwen3_06b().assert_matches(&corpus).unwrap_err();
    assert_eq!(err.field, "normalized");
}

#[test]
fn a_width_alone_is_a_mismatch_and_so_is_an_instruction() {
    let mut corpus = EmbeddingSpace::qwen3_06b();
    corpus.dim = 512;
    let err = EmbeddingSpace::qwen3_06b().assert_matches(&corpus).unwrap_err();
    assert_eq!(err.field, "dim");
    assert_eq!(err.expected, "512");
    assert_eq!(err.actual, "1024");
    let mut corpus = EmbeddingSpace::qwen3_06b();
    corpus.query_instruction = "Query: ".to_owned();
    let engine = EmbeddingSpace::qwen3_06b();
    let err = engine.assert_matches(&corpus).unwrap_err();
    assert_eq!(err.field, "query_instruction");
    assert_eq!(err.expected, "Query: ");
    assert_eq!(err.actual, engine.query_instruction);
    assert!(engine.assert_matches(&EmbeddingSpace::qwen3_06b()).is_ok());
}

#[test]
fn the_per_request_ceiling_does_not_depend_on_clusters_probed() {
    let mut c = Config::default();
    let five = c.per_request_ceiling_bytes(10_000);
    c.routing.clusters_probed = 50;
    assert_eq!(c.per_request_ceiling_bytes(10_000), five);
}

#[test]
fn the_worked_ram_budget_matches_the_documented_one() {
    let c = Config::default();
    let per_cluster = c.per_request_ceiling_bytes(10_000);
    assert_eq!(per_cluster, 10_000 * 4096 * 4);
    let peak = c.peak_ram_bytes(3_000_000_000, 10_000);
    assert!(peak < 4_000_000_000, "peak {peak} exceeded the 8 GB profile");
    assert_eq!(peak, 3_000_000_000 + 4 * per_cluster);
}

#[test]
fn a_1024_dim_corpus_needs_a_quarter_the_working_set() {
    let mut c = Config::default();
    c.embedding = EmbeddingSpace::qwen3_06b();
    assert_eq!(c.per_request_ceiling_bytes(10_000), 10_000 * 1024 * 4);
    assert_eq!(c.embedding.bytes_per_vector(), 4096);
}
