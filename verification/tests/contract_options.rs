//! What a caller may ask for, and what a registry offers.

use vera::contract::algorithms::{classic_composition, Algorithm, FactorEntry, Fault, Fitted, PriorBound, Registry, RegistryError, TransformSpec, DEFAULT_ALGORITHM};
use vera::contract::options::{AppliedOptions, Ceilings, Expansion, FactorWeights, Mode, ResolveError, SearchOptions};
use vera::score::Score;
use vera::textmap::TextMap;

fn s(x: f32) -> Score {
    Score { bits: x.to_bits() }
}

fn f(x: Score) -> f32 {
    f32::from_bits(x.bits)
}

const CEIL: Ceilings = Ceilings { top_k: 10, candidate_pool: 60 };

fn w() -> FactorWeights {
    FactorWeights {
        relevance_floor: s(0.3),
        authority: s(0.5),
        structural: s(0.25),
        temporal: s(0.0),
        completeness: s(0.0),
        topical: s(0.25),
    }
}

fn reg() -> Registry {
    Registry::builtin(w())
}

/// A registry with a second, unmeasured algorithm.
fn reg_plus() -> Registry {
    let mut r = Registry::builtin(w());
    r.algorithms.insert("sanction".to_owned(), sanction(None));
    r
}

fn sanction(fitted: Option<Fitted>) -> Algorithm {
    Algorithm {
        note: None,
        description: "Penalty and prohibition questions.".to_owned(),
        fitted,
        factors: FactorWeights { structural: s(0.5), ..w() },
        composition: None,
        expand: vec![Expansion::Siblings],
    }
}

fn plain(factors: FactorWeights) -> Algorithm {
    Algorithm {
        note: None,
        description: "d".to_owned(),
        fitted: None,
        factors,
        composition: None,
        expand: vec![],
    }
}

fn holding(name: &str, a: Algorithm) -> Registry {
    let mut r = Registry { comment: None, algorithms: TextMap::new() };
    r.algorithms.insert(name.to_owned(), a);
    r
}

/// The bound of an algorithm: one plus the sum of its weights.
fn bound_of(a: &Algorithm) -> f32 {
    1.0 + a.prior_weights().iter().map(|x| f(*x)).sum::<f32>()
}

fn bounds(r: &Registry) -> Vec<PriorBound> {
    (0..r.algorithms.len())
        .map(|i| {
            let bound = bound_of(r.algorithms.value(i));
            PriorBound { bound: s(bound), centi: (bound * 100.0).round() as u32 }
        })
        .collect()
}

fn validate(r: &Registry) -> Result<(), RegistryError> {
    r.validate(&bounds(r))
}

fn resolve(o: &SearchOptions) -> AppliedOptions {
    o.resolve(CEIL, &reg()).expect("resolves")
}

#[test]
fn passing_nothing_yields_the_measured_defaults() {
    let a = resolve(&SearchOptions::default());
    assert_eq!(a.mode, Mode::Hybrid);
    assert_eq!(a.top_k, 10);
    assert_eq!(a.candidate_pool, 60);
    assert_eq!(a.profile, DEFAULT_ALGORITHM);
    assert_eq!(a.factor_weights, w());
    assert!(!a.experimental);
    assert!(a.clamped.is_empty());
}

#[test]
fn a_caller_may_narrow_a_limit() {
    let a = resolve(&SearchOptions { top_k: Some(3), ..SearchOptions::default() });
    assert_eq!(a.top_k, 3);
    assert!(a.clamped.is_empty(), "narrowing is not clamping");
}

#[test]
fn a_caller_may_not_widen_one() {
    let a = resolve(&SearchOptions {
        top_k: Some(500),
        candidate_pool: Some(100_000),
        ..SearchOptions::default()
    });
    assert_eq!(a.top_k, 10);
    assert_eq!(a.candidate_pool, 60);
    assert_eq!(a.clamped.len(), 2, "{:?}", a.clamped);
}

#[test]
fn every_clamp_is_reported_not_silent() {
    // A caller asking for 500 and receiving 10 must see why without
    // reading the server's configuration.
    let a = resolve(&SearchOptions { top_k: Some(500), ..SearchOptions::default() });
    assert!(a.clamped[0].contains("500"), "{:?}", a.clamped);
    assert!(a.clamped[0].contains("10"), "{:?}", a.clamped);
}

#[test]
fn a_pool_smaller_than_the_answer_is_raised_to_it() {
    let a = resolve(&SearchOptions {
        top_k: Some(10),
        candidate_pool: Some(2),
        ..SearchOptions::default()
    });
    assert_eq!(a.candidate_pool, 10);
    assert!(!a.clamped.is_empty());
}

#[test]
fn zero_results_is_raised_rather_than_returning_nothing() {
    let a = resolve(&SearchOptions { top_k: Some(0), ..SearchOptions::default() });
    assert_eq!(a.top_k, 1);
}

#[test]
fn raw_weights_are_marked_experimental_and_echoed() {
    let mine = FactorWeights { authority: s(1.0), ..w() };
    let a = resolve(&SearchOptions { factor_weights: Some(mine), ..SearchOptions::default() });
    assert!(a.experimental);
    assert_eq!(a.factor_weights, mine, "the effective weights must be echoed");
}

#[test]
fn a_named_algorithm_supplies_its_own_weights() {
    let a = SearchOptions { profile: Some("sanction".to_owned()), ..SearchOptions::default() }
        .resolve(CEIL, &reg_plus())
        .expect("resolves");
    assert_eq!(a.profile, "sanction");
    assert!((f(a.factor_weights.structural) - 0.5).abs() < 1e-6);
}

#[test]
fn an_unfitted_algorithm_is_experimental_even_without_raw_weights() {
    // The same claim to the caller as raw weights, "nobody measured this
    // ranking", so it raises the same flag.
    let a = SearchOptions { profile: Some("sanction".to_owned()), ..SearchOptions::default() }
        .resolve(CEIL, &reg_plus())
        .expect("resolves");
    assert!(a.experimental);
}

#[test]
fn an_algorithms_own_expansions_survive_a_caller_passing_none() {
    let a = SearchOptions { profile: Some("sanction".to_owned()), ..SearchOptions::default() }
        .resolve(CEIL, &reg_plus())
        .expect("resolves");
    assert_eq!(a.expand, vec![Expansion::Siblings]);
}

#[test]
fn asking_for_an_expansion_twice_costs_what_asking_once_costs() {
    let a = SearchOptions {
        profile: Some("sanction".to_owned()),
        expand: Some(vec![Expansion::Siblings, Expansion::Siblings]),
        ..SearchOptions::default()
    }
    .resolve(CEIL, &reg_plus())
    .expect("resolves");
    assert_eq!(a.expand, vec![Expansion::Siblings]);
}

#[test]
fn an_unknown_algorithm_is_refused_rather_than_silently_defaulted() {
    let err = SearchOptions { profile: Some("sanctions".to_owned()), ..SearchOptions::default() }
        .resolve(CEIL, &reg_plus())
        .expect_err("a misspelled profile must not fall back");
    match err {
        ResolveError::UnknownProfile { ref available, .. } => {
            assert!(available.contains(&"sanction".to_owned()), "{available:?}");
        }
    }
    // The message alone has to be enough to correct the call.
    let msg = err.message();
    assert!(msg.contains("sanctions"), "{msg}");
    assert!(msg.contains("balanced"), "{msg}");
}

#[test]
fn the_semantic_mode_declares_itself_non_contributing() {
    assert!(Mode::Semantic.is_measured_empty());
    assert!(!Mode::Hybrid.is_measured_empty());
    assert!(!Mode::Keyword.is_measured_empty());
}

#[test]
fn a_fitted_block_is_what_makes_an_algorithm_offerable() {
    let mut r = reg_plus();
    assert_eq!(r.offered(), vec!["balanced"]);
    let fitted = Fitted {
        recall_at_5: s(0.60),
        recall_at_10: None,
        mrr: None,
        n: 44,
        harness: "dev_tools/eval/e2e.py".to_owned(),
        note: None,
    };
    r.algorithms.insert("sanction".to_owned(), sanction(Some(fitted)));
    assert_eq!(r.offered(), vec!["balanced", "sanction"]);
}

#[test]
fn raw_weights_are_written_out_as_their_own_composition() {
    let mine = FactorWeights { topical: s(0.75), ..w() };
    let a = resolve(&SearchOptions { factor_weights: Some(mine), ..SearchOptions::default() });
    assert_eq!(a.composition, classic_composition(&mine));
    assert_eq!(a.composition[4].name, "topical");
    assert_eq!(a.composition[4].weight, s(0.75));
}

#[test]
fn the_clamp_notes_say_what_was_asked_and_what_was_served() {
    let a = resolve(&SearchOptions {
        top_k: Some(500),
        candidate_pool: Some(2),
        ..SearchOptions::default()
    });
    assert_eq!(a.clamped.len(), 2, "{:?}", a.clamped);
    assert!(a.clamped[0].starts_with("top_k"), "{:?}", a.clamped);
    assert!(a.clamped[1].starts_with("candidate_pool"), "{:?}", a.clamped);
}

#[test]
fn the_builtin_registry_is_todays_behaviour_under_todays_name() {
    let r = reg();
    assert_eq!(r.names(), vec![DEFAULT_ALGORITHM]);
    assert_eq!(r.get(DEFAULT_ALGORITHM).expect("default").factors, w());
    validate(&r).expect("the builtin registry must be valid");
}

#[test]
fn a_minimal_file_parses_and_validates() {
    let r = holding("balanced", plain(w()));
    validate(&r).expect("valid");
    assert_eq!(r.get("balanced").expect("balanced").factors, w());
}

#[test]
fn a_registry_without_the_default_cannot_serve() {
    let r = holding("sanction", plain(w()));
    assert_eq!(validate(&r), Err(RegistryError::MissingDefault));
}

#[test]
fn a_prior_wider_than_the_pool_fails_the_load_not_a_review() {
    let r = holding(
        "balanced",
        plain(FactorWeights {
            authority: s(1.0),
            structural: s(0.25),
            temporal: s(0.0),
            completeness: s(1.0),
            topical: s(0.5),
            ..w()
        }),
    );
    let err = validate(&r).expect_err("3.75x must not load");
    assert!(matches!(err, RegistryError::PriorTooWide { bound_centi: 375, .. }), "{err:?}");
    // The operator must be able to act on the message without the source.
    let msg = err.message("");
    assert!(msg.contains("3.75x"), "{msg}");
    assert!(msg.contains("2.00x"), "{msg}");
}

#[test]
fn the_shipped_weights_sit_exactly_on_the_bound() {
    let a = reg();
    let bound = bound_of(a.get(DEFAULT_ALGORITHM).expect("default"));
    assert!((bound - 2.00).abs() < 1e-6, "{bound}");
}

#[test]
fn a_bound_just_past_two_is_refused() {
    let r = reg();
    let two = PriorBound { bound: s(2.0), centi: 200 };
    assert_eq!(r.validate(&vec![two]), Ok(()));
    let past = PriorBound { bound: Score { bits: 2.0f32.to_bits() + 1 }, centi: 200 };
    assert_eq!(
        r.validate(&vec![past]),
        Err(RegistryError::PriorTooWide { name: "balanced".to_owned(), bound_centi: 200 })
    );
}

#[test]
fn an_unfitted_algorithm_loads_but_is_not_offered() {
    let mut r = reg();
    r.algorithms.insert(
        "guess".to_owned(),
        plain(FactorWeights {
            authority: s(0.2),
            structural: s(0.0),
            topical: s(0.0),
            ..w()
        }),
    );
    validate(&r).expect("valid");
    assert_eq!(r.names(), vec!["balanced", "guess"]);
    assert_eq!(r.offered(), vec!["balanced"], "unfitted must not be offered");
    assert!(r.get("guess").is_some(), "still reachable by name");
}

#[test]
fn a_name_that_cannot_be_a_schema_token_is_refused() {
    for bad in ["Balanced", "by authority", "auth-weighted", ""] {
        // MissingDefault also fires; either way it does not load.
        let r = holding(bad, plain(w()));
        assert!(validate(&r).is_err(), "`{bad}` must not load");
        // Beside a default, the name itself is what fails.
        let mut beside = reg();
        beside.algorithms.insert(bad.to_owned(), plain(w()));
        let err = validate(&beside).expect_err("a bad name");
        assert!(matches!(err, RegistryError::BadName { .. }), "{err:?}");
        assert!(err.message("").contains("is unusable"));
    }
}

#[test]
fn a_floor_outside_its_own_units_is_refused() {
    let r = holding("balanced", plain(FactorWeights { relevance_floor: s(30.0), ..w() }));
    let err = validate(&r).expect_err("30.0 is not a share");
    assert!(matches!(err, RegistryError::BadWeight { field: "relevance_floor", .. }));
    assert!(err.message("30").contains("30 is outside 0.0..=1.0"));
}

#[test]
fn a_weight_that_is_negative_or_no_number_is_refused() {
    let r = holding("balanced", plain(FactorWeights { topical: s(-0.5), ..w() }));
    assert_eq!(
        validate(&r),
        Err(RegistryError::BadWeight {
            name: "balanced".to_owned(),
            field: "topical",
            fault: Fault::Negative(s(-0.5)),
        })
    );
    let r = holding("balanced", plain(FactorWeights { temporal: s(f32::INFINITY), ..w() }));
    let err = validate(&r).expect_err("no number");
    assert!(matches!(
        err,
        RegistryError::BadWeight { field: "temporal", fault: Fault::NotFinite(_), .. }
    ));
    assert_eq!(
        err.message("inf"),
        "algorithm `balanced` field `temporal` · inf is not a finite number"
    );
}

fn entry(name: &str, variable: &str, transform: TransformSpec, weight: f32) -> FactorEntry {
    FactorEntry {
        name: name.to_owned(),
        variable: variable.to_owned(),
        transform,
        weight: s(weight),
    }
}

fn composed(entries: Vec<FactorEntry>) -> Result<(), RegistryError> {
    let r = holding("balanced", Algorithm { composition: Some(entries), ..plain(w()) });
    validate(&r)
}

fn fault_of(r: Result<(), RegistryError>) -> Fault {
    match r {
        Err(RegistryError::BadWeight { field: "composition", fault, .. }) => fault,
        other => panic!("{other:?}"),
    }
}

#[test]
fn a_composition_is_checked_factor_by_factor() {
    assert_eq!(fault_of(composed(vec![])), Fault::Empty);
    assert_eq!(
        fault_of(composed(vec![entry("  ", "year", TransformSpec::Range, 0.1)])),
        Fault::Unnamed
    );
    assert_eq!(
        fault_of(composed(vec![
            entry("a", "year", TransformSpec::Range, 0.1),
            entry("a", "body", TransformSpec::Present, 0.1),
        ])),
        Fault::Twice("a".to_owned())
    );
    assert_eq!(
        fault_of(composed(vec![entry("a", "year", TransformSpec::Range, -0.1)])),
        Fault::FactorWeight { factor: "a".to_owned(), weight: s(-0.1) }
    );
    assert_eq!(
        fault_of(composed(vec![entry("a", "regulaton_type", TransformSpec::Authority, 0.1)])),
        Fault::Variable { factor: "a".to_owned(), variable: "regulaton_type".to_owned() }
    );
    assert_eq!(
        fault_of(composed(vec![entry("a", "number:", TransformSpec::Range, 0.1)])),
        Fault::Variable { factor: "a".to_owned(), variable: "number:".to_owned() }
    );
    assert_eq!(
        fault_of(composed(vec![entry(
            "a",
            "body_len",
            TransformSpec::Saturate { at: s(0.0) },
            0.1
        )])),
        Fault::Shape { factor: "a".to_owned(), what: "saturate.at", value: s(0.0) }
    );
    assert!(composed(vec![
        entry("a", "number:citation_in_degree", TransformSpec::Saturate { at: s(20.0) }, 0.4),
        entry("b", "text:court", TransformSpec::Present, 0.2),
    ])
    .is_ok());
}

#[test]
fn a_bound_is_taken_from_the_form_that_runs() {
    // The five-term weights would pass; the composition is what ranks.
    let r = composed(vec![entry("a", "year", TransformSpec::Range, 1.5)]);
    assert_eq!(
        r,
        Err(RegistryError::PriorTooWide { name: "balanced".to_owned(), bound_centi: 250 })
    );
}

#[test]
fn a_malformed_registry_carries_the_parsers_words() {
    assert_eq!(
        RegistryError::Malformed("unknown field `weights`".to_owned()).message(""),
        "algorithm registry did not parse · unknown field `weights`"
    );
    assert!(RegistryError::MissingDefault.message("").contains("defines no `balanced`"));
}
