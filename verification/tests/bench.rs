//! What a benchmark measures, and the corpus it can make for itself.

use std::collections::HashSet;
use vera::bench::args::{flag, parsed, probe_list, required};
use vera::bench::metrics::{corpus_rows, recall_at_k, reciprocal_rank, routing_recall, top1_hit, Home, Latencies, Share, StageTimings, StageTotals};
use vera::bench::run::{command_of, latencies, rows_per_query, run_plan, synth_plan, top1_share, trial, Command, RunPlan};
use vera::bench::synth::{body_of, identifier_of, opening_words, pick_term, row_of, zipf_terms, IngestRow, SynthConfig, Vocabulary};
use vera::contract::chunk::Domain;
use vera::numbers::{parse_unsigned, read_signed, read_unsigned, NumberFault};
use vera::score::Score;
use vera::space::profile::{keyword_metrics_are_representative, KeywordFigures, ProfileBuilder, ProfileCounts};

fn s(x: f32) -> Score {
    Score { bits: x.to_bits() }
}

fn ids(v: &[&str]) -> Vec<String> {
    v.iter().map(|x| (*x).to_owned()).collect()
}

fn share(x: Share) -> f32 {
    if x.of == 0 {
        1.0
    } else {
        x.found as f32 / x.of as f32
    }
}

/// Durations in milliseconds, as nanoseconds.
fn ms(v: &[u64]) -> Vec<u64> {
    v.iter().map(|x| x * 1_000_000).collect()
}

fn shown(nanos: u64) -> f64 {
    nanos as f64 / 1e6
}

#[test]
fn percentiles_come_from_observed_values_only() {
    let l = Latencies::from_durations(ms(&(1..=100).collect::<Vec<_>>()));
    assert!((shown(l.p50()) - 50.0).abs() < 1e-6);
    assert!((shown(l.p95()) - 95.0).abs() < 1e-6);
    assert!((shown(l.p99()) - 99.0).abs() < 1e-6);
    assert!((shown(l.max()) - 100.0).abs() < 1e-6);
}

#[test]
fn a_single_sample_is_every_percentile() {
    let l = Latencies::from_durations(ms(&[7]));
    assert!((shown(l.p50()) - 7.0).abs() < 1e-6);
    assert!((shown(l.p99()) - 7.0).abs() < 1e-6);
}

#[test]
fn an_empty_sample_reports_zero_rather_than_panicking() {
    let l = Latencies::from_durations(vec![]);
    assert_eq!(l.p50(), 0);
    assert!(l.is_empty());
}

#[test]
fn unsorted_input_is_sorted_before_measuring() {
    let l = Latencies::from_durations(ms(&[50, 1, 10]));
    assert!((shown(l.p50()) - 10.0).abs() < 1e-6);
    assert_eq!(l.len(), 3);
    assert_eq!(l.total(), 61_000_000);
}

#[test]
fn recall_counts_the_baseline_results_that_survived_routing() {
    let baseline = ids(&["a", "b", "c", "d"]);
    let of = |v: &[&str]| share(recall_at_k(&ids(v), &baseline, 4));
    assert!((of(&["a", "b", "c", "d"]) - 1.0).abs() < 1e-6);
    assert!((of(&["a", "b", "x", "y"]) - 0.5).abs() < 1e-6);
    assert!(of(&["x", "y"]).abs() < 1e-6);
}

#[test]
fn recall_ignores_order_within_k() {
    let baseline = ids(&["a", "b", "c"]);
    assert!((share(recall_at_k(&ids(&["c", "b", "a"]), &baseline, 3)) - 1.0).abs() < 1e-6);
}

#[test]
fn an_empty_baseline_is_perfect_recall_not_zero() {
    assert!((share(recall_at_k(&ids(&["a"]), &vec![], 10)) - 1.0).abs() < 1e-6);
}

fn home(id: &str, cluster: i32) -> Home {
    Home { id: id.to_owned(), cluster }
}

#[test]
fn routing_recall_separates_a_routing_miss_from_a_ranking_miss() {
    let baseline = ids(&["a", "b"]);
    let homes = vec![home("a", 1), home("b", 2)];

    // `b` sat in a cluster that was not probed.
    assert!((share(routing_recall(&baseline, &homes, &vec![1], 2)) - 0.5).abs() < 1e-6);

    // Both clusters probed: anything lost after this is ranking, not routing.
    assert!((share(routing_recall(&baseline, &homes, &vec![1, 2], 2)) - 1.0).abs() < 1e-6);
}

#[test]
fn routing_recall_counts_an_unknown_chunk_as_unreachable() {
    let baseline = ids(&["ghost"]);
    assert!(share(routing_recall(&baseline, &vec![], &vec![], 1)).abs() < 1e-6);
}

#[test]
fn reciprocal_rank_rewards_finding_the_best_answer_early() {
    let baseline = ids(&["a"]);
    let of = |v: &[&str]| share(reciprocal_rank(&ids(v), &baseline));
    assert!((of(&["a", "b"]) - 1.0).abs() < 1e-6);
    assert!((of(&["b", "a"]) - 0.5).abs() < 1e-6);
    assert!(of(&["x", "y"]).abs() < 1e-6);
}

#[test]
fn top1_tracks_the_single_most_important_result() {
    assert!(top1_hit(&ids(&["a", "z"]), &ids(&["a", "b"])));
    assert!(!top1_hit(&ids(&["z", "a"]), &ids(&["a", "b"])));
    assert!(!top1_hit(&vec![], &ids(&["a"])), "found nothing at all");
    assert!(top1_hit(&vec![], &vec![]), "nothing to find");
}

#[test]
fn stages_add_up() {
    let mut t = StageTotals::default();
    let one = StageTimings {
        route_domain: 1,
        route_cluster: 2,
        leaf_dense: 3,
        leaf_keyword: 4,
        exact_path: 5,
        fuse: 6,
        hydrate: 7,
        total: 30,
        rows_scanned: 100,
    };
    t.add(&one);
    t.add(&one);
    assert_eq!(t.leaf_dense, 6);
    assert_eq!(t.total, 60);
    let rows = |n: i64| Domain { id: "d".into(), description: String::new(), row_count: n };
    assert_eq!(corpus_rows(&vec![rows(3), rows(i64::MAX)]), 3 + i128::from(i64::MAX));
}

// ---------------------------------------------------------------------------
// Arguments
// ---------------------------------------------------------------------------

#[test]
fn flags_are_read_from_anywhere_in_the_line() {
    let args = ids(&["run", "--corpus", "c.db", "--k", "12", "--probe"]);
    assert_eq!(flag(&args, "--corpus").as_deref(), Some("c.db"));
    assert_eq!(flag(&args, "--probe"), None);
    assert_eq!(required(&args, "--out"), Err("missing required flag --out".to_owned()));
    assert_eq!(parsed(&args, "--k", u64::MAX, 10), Ok(12));
    assert_eq!(parsed(&args, "--queries", u64::MAX, 100), Ok(100));
    let bad = ids(&["--k", "twelve"]);
    assert_eq!(
        parsed(&bad, "--k", u64::MAX, 10),
        Err("--k: invalid digit found in string".to_owned())
    );
    assert_eq!(probe_list("1, 2,5"), Ok(vec![1, 2, 5]));
    assert_eq!(probe_list("1,,5"), Err(NumberFault::Empty));
}

#[test]
fn numbers_are_read_as_rust_reads_them() {
    for text in ["0", "42", "+7", "-1", "", "+", "007", "18446744073709551616", "4x"] {
        assert_eq!(read_unsigned(text, u64::MAX), text.parse::<u64>().ok(), "{text}");
        assert_eq!(read_signed(text), text.parse::<i64>().ok(), "{text}");
        match (parse_unsigned(text, u64::MAX), text.parse::<u64>()) {
            (Ok(a), Ok(b)) => assert_eq!(a, b),
            (Err(a), Err(b)) => assert_eq!(a.message(), b.to_string(), "{text}"),
            (a, b) => panic!("{text}: {a:?} {b:?}"),
        }
    }
    assert_eq!(read_signed("-9223372036854775808"), Some(i64::MIN));
    assert_eq!(read_signed("-9223372036854775809"), None);
}

// ---------------------------------------------------------------------------
// A synthetic corpus
// ---------------------------------------------------------------------------

/// A small deterministic source of draws.
struct Draws(u64);

impl Draws {
    fn next(&mut self) -> u64 {
        self.0 = self.0.wrapping_add(0x9e37_79b9_7f4a_7c15);
        let mut z = self.0;
        z = (z ^ (z >> 30)).wrapping_mul(0xbf58_476d_1ce4_e5b9);
        z = (z ^ (z >> 27)).wrapping_mul(0x94d0_49bb_1331_11eb);
        z ^ (z >> 31)
    }

    fn unit(&mut self) -> f32 {
        (self.next() >> 40) as f32 / (1u64 << 24) as f32
    }

    fn below(&mut self, n: usize) -> usize {
        (self.next() % n as u64) as usize
    }
}

/// A vocabulary with weights that fall with the rank.
fn zipf(size: usize, exponent: f32) -> Vocabulary {
    let size = size.max(1);
    let weights: Vec<f32> = (0..size).map(|r| ((r + 1) as f32).powf(-exponent)).collect();
    let total: f32 = weights.iter().sum();
    let mut running = 0.0f32;
    let mut cdf: Vec<Score> = weights
        .iter()
        .map(|w| {
            running += w / total;
            s(running.min(1.0))
        })
        .collect();
    if let Some(last) = cdf.last_mut() {
        *last = s(1.0);
    }
    Vocabulary::new(size, cdf).expect("the weights rise")
}

fn f(x: Score) -> f32 {
    f32::from_bits(x.bits)
}

fn generate(cfg: &SynthConfig) -> Vec<IngestRow> {
    let mut rng = Draws(cfg.seed);
    let vocab = zipf(cfg.vocabulary, f(cfg.zipf));
    let topics = cfg.topics.max(1);
    let topic_terms: Vec<Vec<usize>> = (0..topics)
        .map(|_| (0..cfg.topic_terms.max(1)).map(|_| vocab.sample(s(rng.unit()))).collect())
        .collect();
    (0..cfg.rows)
        .map(|i| {
            let topic = rng.below(topics);
            let terms = &topic_terms[topic];
            let picks = (0..cfg.body_tokens.max(1))
                .map(|_| {
                    let coin = s(rng.unit());
                    let of_topic = terms[rng.below(terms.len())];
                    pick_term(coin, of_topic, vocab.sample(s(rng.unit())))
                })
                .collect();
            row_of(i, topic, body_of(&vocab, &picks))
        })
        .collect()
}

fn cfg(rows: usize) -> SynthConfig {
    SynthConfig { rows, dim: 32, topics: 4, seed: 7, ..SynthConfig::default() }
}

fn profile(cfg: &SynthConfig) -> ProfileCounts {
    let mut b = ProfileBuilder::new();
    for r in &generate(cfg) {
        b.observe(&r.body, &r.source_url, r.identifier.as_deref());
    }
    b.finish()
}

fn mean_idf(p: &ProfileCounts) -> f32 {
    p.by_frequency.iter().map(|t| (p.rows as f32 / t.rows as f32).ln()).sum::<f32>()
        / p.by_frequency.len() as f32
}

/// Mean `ln(rows / df)`, each term counted as often as it is met.
fn mean_idf_weighted(p: &ProfileCounts) -> f32 {
    let total: f64 = p.by_frequency.iter().map(|t| t.rows as f64).sum();
    let sum: f64 = p
        .by_frequency
        .iter()
        .map(|t| t.rows as f64 * f64::from((p.rows as f32 / t.rows as f32).ln()))
        .sum();
    (sum / total) as f32
}

/// Least-squares slope of `ln(df)` on `ln(rank)` over the head.
fn zipf_slope(p: &ProfileCounts) -> f32 {
    let n = p.by_frequency.len().min(1_000);
    let points: Vec<(f64, f64)> = (0..n)
        .map(|i| ((i as f64 + 1.0).ln(), (p.by_frequency[i].rows as f64).max(1.0).ln()))
        .collect();
    let mean_x = points.iter().map(|(x, _)| x).sum::<f64>() / n as f64;
    let mean_y = points.iter().map(|(_, y)| y).sum::<f64>() / n as f64;
    let covariance: f64 = points.iter().map(|(x, y)| (x - mean_x) * (y - mean_y)).sum();
    let variance: f64 = points.iter().map(|(x, _)| (x - mean_x).powi(2)).sum();
    (covariance / variance) as f32
}

/// The share of rows that a query of eight terms is expected to reach.
fn query_reach(p: &ProfileCounts) -> f32 {
    let per_term = (-mean_idf_weighted(p)).exp().clamp(0.0, 1.0);
    1.0 - (1.0 - per_term).powi(8)
}

fn representative(p: &ProfileCounts) -> bool {
    keyword_metrics_are_representative(&KeywordFigures {
        vocabulary: p.by_frequency.len(),
        zipf_slope: s(zipf_slope(p)),
        reach: s(query_reach(p)),
    })
}

#[test]
fn the_generated_corpus_is_zipfian_and_its_keyword_numbers_transfer() {
    let p = profile(&SynthConfig { rows: 20_000, ..cfg(0) });
    assert!(zipf_slope(&p) < -0.5, "slope {}", zipf_slope(&p));
    assert!(mean_idf(&p) > 2.0, "mean idf {}", mean_idf(&p));
    assert!(representative(&p), "reach {}", query_reach(&p));
}

#[test]
fn a_uniform_vocabulary_reproduces_the_old_fixture_and_is_flagged() {
    let p = profile(&SynthConfig { rows: 20_000, vocabulary: 50, zipf: s(0.0), ..cfg(0) });
    assert!(p.by_frequency.len() <= 50);
    assert!(mean_idf(&p) < 2.0, "mean idf {}", mean_idf(&p));
    assert!(zipf_slope(&p) > -0.5, "slope {} · should be near flat", zipf_slope(&p));
    assert!(!representative(&p));
}

#[test]
fn zipf_sampling_concentrates_on_the_head_without_abandoning_the_tail() {
    let v = zipf(1_000, 1.0);
    let mut rng = Draws(11);
    let mut counts = vec![0usize; v.len()];
    for _ in 0..100_000 {
        counts[v.sample(s(rng.unit()))] += 1;
    }
    // Rank 1 is drawn far more often than rank 100.
    assert!(counts[0] > counts[99] * 10, "{} vs {}", counts[0], counts[99]);
    // The tail is reachable, or there would be no rare terms at all.
    assert!(counts[999] > 0, "the tail was never sampled");
}

#[test]
fn the_vocabulary_holds_exactly_the_requested_number_of_distinct_terms() {
    for size in [10usize, 500, 20_000] {
        let v = zipf(size, 1.0);
        assert_eq!(v.len(), size);
        let unique: HashSet<&str> = (0..size).map(|i| v.term(i)).collect();
        assert_eq!(unique.len(), size, "generated terms collided at size {size}");
    }
}

#[test]
fn topics_share_common_terms_and_differ_in_rare_ones() {
    let rows = generate(&SynthConfig { rows: 4_000, topics: 8, ..cfg(0) });
    let terms_of = |topic_url: &str| -> HashSet<String> {
        rows.iter()
            .filter(|r| r.source_url == topic_url)
            .flat_map(|r| r.body.split_whitespace().map(str::to_owned))
            .collect()
    };
    let a = terms_of("https://peraturan.example/doc-0.pdf");
    let b = terms_of("https://peraturan.example/doc-1.pdf");
    assert!(!a.is_empty() && !b.is_empty());
    let shared = a.intersection(&b).count();
    assert!(shared > 0, "topics share nothing");
    assert!(a.difference(&b).count() > shared / 4, "topics are lexically identical");
}

#[test]
fn ids_are_unique() {
    let rows = generate(&cfg(500));
    let unique: HashSet<_> = rows.iter().map(|r| &r.id).collect();
    assert_eq!(unique.len(), 500);
}

#[test]
fn generation_is_reproducible_for_a_seed() {
    assert_eq!(generate(&cfg(50)), generate(&cfg(50)));
}

#[test]
fn some_rows_carry_a_citable_identifier() {
    let rows = generate(&cfg(500));
    let with_id = rows.iter().filter(|r| r.identifier.is_some()).count();
    assert!(with_id > 0 && with_id < 500, "{with_id}");
}

#[test]
fn a_row_is_written_out_in_full() {
    let r = row_of(150, 7, "wajib pajak".to_owned());
    assert_eq!(
        r,
        IngestRow {
            id: "chunk-00000150".into(),
            body: "wajib pajak".into(),
            source_title: "Dokumen 7".into(),
            source_url: "https://peraturan.example/doc-7.pdf".into(),
            locator_page: Some(151),
            locator_section: Some("Pasal 61".into()),
            heading_path: None,
            identifier: Some("PERPRES 4/1997".into()),
        }
    );
    assert_eq!(identifier_of(151, 7), None);
}

#[test]
fn terms_are_composed_before_they_are_numbered() {
    let terms = zipf_terms(5_000);
    assert_eq!(terms[0], "wajib");
    assert_eq!(terms.len(), 5_000);
    assert!(terms.contains(&"mewajibkan".to_owned()));
    assert_eq!(zipf_terms(0).len(), 1);
}

#[test]
fn a_draw_falls_on_the_first_weight_it_does_not_exceed() {
    let v = Vocabulary::new(3, vec![s(0.5), s(0.75), s(1.0)]).expect("rises");
    assert_eq!(v.sample(s(0.0)), 0);
    assert_eq!(v.sample(s(0.5)), 0);
    assert_eq!(v.sample(s(0.6)), 1);
    assert_eq!(v.sample(s(2.0)), 2);
    assert_eq!(v.term(9), v.term(2));
    assert!(Vocabulary::new(3, vec![s(0.5), s(0.4), s(1.0)]).is_none());
    assert!(Vocabulary::new(3, vec![s(1.0)]).is_none());
}

#[test]
fn half_of_the_terms_come_from_the_topic() {
    assert_eq!(pick_term(s(0.49), 1, 2), 1);
    assert_eq!(pick_term(s(0.5), 1, 2), 2);
}

#[test]
fn a_query_is_the_opening_of_a_document() {
    assert_eq!(opening_words("  wajib \n pajak yang  terlambat", 2), "wajib pajak");
    assert_eq!(opening_words("wajib pajak", 8), "wajib pajak");
    assert_eq!(opening_words("wajib pajak", 0), "");
    assert_eq!(opening_words("", 8), "");
}

// ---------------------------------------------------------------------------
// Commands and sweeps
// ---------------------------------------------------------------------------

#[test]
fn the_first_argument_names_the_command() {
    assert_eq!(command_of(&ids(&["synth", "--out", "x"])), Command::Synth);
    assert_eq!(command_of(&ids(&["info"])), Command::Info);
    assert_eq!(command_of(&ids(&["run", "synth"])), Command::Run);
    assert_eq!(command_of(&ids(&["--help"])), Command::Usage);
    assert_eq!(command_of(&ids(&[])), Command::Usage);
}

#[test]
fn synth_reads_its_flags_and_keeps_the_rest() {
    let args = ids(&["--rows", "50", "--out", "c.json", "--seed", "7"]);
    let plan = synth_plan(&args, Ok(s(0.35)), Ok(s(0.7))).unwrap();
    assert_eq!(plan.out, "c.json");
    assert_eq!(plan.corpus, SynthConfig { rows: 50, seed: 7, ..SynthConfig::default() });
    assert_eq!((plan.per_cluster, plan.iters), (10_000, 15));
    let args = ids(&["--out", "c", "--per-cluster", "20", "--iters", "3"]);
    let plan = synth_plan(&args, Ok(s(0.35)), Ok(s(0.7))).unwrap();
    assert_eq!((plan.per_cluster, plan.iters), (20, 3));
    for flag in ["--per-cluster", "--iters"] {
        assert_eq!(
            synth_plan(&ids(&["--out", "c", flag, "many"]), Ok(s(0.1)), Ok(s(0.1))),
            Err(format!("{flag}: invalid digit found in string"))
        );
    }
    assert_eq!(
        synth_plan(&ids(&["--rows", "x"]), Ok(s(0.1)), Ok(s(0.1))),
        Err("missing required flag --out".to_owned())
    );
    // The first wrong flag is the one that is reported.
    let args = ids(&["--out", "c", "--seed", "-1", "--topics", ""]);
    assert_eq!(
        synth_plan(&args, Err("--spread: bad".into()), Ok(s(0.1))),
        Err("--topics: cannot parse integer from empty string".to_owned())
    );
    let args = ids(&["--out", "c", "--seed", "-1"]);
    assert_eq!(
        synth_plan(&args, Err("--spread: bad".into()), Ok(s(0.1))),
        Err("--spread: bad".to_owned())
    );
    assert_eq!(
        synth_plan(&args, Ok(s(0.1)), Ok(s(0.1))),
        Err("--seed: invalid digit found in string".to_owned())
    );
}

#[test]
fn run_reads_its_flags_and_has_defaults() {
    let plan = run_plan(&ids(&["--corpus", "c.json"]), Ok(s(0.15))).unwrap();
    assert_eq!(
        plan,
        RunPlan {
            corpus: "c.json".to_owned(),
            queries: 100,
            k: 10,
            jitter: s(0.15),
            seed: 12345,
            probes: vec![1, 2, 3, 5, 10, 20],
        }
    );
    assert_eq!(plan.widest(), 20);
    let plan =
        run_plan(&ids(&["--corpus", "c", "--probe", "4, 2", "--k", "3"]), Ok(s(0.0))).unwrap();
    assert_eq!((plan.k, plan.probes.clone(), plan.widest()), (3, vec![4, 2], 2));
    assert_eq!(
        run_plan(&ids(&["--corpus", "c", "--probe", "1,x"]), Ok(s(0.0))),
        Err("invalid digit found in string".to_owned())
    );
    assert_eq!(
        run_plan(&ids(&["--corpus", "c", "--probe", "x"]), Err("--jitter: bad".into())),
        Err("--jitter: bad".to_owned())
    );
}

#[test]
fn a_sweep_adds_up_what_its_queries_cost_and_found() {
    let truth = ids(&["a", "b", "c"]);
    let trials = vec![
        trial(30, 10, &ids(&["a", "x", "b"]), &truth, 3),
        trial(10, 11, &ids(&["b", "a"]), &truth, 3),
        trial(20, 12, &ids(&[]), &truth, 3),
    ];
    assert_eq!(trials[0].recall, Share { found: 2, of: 3 });
    assert!(trials[0].top1 && !trials[1].top1 && !trials[2].top1);
    let lat = latencies(&trials);
    assert_eq!((lat.p50(), lat.max(), lat.len()), (20, 30, 3));
    assert_eq!(rows_per_query(&trials), 11);
    assert_eq!(top1_share(&trials), Share { found: 1, of: 3 });
    assert_eq!(rows_per_query(&vec![]), 0);
    assert_eq!(top1_share(&vec![]), Share { found: 0, of: 1 });
}

#[test]
fn a_baseline_held_against_itself_is_perfect() {
    let found = ids(&["a", "b", "c"]);
    let t = trial(1, 1, &found, &found, 2);
    assert_eq!(t.recall, Share { found: 2, of: 2 });
    assert!(t.top1);
}
