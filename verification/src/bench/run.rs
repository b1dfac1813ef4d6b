//! What a command is asked to do, and what a sweep over the number of probed
//! clusters adds up to.

use vstd::prelude::*;
use vstd::string::*;

use crate::bench::args::{
    counts_of, flag, flag_number, flag_value, naturals, parsed, probe_list, required,
};
use crate::bench::metrics::{
    among_upto, distinct_upto, recall_at_k, top1_hit, Latencies, Share,
};
use crate::bench::synth::SynthConfig;
use crate::engine::routing::first;
use crate::numbers::{fault_text, NumberFault};
use crate::order::{arranged, picks, picks_one_more};
use crate::score::Score;
use crate::text::{same, texts};

verus! {

// ---------------------------------------------------------------------------
// Commands
// ---------------------------------------------------------------------------

/// What the first argument asks for.
#[derive(Debug, Clone, Copy, PartialEq, Eq, Structural)]
pub enum Command {
    /// Build a synthetic corpus.
    Synth,
    /// Describe a corpus.
    Info,
    /// Sweep the number of probed clusters.
    Run,
    /// Nothing that is known: say what is.
    Usage,
}

/// The command that a word names.
pub open spec fn command_named(word: Seq<char>) -> Command {
    if word == "synth"@ {
        Command::Synth
    } else if word == "info"@ {
        Command::Info
    } else if word == "run"@ {
        Command::Run
    } else {
        Command::Usage
    }
}

/// The command of a list of arguments: its first one names it.
pub fn command_of(args: &Vec<String>) -> (r: Command)
    ensures
        r == if args@.len() == 0 {
            Command::Usage
        } else {
            command_named(args@[0]@)
        },
{
    if args.len() == 0 {
        return Command::Usage;
    }
    let word = args[0].as_str();
    if same(word, "synth") {
        Command::Synth
    } else if same(word, "info") {
        Command::Info
    } else if same(word, "run") {
        Command::Run
    } else {
        Command::Usage
    }
}

fn count_flag(args: &Vec<String>, name: &str, default: usize) -> (r: Result<usize, String>)
    ensures
        match r {
            Ok(n) => flag_number(texts(args@), name@, usize::MAX as nat, default as nat) == Ok::<
                nat,
                Seq<char>,
            >(n as nat),
            Err(e) => flag_number(texts(args@), name@, usize::MAX as nat, default as nat)
                == Err::<nat, Seq<char>>(e@),
        },
{
    match parsed(args, name, usize::MAX as u64, default as u64) {
        Ok(n) => Ok(n as usize),
        Err(e) => Err(e),
    }
}

/// A fraction that was read, or what is wrong with it.
pub open spec fn fraction_view(f: Result<Score, String>) -> Result<Score, Seq<char>> {
    match f {
        Ok(x) => Ok(x),
        Err(e) => Err(e@),
    }
}

/// What `synth` is asked to do.
#[derive(Debug, PartialEq)]
pub struct SynthPlan {
    /// The file to write.
    pub out: String,
    pub corpus: SynthConfig,
    /// How many rows a cluster is to hold.
    pub per_cluster: usize,
    /// How many rounds clustering may take.
    pub iters: usize,
}

/// What `synth` is asked to do, as the numbers it is about.
pub ghost struct SynthPlanView {
    pub out: Seq<char>,
    pub rows: nat,
    pub dim: nat,
    pub topics: nat,
    pub spread: Score,
    pub anisotropy: Score,
    /// Distinct terms.
    pub vocabulary: nat,
    pub zipf: Score,
    pub body_tokens: nat,
    pub topic_terms: nat,
    pub seed: nat,
    pub per_cluster: nat,
    pub iters: nat,
}

impl SynthPlan {
    pub open spec fn view(self) -> SynthPlanView {
        SynthPlanView {
            out: self.out@,
            rows: self.corpus.rows as nat,
            dim: self.corpus.dim as nat,
            topics: self.corpus.topics as nat,
            spread: self.corpus.spread,
            anisotropy: self.corpus.anisotropy,
            vocabulary: self.corpus.vocabulary as nat,
            zipf: self.corpus.zipf,
            body_tokens: self.corpus.body_tokens as nat,
            topic_terms: self.corpus.topic_terms as nat,
            seed: self.corpus.seed as nat,
            per_cluster: self.per_cluster as nat,
            iters: self.iters as nat,
        }
    }
}

/// What `synth` is asked to do, or the first flag that is wrong.
pub open spec fn synth_plan_of(
    args: Seq<Seq<char>>,
    spread: Result<Score, Seq<char>>,
    anisotropy: Result<Score, Seq<char>>,
) -> Result<SynthPlanView, Seq<char>> {
    let most = usize::MAX as nat;
    match flag_value(args, "--out"@) {
        None => Err("missing required flag "@ + "--out"@),
        Some(out) => match flag_number(args, "--rows"@, most, 200_000) {
            Err(e) => Err(e),
            Ok(rows) => match flag_number(args, "--dim"@, most, 1024) {
                Err(e) => Err(e),
                Ok(dim) => match flag_number(args, "--topics"@, most, 200) {
                    Err(e) => Err(e),
                    Ok(topics) => match spread {
                        Err(e) => Err(e),
                        Ok(spread) => match anisotropy {
                            Err(e) => Err(e),
                            Ok(anisotropy) => match flag_number(
                                args,
                                "--seed"@,
                                u64::MAX as nat,
                                0xC0_FFEE,
                            ) {
                                Err(e) => Err(e),
                                Ok(seed) => match flag_number(
                                    args,
                                    "--per-cluster"@,
                                    most,
                                    10_000,
                                ) {
                                    Err(e) => Err(e),
                                    Ok(per_cluster) => match flag_number(
                                        args,
                                        "--iters"@,
                                        most,
                                        15,
                                    ) {
                                        Err(e) => Err(e),
                                        Ok(iters) => Ok(
                                            SynthPlanView {
                                                out,
                                                rows,
                                                dim,
                                                topics,
                                                spread,
                                                anisotropy,
                                                vocabulary: 20_000,
                                                zipf: Score { bits: 0x3f80_0000 },
                                                body_tokens: 18,
                                                topic_terms: 64,
                                                seed,
                                                per_cluster,
                                                iters,
                                            },
                                        ),
                                    },
                                },
                            },
                        },
                    },
                },
            },
        },
    }
}

/// Reads the flags of `synth` in order; the first wrong one is reported. The
/// two fractions are read by the caller.
pub fn synth_plan(
    args: &Vec<String>,
    spread: Result<Score, String>,
    anisotropy: Result<Score, String>,
) -> (r: Result<SynthPlan, String>)
    ensures
        match r {
            Ok(plan) => synth_plan_of(
                texts(args@),
                fraction_view(spread),
                fraction_view(anisotropy),
            ) == Ok::<SynthPlanView, Seq<char>>(plan@),
            Err(e) => synth_plan_of(texts(args@), fraction_view(spread), fraction_view(anisotropy))
                == Err::<SynthPlanView, Seq<char>>(e@),
        },
{
    let out = match required(args, "--out") {
        Ok(v) => v,
        Err(e) => {
            return Err(e);
        },
    };
    let rows: usize = match count_flag(args, "--rows", 200_000) {
        Ok(n) => n,
        Err(e) => {
            return Err(e);
        },
    };
    let dim: usize = match count_flag(args, "--dim", 1024) {
        Ok(n) => n,
        Err(e) => {
            return Err(e);
        },
    };
    let topics: usize = match count_flag(args, "--topics", 200) {
        Ok(n) => n,
        Err(e) => {
            return Err(e);
        },
    };
    let spread = match spread {
        Ok(x) => x,
        Err(e) => {
            return Err(e);
        },
    };
    let anisotropy = match anisotropy {
        Ok(x) => x,
        Err(e) => {
            return Err(e);
        },
    };
    let seed: u64 = match parsed(args, "--seed", u64::MAX, 0xC0_FFEE) {
        Ok(n) => n,
        Err(e) => {
            return Err(e);
        },
    };
    let per_cluster: usize = match count_flag(args, "--per-cluster", 10_000) {
        Ok(n) => n,
        Err(e) => {
            return Err(e);
        },
    };
    let iters: usize = match count_flag(args, "--iters", 15) {
        Ok(n) => n,
        Err(e) => {
            return Err(e);
        },
    };
    let rest = SynthConfig::default();
    Ok(
        SynthPlan {
            out,
            corpus: SynthConfig { rows, dim, topics, spread, anisotropy, seed, ..rest },
            per_cluster,
            iters,
        },
    )
}

/// What `run` is asked to do.
#[derive(Debug, PartialEq)]
pub struct RunPlan {
    /// The file to read.
    pub corpus: String,
    /// How many queries to draw.
    pub queries: usize,
    /// How many results each of them asks for.
    pub k: usize,
    /// How far a query lies from its row.
    pub jitter: Score,
    pub seed: u64,
    /// The numbers of clusters to probe, in turn.
    pub probes: Vec<usize>,
}

/// What `run` is asked to do, as the numbers it is about.
pub ghost struct RunPlanView {
    pub corpus: Seq<char>,
    pub queries: nat,
    pub k: nat,
    pub jitter: Score,
    pub seed: nat,
    pub probes: Seq<nat>,
}

impl RunPlan {
    pub open spec fn view(self) -> RunPlanView {
        RunPlanView {
            corpus: self.corpus@,
            queries: self.queries as nat,
            k: self.k as nat,
            jitter: self.jitter,
            seed: self.seed as nat,
            probes: naturals(self.probes@),
        }
    }

    /// How many clusters the breakdown by stage probes: as many as the sweep
    /// does in the end.
    pub fn widest(&self) -> (r: usize)
        ensures
            r == if self.probes@.len() == 0 {
                5
            } else {
                self.probes@.last()
            },
    {
        let n = self.probes.len();
        if n == 0 {
            5
        } else {
            self.probes[n - 1]
        }
    }
}

/// The probes of a sweep that names none.
pub open spec fn probes_asked(args: Seq<Seq<char>>) -> Seq<char> {
    match flag_value(args, "--probe"@) {
        Some(list) => list,
        None => "1,2,3,5,10,20"@,
    }
}

/// What `run` is asked to do, or the first flag that is wrong.
pub open spec fn run_plan_of(
    args: Seq<Seq<char>>,
    jitter: Result<Score, Seq<char>>,
) -> Result<RunPlanView, Seq<char>> {
    let most = usize::MAX as nat;
    match flag_value(args, "--corpus"@) {
        None => Err("missing required flag "@ + "--corpus"@),
        Some(corpus) => match flag_number(args, "--queries"@, most, 100) {
            Err(e) => Err(e),
            Ok(queries) => match flag_number(args, "--k"@, most, 10) {
                Err(e) => Err(e),
                Ok(k) => match jitter {
                    Err(e) => Err(e),
                    Ok(jitter) => match flag_number(args, "--seed"@, u64::MAX as nat, 12_345) {
                        Err(e) => Err(e),
                        Ok(seed) => match counts_of(probes_asked(args)) {
                            Err(fault) => Err(fault_text(fault)),
                            Ok(probes) => Ok(
                                RunPlanView { corpus, queries, k, jitter, seed, probes },
                            ),
                        },
                    },
                },
            },
        },
    }
}

/// Reads the flags of `run` in order; the first wrong one is reported. The
/// fraction is read by the caller.
pub fn run_plan(args: &Vec<String>, jitter: Result<Score, String>) -> (r: Result<RunPlan, String>)
    ensures
        match r {
            Ok(plan) => run_plan_of(texts(args@), fraction_view(jitter)) == Ok::<
                RunPlanView,
                Seq<char>,
            >(plan@),
            Err(e) => run_plan_of(texts(args@), fraction_view(jitter)) == Err::<
                RunPlanView,
                Seq<char>,
            >(e@),
        },
{
    let corpus = match required(args, "--corpus") {
        Ok(v) => v,
        Err(e) => {
            return Err(e);
        },
    };
    let queries: usize = match count_flag(args, "--queries", 100) {
        Ok(n) => n,
        Err(e) => {
            return Err(e);
        },
    };
    let k: usize = match count_flag(args, "--k", 10) {
        Ok(n) => n,
        Err(e) => {
            return Err(e);
        },
    };
    let jitter = match jitter {
        Ok(x) => x,
        Err(e) => {
            return Err(e);
        },
    };
    let seed: u64 = match parsed(args, "--seed", u64::MAX, 12_345) {
        Ok(n) => n,
        Err(e) => {
            return Err(e);
        },
    };
    let list = match flag(args, "--probe") {
        Some(v) => v,
        None => "1,2,3,5,10,20".to_owned(),
    };
    match probe_list(list.as_str()) {
        Ok(probes) => Ok(RunPlan { corpus, queries, k, jitter, seed, probes }),
        Err(fault) => Err(fault.message().to_owned()),
    }
}

// ---------------------------------------------------------------------------
// The sweep
// ---------------------------------------------------------------------------

/// One query of a sweep: what it cost, and what it found of what there is.
#[derive(Debug, Clone, Copy, PartialEq, Eq)]
pub struct Trial {
    /// How long it took, in nanoseconds.
    pub took: u64,
    pub rows_scanned: usize,
    pub recall: Share,
    /// Whether the best result is the best of all.
    pub top1: bool,
}

/// How much of the best `k` was found: the parts of the share.
pub open spec fn recalled(
    routed: Seq<Seq<char>>,
    baseline: Seq<Seq<char>>,
    k: nat,
) -> (nat, nat) {
    let truth = first(baseline, k);
    let tried = first(routed, k);
    if truth.len() == 0 {
        (1, 1)
    } else {
        (
            among_upto(tried, truth, tried.len() as int),
            distinct_upto(truth, truth.len() as int),
        )
    }
}

/// Whether the best of a baseline was found first.
pub open spec fn best_kept(routed: Seq<Seq<char>>, baseline: Seq<Seq<char>>) -> bool {
    baseline.len() == 0 || (routed.len() > 0 && routed[0] == baseline[0])
}

/// Holds one search against the baseline of its query.
pub fn trial(
    took: u64,
    rows_scanned: usize,
    routed: &Vec<String>,
    baseline: &Vec<String>,
    k: usize,
) -> (r: Trial)
    ensures
        r.took == took,
        r.rows_scanned == rows_scanned,
        (r.recall.found as nat, r.recall.of as nat) == recalled(
            texts(routed@),
            texts(baseline@),
            k as nat,
        ),
        r.top1 == best_kept(texts(routed@), texts(baseline@)),
{
    let recall = recall_at_k(routed, baseline, k);
    let top1 = top1_hit(routed, baseline);
    Trial { took, rows_scanned, recall, top1 }
}

/// How long each query took.
pub open spec fn times_of(trials: Seq<Trial>) -> Seq<u64> {
    trials.map_values(|t: Trial| t.took)
}

/// The durations of a sweep, in order.
pub fn latencies(trials: &Vec<Trial>) -> (r: Latencies)
    ensures
        r@ == arranged(times_of(trials@)),
        r@.len() == trials@.len(),
{
    let mut times: Vec<u64> = Vec::new();
    let mut i: usize = 0;
    while i < trials.len()
        invariant
            i <= trials@.len(),
            times@ == times_of(trials@).take(i as int),
        decreases trials@.len() - i,
    {
        let ghost before = times@;
        times.push(trials[i].took);
        assert(times@ =~= before.push(times_of(trials@)[i as int]));
        assert(times@ =~= times_of(trials@).take(i + 1));
        i = i + 1;
    }
    assert(times@ =~= times_of(trials@));
    Latencies::from_durations(times)
}

/// The rows that the first `n` queries scanned, added up.
pub open spec fn scanned_upto(trials: Seq<Trial>, n: int) -> nat
    decreases n,
{
    if n <= 0 {
        0
    } else {
        scanned_upto(trials, n - 1) + trials[n - 1].rows_scanned as nat
    }
}

/// The rows scanned per query, rounded down; zero where there is no query.
pub fn rows_per_query(trials: &Vec<Trial>) -> (r: u128)
    ensures
        r as int == scanned_upto(trials@, trials@.len() as int) as int / if trials@.len() == 0 {
            1
        } else {
            trials@.len() as int
        },
{
    let n = trials.len();
    let mut sum: u128 = 0;
    let mut i: usize = 0;
    while i < n
        invariant
            i <= n,
            n == trials@.len(),
            sum == scanned_upto(trials@, i as int),
            sum <= i * (u64::MAX as int),
        decreases n - i,
    {
        assert(i * (u64::MAX as int) + u64::MAX <= u128::MAX) by (nonlinear_arith)
            requires
                0 <= i < usize::MAX,
        ;
        sum = sum + trials[i].rows_scanned as u128;
        assert((i + 1) * (u64::MAX as int) == i * (u64::MAX as int) + u64::MAX)
            by (nonlinear_arith);
        i = i + 1;
    }
    if n == 0 {
        return 0;
    }
    sum / (n as u128)
}

/// How many of the first `n` queries kept their best result.
pub open spec fn kept_upto(trials: Seq<Trial>, n: int) -> nat
    decreases n,
{
    if n <= 0 {
        0
    } else if trials[n - 1].top1 {
        kept_upto(trials, n - 1) + 1
    } else {
        kept_upto(trials, n - 1)
    }
}

/// How many queries kept their best result, of how many; of one where there is
/// no query.
pub fn top1_share(trials: &Vec<Trial>) -> (r: Share)
    ensures
        r.found == kept_upto(trials@, trials@.len() as int),
        r.of == if trials@.len() == 0 {
            1
        } else {
            trials@.len()
        },
        r.found <= r.of,
{
    let n = trials.len();
    let mut found: usize = 0;
    let mut i: usize = 0;
    while i < n
        invariant
            i <= n,
            n == trials@.len(),
            found == kept_upto(trials@, i as int),
            found <= i,
        decreases n - i,
    {
        if trials[i].top1 {
            found = found + 1;
        }
        i = i + 1;
    }
    Share {
        found,
        of: if n == 0 {
            1
        } else {
            n
        },
    }
}

// ---------------------------------------------------------------------------
// Laws
// ---------------------------------------------------------------------------

/// A search that finds what the baseline found has recalled all of it, and has
/// kept its best.
pub proof fn a_baseline_recalls_itself(ids: Seq<Seq<char>>, k: nat)
    requires
        ids.no_duplicates(),
    ensures
        recalled(ids, ids, k).0 == recalled(ids, ids, k).1,
        recalled(ids, ids, k).0 >= 1,
        best_kept(ids, ids),
{
    let truth = first(ids, k);
    all_are_among(truth, truth.len() as int);
    all_are_distinct(truth, truth.len() as int);
}

proof fn all_are_among(v: Seq<Seq<char>>, n: int)
    requires
        0 <= n <= v.len(),
    ensures
        among_upto(v, v, n) == n,
    decreases n,
{
    if n > 0 {
        all_are_among(v, n - 1);
        assert(v.contains(v[n - 1]));
    }
}

proof fn all_are_distinct(v: Seq<Seq<char>>, n: int)
    requires
        0 <= n <= v.len(),
        v.no_duplicates(),
    ensures
        distinct_upto(v, n) == n,
    decreases n,
{
    if n > 0 {
        all_are_distinct(v, n - 1);
        if v.take(n - 1).contains(v[n - 1]) {
            let i = v.take(n - 1).index_of(v[n - 1]);
            assert(v[i] == v[n - 1]);
        }
    }
}

/// A command is named by its own word, and every other word asks for the usage.
pub proof fn a_command_is_named_by_its_word(word: Seq<char>)
    ensures
        command_named(word) == Command::Synth <==> word == "synth"@,
        command_named(word) == Command::Info <==> word == "info"@,
        command_named(word) == Command::Run <==> word == "run"@,
{
    reveal_strlit("synth");
    reveal_strlit("info");
    reveal_strlit("run");
    assert("synth"@.len() == 5 && "info"@.len() == 4 && "run"@.len() == 3);
}

/// What `synth` is asked to do is what its flags say: the file that is named,
/// and each number that is given, or its default.
pub proof fn a_corpus_is_built_as_its_flags_say(
    args: Seq<Seq<char>>,
    spread: Result<Score, Seq<char>>,
    anisotropy: Result<Score, Seq<char>>,
    p: SynthPlanView,
)
    requires
        synth_plan_of(args, spread, anisotropy) == Ok::<SynthPlanView, Seq<char>>(p),
    ensures
        flag_value(args, "--out"@) == Some(p.out),
        flag_number(args, "--rows"@, usize::MAX as nat, 200_000) == Ok::<nat, Seq<char>>(p.rows),
        flag_number(args, "--dim"@, usize::MAX as nat, 1024) == Ok::<nat, Seq<char>>(p.dim),
        flag_number(args, "--topics"@, usize::MAX as nat, 200) == Ok::<nat, Seq<char>>(p.topics),
        flag_number(args, "--seed"@, u64::MAX as nat, 12_648_430) == Ok::<nat, Seq<char>>(p.seed),
        flag_number(args, "--per-cluster"@, usize::MAX as nat, 10_000) == Ok::<nat, Seq<char>>(
            p.per_cluster,
        ),
        flag_number(args, "--iters"@, usize::MAX as nat, 15) == Ok::<nat, Seq<char>>(p.iters),
        spread == Ok::<Score, Seq<char>>(p.spread),
        anisotropy == Ok::<Score, Seq<char>>(p.anisotropy),
{
}

/// What `run` is asked to do is what its flags say.
pub proof fn a_sweep_runs_as_its_flags_say(
    args: Seq<Seq<char>>,
    jitter: Result<Score, Seq<char>>,
    p: RunPlanView,
)
    requires
        run_plan_of(args, jitter) == Ok::<RunPlanView, Seq<char>>(p),
    ensures
        flag_value(args, "--corpus"@) == Some(p.corpus),
        flag_number(args, "--queries"@, usize::MAX as nat, 100) == Ok::<nat, Seq<char>>(p.queries),
        flag_number(args, "--k"@, usize::MAX as nat, 10) == Ok::<nat, Seq<char>>(p.k),
        flag_number(args, "--seed"@, u64::MAX as nat, 12_345) == Ok::<nat, Seq<char>>(p.seed),
        jitter == Ok::<Score, Seq<char>>(p.jitter),
        flag_value(args, "--probe"@) is Some ==> counts_of(flag_value(args, "--probe"@)->0) == Ok::<
            Seq<nat>,
            NumberFault,
        >(p.probes),
        flag_value(args, "--probe"@) is None ==> counts_of("1,2,3,5,10,20"@) == Ok::<
            Seq<nat>,
            NumberFault,
        >(p.probes),
{
}

/// The rows that two sweeps scanned add up, and those of one query are its own.
pub proof fn scanned_rows_add_up(a: Seq<Trial>, b: Seq<Trial>, t: Trial)
    ensures
        scanned_upto(a + b, (a + b).len() as int) == scanned_upto(a, a.len() as int) + scanned_upto(
            b,
            b.len() as int,
        ),
        scanned_upto(seq![t], 1) == t.rows_scanned,
{
    reveal_with_fuel(scanned_upto, 2);
    scanned_rows_add_up_to(a, b, b.len() as int);
}

proof fn scanned_rows_add_up_to(a: Seq<Trial>, b: Seq<Trial>, n: int)
    requires
        0 <= n <= b.len(),
    ensures
        scanned_upto(a + b, a.len() + n) == scanned_upto(a, a.len() as int) + scanned_upto(b, n),
    decreases n,
{
    if n > 0 {
        scanned_rows_add_up_to(a, b, n - 1);
    } else {
        scanned_rows_of_a_beginning(a, b, a.len() as int);
    }
}

proof fn scanned_rows_of_a_beginning(a: Seq<Trial>, b: Seq<Trial>, n: int)
    requires
        0 <= n <= a.len(),
    ensures
        scanned_upto(a + b, n) == scanned_upto(a, n),
    decreases n,
{
    if n > 0 {
        scanned_rows_of_a_beginning(a, b, n - 1);
    }
}

/// The queries that kept their best result are counted one by one.
pub proof fn kept_results_are_counted(trials: Seq<Trial>, n: int) -> (q: Seq<int>)
    requires
        0 <= n <= trials.len(),
    ensures
        picks(q, n, |i: int| trials[i].top1),
        kept_upto(trials, n) == q.len(),
    decreases n,
{
    if n <= 0 {
        Seq::empty()
    } else {
        let q = kept_results_are_counted(trials, n - 1);
        picks_one_more(q, n - 1, |i: int| trials[i].top1)
    }
}

} // verus!
