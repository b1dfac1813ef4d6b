//! The process's settings, resolved once from its environment.
//!
//! A missing variable and one that cannot be parsed are both fatal: a value
//! that nobody chose would be served in silence.

use vstd::prelude::*;
use vstd::string::*;

use crate::numbers::{a_written_number_is_read_back, read_signed, read_unsigned, signed_of, unsigned_of};
use crate::quote::{quote, quoted_text};
use crate::score::Score;
use crate::server::config::{is_standard, Config};
use crate::text::{decimal, is_space, same, trim, trimmed, trimming_takes_away_only_space};

verus! {

/// A required variable is missing, or one that is set cannot be used.
#[derive(Debug, PartialEq, Eq)]
pub enum ConfigError {
    Missing(&'static str),
    Invalid { key: &'static str, value: String, kind: &'static str },
}

/// A refusal, as what it says.
pub ghost enum ConfigErrorView {
    Missing(Seq<char>),
    Invalid { key: Seq<char>, value: Seq<char>, kind: Seq<char> },
}

impl ConfigError {
    pub open spec fn view(self) -> ConfigErrorView {
        match self {
            ConfigError::Missing(key) => ConfigErrorView::Missing(key@),
            ConfigError::Invalid { key, value, kind } => ConfigErrorView::Invalid {
                key: key@,
                value: value@,
                kind: kind@,
            },
        }
    }

    /// The message for the operator: it names the variable, and quotes the
    /// value that was refused.
    pub fn message(&self) -> (r: String)
        ensures
            r@ == match self@ {
                ConfigErrorView::Missing(key) => key + " is not set · see .env.example"@,
                ConfigErrorView::Invalid { key, value, kind } => key + "="@ + quoted_text(value)
                    + " is not a valid "@ + kind,
            },
    {
        let mut out = String::new();
        match self {
            ConfigError::Missing(key) => {
                out.append(key);
                out.append(" is not set · see .env.example");
            },
            ConfigError::Invalid { key, value, kind } => {
                out.append(key);
                out.append("=");
                let quoted = quote(value.as_str());
                out.append(quoted.as_str());
                out.append(" is not a valid ");
                out.append(kind);
            },
        }
        out
    }
}

/// A variable of the environment. `number` is what its trimmed value reads as,
/// where that is a single-precision number.
#[derive(Debug)]
pub struct Var {
    pub key: String,
    pub value: String,
    pub number: Option<Score>,
}

/// The place of a variable, from the `i`-th on.
pub open spec fn var_from(env: Seq<Var>, key: Seq<char>, i: int) -> Option<int>
    decreases env.len() - i,
{
    if i >= env.len() {
        None
    } else if env[i].key@ == key {
        Some(i)
    } else {
        var_from(env, key, i + 1)
    }
}

/// The value of a variable that is set to more than white space.
pub open spec fn set_var(env: Seq<Var>, key: Seq<char>) -> Option<int> {
    match var_from(env, key, 0) {
        Some(i) => if trimmed(env[i].value@).len() > 0 {
            Some(i)
        } else {
            None
        },
        None => None,
    }
}

fn find_var(env: &Vec<Var>, key: &str) -> (r: Option<usize>)
    ensures
        match r {
            Some(i) => i < env@.len() && var_from(env@, key@, 0) == Some(i as int),
            None => var_from(env@, key@, 0) is None,
        },
{
    let mut i: usize = 0;
    while i < env.len()
        invariant
            i <= env@.len(),
            var_from(env@, key@, 0) == var_from(env@, key@, i as int),
        decreases env@.len() - i,
    {
        if same(env[i].key.as_str(), key) {
            return Some(i);
        }
        i = i + 1;
    }
    None
}

fn find_set(env: &Vec<Var>, key: &str) -> (r: Option<usize>)
    ensures
        match r {
            Some(i) => i < env@.len() && set_var(env@, key@) == Some(i as int),
            None => set_var(env@, key@) is None,
        },
{
    match find_var(env, key) {
        Some(i) => {
            let bare = trim(env[i].value.as_str());
            if bare.as_str().is_empty() {
                None
            } else {
                Some(i)
            }
        },
        None => None,
    }
}

/// What is wrong with a variable that must be set.
pub open spec fn required_fault(env: Seq<Var>, key: Seq<char>) -> Option<ConfigErrorView> {
    if set_var(env, key) is None {
        Some(ConfigErrorView::Missing(key))
    } else {
        None
    }
}

/// A variable that must be set: it names something only the operator knows.
pub fn required(env: &Vec<Var>, key: &'static str) -> (r: Result<String, ConfigError>)
    ensures
        match r {
            Ok(v) => required_fault(env@, key@) is None && v
                == env@[set_var(env@, key@)->0].value,
            Err(e) => required_fault(env@, key@) == Some(e@),
        },
{
    match find_set(env, key) {
        Some(i) => Ok(env[i].value.clone()),
        None => Err(ConfigError::Missing(key)),
    }
}

/// The refusal of a value that does not parse.
pub open spec fn invalid(env: Seq<Var>, key: Seq<char>, kind: Seq<char>) -> ConfigErrorView {
    ConfigErrorView::Invalid { key, value: env[set_var(env, key)->0].value@, kind }
}

/// A variable read as a whole number from zero to `max`: the fallback where it
/// is not set.
pub open spec fn unsigned_var(env: Seq<Var>, key: Seq<char>, max: nat, fallback: nat) -> Option<nat> {
    match set_var(env, key) {
        Some(i) => unsigned_of(trimmed(env[i].value@), max),
        None => Some(fallback),
    }
}

/// A variable read as a whole number of 64 bits.
pub open spec fn signed_var(env: Seq<Var>, key: Seq<char>, fallback: int) -> Option<int> {
    match set_var(env, key) {
        Some(i) => signed_of(trimmed(env[i].value@)),
        None => Some(fallback),
    }
}

/// A variable read as a number.
pub open spec fn number_var(env: Seq<Var>, key: Seq<char>, fallback: Score) -> Option<Score> {
    match set_var(env, key) {
        Some(i) => env[i].number,
        None => Some(fallback),
    }
}

/// What is wrong with a variable that has to parse.
pub open spec fn parse_fault<T>(
    env: Seq<Var>,
    key: Seq<char>,
    kind: Seq<char>,
    parsed: Option<T>,
) -> Option<ConfigErrorView> {
    if parsed is None {
        Some(invalid(env, key, kind))
    } else {
        None
    }
}

fn refuse(env: &Vec<Var>, i: usize, key: &'static str, kind: &'static str) -> (r: ConfigError)
    requires
        i < env@.len(),
        set_var(env@, key@) == Some(i as int),
    ensures
        r@ == invalid(env@, key@, kind@),
{
    ConfigError::Invalid { key, value: env[i].value.clone(), kind }
}

/// A variable with a defensible default, read strictly as a whole number from
/// zero to `max`.
pub fn parsed(env: &Vec<Var>, key: &'static str, kind: &'static str, max: u64, fallback: u64) -> (r:
    Result<u64, ConfigError>)
    requires
        fallback <= max,
    ensures
        match r {
            Ok(n) => unsigned_var(env@, key@, max as nat, fallback as nat) == Some(n as nat) && n
                <= max,
            Err(e) => unsigned_var(env@, key@, max as nat, fallback as nat) is None && e@
                == invalid(env@, key@, kind@),
        },
{
    match find_set(env, key) {
        None => Ok(fallback),
        Some(i) => {
            let bare = trim(env[i].value.as_str());
            match read_unsigned(bare.as_str(), max) {
                Some(n) => Ok(n),
                None => Err(refuse(env, i, key, kind)),
            }
        },
    }
}

fn parsed_count(env: &Vec<Var>, key: &'static str, fallback: usize) -> (r: Result<
    usize,
    ConfigError,
>)
    ensures
        match r {
            Ok(n) => count_var(env@, key@, fallback) == Some(n as nat),
            Err(e) => count_var(env@, key@, fallback) is None && e@ == invalid(
                env@,
                key@,
                "positive integer"@,
            ),
        },
{
    match parsed(env, key, "positive integer", usize::MAX as u64, fallback as u64) {
        Ok(n) => Ok(n as usize),
        Err(e) => Err(e),
    }
}

/// A variable read as a count.
pub open spec fn count_var(env: Seq<Var>, key: Seq<char>, fallback: usize) -> Option<nat> {
    unsigned_var(env, key, usize::MAX as nat, fallback as nat)
}

fn parsed_signed(env: &Vec<Var>, key: &'static str, fallback: i64) -> (r: Result<i64, ConfigError>)
    ensures
        match r {
            Ok(n) => signed_var(env@, key@, fallback as int) == Some(n as int),
            Err(e) => signed_var(env@, key@, fallback as int) is None && e@ == invalid(
                env@,
                key@,
                "positive integer"@,
            ),
        },
{
    match find_set(env, key) {
        None => Ok(fallback),
        Some(i) => {
            let bare = trim(env[i].value.as_str());
            match read_signed(bare.as_str()) {
                Some(n) => Ok(n),
                None => Err(refuse(env, i, key, "positive integer")),
            }
        },
    }
}

fn parsed_number(env: &Vec<Var>, key: &'static str, fallback: Score) -> (r: Result<
    Score,
    ConfigError,
>)
    ensures
        match r {
            Ok(n) => number_var(env@, key@, fallback) == Some(n),
            Err(e) => number_var(env@, key@, fallback) is None && e@ == invalid(
                env@,
                key@,
                "number"@,
            ),
        },
{
    match find_set(env, key) {
        None => Ok(fallback),
        Some(i) => match env[i].number {
            Some(n) => Ok(n),
            None => Err(refuse(env, i, key, "number")),
        },
    }
}

/// Which transport the process serves on.
#[derive(Debug, Clone, Copy, PartialEq, Eq, Structural)]
pub enum Transport {
    Stdio,
    Http,
}

/// The transport that a name stands for. The name is not case-folded, so that
/// the documented spelling and the accepted one stay the same.
pub open spec fn transport_of(name: Seq<char>) -> Option<Transport> {
    if name == "stdio"@ {
        Some(Transport::Stdio)
    } else if name == "http"@ {
        Some(Transport::Http)
    } else {
        None
    }
}

impl Transport {
    /// The transport that a name stands for.
    pub fn named(name: &str) -> (r: Option<Transport>)
        ensures
            r == transport_of(name@),
    {
        if same(name, "stdio") {
            Some(Transport::Stdio)
        } else if same(name, "http") {
            Some(Transport::Http)
        } else {
            None
        }
    }
}

impl std::str::FromStr for Transport {
    type Err = ();

    fn from_str(s: &str) -> (r: Result<Transport, ()>)
        ensures
            match r {
                Ok(t) => transport_of(s@) == Some(t),
                Err(_) => transport_of(s@) is None,
            },
    {
        match Transport::named(s) {
            Some(t) => Ok(t),
            None => Err(()),
        }
    }
}

/// A variable read as a transport.
pub open spec fn transport_var(env: Seq<Var>, key: Seq<char>) -> Option<Transport> {
    match set_var(env, key) {
        Some(i) => transport_of(trimmed(env[i].value@)),
        None => Some(Transport::Stdio),
    }
}

fn parsed_transport(env: &Vec<Var>) -> (r: Result<Transport, ConfigError>)
    ensures
        match r {
            Ok(t) => transport_var(env@, "TRANSPORT"@) == Some(t),
            Err(e) => transport_var(env@, "TRANSPORT"@) is None && e@ == invalid(
                env@,
                "TRANSPORT"@,
                "transport (stdio|http)"@,
            ),
        },
{
    match find_set(env, "TRANSPORT") {
        None => Ok(Transport::Stdio),
        Some(i) => {
            let bare = trim(env[i].value.as_str());
            match Transport::named(bare.as_str()) {
                Some(t) => Ok(t),
                None => Err(refuse(env, i, "TRANSPORT", "transport (stdio|http)")),
            }
        },
    }
}

/// Everything the process reads from its environment.
#[derive(Debug)]
pub struct Settings {
    pub database_url: String,
    pub embed_endpoint: String,
    pub bm25_vocab: String,
    pub max_concurrency: usize,
    pub transport: Transport,
    pub http_addr: String,
    pub queue_wait_ms: u64,
    pub read_chunk_chars: usize,
    pub max_provenance_ids: usize,
    pub pipeline: Config,
}

/// What is wrong with a count that reads as zero: it parses, and cannot work.
pub open spec fn zero_fault(key: Seq<char>, count: Option<nat>) -> Option<ConfigErrorView> {
    if count == Some(0nat) {
        Some(ConfigErrorView::Invalid { key, value: "0"@, kind: "positive integer"@ })
    } else {
        None
    }
}

/// What is wrong with each variable, in the order in which they are read, and
/// then with each count that has to be positive.
pub open spec fn env_faults(env: Seq<Var>, d: Config) -> Seq<Option<ConfigErrorView>> {
    let count = "positive integer"@;
    let number = "number"@;
    seq![
        required_fault(env, "DATABASE_URL"@),
        required_fault(env, "EMBED_ENDPOINT"@),
        required_fault(env, "BM25_VOCAB"@),
        parse_fault(env, "MAX_CONCURRENCY"@, count, count_var(env, "MAX_CONCURRENCY"@, 4)),
        parse_fault(
            env,
            "TRANSPORT"@,
            "transport (stdio|http)"@,
            transport_var(env, "TRANSPORT"@),
        ),
        parse_fault(
            env,
            "QUEUE_WAIT_MS"@,
            "duration in milliseconds"@,
            unsigned_var(env, "QUEUE_WAIT_MS"@, u64::MAX as nat, 2000),
        ),
        parse_fault(env, "READ_CHUNK_CHARS"@, count, count_var(env, "READ_CHUNK_CHARS"@, 4000)),
        parse_fault(env, "MAX_PROVENANCE_IDS"@, count, count_var(env, "MAX_PROVENANCE_IDS"@, 50)),
        parse_fault(
            env,
            "CLUSTERS_PROBED"@,
            count,
            count_var(env, "CLUSTERS_PROBED"@, d.clusters_probed),
        ),
        parse_fault(
            env,
            "PER_CLUSTER_K"@,
            count,
            signed_var(env, "PER_CLUSTER_K"@, d.per_cluster_k as int),
        ),
        parse_fault(env, "PER_ARM_K"@, count, signed_var(env, "PER_ARM_K"@, d.per_arm_k as int)),
        parse_fault(env, "TOP_K"@, count, count_var(env, "TOP_K"@, d.top_k)),
        parse_fault(env, "SNIPPET_CHARS"@, count, count_var(env, "SNIPPET_CHARS"@, d.snippet_chars)),
        parse_fault(env, "DENSE_WEIGHT"@, number, number_var(env, "DENSE_WEIGHT"@, d.dense_weight)),
        parse_fault(
            env,
            "SPARSE_WEIGHT"@,
            number,
            number_var(env, "SPARSE_WEIGHT"@, d.sparse_weight),
        ),
        parse_fault(env, "TEXT_WEIGHT"@, number, number_var(env, "TEXT_WEIGHT"@, d.text_weight)),
        parse_fault(
            env,
            "CANARY_MIN_COSINE"@,
            number,
            number_var(env, "CANARY_MIN_COSINE"@, d.canary_min_cosine),
        ),
        parse_fault(env, "DOMAIN_FLOOR"@, number, number_var(env, "DOMAIN_FLOOR"@, d.domain_floor)),
        parse_fault(
            env,
            "DOMAIN_LEXICAL_FLOOR"@,
            number,
            number_var(env, "DOMAIN_LEXICAL_FLOOR"@, d.domain_lexical_floor),
        ),
        parse_fault(env, "GATE_SAMPLE"@, count, count_var(env, "GATE_SAMPLE"@, d.gate_sample)),
        zero_fault("MAX_CONCURRENCY"@, count_var(env, "MAX_CONCURRENCY"@, 4)),
        zero_fault("READ_CHUNK_CHARS"@, count_var(env, "READ_CHUNK_CHARS"@, 4000)),
        zero_fault("MAX_PROVENANCE_IDS"@, count_var(env, "MAX_PROVENANCE_IDS"@, 50)),
        zero_fault("CLUSTERS_PROBED"@, count_var(env, "CLUSTERS_PROBED"@, d.clusters_probed)),
        zero_fault("TOP_K"@, count_var(env, "TOP_K"@, d.top_k)),
        zero_fault("SNIPPET_CHARS"@, count_var(env, "SNIPPET_CHARS"@, d.snippet_chars)),
        zero_fault("GATE_SAMPLE"@, count_var(env, "GATE_SAMPLE"@, d.gate_sample)),
    ]
}

/// The first thing wrong, from the `i`-th variable on.
pub open spec fn first_fault(faults: Seq<Option<ConfigErrorView>>, i: int) -> Option<
    ConfigErrorView,
>
    decreases faults.len() - i,
{
    if i >= faults.len() {
        None
    } else if faults[i] is Some {
        faults[i]
    } else {
        first_fault(faults, i + 1)
    }
}

/// The text of a variable that is set.
pub open spec fn var_text(env: Seq<Var>, key: Seq<char>) -> Seq<char> {
    env[set_var(env, key)->0].value@
}

/// The settings that an environment stands for.
pub open spec fn settings_from(s: Settings, env: Seq<Var>, d: Config) -> bool {
    &&& s.database_url@ == var_text(env, "DATABASE_URL"@)
    &&& s.embed_endpoint@ == var_text(env, "EMBED_ENDPOINT"@)
    &&& s.bm25_vocab@ == var_text(env, "BM25_VOCAB"@)
    &&& Some(s.max_concurrency as nat) == count_var(env, "MAX_CONCURRENCY"@, 4)
    &&& Some(s.transport) == transport_var(env, "TRANSPORT"@)
    &&& s.http_addr@ == match var_from(env, "HTTP_ADDR"@, 0) {
        Some(i) => env[i].value@,
        None => "0.0.0.0:8081"@,
    }
    &&& Some(s.queue_wait_ms as nat) == unsigned_var(
        env,
        "QUEUE_WAIT_MS"@,
        u64::MAX as nat,
        2000,
    )
    &&& Some(s.read_chunk_chars as nat) == count_var(env, "READ_CHUNK_CHARS"@, 4000)
    &&& Some(s.max_provenance_ids as nat) == count_var(env, "MAX_PROVENANCE_IDS"@, 50)
    &&& Some(s.pipeline.clusters_probed as nat) == count_var(
        env,
        "CLUSTERS_PROBED"@,
        d.clusters_probed,
    )
    &&& Some(s.pipeline.per_cluster_k as int) == signed_var(
        env,
        "PER_CLUSTER_K"@,
        d.per_cluster_k as int,
    )
    &&& Some(s.pipeline.per_arm_k as int) == signed_var(env, "PER_ARM_K"@, d.per_arm_k as int)
    &&& Some(s.pipeline.top_k as nat) == count_var(env, "TOP_K"@, d.top_k)
    &&& Some(s.pipeline.snippet_chars as nat) == count_var(env, "SNIPPET_CHARS"@, d.snippet_chars)
    &&& Some(s.pipeline.dense_weight) == number_var(env, "DENSE_WEIGHT"@, d.dense_weight)
    &&& Some(s.pipeline.sparse_weight) == number_var(env, "SPARSE_WEIGHT"@, d.sparse_weight)
    &&& Some(s.pipeline.text_weight) == number_var(env, "TEXT_WEIGHT"@, d.text_weight)
    &&& Some(s.pipeline.canary_min_cosine) == number_var(
        env,
        "CANARY_MIN_COSINE"@,
        d.canary_min_cosine,
    )
    &&& Some(s.pipeline.domain_floor) == number_var(env, "DOMAIN_FLOOR"@, d.domain_floor)
    &&& Some(s.pipeline.domain_lexical_floor) == number_var(
        env,
        "DOMAIN_LEXICAL_FLOOR"@,
        d.domain_lexical_floor,
    )
    &&& Some(s.pipeline.gate_sample as nat) == count_var(env, "GATE_SAMPLE"@, d.gate_sample)
    &&& s.pipeline.cluster_batch == d.cluster_batch
    &&& s.pipeline.candidate_pool == d.candidate_pool
    &&& s.pipeline.expand_seeds == d.expand_seeds
    &&& s.pipeline.expand_per_seed == d.expand_per_seed
    &&& s.pipeline.factor_weights == d.factor_weights
}

/// The values that have to be positive, with their names.
pub open spec fn positives(s: Settings) -> Seq<(Seq<char>, usize)> {
    seq![
        ("MAX_CONCURRENCY"@, s.max_concurrency),
        ("READ_CHUNK_CHARS"@, s.read_chunk_chars),
        ("MAX_PROVENANCE_IDS"@, s.max_provenance_ids),
        ("CLUSTERS_PROBED"@, s.pipeline.clusters_probed),
        ("TOP_K"@, s.pipeline.top_k),
        ("SNIPPET_CHARS"@, s.pipeline.snippet_chars),
        ("GATE_SAMPLE"@, s.pipeline.gate_sample),
    ]
}

/// The first name from the `i`-th on whose value is zero.
pub open spec fn first_zero(v: Seq<(Seq<char>, usize)>, i: int) -> Option<Seq<char>>
    decreases v.len() - i,
{
    if i >= v.len() {
        None
    } else if v[i].1 == 0 {
        Some(v[i].0)
    } else {
        first_zero(v, i + 1)
    }
}

/// What is wrong with settings that parse but cannot work, given the sum of
/// the arm weights and how it is written.
pub open spec fn settings_fault(s: Settings, sum: Score, shown: Seq<char>) -> Option<
    ConfigErrorView,
> {
    match first_zero(positives(s), 0) {
        Some(key) => Some(
            ConfigErrorView::Invalid { key, value: "0"@, kind: "positive integer"@ },
        ),
        None => if sum.le_spec(Score { bits: 0 }) {
            Some(
                ConfigErrorView::Invalid {
                    key: "DENSE_WEIGHT/SPARSE_WEIGHT/TEXT_WEIGHT"@,
                    value: shown,
                    kind: "set of weights with a positive sum"@,
                },
            )
        } else {
            None
        },
    }
}

/// Settings that an environment without a fault stands for have no count that
/// is zero: of those that parse, only the arm weights can still be refused.
pub proof fn served_counts_are_positive(s: Settings, env: Seq<Var>, d: Config, i: int)
    requires
        first_fault(env_faults(env, d), 0) is None,
        settings_from(s, env, d),
        0 <= i < positives(s).len(),
    ensures
        positives(s)[i].1 > 0,
        first_zero(positives(s), 0) is None,
{
    reveal_with_fuel(first_zero, 8);
    let all = env_faults(env, d);
    no_fault_from(all, 0, 20);
    no_fault_from(all, 0, 21);
    no_fault_from(all, 0, 22);
    no_fault_from(all, 0, 23);
    no_fault_from(all, 0, 24);
    no_fault_from(all, 0, 25);
    no_fault_from(all, 0, 26);
}

proof fn no_fault_from(faults: Seq<Option<ConfigErrorView>>, i: int, k: int)
    requires
        0 <= i <= k < faults.len(),
        first_fault(faults, i) is None,
    ensures
        faults[k] is None,
    decreases k - i,
{
    if i < k {
        no_fault_from(faults, i + 1, k);
    }
}

fn zero(key: &'static str) -> (r: ConfigError)
    ensures
        r@ == (ConfigErrorView::Invalid { key: key@, value: "0"@, kind: "positive integer"@ }),
{
    ConfigError::Invalid { key, value: "0".to_owned(), kind: "positive integer" }
}

impl Settings {
    /// Resolves the settings from the environment, up front: a process that
    /// finds a variable missing on its first request has already reported
    /// itself healthy. The first variable that is missing or does not parse is
    /// returned, and where there is none, the first count that is zero. The
    /// arm weights are left to [`Settings::validate`].
    pub fn from_env(env: &Vec<Var>) -> (r: Result<Settings, ConfigError>)
        ensures
            exists|d: Config| #[trigger]
                is_standard(d) && match r {
                    Ok(s) => first_fault(env_faults(env@, d), 0) is None && settings_from(
                        s,
                        env@,
                        d,
                    ),
                    Err(e) => first_fault(env_faults(env@, d), 0) == Some(e@),
                },
    {
        let d = Config::default();
        assert(is_standard(d));
        let ghost all = env_faults(env@, d);
        let database_url = match required(env, "DATABASE_URL") {
            Ok(v) => v,
            Err(e) => {
                assert(all[0] == Some(e@));
                return Err(e);
            },
        };
        assert(all[0] is None);
        assert(first_fault(all, 0) == first_fault(all, 1));
        let embed_endpoint = match required(env, "EMBED_ENDPOINT") {
            Ok(v) => v,
            Err(e) => {
                assert(all[1] == Some(e@));
                return Err(e);
            },
        };
        assert(all[1] is None);
        assert(first_fault(all, 1) == first_fault(all, 2));
        let bm25_vocab = match required(env, "BM25_VOCAB") {
            Ok(v) => v,
            Err(e) => {
                assert(all[2] == Some(e@));
                return Err(e);
            },
        };
        assert(all[2] is None);
        assert(first_fault(all, 2) == first_fault(all, 3));
        let max_concurrency = match parsed_count(env, "MAX_CONCURRENCY", 4) {
            Ok(v) => v,
            Err(e) => {
                assert(all[3] == Some(e@));
                return Err(e);
            },
        };
        assert(all[3] is None);
        assert(first_fault(all, 3) == first_fault(all, 4));
        let transport = match parsed_transport(env) {
            Ok(v) => v,
            Err(e) => {
                assert(all[4] == Some(e@));
                return Err(e);
            },
        };
        assert(all[4] is None);
        assert(first_fault(all, 4) == first_fault(all, 5));
        let http_addr = match find_var(env, "HTTP_ADDR") {
            Some(i) => env[i].value.clone(),
            None => "0.0.0.0:8081".to_owned(),
        };
        let queue_wait_ms = match parsed(
            env,
            "QUEUE_WAIT_MS",
            "duration in milliseconds",
            u64::MAX,
            2000,
        ) {
            Ok(v) => v,
            Err(e) => {
                assert(all[5] == Some(e@));
                return Err(e);
            },
        };
        assert(all[5] is None);
        assert(first_fault(all, 5) == first_fault(all, 6));
        let read_chunk_chars = match parsed_count(env, "READ_CHUNK_CHARS", 4000) {
            Ok(v) => v,
            Err(e) => {
                assert(all[6] == Some(e@));
                return Err(e);
            },
        };
        assert(all[6] is None);
        assert(first_fault(all, 6) == first_fault(all, 7));
        let max_provenance_ids = match parsed_count(env, "MAX_PROVENANCE_IDS", 50) {
            Ok(v) => v,
            Err(e) => {
                assert(all[7] == Some(e@));
                return Err(e);
            },
        };
        assert(all[7] is None);
        assert(first_fault(all, 7) == first_fault(all, 8));
        let clusters_probed = match parsed_count(env, "CLUSTERS_PROBED", d.clusters_probed) {
            Ok(v) => v,
            Err(e) => {
                assert(all[8] == Some(e@));
                return Err(e);
            },
        };
        assert(all[8] is None);
        assert(first_fault(all, 8) == first_fault(all, 9));
        let per_cluster_k = match parsed_signed(env, "PER_CLUSTER_K", d.per_cluster_k) {
            Ok(v) => v,
            Err(e) => {
                assert(all[9] == Some(e@));
                return Err(e);
            },
        };
        assert(all[9] is None);
        assert(first_fault(all, 9) == first_fault(all, 10));
        let per_arm_k = match parsed_signed(env, "PER_ARM_K", d.per_arm_k) {
            Ok(v) => v,
            Err(e) => {
                assert(all[10] == Some(e@));
                return Err(e);
            },
        };
        assert(all[10] is None);
        assert(first_fault(all, 10) == first_fault(all, 11));
        let top_k = match parsed_count(env, "TOP_K", d.top_k) {
            Ok(v) => v,
            Err(e) => {
                assert(all[11] == Some(e@));
                return Err(e);
            },
        };
        assert(all[11] is None);
        assert(first_fault(all, 11) == first_fault(all, 12));
        let snippet_chars = match parsed_count(env, "SNIPPET_CHARS", d.snippet_chars) {
            Ok(v) => v,
            Err(e) => {
                assert(all[12] == Some(e@));
                return Err(e);
            },
        };
        assert(all[12] is None);
        assert(first_fault(all, 12) == first_fault(all, 13));
        let dense_weight = match parsed_number(env, "DENSE_WEIGHT", d.dense_weight) {
            Ok(v) => v,
            Err(e) => {
                assert(all[13] == Some(e@));
                return Err(e);
            },
        };
        assert(all[13] is None);
        assert(first_fault(all, 13) == first_fault(all, 14));
        let sparse_weight = match parsed_number(env, "SPARSE_WEIGHT", d.sparse_weight) {
            Ok(v) => v,
            Err(e) => {
                assert(all[14] == Some(e@));
                return Err(e);
            },
        };
        assert(all[14] is None);
        assert(first_fault(all, 14) == first_fault(all, 15));
        let text_weight = match parsed_number(env, "TEXT_WEIGHT", d.text_weight) {
            Ok(v) => v,
            Err(e) => {
                assert(all[15] == Some(e@));
                return Err(e);
            },
        };
        assert(all[15] is None);
        assert(first_fault(all, 15) == first_fault(all, 16));
        let canary_min_cosine = match parsed_number(env, "CANARY_MIN_COSINE", d.canary_min_cosine) {
            Ok(v) => v,
            Err(e) => {
                assert(all[16] == Some(e@));
                return Err(e);
            },
        };
        assert(all[16] is None);
        assert(first_fault(all, 16) == first_fault(all, 17));
        let domain_floor = match parsed_number(env, "DOMAIN_FLOOR", d.domain_floor) {
            Ok(v) => v,
            Err(e) => {
                assert(all[17] == Some(e@));
                return Err(e);
            },
        };
        assert(all[17] is None);
        assert(first_fault(all, 17) == first_fault(all, 18));
        let domain_lexical_floor = match parsed_number(
            env,
            "DOMAIN_LEXICAL_FLOOR",
            d.domain_lexical_floor,
        ) {
            Ok(v) => v,
            Err(e) => {
                assert(all[18] == Some(e@));
                return Err(e);
            },
        };
        assert(all[18] is None);
        assert(first_fault(all, 18) == first_fault(all, 19));
        let gate_sample = match parsed_count(env, "GATE_SAMPLE", d.gate_sample) {
            Ok(v) => v,
            Err(e) => {
                assert(all[19] == Some(e@));
                return Err(e);
            },
        };
        assert(all[19] is None);
        assert(first_fault(all, 19) == first_fault(all, 20));
        if max_concurrency == 0 {
            let e = zero("MAX_CONCURRENCY");
            assert(all[20] == Some(e@));
            return Err(e);
        }
        assert(all[20] is None);
        assert(first_fault(all, 20) == first_fault(all, 21));
        if read_chunk_chars == 0 {
            let e = zero("READ_CHUNK_CHARS");
            assert(all[21] == Some(e@));
            return Err(e);
        }
        assert(all[21] is None);
        assert(first_fault(all, 21) == first_fault(all, 22));
        if max_provenance_ids == 0 {
            let e = zero("MAX_PROVENANCE_IDS");
            assert(all[22] == Some(e@));
            return Err(e);
        }
        assert(all[22] is None);
        assert(first_fault(all, 22) == first_fault(all, 23));
        if clusters_probed == 0 {
            let e = zero("CLUSTERS_PROBED");
            assert(all[23] == Some(e@));
            return Err(e);
        }
        assert(all[23] is None);
        assert(first_fault(all, 23) == first_fault(all, 24));
        if top_k == 0 {
            let e = zero("TOP_K");
            assert(all[24] == Some(e@));
            return Err(e);
        }
        assert(all[24] is None);
        assert(first_fault(all, 24) == first_fault(all, 25));
        if snippet_chars == 0 {
            let e = zero("SNIPPET_CHARS");
            assert(all[25] == Some(e@));
            return Err(e);
        }
        assert(all[25] is None);
        assert(first_fault(all, 25) == first_fault(all, 26));
        if gate_sample == 0 {
            let e = zero("GATE_SAMPLE");
            assert(all[26] == Some(e@));
            return Err(e);
        }
        assert(all[26] is None);
        assert(first_fault(all, 26) == first_fault(all, 27));
        assert(all.len() == 27);
        let s = Settings {
            database_url,
            embed_endpoint,
            bm25_vocab,
            max_concurrency,
            transport,
            http_addr,
            queue_wait_ms,
            read_chunk_chars,
            max_provenance_ids,
            pipeline: Config {
                clusters_probed,
                cluster_batch: d.cluster_batch,
                per_cluster_k,
                per_arm_k,
                top_k,
                candidate_pool: d.candidate_pool,
                snippet_chars,
                dense_weight,
                sparse_weight,
                text_weight,
                canary_min_cosine,
                domain_floor,
                domain_lexical_floor,
                gate_sample,
                expand_seeds: d.expand_seeds,
                expand_per_seed: d.expand_per_seed,
                factor_weights: d.factor_weights,
            },
        };
        assert(settings_from(s, env@, d));
        Ok(s)
    }

    /// Rejects values that parse but cannot work: a ceiling of zero admits
    /// nobody, and weights that sum to nothing fuse nothing. `sum` is the sum
    /// of the three arm weights, written as `shown`.
    pub fn validate(&self, sum: Score, shown: &str) -> (r: Result<(), ConfigError>)
        ensures
            match r {
                Ok(_) => settings_fault(*self, sum, shown@) is None,
                Err(e) => settings_fault(*self, sum, shown@) == Some(e@),
            },
    {
        proof {
            reveal_with_fuel(first_zero, 8);
        }
        if self.max_concurrency == 0 {
            return Err(zero("MAX_CONCURRENCY"));
        }
        if self.read_chunk_chars == 0 {
            return Err(zero("READ_CHUNK_CHARS"));
        }
        if self.max_provenance_ids == 0 {
            return Err(zero("MAX_PROVENANCE_IDS"));
        }
        if self.pipeline.clusters_probed == 0 {
            return Err(zero("CLUSTERS_PROBED"));
        }
        if self.pipeline.top_k == 0 {
            return Err(zero("TOP_K"));
        }
        if self.pipeline.snippet_chars == 0 {
            return Err(zero("SNIPPET_CHARS"));
        }
        if self.pipeline.gate_sample == 0 {
            return Err(zero("GATE_SAMPLE"));
        }
        if sum.le(Score { bits: 0 }) {
            return Err(
                ConfigError::Invalid {
                    key: "DENSE_WEIGHT/SPARSE_WEIGHT/TEXT_WEIGHT",
                    value: shown.to_owned(),
                    kind: "set of weights with a positive sum",
                },
            );
        }
        Ok(())
    }
}

// ---------------------------------------------------------------------------
// What settings say of an environment
// ---------------------------------------------------------------------------

/// A variable is the first one of its name, and it is set where its value holds
/// anything but white space.
pub proof fn the_first_variable_of_a_name_counts(env: Seq<Var>, key: Seq<char>, i: int)
    requires
        0 <= i <= env.len(),
        forall|k: int| 0 <= k < i ==> (#[trigger] env[k]).key@ != key,
        i < env.len() ==> env[i].key@ == key,
    ensures
        i < env.len() ==> var_from(env, key, 0) == Some(i),
        i == env.len() ==> var_from(env, key, 0) is None && set_var(env, key) is None,
        i < env.len() && (exists|k: int|
            0 <= k < env[i].value@.len() && !is_space(#[trigger] env[i].value@[k])) ==> set_var(
            env,
            key,
        ) == Some(i),
        i < env.len() && (forall|k: int|
            0 <= k < env[i].value@.len() ==> is_space(#[trigger] env[i].value@[k])) ==> set_var(
            env,
            key,
        ) is None,
{
    variables_are_searched_on(env, key, 0, i);
    if i < env.len() {
        let s = env[i].value@;
        let p = trimming_takes_away_only_space(s);
        if exists|k: int| 0 <= k < s.len() && !is_space(#[trigger] s[k]) {
            let k = choose|k: int| 0 <= k < s.len() && !is_space(#[trigger] s[k]);
            if trimmed(s).len() == 0 {
                assert(is_space(s[k]));
            }
        }
        if forall|k: int| 0 <= k < s.len() ==> is_space(#[trigger] s[k]) {
            if p.0 < p.1 {
                assert(is_space(s[p.0]));
            }
        }
    }
}

proof fn variables_are_searched_on(env: Seq<Var>, key: Seq<char>, from: int, i: int)
    requires
        0 <= from <= i <= env.len(),
        forall|k: int| from <= k < i ==> (#[trigger] env[k]).key@ != key,
    ensures
        var_from(env, key, from) == var_from(env, key, i),
    decreases i - from,
{
    if from < i {
        variables_are_searched_on(env, key, from + 1, i);
    }
}

/// The fault that is reported is the first one, in the order in which the
/// variables are read.
pub proof fn the_first_fault_is_reported(faults: Seq<Option<ConfigErrorView>>, from: int) -> (i: int)
    requires
        0 <= from <= faults.len(),
    ensures
        from <= i <= faults.len(),
        forall|k: int| from <= k < i ==> #[trigger] faults[k] is None,
        i < faults.len() ==> faults[i] is Some && first_fault(faults, from) == faults[i],
        i == faults.len() ==> first_fault(faults, from) is None,
    decreases faults.len() - from,
{
    if from == faults.len() || faults[from] is Some {
        from
    } else {
        the_first_fault_is_reported(faults, from + 1)
    }
}

/// A count that stands in a variable, with white space around it, is read as
/// itself; a variable that is not set gives the fallback.
pub proof fn a_count_is_read_from_its_variable(
    env: Seq<Var>,
    key: Seq<char>,
    n: nat,
    max: nat,
    fallback: nat,
)
    ensures
        set_var(env, key) is None ==> unsigned_var(env, key, max, fallback) == Some(fallback),
        set_var(env, key) is Some && trimmed(env[set_var(env, key)->0].value@) == decimal(n) && n
            <= max ==> unsigned_var(env, key, max, fallback) == Some(n),
        set_var(env, key) is Some && trimmed(env[set_var(env, key)->0].value@) == decimal(n) && n
            > max ==> unsigned_var(env, key, max, fallback) is None,
{
    a_written_number_is_read_back(n, max);
}

/// Whether a count is what a variable says, or the default where it is not set.
pub open spec fn says_count(env: Seq<Var>, key: Seq<char>, n: usize, default: nat) -> bool {
    if set_var(env, key) is Some {
        unsigned_of(trimmed(env[set_var(env, key)->0].value@), usize::MAX as nat) == Some(n as nat)
    } else {
        n == default
    }
}

/// Whether a whole number is what a variable says, or the default.
pub open spec fn says_integer(env: Seq<Var>, key: Seq<char>, n: i64, default: int) -> bool {
    if set_var(env, key) is Some {
        signed_of(trimmed(env[set_var(env, key)->0].value@)) == Some(n as int)
    } else {
        n == default
    }
}

/// Whether a number is what a variable says, or the one of this pattern.
pub open spec fn says_number(env: Seq<Var>, key: Seq<char>, x: Score, default: u32) -> bool {
    if set_var(env, key) is Some {
        env[set_var(env, key)->0].number == Some(x)
    } else {
        x.bits == default
    }
}

/// Every setting is what its own variable says, or the measured default where
/// the variable is not set.
pub proof fn every_setting_is_read_from_its_own_variable(s: Settings, env: Seq<Var>, d: Config)
    requires
        is_standard(d),
        settings_from(s, env, d),
    ensures
        says_count(env, "MAX_CONCURRENCY"@, s.max_concurrency, 4),
        says_count(env, "READ_CHUNK_CHARS"@, s.read_chunk_chars, 4000),
        says_count(env, "MAX_PROVENANCE_IDS"@, s.max_provenance_ids, 50),
        says_count(env, "CLUSTERS_PROBED"@, s.pipeline.clusters_probed, 5),
        says_integer(env, "PER_CLUSTER_K"@, s.pipeline.per_cluster_k, 20),
        says_integer(env, "PER_ARM_K"@, s.pipeline.per_arm_k, 20),
        says_count(env, "TOP_K"@, s.pipeline.top_k, 10),
        says_count(env, "SNIPPET_CHARS"@, s.pipeline.snippet_chars, 280),
        says_count(env, "GATE_SAMPLE"@, s.pipeline.gate_sample, 5),
        says_number(env, "DENSE_WEIGHT"@, s.pipeline.dense_weight, 0),
        says_number(env, "SPARSE_WEIGHT"@, s.pipeline.sparse_weight, 0x3f80_0000),
        says_number(env, "TEXT_WEIGHT"@, s.pipeline.text_weight, 0x3f80_0000),
        says_number(env, "CANARY_MIN_COSINE"@, s.pipeline.canary_min_cosine, 0x3f7a_e148),
        says_number(env, "DOMAIN_FLOOR"@, s.pipeline.domain_floor, 0x3ee6_6666),
        says_number(env, "DOMAIN_LEXICAL_FLOOR"@, s.pipeline.domain_lexical_floor, 0x3ecc_cccd),
        s.pipeline.cluster_batch == 1,
        s.pipeline.candidate_pool == 60,
        s.pipeline.expand_seeds == 5,
        s.pipeline.expand_per_seed == 40,
        set_var(env, "DATABASE_URL"@) is Some ==> s.database_url@ == env[set_var(
            env,
            "DATABASE_URL"@,
        )->0].value@,
        set_var(env, "EMBED_ENDPOINT"@) is Some ==> s.embed_endpoint@ == env[set_var(
            env,
            "EMBED_ENDPOINT"@,
        )->0].value@,
        set_var(env, "BM25_VOCAB"@) is Some ==> s.bm25_vocab@ == env[set_var(
            env,
            "BM25_VOCAB"@,
        )->0].value@,
        var_from(env, "HTTP_ADDR"@, 0) is Some ==> s.http_addr@ == env[var_from(
            env,
            "HTTP_ADDR"@,
            0,
        )->0].value@,
        set_var(env, "TRANSPORT"@) is None ==> s.transport == Transport::Stdio,
        set_var(env, "TRANSPORT"@) is Some ==> transport_of(
            trimmed(env[set_var(env, "TRANSPORT"@)->0].value@),
        ) == Some(s.transport),
        set_var(env, "QUEUE_WAIT_MS"@) is None ==> s.queue_wait_ms == 2000,
        set_var(env, "QUEUE_WAIT_MS"@) is Some ==> unsigned_of(
            trimmed(env[set_var(env, "QUEUE_WAIT_MS"@)->0].value@),
            u64::MAX as nat,
        ) == Some(s.queue_wait_ms as nat),
{
}

/// Settings can work where every count is above zero and the arm weights are
/// not without a sum; else the refusal says which of them is at fault.
pub proof fn settings_work_where_nothing_is_zero(s: Settings, sum: Score, shown: Seq<char>)
    ensures
        settings_fault(s, sum, shown) is None <==> {
            &&& s.max_concurrency > 0
            &&& s.read_chunk_chars > 0
            &&& s.max_provenance_ids > 0
            &&& s.pipeline.clusters_probed > 0
            &&& s.pipeline.top_k > 0
            &&& s.pipeline.snippet_chars > 0
            &&& s.pipeline.gate_sample > 0
            &&& !(sum.bits == 0 || 0x8000_0000 <= sum.bits <= 0xff80_0000)
        },
        settings_fault(s, sum, shown) is Some ==> settings_fault(s, sum, shown)->0 is Invalid,
{
    reveal_with_fuel(first_zero, 8);
}

/// A transport has one name, and no other name stands for one.
pub proof fn a_transport_has_one_name(name: Seq<char>)
    ensures
        transport_of(name) == Some(Transport::Stdio) <==> name == "stdio"@,
        transport_of(name) == Some(Transport::Http) <==> name == "http"@,
{
    reveal_strlit("stdio");
    reveal_strlit("http");
    assert("stdio"@.len() == 5 && "http"@.len() == 4);
}

} // verus!
