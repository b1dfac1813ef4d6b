//! Runtime configuration, and the vector space that corpus and query share.

use vstd::prelude::*;
use vstd::string::*;

use crate::score::Score;
use crate::text::{decimal, same, show};

verus! {

/// Instruction prepended to queries only. Documents are embedded bare.
pub const DEFAULT_QUERY_INSTRUCTION: &'static str =
    "Instruct: Given a legal or regulatory question, retrieve passages that answer it\nQuery: ";

/// The vector space a corpus lives in. Corpus and query must agree on it.
#[derive(Debug, PartialEq, Eq)]
pub struct EmbeddingSpace {
    /// Provider-qualified model id.
    pub model_id: String,
    /// Vector width.
    pub dim: usize,
    /// Whether stored vectors are normalized.
    pub normalized: bool,
    /// Instruction prepended to queries.
    pub query_instruction: String,
}

/// A space, as what it says.
pub ghost struct SpaceView {
    pub model_id: Seq<char>,
    pub dim: usize,
    pub normalized: bool,
    pub query_instruction: Seq<char>,
}

/// How a truth value is written.
pub open spec fn bool_text(b: bool) -> Seq<char> {
    if b {
        "true"@
    } else {
        "false"@
    }
}

fn show_bool(b: bool) -> (r: String)
    ensures
        r@ == bool_text(b),
{
    if b {
        "true".to_owned()
    } else {
        "false".to_owned()
    }
}

/// The query side and the corpus side disagree about the vector space.
#[derive(Debug, PartialEq, Eq)]
pub struct SpaceMismatch {
    pub field: &'static str,
    pub expected: String,
    pub actual: String,
}

/// A disagreement, as what it says: the field, what the corpus was built with,
/// and what the engine is configured for.
pub ghost struct Disagreement {
    pub field: Seq<char>,
    pub expected: Seq<char>,
    pub actual: Seq<char>,
}

impl SpaceMismatch {
    pub open spec fn view(self) -> Disagreement {
        Disagreement { field: self.field@, expected: self.expected@, actual: self.actual@ }
    }

    /// The message for the operator.
    pub fn message(&self) -> (r: String)
        ensures
            r@ == "embedding space mismatch on `"@ + self.field@ + "`: corpus was built with '"@
                + self.expected@ + "' but this engine is configured for '"@ + self.actual@
                + "' · vectors would not share a space · refusing"@,
    {
        let mut s = "embedding space mismatch on `".to_owned();
        s.append(self.field);
        s.append("`: corpus was built with '");
        s.append(self.expected.as_str());
        s.append("' but this engine is configured for '");
        s.append(self.actual.as_str());
        s.append("' · vectors would not share a space · refusing");
        s
    }
}

/// The first field on which an engine and a corpus disagree. The space is
/// compared, not just the width: two models of one width share no geometry, and
/// one model under two instructions is two spaces.
pub open spec fn disagreement(engine: SpaceView, corpus: SpaceView) -> Option<Disagreement> {
    if engine.model_id != corpus.model_id {
        Some(
            Disagreement {
                field: "model_id"@,
                expected: corpus.model_id,
                actual: engine.model_id,
            },
        )
    } else if engine.dim != corpus.dim {
        Some(
            Disagreement {
                field: "dim"@,
                expected: decimal(corpus.dim as nat),
                actual: decimal(engine.dim as nat),
            },
        )
    } else if engine.normalized != corpus.normalized {
        Some(
            Disagreement {
                field: "normalized"@,
                expected: bool_text(corpus.normalized),
                actual: bool_text(engine.normalized),
            },
        )
    } else if engine.query_instruction != corpus.query_instruction {
        Some(
            Disagreement {
                field: "query_instruction"@,
                expected: corpus.query_instruction,
                actual: engine.query_instruction,
            },
        )
    } else {
        None
    }
}

impl EmbeddingSpace {
    pub open spec fn view(self) -> SpaceView {
        SpaceView {
            model_id: self.model_id@,
            dim: self.dim,
            normalized: self.normalized,
            query_instruction: self.query_instruction@,
        }
    }

    /// Qwen3-Embedding-8B at full width.
    pub fn qwen3_8b() -> (r: EmbeddingSpace)
        ensures
            r@ == (SpaceView {
                model_id: "qwen/qwen3-embedding-8b"@,
                dim: 4096,
                normalized: true,
                query_instruction: DEFAULT_QUERY_INSTRUCTION@,
            }),
    {
        EmbeddingSpace {
            model_id: "qwen/qwen3-embedding-8b".to_owned(),
            dim: 4096,
            normalized: true,
            query_instruction: DEFAULT_QUERY_INSTRUCTION.to_owned(),
        }
    }

    /// Qwen3-Embedding-0.6B.
    pub fn qwen3_06b() -> (r: EmbeddingSpace)
        ensures
            r@ == (SpaceView {
                model_id: "qwen/qwen3-embedding-0.6b"@,
                dim: 1024,
                normalized: true,
                query_instruction: DEFAULT_QUERY_INSTRUCTION@,
            }),
    {
        EmbeddingSpace {
            model_id: "qwen/qwen3-embedding-0.6b".to_owned(),
            dim: 1024,
            normalized: true,
            query_instruction: DEFAULT_QUERY_INSTRUCTION.to_owned(),
        }
    }

    /// Bytes that one vector occupies in single precision.
    pub fn bytes_per_vector(&self) -> (r: usize)
        requires
            self.dim * 4 <= usize::MAX,
        ensures
            r == self.dim * 4,
    {
        self.dim * 4
    }

    /// Rejects a corpus that was not embedded in this space, naming the first
    /// field that differs.
    pub fn assert_matches(&self, corpus: &EmbeddingSpace) -> (r: Result<(), SpaceMismatch>)
        ensures
            match r {
                Ok(_) => disagreement(self@, corpus@) is None,
                Err(e) => disagreement(self@, corpus@) == Some(e@),
            },
    {
        if !same(self.model_id.as_str(), corpus.model_id.as_str()) {
            return Err(
                SpaceMismatch {
                    field: "model_id",
                    expected: corpus.model_id.clone(),
                    actual: self.model_id.clone(),
                },
            );
        }
        if self.dim != corpus.dim {
            return Err(
                SpaceMismatch {
                    field: "dim",
                    expected: show(corpus.dim as u64),
                    actual: show(self.dim as u64),
                },
            );
        }
        if self.normalized != corpus.normalized {
            return Err(
                SpaceMismatch {
                    field: "normalized",
                    expected: show_bool(corpus.normalized),
                    actual: show_bool(self.normalized),
                },
            );
        }
        if !same(self.query_instruction.as_str(), corpus.query_instruction.as_str()) {
            return Err(
                SpaceMismatch {
                    field: "query_instruction",
                    expected: corpus.query_instruction.clone(),
                    actual: self.query_instruction.clone(),
                },
            );
        }
        Ok(())
    }
}

/// A corpus is accepted exactly where its space is the engine's, in every
/// field, and it does not matter which side is asked.
pub proof fn a_space_matches_only_itself(a: SpaceView, b: SpaceView)
    ensures
        disagreement(a, b) is None <==> a == b,
        disagreement(a, b) is None == disagreement(b, a) is None,
{
}

/// Routing dials.
#[derive(Debug, Clone, Copy, PartialEq)]
pub struct RoutingConfig {
    /// How many clusters a query opens.
    pub clusters_probed: usize,
    /// Minimum cosine against a domain anchor to accept a domain.
    pub domain_threshold: Score,
    /// Candidates kept from each probed cluster before fusion.
    pub per_cluster_top_k: usize,
}

impl Default for RoutingConfig {
    fn default() -> (r: RoutingConfig)
        ensures
            r.clusters_probed == 5,
            r.domain_threshold.bits == 0x3e80_0000,
            r.per_cluster_top_k == 50,
    {
        RoutingConfig {
            clusters_probed: 5,
            domain_threshold: Score { bits: 0x3e80_0000 },
            per_cluster_top_k: 50,
        }
    }
}

/// Result shaping and fusion.
#[derive(Debug, Clone, Copy, PartialEq)]
pub struct SearchConfig {
    pub max_results: usize,
    pub snippet_chars: usize,
    /// The damping constant of rank fusion.
    pub rrf_k: Score,
    /// Candidates the keyword half keeps.
    pub bm25_limit: usize,
}

impl Default for SearchConfig {
    fn default() -> (r: SearchConfig)
        ensures
            r.max_results == 10,
            r.snippet_chars == 320,
            r.rrf_k.bits == 0x4270_0000,
            r.bm25_limit == 50,
    {
        SearchConfig {
            max_results: 10,
            snippet_chars: 320,
            rrf_k: Score { bits: 0x4270_0000 },
            bm25_limit: 50,
        }
    }
}

/// The bounds that make peak memory provable.
#[derive(Debug, Clone, Copy, PartialEq, Eq)]
pub struct ConcurrencyConfig {
    /// Hard ceiling on searches in flight.
    pub max_concurrent: usize,
    /// Bounded queue.
    pub queue_capacity: usize,
    /// Reject after this long in the queue.
    pub wait_timeout_ms: u64,
}

impl Default for ConcurrencyConfig {
    fn default() -> (r: ConcurrencyConfig)
        ensures
            r.max_concurrent == 4,
            r.queue_capacity == 64,
            r.wait_timeout_ms == 5_000,
    {
        ConcurrencyConfig { max_concurrent: 4, queue_capacity: 64, wait_timeout_ms: 5_000 }
    }
}

/// Bounds on reading a chunk.
#[derive(Debug, Clone, Copy, PartialEq, Eq)]
pub struct ReadConfig {
    pub max_chunk_bytes: usize,
}

impl Default for ReadConfig {
    fn default() -> (r: ReadConfig)
        ensures
            r.max_chunk_bytes == 32_768,
    {
        ReadConfig { max_chunk_bytes: 32_768 }
    }
}

/// Everything the engine reads at startup.
#[derive(Debug, PartialEq)]
pub struct Config {
    pub embedding: EmbeddingSpace,
    pub routing: RoutingConfig,
    pub search: SearchConfig,
    pub concurrency: ConcurrencyConfig,
    pub read: ReadConfig,
}

impl Default for Config {
    /// The production target.
    fn default() -> (r: Config)
        ensures
            r.embedding@.model_id == "qwen/qwen3-embedding-8b"@,
            r.embedding.dim == 4096,
            r.embedding.normalized,
            r.embedding@.query_instruction == DEFAULT_QUERY_INSTRUCTION@,
            r.routing.clusters_probed == 5,
            r.routing.domain_threshold.bits == 0x3e80_0000,
            r.routing.per_cluster_top_k == 50,
            r.search.max_results == 10,
            r.search.snippet_chars == 320,
            r.search.rrf_k.bits == 0x4270_0000,
            r.search.bm25_limit == 50,
            r.concurrency.max_concurrent == 4,
            r.concurrency.queue_capacity == 64,
            r.concurrency.wait_timeout_ms == 5_000,
            r.read.max_chunk_bytes == 32_768,
    {
        Config {
            embedding: EmbeddingSpace::qwen3_8b(),
            routing: RoutingConfig::default(),
            search: SearchConfig::default(),
            concurrency: ConcurrencyConfig::default(),
            read: ReadConfig::default(),
        }
    }
}

/// What one request in flight holds at worst: the vectors of the largest
/// cluster.
pub open spec fn request_ceiling(dim: usize, largest_cluster_rows: usize) -> int {
    largest_cluster_rows * (dim * 4)
}

impl Config {
    /// Worst-case bytes that one request in flight holds, given the largest
    /// cluster. It rests on the size of one cluster and not on how many are
    /// probed, since clusters are loaded one after the other.
    pub fn per_request_ceiling_bytes(&self, largest_cluster_rows: usize) -> (r: usize)
        requires
            self.embedding.dim * 4 <= usize::MAX,
            request_ceiling(self.embedding.dim, largest_cluster_rows) <= usize::MAX,
        ensures
            r == request_ceiling(self.embedding.dim, largest_cluster_rows),
    {
        largest_cluster_rows * self.embedding.bytes_per_vector()
    }

    /// Peak memory that the design promises to stay under.
    pub fn peak_ram_bytes(&self, fixed_costs: usize, largest_cluster_rows: usize) -> (r: usize)
        requires
            self.embedding.dim * 4 <= usize::MAX,
            request_ceiling(self.embedding.dim, largest_cluster_rows) <= usize::MAX,
            fixed_costs + self.concurrency.max_concurrent * request_ceiling(
                self.embedding.dim,
                largest_cluster_rows,
            ) <= usize::MAX,
        ensures
            r == fixed_costs + self.concurrency.max_concurrent * request_ceiling(
                self.embedding.dim,
                largest_cluster_rows,
            ),
    {
        let each = self.per_request_ceiling_bytes(largest_cluster_rows);
        assert(self.concurrency.max_concurrent * each >= 0) by (nonlinear_arith)
            requires
                self.concurrency.max_concurrent >= 0,
                each >= 0,
        ;
        fixed_costs + self.concurrency.max_concurrent * each
    }
}

/// How many clusters are probed does not change what a request holds: two
/// configurations of one embedding space have one ceiling.
pub proof fn the_ceiling_does_not_grow_with_probing(a: Config, b: Config, rows: usize)
    requires
        a.embedding@ == b.embedding@,
    ensures
        request_ceiling(a.embedding.dim, rows) == request_ceiling(b.embedding.dim, rows),
{
    assert(a.embedding.dim == a.embedding@.dim);
    assert(b.embedding.dim == b.embedding@.dim);
}

/// A refusal names the first field that differs, with what the corpus was built
/// with and what the engine is configured for.
pub proof fn a_mismatch_names_the_first_field(engine: SpaceView, corpus: SpaceView)
    requires
        engine != corpus,
    ensures
        disagreement(engine, corpus) is Some,
        ({
            let d = disagreement(engine, corpus)->0;
            ||| d.field == "model_id"@ && d.expected == corpus.model_id && d.actual
                == engine.model_id && engine.model_id != corpus.model_id
            ||| d.field == "dim"@ && d.expected == decimal(corpus.dim as nat) && d.actual == decimal(
                engine.dim as nat,
            ) && engine.model_id == corpus.model_id && engine.dim != corpus.dim
            ||| d.field == "normalized"@ && d.expected == bool_text(corpus.normalized) && d.actual
                == bool_text(engine.normalized) && engine.model_id == corpus.model_id && engine.dim
                == corpus.dim && engine.normalized != corpus.normalized
            ||| d.field == "query_instruction"@ && d.expected == corpus.query_instruction
                && d.actual == engine.query_instruction && engine.model_id == corpus.model_id
                && engine.dim == corpus.dim && engine.normalized == corpus.normalized
                && engine.query_instruction != corpus.query_instruction
        }),
{
}

/// A further row of the largest cluster costs a request the bytes of one
/// vector, four for each dimension.
pub proof fn a_row_costs_four_bytes_a_dimension(dim: usize, rows: usize)
    requires
        rows < usize::MAX,
    ensures
        request_ceiling(dim, (rows + 1) as usize) == request_ceiling(dim, rows) + 4 * dim,
        request_ceiling(dim, 0) == 0,
{
    assert((rows + 1) * (dim * 4) == rows * (dim * 4) + dim * 4) by (nonlinear_arith);
}

} // verus!
