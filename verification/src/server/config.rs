//! What can be tuned without touching code.

use vstd::prelude::*;

use crate::contract::options::{Ceilings, FactorWeights, Mode};
use crate::engine::factors::Weights;
use crate::score::{Score, ONE_BITS};

verus! {

/// The tunables of the query path.
#[derive(Debug, Clone, Copy, PartialEq)]
pub struct Config {
    pub clusters_probed: usize,
    /// How many probed clusters go into one statement.
    pub cluster_batch: usize,
    pub per_cluster_k: i64,
    pub per_arm_k: i64,
    pub top_k: usize,
    /// How many fused candidates carry through to scoring.
    pub candidate_pool: usize,
    pub snippet_chars: usize,
    pub dense_weight: Score,
    pub sparse_weight: Score,
    pub text_weight: Score,
    /// Minimum cosine of the startup canary.
    pub canary_min_cosine: Score,
    /// Minimum similarity to the nearest centroid.
    pub domain_floor: Score,
    /// Minimum share of the query's worth that the retrieved evidence must
    /// account for.
    pub domain_lexical_floor: Score,
    /// How many sparse hits the lexical evidence is pooled over.
    pub gate_sample: usize,
    /// How many top-ranked candidates sibling expansion walks from.
    pub expand_seeds: usize,
    /// Sibling rows read per seed.
    pub expand_per_seed: i64,
    /// Relative influence of each metadata factor.
    pub factor_weights: Weights,
}

/// The measured defaults.
pub open spec fn is_standard(c: Config) -> bool {
    &&& c.clusters_probed == 5
    &&& c.cluster_batch == 1
    &&& c.per_cluster_k == 20
    &&& c.per_arm_k == 20
    &&& c.top_k == 10
    &&& c.candidate_pool == 60
    &&& c.snippet_chars == 280
    &&& c.dense_weight.bits == 0
    &&& c.sparse_weight.bits == ONE_BITS
    &&& c.text_weight.bits == ONE_BITS
    &&& c.canary_min_cosine.bits == 0x3f7a_e148
    &&& c.domain_floor.bits == 0x3ee6_6666
    &&& c.domain_lexical_floor.bits == 0x3ecc_cccd
    &&& c.gate_sample == 5
    &&& c.expand_seeds == 5
    &&& c.expand_per_seed == 40
    &&& c.factor_weights.relevance_floor.bits == 0x3e99_999a
    &&& c.factor_weights.authority.bits == 0x3f00_0000
    &&& c.factor_weights.structural.bits == 0x3e80_0000
    &&& c.factor_weights.temporal.bits == 0
    &&& c.factor_weights.completeness.bits == 0
    &&& c.factor_weights.topical.bits == 0x3e80_0000
}

impl Default for Config {
    /// The measured defaults.
    fn default() -> (r: Config)
        ensures
            is_standard(r),
    {
        Config {
            clusters_probed: 5,
            cluster_batch: 1,
            per_cluster_k: 20,
            per_arm_k: 20,
            top_k: 10,
            candidate_pool: 60,
            snippet_chars: 280,
            dense_weight: Score { bits: 0 },
            sparse_weight: Score { bits: ONE_BITS },
            text_weight: Score { bits: ONE_BITS },
            canary_min_cosine: Score { bits: 0x3f7a_e148 },
            domain_floor: Score { bits: 0x3ee6_6666 },
            domain_lexical_floor: Score { bits: 0x3ecc_cccd },
            gate_sample: 5,
            expand_seeds: 5,
            expand_per_seed: 40,
            factor_weights: Weights::fitted(),
        }
    }
}

/// The engine's weights in the shape of the wire.
pub fn weights_to_contract(w: &Weights) -> (r: FactorWeights)
    ensures
        r.relevance_floor == w.relevance_floor,
        r.authority == w.authority,
        r.structural == w.structural,
        r.temporal == w.temporal,
        r.completeness == w.completeness,
        r.topical == w.topical,
{
    FactorWeights {
        relevance_floor: w.relevance_floor,
        authority: w.authority,
        structural: w.structural,
        temporal: w.temporal,
        completeness: w.completeness,
        topical: w.topical,
    }
}

/// Weights of the wire, as the engine's.
pub open spec fn engine_weights(w: FactorWeights) -> Weights {
    Weights {
        relevance_floor: w.relevance_floor,
        authority: w.authority,
        structural: w.structural,
        temporal: w.temporal,
        completeness: w.completeness,
        topical: w.topical,
    }
}

/// The engine's weights, as the wire's.
pub open spec fn wire_weights(w: Weights) -> FactorWeights {
    FactorWeights {
        relevance_floor: w.relevance_floor,
        authority: w.authority,
        structural: w.structural,
        temporal: w.temporal,
        completeness: w.completeness,
        topical: w.topical,
    }
}

/// The inverse of [`weights_to_contract`].
pub fn weights_from_contract(w: &FactorWeights) -> (r: Weights)
    ensures
        r == engine_weights(*w),
{
    Weights {
        relevance_floor: w.relevance_floor,
        authority: w.authority,
        structural: w.structural,
        temporal: w.temporal,
        completeness: w.completeness,
        topical: w.topical,
    }
}

/// Bringing weights to the wire and back changes nothing.
pub proof fn weights_round_trip(w: Weights, c: FactorWeights)
    ensures
        engine_weights(wire_weights(w)) == w,
        wire_weights(engine_weights(c)) == c,
{
}

impl Config {
    /// What a caller may narrow toward, never past.
    pub fn ceilings(&self) -> (r: Ceilings)
        ensures
            r.top_k == self.top_k,
            r.candidate_pool == self.candidate_pool,
    {
        Ceilings { top_k: self.top_k, candidate_pool: self.candidate_pool }
    }

    /// The weights of the dense, the sparse and the text arm for a mode. A mode
    /// selects arms by zeroing weights, not by skipping retrieval.
    pub fn arm_weights(&self, mode: Mode) -> (r: (Score, Score, Score))
        ensures
            r == match mode {
                Mode::Hybrid => (self.dense_weight, self.sparse_weight, self.text_weight),
                Mode::Keyword => (Score { bits: 0 }, self.sparse_weight, self.text_weight),
                Mode::Semantic => (
                    self.dense_weight.max_spec(Score { bits: ONE_BITS }),
                    Score { bits: 0 },
                    Score { bits: 0 },
                ),
            },
    {
        match mode {
            Mode::Hybrid => (self.dense_weight, self.sparse_weight, self.text_weight),
            Mode::Keyword => (Score { bits: 0 }, self.sparse_weight, self.text_weight),
            Mode::Semantic => (
                self.dense_weight.max(Score { bits: ONE_BITS }),
                Score { bits: 0 },
                Score { bits: 0 },
            ),
        }
    }
}

} // verus!
