//! How much a result set is trusted.

use vstd::prelude::*;

use crate::score::Score;

verus! {

/// The pattern of `0.030`.
pub const HIGH_TRUST: u32 = 0x3cf5_c28f;

/// The pattern of `0.020`.
pub const MEDIUM_TRUST: u32 = 0x3ca3_d70a;

/// How much the engine trusts a result set.
#[derive(Debug, Clone, Copy, PartialEq, Eq, Structural)]
pub enum Trust {
    High,
    Medium,
    Low,
    Absent,
}

/// Derives trust from what routing and retrieval found. An empty result set is
/// absent, never low: to have found nothing and to have found something weak
/// are different answers.
pub fn trust_from(domain_matched: bool, results: usize, top_score: Score) -> (r: Trust)
    ensures
        r == if !domain_matched || results == 0 {
            Trust::Absent
        } else if (Score { bits: HIGH_TRUST }).le_spec(top_score) {
            Trust::High
        } else if (Score { bits: MEDIUM_TRUST }).le_spec(top_score) {
            Trust::Medium
        } else {
            Trust::Low
        },
{
    if !domain_matched || results == 0 {
        return Trust::Absent;
    }
    let high = Score { bits: HIGH_TRUST };
    let medium = Score { bits: MEDIUM_TRUST };
    if high.le(top_score) {
        Trust::High
    } else if medium.le(top_score) {
        Trust::Medium
    } else {
        Trust::Low
    }
}

/// Trust grows with the best score: it steps up at 0.020 and at 0.030, and
/// without results there is none.
pub proof fn trust_steps_up_with_the_best_score(top: Score)
    requires
        top.bits < 0x7f80_0000,
    ensures
        (Score { bits: HIGH_TRUST }).le_spec(top) <==> top.bits >= 0x3cf5_c28f,
        (Score { bits: MEDIUM_TRUST }).le_spec(top) <==> top.bits >= 0x3ca3_d70a,
{
}

} // verus!
