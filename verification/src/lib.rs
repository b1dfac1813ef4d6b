//! Routed, hybrid, source-cited retrieval: the decisions of the search engine,
//! each with a contract.
//!
//! Nothing here performs I/O and nothing here calculates with floating-point
//! numbers. A number that ranks is held as its bit pattern ([`score::Score`]),
//! which is enough to compare, order, bound and refuse it.

use vstd::prelude::*;

pub mod bench;
pub mod contract;
pub mod embed;
pub mod engine;
pub mod json;
pub mod numbers;
pub mod order;
pub mod patterns;
pub mod phrases;
pub mod quote;
pub mod retrieval;
pub mod sample;
pub mod score;
pub mod server;
pub mod space;
pub mod store;
pub mod text;
pub mod textmap;

verus! {

} // verus!
