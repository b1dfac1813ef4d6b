//! Ranking: what matters, once retrieval has decided what is relevant.

pub mod factors;
pub mod routing;
