//! What crosses the boundary to the database, and what is made of its rows.

pub mod meta;
pub mod search;
