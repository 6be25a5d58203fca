//! An in-memory columnar record store whose schema grows as new metric ids are seen.
//!
//! `schema` gives each metric id a stable slot per storage class, `row` keeps one row's values
//! with a null bit per slot, `key` orders row keys, and `store` keeps rows sorted by key.
//! `sampler` holds the decisions and arithmetic of a periodic progress reporter, `bitset` a
//! growable bit set, `cli` the parser of a type list, and `text` byte-wise string order.

pub mod bitset;
pub mod cli;
pub mod key;
pub mod row;
pub mod sampler;
pub mod schema;
pub mod stats;
pub mod store;
pub mod text;
