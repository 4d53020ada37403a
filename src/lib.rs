//! Line-of-code counting: a byte-level line classifier, a language
//! registry with its resolver, and order-independent aggregation of
//! per-file tallies.

pub mod aggregate;
pub mod analyzer;
pub mod builtin;
pub mod bytes;
pub mod classifier;
pub mod filters;
pub mod format;
pub mod languages;
pub mod resolver;
pub mod types;
