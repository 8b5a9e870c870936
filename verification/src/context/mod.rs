//! Compilation of a code graph's answer into a bounded context package.

pub mod evaluation;
pub mod laws;
pub mod node;
pub mod output;
pub mod package;
pub mod package_laws;
pub mod query;
pub mod query_laws;
pub mod scoring;
