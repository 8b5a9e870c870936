//! What an agent puts into its prompt.

pub mod enrichment;
pub mod outcomes;
pub mod prompting;
