//! Durable watches over orchestrated jobs.

pub mod laws;
pub mod model;
pub mod outcomes;
pub mod registry;
pub mod store;
pub mod transition;
