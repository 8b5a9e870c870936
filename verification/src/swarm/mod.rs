//! Swarm plans: what their watch sees of them, and how a plan is driven in the
//! background.

pub mod driver;
pub mod outcomes;
pub mod plan;
