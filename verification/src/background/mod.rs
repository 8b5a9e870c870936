//! Background tasks and the watches kept on them.

pub mod laws;
pub mod manager;
pub mod model;
pub mod outcomes;
pub mod repeats;
