//! The core of a coding agent: durable watches over orchestrated jobs, context
//! compilation from a code graph, and the rules for memory, prompts and
//! telemetry around them.

pub mod agent;
pub mod background;
pub mod clock;
pub mod context;
pub mod digest;
pub mod json;
pub mod mcp;
pub mod mcp_laws;
pub mod number;
pub mod paths;
pub mod settings;
pub mod swarm;
pub mod team_memory;
pub mod team_memory_laws;
pub mod telemetry;
pub mod text;
pub mod text_laws;
pub mod translate;
pub mod watch;
