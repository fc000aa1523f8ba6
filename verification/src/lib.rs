//! Schema-driven source generation: a type model, a dictionary of resolved
//! types, the analysis of reference cycles between them, and a driver that
//! hands every type to the writer of its kind.

pub mod code_gen;
pub mod definitions;
pub mod utils;
