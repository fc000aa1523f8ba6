//! The generation engine.

pub mod abi;
pub mod error;
pub mod generator;
pub mod rust;
pub mod ts;
pub mod utils;
