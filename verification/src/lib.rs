//! Building blocks for generating git fixture repositories from declarative
//! definitions: the deterministic generator, definition checks, command-line
//! parsing and the plans that a repository writer carries out.

pub mod cli;
pub mod graph;
pub mod rng;
pub mod text;
pub mod types;
pub mod validate;
pub mod explicit;
pub mod bulk;
pub mod tree;
