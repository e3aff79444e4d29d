//! Decision logic of a sandboxed script runner: lexical path normalisation,
//! binding of job arguments, rewriting of module imports, sandbox
//! configuration and selection of the result a finished script left behind.
pub mod text;
pub mod path;
pub mod json;
pub mod args;
pub mod pattern;
pub mod resolver;
pub mod tree;
pub mod outcome;
pub mod sandbox;
pub mod job;
