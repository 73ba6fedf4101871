//! A small module bundler core: discovers the import graph of a program
//! entry file, assigns dense ids to the discovered assets, records each
//! asset's specifier-to-id dependency map, and packages the finished graph
//! into a single self-executing artifact text.
//!
//! Reading source files, parsing, resolving specifiers against the file
//! system and lowering the source dialect are the work of external
//! collaborators; this crate holds the graph bookkeeping and the packaging,
//! and receives the collaborators' results as plain values.

pub mod asset;
pub mod bundler;
pub mod emit;
pub mod error;
