//! Verified core of the luck Lua/Luau toolchain: the syntax tree, its
//! programmatic synthesis, and its rewriting and visiting walkers,
//! node-type sets, identifier and string-literal rules, the bundler's
//! dependency ordering and emission, and the command line's grammar and
//! decisions.

pub mod args;
pub mod ast;
pub mod bundle;
pub mod cli;
pub mod corpus;
pub mod emitter;
pub mod graph;
pub mod ident;
pub mod literal;
pub mod loader;
pub mod module;
pub mod node;
pub mod prefix;
pub mod punctuated;
pub mod query;
pub mod require;
pub mod splice;
pub mod synth;
pub mod text;
pub mod transform;
pub mod version;
pub mod visitor;
