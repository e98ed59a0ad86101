//! A line-oriented scripting-language interpreter ("Ben shell") with a few
//! companion utilities: a parser that turns indentation-structured script text
//! into a statement tree, an evaluator that walks that tree against a mutable
//! variable store, a builtin command library, and small helpers for JSON
//! emission, HTTP message handling and string slicing.
//!
//! All outside work (process spawning, the filesystem, the network) is kept
//! behind a small action/event protocol: the evaluator decides, the caller
//! performs.

pub mod ast;
pub mod builtins;
pub mod capture;
pub mod context;
pub mod evaluate;
pub mod http;
pub mod interpolate;
pub mod json;
pub mod machine;
pub mod mdtests;
pub mod parsing;
pub mod slides;
pub mod strutil;
pub mod text;
