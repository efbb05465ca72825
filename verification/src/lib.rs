//! A declarative map-styling language: a parser that turns a textual map
//! specification into a typed syntax tree with lexically scoped `data`
//! bindings, and an evaluator that resolves values against feature
//! attributes, evaluates predicate trees, and executes symbology commands
//! into a flat stream of 2D drawing operations.

pub mod ast;
pub mod error;
pub mod geom;
pub mod json;
pub mod lex;
pub mod map;
pub mod num;
pub mod op;
pub mod parser;
pub mod resolve;
pub mod source;
pub mod sym;
