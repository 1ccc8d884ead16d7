//! Analysis core of a language server for a small schema-definition language.
//!
//! Source text is split into tokens, parsed into declarations of models and
//! enums, indexed by name, and then queried for completions and hover text at
//! a cursor position.

pub mod span;
pub mod text;
pub mod order;
pub mod lexer;
pub mod ast;
pub mod syntax;
pub mod grammar;
pub mod parser;
pub mod provenance;
pub mod recovery;
pub mod symbols;
pub mod checks;
pub mod resolve;
pub mod completion;
pub mod hover;
pub mod document;
pub mod store;
pub mod protocol;
