//! Core of a rule-based source formatter for a dynamically-typed scripting
//! language: a syntax-tree model with a pre-order traversal contract, a
//! priority-ordered rule system that rewrites the tree, a per-pass format
//! context, a content-addressed result cache, an extension registry, and a
//! size-based input guard.

pub mod ast;
pub mod emitter;
pub mod engine;
pub mod error;
pub mod cache;
pub mod config;
pub mod formatter;
pub mod parser;
pub mod plugin;
pub mod policy;
pub mod rules;
pub mod text;
