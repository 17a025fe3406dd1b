//! A compiler for a small declarative contract-definition language: source
//! text is parsed into an abstract syntax tree, checked for referential
//! integrity, and lowered to source text for an on-chain program framework.
//! The pipeline is pure and single-pass: text in, text or one error out.

pub mod ast;
pub mod codegen;
pub mod hir;
pub mod parser;
pub mod pretty;
pub mod strings;
