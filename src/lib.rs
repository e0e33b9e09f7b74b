//! A small compiler for a minimal imperative language: source text is lexed
//! into positioned tokens, parsed into a scope-checked program, and lowered to
//! AArch64 assembly text.

pub mod text;
pub mod token;
pub mod patterns;
pub mod lexer;
pub mod parser;
pub mod target;
pub mod generator;
pub mod compiler;
pub mod cli;
