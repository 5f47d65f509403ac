//! A small toolchain for a minimalist tape-based language: an instruction
//! representation, an optimizing rewriter, an interpreter over a finite
//! wrapping tape or an unbounded growing tape, and code generators.

pub mod bytecode;
pub mod cgen;
pub mod compilers;
pub mod decimal;
pub mod instruction;
pub mod interpreter;
pub mod laws;
pub mod optimizer;
pub mod parser;
pub mod rustgen;
pub mod semantics;
