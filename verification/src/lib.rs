//! A small language toolchain core: a lexical scanner that turns source text
//! into typed tokens, and a stack-based virtual machine that executes a
//! compact bytecode encoding held in chunks.

pub mod chunk;
pub mod compiler;
pub mod errors;
pub mod scanner;
pub mod vm;
