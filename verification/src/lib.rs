//! A small stack-language implementation: a byte-level tokenizer, a
//! recursive-descent parser, a single-pass bytecode compiler, and a
//! stack-based virtual machine, with the compiler/VM contract stated in
//! specifications and proved.

pub mod bytes;
pub mod compiler;
pub mod numfmt;
pub mod parser;
pub mod tokenizer;
pub mod vm;
