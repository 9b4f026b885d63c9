//! A small imperative language with integer variables, functions, `if` and
//! `while`, and the built-ins `print` and `getint`.
//!
//! A source text becomes tokens (`lexer`) and then a syntax tree (`parser`,
//! `ast`). The tree runs in two ways. The interpreter (`interpreter`) walks
//! it. The compiler (`bytecode_translation`) turns it into instructions for
//! a stack machine (`vm`); the instructions can be written as words and the
//! words as decimal text (`bytecode_translation::translate`, `text`), and
//! read back. What holds of every compiled program and of every run is
//! stated and proved in `bytecode_translation::laws`, `discipline` and `vm`;
//! `agreement` proves that the two ways of running give the same output
//! for expressions without calls and for straight-line programs.

pub mod agreement;
pub mod ast;
pub mod bytecode_translation;
pub mod discipline;
pub mod error;
pub mod interpreter;
pub mod lexer;
pub mod parser;
pub mod text;
pub mod vm;
