//! A compiler for a small imperative language: variables, functions,
//! arrays, conditionals, loops, printing, arithmetic and comparison.
//!
//! Source text becomes tokens ([`lexer`]), tokens a syntax tree
//! ([`parser`], [`ast`]). One scan of the tree decides which parameters
//! and results are arrays ([`signature`]). The code generator lowers the
//! tree to intermediate code ([`codegen`], [`ir`]) and makes the LLVM
//! backend build it ([`emit`], [`llvm`]). Every stage fails with a
//! [`error::CompileError`], and the first error ends the compilation.
//!
//! Each stage computes a specification function of its input. Beyond
//! that, the grammar never stalls ([`parser`]), compiled code is well
//! formed ([`wellformed`], [`typing`]) and every block of it ends in a
//! terminator ([`structure`]), and a program on words alone runs as it
//! is written ([`semantics`], [`preservation`]).

pub mod ast;
pub mod codegen;
pub mod emit;
pub mod error;
pub mod ir;
pub mod lexer;
pub mod llvm;
pub mod parser;
pub mod preservation;
pub mod semantics;
pub mod signature;
pub mod structure;
pub mod text;
pub mod typing;
pub mod wellformed;
