//! A small ahead-of-time compiler for the Rot language.
//!
//! Source text is scanned into tokens, the tokens are split into functions,
//! each function body is lowered to stack operations, its block keywords are
//! resolved to jump targets, its stack effect is checked, and x86-64 assembly
//! is written for it. A parser of the same tokens into statements and
//! expressions stands beside that pipeline.
//!
//! Every function states what it returns as a function of what it is given;
//! `laws` holds what follows for the passes as a whole.

pub mod text;
pub mod data_types;
pub mod intrinsics;
pub mod class;
pub mod lexer;
pub mod ast;
pub mod compiler;
pub mod ir;
pub mod control_flow;
pub mod type_check;
pub mod assembly;
pub mod cli;
pub mod laws;
