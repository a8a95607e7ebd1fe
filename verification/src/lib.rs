//! A binary image compiler: lexer, token stream, typed operand values,
//! constant arithmetic, location tracking and extension plumbing, each with
//! a machine-checked contract.

pub mod diags;
pub mod depth_guard;
pub mod token;
pub mod text;
pub mod lexer;
pub mod fmt;
pub mod ast;
pub mod tree;
pub mod ir;
pub mod ir_base;
pub mod irdb;
pub mod const_eval;
pub mod arith;
pub mod binop;
pub mod locationdb;
pub mod ranges;
pub mod engine;
pub mod exec_phase;
pub mod layout_phase;
pub mod layout_pass;
pub mod ireval;
pub mod argvaldb;
pub mod extension;
pub mod astdb;
pub mod layoutdb;
pub mod lineardb;
pub mod linearizer;
pub mod constdb;
pub mod laws;
