//! A small interpreter for a stack-based, Forth-like language.
//!
//! Source text is split and tagged by an external grammar; this crate
//! classifies the tagged syntax nodes into typed instructions and executes
//! them against an operand stack, a flat memory region and a symbol table.

pub mod data;
pub mod exec;
pub mod laws;
pub mod render;
pub mod stack;
pub mod token;
