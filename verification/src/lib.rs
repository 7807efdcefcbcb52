//! A tape-based esoteric-language interpreter.
//!
//! The interpreter executes a textual instruction stream against a
//! fixed-size mutable byte tape. A capability level (0-3) gates layered
//! extended instruction sets on top of the classic eight opcodes.
//!
//! `semantics` is the mathematical model: a small-step transition
//! function and its fuel-indexed iteration. `machine` is the executable
//! core, verified against that model one opcode at a time. `cpu` is the
//! run-to-completion front end, and `laws` states and proves the
//! properties the engine is meant to have.

pub mod cpu;
pub mod laws;
pub mod machine;
pub mod semantics;

pub use cpu::Cpu;
