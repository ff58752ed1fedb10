//! A small register machine: versioned byte memory, a bytecode decoder, the
//! operation set, and an instruction cache that detects self-modifying code.

pub mod register_def;
pub mod error;
pub mod memory;
pub mod state;
pub mod cpu_ops;
pub mod intruction_decoder;
pub mod cache;
pub mod machine;
pub mod program;
