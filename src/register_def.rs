use vstd::prelude::*;

verus! {

/// Register 0 holds the address of the next instruction.
pub const REG_INSTR_PTR: usize = 0;

/// Register 1 holds the address of the next free stack byte.
pub const REG_STACK_PTR: usize = 1;

pub const REG_X: usize = 2;

pub const REG_Y: usize = 3;

pub const REG_Z: usize = 4;

pub const REG_A: usize = 5;

pub const REG_B: usize = 6;

pub const REG_C: usize = 7;

pub const REG_D: usize = 8;

pub const REG_E: usize = 9;

pub const REG_F: usize = 10;

pub const REG_G: usize = 11;

/// Size of the register file.
pub const NUM_REGISTERS: usize = 12;

} // verus!
