use vstd::prelude::*;
use crate::memory::{Memory, MemoryEntry};
use crate::register_def::{NUM_REGISTERS, REG_INSTR_PTR};

verus! {

/// The register file and the comparison flag.
#[derive(Clone, Copy, Debug, PartialEq, Eq)]
pub struct CPUState {
    pub regs: [u64; NUM_REGISTERS],
    pub cmp_flag: bool,
}

impl CPUState {
    /// The address of the next instruction.
    pub fn instr_ptr(&self) -> (r: u64)
        ensures
            r == self.regs@[REG_INSTR_PTR as int],
    {
        self.regs[REG_INSTR_PTR]
    }
}

/// Everything an instruction can read or change.
pub struct VMState {
    pub cpu: CPUState,
    pub mem: Memory,
    pub stop_execution: bool,
}

/// The mathematical picture of a machine state.
pub struct MachineView {
    pub regs: Seq<u64>,
    pub cmp_flag: bool,
    pub mem: Seq<MemoryEntry>,
    pub halted: bool,
}

impl MachineView {
    /// A full register file, and memory whose addresses fit in 64 bits.
    pub open spec fn wf(&self) -> bool {
        &&& self.regs.len() == NUM_REGISTERS
        &&& self.mem.len() <= u64::MAX
    }
}

impl View for VMState {
    type V = MachineView;

    open spec fn view(&self) -> MachineView {
        MachineView {
            regs: self.cpu.regs@,
            cmp_flag: self.cpu.cmp_flag,
            mem: self.mem@,
            halted: self.stop_execution,
        }
    }
}

impl VMState {
    /// A machine that has not halted, with the given registers and memory.
    pub fn new(cpu: CPUState, mem: Memory) -> (r: VMState)
        ensures
            r.cpu == cpu,
            r.mem@ == mem@,
            !r.stop_execution,
    {
        VMState { cpu, mem, stop_execution: false }
    }
}

} // verus!
