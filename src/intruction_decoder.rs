use vstd::prelude::*;
use crate::cpu_ops::{CpuOp, Width};
use crate::error::VmError;
use crate::memory::{Memory, MemoryEntry};

verus! {

pub const ADD: u8 = 0;

pub const SUB: u8 = 1;

pub const DIV: u8 = 2;

pub const MUL: u8 = 3;

/// 64-bit load.
pub const LOAD: u8 = 4;

/// 64-bit store.
pub const STORE: u8 = 5;

pub const HALT: u8 = 6;

pub const JMP: u8 = 7;

pub const COND_JMP: u8 = 8;

pub const LESS: u8 = 9;

pub const PUSH_STACK: u8 = 10;

pub const POP_STACK: u8 = 11;

pub const STORE8: u8 = 12;

pub const LOAD_IMMEDIATE: u8 = 13;

pub const LOAD8: u8 = 14;

pub const LOAD16: u8 = 15;

pub const STORE16: u8 = 16;

pub const LOAD32: u8 = 17;

pub const STORE32: u8 = 18;

/// A decoded instruction together with the address range `[start, start + len)`
/// it was decoded from.
#[derive(Clone, Copy, Debug, PartialEq, Eq, Structural)]
pub struct Instruction {
    pub op: CpuOp,
    pub start: u64,
    pub len: u64,
}

pub open spec fn is_opcode(opc: u8) -> bool {
    opc <= STORE32
}

pub open spec fn is_arith(opc: u8) -> bool {
    opc == ADD || opc == SUB || opc == DIV || opc == MUL
}

pub open spec fn is_load(opc: u8) -> bool {
    opc == LOAD || opc == LOAD8 || opc == LOAD16 || opc == LOAD32
}

pub open spec fn is_store(opc: u8) -> bool {
    opc == STORE || opc == STORE8 || opc == STORE16 || opc == STORE32
}

/// Bytes taken by an instruction with opcode `opc`: the opcode and its operands.
pub open spec fn opcode_len(opc: u8) -> nat {
    if is_arith(opc) {
        4
    } else if opc == LESS || is_load(opc) || is_store(opc) || opc == LOAD_IMMEDIATE {
        3
    } else if opc == JMP || opc == COND_JMP {
        2
    } else {
        1
    }
}

/// Access size of a load or store opcode.
pub open spec fn width_of(opc: u8) -> Width {
    if opc == LOAD8 || opc == STORE8 {
        Width::W8
    } else if opc == LOAD16 || opc == STORE16 {
        Width::W16
    } else if opc == LOAD32 || opc == STORE32 {
        Width::W32
    } else {
        Width::W64
    }
}

/// Operand byte `k` of the instruction at `a`, as a register index.
pub open spec fn reg_at(m: Seq<MemoryEntry>, a: u64, k: int) -> usize {
    m[a + k].value as usize
}

/// The operation encoded at `a` by the known opcode `opc`, all of whose bytes
/// lie in `m`. Register operands are taken as they stand; one that names no
/// register faults when the operation runs.
pub open spec fn decode_op(m: Seq<MemoryEntry>, a: u64, opc: u8) -> CpuOp {
    if opc == ADD {
        CpuOp::Add { left: reg_at(m, a, 1), right: reg_at(m, a, 2), dst: reg_at(m, a, 3) }
    } else if opc == SUB {
        CpuOp::Sub { left: reg_at(m, a, 1), right: reg_at(m, a, 2), dst: reg_at(m, a, 3) }
    } else if opc == DIV {
        CpuOp::Div { left: reg_at(m, a, 1), right: reg_at(m, a, 2), dst: reg_at(m, a, 3) }
    } else if opc == MUL {
        CpuOp::Mul { left: reg_at(m, a, 1), right: reg_at(m, a, 2), dst: reg_at(m, a, 3) }
    } else if opc == LESS {
        CpuOp::Less { left: reg_at(m, a, 1), right: reg_at(m, a, 2) }
    } else if is_load(opc) {
        CpuOp::Load { width: width_of(opc), addr_reg: reg_at(m, a, 1), dst: reg_at(m, a, 2) }
    } else if is_store(opc) {
        CpuOp::Store { width: width_of(opc), src: reg_at(m, a, 1), addr_reg: reg_at(m, a, 2) }
    } else if opc == LOAD_IMMEDIATE {
        CpuOp::LoadImmediate { dst: reg_at(m, a, 1), value: m[a + 2].value as u64 }
    } else if opc == JMP {
        CpuOp::Jmp { target: m[a + 1].value as u64 }
    } else if opc == COND_JMP {
        CpuOp::CondJmp { target: m[a + 1].value as u64 }
    } else if opc == PUSH_STACK {
        CpuOp::PushStack
    } else if opc == POP_STACK {
        CpuOp::PopStack
    } else {
        CpuOp::Halt
    }
}

/// The instruction at address `a` of memory `m`, or why there is none: `a`
/// lies outside memory, its byte is no opcode, or the instruction runs past the
/// end of memory (the first missing byte is named).
pub open spec fn spec_decode(m: Seq<MemoryEntry>, a: u64) -> Result<Instruction, VmError> {
    if a >= m.len() {
        Err(VmError::OutOfBounds { addr: a })
    } else {
        let opc = m[a as int].value;
        if !is_opcode(opc) {
            Err(VmError::UnknownOpcode { addr: a, opcode: opc })
        } else if a + opcode_len(opc) > m.len() {
            Err(VmError::OutOfBounds { addr: m.len() as u64 })
        } else {
            Ok(Instruction { op: decode_op(m, a, opc), start: a, len: opcode_len(opc) as u64 })
        }
    }
}

/// What a successful decode yields: an instruction of one to four bytes that
/// starts at the address asked for and lies in memory.
pub proof fn lemma_decode_wf(m: Seq<MemoryEntry>, a: u64)
    requires
        spec_decode(m, a) is Ok,
    ensures
        ({
            let ins = spec_decode(m, a)->Ok_0;
            &&& ins.start == a
            &&& 1 <= ins.len <= 4
            &&& a + ins.len <= m.len()
        }),
{
}

/// A decode reads only the bytes of the instruction it returns.
pub proof fn lemma_decode_local(m1: Seq<MemoryEntry>, m2: Seq<MemoryEntry>, a: u64)
    requires
        spec_decode(m1, a) is Ok,
        m1.len() == m2.len(),
        forall|i: int|
            a <= i < a + spec_decode(m1, a)->Ok_0.len ==> #[trigger] m1[i].value == m2[i].value,
    ensures
        spec_decode(m2, a) == spec_decode(m1, a),
{
    let len = spec_decode(m1, a)->Ok_0.len;
    assert(m1[a as int].value == m2[a as int].value);
    if len > 1 {
        assert(m1[a + 1].value == m2[a + 1].value);
    }
    if len > 2 {
        assert(m1[a + 2].value == m2[a + 2].value);
    }
    if len > 3 {
        assert(m1[a + 3].value == m2[a + 3].value);
    }
}

/// Length of the instruction that starts with opcode `opc`.
pub fn instruction_len(opc: u8) -> (r: u64)
    ensures
        r == opcode_len(opc),
{
    if opc == ADD || opc == SUB || opc == DIV || opc == MUL {
        4
    } else if opc == LESS || opc == LOAD || opc == LOAD8 || opc == LOAD16 || opc == LOAD32
        || opc == STORE || opc == STORE8 || opc == STORE16 || opc == STORE32 || opc
        == LOAD_IMMEDIATE {
        3
    } else if opc == JMP || opc == COND_JMP {
        2
    } else {
        1
    }
}

fn width_of_opcode(opc: u8) -> (r: Width)
    ensures
        r == width_of(opc),
{
    if opc == LOAD8 || opc == STORE8 {
        Width::W8
    } else if opc == LOAD16 || opc == STORE16 {
        Width::W16
    } else if opc == LOAD32 || opc == STORE32 {
        Width::W32
    } else {
        Width::W64
    }
}

fn operand_byte(mem: &Memory, addr: u64) -> (r: u8)
    requires
        addr < mem@.len(),
    ensures
        r == mem@[addr as int].value,
{
    match mem.get(addr) {
        Ok(b) => b,
        Err(_) => 0,
    }
}

fn reg_operand(mem: &Memory, a: u64, k: u64) -> (r: usize)
    requires
        a + k < mem@.len(),
    ensures
        r == reg_at(mem@, a, k as int),
{
    proof {
        mem.lemma_len_fits();
    }
    operand_byte(mem, a + k) as usize
}

/// Decodes the instruction at `instr_ptr`.
pub fn decode_instruction(instr_ptr: u64, mem: &Memory) -> (r: Result<Instruction, VmError>)
    ensures
        r == spec_decode(mem@, instr_ptr),
{
    let opc = match mem.get(instr_ptr) {
        Ok(b) => b,
        Err(e) => {
            return Err(e);
        },
    };
    if opc > STORE32 {
        return Err(VmError::UnknownOpcode { addr: instr_ptr, opcode: opc });
    }
    let len = instruction_len(opc);
    let total = mem.len() as u64;
    proof {
        mem.lemma_len_fits();
    }
    if len > total - instr_ptr {
        return Err(VmError::OutOfBounds { addr: total });
    }
    let a = instr_ptr;
    let op = if opc == ADD {
        CpuOp::Add {
            left: reg_operand(mem, a, 1),
            right: reg_operand(mem, a, 2),
            dst: reg_operand(mem, a, 3),
        }
    } else if opc == SUB {
        CpuOp::Sub {
            left: reg_operand(mem, a, 1),
            right: reg_operand(mem, a, 2),
            dst: reg_operand(mem, a, 3),
        }
    } else if opc == DIV {
        CpuOp::Div {
            left: reg_operand(mem, a, 1),
            right: reg_operand(mem, a, 2),
            dst: reg_operand(mem, a, 3),
        }
    } else if opc == MUL {
        CpuOp::Mul {
            left: reg_operand(mem, a, 1),
            right: reg_operand(mem, a, 2),
            dst: reg_operand(mem, a, 3),
        }
    } else if opc == LESS {
        CpuOp::Less { left: reg_operand(mem, a, 1), right: reg_operand(mem, a, 2) }
    } else if opc == LOAD || opc == LOAD8 || opc == LOAD16 || opc == LOAD32 {
        CpuOp::Load {
            width: width_of_opcode(opc),
            addr_reg: reg_operand(mem, a, 1),
            dst: reg_operand(mem, a, 2),
        }
    } else if opc == STORE || opc == STORE8 || opc == STORE16 || opc == STORE32 {
        CpuOp::Store {
            width: width_of_opcode(opc),
            src: reg_operand(mem, a, 1),
            addr_reg: reg_operand(mem, a, 2),
        }
    } else if opc == LOAD_IMMEDIATE {
        CpuOp::LoadImmediate { dst: reg_operand(mem, a, 1), value: operand_byte(mem, a + 2) as u64 }
    } else if opc == JMP {
        CpuOp::Jmp { target: operand_byte(mem, a + 1) as u64 }
    } else if opc == COND_JMP {
        CpuOp::CondJmp { target: operand_byte(mem, a + 1) as u64 }
    } else if opc == PUSH_STACK {
        CpuOp::PushStack
    } else if opc == POP_STACK {
        CpuOp::PopStack
    } else {
        CpuOp::Halt
    };
    Ok(Instruction { op, start: a, len })
}

} // verus!
