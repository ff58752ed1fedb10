use cpu_emu::cpu_ops::{CpuOp, Width};
use cpu_emu::error::VmError;
use cpu_emu::intruction_decoder::{
    decode_instruction, instruction_len, Instruction, ADD, COND_JMP, DIV, HALT, JMP, LESS, LOAD,
    LOAD16, LOAD32, LOAD8, LOAD_IMMEDIATE, MUL, POP_STACK, PUSH_STACK, STORE, STORE16, STORE32,
    STORE8, SUB,
};
use cpu_emu::memory::Memory;

fn memory_with(bytes: &[u8], capacity: usize) -> Memory {
    let mut mem = Memory::new(capacity);
    mem.write_bytes(0, &bytes.to_vec()).unwrap();
    mem
}

fn decode_at_zero(bytes: &[u8]) -> Result<Instruction, VmError> {
    decode_instruction(0, &memory_with(bytes, 16))
}

#[test]
fn decodes_arithmetic() {
    assert_eq!(
        decode_at_zero(&[ADD, 2, 3, 4]),
        Ok(Instruction { op: CpuOp::Add { left: 2, right: 3, dst: 4 }, start: 0, len: 4 })
    );
    assert_eq!(decode_at_zero(&[SUB, 1, 2, 3]).unwrap().op, CpuOp::Sub { left: 1, right: 2, dst: 3 });
    assert_eq!(decode_at_zero(&[DIV, 1, 2, 3]).unwrap().op, CpuOp::Div { left: 1, right: 2, dst: 3 });
    assert_eq!(decode_at_zero(&[MUL, 1, 2, 3]).unwrap().op, CpuOp::Mul { left: 1, right: 2, dst: 3 });
}

#[test]
fn decodes_loads_and_stores() {
    let cases = [
        (LOAD, CpuOp::Load { width: Width::W64, addr_reg: 5, dst: 6 }),
        (LOAD8, CpuOp::Load { width: Width::W8, addr_reg: 5, dst: 6 }),
        (LOAD16, CpuOp::Load { width: Width::W16, addr_reg: 5, dst: 6 }),
        (LOAD32, CpuOp::Load { width: Width::W32, addr_reg: 5, dst: 6 }),
        (STORE, CpuOp::Store { width: Width::W64, src: 5, addr_reg: 6 }),
        (STORE8, CpuOp::Store { width: Width::W8, src: 5, addr_reg: 6 }),
        (STORE16, CpuOp::Store { width: Width::W16, src: 5, addr_reg: 6 }),
        (STORE32, CpuOp::Store { width: Width::W32, src: 5, addr_reg: 6 }),
    ];
    for (opc, op) in cases {
        assert_eq!(decode_at_zero(&[opc, 5, 6]), Ok(Instruction { op, start: 0, len: 3 }));
    }
}

#[test]
fn decodes_control_and_misc() {
    assert_eq!(decode_at_zero(&[LESS, 6, 4]).unwrap(), Instruction { op: CpuOp::Less { left: 6, right: 4 }, start: 0, len: 3 });
    assert_eq!(decode_at_zero(&[LOAD_IMMEDIATE, 9, 250]).unwrap(), Instruction { op: CpuOp::LoadImmediate { dst: 9, value: 250 }, start: 0, len: 3 });
    assert_eq!(decode_at_zero(&[JMP, 24]).unwrap(), Instruction { op: CpuOp::Jmp { target: 24 }, start: 0, len: 2 });
    assert_eq!(decode_at_zero(&[COND_JMP, 24]).unwrap(), Instruction { op: CpuOp::CondJmp { target: 24 }, start: 0, len: 2 });
    assert_eq!(decode_at_zero(&[HALT]).unwrap(), Instruction { op: CpuOp::Halt, start: 0, len: 1 });
    assert_eq!(decode_at_zero(&[PUSH_STACK]).unwrap(), Instruction { op: CpuOp::PushStack, start: 0, len: 1 });
    assert_eq!(decode_at_zero(&[POP_STACK]).unwrap(), Instruction { op: CpuOp::PopStack, start: 0, len: 1 });
}

#[test]
fn decodes_at_an_offset() {
    let mem = memory_with(&[HALT, HALT, ADD, 2, 3, 2], 16);
    assert_eq!(
        decode_instruction(2, &mem),
        Ok(Instruction { op: CpuOp::Add { left: 2, right: 3, dst: 2 }, start: 2, len: 4 })
    );
}

#[test]
fn instruction_lengths() {
    assert_eq!(instruction_len(ADD), 4);
    assert_eq!(instruction_len(LESS), 3);
    assert_eq!(instruction_len(STORE8), 3);
    assert_eq!(instruction_len(LOAD_IMMEDIATE), 3);
    assert_eq!(instruction_len(COND_JMP), 2);
    assert_eq!(instruction_len(HALT), 1);
    assert_eq!(instruction_len(POP_STACK), 1);
}

#[test]
fn unknown_opcode() {
    let mem = memory_with(&[HALT, 200], 8);
    assert_eq!(decode_instruction(1, &mem), Err(VmError::UnknownOpcode { addr: 1, opcode: 200 }));
    assert_eq!(decode_at_zero(&[19]), Err(VmError::UnknownOpcode { addr: 0, opcode: 19 }));
}

#[test]
fn decode_out_of_bounds() {
    let mem = memory_with(&[HALT, HALT, ADD, 2], 4);
    assert_eq!(decode_instruction(4, &mem), Err(VmError::OutOfBounds { addr: 4 }));
    assert_eq!(decode_instruction(2, &mem), Err(VmError::OutOfBounds { addr: 4 }));
}

#[test]
fn operands_naming_no_register_still_decode() {
    assert_eq!(
        decode_at_zero(&[ADD, 200, 0, 0]),
        Ok(Instruction { op: CpuOp::Add { left: 200, right: 0, dst: 0 }, start: 0, len: 4 })
    );
    assert_eq!(
        decode_at_zero(&[LOAD_IMMEDIATE, 99, 1]),
        Ok(Instruction { op: CpuOp::LoadImmediate { dst: 99, value: 1 }, start: 0, len: 3 })
    );
    assert_eq!(
        decode_at_zero(&[STORE, 1, 255]),
        Ok(Instruction { op: CpuOp::Store { width: Width::W64, src: 1, addr_reg: 255 }, start: 0, len: 3 })
    );
}
