use cpu_emu::cache::InstructionCache;
use cpu_emu::cpu_ops::CpuOp;
use cpu_emu::error::VmError;
use cpu_emu::intruction_decoder::{ADD, HALT, JMP, SUB};
use cpu_emu::memory::Memory;

fn memory_with(bytes: &[u8]) -> Memory {
    let mut mem = Memory::new(32);
    mem.write_bytes(0, &bytes.to_vec()).unwrap();
    mem
}

#[test]
fn first_fetch_decodes_and_caches() {
    let mem = memory_with(&[ADD, 2, 3, 4, HALT]);
    let mut cache = InstructionCache::new();
    assert!(!cache.is_fresh(0, &mem));
    let ins = cache.fetch(0, &mem).unwrap();
    assert_eq!(ins.op, CpuOp::Add { left: 2, right: 3, dst: 4 });
    assert!(cache.is_fresh(0, &mem));
    assert_eq!(cache.fetch(0, &mem).unwrap(), ins);
    assert!(!cache.is_fresh(4, &mem));
}

#[test]
fn operand_write_forces_redecode() {
    let mut mem = memory_with(&[ADD, 2, 3, 4, HALT]);
    let mut cache = InstructionCache::new();
    cache.fetch(0, &mem).unwrap();
    // overwrite only the last operand byte, with the same opcode in place
    mem.set(3, 5).unwrap();
    assert!(!cache.is_fresh(0, &mem));
    assert_eq!(cache.fetch(0, &mem).unwrap().op, CpuOp::Add { left: 2, right: 3, dst: 5 });
    assert!(cache.is_fresh(0, &mem));
}

#[test]
fn opcode_write_forces_redecode() {
    let mut mem = memory_with(&[ADD, 2, 3, 4, HALT]);
    let mut cache = InstructionCache::new();
    cache.fetch(0, &mem).unwrap();
    mem.set(0, SUB).unwrap();
    assert_eq!(cache.fetch(0, &mem).unwrap().op, CpuOp::Sub { left: 2, right: 3, dst: 4 });
}

#[test]
fn rewriting_the_same_byte_value_still_redecodes() {
    let mut mem = memory_with(&[JMP, 9]);
    let mut cache = InstructionCache::new();
    cache.fetch(0, &mem).unwrap();
    mem.set(1, 9).unwrap();
    assert!(!cache.is_fresh(0, &mem));
    assert_eq!(cache.fetch(0, &mem).unwrap().op, CpuOp::Jmp { target: 9 });
}

#[test]
fn write_outside_instruction_keeps_entry() {
    let mut mem = memory_with(&[ADD, 2, 3, 4, HALT]);
    let mut cache = InstructionCache::new();
    cache.fetch(0, &mem).unwrap();
    mem.set(4, ADD).unwrap();
    mem.set(20, 1).unwrap();
    assert!(cache.is_fresh(0, &mem));
}

#[test]
fn invalidate_forces_redecode() {
    let mem = memory_with(&[HALT]);
    let mut cache = InstructionCache::new();
    cache.fetch(0, &mem).unwrap();
    cache.invalidate(0);
    assert!(!cache.is_fresh(0, &mem));
    assert_eq!(cache.fetch(0, &mem).unwrap().op, CpuOp::Halt);
    assert!(cache.is_fresh(0, &mem));
    cache.invalidate(7);
}

#[test]
fn fetch_forwards_decode_errors() {
    let mem = memory_with(&[250]);
    let mut cache = InstructionCache::new();
    assert_eq!(cache.fetch(0, &mem), Err(VmError::UnknownOpcode { addr: 0, opcode: 250 }));
    assert!(!cache.is_fresh(0, &mem));
    assert_eq!(cache.fetch(40, &mem), Err(VmError::OutOfBounds { addr: 40 }));
}
