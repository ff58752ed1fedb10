use cpu_emu::cpu_ops::{
    execute, make_cpu_op_add, make_cpu_op_cond_jmp, make_cpu_op_div, make_cpu_op_halt, make_cpu_op_jmp,
    make_cpu_op_less, make_cpu_op_load_64, make_cpu_op_load_8, make_cpu_op_load_immediate,
    make_cpu_op_load_state_from_stack, make_cpu_op_mul, make_cpu_op_push_state_to_stack,
    make_cpu_op_store_64, make_cpu_op_store_8, make_cpu_op_sub, CpuOp, Width, FRAME_LEN,
};
use cpu_emu::error::VmError;
use cpu_emu::memory::Memory;
use cpu_emu::register_def::{NUM_REGISTERS, REG_INSTR_PTR, REG_STACK_PTR};
use cpu_emu::state::{CPUState, VMState};

fn machine(regs: [u64; NUM_REGISTERS], capacity: usize) -> VMState {
    VMState::new(CPUState { regs, cmp_flag: false }, Memory::new(capacity))
}

fn regs_with(pairs: &[(usize, u64)]) -> [u64; NUM_REGISTERS] {
    let mut regs = [0u64; NUM_REGISTERS];
    for &(i, v) in pairs {
        regs[i] = v;
    }
    regs
}

#[test]
fn constructors_carry_operands() {
    assert_eq!(make_cpu_op_add(2, 3, 4), CpuOp::Add { left: 2, right: 3, dst: 4 });
    assert_eq!(make_cpu_op_sub(2, 3, 4), CpuOp::Sub { left: 2, right: 3, dst: 4 });
    assert_eq!(make_cpu_op_mul(2, 3, 4), CpuOp::Mul { left: 2, right: 3, dst: 4 });
    assert_eq!(make_cpu_op_div(2, 3, 4), CpuOp::Div { left: 2, right: 3, dst: 4 });
    assert_eq!(make_cpu_op_less(5, 6), CpuOp::Less { left: 5, right: 6 });
    assert_eq!(make_cpu_op_store_64(2, 5), CpuOp::Store { width: Width::W64, src: 2, addr_reg: 5 });
    assert_eq!(make_cpu_op_store_8(2, 5), CpuOp::Store { width: Width::W8, src: 2, addr_reg: 5 });
    assert_eq!(make_cpu_op_load_64(5, 2), CpuOp::Load { width: Width::W64, addr_reg: 5, dst: 2 });
    assert_eq!(make_cpu_op_load_8(5, 2), CpuOp::Load { width: Width::W8, addr_reg: 5, dst: 2 });
    assert_eq!(make_cpu_op_load_immediate(7, 99), CpuOp::LoadImmediate { dst: 7, value: 99 });
    assert_eq!(make_cpu_op_jmp(40), CpuOp::Jmp { target: 40 });
    assert_eq!(make_cpu_op_cond_jmp(40), CpuOp::CondJmp { target: 40 });
    assert_eq!(make_cpu_op_halt(), CpuOp::Halt);
    assert_eq!(make_cpu_op_push_state_to_stack(), CpuOp::PushStack);
    assert_eq!(make_cpu_op_load_state_from_stack(), CpuOp::PopStack);
}

#[test]
fn add_sub_mul_wrap_modulo_2_64() {
    let mut vm = machine(regs_with(&[(2, u64::MAX), (3, 2)]), 16);
    execute(&make_cpu_op_add(2, 3, 4), &mut vm).unwrap();
    assert_eq!(vm.cpu.regs[4], 1);
    assert_eq!(vm.cpu.regs[REG_INSTR_PTR], 4);
    execute(&make_cpu_op_sub(3, 2, 5), &mut vm).unwrap();
    assert_eq!(vm.cpu.regs[5], 3);
    execute(&make_cpu_op_mul(2, 3, 6), &mut vm).unwrap();
    assert_eq!(vm.cpu.regs[6], u64::MAX - 1);
    assert_eq!(vm.cpu.regs[REG_INSTR_PTR], 12);
}

#[test]
fn arithmetic_exact_values() {
    let mut vm = machine(regs_with(&[(2, 1_000_000), (3, 37)]), 16);
    execute(&make_cpu_op_add(2, 3, 4), &mut vm).unwrap();
    execute(&make_cpu_op_sub(2, 3, 5), &mut vm).unwrap();
    execute(&make_cpu_op_mul(2, 3, 6), &mut vm).unwrap();
    execute(&make_cpu_op_div(2, 3, 7), &mut vm).unwrap();
    assert_eq!(vm.cpu.regs[4], 1_000_037);
    assert_eq!(vm.cpu.regs[5], 999_963);
    assert_eq!(vm.cpu.regs[6], 37_000_000);
    assert_eq!(vm.cpu.regs[7], 27_027);
    assert_eq!(vm.cpu.regs[REG_INSTR_PTR], 16);
}

#[test]
fn division_by_zero_fails_and_changes_nothing() {
    let mut vm = machine(regs_with(&[(2, 10), (3, 0), (4, 77)]), 16);
    let before = vm.cpu;
    assert_eq!(execute(&make_cpu_op_div(2, 3, 4), &mut vm), Err(VmError::DivisionByZero));
    assert_eq!(vm.cpu, before);
}

#[test]
fn less_sets_flag() {
    let mut vm = machine(regs_with(&[(2, 3), (3, 5)]), 16);
    execute(&make_cpu_op_less(2, 3), &mut vm).unwrap();
    assert!(vm.cpu.cmp_flag);
    assert_eq!(vm.cpu.regs[REG_INSTR_PTR], 3);
    execute(&make_cpu_op_less(3, 2), &mut vm).unwrap();
    assert!(!vm.cpu.cmp_flag);
    execute(&make_cpu_op_less(2, 2), &mut vm).unwrap();
    assert!(!vm.cpu.cmp_flag);
}

#[test]
fn jumps_and_halt() {
    let mut vm = machine(regs_with(&[(REG_INSTR_PTR, 10)]), 16);
    execute(&make_cpu_op_cond_jmp(40), &mut vm).unwrap();
    assert_eq!(vm.cpu.regs[REG_INSTR_PTR], 12);
    vm.cpu.cmp_flag = true;
    execute(&make_cpu_op_cond_jmp(40), &mut vm).unwrap();
    assert_eq!(vm.cpu.regs[REG_INSTR_PTR], 40);
    execute(&make_cpu_op_jmp(7), &mut vm).unwrap();
    assert_eq!(vm.cpu.regs[REG_INSTR_PTR], 7);
    assert!(!vm.stop_execution);
    execute(&make_cpu_op_halt(), &mut vm).unwrap();
    assert!(vm.stop_execution);
    assert_eq!(vm.cpu.regs[REG_INSTR_PTR], 7);
}

#[test]
fn load_immediate_sets_register() {
    let mut vm = machine(regs_with(&[]), 16);
    execute(&make_cpu_op_load_immediate(9, 200), &mut vm).unwrap();
    assert_eq!(vm.cpu.regs[9], 200);
    assert_eq!(vm.cpu.regs[REG_INSTR_PTR], 3);
}

#[test]
fn store_64_is_little_endian() {
    let mut vm = machine(regs_with(&[(2, 0x0807_0605_0403_0201), (5, 4)]), 16);
    execute(&make_cpu_op_store_64(2, 5), &mut vm).unwrap();
    assert_eq!(vm.mem.read_bytes(4, 8), Ok(vec![1, 2, 3, 4, 5, 6, 7, 8]));
    for a in 4..12u64 {
        assert_eq!(vm.mem.version(a), Ok(1));
    }
    assert_eq!(vm.mem.version(3), Ok(0));
    assert_eq!(vm.mem.version(12), Ok(0));
}

#[test]
fn store_load_round_trip_each_width() {
    let value: u64 = 0x1122_3344_5566_7788;
    for (width, mask) in [
        (Width::W8, 0xFFu64),
        (Width::W16, 0xFFFF),
        (Width::W32, 0xFFFF_FFFF),
        (Width::W64, u64::MAX),
    ] {
        let mut vm = machine(regs_with(&[(2, value), (5, 20)]), 64);
        execute(&CpuOp::Store { width, src: 2, addr_reg: 5 }, &mut vm).unwrap();
        execute(&CpuOp::Load { width, addr_reg: 5, dst: 6 }, &mut vm).unwrap();
        assert_eq!(vm.cpu.regs[6], value & mask);
        assert_eq!(vm.cpu.regs[REG_INSTR_PTR], 6);
    }
}

#[test]
fn store_8_then_load_8() {
    let mut vm = machine(regs_with(&[(2, 0x1FF), (5, 3)]), 8);
    execute(&make_cpu_op_store_8(2, 5), &mut vm).unwrap();
    assert_eq!(vm.mem.get(3), Ok(0xFF));
    assert_eq!(vm.mem.get(4), Ok(0));
    execute(&make_cpu_op_load_8(5, 7), &mut vm).unwrap();
    assert_eq!(vm.cpu.regs[7], 0xFF);
}

#[test]
fn load_and_store_out_of_bounds() {
    let mut vm = machine(regs_with(&[(2, 5), (5, 10)]), 16);
    let before = vm.cpu;
    assert_eq!(execute(&make_cpu_op_store_64(2, 5), &mut vm), Err(VmError::OutOfBounds { addr: 16 }));
    assert_eq!(execute(&make_cpu_op_load_64(5, 2), &mut vm), Err(VmError::OutOfBounds { addr: 16 }));
    assert_eq!(vm.cpu, before);
    assert_eq!(vm.mem.read_bytes(0, 16), Ok(vec![0; 16]));
    vm.cpu.regs[5] = 40;
    assert_eq!(execute(&make_cpu_op_load_8(5, 2), &mut vm), Err(VmError::OutOfBounds { addr: 40 }));
}

#[test]
fn push_then_pop_restores_state() {
    let mut regs = [0u64; NUM_REGISTERS];
    for (i, r) in regs.iter_mut().enumerate() {
        *r = (i as u64 + 1) * 0x0101_0101_0101 + 0xF000_0000_0000_0000;
    }
    regs[REG_STACK_PTR] = 8;
    let mut vm = VMState::new(CPUState { regs, cmp_flag: true }, Memory::new(256));
    execute(&make_cpu_op_push_state_to_stack(), &mut vm).unwrap();
    assert_eq!(vm.cpu.regs[REG_STACK_PTR], 8 + FRAME_LEN as u64);
    assert_eq!(vm.mem.get(8 + 8 * NUM_REGISTERS as u64), Ok(1));
    vm.cpu.regs[3] = 0;
    vm.cpu.cmp_flag = false;
    execute(&make_cpu_op_load_state_from_stack(), &mut vm).unwrap();
    assert_eq!(vm.cpu.regs, regs);
    assert!(vm.cpu.cmp_flag);
}

#[test]
fn push_frame_layout() {
    let regs = regs_with(&[(REG_STACK_PTR, 100), (2, 0x0102)]);
    let mut vm = VMState::new(CPUState { regs, cmp_flag: false }, Memory::new(256));
    execute(&make_cpu_op_push_state_to_stack(), &mut vm).unwrap();
    assert_eq!(vm.mem.read_bytes(108, 8), Ok(vec![100, 0, 0, 0, 0, 0, 0, 0]));
    assert_eq!(vm.mem.read_bytes(116, 8), Ok(vec![2, 1, 0, 0, 0, 0, 0, 0]));
    assert_eq!(vm.mem.get(196), Ok(0));
    assert_eq!(vm.cpu.regs[REG_STACK_PTR], 197);
}

#[test]
fn push_past_end_and_pop_below_zero_fail() {
    let regs = regs_with(&[(REG_STACK_PTR, 200)]);
    let mut vm = VMState::new(CPUState { regs, cmp_flag: false }, Memory::new(256));
    assert_eq!(execute(&CpuOp::PushStack, &mut vm), Err(VmError::OutOfBounds { addr: 256 }));
    assert_eq!(vm.cpu.regs[REG_STACK_PTR], 200);
    vm.cpu.regs[REG_STACK_PTR] = 10;
    assert_eq!(
        execute(&CpuOp::PopStack, &mut vm),
        Err(VmError::OutOfBounds { addr: 10u64.wrapping_sub(FRAME_LEN as u64) })
    );
}

#[test]
fn operand_naming_no_register_faults_when_run() {
    let mut vm = machine(regs_with(&[(2, 4)]), 16);
    let before = vm.cpu;
    assert_eq!(execute(&CpuOp::Add { left: 2, right: 12, dst: 40 }, &mut vm), Err(VmError::InvalidRegister { index: 12 }));
    assert_eq!(execute(&CpuOp::LoadImmediate { dst: 99, value: 1 }, &mut vm), Err(VmError::InvalidRegister { index: 99 }));
    assert_eq!(execute(&CpuOp::Store { width: Width::W64, src: 1, addr_reg: 255 }, &mut vm), Err(VmError::InvalidRegister { index: 255 }));
    assert_eq!(vm.cpu, before);
}
