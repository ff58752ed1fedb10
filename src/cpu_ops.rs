use vstd::prelude::*;
use crate::error::VmError;
use crate::memory::{
    bytes_in, first_outside, in_bounds, le_bytes, le_value, lemma_le_bytes_len, lemma_le_round_trip,
    lemma_le_value_bound, lemma_read_written_range, pow256, written_range, Memory, MemoryEntry,
};
use crate::register_def::{NUM_REGISTERS, REG_INSTR_PTR, REG_STACK_PTR};
use crate::state::{CPUState, MachineView, VMState};

verus! {

/// Size of a load or store: 8, 16, 32 or 64 bits.
#[derive(Clone, Copy, Debug, PartialEq, Eq, Structural)]
pub enum Width {
    W8,
    W16,
    W32,
    W64,
}

impl Width {
    pub open spec fn spec_bytes(self) -> nat {
        match self {
            Width::W8 => 1,
            Width::W16 => 2,
            Width::W32 => 4,
            Width::W64 => 8,
        }
    }

    /// Number of bytes moved.
    pub fn bytes(&self) -> (r: usize)
        ensures
            r == self.spec_bytes(),
    {
        match self {
            Width::W8 => 1,
            Width::W16 => 2,
            Width::W32 => 4,
            Width::W64 => 8,
        }
    }
}

/// One operation with its operands. Register operands are indices into the
/// register file; loads and stores take their address from a register. Every
/// operation but a jump, `PopStack` and `Halt` ends by moving the instruction
/// pointer past its own encoding.
#[derive(Clone, Copy, Debug, PartialEq, Eq, Structural)]
pub enum CpuOp {
    /// `regs[dst] = regs[left] + regs[right]` modulo 2^64.
    Add { left: usize, right: usize, dst: usize },
    /// `regs[dst] = regs[left] - regs[right]` modulo 2^64.
    Sub { left: usize, right: usize, dst: usize },
    /// `regs[dst] = regs[left] * regs[right]` modulo 2^64.
    Mul { left: usize, right: usize, dst: usize },
    /// `regs[dst] = regs[left] / regs[right]`; a zero divisor is a fault.
    Div { left: usize, right: usize, dst: usize },
    /// `cmp = regs[left] < regs[right]`.
    Less { left: usize, right: usize },
    /// `regs[dst]` = the little-endian value of `width` at address `regs[addr_reg]`.
    Load { width: Width, addr_reg: usize, dst: usize },
    /// Writes the low `width` of `regs[src]`, little-endian, at address `regs[addr_reg]`.
    Store { width: Width, src: usize, addr_reg: usize },
    /// `regs[dst] = value`.
    LoadImmediate { dst: usize, value: u64 },
    /// `ip = target`.
    Jmp { target: u64 },
    /// `ip = target` if `cmp`, else the instruction pointer moves on.
    CondJmp { target: u64 },
    /// Writes every register (as it is before the push) and the comparison
    /// flag as one frame at `regs[stack_ptr]`, then moves the stack pointer
    /// past the frame. The instruction pointer is saved, not advanced.
    PushStack,
    /// Restores every register, the instruction pointer and the stack pointer
    /// included, and the comparison flag from the frame that ends at the stack
    /// pointer.
    PopStack,
    /// Sets the halt flag.
    Halt,
}

/// Bytes of one saved machine state: every register in eight little-endian
/// bytes, then the comparison flag in one byte.
pub const FRAME_LEN: usize = 97;

pub open spec fn reg_ok(i: usize) -> bool {
    i < NUM_REGISTERS
}

impl CpuOp {
    /// The register operands, in operand order.
    pub open spec fn register_operands(self) -> Seq<usize> {
        match self {
            CpuOp::Add { left, right, dst } => seq![left, right, dst],
            CpuOp::Sub { left, right, dst } => seq![left, right, dst],
            CpuOp::Mul { left, right, dst } => seq![left, right, dst],
            CpuOp::Div { left, right, dst } => seq![left, right, dst],
            CpuOp::Less { left, right } => seq![left, right],
            CpuOp::Load { addr_reg, dst, .. } => seq![addr_reg, dst],
            CpuOp::Store { src, addr_reg, .. } => seq![src, addr_reg],
            CpuOp::LoadImmediate { dst, .. } => seq![dst],
            _ => Seq::empty(),
        }
    }

    /// The first register operand that names no register of the file.
    pub open spec fn invalid_register(self) -> Option<usize> {
        first_invalid(self.register_operands())
    }

    /// Every register operand names a register of the file.
    pub open spec fn regs_valid(self) -> bool {
        self.invalid_register() is None
    }
}

/// The first of at most three register indices that is out of range.
pub open spec fn first_invalid(r: Seq<usize>) -> Option<usize> {
    if r.len() > 0 && !reg_ok(r[0]) {
        Some(r[0])
    } else if r.len() > 1 && !reg_ok(r[1]) {
        Some(r[1])
    } else if r.len() > 2 && !reg_ok(r[2]) {
        Some(r[2])
    } else {
        None
    }
}

/// `s` with register `i` set to `v`.
pub open spec fn set_reg(s: MachineView, i: int, v: u64) -> MachineView {
    MachineView { regs: s.regs.update(i, v), cmp_flag: s.cmp_flag, mem: s.mem, halted: s.halted }
}

/// `s` with the instruction pointer moved on by `n` bytes.
pub open spec fn advance(s: MachineView, n: u64) -> MachineView {
    set_reg(s, REG_INSTR_PTR as int, s.regs[REG_INSTR_PTR as int].wrapping_add(n))
}

pub open spec fn with_mem(s: MachineView, m: Seq<MemoryEntry>) -> MachineView {
    MachineView { regs: s.regs, cmp_flag: s.cmp_flag, mem: m, halted: s.halted }
}

/// The bytes of registers `regs`, eight little-endian bytes each, in order.
pub open spec fn regs_bytes(regs: Seq<u64>) -> Seq<u8>
    decreases regs.len(),
{
    if regs.len() == 0 {
        Seq::empty()
    } else {
        regs_bytes(regs.drop_last()) + le_bytes(regs.last() as nat, 8)
    }
}

/// The saved form of a register file and a comparison flag.
pub open spec fn frame_bytes(regs: Seq<u64>, flag: bool) -> Seq<u8> {
    regs_bytes(regs) + seq![if flag { 1u8 } else { 0u8 }]
}

/// The registers held by a saved frame.
pub open spec fn frame_regs(frame: Seq<u8>) -> Seq<u64> {
    Seq::new(NUM_REGISTERS as nat, |i: int| le_value(frame.subrange(8 * i, 8 * i + 8)) as u64)
}

/// The comparison flag held by a saved frame.
pub open spec fn frame_flag(frame: Seq<u8>) -> bool {
    frame[8 * NUM_REGISTERS as int] != 0
}

/// What `op` does to the machine state `s`: the state after it, or the fault.
/// An operand that names no register is an `InvalidRegister` fault, checked
/// before anything else.
pub open spec fn exec_spec(op: CpuOp, s: MachineView) -> Result<MachineView, VmError> {
    match op.invalid_register() {
        Some(index) => Err(VmError::InvalidRegister { index }),
        None => effect_spec(op, s),
    }
}

/// What `op`, whose register operands are all in range, does to `s`. An access
/// that runs past memory faults on the first address at or past its end; the
/// frame address of `PopStack` is computed modulo 2^64, so a stack pointer below
/// the frame size names an address far past memory.
pub open spec fn effect_spec(op: CpuOp, s: MachineView) -> Result<MachineView, VmError> {
    match op {
        CpuOp::Add { left, right, dst } => Ok(
            advance(set_reg(s, dst as int, s.regs[left as int].wrapping_add(s.regs[right as int])), 4),
        ),
        CpuOp::Sub { left, right, dst } => Ok(
            advance(set_reg(s, dst as int, s.regs[left as int].wrapping_sub(s.regs[right as int])), 4),
        ),
        CpuOp::Mul { left, right, dst } => Ok(
            advance(set_reg(s, dst as int, s.regs[left as int].wrapping_mul(s.regs[right as int])), 4),
        ),
        CpuOp::Div { left, right, dst } => {
            if s.regs[right as int] == 0 {
                Err(VmError::DivisionByZero)
            } else {
                Ok(
                    advance(
                        set_reg(s, dst as int, (s.regs[left as int] / s.regs[right as int]) as u64),
                        4,
                    ),
                )
            }
        },
        CpuOp::Less { left, right } => Ok(
            advance(
                MachineView {
                    regs: s.regs,
                    cmp_flag: s.regs[left as int] < s.regs[right as int],
                    mem: s.mem,
                    halted: s.halted,
                },
                3,
            ),
        ),
        CpuOp::Load { width, addr_reg, dst } => {
            let a = s.regs[addr_reg as int];
            if in_bounds(s.mem, a as int, width.spec_bytes()) {
                Ok(
                    advance(
                        set_reg(
                            s,
                            dst as int,
                            le_value(bytes_in(s.mem, a as int, width.spec_bytes())) as u64,
                        ),
                        3,
                    ),
                )
            } else {
                Err(VmError::OutOfBounds { addr: first_outside(s.mem, a) })
            }
        },
        CpuOp::Store { width, src, addr_reg } => {
            let a = s.regs[addr_reg as int];
            if in_bounds(s.mem, a as int, width.spec_bytes()) {
                Ok(
                    advance(
                        with_mem(
                            s,
                            written_range(
                                s.mem,
                                a as int,
                                le_bytes(s.regs[src as int] as nat, width.spec_bytes()),
                            ),
                        ),
                        3,
                    ),
                )
            } else {
                Err(VmError::OutOfBounds { addr: first_outside(s.mem, a) })
            }
        },
        CpuOp::LoadImmediate { dst, value } => Ok(advance(set_reg(s, dst as int, value), 3)),
        CpuOp::Jmp { target } => Ok(set_reg(s, REG_INSTR_PTR as int, target)),
        CpuOp::CondJmp { target } => {
            if s.cmp_flag {
                Ok(set_reg(s, REG_INSTR_PTR as int, target))
            } else {
                Ok(advance(s, 2))
            }
        },
        CpuOp::PushStack => {
            let sp = s.regs[REG_STACK_PTR as int];
            if in_bounds(s.mem, sp as int, FRAME_LEN as nat) {
                Ok(
                    set_reg(
                        with_mem(s, written_range(s.mem, sp as int, frame_bytes(s.regs, s.cmp_flag))),
                        REG_STACK_PTR as int,
                        (sp + FRAME_LEN) as u64,
                    ),
                )
            } else {
                Err(VmError::OutOfBounds { addr: first_outside(s.mem, sp) })
            }
        },
        CpuOp::PopStack => {
            let base = s.regs[REG_STACK_PTR as int].wrapping_sub(FRAME_LEN as u64);
            if in_bounds(s.mem, base as int, FRAME_LEN as nat) {
                let frame = bytes_in(s.mem, base as int, FRAME_LEN as nat);
                Ok(
                    MachineView {
                        regs: frame_regs(frame),
                        cmp_flag: frame_flag(frame),
                        mem: s.mem,
                        halted: s.halted,
                    },
                )
            } else {
                Err(VmError::OutOfBounds { addr: first_outside(s.mem, base) })
            }
        },
        CpuOp::Halt => Ok(
            MachineView { regs: s.regs, cmp_flag: s.cmp_flag, mem: s.mem, halted: true },
        ),
    }
}

pub proof fn lemma_pow256_mono(a: nat, b: nat)
    requires
        a <= b,
    ensures
        pow256(a) <= pow256(b),
    decreases b,
{
    if a < b {
        lemma_pow256_mono(a, (b - 1) as nat);
    }
}

/// Eight bytes hold exactly the 64-bit values.
pub proof fn lemma_pow256_8()
    ensures
        pow256(8) == 0x1_0000_0000_0000_0000,
{
    reveal_with_fuel(pow256, 9);
}

/// Where each register lies in the bytes of a register file.
pub proof fn lemma_regs_bytes(regs: Seq<u64>)
    ensures
        regs_bytes(regs).len() == 8 * regs.len(),
        forall|i: int|
            0 <= i < regs.len() ==> #[trigger] regs_bytes(regs).subrange(8 * i, 8 * i + 8)
                == le_bytes(regs[i] as nat, 8),
    decreases regs.len(),
{
    if regs.len() > 0 {
        let init = regs.drop_last();
        lemma_regs_bytes(init);
        lemma_le_bytes_len(regs.last() as nat, 8);
        let whole = regs_bytes(regs);
        assert forall|i: int| 0 <= i < regs.len() implies #[trigger] whole.subrange(8 * i, 8 * i + 8)
            == le_bytes(regs[i] as nat, 8) by {
            if i < regs.len() - 1 {
                assert(init[i] == regs[i]);
                assert(whole.subrange(8 * i, 8 * i + 8) =~= regs_bytes(init).subrange(8 * i, 8 * i + 8));
            } else {
                assert(whole.subrange(8 * i, 8 * i + 8) =~= le_bytes(regs.last() as nat, 8));
            }
        }
    }
}

/// A saved frame gives back the registers and the flag it was made from.
pub proof fn lemma_frame_round_trip(regs: Seq<u64>, flag: bool)
    requires
        regs.len() == NUM_REGISTERS,
    ensures
        frame_bytes(regs, flag).len() == FRAME_LEN,
        frame_regs(frame_bytes(regs, flag)) == regs,
        frame_flag(frame_bytes(regs, flag)) == flag,
{
    let frame = frame_bytes(regs, flag);
    lemma_regs_bytes(regs);
    lemma_pow256_8();
    assert forall|i: int| 0 <= i < NUM_REGISTERS implies #[trigger] frame_regs(frame)[i] == regs[i] by {
        assert(frame.subrange(8 * i, 8 * i + 8) =~= regs_bytes(regs).subrange(8 * i, 8 * i + 8));
        lemma_le_round_trip(regs[i] as nat, 8);
    }
    assert(frame_regs(frame) =~= regs);
}

/// Appends the `n` low bytes of `v` to `out`, least significant first.
fn push_le_bytes(out: &mut Vec<u8>, v: u64, n: usize)
    ensures
        final(out)@ == old(out)@ + le_bytes(v as nat, n as nat),
{
    let mut rest: u64 = v;
    let mut i: usize = 0;
    while i < n
        invariant
            i <= n,
            out@ + le_bytes(rest as nat, (n - i) as nat) == old(out)@ + le_bytes(v as nat, n as nat),
        decreases n - i,
    {
        let ghost before = out@;
        let ghost r0 = rest;
        let ghost k = (n - i) as nat;
        out.push((rest % 256) as u8);
        rest = rest / 256;
        i += 1;
        proof {
            assert(le_bytes(r0 as nat, k) == seq![(r0 % 256) as u8] + le_bytes(
                (r0 / 256) as nat,
                (k - 1) as nat,
            ));
            assert(out@ + le_bytes(rest as nat, (n - i) as nat) =~= before + le_bytes(r0 as nat, k));
        }
    }
    assert(out@ + le_bytes(rest as nat, 0) =~= out@);
}

/// The number whose little-endian bytes are `bytes[start..start + n]`.
fn le_value_at(bytes: &Vec<u8>, start: usize, n: usize) -> (r: u64)
    requires
        start + n <= bytes@.len(),
        n <= 8,
    ensures
        r == le_value(bytes@.subrange(start as int, start + n)),
{
    let mut val: u64 = 0;
    let mut i: usize = n;
    proof {
        assert(bytes@.subrange(start + n, start + n) =~= Seq::<u8>::empty());
    }
    while i > 0
        invariant
            i <= n,
            n <= 8,
            start + n <= bytes.len(),
            val == le_value(bytes@.subrange(start + i, start + n)),
            val < pow256((n - i) as nat),
        decreases i,
    {
        i -= 1;
        proof {
            let sub = bytes@.subrange(start + i, start + n);
            assert(sub.drop_first() =~= bytes@.subrange(start + i + 1, start + n));
            lemma_pow256_mono((n - i) as nat, 8);
            lemma_pow256_8();
            let p = pow256((n - i - 1) as nat);
            assert(pow256((n - i) as nat) == 256 * p);
            assert(val * 256 + 255 < 256 * p);
        }
        val = val * 256 + bytes[start + i] as u64;
    }
    val
}

/// Reads a `width`-byte little-endian value at `addr`.
fn load_le(mem: &Memory, addr: u64, width: usize) -> (r: Result<u64, VmError>)
    requires
        width <= 8,
    ensures
        in_bounds(mem@, addr as int, width as nat) ==> r == Ok::<u64, VmError>(
            le_value(bytes_in(mem@, addr as int, width as nat)) as u64,
        ),
        !in_bounds(mem@, addr as int, width as nat) ==> r == Err::<u64, VmError>(
            VmError::OutOfBounds { addr: first_outside(mem@, addr) },
        ),
{
    match mem.read_bytes(addr, width) {
        Ok(bytes) => {
            assert(bytes@.subrange(0, width as int) =~= bytes@);
            Ok(le_value_at(&bytes, 0, width))
        },
        Err(e) => Err(e),
    }
}

/// Writes the `width` low bytes of `val` at `addr`, least significant first.
fn store_le(mem: &mut Memory, addr: u64, val: u64, width: usize) -> (r: Result<(), VmError>)
    ensures
        in_bounds(old(mem)@, addr as int, width as nat) ==> r is Ok && final(mem)@
            == written_range(old(mem)@, addr as int, le_bytes(val as nat, width as nat)),
        !in_bounds(old(mem)@, addr as int, width as nat) ==> r == Err::<(), VmError>(
            VmError::OutOfBounds { addr: first_outside(old(mem)@, addr) },
        ) && final(mem)@ == old(mem)@,
{
    let mut bytes: Vec<u8> = Vec::new();
    push_le_bytes(&mut bytes, val, width);
    proof {
        lemma_le_bytes_len(val as nat, width as nat);
        assert(bytes@ =~= le_bytes(val as nat, width as nat));
    }
    mem.write_bytes(addr, &bytes)
}

/// The saved form of the register file and the comparison flag.
fn encode_frame(cpu: &CPUState) -> (r: Vec<u8>)
    ensures
        r@ == frame_bytes(cpu.regs@, cpu.cmp_flag),
{
    let mut out: Vec<u8> = Vec::new();
    let mut i: usize = 0;
    while i < NUM_REGISTERS
        invariant
            i <= NUM_REGISTERS,
            cpu.regs@.len() == NUM_REGISTERS,
            out@ == regs_bytes(cpu.regs@.take(i as int)),
        decreases NUM_REGISTERS - i,
    {
        push_le_bytes(&mut out, cpu.regs[i], 8);
        proof {
            assert(cpu.regs@.take(i + 1).drop_last() =~= cpu.regs@.take(i as int));
        }
        i += 1;
    }
    assert(cpu.regs@.take(NUM_REGISTERS as int) =~= cpu.regs@);
    if cpu.cmp_flag {
        out.push(1);
    } else {
        out.push(0);
    }
    out
}

fn load_op(vm_state: &mut VMState, width: Width, addr_reg: usize, dst: usize) -> (r: Result<(), VmError>)
    requires
        (CpuOp::Load { width, addr_reg, dst }).regs_valid(),
    ensures
        match exec_spec(CpuOp::Load { width, addr_reg, dst }, old(vm_state)@) {
            Ok(s) => r is Ok && final(vm_state)@ == s,
            Err(e) => r == Err::<(), VmError>(e) && final(vm_state)@ == old(vm_state)@,
        },
{
    let addr = vm_state.cpu.regs[addr_reg];
    match load_le(&vm_state.mem, addr, width.bytes()) {
        Ok(v) => {
            vm_state.cpu.regs[dst] = v;
            vm_state.cpu.regs[REG_INSTR_PTR] = vm_state.cpu.regs[REG_INSTR_PTR].wrapping_add(3);
            assert(vm_state@.regs =~= advance(set_reg(old(vm_state)@, dst as int, v), 3).regs);
            Ok(())
        },
        Err(e) => Err(e),
    }
}

fn store_op(vm_state: &mut VMState, width: Width, src: usize, addr_reg: usize) -> (r: Result<(), VmError>)
    requires
        (CpuOp::Store { width, src, addr_reg }).regs_valid(),
    ensures
        match exec_spec(CpuOp::Store { width, src, addr_reg }, old(vm_state)@) {
            Ok(s) => r is Ok && final(vm_state)@ == s,
            Err(e) => r == Err::<(), VmError>(e) && final(vm_state)@ == old(vm_state)@,
        },
{
    let addr = vm_state.cpu.regs[addr_reg];
    let val = vm_state.cpu.regs[src];
    match store_le(&mut vm_state.mem, addr, val, width.bytes()) {
        Ok(()) => {
            vm_state.cpu.regs[REG_INSTR_PTR] = vm_state.cpu.regs[REG_INSTR_PTR].wrapping_add(3);
            assert(vm_state@.regs =~= advance(old(vm_state)@, 3).regs);
            Ok(())
        },
        Err(e) => Err(e),
    }
}

fn push_state_op(vm_state: &mut VMState) -> (r: Result<(), VmError>)
    ensures
        match exec_spec(CpuOp::PushStack, old(vm_state)@) {
            Ok(s) => r is Ok && final(vm_state)@ == s,
            Err(e) => r == Err::<(), VmError>(e) && final(vm_state)@ == old(vm_state)@,
        },
{
    let sp = vm_state.cpu.regs[REG_STACK_PTR];
    let frame = encode_frame(&vm_state.cpu);
    proof {
        lemma_frame_round_trip(vm_state.cpu.regs@, vm_state.cpu.cmp_flag);
        vm_state.mem.lemma_len_fits();
    }
    match vm_state.mem.write_bytes(sp, &frame) {
        Ok(()) => {
            vm_state.cpu.regs[REG_STACK_PTR] = sp + FRAME_LEN as u64;
            assert(vm_state@.regs =~= old(vm_state)@.regs.update(REG_STACK_PTR as int, (sp + FRAME_LEN) as u64));
            Ok(())
        },
        Err(e) => Err(e),
    }
}

fn pop_state_op(vm_state: &mut VMState) -> (r: Result<(), VmError>)
    ensures
        match exec_spec(CpuOp::PopStack, old(vm_state)@) {
            Ok(s) => r is Ok && final(vm_state)@ == s,
            Err(e) => r == Err::<(), VmError>(e) && final(vm_state)@ == old(vm_state)@,
        },
{
    let base = vm_state.cpu.regs[REG_STACK_PTR].wrapping_sub(FRAME_LEN as u64);
    let frame = match vm_state.mem.read_bytes(base, FRAME_LEN) {
        Ok(f) => f,
        Err(e) => {
            return Err(e);
        },
    };
    let mut i: usize = 0;
    while i < NUM_REGISTERS
        invariant
            i <= NUM_REGISTERS,
            frame@.len() == FRAME_LEN,
            vm_state.cpu.regs@.len() == NUM_REGISTERS,
            vm_state.mem@ == old(vm_state).mem@,
            vm_state.cpu.cmp_flag == old(vm_state).cpu.cmp_flag,
            vm_state.stop_execution == old(vm_state).stop_execution,
            forall|j: int| 0 <= j < i ==> vm_state.cpu.regs@[j] == #[trigger] frame_regs(frame@)[j],
        decreases NUM_REGISTERS - i,
    {
        vm_state.cpu.regs[i] = le_value_at(&frame, 8 * i, 8);
        i += 1;
    }
    vm_state.cpu.cmp_flag = frame[8 * NUM_REGISTERS] != 0;
    assert(vm_state.cpu.regs@ =~= frame_regs(frame@));
    Ok(())
}

fn first_invalid3(a: usize, b: usize, c: usize) -> (r: Option<usize>)
    ensures
        r == first_invalid(seq![a, b, c]),
{
    if a >= NUM_REGISTERS {
        Some(a)
    } else if b >= NUM_REGISTERS {
        Some(b)
    } else if c >= NUM_REGISTERS {
        Some(c)
    } else {
        None
    }
}

fn first_invalid2(a: usize, b: usize) -> (r: Option<usize>)
    ensures
        r == first_invalid(seq![a, b]),
{
    if a >= NUM_REGISTERS {
        Some(a)
    } else if b >= NUM_REGISTERS {
        Some(b)
    } else {
        None
    }
}

/// The first register operand of `op` that names no register.
pub fn first_invalid_register(op: &CpuOp) -> (r: Option<usize>)
    ensures
        r == op.invalid_register(),
{
    match *op {
        CpuOp::Add { left, right, dst } => first_invalid3(left, right, dst),
        CpuOp::Sub { left, right, dst } => first_invalid3(left, right, dst),
        CpuOp::Mul { left, right, dst } => first_invalid3(left, right, dst),
        CpuOp::Div { left, right, dst } => first_invalid3(left, right, dst),
        CpuOp::Less { left, right } => first_invalid2(left, right),
        CpuOp::Load { addr_reg, dst, .. } => first_invalid2(addr_reg, dst),
        CpuOp::Store { src, addr_reg, .. } => first_invalid2(src, addr_reg),
        CpuOp::LoadImmediate { dst, .. } => {
            if dst >= NUM_REGISTERS {
                Some(dst)
            } else {
                None
            }
        },
        _ => None,
    }
}

/// Applies `op` to the machine. On a fault nothing changes.
pub fn execute(op: &CpuOp, vm_state: &mut VMState) -> (r: Result<(), VmError>)
    ensures
        match exec_spec(*op, old(vm_state)@) {
            Ok(s) => r is Ok && final(vm_state)@ == s,
            Err(e) => r == Err::<(), VmError>(e) && final(vm_state)@ == old(vm_state)@,
        },
{
    if let Some(index) = first_invalid_register(op) {
        return Err(VmError::InvalidRegister { index });
    }
    match *op {
        CpuOp::Add { left, right, dst } => {
            let v = vm_state.cpu.regs[left].wrapping_add(vm_state.cpu.regs[right]);
            vm_state.cpu.regs[dst] = v;
            vm_state.cpu.regs[REG_INSTR_PTR] = vm_state.cpu.regs[REG_INSTR_PTR].wrapping_add(4);
            assert(vm_state@.regs =~= advance(set_reg(old(vm_state)@, dst as int, v), 4).regs);
            Ok(())
        },
        CpuOp::Sub { left, right, dst } => {
            let v = vm_state.cpu.regs[left].wrapping_sub(vm_state.cpu.regs[right]);
            vm_state.cpu.regs[dst] = v;
            vm_state.cpu.regs[REG_INSTR_PTR] = vm_state.cpu.regs[REG_INSTR_PTR].wrapping_add(4);
            assert(vm_state@.regs =~= advance(set_reg(old(vm_state)@, dst as int, v), 4).regs);
            Ok(())
        },
        CpuOp::Mul { left, right, dst } => {
            let v = vm_state.cpu.regs[left].wrapping_mul(vm_state.cpu.regs[right]);
            vm_state.cpu.regs[dst] = v;
            vm_state.cpu.regs[REG_INSTR_PTR] = vm_state.cpu.regs[REG_INSTR_PTR].wrapping_add(4);
            assert(vm_state@.regs =~= advance(set_reg(old(vm_state)@, dst as int, v), 4).regs);
            Ok(())
        },
        CpuOp::Div { left, right, dst } => {
            let divisor = vm_state.cpu.regs[right];
            if divisor == 0 {
                return Err(VmError::DivisionByZero);
            }
            let v = vm_state.cpu.regs[left] / divisor;
            vm_state.cpu.regs[dst] = v;
            vm_state.cpu.regs[REG_INSTR_PTR] = vm_state.cpu.regs[REG_INSTR_PTR].wrapping_add(4);
            assert(vm_state@.regs =~= advance(set_reg(old(vm_state)@, dst as int, v), 4).regs);
            Ok(())
        },
        CpuOp::Less { left, right } => {
            vm_state.cpu.cmp_flag = vm_state.cpu.regs[left] < vm_state.cpu.regs[right];
            vm_state.cpu.regs[REG_INSTR_PTR] = vm_state.cpu.regs[REG_INSTR_PTR].wrapping_add(3);
            assert(vm_state@.regs =~= advance(old(vm_state)@, 3).regs);
            Ok(())
        },
        CpuOp::Load { width, addr_reg, dst } => load_op(vm_state, width, addr_reg, dst),
        CpuOp::Store { width, src, addr_reg } => store_op(vm_state, width, src, addr_reg),
        CpuOp::LoadImmediate { dst, value } => {
            vm_state.cpu.regs[dst] = value;
            vm_state.cpu.regs[REG_INSTR_PTR] = vm_state.cpu.regs[REG_INSTR_PTR].wrapping_add(3);
            assert(vm_state@.regs =~= advance(set_reg(old(vm_state)@, dst as int, value), 3).regs);
            Ok(())
        },
        CpuOp::Jmp { target } => {
            vm_state.cpu.regs[REG_INSTR_PTR] = target;
            assert(vm_state@.regs =~= old(vm_state)@.regs.update(REG_INSTR_PTR as int, target));
            Ok(())
        },
        CpuOp::CondJmp { target } => {
            if vm_state.cpu.cmp_flag {
                vm_state.cpu.regs[REG_INSTR_PTR] = target;
                assert(vm_state@.regs =~= old(vm_state)@.regs.update(REG_INSTR_PTR as int, target));
            } else {
                vm_state.cpu.regs[REG_INSTR_PTR] = vm_state.cpu.regs[REG_INSTR_PTR].wrapping_add(2);
                assert(vm_state@.regs =~= advance(old(vm_state)@, 2).regs);
            }
            Ok(())
        },
        CpuOp::PushStack => push_state_op(vm_state),
        CpuOp::PopStack => pop_state_op(vm_state),
        CpuOp::Halt => {
            vm_state.stop_execution = true;
            Ok(())
        },
    }
}

/// `regs[dst] = regs[left_src] + regs[right_src]`, modulo 2^64.
pub fn make_cpu_op_add(left_src: usize, right_src: usize, dst: usize) -> (r: CpuOp)
    ensures
        r == (CpuOp::Add { left: left_src, right: right_src, dst }),
{
    CpuOp::Add { left: left_src, right: right_src, dst }
}

/// `regs[dst] = regs[left_src] - regs[right_src]`, modulo 2^64.
pub fn make_cpu_op_sub(left_src: usize, right_src: usize, dst: usize) -> (r: CpuOp)
    ensures
        r == (CpuOp::Sub { left: left_src, right: right_src, dst }),
{
    CpuOp::Sub { left: left_src, right: right_src, dst }
}

/// `regs[dst] = regs[left_src] / regs[right_src]`, failing on a zero divisor.
pub fn make_cpu_op_div(left_src: usize, right_src: usize, dst: usize) -> (r: CpuOp)
    ensures
        r == (CpuOp::Div { left: left_src, right: right_src, dst }),
{
    CpuOp::Div { left: left_src, right: right_src, dst }
}

/// `regs[dst] = regs[left_src] * regs[right_src]`, modulo 2^64.
pub fn make_cpu_op_mul(left_src: usize, right_src: usize, dst: usize) -> (r: CpuOp)
    ensures
        r == (CpuOp::Mul { left: left_src, right: right_src, dst }),
{
    CpuOp::Mul { left: left_src, right: right_src, dst }
}

/// `cmp = regs[left_src] < regs[right_src]`.
pub fn make_cpu_op_less(left_src: usize, right_src: usize) -> (r: CpuOp)
    ensures
        r == (CpuOp::Less { left: left_src, right: right_src }),
{
    CpuOp::Less { left: left_src, right: right_src }
}

/// Stores all eight bytes of `regs[src_reg]` at the address in `regs[dst_mem_reg]`.
pub fn make_cpu_op_store_64(src_reg: usize, dst_mem_reg: usize) -> (r: CpuOp)
    ensures
        r == (CpuOp::Store { width: Width::W64, src: src_reg, addr_reg: dst_mem_reg }),
{
    CpuOp::Store { width: Width::W64, src: src_reg, addr_reg: dst_mem_reg }
}

/// Stores the low byte of `regs[src_reg]` at the address in `regs[dst_mem_reg]`.
pub fn make_cpu_op_store_8(src_reg: usize, dst_mem_reg: usize) -> (r: CpuOp)
    ensures
        r == (CpuOp::Store { width: Width::W8, src: src_reg, addr_reg: dst_mem_reg }),
{
    CpuOp::Store { width: Width::W8, src: src_reg, addr_reg: dst_mem_reg }
}

/// Loads the byte at the address in `regs[src_mem_reg]` into `regs[dst_reg]`.
pub fn make_cpu_op_load_8(src_mem_reg: usize, dst_reg: usize) -> (r: CpuOp)
    ensures
        r == (CpuOp::Load { width: Width::W8, addr_reg: src_mem_reg, dst: dst_reg }),
{
    CpuOp::Load { width: Width::W8, addr_reg: src_mem_reg, dst: dst_reg }
}

/// Loads eight bytes at the address in `regs[src_mem_reg]` into `regs[dst_reg]`.
pub fn make_cpu_op_load_64(src_mem_reg: usize, dst_reg: usize) -> (r: CpuOp)
    ensures
        r == (CpuOp::Load { width: Width::W64, addr_reg: src_mem_reg, dst: dst_reg }),
{
    CpuOp::Load { width: Width::W64, addr_reg: src_mem_reg, dst: dst_reg }
}

/// `regs[dst_reg] = value`.
pub fn make_cpu_op_load_immediate(dst_reg: usize, value: u64) -> (r: CpuOp)
    ensures
        r == (CpuOp::LoadImmediate { dst: dst_reg, value }),
{
    CpuOp::LoadImmediate { dst: dst_reg, value }
}

/// Stops the machine.
pub fn make_cpu_op_halt() -> (r: CpuOp)
    ensures
        r == CpuOp::Halt,
{
    CpuOp::Halt
}

/// Continues at address `dst_mem`.
pub fn make_cpu_op_jmp(dst_mem: u64) -> (r: CpuOp)
    ensures
        r == (CpuOp::Jmp { target: dst_mem }),
{
    CpuOp::Jmp { target: dst_mem }
}

/// Continues at address `dst_mem` when the comparison flag is set.
pub fn make_cpu_op_cond_jmp(dst_mem: u64) -> (r: CpuOp)
    ensures
        r == (CpuOp::CondJmp { target: dst_mem }),
{
    CpuOp::CondJmp { target: dst_mem }
}

/// Saves every register and the comparison flag at the stack pointer.
pub fn make_cpu_op_push_state_to_stack() -> (r: CpuOp)
    ensures
        r == CpuOp::PushStack,
{
    CpuOp::PushStack
}

/// Restores every register and the comparison flag from the frame below the
/// stack pointer.
pub fn make_cpu_op_load_state_from_stack() -> (r: CpuOp)
    ensures
        r == CpuOp::PopStack,
{
    CpuOp::PopStack
}

/// `ADD`, `SUB` and `MUL` compute the exact result modulo 2^64, and `DIV` by
/// zero is a `DivisionByZero` fault (which, by `execute`, changes nothing).
pub proof fn lemma_arithmetic(s: MachineView, left: usize, right: usize, dst: usize)
    requires
        s.wf(),
        reg_ok(left),
        reg_ok(right),
        reg_ok(dst),
    ensures
        ({
            let a = s.regs[left as int] as int;
            let b = s.regs[right as int] as int;
            &&& exec_spec(CpuOp::Add { left, right, dst }, s) == Ok::<MachineView, VmError>(
                advance(set_reg(s, dst as int, ((a + b) % 0x1_0000_0000_0000_0000) as u64), 4),
            )
            &&& exec_spec(CpuOp::Sub { left, right, dst }, s) == Ok::<MachineView, VmError>(
                advance(set_reg(s, dst as int, ((a - b) % 0x1_0000_0000_0000_0000) as u64), 4),
            )
            &&& exec_spec(CpuOp::Mul { left, right, dst }, s) == Ok::<MachineView, VmError>(
                advance(set_reg(s, dst as int, ((a * b) % 0x1_0000_0000_0000_0000) as u64), 4),
            )
            &&& b == 0 ==> exec_spec(CpuOp::Div { left, right, dst }, s) == Err::<
                MachineView,
                VmError,
            >(VmError::DivisionByZero)
        }),
{
    let a = s.regs[left as int] as int;
    let b = s.regs[right as int] as int;
    let m: int = 0x1_0000_0000_0000_0000;
    if a + b >= m {
        assert((a + b) % m == a + b - m) by {
            vstd::arithmetic::div_mod::lemma_mod_sub_multiples_vanish(a + b, m);
            vstd::arithmetic::div_mod::lemma_small_mod((a + b - m) as nat, m as nat);
        }
    } else {
        vstd::arithmetic::div_mod::lemma_small_mod((a + b) as nat, m as nat);
    }
    if a - b < 0 {
        assert((a - b) % m == a - b + m) by {
            vstd::arithmetic::div_mod::lemma_mod_add_multiples_vanish(a - b, m);
            vstd::arithmetic::div_mod::lemma_small_mod((a - b + m) as nat, m as nat);
        }
    } else {
        vstd::arithmetic::div_mod::lemma_small_mod((a - b) as nat, m as nat);
    }
}

/// Saving the machine state and restoring it right away gives back every
/// register, the stack pointer included, and the comparison flag.
pub proof fn lemma_push_pop_round_trip(s: MachineView)
    requires
        s.wf(),
        exec_spec(CpuOp::PushStack, s) is Ok,
    ensures
        ({
            let pushed = exec_spec(CpuOp::PushStack, s)->Ok_0;
            let popped = exec_spec(CpuOp::PopStack, pushed);
            &&& popped is Ok
            &&& popped->Ok_0.regs == s.regs
            &&& popped->Ok_0.cmp_flag == s.cmp_flag
            &&& popped->Ok_0.halted == s.halted
        }),
{
    let sp = s.regs[REG_STACK_PTR as int];
    let frame = frame_bytes(s.regs, s.cmp_flag);
    lemma_frame_round_trip(s.regs, s.cmp_flag);
    let pushed = exec_spec(CpuOp::PushStack, s)->Ok_0;
    assert(pushed.regs[REG_STACK_PTR as int] == sp + FRAME_LEN);
    assert(pushed.regs[REG_STACK_PTR as int].wrapping_sub(FRAME_LEN as u64) == sp);
    lemma_read_written_range(s.mem, sp as int, frame);
    assert(bytes_in(pushed.mem, sp as int, FRAME_LEN as nat) =~= frame);
}

/// Storing a register in `width` bytes at an address and loading `width` bytes
/// back from it gives the register's value modulo `256^width`: the value
/// itself when it fits.
pub proof fn lemma_store_load_round_trip(
    s: MachineView,
    width: Width,
    src: usize,
    addr_reg: usize,
    dst: usize,
)
    requires
        s.wf(),
        reg_ok(src),
        reg_ok(addr_reg),
        reg_ok(dst),
        addr_reg != REG_INSTR_PTR,
        exec_spec(CpuOp::Store { width, src, addr_reg }, s) is Ok,
    ensures
        ({
            let v = s.regs[src as int];
            let stored = exec_spec(CpuOp::Store { width, src, addr_reg }, s)->Ok_0;
            let loaded = exec_spec(CpuOp::Load { width, addr_reg, dst }, stored);
            &&& loaded == Ok::<MachineView, VmError>(
                advance(set_reg(stored, dst as int, (v as nat % pow256(width.spec_bytes())) as u64), 3),
            )
            &&& dst != REG_INSTR_PTR && v < pow256(width.spec_bytes()) ==> loaded->Ok_0.regs[dst as int]
                == v
        }),
{
    let v = s.regs[src as int];
    let n = width.spec_bytes();
    let a = s.regs[addr_reg as int];
    let bs = le_bytes(v as nat, n);
    lemma_le_bytes_len(v as nat, n);
    lemma_read_written_range(s.mem, a as int, bs);
    lemma_le_round_trip(v as nat, n);
    lemma_pow256_mono(n, 8);
    lemma_pow256_8();
    lemma_le_value_bound(bs);
    let stored = exec_spec(CpuOp::Store { width, src, addr_reg }, s)->Ok_0;
    assert(stored.regs[addr_reg as int] == a);
    assert(bytes_in(stored.mem, a as int, n) =~= bs);
    if v < pow256(n) {
        vstd::arithmetic::div_mod::lemma_small_mod(v as nat, pow256(n));
    }
}

} // verus!
