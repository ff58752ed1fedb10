use vstd::prelude::*;
use crate::intruction_decoder::{ADD, COND_JMP, HALT, LESS, LOAD, LOAD_IMMEDIATE, STORE, STORE8};
use crate::machine::{run_spec, step_spec};
use crate::memory::{
    bytes_in, le_bytes, le_value, lemma_le_bytes_len, lemma_le_round_trip, lemma_read_written_range,
    MemoryEntry,
};
use crate::cpu_ops::lemma_pow256_8;
use crate::register_def::{REG_A, REG_B, REG_D, REG_E, REG_F, REG_G, REG_X, REG_Y, REG_Z};
use crate::state::MachineView;

verus! {

/// A demonstration program that rewrites itself. It counts `X` up from zero,
/// storing `X` and loading it back into `B`, until `B` reaches 255. The first
/// time through, it patches the address operand of its own `STORE` (byte 30)
/// and `LOAD` (byte 32) from register `A` to register `D`, so the first store
/// goes to address 120 and every later one to address 128.
pub fn load_program() -> (r: Vec<u8>)
    ensures
        r@ == seq![
            13u8, 2, 0, 13, 3, 1, 13, 4, 255, 13, 5, 120, 13, 8, 128, 13, 9, 8, 13, 10, 30, 13, 11, 32,
            0, 2, 3, 2, 5, 2, 5, 4, 5, 6, 9, 6, 4, 12, 9, 10, 12, 9, 11, 8, 24, 6,
        ],
{
    let mut mem = vec![0u8; 46];
    proof {
        assert forall|i: int| 0 <= i < 46 implies mem@[i] == 0u8 by {
            assert(vstd::pervasive::cloned(0u8, mem@[i]));
        }
    }
    // set up the registers
    mem[0] = LOAD_IMMEDIATE;
    mem[1] = REG_X as u8;
    mem[2] = 0;
    mem[3] = LOAD_IMMEDIATE;
    mem[4] = REG_Y as u8;
    mem[5] = 1;
    mem[6] = LOAD_IMMEDIATE;
    mem[7] = REG_Z as u8;
    mem[8] = 255;
    mem[9] = LOAD_IMMEDIATE;
    mem[10] = REG_A as u8;
    mem[11] = 120;
    mem[12] = LOAD_IMMEDIATE;
    mem[13] = REG_D as u8;
    mem[14] = 128;
    mem[15] = LOAD_IMMEDIATE;
    mem[16] = REG_E as u8;
    mem[17] = REG_D as u8;
    mem[18] = LOAD_IMMEDIATE;
    mem[19] = REG_F as u8;
    mem[20] = 30;
    mem[21] = LOAD_IMMEDIATE;
    mem[22] = REG_G as u8;
    mem[23] = 32;
    // X + Y -> X
    mem[24] = ADD;
    mem[25] = REG_X as u8;
    mem[26] = REG_Y as u8;
    mem[27] = REG_X as u8;
    // store X at the address in A
    mem[28] = STORE;
    mem[29] = REG_X as u8;
    mem[30] = REG_A as u8;
    // load from the address in A into B
    mem[31] = LOAD;
    mem[32] = REG_A as u8;
    mem[33] = REG_B as u8;
    // B < Z
    mem[34] = LESS;
    mem[35] = REG_B as u8;
    mem[36] = REG_Z as u8;
    // patch the STORE above to use D instead of A (E holds D, F holds 30)
    mem[37] = STORE8;
    mem[38] = REG_E as u8;
    mem[39] = REG_F as u8;
    // patch the LOAD above likewise (G holds 32)
    mem[40] = STORE8;
    mem[41] = REG_E as u8;
    mem[42] = REG_G as u8;
    // back to the ADD while B < Z
    mem[43] = COND_JMP;
    mem[44] = 24;
    mem[45] = HALT;
    assert(mem@ =~= seq![
        13u8, 2, 0, 13, 3, 1, 13, 4, 255, 13, 5, 120, 13, 8, 128, 13, 9, 8, 13, 10, 30, 13, 11, 32,
        0, 2, 3, 2, 5, 2, 5, 4, 5, 6, 9, 6, 4, 12, 9, 10, 12, 9, 11, 8, 24, 6,
    ]);
    mem
}

/// Memory `m` starts with the counting loop
/// `ADD X,Y,X; STORE X,A; LOAD A,B; LESS B,Z; COND_JMP 0; HALT`.
pub open spec fn counting_loop_at_zero(m: Seq<MemoryEntry>) -> bool {
    &&& m.len() >= 16
    &&& m[0].value == 0 && m[1].value == 2 && m[2].value == 3 && m[3].value == 2
    &&& m[4].value == 5 && m[5].value == 2 && m[6].value == 5
    &&& m[7].value == 4 && m[8].value == 5 && m[9].value == 6
    &&& m[10].value == 9 && m[11].value == 6 && m[12].value == 4
    &&& m[13].value == 8 && m[14].value == 0
    &&& m[15].value == 6
}

/// The counting loop is about to begin pass `k + 1` of `n`, with its scratch
/// word at address `a`.
pub open spec fn at_loop_head(s: MachineView, n: u64, a: u64, k: nat) -> bool {
    &&& s.wf()
    &&& !s.halted
    &&& counting_loop_at_zero(s.mem)
    &&& 16 <= a && a + 8 <= s.mem.len()
    &&& k < n
    &&& s.regs[0] == 0
    &&& s.regs[2] == k
    &&& s.regs[3] == 1
    &&& s.regs[4] == n
    &&& s.regs[5] == a
}

/// The counting loop has finished its `n` passes and is about to halt.
pub open spec fn at_loop_exit(s: MachineView, n: u64, a: u64) -> bool {
    &&& s.wf()
    &&& !s.halted
    &&& counting_loop_at_zero(s.mem)
    &&& 16 <= a && a + 8 <= s.mem.len()
    &&& s.regs[0] == 15
    &&& s.regs[2] == n
    &&& s.regs[3] == 1
    &&& s.regs[4] == n
    &&& s.regs[5] == a
    &&& s.regs[6] == n
    &&& !s.cmp_flag
    &&& le_value(bytes_in(s.mem, a as int, 8)) == n
}

/// The state after one successful step.
pub open spec fn next(s: MachineView) -> MachineView {
    step_spec(s)->Ok_0
}

proof fn lemma_unfold_run(s: MachineView, f: nat)
    requires
        f > 0,
        !s.halted,
        step_spec(s) is Ok,
    ensures
        run_spec(s, f) == run_spec(next(s), (f - 1) as nat),
{
}

/// One pass of the counting loop: five steps, after which the loop is at its
/// head again or, after the last pass, at its exit.
proof fn lemma_one_pass(s: MachineView, n: u64, a: u64, k: nat, f: nat)
    requires
        at_loop_head(s, n, a, k),
        f >= 5,
    ensures
        run_spec(s, f) == run_spec(next(next(next(next(next(s))))), (f - 5) as nat),
        k + 1 < n ==> at_loop_head(next(next(next(next(next(s))))), n, a, k + 1),
        k + 1 == n ==> at_loop_exit(next(next(next(next(next(s))))), n, a),
{
    let s1 = next(s);
    lemma_unfold_run(s, f);
    assert(s1.regs[2] == k + 1);
    assert(counting_loop_at_zero(s1.mem));
    let s2 = next(s1);
    lemma_unfold_run(s1, (f - 1) as nat);
    let bs = le_bytes((k + 1) as nat, 8);
    lemma_le_bytes_len((k + 1) as nat, 8);
    assert(s2.mem == crate::memory::written_range(s1.mem, a as int, bs));
    assert(counting_loop_at_zero(s2.mem));
    lemma_read_written_range(s1.mem, a as int, bs);
    assert(bytes_in(s2.mem, a as int, 8) =~= bs);
    lemma_le_round_trip((k + 1) as nat, 8);
    lemma_pow256_8();
    assert(le_value(bytes_in(s2.mem, a as int, 8)) == k + 1);
    let s3 = next(s2);
    lemma_unfold_run(s2, (f - 2) as nat);
    assert(s3.regs[6] == k + 1);
    let s4 = next(s3);
    lemma_unfold_run(s3, (f - 3) as nat);
    assert(s4.cmp_flag == (k + 1 < n));
    let s5 = next(s4);
    lemma_unfold_run(s4, (f - 4) as nat);
}

/// The counting loop from its head at pass `k + 1` of `n`: after exactly
/// `5 * (n - k)` steps it is at its exit, still running, and one step later it
/// has halted.
proof fn lemma_passes(s: MachineView, n: u64, a: u64, k: nat)
    requires
        at_loop_head(s, n, a, k),
    ensures
        run_spec(s, (5 * (n - k)) as nat).1 is Ok,
        at_loop_exit(run_spec(s, (5 * (n - k)) as nat).0, n, a),
        run_spec(s, (5 * (n - k) + 1) as nat) == ({
            let e = run_spec(s, (5 * (n - k)) as nat).0;
            (
                MachineView { regs: e.regs, cmp_flag: e.cmp_flag, mem: e.mem, halted: true },
                Ok::<(), crate::error::VmError>(()),
            )
        }),
    decreases n - k,
{
    let f0 = (5 * (n - k)) as nat;
    lemma_one_pass(s, n, a, k, f0);
    lemma_one_pass(s, n, a, k, f0 + 1);
    let s5 = next(next(next(next(next(s)))));
    if k + 1 < n {
        lemma_passes(s5, n, a, k + 1);
        assert((5 * (n - k) - 5) as nat == (5 * (n - (k + 1))) as nat);
    } else {
        assert(f0 == 5);
        let h = MachineView { regs: s5.regs, cmp_flag: s5.cmp_flag, mem: s5.mem, halted: true };
        assert(step_spec(s5) == Ok::<MachineView, crate::error::VmError>(h));
        assert(run_spec(s5, 1) == run_spec(h, 0));
    }
}

/// The counting loop `ADD X,Y,X; STORE X,A; LOAD A,B; LESS B,Z; COND_JMP 0;
/// HALT` at address 0, started with `X = 0`, `Y = 1`, `Z = n >= 1` and a scratch
/// address `A` past the code, runs exactly `n` passes: it is still running after
/// `5 * n` steps and has halted after `5 * n + 1`, with `X = B = n`, the word at
/// `A` equal to `n`, the flag clear, and `Y`, `Z`, `A` and the code unchanged.
pub proof fn lemma_counting_loop(s: MachineView, n: u64, a: u64)
    requires
        s.wf(),
        !s.halted,
        counting_loop_at_zero(s.mem),
        16 <= a,
        a + 8 <= s.mem.len(),
        n >= 1,
        s.regs[0] == 0,
        s.regs[2] == 0,
        s.regs[3] == 1,
        s.regs[4] == n,
        s.regs[5] == a,
    ensures
        run_spec(s, (5 * n) as nat).1 is Ok,
        !run_spec(s, (5 * n) as nat).0.halted,
        run_spec(s, (5 * n + 1) as nat).1 is Ok,
        ({
            let e = run_spec(s, (5 * n + 1) as nat).0;
            &&& e.halted
            &&& e.regs[0] == 15
            &&& e.regs[2] == n
            &&& e.regs[6] == n
            &&& !e.cmp_flag
            &&& le_value(bytes_in(e.mem, a as int, 8)) == n
            &&& e.regs[3] == 1
            &&& e.regs[4] == n
            &&& e.regs[5] == a
            &&& counting_loop_at_zero(e.mem)
        }),
{
    lemma_passes(s, n, a, 0);
}

} // verus!
