use vstd::prelude::*;
use crate::cache::{
    cache_after_fetch, cached_fetch, consistent, lemma_cache_transparent_fetch,
    lemma_consistent_evolves, lemma_fetch_keeps_consistent, EntryView, InstructionCache,
};
use crate::cpu_ops::{exec_spec, execute, CpuOp};
use crate::error::VmError;
use crate::intruction_decoder::{decode_instruction, spec_decode};
use crate::memory::{evolves, lemma_evolves_refl, lemma_written_range_evolves};
use crate::register_def::REG_INSTR_PTR;
use crate::state::{MachineView, VMState};

verus! {

/// One step from `s`: nothing once halted; otherwise the instruction at the
/// instruction pointer is decoded from memory and applied.
pub open spec fn step_spec(s: MachineView) -> Result<MachineView, VmError> {
    if s.halted {
        Ok(s)
    } else {
        match spec_decode(s.mem, s.regs[REG_INSTR_PTR as int]) {
            Ok(ins) => exec_spec(ins.op, s),
            Err(e) => Err(e),
        }
    }
}

/// At most `n` steps from `s`, stopping at a halt or a fault: the state reached,
/// and the fault if there was one (the state is then the one the failing step
/// started from).
pub open spec fn run_spec(s: MachineView, n: nat) -> (MachineView, Result<(), VmError>)
    decreases n,
{
    if n == 0 || s.halted {
        (s, Ok(()))
    } else {
        match step_spec(s) {
            Ok(s2) => run_spec(s2, (n - 1) as nat),
            Err(e) => (s, Err(e)),
        }
    }
}

/// One step from `s` that fetches through cache `c`: the cache after it and
/// the outcome.
pub open spec fn cached_step(c: Map<u64, EntryView>, s: MachineView) -> (
    Map<u64, EntryView>,
    Result<MachineView, VmError>,
) {
    if s.halted {
        (c, Ok(s))
    } else {
        let a = s.regs[REG_INSTR_PTR as int];
        let c2 = cache_after_fetch(c, s.mem, a);
        match cached_fetch(c, s.mem, a) {
            Ok(ins) => (c2, exec_spec(ins.op, s)),
            Err(e) => (c2, Err(e)),
        }
    }
}

/// At most `n` steps from `s` that fetch through cache `c`.
pub open spec fn cached_run(c: Map<u64, EntryView>, s: MachineView, n: nat) -> (
    MachineView,
    Result<(), VmError>,
)
    decreases n,
{
    if n == 0 || s.halted {
        (s, Ok(()))
    } else {
        let (c2, r) = cached_step(c, s);
        match r {
            Ok(s2) => cached_run(c2, s2, (n - 1) as nat),
            Err(e) => (s, Err(e)),
        }
    }
}

/// An operation changes memory only by writes.
pub proof fn lemma_exec_evolves(op: CpuOp, s: MachineView)
    requires
        exec_spec(op, s) is Ok,
    ensures
        evolves(s.mem, exec_spec(op, s)->Ok_0.mem),
{
    lemma_evolves_refl(s.mem);
    match op {
        CpuOp::Store { width, src, addr_reg } => {
            lemma_written_range_evolves(
                s.mem,
                s.regs[addr_reg as int] as int,
                crate::memory::le_bytes(s.regs[src as int] as nat, width.spec_bytes()),
            );
        },
        CpuOp::PushStack => {
            lemma_written_range_evolves(
                s.mem,
                s.regs[crate::register_def::REG_STACK_PTR as int] as int,
                crate::cpu_ops::frame_bytes(s.regs, s.cmp_flag),
            );
        },
        _ => {},
    }
}

/// A step through a cache that agrees with memory is the step without it,
/// and leaves the cache in agreement with the new memory.
pub proof fn lemma_cached_step(c: Map<u64, EntryView>, s: MachineView)
    requires
        consistent(c, s.mem),
    ensures
        cached_step(c, s).1 == step_spec(s),
        cached_step(c, s).1 is Ok ==> consistent(cached_step(c, s).0, cached_step(c, s).1->Ok_0.mem),
{
    if !s.halted {
        let a = s.regs[REG_INSTR_PTR as int];
        lemma_cache_transparent_fetch(c, s.mem, a);
        lemma_fetch_keeps_consistent(c, s.mem, a);
        if let Ok(ins) = spec_decode(s.mem, a) {
            if exec_spec(ins.op, s) is Ok {
                lemma_exec_evolves(ins.op, s);
                lemma_consistent_evolves(cache_after_fetch(c, s.mem, a), s.mem, exec_spec(ins.op, s)->Ok_0.mem);
            }
        }
    }
}

/// Running with the instruction cache gives exactly the run without it: the
/// same final registers, flag, memory and outcome, for every program, including
/// programs that rewrite their own code.
pub proof fn lemma_cache_transparent(c: Map<u64, EntryView>, s: MachineView, n: nat)
    requires
        consistent(c, s.mem),
    ensures
        cached_run(c, s, n) == run_spec(s, n),
    decreases n,
{
    if n > 0 && !s.halted {
        lemma_cached_step(c, s);
        let (c2, r) = cached_step(c, s);
        if let Ok(s2) = r {
            lemma_cache_transparent(c2, s2, (n - 1) as nat);
        }
    }
}

impl VMState {
    /// One step without the instruction cache: decode at the instruction
    /// pointer, then apply. Does nothing once halted; on a fault nothing changes.
    pub fn step(&mut self) -> (r: Result<(), VmError>)
        ensures
            match step_spec(old(self)@) {
                Ok(s) => r is Ok && final(self)@ == s,
                Err(e) => r == Err::<(), VmError>(e) && final(self)@ == old(self)@,
            },
    {
        if self.stop_execution {
            return Ok(());
        }
        let ins = match decode_instruction(self.cpu.instr_ptr(), &self.mem) {
            Ok(ins) => ins,
            Err(e) => {
                return Err(e);
            },
        };
        execute(&ins.op, self)
    }

    /// Runs without the instruction cache until the machine halts, a fault
    /// occurs, or `max_steps` steps have run.
    pub fn run(&mut self, max_steps: u64) -> (r: Result<(), VmError>)
        ensures
            (final(self)@, r) == run_spec(old(self)@, max_steps as nat),
    {
        let mut i: u64 = 0;
        while i < max_steps
            invariant
                i <= max_steps,
                run_spec(old(self)@, max_steps as nat) == run_spec(self@, (max_steps - i) as nat),
            decreases max_steps - i,
        {
            if self.stop_execution {
                return Ok(());
            }
            match self.step() {
                Ok(()) => {},
                Err(e) => {
                    return Err(e);
                },
            }
            i += 1;
        }
        Ok(())
    }
}

/// A machine state together with its instruction cache.
pub struct Machine {
    state: VMState,
    cache: InstructionCache,
}

impl View for Machine {
    type V = MachineView;

    closed spec fn view(&self) -> MachineView {
        self.state@
    }
}

impl Machine {
    /// The contents of the instruction cache.
    pub closed spec fn cache_view(&self) -> Map<u64, EntryView> {
        self.cache@
    }

    /// The cache agrees with memory.
    pub closed spec fn wf(&self) -> bool {
        consistent(self.cache@, self.state.mem@)
    }

    /// A machine that starts from `state` with an empty cache.
    pub fn new(state: VMState) -> (r: Machine)
        ensures
            r@ == state@,
            r.cache_view() == Map::<u64, EntryView>::empty(),
            r.wf(),
    {
        Machine { state, cache: InstructionCache::new() }
    }

    /// The machine state.
    pub fn state(&self) -> (r: &VMState)
        ensures
            r@ == self@,
    {
        &self.state
    }

    /// The instruction cache.
    pub fn cache(&self) -> (r: &InstructionCache)
        ensures
            r@ == self.cache_view(),
    {
        &self.cache
    }

    /// Gives up the cache and returns the machine state.
    pub fn into_state(self) -> (r: VMState)
        ensures
            r@ == self@,
    {
        self.state
    }

    /// One step that fetches through the cache. Its effect is exactly that of
    /// a step without the cache; the cache changes as one fetch changes it.
    pub fn step(&mut self) -> (r: Result<(), VmError>)
        requires
            old(self).wf(),
        ensures
            final(self).wf(),
            match step_spec(old(self)@) {
                Ok(s) => r is Ok && final(self)@ == s,
                Err(e) => r == Err::<(), VmError>(e) && final(self)@ == old(self)@,
            },
            final(self).cache_view() == cached_step(old(self).cache_view(), old(self)@).0,
    {
        proof {
            lemma_cached_step(self.cache@, self.state@);
        }
        if self.state.stop_execution {
            return Ok(());
        }
        let ins = match self.cache.fetch(self.state.cpu.instr_ptr(), &self.state.mem) {
            Ok(ins) => ins,
            Err(e) => {
                return Err(e);
            },
        };
        let ghost before = self.state@;
        let r = execute(&ins.op, &mut self.state);
        proof {
            if r is Ok {
                lemma_exec_evolves(ins.op, before);
                lemma_consistent_evolves(self.cache@, before.mem, self.state.mem@);
            }
        }
        r
    }

    /// Runs through the cache until the machine halts, a fault occurs, or
    /// `max_steps` steps have run; the outcome is that of the same run without
    /// the cache.
    pub fn run(&mut self, max_steps: u64) -> (r: Result<(), VmError>)
        requires
            old(self).wf(),
        ensures
            final(self).wf(),
            (final(self)@, r) == run_spec(old(self)@, max_steps as nat),
    {
        let mut i: u64 = 0;
        while i < max_steps
            invariant
                self.wf(),
                i <= max_steps,
                run_spec(old(self)@, max_steps as nat) == run_spec(self@, (max_steps - i) as nat),
            decreases max_steps - i,
        {
            if self.state.stop_execution {
                return Ok(());
            }
            match self.step() {
                Ok(()) => {},
                Err(e) => {
                    return Err(e);
                },
            }
            i += 1;
        }
        Ok(())
    }
}

} // verus!
