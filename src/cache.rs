use vstd::prelude::*;
use std::collections::HashMap;
use crate::error::VmError;
use crate::intruction_decoder::{
    decode_instruction, lemma_decode_local, lemma_decode_wf, spec_decode, Instruction,
};
use crate::memory::{evolves, in_bounds, written, Memory, MemoryEntry};

verus! {

broadcast use vstd::std_specs::hash::group_hash_axioms;

/// A decoded instruction, whether it may still be served, and the write
/// counter of each of its bytes when it was decoded.
pub struct CacheEntry {
    pub value: Instruction,
    pub valid: bool,
    pub set_counter_when_cached: Vec<u64>,
}

/// The mathematical picture of a cache entry.
pub struct EntryView {
    pub instr: Instruction,
    pub valid: bool,
    pub snapshot: Seq<u64>,
}

impl View for CacheEntry {
    type V = EntryView;

    open spec fn view(&self) -> EntryView {
        EntryView {
            instr: self.value,
            valid: self.valid,
            snapshot: self.set_counter_when_cached@,
        }
    }
}

/// Decoded instructions keyed by the address they start at. An entry is served
/// only while none of the bytes it was decoded from has been written since.
pub struct InstructionCache {
    entries: HashMap<u64, CacheEntry>,
}

impl View for InstructionCache {
    type V = Map<u64, EntryView>;

    closed spec fn view(&self) -> Map<u64, EntryView> {
        self.entries@.map_values(|e: CacheEntry| e@)
    }
}

/// The write counters of the `n` bytes of `m` from address `a` on.
pub open spec fn counters_in(m: Seq<MemoryEntry>, a: int, n: nat) -> Seq<u64> {
    Seq::new(n, |i: int| m[a + i].set_counter)
}

/// Entry `e` may be served for memory `m`: it is valid, and every byte of its
/// instruction still has the counter recorded for it, short of the saturated
/// value.
pub open spec fn entry_fresh(e: EntryView, m: Seq<MemoryEntry>) -> bool {
    &&& e.valid
    &&& e.snapshot.len() == e.instr.len
    &&& in_bounds(m, e.instr.start as int, e.instr.len as nat)
    &&& forall|i: int|
        0 <= i < e.instr.len ==> #[trigger] e.snapshot[i] == m[e.instr.start + i].set_counter
            && e.snapshot[i] < u64::MAX
}

/// Entry `e`, stored under address `a`, agrees with memory `m`: it covers its
/// instruction's bytes, no recorded counter is ahead of memory, and while it is
/// fresh it holds exactly what decoding at `a` gives.
pub open spec fn entry_agrees(e: EntryView, a: u64, m: Seq<MemoryEntry>) -> bool {
    &&& e.instr.start == a
    &&& e.snapshot.len() == e.instr.len
    &&& in_bounds(m, a as int, e.instr.len as nat)
    &&& forall|i: int| 0 <= i < e.instr.len ==> #[trigger] e.snapshot[i] <= m[a + i].set_counter
    &&& entry_fresh(e, m) ==> spec_decode(m, a) == Ok::<Instruction, VmError>(e.instr)
}

/// Every entry of cache `c` agrees with memory `m`.
pub open spec fn consistent(c: Map<u64, EntryView>, m: Seq<MemoryEntry>) -> bool {
    forall|a: u64| #[trigger] c.contains_key(a) ==> entry_agrees(c[a], a, m)
}

/// What a fetch at `a` returns: the entry's instruction when it is fresh, a
/// new decode otherwise.
pub open spec fn cached_fetch(c: Map<u64, EntryView>, m: Seq<MemoryEntry>, a: u64) -> Result<
    Instruction,
    VmError,
> {
    if c.contains_key(a) && entry_fresh(c[a], m) {
        Ok(c[a].instr)
    } else {
        spec_decode(m, a)
    }
}

/// The cache after a fetch at `a`: unchanged when the entry was fresh or the
/// decode failed, and otherwise holding the new decode with the current
/// counters of its bytes.
pub open spec fn cache_after_fetch(c: Map<u64, EntryView>, m: Seq<MemoryEntry>, a: u64) -> Map<
    u64,
    EntryView,
> {
    if c.contains_key(a) && entry_fresh(c[a], m) {
        c
    } else {
        match spec_decode(m, a) {
            Ok(ins) => c.insert(
                a,
                EntryView { instr: ins, valid: true, snapshot: counters_in(m, a as int, ins.len as nat) },
            ),
            Err(_) => c,
        }
    }
}

/// A cache that agrees with memory serves exactly what decoding memory gives.
pub proof fn lemma_cache_transparent_fetch(c: Map<u64, EntryView>, m: Seq<MemoryEntry>, a: u64)
    requires
        consistent(c, m),
    ensures
        cached_fetch(c, m, a) == spec_decode(m, a),
{
    if c.contains_key(a) {
        assert(entry_agrees(c[a], a, m));
    }
}

/// A fetch keeps the cache in agreement with memory.
pub proof fn lemma_fetch_keeps_consistent(c: Map<u64, EntryView>, m: Seq<MemoryEntry>, a: u64)
    requires
        consistent(c, m),
    ensures
        consistent(cache_after_fetch(c, m, a), m),
{
    let c2 = cache_after_fetch(c, m, a);
    if !(c.contains_key(a) && entry_fresh(c[a], m)) {
        if let Ok(ins) = spec_decode(m, a) {
            lemma_decode_wf(m, a);
            assert forall|k: u64| #[trigger] c2.contains_key(k) implies entry_agrees(c2[k], k, m) by {
                if k != a {
                    assert(c.contains_key(k));
                }
            }
        }
    }
}

/// Writes to memory keep a cache in agreement with it.
pub proof fn lemma_consistent_evolves(
    c: Map<u64, EntryView>,
    m1: Seq<MemoryEntry>,
    m2: Seq<MemoryEntry>,
)
    requires
        consistent(c, m1),
        evolves(m1, m2),
    ensures
        consistent(c, m2),
{
    assert forall|a: u64| #[trigger] c.contains_key(a) implies entry_agrees(c[a], a, m2) by {
        let e = c[a];
        assert(entry_agrees(e, a, m1));
        assert forall|i: int| 0 <= i < e.instr.len implies #[trigger] e.snapshot[i] <= m2[a
            + i].set_counter by {
            assert(m1[a + i].set_counter <= m2[a + i].set_counter);
        }
        if entry_fresh(e, m2) {
            assert forall|i: int| 0 <= i < e.instr.len implies #[trigger] e.snapshot[i]
                == m1[e.instr.start + i].set_counter && e.snapshot[i] < u64::MAX by {
                assert(m1[a + i].set_counter <= m2[a + i].set_counter);
                assert(e.snapshot[i] == m2[a + i].set_counter);
            }
            assert(entry_fresh(e, m1));
            lemma_decode_wf(m1, a);
            assert forall|i: int| a <= i < a + e.instr.len implies #[trigger] m1[i].value
                == m2[i].value by {
                let k = i - a;
                assert(e.snapshot[k] == m2[a + k].set_counter);
                assert(m1[i].set_counter <= m2[i].set_counter);
            }
            lemma_decode_local(m1, m2, a);
        }
    }
}

/// Once the instruction at `a` is cached, a write to any byte it was decoded
/// from, followed by any further writes, makes the next fetch at `a` decode
/// memory again and replace the entry.
pub proof fn lemma_write_forces_redecode(
    c: Map<u64, EntryView>,
    m: Seq<MemoryEntry>,
    a: u64,
    x: int,
    b: u8,
    later: Seq<MemoryEntry>,
)
    requires
        consistent(c, m),
        c.contains_key(a),
        entry_fresh(c[a], m),
        a <= x < a + c[a].instr.len,
        evolves(written(m, x, b), later),
    ensures
        !entry_fresh(c[a], later),
        cached_fetch(c, later, a) == spec_decode(later, a),
        cache_after_fetch(c, later, a) == match spec_decode(later, a) {
            Ok(ins) => c.insert(
                a,
                EntryView {
                    instr: ins,
                    valid: true,
                    snapshot: counters_in(later, a as int, ins.len as nat),
                },
            ),
            Err(_) => c,
        },
{
    let e = c[a];
    assert(entry_agrees(e, a, m));
    let k = x - a;
    assert(e.snapshot[k] == m[a + k].set_counter && e.snapshot[k] < u64::MAX);
    let mid = written(m, x, b);
    assert(mid[x].set_counter == e.snapshot[k] + 1);
    assert(mid[x].set_counter <= later[x].set_counter);
}

impl InstructionCache {
    /// An empty cache.
    pub fn new() -> (r: InstructionCache)
        ensures
            r@ == Map::<u64, EntryView>::empty(),
    {
        let r = InstructionCache { entries: HashMap::new() };
        assert(r@ =~= Map::<u64, EntryView>::empty());
        r
    }

    /// Whether the entry for `addr` may be served for memory `mem`.
    pub fn is_fresh(&self, addr: u64, mem: &Memory) -> (r: bool)
        ensures
            r == (self@.contains_key(addr) && entry_fresh(self@[addr], mem@)),
    {
        match self.entries.get(&addr) {
            None => false,
            Some(e) => {
                assert(self@[addr] == e@);
                proof {
                    mem.lemma_len_fits();
                }
                let start = e.value.start;
                let n = e.value.len;
                if !e.valid || e.set_counter_when_cached.len() as u64 != n {
                    return false;
                }
                let total = mem.len() as u64;
                if start > total || n > total - start {
                    return false;
                }
                let mut i: u64 = 0;
                while i < n
                    invariant
                        i <= n,
                        n == e.value.len,
                        start == e.value.start,
                        e.set_counter_when_cached@.len() == n,
                        e.set_counter_when_cached.len() == n,
                        start + n <= mem@.len(),
                        mem@.len() <= u64::MAX,
                        self@[addr] == e@,
                        e@.valid,
                        forall|j: int|
                            0 <= j < i ==> #[trigger] e.set_counter_when_cached@[j] == mem@[start
                                + j].set_counter && e.set_counter_when_cached@[j] < u64::MAX,
                    decreases n - i,
                {
                    let snap = e.set_counter_when_cached[i as usize];
                    let current = match mem.version(start + i) {
                        Ok(c) => c,
                        Err(_) => {
                            return false;
                        },
                    };
                    if snap != current || snap == u64::MAX {
                        assert(!(e.set_counter_when_cached@[i as int] == mem@[start + i].set_counter
                            && e.set_counter_when_cached@[i as int] < u64::MAX));
                        return false;
                    }
                    i += 1;
                }
                true
            },
        }
    }

    /// Marks the entry for `addr`, if any, as no longer to be served.
    pub fn invalidate(&mut self, addr: u64)
        ensures
            old(self)@.contains_key(addr) ==> final(self)@ == old(self)@.insert(
                addr,
                EntryView {
                    instr: old(self)@[addr].instr,
                    valid: false,
                    snapshot: old(self)@[addr].snapshot,
                },
            ),
            !old(self)@.contains_key(addr) ==> final(self)@ == old(self)@,
            forall|m: Seq<MemoryEntry>|
                consistent(old(self)@, m) ==> #[trigger] consistent(final(self)@, m),
    {
        match self.entries.remove(&addr) {
            None => {},
            Some(e) => {
                self.entries.insert(
                    addr,
                    CacheEntry {
                        value: e.value,
                        valid: false,
                        set_counter_when_cached: e.set_counter_when_cached,
                    },
                );
                assert(self@ =~= old(self)@.insert(
                    addr,
                    EntryView {
                        instr: old(self)@[addr].instr,
                        valid: false,
                        snapshot: old(self)@[addr].snapshot,
                    },
                ));
            },
        }
        assert forall|m: Seq<MemoryEntry>| consistent(old(self)@, m) implies #[trigger] consistent(
            self@,
            m,
        ) by {
            assert forall|k: u64| #[trigger] self@.contains_key(k) implies entry_agrees(
                self@[k],
                k,
                m,
            ) by {
                assert(old(self)@.contains_key(k));
            }
        }
    }

    /// The instruction at `addr`: the cached decode while none of its bytes has
    /// been written since it was made, a fresh decode (which replaces the
    /// entry) otherwise. For a cache that agrees with memory this is exactly
    /// what decoding memory gives.
    pub fn fetch(&mut self, addr: u64, mem: &Memory) -> (r: Result<Instruction, VmError>)
        ensures
            r == cached_fetch(old(self)@, mem@, addr),
            final(self)@ == cache_after_fetch(old(self)@, mem@, addr),
            consistent(old(self)@, mem@) ==> r == spec_decode(mem@, addr) && consistent(
                final(self)@,
                mem@,
            ),
    {
        proof {
            if consistent(self@, mem@) {
                lemma_cache_transparent_fetch(self@, mem@, addr);
                lemma_fetch_keeps_consistent(self@, mem@, addr);
            }
        }
        if self.is_fresh(addr, mem) {
            match self.entries.get(&addr) {
                Some(e) => {
                    return Ok(e.value);
                },
                None => {},
            }
        }
        match decode_instruction(addr, mem) {
            Ok(ins) => {
                proof {
                    lemma_decode_wf(mem@, addr);
                }
                let snapshot = snapshot_counters(mem, addr, ins.len);
                self.entries.insert(
                    addr,
                    CacheEntry { value: ins, valid: true, set_counter_when_cached: snapshot },
                );
                assert(self@ =~= cache_after_fetch(old(self)@, mem@, addr));
                Ok(ins)
            },
            Err(e) => Err(e),
        }
    }
}

/// The current write counters of the `n` bytes from `addr`.
fn snapshot_counters(mem: &Memory, addr: u64, n: u64) -> (r: Vec<u64>)
    requires
        in_bounds(mem@, addr as int, n as nat),
    ensures
        r@ == counters_in(mem@, addr as int, n as nat),
{
    proof {
        mem.lemma_len_fits();
    }
    let mut out: Vec<u64> = Vec::new();
    let mut i: u64 = 0;
    while i < n
        invariant
            i <= n,
            in_bounds(mem@, addr as int, n as nat),
            mem@.len() <= u64::MAX,
            out@ =~= counters_in(mem@, addr as int, i as nat),
        decreases n - i,
    {
        let c = match mem.version(addr + i) {
            Ok(c) => c,
            Err(_) => 0,
        };
        out.push(c);
        i += 1;
    }
    out
}

} // verus!
