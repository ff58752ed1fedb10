use vstd::prelude::*;
use vstd::arithmetic::div_mod::lemma_mod_breakdown;
use crate::error::VmError;

verus! {

/// One byte of memory together with the number of writes it has seen.
#[derive(Clone, Copy, Debug, PartialEq, Eq, Structural)]
pub struct MemoryEntry {
    pub value: u8,
    pub set_counter: u64,
}

/// Flat byte-addressed memory of fixed capacity. Every write to a byte advances
/// that byte's own counter, so an observer can tell whether a byte may have
/// changed since it last looked.
pub struct Memory {
    mem: Vec<MemoryEntry>,
}

impl View for Memory {
    type V = Seq<MemoryEntry>;

    closed spec fn view(&self) -> Seq<MemoryEntry> {
        self.mem@
    }
}

/// A write counter after one more write. The counter saturates at its largest
/// value, so it never decreases.
pub open spec fn bumped(c: u64) -> u64 {
    if c < u64::MAX {
        (c + 1) as u64
    } else {
        c
    }
}

/// Memory `m` after writing byte `b` at address `a`.
pub open spec fn written(m: Seq<MemoryEntry>, a: int, b: u8) -> Seq<MemoryEntry> {
    m.update(a, MemoryEntry { value: b, set_counter: bumped(m[a].set_counter) })
}

/// Memory `m` after writing the bytes `bs` at ascending addresses from `a`, one
/// write per byte.
pub open spec fn written_range(m: Seq<MemoryEntry>, a: int, bs: Seq<u8>) -> Seq<MemoryEntry> {
    Seq::new(
        m.len(),
        |i: int|
            if a <= i < a + bs.len() {
                MemoryEntry { value: bs[i - a], set_counter: bumped(m[i].set_counter) }
            } else {
                m[i]
            },
    )
}

/// The `n` byte values of `m` from address `a` on.
pub open spec fn bytes_in(m: Seq<MemoryEntry>, a: int, n: nat) -> Seq<u8> {
    Seq::new(n, |i: int| m[a + i].value)
}

/// Whether `n` bytes from address `a` lie inside `m`.
pub open spec fn in_bounds(m: Seq<MemoryEntry>, a: int, n: nat) -> bool {
    0 <= a && a + n <= m.len()
}

/// The address an access starting at `a` fails on when it runs past memory
/// `m`: the first address at or past the end, as when the access is made one
/// byte at a time.
pub open spec fn first_outside(m: Seq<MemoryEntry>, a: u64) -> u64 {
    if a >= m.len() {
        a
    } else {
        m.len() as u64
    }
}

/// `m2` can follow `m1` by writes: no counter went down, and a byte whose
/// counter did not move (and is not saturated) still holds its value.
pub open spec fn evolves(m1: Seq<MemoryEntry>, m2: Seq<MemoryEntry>) -> bool {
    &&& m1.len() == m2.len()
    &&& forall|i: int|
        #![trigger m1[i]]
        #![trigger m2[i]]
        0 <= i < m1.len() ==> m1[i].set_counter <= m2[i].set_counter
    &&& forall|i: int|
        #![trigger m1[i]]
        #![trigger m2[i]]
        0 <= i < m1.len() && m1[i].set_counter == m2[i].set_counter && m1[i].set_counter
            < u64::MAX ==> m1[i].value == m2[i].value
}

/// 256 to the power `n`.
pub open spec fn pow256(n: nat) -> nat
    decreases n,
{
    if n == 0 {
        1
    } else {
        256 * pow256((n - 1) as nat)
    }
}

/// The `n` low bytes of `v`, least significant first.
pub open spec fn le_bytes(v: nat, n: nat) -> Seq<u8>
    decreases n,
{
    if n == 0 {
        Seq::empty()
    } else {
        seq![(v % 256) as u8] + le_bytes(v / 256, (n - 1) as nat)
    }
}

/// The number whose little-endian bytes are `s`.
pub open spec fn le_value(s: Seq<u8>) -> nat
    decreases s.len(),
{
    if s.len() == 0 {
        0
    } else {
        (s[0] + 256 * le_value(s.drop_first())) as nat
    }
}

pub proof fn lemma_pow256_positive(n: nat)
    ensures
        pow256(n) > 0,
    decreases n,
{
    if n > 0 {
        lemma_pow256_positive((n - 1) as nat);
    }
}

pub proof fn lemma_le_bytes_len(v: nat, n: nat)
    ensures
        le_bytes(v, n).len() == n,
    decreases n,
{
    if n > 0 {
        lemma_le_bytes_len(v / 256, (n - 1) as nat);
    }
}

/// A little-endian value of `k` bytes is below `256^k`.
pub proof fn lemma_le_value_bound(s: Seq<u8>)
    ensures
        le_value(s) < pow256(s.len()),
    decreases s.len(),
{
    if s.len() > 0 {
        lemma_le_value_bound(s.drop_first());
    }
}

/// Encoding `v` in `n` little-endian bytes and reading them back gives `v`
/// modulo `256^n`.
pub proof fn lemma_le_round_trip(v: nat, n: nat)
    ensures
        le_value(le_bytes(v, n)) == v % pow256(n),
    decreases n,
{
    if n > 0 {
        let rest = le_bytes(v / 256, (n - 1) as nat);
        assert(le_bytes(v, n).drop_first() =~= rest);
        lemma_le_round_trip(v / 256, (n - 1) as nat);
        lemma_pow256_positive((n - 1) as nat);
        lemma_mod_breakdown(v as int, 256, pow256((n - 1) as nat) as int);
    }
}

pub proof fn lemma_evolves_refl(m: Seq<MemoryEntry>)
    ensures
        evolves(m, m),
{
}

pub proof fn lemma_written_range_evolves(m: Seq<MemoryEntry>, a: int, bs: Seq<u8>)
    ensures
        evolves(m, written_range(m, a, bs)),
{
}

/// Reading back a range just written gives the bytes written.
pub proof fn lemma_read_written_range(m: Seq<MemoryEntry>, a: int, bs: Seq<u8>)
    requires
        in_bounds(m, a, bs.len()),
    ensures
        bytes_in(written_range(m, a, bs), a, bs.len()) =~= bs,
{
}

impl Memory {
    /// Memory of `capacity` bytes, all zero, none written yet.
    pub fn new(capacity: usize) -> (r: Memory)
        ensures
            r@ == Seq::new(capacity as nat, |i: int| MemoryEntry { value: 0, set_counter: 0 }),
    {
        let mut mem: Vec<MemoryEntry> = Vec::new();
        let mut i: usize = 0;
        while i < capacity
            invariant
                i <= capacity,
                mem@ =~= Seq::new(i as nat, |j: int| MemoryEntry { value: 0, set_counter: 0 }),
            decreases capacity - i,
        {
            mem.push(MemoryEntry { value: 0, set_counter: 0 });
            i += 1;
        }
        Memory { mem }
    }

    /// The capacity is an address range of the machine.
    pub proof fn lemma_len_fits(&self)
        ensures
            self@.len() <= u64::MAX,
    {
        let n: usize = self.mem.len();
        assert(n as int <= u64::MAX);
    }

    /// Capacity in bytes.
    pub fn len(&self) -> (r: usize)
        ensures
            r == self@.len(),
    {
        self.mem.len()
    }

    /// The byte at `addr`.
    pub fn get(&self, addr: u64) -> (r: Result<u8, VmError>)
        ensures
            addr < self@.len() ==> r == Ok::<u8, VmError>(self@[addr as int].value),
            addr >= self@.len() ==> r == Err::<u8, VmError>(VmError::OutOfBounds { addr }),
    {
        if addr >= self.mem.len() as u64 {
            return Err(VmError::OutOfBounds { addr });
        }
        Ok(self.mem[addr as usize].value)
    }

    /// How many writes the byte at `addr` has seen (saturating).
    pub fn version(&self, addr: u64) -> (r: Result<u64, VmError>)
        ensures
            addr < self@.len() ==> r == Ok::<u64, VmError>(self@[addr as int].set_counter),
            addr >= self@.len() ==> r == Err::<u64, VmError>(VmError::OutOfBounds { addr }),
    {
        if addr >= self.mem.len() as u64 {
            return Err(VmError::OutOfBounds { addr });
        }
        Ok(self.mem[addr as usize].set_counter)
    }

    /// Writes `value` at `addr` and advances that byte's counter.
    pub fn set(&mut self, addr: u64, value: u8) -> (r: Result<(), VmError>)
        ensures
            addr < old(self)@.len() ==> r is Ok && final(self)@ == written(
                old(self)@,
                addr as int,
                value,
            ),
            addr >= old(self)@.len() ==> r == Err::<(), VmError>(VmError::OutOfBounds { addr })
                && final(self)@ == old(self)@,
            evolves(old(self)@, final(self)@),
    {
        if addr >= self.mem.len() as u64 {
            return Err(VmError::OutOfBounds { addr });
        }
        let i = addr as usize;
        let c = self.mem[i].set_counter;
        let next: u64 = if c < u64::MAX {
            c + 1
        } else {
            c
        };
        self.mem[i] = MemoryEntry { value, set_counter: next };
        Ok(())
    }

    /// The `n` bytes from `addr` on; fails, naming the first missing address,
    /// unless all of them exist.
    pub fn read_bytes(&self, addr: u64, n: usize) -> (r: Result<Vec<u8>, VmError>)
        ensures
            in_bounds(self@, addr as int, n as nat) ==> r is Ok && r->Ok_0@ == bytes_in(
                self@,
                addr as int,
                n as nat,
            ),
            !in_bounds(self@, addr as int, n as nat) ==> r == Err::<Vec<u8>, VmError>(
                VmError::OutOfBounds { addr: first_outside(self@, addr) },
            ),
    {
        let len = self.mem.len() as u64;
        if addr > len {
            return Err(VmError::OutOfBounds { addr });
        }
        if n as u64 > len - addr {
            return Err(VmError::OutOfBounds { addr: len });
        }
        let base = addr as usize;
        let mut out: Vec<u8> = Vec::new();
        let mut i: usize = 0;
        while i < n
            invariant
                i <= n,
                base + n <= self.mem.len(),
                out@ =~= bytes_in(self@, base as int, i as nat),
            decreases n - i,
        {
            out.push(self.mem[base + i].value);
            i += 1;
        }
        Ok(out)
    }

    /// Writes `bytes` at ascending addresses from `addr`, advancing each byte's
    /// counter once; writes nothing, and names the first missing address, unless
    /// all of them exist.
    pub fn write_bytes(&mut self, addr: u64, bytes: &Vec<u8>) -> (r: Result<(), VmError>)
        ensures
            in_bounds(old(self)@, addr as int, bytes@.len()) ==> r is Ok && final(self)@
                == written_range(old(self)@, addr as int, bytes@),
            !in_bounds(old(self)@, addr as int, bytes@.len()) ==> r == Err::<(), VmError>(
                VmError::OutOfBounds { addr: first_outside(old(self)@, addr) },
            ) && final(self)@ == old(self)@,
            evolves(old(self)@, final(self)@),
    {
        let len = self.mem.len() as u64;
        let n = bytes.len();
        if addr > len {
            return Err(VmError::OutOfBounds { addr });
        }
        if n as u64 > len - addr {
            return Err(VmError::OutOfBounds { addr: len });
        }
        let base = addr as usize;
        let mut i: usize = 0;
        while i < n
            invariant
                i <= n,
                n == bytes@.len(),
                base + n <= self.mem.len(),
                self@ =~= written_range(old(self)@, base as int, bytes@.take(i as int)),
            decreases n - i,
        {
            let c = self.mem[base + i].set_counter;
            let next: u64 = if c < u64::MAX {
                c + 1
            } else {
                c
            };
            self.mem[base + i] = MemoryEntry { value: bytes[i], set_counter: next };
            i += 1;
            assert(self@ =~= written_range(old(self)@, base as int, bytes@.take(i as int)));
        }
        assert(bytes@.take(n as int) =~= bytes@);
        proof {
            lemma_written_range_evolves(old(self)@, base as int, bytes@);
        }
        Ok(())
    }
}

} // verus!
