//! The decisions of the embedder: which blocks there are, which are compiled, and when they
//! are dropped.
//!
//! The embedder runs the guest, compiles modules and holds the functions that come of them;
//! here they are handles, numbers of its own. It asks what to do, does it, and reports what
//! came of it.

use std::collections::{HashMap, VecDeque};
use vstd::prelude::*;
use vstd::arithmetic::power2::{lemma_pow2_pos, pow2};
use vstd::bits::{lemma_u32_pow2_no_overflow, lemma_u32_shl_is_mul};
use crate::arith::{lemma_casts, u64w};
use crate::cache::{Cache, CacheKey, Cached};
use crate::codegen::{block_module, build_error, try_build_block, BuildError};
use crate::config::Truncation;
use crate::encode::module_bytes;
use crate::ir::{ir_ops, tuple_at, tuple_count, TUPLE_SIZE};
use crate::shape::{used_helpers, Config, TlbLayout, KERNEL_HALF_BASE};

verus! {

/// Id of the first helper of an atomic; those of loads and stores come before.
pub const FIRST_ATOMIC: usize = 11;

/// Size of a guest page.
pub const PAGE_SIZE: u64 = 4096;

/// What the user can switch.
#[derive(Debug)]
pub struct Options {
    /// Compile nothing.
    pub disable_compile: bool,
    /// Compile no more blocks than this.
    pub max_blocks: u64,
    /// Compile no block at one of these pcs.
    pub skip_pcs: Vec<u64>,
    /// Drop no block.
    pub ignore_flush: bool,
    /// Compile no block that ends in a conditional branch.
    pub no_branch: bool,
    /// Compile no block that ends in a jump.
    pub no_jump: bool,
    /// Compile no block with a load or store.
    pub no_mem: bool,
    /// Cut one block short.
    pub truncate: Option<Truncation>,
}

/// Why a block is not registered.
#[derive(Clone, Copy, Debug, PartialEq, Eq, Structural)]
pub enum RegisterError {
    /// The guest exports no memory.
    NoMemory,
    /// The end of the stream is no address.
    Overflow,
    /// The stream is not in the guest's memory.
    OutOfBounds,
    /// The block ends in a conditional branch, and these are switched off.
    Branch,
    /// The block ends in a jump, and these are switched off.
    Jump,
    /// The block accesses memory, and that is switched off.
    Mem,
    /// The block needs helpers that the guest does not export.
    NoHelpers,
    /// The table slot does not fit 32 bits.
    SlotTooLarge,
    /// The module could not be compiled, instantiated or put into the table.
    Outside,
}

impl RegisterError {
    /// The error in words.
    pub open spec fn spec_message(self) -> &'static str {
        match self {
            RegisterError::NoMemory => "guest memory not cached",
            RegisterError::Overflow => "ir_ptr+len overflow",
            RegisterError::OutOfBounds => "ir buffer out of bounds",
            RegisterError::Branch => "JIT_NO_BRANCH: skipping branch terminator",
            RegisterError::Jump => "JIT_NO_JUMP: skipping jump terminator",
            RegisterError::Mem => "JIT_NO_MEM: skipping block with memory ops",
            RegisterError::NoHelpers => {
                "block uses memory ops but guest exports no c2w_jit_* helpers"
            },
            RegisterError::SlotTooLarge => "table slot > u32",
            RegisterError::Outside => "block module rejected",
        }
    }

    /// The error in words.
    pub fn message(&self) -> (s: &'static str)
        ensures
            s == self.spec_message(),
    {
        match self {
            RegisterError::NoMemory => "guest memory not cached",
            RegisterError::Overflow => "ir_ptr+len overflow",
            RegisterError::OutOfBounds => "ir buffer out of bounds",
            RegisterError::Branch => "JIT_NO_BRANCH: skipping branch terminator",
            RegisterError::Jump => "JIT_NO_JUMP: skipping jump terminator",
            RegisterError::Mem => "JIT_NO_MEM: skipping block with memory ops",
            RegisterError::NoHelpers => {
                "block uses memory ops but guest exports no c2w_jit_* helpers"
            },
            RegisterError::SlotTooLarge => "table slot > u32",
            RegisterError::Outside => "block module rejected",
        }
    }
}

/// What has happened so far.
#[derive(Clone, Copy, Debug, PartialEq, Eq, Structural)]
pub struct Stats {
    pub register_ok: u64,
    pub register_fail: u64,
    pub cache_hit: u64,
    pub dispatch_hit: u64,
    pub dispatch_miss: u64,
    /// Flushes, by kind: change of address space, of a mapping, of code.
    pub flush_satp: u64,
    pub flush_sfence: u64,
    pub flush_fencei: u64,
    pub compile_nanos: u64,
}

/// How the registration of a block goes on.
#[derive(Debug)]
pub enum Prepared {
    /// The block was compiled before; this is the answer to the guest.
    Relinked(i32),
    /// The block is not registered.
    Refused(RegisterError),
    /// The stream, as it may have been cut short, and its module, to be compiled and
    /// instantiated with these helpers.
    Compile { ir: Vec<u8>, module: Vec<u8>, helpers: Vec<usize> },
    /// The block cannot be compiled.
    Unsupported(BuildError),
}

/// The state of the embedder, as far as it decides.
pub struct Host {
    /// Blocks by pc: a handle, or that there is nothing to compile.
    blocks: HashMap<u64, Option<usize>>,
    cache: Cache,
    /// The guest dispatches by itself, through its function table.
    wasm_dispatch: bool,
    tlb: Option<TlbLayout>,
    stats: Stats,
    /// The latest dispatches, as pairs of pc and next pc, the oldest first.
    trace: VecDeque<(u64, u64)>,
    trace_capacity: usize,
}

/// The state of the embedder as a value.
#[verifier::ext_equal]
pub struct HostView {
    pub blocks: Map<u64, Option<usize>>,
    pub cache: Map<CacheKey, Cached>,
    pub wasm_dispatch: bool,
    pub tlb: Option<TlbLayout>,
    pub stats: Stats,
    pub trace: Seq<(u64, u64)>,
    pub trace_capacity: usize,
}

/// One more, modulo 2 to the 64th.
pub open spec fn inc(n: u64) -> u64 {
    u64w(n + 1)
}

/// The last `n` elements of `s`.
pub open spec fn last_of<T>(s: Seq<T>, n: nat) -> Seq<T> {
    if s.len() <= n {
        s
    } else {
        s.skip(s.len() - n)
    }
}

impl HostView {
    /// What the guest is told of a failure: zero where the embedder dispatches, a negative
    /// slot where the guest does.
    pub open spec fn fail_code(self) -> i32 {
        if self.wasm_dispatch {
            -1i32
        } else {
            0
        }
    }

    /// Where the embedder dispatches, no block in the cache has a slot in the guest's table.
    pub open spec fn unslotted(self) -> bool {
        !self.wasm_dispatch ==> forall|key: CacheKey| #[trigger]
            self.cache.contains_key(key) ==> self.cache[key].slot is None
    }

    /// The compiled block at a pc.
    pub open spec fn block_at(self, pc: u64) -> Option<usize> {
        if self.blocks.contains_key(pc) {
            self.blocks[pc]
        } else {
            None
        }
    }

    /// A pc without a block: it is not to be tried again.
    pub open spec fn barred(self, pc: u64) -> HostView {
        HostView { blocks: self.blocks.insert(pc, None), ..self }
    }

    /// The state after a lookup for dispatch.
    pub open spec fn looked_up(self, pc: u64) -> HostView {
        if self.block_at(pc) is Some {
            self
        } else {
            HostView {
                stats: Stats { dispatch_miss: inc(self.stats.dispatch_miss), ..self.stats },
                ..self
            }
        }
    }

    /// The state after a block has run.
    pub open spec fn dispatched(self, pc: u64, next: u64) -> HostView {
        HostView {
            stats: Stats { dispatch_hit: inc(self.stats.dispatch_hit), ..self.stats },
            trace: if self.trace_capacity > 0 {
                last_of(self.trace.push((pc, next)), self.trace_capacity as nat)
            } else {
                self.trace
            },
            ..self
        }
    }

    /// The block is not even looked at.
    pub open spec fn rejects(self, opts: Options, pc: u64) -> bool {
        opts.disable_compile || self.stats.register_ok >= opts.max_blocks
            || opts.skip_pcs@.contains(pc)
    }

    /// What the guest is told of a block that is in the cache or has just been put there: its
    /// slot, or one.
    pub open spec fn answer(block: Cached) -> i32 {
        match block.slot {
            Some(slot) => slot as i32,
            None => 1,
        }
    }

    /// The state after a block has been found in the cache.
    pub open spec fn relinked(self, pc: u64, block: Cached) -> HostView {
        HostView {
            blocks: if block.slot is None {
                self.blocks.insert(pc, Some(block.handle))
            } else {
                self.blocks
            },
            stats: Stats { cache_hit: inc(self.stats.cache_hit), ..self.stats },
            ..self
        }
    }

    /// The state after a new block has been put into the cache.
    pub open spec fn linked(self, key: CacheKey, block: Cached) -> HostView {
        HostView {
            blocks: if block.slot is None {
                self.blocks.insert(key.pc, Some(block.handle))
            } else {
                self.blocks
            },
            cache: self.cache.insert(key, block),
            ..self
        }
    }

    /// The state at the end of a registration.
    pub open spec fn concluded(self, pc: u64, ok: bool, nanos: u64) -> HostView {
        let stats = Stats {
            compile_nanos: u64w(self.stats.compile_nanos + nanos),
            ..self.stats
        };
        if ok {
            HostView { stats: Stats { register_ok: inc(stats.register_ok), ..stats }, ..self }
        } else {
            HostView {
                stats: Stats { register_fail: inc(stats.register_fail), ..stats },
                ..self.barred(pc)
            }
        }
    }

    /// The state after the guest has said that mappings have changed. Kind 0 is a change of
    /// address space, which the kernel half survives; kind 1 concerns one page, if an
    /// address is given; else everything is dropped. Where the guest dispatches it drops
    /// blocks itself.
    pub open spec fn flushed(self, kind: i32, addr: i64, ignore: bool) -> HostView {
        let stats = if kind == 0 {
            Stats { flush_satp: inc(self.stats.flush_satp), ..self.stats }
        } else if kind == 1 {
            Stats { flush_sfence: inc(self.stats.flush_sfence), ..self.stats }
        } else {
            Stats { flush_fencei: inc(self.stats.flush_fencei), ..self.stats }
        };
        let blocks = if ignore || self.wasm_dispatch {
            self.blocks
        } else {
            self.blocks.restrict(Set::new(|pc: u64| survives(pc, kind, addr)))
        };
        HostView { stats, blocks, ..self }
    }

    /// What the host compiles blocks with.
    pub open spec fn config(self, pc: u64, end_pc: u64, n_insns: u32) -> Config {
        Config { start_pc: pc, end_pc, n_insns, tlb: self.tlb, chain: None, lift: false }
    }
}

/// The block at `pc` survives a flush.
pub open spec fn survives(pc: u64, kind: i32, addr: i64) -> bool {
    if kind == 0 {
        pc >= KERNEL_HALF_BASE
    } else if kind == 1 && addr != 0 {
        pc / PAGE_SIZE != u64w(addr as int) / PAGE_SIZE
    } else {
        false
    }
}

/// The number as the guest's 32-bit argument is widened.
pub open spec fn widened(i: i32) -> int {
    if i < 0 {
        i + 0x1_0000_0000_0000_0000
    } else {
        i as int
    }
}

/// Kind of the last operation of a stream, which decides how the block ends.
pub open spec fn last_kind(ir: Seq<u8>) -> u8 {
    tuple_at(ir, tuple_count(ir) - 1)[0]
}

/// Some operation of the stream is a load or store.
pub open spec fn has_mem(ir: Seq<u8>) -> bool {
    exists|i: int| 0 <= i < tuple_count(ir) && 38 <= #[trigger] tuple_at(ir, i)[0] <= 48
}

/// Why a stream is filtered out, if it is.
pub open spec fn filtered(opts: Options, ir: Seq<u8>) -> Option<RegisterError> {
    if ir.len() == 0 {
        None
    } else if opts.no_branch && 32 <= last_kind(ir) <= 37 {
        Some(RegisterError::Branch)
    } else if opts.no_jump && 30 <= last_kind(ir) <= 31 {
        Some(RegisterError::Jump)
    } else if opts.no_mem && has_mem(ir) {
        Some(RegisterError::Mem)
    } else {
        None
    }
}

/// The stream of a block, cut short if it is the one to be.
pub open spec fn cut(truncate: Option<Truncation>, pc: u64, ir: Seq<u8>) -> Seq<u8> {
    match truncate {
        Some(t) => if t.pc == pc && t.ops * 16 < ir.len() {
            ir.take(t.ops * 16)
        } else {
            ir
        },
        None => ir,
    }
}

/// Where the stream of a block is in the guest's memory, of which there are `mem_len` bytes:
/// its first byte and the one behind its last.
pub fn ir_range(ir_ptr: i32, ir_len: i32, mem_len: u64) -> (r: Result<(u64, u64), RegisterError>)
    ensures
        r == (if widened(ir_ptr) + widened(ir_len) > u64::MAX {
            Err(RegisterError::Overflow)
        } else if widened(ir_ptr) + widened(ir_len) > mem_len {
            Err(RegisterError::OutOfBounds)
        } else {
            Ok((widened(ir_ptr) as u64, (widened(ir_ptr) + widened(ir_len)) as u64))
        }),
{
    let start: u64 = widen(ir_ptr);
    let len: u64 = widen(ir_len);
    match start.checked_add(len) {
        None => Err(RegisterError::Overflow),
        Some(end) => if end > mem_len {
            Err(RegisterError::OutOfBounds)
        } else {
            Ok((start, end))
        },
    }
}

fn widen(i: i32) -> (r: u64)
    ensures
        r == widened(i),
{
    if i >= 0 {
        i as u64
    } else {
        // The magnitude of a negative number is at most 2 to the 31st.
        let below: u64 = (-(i as i64)) as u64;
        u64::MAX - (below - 1)
    }
}

/// Tests whether some operation of the stream is a load or store.
fn accesses_memory(ir: &[u8]) -> (r: bool)
    ensures
        r == has_mem(ir@),
{
    let len: usize = ir.len();
    let n: usize = len / TUPLE_SIZE;
    let mut i: usize = 0;
    while i < n
        invariant
            len == ir@.len(),
            n == len / TUPLE_SIZE,
            i <= n,
            forall|j: int| 0 <= j < i ==> !(38 <= #[trigger] tuple_at(ir@, j)[0] <= 48),
        decreases n - i,
    {
        let kind: u8 = ir[i * TUPLE_SIZE];
        assert(kind == tuple_at(ir@, i as int)[0]);
        if 38 <= kind && kind <= 48 {
            return true;
        }
        i = i + 1;
    }
    false
}

/// Filters a stream by the kinds of its operations.
pub fn filter(opts: &Options, ir: &[u8]) -> (r: Option<RegisterError>)
    requires
        ir@.len() == 0 || ir@.len() >= 16,
    ensures
        r == filtered(*opts, ir@),
{
    let len: usize = ir.len();
    if len == 0 {
        return None;
    }
    let last: usize = len / TUPLE_SIZE - 1;
    let kind: u8 = ir[last * TUPLE_SIZE];
    assert(kind == tuple_at(ir@, last as int)[0]);
    if opts.no_branch && 32 <= kind && kind <= 37 {
        Some(RegisterError::Branch)
    } else if opts.no_jump && (kind == 30 || kind == 31) {
        Some(RegisterError::Jump)
    } else if opts.no_mem && accesses_memory(ir) {
        Some(RegisterError::Mem)
    } else {
        None
    }
}

/// The stream of a block, cut short if it is the one to be.
pub fn truncated(truncate: Option<Truncation>, pc: u64, ir: &[u8]) -> (r: Vec<u8>)
    ensures
        r@ == cut(truncate, pc, ir@),
{
    let len: usize = ir.len();
    let end: usize = match truncate {
        Some(t) => if t.pc == pc && (t.ops as u128) * 16 < len as u128 {
            (t.ops as usize) * 16
        } else {
            len
        },
        None => len,
    };
    let mut r: Vec<u8> = Vec::new();
    let mut i: usize = 0;
    while i < end
        invariant
            i <= end <= ir@.len(),
            r@ =~= ir@.take(i as int),
        decreases end - i,
    {
        r.push(ir[i]);
        i = i + 1;
    }
    assert(ir@.take(ir@.len() as int) =~= ir@);
    r
}

/// Checks that the helpers of a block can be had: those of loads and stores, which the guest
/// exports all or none, and those of atomics, likewise.
pub fn check_helpers(helpers: &Vec<usize>, mem: bool, atomics: bool) -> (r: Result<
    (),
    RegisterError,
>)
    ensures
        r == (if exists|i: int|
            0 <= i < helpers@.len() && !(if #[trigger] helpers@[i] < FIRST_ATOMIC {
                mem
            } else {
                atomics
            }) {
            Err(RegisterError::NoHelpers)
        } else {
            Ok(())
        }),
{
    let mut i: usize = 0;
    while i < helpers.len()
        invariant
            i <= helpers@.len(),
            forall|j: int|
                0 <= j < i ==> if #[trigger] helpers@[j] < FIRST_ATOMIC {
                    mem
                } else {
                    atomics
                },
        decreases helpers.len() - i,
    {
        let had = if helpers[i] < FIRST_ATOMIC {
            mem
        } else {
            atomics
        };
        if !had {
            assert(!(if helpers@[i as int] < FIRST_ATOMIC {
                mem
            } else {
                atomics
            }));
            return Err(RegisterError::NoHelpers);
        }
        i = i + 1;
    }
    Ok(())
}

/// Tests whether a block survives a flush.
fn is_surviving(pc: u64, kind: i32, addr: i64) -> (r: bool)
    ensures
        r == survives(pc, kind, addr),
{
    if kind == 0 {
        pc >= KERNEL_HALF_BASE
    } else if kind == 1 && addr != 0 {
        let a: u64 = addr as u64;
        assert(a == u64w(addr as int)) by {
            assert((addr as u64) == if addr >= 0 {
                addr as int
            } else {
                addr + 0x1_0000_0000_0000_0000
            }) by (bit_vector);
        }
        pc / PAGE_SIZE != a / PAGE_SIZE
    } else {
        false
    }
}

impl View for Host {
    type V = HostView;

    closed spec fn view(&self) -> HostView {
        HostView {
            blocks: self.blocks@,
            cache: self.cache@,
            wasm_dispatch: self.wasm_dispatch,
            tlb: self.tlb,
            stats: self.stats,
            trace: self.trace@,
            trace_capacity: self.trace_capacity,
        }
    }
}

impl Host {
    /// The cache is in order, the trace is no longer than it may be, and where the embedder
    /// dispatches no block has a slot.
    pub closed spec fn wf(&self) -> bool {
        &&& self.cache.wf()
        &&& self.trace@.len() <= self.trace_capacity
        &&& self@.unslotted()
    }

    /// Where the embedder dispatches, no block in the cache has a slot.
    pub proof fn lemma_unslotted(&self)
        requires
            self.wf(),
        ensures
            self@.unslotted(),
    {
    }

    /// A host without blocks that keeps the last `trace_capacity` dispatches.
    pub fn new(trace_capacity: usize) -> (h: Host)
        ensures
            h.wf(),
            h@ == (HostView {
                blocks: Map::empty(),
                cache: Map::empty(),
                wasm_dispatch: false,
                tlb: None,
                stats: Stats {
                    register_ok: 0,
                    register_fail: 0,
                    cache_hit: 0,
                    dispatch_hit: 0,
                    dispatch_miss: 0,
                    flush_satp: 0,
                    flush_sfence: 0,
                    flush_fencei: 0,
                    compile_nanos: 0,
                },
                trace: Seq::empty(),
                trace_capacity,
            }),
    {
        Host {
            blocks: HashMap::new(),
            cache: Cache::new(),
            wasm_dispatch: false,
            tlb: None,
            stats: Stats {
                register_ok: 0,
                register_fail: 0,
                cache_hit: 0,
                dispatch_hit: 0,
                dispatch_miss: 0,
                flush_satp: 0,
                flush_sfence: 0,
                flush_fencei: 0,
                compile_nanos: 0,
            },
            trace: VecDeque::new(),
            trace_capacity,
        }
    }

    /// The guest exports its function table and dispatches by itself.
    pub fn set_wasm_dispatch(&mut self)
        requires
            old(self).wf(),
        ensures
            final(self).wf(),
            final(self)@ == (HostView { wasm_dispatch: true, ..old(self)@ }),
    {
        self.wasm_dispatch = true;
    }

    /// Memory accesses are compiled to probe the TLB of this layout.
    pub fn set_tlb(&mut self, tlb: TlbLayout)
        requires
            old(self).wf(),
        ensures
            final(self).wf(),
            final(self)@ == (HostView { tlb: Some(tlb), ..old(self)@ }),
    {
        self.tlb = Some(tlb);
    }

    /// What has happened so far.
    pub fn stats(&self) -> (s: Stats)
        ensures
            s == self@.stats,
    {
        self.stats
    }

    /// Number of pcs that the host knows of.
    pub fn block_count(&self) -> (n: usize)
        ensures
            n == self@.blocks.len(),
    {
        broadcast use vstd::std_specs::hash::group_hash_axioms;

        self.blocks.len()
    }

    /// Number of blocks in the cache.
    pub fn cache_len(&self) -> (n: usize)
        requires
            self.wf(),
        ensures
            n == self@.cache.len(),
    {
        self.cache.len()
    }

    /// Number of dispatches in the trace.
    pub fn trace_len(&self) -> (n: usize)
        ensures
            n == self@.trace.len(),
    {
        self.trace.len()
    }

    /// One dispatch of the trace, the oldest first.
    pub fn trace_at(&self, i: usize) -> (p: (u64, u64))
        requires
            i < self@.trace.len(),
        ensures
            p == self@.trace[i as int],
    {
        self.trace[i]
    }

    /// What the guest is told of a failure.
    pub fn fail_code(&self) -> (r: i32)
        ensures
            r == self@.fail_code(),
    {
        if self.wasm_dispatch {
            -1
        } else {
            0
        }
    }

    /// Looks up the block to run at a pc. Without one, the guest is to interpret.
    pub fn lookup(&mut self, pc: u64) -> (r: Option<usize>)
        requires
            old(self).wf(),
        ensures
            final(self).wf(),
            final(self)@ == old(self)@.looked_up(pc),
            r == old(self)@.block_at(pc),
    {
        broadcast use vstd::std_specs::hash::group_hash_axioms;

        let found: Option<usize> = match self.blocks.get(&pc) {
            Some(b) => *b,
            None => None,
        };
        if found.is_none() {
            self.stats.dispatch_miss = self.stats.dispatch_miss.wrapping_add(1);
        }
        found
    }

    /// Notes that the block at `pc` has run and went on at `next`.
    pub fn dispatched(&mut self, pc: u64, next: u64)
        requires
            old(self).wf(),
        ensures
            final(self).wf(),
            final(self)@ == old(self)@.dispatched(pc, next),
    {
        self.stats.dispatch_hit = self.stats.dispatch_hit.wrapping_add(1);
        if self.trace_capacity > 0 {
            self.trace.push_back((pc, next));
            if self.trace.len() > self.trace_capacity {
                let ghost t = self.trace@;
                let _ = self.trace.pop_front();
                assert(self.trace@ =~= last_of(t, self.trace_capacity as nat));
            }
        }
    }

    /// Decides whether a block is looked at. If not, it is not to be tried again, and the
    /// guest is told of the failure.
    pub fn consider(&mut self, opts: &Options, pc: u64) -> (r: Option<i32>)
        requires
            old(self).wf(),
        ensures
            final(self).wf(),
            old(self)@.rejects(*opts, pc) ==> r == Some(old(self)@.fail_code()) && final(self)@
                == old(self)@.barred(pc),
            !old(self)@.rejects(*opts, pc) ==> r == None::<i32> && final(self)@ == old(self)@,
    {
        let mut skipped = false;
        let mut i: usize = 0;
        while i < opts.skip_pcs.len()
            invariant
                i <= opts.skip_pcs@.len(),
                skipped <==> exists|j: int| 0 <= j < i && opts.skip_pcs@[j] == pc,
            decreases opts.skip_pcs.len() - i,
        {
            if opts.skip_pcs[i] == pc {
                skipped = true;
            }
            i = i + 1;
        }
        if opts.disable_compile || self.stats.register_ok >= opts.max_blocks || skipped {
            self.mark_uncompilable(pc);
            Some(self.fail_code())
        } else {
            None
        }
    }

    /// Notes that there is nothing to compile at a pc.
    pub fn mark_uncompilable(&mut self, pc: u64)
        requires
            old(self).wf(),
        ensures
            final(self).wf(),
            final(self)@ == old(self)@.barred(pc),
    {
        broadcast use vstd::std_specs::hash::group_hash_axioms;

        let _ = self.blocks.insert(pc, None);
    }

    /// Takes the stream of a block: filters it, cuts it short, finds it in the cache, or
    /// compiles it to a module.
    pub fn prepare(
        &mut self,
        opts: &Options,
        pc: u64,
        end_pc: u64,
        n_insns: u32,
        ir: &[u8],
    ) -> (r: Prepared)
        requires
            old(self).wf(),
            ir@.len() == 0 || ir@.len() >= 16,
        ensures
            final(self).wf(),
            ({
                let h = old(self)@;
                let s = cut(opts.truncate, pc, ir@);
                let key = CacheKey { pc, end_pc, n_insns, ir: s };
                match filtered(*opts, ir@) {
                    Some(e) => r == Prepared::Refused(e) && final(self)@ == h,
                    None => if h.cache.contains_key(key) {
                        &&& r == Prepared::Relinked(HostView::answer(h.cache[key]))
                        &&& final(self)@ == h.relinked(pc, h.cache[key])
                    } else if let Some(e) = build_error(s, h.config(pc, end_pc, n_insns)) {
                        r == Prepared::Unsupported(e) && final(self)@ == h
                    } else {
                        &&& final(self)@ == h
                        &&& r matches Prepared::Compile { ir: ir2, module, helpers } && {
                            &&& ir2@ == s
                            &&& module@ == module_bytes(
                                block_module(ir_ops(s), h.config(pc, end_pc, n_insns)),
                            )
                            &&& helpers@ == used_helpers(ir_ops(s))
                        }
                    },
                }
            }),
    {
        broadcast use vstd::std_specs::hash::group_hash_axioms;

        match filter(opts, ir) {
            Some(e) => {
                return Prepared::Refused(e);
            },
            None => {},
        }
        let s = truncated(opts.truncate, pc, ir);
        match self.cache.get(pc, end_pc, n_insns, s.as_slice()) {
            Some(block) => {
                self.stats.cache_hit = self.stats.cache_hit.wrapping_add(1);
                match block.slot {
                    Some(slot) => Prepared::Relinked(slot as i32),
                    None => {
                        let _ = self.blocks.insert(pc, Some(block.handle));
                        Prepared::Relinked(1)
                    },
                }
            },
            None => {
                let cfg = Config {
                    start_pc: pc,
                    end_pc,
                    n_insns,
                    tlb: self.tlb,
                    chain: None,
                    lift: false,
                };
                match try_build_block(s.as_slice(), &cfg) {
                    Ok((module, helpers)) => Prepared::Compile { ir: s, module, helpers },
                    Err(e) => Prepared::Unsupported(e),
                }
            },
        }
    }

    /// Takes a block that has been compiled and instantiated. Where the guest dispatches,
    /// `slot` is its place in the guest's table. Gives the answer to the guest.
    pub fn link(
        &mut self,
        pc: u64,
        end_pc: u64,
        n_insns: u32,
        ir: Vec<u8>,
        handle: usize,
        slot: Option<u64>,
    ) -> (r: Result<i32, RegisterError>)
        requires
            old(self).wf(),
            slot is Some <==> old(self)@.wasm_dispatch,
            !old(self)@.cache.contains_key(CacheKey { pc, end_pc, n_insns, ir: ir@ }),
        ensures
            final(self).wf(),
            ({
                let h = old(self)@;
                let key = CacheKey { pc, end_pc, n_insns, ir: ir@ };
                if slot matches Some(n) && n > u32::MAX {
                    r == Err::<i32, RegisterError>(RegisterError::SlotTooLarge) && final(self)@
                        == h
                } else {
                    let block = Cached {
                        handle,
                        slot: match slot {
                            Some(n) => Some(n as u32),
                            None => None,
                        },
                    };
                    &&& r == Ok::<i32, RegisterError>(HostView::answer(block))
                    &&& final(self)@ == h.linked(key, block)
                }
            }),
    {
        broadcast use vstd::std_specs::hash::group_hash_axioms;

        match slot {
            Some(n) => {
                if n > u32::MAX as u64 {
                    return Err(RegisterError::SlotTooLarge);
                }
                let slot: u32 = n as u32;
                self.cache.insert(pc, end_pc, n_insns, ir, Cached { handle, slot: Some(slot) });
                Ok(slot as i32)
            },
            None => {
                let _ = self.blocks.insert(pc, Some(handle));
                self.cache.insert(pc, end_pc, n_insns, ir, Cached { handle, slot: None });
                Ok(1)
            },
        }
    }

    /// Ends a registration that took `nanos` nanoseconds. Gives what the guest is told.
    pub fn conclude(&mut self, pc: u64, result: Result<i32, RegisterError>, nanos: u64) -> (r: i32)
        requires
            old(self).wf(),
        ensures
            final(self).wf(),
            final(self)@ == old(self)@.concluded(pc, result is Ok, nanos),
            r == (match result {
                Ok(v) => v,
                Err(_) => old(self)@.fail_code(),
            }),
    {
        self.stats.compile_nanos = self.stats.compile_nanos.wrapping_add(nanos);
        match result {
            Ok(v) => {
                self.stats.register_ok = self.stats.register_ok.wrapping_add(1);
                v
            },
            Err(_) => {
                self.mark_uncompilable(pc);
                self.stats.register_fail = self.stats.register_fail.wrapping_add(1);
                self.fail_code()
            },
        }
    }

    /// Drops the blocks that a change of mappings makes stale.
    pub fn flush(&mut self, opts: &Options, kind: i32, addr: i64)
        requires
            old(self).wf(),
        ensures
            final(self).wf(),
            final(self)@ == old(self)@.flushed(kind, addr, opts.ignore_flush),
    {
        broadcast use vstd::std_specs::hash::group_hash_axioms;

        if kind == 0 {
            self.stats.flush_satp = self.stats.flush_satp.wrapping_add(1);
        } else if kind == 1 {
            self.stats.flush_sfence = self.stats.flush_sfence.wrapping_add(1);
        } else {
            self.stats.flush_fencei = self.stats.flush_fencei.wrapping_add(1);
        }
        if opts.ignore_flush || self.wasm_dispatch {
            return;
        }
        retain(&mut self.blocks, kind, addr);
    }
}

/// Keeps the blocks that survive a flush.
fn retain(blocks: &mut HashMap<u64, Option<usize>>, kind: i32, addr: i64)
    ensures
        final(blocks)@ == old(blocks)@.restrict(Set::new(|pc: u64| survives(pc, kind, addr))),
{
    broadcast use vstd::std_specs::hash::group_hash_axioms;

    let ghost all = blocks@;
    let mut dropped: Vec<u64> = Vec::new();
    let ghost mut keys: Seq<u64> = Seq::empty();
    for pc in iter: blocks.keys()
        invariant
            keys =~= iter.seq().unref().take(iter.index()),
            iter.seq().unref().to_set() == all.dom(),
            iter.index() == iter.seq().len() ==> keys =~= iter.seq().unref(),
            keys =~= iter.seq().unref() ==> keys.to_set() == all.dom(),
            forall|j: int|
                0 <= j < keys.len() && !survives(keys[j], kind, addr) ==> dropped@.contains(
                    #[trigger] keys[j],
                ),
            forall|j: int|
                0 <= j < dropped@.len() ==> !survives(#[trigger] dropped@[j], kind, addr),
    {
        let ghost before = dropped@;
        let ghost had = keys;
        proof {
            keys = keys.push(*pc);
        }
        if !is_surviving(*pc, kind, addr) {
            dropped.push(*pc);
        }
        assert forall|j: int|
            0 <= j < keys.len() && !survives(keys[j], kind, addr) implies dropped@.contains(
            #[trigger] keys[j],
        ) by {
            if j < had.len() {
                assert(before.contains(had[j]));
                let n = choose|n: int| 0 <= n < before.len() && before[n] == had[j];
                assert(dropped@[n] == keys[j]);
            } else {
                assert(dropped@[before.len() as int] == keys[j]);
            }
        }
    }
    assert forall|pc: u64|
        all.contains_key(pc) && !survives(pc, kind, addr) implies dropped@.contains(pc) by {
        assert(keys.to_set().contains(pc));
        let j = choose|j: int| 0 <= j < keys.len() && keys[j] == pc;
        assert(dropped@.contains(keys[j]));
    }
    let mut i: usize = 0;
    assert(dropped@.take(0) =~= Seq::empty());
    while i < dropped.len()
        invariant
            i <= dropped@.len(),
            forall|pc: u64|
                #[trigger] blocks@.contains_key(pc) <==> all.contains_key(pc)
                    && !dropped@.take(i as int).contains(pc),
            forall|pc: u64| #[trigger] blocks@.contains_key(pc) ==> blocks@[pc] == all[pc],
        decreases dropped.len() - i,
    {
        let ghost next = dropped@.take(i + 1);
        let pc: u64 = dropped[i];
        let _ = blocks.remove(&pc);
        proof {
            let had = dropped@.take(i as int);
            assert forall|q: u64| next.contains(q) <==> had.contains(q) || q == pc by {
                if had.contains(q) {
                    let n = choose|n: int| 0 <= n < had.len() && had[n] == q;
                    assert(next[n] == q);
                }
                assert(next[i as int] == pc);
                if next.contains(q) && q != pc {
                    let n = choose|n: int| 0 <= n < next.len() && next[n] == q;
                    assert(had[n] == q);
                }
            }
        }
        i = i + 1;
    }
    assert(dropped@.take(i as int) =~= dropped@);
    assert forall|pc: u64| dropped@.contains(pc) implies !survives(pc, kind, addr) by {
        let n = choose|n: int| 0 <= n < dropped@.len() && dropped@[n] == pc;
        assert(!survives(dropped@[n], kind, addr));
    }
    assert(blocks@ =~= all.restrict(Set::new(|pc: u64| survives(pc, kind, addr))));
}

/// A power of two.
pub open spec fn is_pow2(n: int) -> bool {
    exists|k: nat| k < 32 && n == #[trigger] pow2(k)
}

/// The binary logarithm of a power of two.
pub fn exact_log2(n: u32) -> (r: Option<u32>)
    ensures
        match r {
            Some(k) => k < 32 && n == pow2(k as nat),
            None => !is_pow2(n as int),
        },
{
    let mut k: u32 = 0;
    while k < 32
        invariant
            k <= 32,
            forall|j: nat| j < k ==> n != #[trigger] pow2(j),
        decreases 32 - k,
    {
        proof {
            lemma_u32_pow2_no_overflow(k as nat);
            lemma_u32_shl_is_mul(1, k);
        }
        if n == 1u32 << k {
            return Some(k);
        }
        k = k + 1;
    }
    None
}

/// The numbers of the guest's TLB that masks and shifts are derived from: entries in a table
/// and bytes in an entry. Gives the index mask and the binary logarithm of an entry's size,
/// if both numbers are powers of two.
pub fn tlb_masks(tlb_size: u32, entry_size: u32) -> (r: Option<(u32, u32)>)
    ensures
        match r {
            Some((mask, shift)) => is_pow2(tlb_size as int) && mask == tlb_size - 1 && shift < 32
                && entry_size == pow2(shift as nat),
            None => !is_pow2(tlb_size as int) || !is_pow2(entry_size as int),
        },
{
    match exact_log2(tlb_size) {
        None => None,
        Some(k) => {
            proof {
                lemma_pow2_pos(k as nat);
                assert(is_pow2(tlb_size as int));
            }
            match exact_log2(entry_size) {
                None => None,
                Some(shift) => Some((tlb_size - 1, shift)),
            }
        },
    }
}

/// **A flush drops mappings, not code.** Whatever is flushed, a block that was linked is
/// found in the cache, and the guest gets the same answer as when it was linked; where the
/// embedder dispatches, the block runs at its pc again.
pub proof fn law_relink_after_flush(
    h: HostView,
    key: CacheKey,
    block: Cached,
    kind: i32,
    addr: i64,
    ignore: bool,
)
    ensures
        ({
            let later = h.linked(key, block).flushed(kind, addr, ignore);
            &&& later.cache.contains_key(key)
            &&& HostView::answer(later.cache[key]) == HostView::answer(block)
            &&& block.slot is None ==> later.relinked(key.pc, later.cache[key]).block_at(key.pc)
                == Some(block.handle)
        }),
{
}

/// **A flush costs no compilation.** Where the embedder dispatches, a block that is in the
/// cache when its pc is flushed is linked again when the guest registers it again: the guest
/// is told of success, the same compiled block runs at its pc, the cache is as it was, and
/// one more hit is counted.
pub proof fn law_relink(host: Host, key: CacheKey, kind: i32, addr: i64, ignore: bool)
    requires
        host.wf(),
        !host@.wasm_dispatch,
        host@.cache.contains_key(key),
    ensures
        ({
            let h = host@;
            let later = h.flushed(kind, addr, ignore);
            let again = later.relinked(key.pc, later.cache[key]);
            &&& later.cache == h.cache
            &&& HostView::answer(later.cache[key]) == 1
            &&& again.block_at(key.pc) == Some(h.cache[key].handle)
            &&& again.cache == h.cache
            &&& again.stats.cache_hit == inc(h.stats.cache_hit)
            &&& forall|pc: u64|
                pc != key.pc ==> #[trigger] again.block_at(pc) == later.block_at(pc)
        }),
{
    host.lemma_unslotted();
}

/// **The pc is part of what a block is.** A block that is in the cache for one pc is not
/// found for another, though the rest is the same: the other is compiled and counts as no
/// hit, after which the cache holds both. Where the guest dispatches and its table has given
/// them different slots, the guest is told different slots.
pub proof fn law_own_pc(
    h: HostView,
    pc1: u64,
    pc2: u64,
    end_pc: u64,
    n_insns: u32,
    ir: Seq<u8>,
    block: Cached,
)
    requires
        pc1 != pc2,
        h.cache.contains_key(CacheKey { pc: pc1, end_pc, n_insns, ir }),
        !h.cache.contains_key(CacheKey { pc: pc2, end_pc, n_insns, ir }),
    ensures
        ({
            let key1 = CacheKey { pc: pc1, end_pc, n_insns, ir };
            let key2 = CacheKey { pc: pc2, end_pc, n_insns, ir };
            let later = h.linked(key2, block);
            &&& later.stats == h.stats
            &&& later.cache.contains_key(key1) && later.cache[key1] == h.cache[key1]
            &&& later.cache.contains_key(key2) && later.cache[key2] == block
            &&& later.cache.dom() == h.cache.dom().insert(key2)
            &&& block.slot is Some && h.cache[key1].slot is Some && block.slot
                != h.cache[key1].slot ==> HostView::answer(block) != HostView::answer(
                h.cache[key1],
            )
        }),
{
    let key1 = CacheKey { pc: pc1, end_pc, n_insns, ir };
    if let (Some(a), Some(b)) = (block.slot, h.cache[key1].slot) {
        assert(a != b ==> a as i32 != b as i32) by (bit_vector);
    }
}

/// **A flush drops exactly what may be stale.** After a change of address space the blocks of
/// the kernel half are as they were and no other is left; after a change of one page's
/// mapping the blocks outside the page are as they were and none is left in it; after any
/// other flush none is left. The page is that of the address as 64 bits, whatever its sign:
/// two addresses are in one page if they differ at most in their twelve lowest bits.
pub proof fn law_flush(h: HostView, kind: i32, addr: i64, pc: u64)
    requires
        !h.wasm_dispatch,
    ensures
        h.flushed(kind, addr, false).block_at(pc) == if survives(pc, kind, addr) {
            h.block_at(pc)
        } else {
            None
        },
        kind == 0 ==> (survives(pc, kind, addr) <==> pc >= KERNEL_HALF_BASE),
        kind == 0 ==> (survives(pc, kind, addr) <==> pc >= 0xffff_ffc0_0000_0000),
        kind == 1 && addr > 0 ==> (survives(pc, kind, addr) <==> pc / PAGE_SIZE != (addr as u64)
            / PAGE_SIZE),
        kind == 1 && addr != 0 ==> (survives(pc, kind, addr) <==> pc & !0xfffu64 != (addr as u64)
            & !0xfffu64),
        kind == 1 && addr == 0 ==> !survives(pc, kind, addr),
        kind != 0 && kind != 1 ==> !survives(pc, kind, addr),
{
    lemma_casts(0, 0, addr);
    let a = addr as u64;
    assert(pc / 4096 == a / 4096 <==> pc & !0xfffu64 == a & !0xfffu64) by (bit_vector);
}

/// **A flush touches nothing else.** It counts once, under its own kind. Compiled code, the
/// trace, the other counters and the layout stay. Where flushes are ignored or the guest
/// dispatches, the blocks stay too.
pub proof fn law_flush_counts(h: HostView, kind: i32, addr: i64, ignore: bool)
    ensures
        ({
            let f = h.flushed(kind, addr, ignore);
            let m = 0x1_0000_0000_0000_0000int;
            &&& (f.stats.flush_satp - h.stats.flush_satp - (if kind == 0 {
                1int
            } else {
                0
            })) % m == 0
            &&& (f.stats.flush_sfence - h.stats.flush_sfence - (if kind == 1 {
                1int
            } else {
                0
            })) % m == 0
            &&& (f.stats.flush_fencei - h.stats.flush_fencei - (if kind != 0 && kind != 1 {
                1int
            } else {
                0
            })) % m == 0
            &&& f == (HostView {
                blocks: f.blocks,
                stats: Stats {
                    flush_satp: f.stats.flush_satp,
                    flush_sfence: f.stats.flush_sfence,
                    flush_fencei: f.stats.flush_fencei,
                    ..h.stats
                },
                ..h
            })
            &&& ignore || h.wasm_dispatch ==> f.blocks == h.blocks
            &&& f.blocks.submap_of(h.blocks)
        }),
{
}

/// The state after dispatches of the given pcs and next pcs.
pub open spec fn after_dispatches(h: HostView, d: Seq<(u64, u64)>) -> HostView
    decreases d.len(),
{
    if d.len() == 0 {
        h
    } else {
        after_dispatches(h, d.drop_last()).dispatched(d.last().0, d.last().1)
    }
}

/// **The trace holds the last dispatches.** After any number of them on a fresh trace, the
/// latest ones are there in order, as many as the trace may hold.
pub proof fn law_trace(h: HostView, d: Seq<(u64, u64)>)
    requires
        h.trace == Seq::<(u64, u64)>::empty(),
    ensures
        after_dispatches(h, d).trace == last_of(d, h.trace_capacity as nat),
        after_dispatches(h, d).trace_capacity == h.trace_capacity,
    decreases d.len(),
{
    let n = h.trace_capacity as nat;
    if d.len() > 0 {
        let init = d.drop_last();
        law_trace(h, init);
        let t = last_of(init, n);
        assert(d.last() == (d.last().0, d.last().1));
        if n > 0 {
            assert(last_of(t.push(d.last()), n) =~= last_of(d, n));
        } else {
            assert(last_of(d, n) =~= Seq::empty());
            assert(t =~= Seq::empty());
        }
    } else {
        assert(last_of(d, n) =~= Seq::empty());
    }
}

/// **What is barred stays with the interpreter**, until it is flushed or registered: a
/// lookup at its pc finds nothing.
pub proof fn law_barred(h: HostView, pc: u64)
    ensures
        h.barred(pc).block_at(pc) is None,
        forall|q: u64| q != pc ==> #[trigger] h.barred(pc).block_at(q) == h.block_at(q),
{
}

/// **A registration is answered unambiguously.** Failure is a number that no success is: zero
/// where the embedder dispatches, where success is one; and minus one where the guest does,
/// where success is a slot, which is not negative below 2 to the 31st.
pub proof fn law_answers(h: HostView, block: Cached)
    requires
        block.slot is Some <==> h.wasm_dispatch,
        block.slot matches Some(slot) ==> slot < 0x8000_0000,
    ensures
        HostView::answer(block) != h.fail_code(),
        !h.wasm_dispatch ==> HostView::answer(block) == 1 && h.fail_code() == 0,
        h.wasm_dispatch ==> HostView::answer(block) >= 0 && h.fail_code() < 0,
{
}

} // verus!
