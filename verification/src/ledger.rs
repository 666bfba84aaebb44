//! What the embedder's decisions come to: what is counted, what is refused, and what is kept.

use vstd::prelude::*;
use vstd::arithmetic::power2::{lemma2_to64, pow2};
use vstd::bits::{lemma_u32_pow2_no_overflow, lemma_u32_shl_is_mul};
use crate::cache::{CacheKey, Cached};
use crate::codegen::{block_body, block_config, build_error, law_used_helpers, BuildError};
use crate::config::Truncation;
use crate::exits::chooses;
use crate::host::{
    cut, filtered, has_mem, is_pow2, last_kind, widened, HostView, Options, RegisterError, Stats,
    FIRST_ATOMIC,
};
use crate::ir::{decode_tuple, ir_ops, tuple_at, tuple_count, valid_ir, Op};
use crate::meaning::cong;
use crate::session::Session;
use crate::shape::{calls_helper, spec_helper_id, used_helpers, ChainLayout, Config, TlbLayout};
use crate::wire::{cleared, law_decode, law_valid, wire, wire_code};

verus! {

/// The counter has grown by `n`, modulo 2 to the 64th.
pub open spec fn grown(before: u64, after: u64, n: int) -> bool {
    cong(after as int, before + n, 0x1_0000_0000_0000_0000)
}

/// **A lookup counts its misses.** It finds the block that was linked last at the pc, if it was
/// not barred or dropped since, and changes nothing; where it finds none it counts a miss.
pub proof fn law_lookup(h: HostView, pc: u64)
    ensures
        ({
            let l = h.looked_up(pc);
            let missed = !(h.blocks.contains_key(pc) && h.blocks[pc] is Some);
            &&& h.block_at(pc) is None <==> missed
            &&& !missed ==> h.block_at(pc) == h.blocks[pc] && l == h
            &&& missed ==> grown(h.stats.dispatch_miss, l.stats.dispatch_miss, 1) && l == (HostView {
                stats: Stats { dispatch_miss: l.stats.dispatch_miss, ..h.stats },
                ..h
            })
        }),
{
}

/// **A dispatch is counted and traced.** The trace ends in the latest dispatch, if it may hold
/// any, holds what it held before it in order, and has lost at most its oldest entry, and that
/// only where it was full.
pub proof fn law_dispatch(h: HostView, pc: u64, next: u64)
    requires
        h.trace.len() <= h.trace_capacity,
    ensures
        ({
            let d = h.dispatched(pc, next);
            &&& grown(h.stats.dispatch_hit, d.stats.dispatch_hit, 1)
            &&& d == (HostView {
                stats: Stats { dispatch_hit: d.stats.dispatch_hit, ..h.stats },
                trace: d.trace,
                ..h
            })
            &&& h.trace_capacity == 0 ==> d.trace == h.trace
            &&& h.trace_capacity > 0 ==> d.trace.len() <= h.trace_capacity && d.trace.len() > 0
                && d.trace.last() == (pc, next)
            &&& 0 < h.trace_capacity && h.trace.len() < h.trace_capacity ==> d.trace.drop_last()
                == h.trace
            &&& 0 < h.trace_capacity == h.trace.len() ==> d.trace.drop_last()
                == h.trace.drop_first()
        }),
{
    let d = h.dispatched(pc, next);
    if h.trace_capacity > 0 {
        if h.trace.len() < h.trace_capacity {
            assert(d.trace.drop_last() =~= h.trace);
        } else {
            assert(d.trace.drop_last() =~= h.trace.drop_first());
        }
    }
}

/// **A registration counts once.** Its time is added up. A success counts as one and changes no
/// block; a failure counts as one, and its pc is not tried again.
pub proof fn law_conclude(h: HostView, pc: u64, ok: bool, nanos: u64)
    ensures
        ({
            let c = h.concluded(pc, ok, nanos);
            &&& grown(h.stats.compile_nanos, c.stats.compile_nanos, nanos as int)
            &&& grown(h.stats.register_ok, c.stats.register_ok, if ok { 1 } else { 0 })
            &&& grown(h.stats.register_fail, c.stats.register_fail, if ok { 0 } else { 1 })
            &&& c == (HostView {
                stats: Stats {
                    register_ok: c.stats.register_ok,
                    register_fail: c.stats.register_fail,
                    compile_nanos: c.stats.compile_nanos,
                    ..h.stats
                },
                blocks: c.blocks,
                ..h
            })
            &&& ok ==> c.blocks == h.blocks
            &&& !ok ==> c.blocks.contains_key(pc) && c.blocks[pc] is None
            &&& forall|q: u64|
                q != pc ==> (#[trigger] c.blocks.contains_key(q) <==> h.blocks.contains_key(q))
                    && (h.blocks.contains_key(q) ==> c.blocks[q] == h.blocks[q])
        }),
{
}

/// **A cached block costs a hit and nothing else.** Where the embedder dispatches, it runs at its
/// pc from now on.
pub proof fn law_relinked(h: HostView, pc: u64, block: Cached)
    ensures
        ({
            let r = h.relinked(pc, block);
            &&& grown(h.stats.cache_hit, r.stats.cache_hit, 1)
            &&& r == (HostView {
                stats: Stats { cache_hit: r.stats.cache_hit, ..h.stats },
                blocks: r.blocks,
                ..h
            })
            &&& block.slot is None ==> r.block_at(pc) == Some(block.handle)
            &&& block.slot is Some ==> r.blocks == h.blocks
            &&& forall|q: u64| q != pc ==> #[trigger] r.block_at(q) == h.block_at(q)
        }),
{
}

/// **A new block is kept.** It is found in the cache under what it was compiled from, beside all
/// that was there. Where the embedder dispatches, it runs at its pc from now on.
pub proof fn law_linked(h: HostView, key: CacheKey, block: Cached)
    ensures
        ({
            let l = h.linked(key, block);
            &&& l == (HostView { cache: l.cache, blocks: l.blocks, ..h })
            &&& l.cache.contains_key(key) && l.cache[key] == block
            &&& forall|k: CacheKey|
                k != key ==> (#[trigger] l.cache.contains_key(k) <==> h.cache.contains_key(k))
                    && (h.cache.contains_key(k) ==> l.cache[k] == h.cache[k])
            &&& block.slot is None ==> l.block_at(key.pc) == Some(block.handle)
            &&& block.slot is Some ==> l.blocks == h.blocks
            &&& forall|q: u64| q != key.pc ==> #[trigger] l.block_at(q) == h.block_at(q)
        }),
{
}

/// **The limits of compilation are kept.** Nothing is compiled where that is switched off; no
/// block at a pc to skip; none once as many have succeeded as may. Anything else is looked at.
pub proof fn law_limits(h: HostView, opts: Options, pc: u64)
    ensures
        opts.disable_compile ==> h.rejects(opts, pc),
        h.stats.register_ok >= opts.max_blocks ==> h.rejects(opts, pc),
        (exists|i: int| 0 <= i < opts.skip_pcs@.len() && opts.skip_pcs@[i] == pc) ==> h.rejects(
            opts,
            pc,
        ),
        h.rejects(opts, pc) ==> opts.disable_compile || h.stats.register_ok >= opts.max_blocks
            || exists|i: int| 0 <= i < opts.skip_pcs@.len() && opts.skip_pcs@[i] == pc,
{
}

/// **Blocks are compiled for their own place.** The host compiles a block for the pcs and the
/// number of instructions that the guest gives, with the guest's TLB, if there is one, without
/// chaining and with registers in memory.
pub proof fn law_host_config(h: HostView, pc: u64, end_pc: u64, n_insns: u32)
    ensures
        ({
            let c = h.config(pc, end_pc, n_insns);
            &&& c.start_pc == pc && c.end_pc == end_pc && c.n_insns == n_insns
            &&& c.tlb == h.tlb
            &&& c.chain is None && !c.lift
        }),
{
}

/// **Answers.** A failure is zero, or minus one where the guest dispatches. A block with a slot
/// is answered by the slot's number, as a 32-bit number; any other by one.
pub proof fn law_answer(h: HostView, block: Cached)
    ensures
        h.fail_code() == if h.wasm_dispatch {
            -1int
        } else {
            0
        },
        block.slot is None ==> HostView::answer(block) == 1,
        block.slot matches Some(slot) ==> HostView::answer(block) == slot as i32,
{
}

/// **Arguments are widened with their sign.** A 32-bit number from the guest counts as the 64-bit
/// number that is the same in two's complement.
pub proof fn law_widened(i: i32)
    ensures
        widened(i) == (i as i64) as u64,
        cong(widened(i), i as int, 0x1_0000_0000_0000_0000),
        0 <= widened(i) < 0x1_0000_0000_0000_0000,
{
    assert(((i as i64) as u64) == if i >= 0 {
        i as int
    } else {
        i + 0x1_0000_0000_0000_0000
    }) by (bit_vector);
}

/// A conditional branch.
pub open spec fn is_branch(op: Op) -> bool {
    chooses(op) && !(op is Jal) && !(op is Jalr)
}

proof fn lemma_first_byte(ir: Seq<u8>, i: int)
    requires
        valid_ir(ir),
        0 <= i < tuple_count(ir),
    ensures
        wire_code(ir_ops(ir)[i]) == tuple_at(ir, i)[0],
{
    let t = tuple_at(ir, i);
    law_decode(t);
    let op = decode_tuple(t)->0;
    assert(ir_ops(ir)[i] == op);
    assert(wire(op)[0] == cleared(t)[0]);
}

/// **Filters go by what the operations are.** Of a stream that can be decoded, the block is
/// refused as ending in a branch, as ending in a jump, or as accessing memory, if that is
/// switched off and its last operation is a conditional branch, its last is a jump, or some
/// operation is a load or store. Atomics do not count as accesses here.
pub proof fn law_filters(opts: Options, ir: Seq<u8>)
    requires
        valid_ir(ir),
        ir.len() >= 16,
    ensures
        ({
            let ops = ir_ops(ir);
            let last = ops.last();
            let mem = exists|i: int|
                0 <= i < ops.len() && ((#[trigger] ops[i]) is Load || ops[i] is Store);
            &&& ops.len() > 0
            &&& filtered(opts, ir) == if opts.no_branch && is_branch(last) {
                Some(RegisterError::Branch)
            } else if opts.no_jump && (last is Jal || last is Jalr) {
                Some(RegisterError::Jump)
            } else if opts.no_mem && mem {
                Some(RegisterError::Mem)
            } else {
                None
            }
        }),
{
    let ops = ir_ops(ir);
    let n = tuple_count(ir);
    assert(n > 0);
    lemma_first_byte(ir, n - 1);
    assert(last_kind(ir) == wire_code(ops.last()));
    if has_mem(ir) {
        let i = choose|i: int| 0 <= i < n && 38 <= #[trigger] tuple_at(ir, i)[0] <= 48;
        lemma_first_byte(ir, i);
        assert(ops[i] is Load || ops[i] is Store);
    }
    if exists|i: int| 0 <= i < ops.len() && ((#[trigger] ops[i]) is Load || ops[i] is Store) {
        let i = choose|i: int|
            0 <= i < ops.len() && ((#[trigger] ops[i]) is Load || ops[i] is Store);
        lemma_first_byte(ir, i);
        assert(38 <= tuple_at(ir, i)[0] <= 48);
    }
}

/// **A block is cut short by operations.** Of the block at the pc to be cut, the first operations
/// are left, as many as are asked for or as there are; any other block is left alone.
pub proof fn law_cut(t: Truncation, pc: u64, ir: Seq<u8>)
    ensures
        cut(None, pc, ir) == ir,
        t.pc != pc ==> cut(Some(t), pc, ir) == ir,
        t.pc == pc ==> ({
            let c = cut(Some(t), pc, ir);
            &&& c.len() <= ir.len()
            &&& forall|i: int| 0 <= i < c.len() ==> #[trigger] c[i] == ir[i]
            &&& c.len() == if 16 * t.ops < ir.len() {
                16 * t.ops
            } else {
                ir.len() as int
            }
            &&& t.ops <= ir_ops(ir).len() ==> ir_ops(c) == ir_ops(ir).take(t.ops as int)
            &&& t.ops > ir_ops(ir).len() ==> c == ir
        }),
{
    if t.pc == pc && t.ops <= ir_ops(ir).len() {
        let c = cut(Some(t), pc, ir);
        if 16 * t.ops < ir.len() {
            assert forall|i: int| 0 <= i < t.ops implies ir_ops(c)[i] == ir_ops(ir)[i] by {
                assert(tuple_at(c, i) =~= tuple_at(ir, i));
            }
        }
        assert(ir_ops(c) =~= ir_ops(ir).take(t.ops as int));
    }
}

/// **A block needs the helpers of what it does.** Among the helpers of a block is one that is not
/// had, if and only if the block loads or stores and those helpers are not had, or it has an
/// atomic and those are not.
pub proof fn law_needs(ops: Seq<Op>, mem: bool, atomics: bool)
    ensures
        ({
            let used = used_helpers(ops);
            (exists|i: int|
                0 <= i < used.len() && !(if #[trigger] used[i] < FIRST_ATOMIC {
                    mem
                } else {
                    atomics
                })) <==> (!mem && exists|i: int|
                0 <= i < ops.len() && ((#[trigger] ops[i]) is Load || ops[i] is Store)) || (
            !atomics && exists|i: int| 0 <= i < ops.len() && (#[trigger] ops[i]) is Amo)
        }),
{
    let used = used_helpers(ops);
    law_used_helpers(ops);
    if exists|i: int|
        0 <= i < used.len() && !(if #[trigger] used[i] < FIRST_ATOMIC {
            mem
        } else {
            atomics
        }) {
        let i = choose|i: int|
            0 <= i < used.len() && !(if #[trigger] used[i] < FIRST_ATOMIC {
                mem
            } else {
                atomics
            });
        let id = used[i];
        assert(used.contains(id));
        assert(calls_helper(ops, id));
        let j = choose|j: int| 0 <= j < ops.len() && spec_helper_id(#[trigger] ops[j]) == Some(id);
        assert(ops[j] is Load || ops[j] is Store || ops[j] is Amo);
    }
    assert forall|j: int|
        0 <= j < ops.len() && ((#[trigger] ops[j]) is Load || ops[j] is Store || ops[j] is Amo)
        implies exists|i: int|
        0 <= i < used.len() && Some(#[trigger] used[i]) == spec_helper_id(ops[j]) by {
        let id = spec_helper_id(ops[j])->0;
        assert(calls_helper(ops, id));
        assert(used.contains(id));
    }
}

/// **What a layout must be like.** A TLB layout serves a block if, where the block loads, the
/// offsets of the read table fit 32 bits, where it stores, those of the write table do, and
/// where it does either, pages are shorter than the address space; a chain layout if its hashes
/// have at least one bit, at most 32 for the map and at most 30 for the counters.
pub proof fn law_suits(cfg: Config, ops: Seq<Op>)
    ensures
        cfg.suits(ops) <==> {
            &&& cfg.tlb matches Some(t) ==> forall|i: int|
                0 <= i < ops.len() ==> {
                    &&& (#[trigger] ops[i]) is Load ==> t.tlb_read_off + t.vaddr_off < 0x1_0000_0000
                        && t.tlb_read_off + t.addend_off < 0x1_0000_0000 && t.pg_shift < 64
                    &&& ops[i] is Store ==> t.tlb_write_off + t.vaddr_off < 0x1_0000_0000
                        && t.tlb_write_off + t.addend_off < 0x1_0000_0000 && t.pg_shift < 64
                }
            &&& cfg.chain matches Some(c) ==> 1 <= c.map_bits <= 32 && 1 <= c.page_gen_bits <= 30
        },
{
    if let Some(t) = cfg.tlb {
        assert forall|i: int| 0 <= i < ops.len() implies (t.serves(#[trigger] ops[i]) <==> {
            &&& ops[i] is Load ==> t.tlb_read_off + t.vaddr_off < 0x1_0000_0000 && t.tlb_read_off
                + t.addend_off < 0x1_0000_0000 && t.pg_shift < 64
            &&& ops[i] is Store ==> t.tlb_write_off + t.vaddr_off < 0x1_0000_0000 && t.tlb_write_off
                + t.addend_off < 0x1_0000_0000 && t.pg_shift < 64
        }) by {}
    }
}

/// **A session compiles with what it was given.** A block is compiled for the pcs and the number
/// of instructions that come with it, with the layouts and the lifting that are set; it can be
/// compiled if its stream is in the buffer and nothing is wrong with the stream.
pub proof fn law_session(s: Session, ir_len: u32, start_pc: u64, end_pc: u64, n_insns: u32)
    ensures
        ({
            let c = s.config(start_pc, end_pc, n_insns);
            &&& c.start_pc == start_pc && c.end_pc == end_pc && c.n_insns == n_insns
            &&& c.tlb == s.tlb && c.chain == s.chain && c.lift == s.lift
            &&& ir_len > s.input@.len() ==> !s.can_build(ir_len, start_pc, end_pc, n_insns)
            &&& ir_len <= s.input@.len() ==> (s.can_build(ir_len, start_pc, end_pc, n_insns)
                <==> build_error(s.input@.subrange(0, ir_len as int), c) is None)
        }),
{
    if ir_len <= s.input@.len() {
        assert(s.input@.take(ir_len as int) =~= s.input@.subrange(0, ir_len as int));
    }
}

/// **Layouts are taken as they are given.** A block is compiled with a TLB if and only if a layout
/// is given, and with that one; likewise with chaining.
pub proof fn law_block_config(
    start_pc: u64,
    end_pc: u64,
    n_insns: u32,
    tlb: &TlbLayout,
    chain: &ChainLayout,
    lift: bool,
)
    ensures
        ({
            let with = block_config(start_pc, end_pc, n_insns, Some(tlb), Some(chain), lift);
            let without = block_config(start_pc, end_pc, n_insns, None, None, lift);
            &&& with.tlb == Some(*tlb) && with.chain == Some(*chain)
            &&& without == (Config { tlb: None, chain: None, ..with })
            &&& with.start_pc == start_pc && with.end_pc == end_pc && with.n_insns == n_insns
            &&& with.lift == lift
        }),
{
}

/// **What is wrong with a stream is said in order.** A stream with an unknown code is refused as
/// such, whatever else; then one that the layouts do not serve; then one whose code is too
/// long. A stream of none of these faults is compiled.
pub proof fn law_build_errors(ir: Seq<u8>, cfg: Config)
    ensures
        build_error(ir, cfg) == Some(BuildError::Kind) <==> exists|i: int|
            #![trigger ir[16 * i]]
            0 <= i && 16 * i + 16 <= ir.len() && (ir[16 * i] == 0 || ir[16 * i] > 63),
        build_error(ir, cfg) == Some(BuildError::Layout) <==> valid_ir(ir) && !cfg.suits(
            ir_ops(ir),
        ),
        build_error(ir, cfg) == Some(BuildError::Length) <==> valid_ir(ir) && cfg.suits(ir_ops(ir))
            && block_body(ir_ops(ir), cfg).byte_len() > 0xffff_fff9,
        build_error(ir, cfg) is None <==> valid_ir(ir) && cfg.suits(ir_ops(ir)) && block_body(
            ir_ops(ir),
            cfg,
        ).byte_len() <= 0xffff_fff9,
{
    law_valid(ir);
}

/// **Errors say what they are.**
pub proof fn law_messages(e: RegisterError, b: BuildError)
    ensures
        match e {
            RegisterError::NoMemory => e.spec_message()@ == "guest memory not cached"@,
            RegisterError::Overflow => e.spec_message()@ == "ir_ptr+len overflow"@,
            RegisterError::OutOfBounds => e.spec_message()@ == "ir buffer out of bounds"@,
            RegisterError::Branch => e.spec_message()@
                == "JIT_NO_BRANCH: skipping branch terminator"@,
            RegisterError::Jump => e.spec_message()@ == "JIT_NO_JUMP: skipping jump terminator"@,
            RegisterError::Mem => e.spec_message()@ == "JIT_NO_MEM: skipping block with memory ops"@,
            RegisterError::NoHelpers => e.spec_message()@
                == "block uses memory ops but guest exports no c2w_jit_* helpers"@,
            RegisterError::SlotTooLarge => e.spec_message()@ == "table slot > u32"@,
            RegisterError::Outside => e.spec_message()@ == "block module rejected"@,
        },
        match b {
            BuildError::Kind => b.spec_message()@ == "unknown IR op_kind"@,
            BuildError::Layout => b.spec_message()@ == "unusable layout"@,
            BuildError::Length => b.spec_message()@ == "block too long"@,
        },
{
}

/// **Powers of two have one bit.**
pub proof fn law_pow2(n: u32)
    ensures
        is_pow2(n as int) <==> n != 0 && n & (n - 1) as u32 == 0,
{
    lemma2_to64();
    if is_pow2(n as int) {
        let k = choose|k: nat| k < 32 && n == #[trigger] pow2(k);
        let j = k as u32;
        lemma_u32_pow2_no_overflow(k);
        lemma_u32_shl_is_mul(1, j);
        assert(n == 1u32 << j);
        assert(n != 0 && n & (n - 1) as u32 == 0) by (bit_vector)
            requires
                j < 32,
                n == 1u32 << j,
        ;
    }
    if n != 0 && n & (n - 1) as u32 == 0 {
        assert(n == 0x1 || n == 0x2 || n == 0x4 || n == 0x8 || n == 0x10 || n == 0x20
            || n == 0x40 || n == 0x80 || n == 0x100 || n == 0x200 || n == 0x400
            || n == 0x800 || n == 0x1000 || n == 0x2000 || n == 0x4000 || n == 0x8000
            || n == 0x10000 || n == 0x20000 || n == 0x40000 || n == 0x80000 || n == 0x100000
            || n == 0x200000 || n == 0x400000 || n == 0x800000 || n == 0x1000000
            || n == 0x2000000 || n == 0x4000000 || n == 0x8000000 || n == 0x10000000
            || n == 0x20000000 || n == 0x40000000 || n == 0x80000000) by (bit_vector)
            requires
                n != 0,
                n & (n - 1) as u32 == 0,
        ;
        assert(n == 0x1 ==> n == pow2(0));
        assert(n == 0x2 ==> n == pow2(1));
        assert(n == 0x4 ==> n == pow2(2));
        assert(n == 0x8 ==> n == pow2(3));
        assert(n == 0x10 ==> n == pow2(4));
        assert(n == 0x20 ==> n == pow2(5));
        assert(n == 0x40 ==> n == pow2(6));
        assert(n == 0x80 ==> n == pow2(7));
        assert(n == 0x100 ==> n == pow2(8));
        assert(n == 0x200 ==> n == pow2(9));
        assert(n == 0x400 ==> n == pow2(10));
        assert(n == 0x800 ==> n == pow2(11));
        assert(n == 0x1000 ==> n == pow2(12));
        assert(n == 0x2000 ==> n == pow2(13));
        assert(n == 0x4000 ==> n == pow2(14));
        assert(n == 0x8000 ==> n == pow2(15));
        assert(n == 0x10000 ==> n == pow2(16));
        assert(n == 0x20000 ==> n == pow2(17));
        assert(n == 0x40000 ==> n == pow2(18));
        assert(n == 0x80000 ==> n == pow2(19));
        assert(n == 0x100000 ==> n == pow2(20));
        assert(n == 0x200000 ==> n == pow2(21));
        assert(n == 0x400000 ==> n == pow2(22));
        assert(n == 0x800000 ==> n == pow2(23));
        assert(n == 0x1000000 ==> n == pow2(24));
        assert(n == 0x2000000 ==> n == pow2(25));
        assert(n == 0x4000000 ==> n == pow2(26));
        assert(n == 0x8000000 ==> n == pow2(27));
        assert(n == 0x10000000 ==> n == pow2(28));
        assert(n == 0x20000000 ==> n == pow2(29));
        assert(n == 0x40000000 ==> n == pow2(30));
        assert(n == 0x80000000 ==> n == pow2(31));
    }
}

} // verus!
