//! What holds of the compiler as a whole, beyond what each function states of itself.

use vstd::prelude::*;
use crate::access::op_call;
use crate::arith::{s32, u32w, u64w};
use crate::block::{entered, entry_frame, law_block, liftable, zeros};
use crate::chaining::finish;
use crate::codegen::{
    block_imports, block_module, block_types, law_used_helpers, MEM_HELPER_EXPORTS,
};
use crate::encode::{module_bytes, Body, ImportTy, Section};
use crate::guest::{
    block_run, chain_exit, charged, counted, effective, map_entry, map_lookup, op_step, ops_run,
    page_counter, source, tagged_pc, tlb_lookup, well_ended, BlockEnd, Step,
};
use crate::ir::{
    decode_tuple, ir_ops, tuple_at, tuple_count, AmoW, LoadW, Op, StoreW, TUPLE_SIZE,
};
use crate::machine::{
    after_call, call_result, load32, load64, run, store, Env, Frame, Stack, Val, World,
};
use crate::relate::{lemma_load, lemma_load_stored, lemma_store};
use crate::shape::{
    block_code, block_cx, calls_helper, helper_index, lemma_pos, load_bytes, spec_helper_id,
    spec_tag_mask, store_bytes, used_helpers, ChainLayout, Config, TlbLayout, KERNEL_HALF_BASE,
};
use crate::unique::{law_one_reading, proper};
use crate::wasm::{flat, Code, Instr, ValTy};

verus! {

/// **Modules run as their blocks do.** However the instructions in the module of a block are
/// read as nested code, running that code, with the locals that the module declares, ends as
/// the block's instructions do.
pub proof fn law_module(
    ops: Seq<Op>,
    cfg: Config,
    groups: Seq<(u32, ValTy)>,
    c: Code,
    w: World,
    sp: u32,
    env: Env,
)
    requires
        block_module(ops, cfg).last() == Section::Bodies(
            seq![Body { locals: groups, code: flat(Seq::empty(), c).push(Instr::End) }],
        ),
        proper(c),
        well_ended(ops),
        cfg.suits(ops),
        env.imports == used_helpers(ops),
        liftable(ops, cfg, w, sp, env),
    ensures
        finish(
            run(
                c,
                Stack::Empty,
                Frame { locals: seq![Val::I32(sp)] + zeros(groups), world: w },
                env,
            ),
        ) == block_run(ops, cfg, w, sp, env),
{
    let body = Body { locals: groups, code: flat(Seq::empty(), c).push(Instr::End) };
    let bodies = block_module(ops, cfg).last()->Bodies_0;
    assert(bodies[0] == body);
    let a = flat(Seq::empty(), c);
    let b = flat(Seq::empty(), block_code(ops, cfg));
    assert(a.push(Instr::End) == b.push(Instr::End));
    assert(a =~= a.push(Instr::End).drop_last());
    assert(b =~= b.push(Instr::End).drop_last());
    law_one_reading(ops, cfg, c);
    law_block(ops, cfg, w, sp, env);
}

/// Lifting changes nothing that a step does.
proof fn lemma_ops_run_lift(
    ops: Seq<Op>,
    i: int,
    cfg: Config,
    lift: bool,
    w: World,
    sp: u32,
    env: Env,
)
    ensures
        ops_run(ops, i, cfg, w, sp, env) == ops_run(ops, i, Config { lift, ..cfg }, w, sp, env),
    decreases ops.len() - i,
{
    if 0 <= i < ops.len() {
        let other = Config { lift, ..cfg };
        assert(op_step(ops[i], cfg, w, sp, env) == op_step(ops[i], other, w, sp, env)) by {
            reveal(op_step);
        }
        if let Step::Next(w2) = op_step(ops[i], cfg, w, sp, env) {
            lemma_ops_run_lift(ops, i + 1, cfg, lift, w2, sp, env);
        }
    }
}

/// **Lifting is transparent.** A block compiled with its registers in locals ends as the
/// same block compiled without: with the same next pc, the same memory, the same helper
/// calls.
pub proof fn law_lift_transparent(ops: Seq<Op>, cfg: Config, w: World, sp: u32, env: Env)
    requires
        well_ended(ops),
        cfg.suits(ops),
        env.imports == used_helpers(ops),
        liftable(ops, Config { lift: true, ..cfg }, w, sp, env),
    ensures
        ({
            let on = Config { lift: true, ..cfg };
            let off = Config { lift: false, ..cfg };
            finish(
                run(block_code(ops, on), Stack::Empty, entry_frame(ops, on, w, sp), env),
            ) == finish(
                run(block_code(ops, off), Stack::Empty, entry_frame(ops, off, w, sp), env),
            )
        }),
{
    let on = Config { lift: true, ..cfg };
    let off = Config { lift: false, ..cfg };
    law_block(ops, on, w, sp, env);
    law_block(ops, off, w, sp, env);
    if let Some(w2) = entered(cfg, w, sp) {
        lemma_ops_run_lift(ops, 0, on, false, w2, sp, env);
    }
}

/// **A fault commits what came before it.** Where an instruction of the block faults, the
/// compiled block returns the tagged pc of that instruction, and memory is as the
/// instructions before it, and the helper's refusal, have left it: registers that were in
/// locals included. Nothing behind the instruction has run, and no block is chained to.
pub proof fn law_fault_commits(
    ops: Seq<Op>,
    cfg: Config,
    w: World,
    sp: u32,
    env: Env,
    pc: u64,
    at_fault: World,
)
    requires
        well_ended(ops),
        cfg.suits(ops),
        env.imports == used_helpers(ops),
        liftable(ops, cfg, w, sp, env),
        entered(cfg, w, sp) matches Some(w2) && ops_run(ops, 0, cfg, w2, sp, env) == Step::Fault(
            pc,
            at_fault,
        ),
    ensures
        finish(
            run(block_code(ops, cfg), Stack::Empty, entry_frame(ops, cfg, w, sp), env),
        ) == BlockEnd::Return(pc, at_fault),
{
    law_block(ops, cfg, w, sp, env);
}

/// **Fault pcs are unmistakable.** The pc that a fault returns is odd, as no pc of an
/// instruction is, and dropping its lowest bit gives the pc of the faulting instruction.
pub proof fn law_fault_tag(start_pc: u64, pc_off: u32)
    requires
        start_pc % 2 == 0,
        pc_off % 2 == 0,
    ensures
        tagged_pc(start_pc, pc_off) % 2 == 1,
        tagged_pc(start_pc, pc_off) - 1 == u64w(start_pc + pc_off),
{
    let pc = u64w(start_pc + pc_off);
    assert(pc % 2 == 0);
    assert((pc | 1) == pc + 1) by (bit_vector)
        requires
            pc % 2 == 0,
    ;
}

/// **A TLB hit is an aligned access to the entry's page, and nothing else is.** For an
/// entry of a page address and an access of 1, 2, 4 or 8 bytes, no wider than a page.
pub proof fn law_tlb_tag(pg_shift: u32, bytes: u64, addr: u64, page: u64)
    requires
        pg_shift < 64,
        bytes == 1 || bytes == 2 || bytes == 4 || bytes == 8,
        bytes <= 1u64 << pg_shift,
        page & ((1u64 << pg_shift) - 1) as u64 == 0,
    ensures
        page == addr & spec_tag_mask(pg_shift, bytes) <==> addr % bytes == 0 && addr
            & !(((1u64 << pg_shift) - 1) as u64) == page,
{
    let low = (bytes - 1) as u64;
    assert(addr % bytes == 0 <==> addr & low == 0) by {
        assert(addr % 1 == 0 && addr & 0 == 0) by (bit_vector);
        assert(addr % 2 == 0 <==> addr & 1 == 0) by (bit_vector);
        assert(addr % 4 == 0 <==> addr & 3 == 0) by (bit_vector);
        assert(addr % 8 == 0 <==> addr & 7 == 0) by (bit_vector);
    }
    let m = ((1u64 << pg_shift) - 1) as u64;
    assert(m & low == low) by (bit_vector)
        requires
            pg_shift < 64,
            low == 0 || low == 1 || low == 3 || low == 7,
            low + 1 <= 1u64 << pg_shift,
            m == ((1u64 << pg_shift) - 1) as u64,
    ;
    assert(page == addr & !(m & !low) <==> addr & low == 0 && addr & !m == page) by (bit_vector)
        requires
            m & low == low,
            page & m == 0,
    ;
}

/// The access of a load or store misses the TLB.
pub open spec fn misses(op: Op, t: TlbLayout, w: World, sp: u32) -> bool {
    source(op, 0, w, sp) matches Some(a) && match op {
        Op::Load { w: width, .. } => tlb_lookup(
            t,
            t.tlb_read_off,
            load_bytes(width),
            effective(op, a),
            w.mem,
            sp,
        ) == Some(None::<u32>),
        Op::Store { w: width, .. } => tlb_lookup(
            t,
            t.tlb_write_off,
            store_bytes(width),
            effective(op, a),
            w.mem,
            sp,
        ) == Some(None::<u32>),
        _ => false,
    }
}

/// **A TLB miss is a helper call.** A load or store that misses does what it does without a
/// TLB: one call of its helper, with the same arguments, which leaves memory as the helper
/// does, and goes on after a zero and faults after anything else.
pub proof fn law_tlb_miss(op: Op, cfg: Config, w: World, sp: u32, env: Env)
    requires
        cfg.tlb matches Some(t) && misses(op, t, w, sp),
    ensures
        op_step(op, cfg, w, sp, env) == op_step(op, Config { tlb: None, ..cfg }, w, sp, env),
        op_call(op, cfg, w, sp) == op_call(op, Config { tlb: None, ..cfg }, w, sp),
        source(op, 1, w, sp) is Some ==> {
            let call = op_call(op, cfg, w, sp)->0;
            let tagged = tagged_pc(
                cfg.start_pc,
                match op {
                    Op::Load { pc_off, .. } | Op::Store { pc_off, .. } => pc_off,
                    _ => 0,
                },
            );
            &&& op_call(op, cfg, w, sp) is Some
            &&& op_step(op, cfg, w, sp, env) == if call_result(env, call, w) == 0 {
                Step::Next(after_call(env, call, w))
            } else {
                Step::Fault(tagged, after_call(env, call, w))
            }
        },
{
    reveal(op_step);
}

/// From the operation `i` on, every load and store that the block comes to misses the TLB.
pub open spec fn all_miss(
    ops: Seq<Op>,
    i: int,
    cfg: Config,
    t: TlbLayout,
    w: World,
    sp: u32,
    env: Env,
) -> bool
    decreases ops.len() - i,
{
    if 0 <= i < ops.len() {
        &&& ops[i] is Load || ops[i] is Store ==> misses(ops[i], t, w, sp)
        &&& op_step(ops[i], cfg, w, sp, env) matches Step::Next(w2) ==> all_miss(
            ops,
            i + 1,
            cfg,
            t,
            w2,
            sp,
            env,
        )
    } else {
        true
    }
}

/// A run of misses is a run without a TLB.
proof fn lemma_all_miss(
    ops: Seq<Op>,
    i: int,
    cfg: Config,
    t: TlbLayout,
    w: World,
    sp: u32,
    env: Env,
)
    requires
        cfg.tlb == Some(t),
        all_miss(ops, i, cfg, t, w, sp, env),
    ensures
        ops_run(ops, i, cfg, w, sp, env) == ops_run(
            ops,
            i,
            Config { tlb: None, ..cfg },
            w,
            sp,
            env,
        ),
    decreases ops.len() - i,
{
    if 0 <= i < ops.len() {
        let op = ops[i];
        let off = Config { tlb: None, ..cfg };
        if op is Load || op is Store {
            law_tlb_miss(op, cfg, w, sp, env);
        } else {
            assert(op_step(op, cfg, w, sp, env) == op_step(op, off, w, sp, env)) by {
                reveal(op_step);
            }
        }
        if let Step::Next(w2) = op_step(op, cfg, w, sp, env) {
            lemma_all_miss(ops, i + 1, cfg, t, w2, sp, env);
        }
    }
}

/// **A block that only misses runs as one compiled without a TLB.** The code with inline
/// probes and the code with helper calls alone end alike, with the same memory and the same
/// calls.
pub proof fn law_miss_transparent(
    ops: Seq<Op>,
    cfg: Config,
    t: TlbLayout,
    w: World,
    sp: u32,
    env: Env,
)
    requires
        well_ended(ops),
        cfg.suits(ops),
        cfg.tlb == Some(t),
        env.imports == used_helpers(ops),
        liftable(ops, cfg, w, sp, env),
        liftable(ops, Config { tlb: None, ..cfg }, w, sp, env),
        entered(cfg, w, sp) matches Some(w2) ==> all_miss(ops, 0, cfg, t, w2, sp, env),
    ensures
        ({
            let off = Config { tlb: None, ..cfg };
            finish(
                run(block_code(ops, cfg), Stack::Empty, entry_frame(ops, cfg, w, sp), env),
            ) == finish(
                run(block_code(ops, off), Stack::Empty, entry_frame(ops, off, w, sp), env),
            )
        }),
{
    let off = Config { tlb: None, ..cfg };
    law_block(ops, cfg, w, sp, env);
    law_block(ops, off, w, sp, env);
    if let Some(w2) = entered(cfg, w, sp) {
        lemma_all_miss(ops, 0, cfg, t, w2, sp, env);
    }
}

/// **Equal streams compile to equal bytes.** Of a stream only its whole tuples count, and
/// of a tuple not the reserved byte: streams that agree in the rest compile, with the same
/// configuration, to the same module and the same helpers.
pub proof fn law_same_module(ir1: Seq<u8>, ir2: Seq<u8>, cfg: Config)
    requires
        tuple_count(ir1) == tuple_count(ir2),
        forall|i: int, j: int|
            0 <= i < tuple_count(ir1) && 0 <= j < TUPLE_SIZE && j != 1 ==> #[trigger] tuple_at(
                ir1,
                i,
            )[j] == #[trigger] tuple_at(ir2, i)[j],
    ensures
        module_bytes(block_module(ir_ops(ir1), cfg)) == module_bytes(
            block_module(ir_ops(ir2), cfg),
        ),
        used_helpers(ir_ops(ir1)) == used_helpers(ir_ops(ir2)),
{
    assert forall|i: int| 0 <= i < tuple_count(ir1) implies decode_tuple(tuple_at(ir1, i))
        == decode_tuple(tuple_at(ir2, i)) by {
        let t1 = tuple_at(ir1, i);
        let t2 = tuple_at(ir2, i);
        assert(TUPLE_SIZE * i + TUPLE_SIZE <= ir1.len());
        assert(TUPLE_SIZE * i + TUPLE_SIZE <= ir2.len());
        assert(t1[0] == t2[0]);
        assert(t1.subrange(2, 4) =~= t2.subrange(2, 4));
        assert(t1.subrange(4, 6) =~= t2.subrange(4, 6));
        assert(t1.subrange(6, 8) =~= t2.subrange(6, 8));
        assert(t1.subrange(8, 16) =~= t2.subrange(8, 16));
    }
    assert(ir_ops(ir1) =~= ir_ops(ir2));
}

/// **Blocks that do not chain import no table.**
pub proof fn law_unchained_imports(used: Seq<usize>)
    ensures
        forall|i: int|
            0 <= i < block_imports(used, false).len() ==> !((#[trigger] block_imports(
                used,
                false,
            )[i]).ty is FuncTable),
{
}

/// **Blocks that do not chain charge nothing and hop nowhere.** They run their operations
/// on the world they find and return to the dispatcher.
pub proof fn law_unchained(ops: Seq<Op>, cfg: Config, w: World, sp: u32, env: Env)
    requires
        cfg.chain is None,
    ensures
        match ops_run(ops, 0, cfg, w, sp, env) {
            Step::Exit(pc, w2) | Step::Fault(pc, w2) => block_run(ops, cfg, w, sp, env)
                == BlockEnd::Return(pc, w2),
            _ => !(block_run(ops, cfg, w, sp, env) is Hop),
        },
{
}

/// **A block charges exactly its instructions**, on entry and whatever follows: the cycle
/// budget, and no other byte, changes.
pub proof fn law_charge(chain: ChainLayout, n_insns: u32, w: World, sp: u32)
    requires
        sp + chain.n_cycles_off + 4 <= w.mem.len(),
    ensures
        ({
            let at = sp + chain.n_cycles_off;
            let n = load32(w.mem, at);
            &&& n is Some
            &&& charged(chain, n_insns, w, sp) matches Some(w2) && {
                &&& load32(w2.mem, at) == Some(u32w(n->0 - n_insns))
                &&& w2.calls == w.calls
                &&& w2.mem.len() == w.mem.len()
                &&& forall|i: int|
                    0 <= i < w.mem.len() && !(at <= i < at + 4) ==> #[trigger] w2.mem[i]
                        == w.mem[i]
            }
        }),
{
    let at = sp + chain.n_cycles_off;
    let v = u32w(load32(w.mem, at)->0 - n_insns) as nat;
    let m = store(w.mem, at, 4, v)->0;
    lemma_store(w.mem, at, 4, v);
    crate::bytes::lemma_pow256();
    crate::bytes::lemma_le_bytes_len(v, 4);
    crate::bytes::lemma_le_val_of_bytes(v, 4);
    assert(m.subrange(at, at + 4) =~= crate::bytes::le_bytes(v, 4));
}

/// **A block whose budget is used up returns to the dispatcher.**
pub proof fn law_budget(chain: ChainLayout, pc: u64, w: World, sp: u32)
    requires
        load32(w.mem, sp + chain.n_cycles_off) matches Some(n) && s32(n) <= 0,
    ensures
        chain_exit(chain, pc, w, sp) == BlockEnd::Return(pc, w),
{
}

/// **A stale entry is not taken.** If the entry for `pc` is of another generation, global
/// or of its page, or of another user generation and `pc` is not in the kernel half, or is
/// for another pc, or has no slot, then the block returns to the dispatcher, if it does not
/// run out of memory's bounds.
pub proof fn law_stale(chain: ChainLayout, pc: u64, w: World, sp: u32)
    requires
        ({
            let e = map_entry(chain, pc);
            ||| load64(w.mem, e as int) != Some(pc)
            ||| pc < KERNEL_HALF_BASE && load32(w.mem, e + chain.user_gen_off) != load32(
                w.mem,
                chain.user_gen_addr as int,
            )
            ||| load32(w.mem, e + chain.global_gen_off) != load32(
                w.mem,
                chain.global_gen_addr as int,
            )
            ||| load32(w.mem, e + chain.page_gen_off) != load32(
                w.mem,
                page_counter(chain, pc) + chain.page_gen_base,
            )
            ||| load32(w.mem, e + chain.fn_idx_off) matches Some(slot) && s32(slot) <= 0
        }),
    ensures
        chain_exit(chain, pc, w, sp) == BlockEnd::Return(pc, w) || chain_exit(
            chain,
            pc,
            w,
            sp,
        ) is Trap,
{
}

/// The block may go straight on at `pc`: its budget is not used up, and the entry of the map
/// for `pc` is for that pc, has a slot, and is of the current generations, of which the user
/// generation does not count in the kernel half.
pub open spec fn may_hop(chain: ChainLayout, pc: u64, w: World, sp: u32) -> bool {
    let e = map_entry(chain, pc);
    let word = |at: int| load32(w.mem, at);
    &&& word(sp + chain.n_cycles_off) matches Some(n) && s32(n) > 0
    &&& load64(w.mem, e as int) == Some(pc)
    &&& word(e + chain.global_gen_off) == word(chain.global_gen_addr as int)
    &&& word(e + chain.page_gen_off) == word(page_counter(chain, pc) + chain.page_gen_base)
    &&& pc >= KERNEL_HALF_BASE || word(e + chain.user_gen_off) == word(
        chain.user_gen_addr as int,
    )
    &&& word(e + chain.fn_idx_off) matches Some(slot) && s32(slot) > 0
}

/// All that is read and written on the way out of a block to `pc` is in bounds.
pub open spec fn exit_in_bounds(chain: ChainLayout, pc: u64, w: World, sp: u32) -> bool {
    let e = map_entry(chain, pc);
    let n = w.mem.len();
    &&& sp + chain.n_cycles_off + 4 <= n
    &&& e + 8 <= n
    &&& e + chain.user_gen_off + 4 <= n
    &&& chain.user_gen_addr + 4 <= n
    &&& e + chain.global_gen_off + 4 <= n
    &&& chain.global_gen_addr + 4 <= n
    &&& e + chain.page_gen_off + 4 <= n
    &&& page_counter(chain, pc) + chain.page_gen_base + 4 <= n
    &&& e + chain.fn_idx_off + 4 <= n
    &&& chain.chain_hops_addr + 8 <= n
}

/// **A block hops exactly where it may.** A compiled block that chains and whose instructions
/// end at `pc`, having charged the budget, hops if and only if it may, to the slot of the
/// entry, if the count of hops does not lie over it; else it returns `pc` and changes nothing
/// more.
pub proof fn law_hop(
    ops: Seq<Op>,
    cfg: Config,
    w: World,
    sp: u32,
    env: Env,
    chain: ChainLayout,
    pc: u64,
    at_end: World,
)
    requires
        well_ended(ops),
        cfg.suits(ops),
        cfg.chain == Some(chain),
        env.imports == used_helpers(ops),
        liftable(ops, cfg, w, sp, env),
        charged(chain, cfg.n_insns, w, sp) matches Some(w2) && ops_run(ops, 0, cfg, w2, sp, env)
            == Step::Exit(pc, at_end),
        exit_in_bounds(chain, pc, at_end, sp),
    ensures
        ({
            let out = finish(
                run(block_code(ops, cfg), Stack::Empty, entry_frame(ops, cfg, w, sp), env),
            );
            let at_slot = map_entry(chain, pc) + chain.fn_idx_off;
            let at_count = chain.chain_hops_addr;
            if may_hop(chain, pc, at_end, sp) {
                &&& out matches BlockEnd::Hop { slot, arg, world }
                &&& arg == sp
                &&& counted(chain, at_end) == Some(world)
                &&& at_slot + 4 <= at_count || at_count + 8 <= at_slot ==> load32(
                    at_end.mem,
                    at_slot,
                ) == Some(slot)
            } else {
                out == BlockEnd::Return(pc, at_end)
            }
        }),
{
    law_block(ops, cfg, w, sp, env);
    let at_slot = map_entry(chain, pc) + chain.fn_idx_off;
    let at_count = chain.chain_hops_addr as int;
    let n = u64w(load64(at_end.mem, at_count)->0 + 1) as nat;
    lemma_store(at_end.mem, at_count, 8, n);
    if at_slot + 4 <= at_count || at_count + 8 <= at_slot {
        lemma_load(store(at_end.mem, at_count, 8, n)->0, at_end.mem, at_slot, 4);
    }
}

/// **In the kernel half the user generation does not count.** Whether an entry is taken
/// there does not depend on it.
pub proof fn law_kernel_half(chain: ChainLayout, pc: u64, mem: Seq<u8>)
    requires
        pc >= KERNEL_HALF_BASE,
        map_lookup(chain, pc, mem) is Some,
        load64(mem, map_entry(chain, pc) as int) == Some(pc),
    ensures
        ({
            let e = map_entry(chain, pc);
            let slot = load32(mem, e + chain.fn_idx_off);
            map_lookup(chain, pc, mem)->0 == if load32(mem, e + chain.global_gen_off) == load32(
                mem,
                chain.global_gen_addr as int,
            ) && load32(mem, e + chain.page_gen_off) == load32(
                mem,
                page_counter(chain, pc) + chain.page_gen_base,
            ) && s32(slot->0) > 0 {
                slot
            } else {
                None
            }
        }),
{
}

/// **Each hop is counted once.**
pub proof fn law_hops_counted(chain: ChainLayout, pc: u64, w: World, sp: u32)
    ensures
        chain_exit(chain, pc, w, sp) matches BlockEnd::Hop { world, arg, .. } ==> {
            let n = load64(w.mem, chain.chain_hops_addr as int);
            &&& arg == sp
            &&& n is Some
            &&& load64(world.mem, chain.chain_hops_addr as int) == Some(u64w(n->0 + 1))
        },
{
    if chain_exit(chain, pc, w, sp) is Hop {
        let n = load64(w.mem, chain.chain_hops_addr as int)->0;
        lemma_load_stored(w.mem, chain.chain_hops_addr as int, u64w(n + 1));
    }
}

/// The name under which the guest exports the helper of a memory operation.
pub open spec fn helper_name(op: Op) -> Option<Seq<char>> {
    match op {
        Op::Load { w: LoadW::B, .. } => Some("c2w_jit_lb"@),
        Op::Load { w: LoadW::H, .. } => Some("c2w_jit_lh"@),
        Op::Load { w: LoadW::W, .. } => Some("c2w_jit_lw"@),
        Op::Load { w: LoadW::D, .. } => Some("c2w_jit_ld"@),
        Op::Load { w: LoadW::Bu, .. } => Some("c2w_jit_lbu"@),
        Op::Load { w: LoadW::Hu, .. } => Some("c2w_jit_lhu"@),
        Op::Load { w: LoadW::Wu, .. } => Some("c2w_jit_lwu"@),
        Op::Store { w: StoreW::B, .. } => Some("c2w_jit_sb"@),
        Op::Store { w: StoreW::H, .. } => Some("c2w_jit_sh"@),
        Op::Store { w: StoreW::W, .. } => Some("c2w_jit_sw"@),
        Op::Store { w: StoreW::D, .. } => Some("c2w_jit_sd"@),
        Op::Amo { w: AmoW::W, .. } => Some("c2w_jit_amo_w"@),
        Op::Amo { w: AmoW::D, .. } => Some("c2w_jit_amo_d"@),
        _ => None,
    }
}

/// What a helper takes: the state pointer and the address; then the register to write, for a
/// load; the value, for a store; the value, the function code and the register, for an atomic.
pub open spec fn helper_params(op: Op) -> Seq<ValTy> {
    match op {
        Op::Load { .. } => seq![ValTy::I32, ValTy::I64, ValTy::I32],
        Op::Store { .. } => seq![ValTy::I32, ValTy::I64, ValTy::I64],
        _ => seq![ValTy::I32, ValTy::I64, ValTy::I64, ValTy::I32, ValTy::I32],
    }
}

/// **Every operation calls the helper of its own width.** The function that the code of an
/// operation calls is imported from the guest under the name of the operation's kind, width
/// and extension, with the parameters of its kind, and answers with a 32-bit number.
/// Operations that do not access memory call none.
pub proof fn law_helper_names(ops: Seq<Op>, cfg: Config, i: int)
    requires
        0 <= i < ops.len(),
    ensures
        helper_name(ops[i]) is Some <==> spec_helper_id(ops[i]) is Some,
        helper_name(ops[i]) matches Some(name) ==> {
            let used = used_helpers(ops);
            let f = helper_index(block_cx(ops, cfg), ops[i]);
            let imports = block_imports(used, cfg.chain is Some);
            let at = f + if cfg.chain is Some {
                2int
            } else {
                1
            };
            &&& MEM_HELPER_EXPORTS[spec_helper_id(ops[i])->0 as int]@ == name
            &&& 0 <= at < imports.len()
            &&& imports[at].module == "guest"@
            &&& imports[at].name == name
            &&& imports[at].ty matches ImportTy::Func(t) && t < block_types(used).len()
                && block_types(used)[t as int].params == helper_params(ops[i])
                && block_types(used)[t as int].results == seq![ValTy::I32]
        },
{
    let used = used_helpers(ops);
    let cx = block_cx(ops, cfg);
    law_used_helpers(ops);
    if let Some(id) = spec_helper_id(ops[i]) {
        assert(calls_helper(ops, id));
        assert(used.contains(id));
        lemma_pos(used, id);
        assert(cx.used == used);
    }
}

} // verus!
