//! Compiled memory operations do what the guest's do.
//!
//! Once a lifted register has been written its value is not in memory while the block runs.
//! That goes unnoticed if the helpers that the block calls, and its accesses through the TLB,
//! do not look at the bytes of such a register, and change those of no lifted one.

use vstd::prelude::*;
use vstd::arithmetic::power2::pow2;
use crate::arith::{
    flag, lemma_const32, lemma_const64, lemma_u32w_add, lemma_u32w_u64w, lemma_u64w_add, u32w,
    u64w,
};
use crate::compute::{known_op, At};
use crate::guest::{effective, helped, op_step, put_reg, reg, source, tlb_entry, tlb_lookup, Step};
use crate::ir::{LoadW, Op, StoreW};
use crate::machine::{
    after_call, bin64, call_result, group_run, lemma_run_cons, lemma_run_if, lemma_run_nil,
    load, load32, load64, load_ext, load_val, pop_call, push32, push64, run, store, store_width,
    Env, Frame, HelperCall, Outcome, Stack, Val, World,
};
use crate::relate::{
    after_write, agree, clear, covers, group_rel, known, lemma_agree_load, lemma_agree_store,
    lemma_get_reg, lemma_loaded_bytes, lemma_rel_scratch, lemma_store, lemma_store_reg, rel,
    some_of,
};
use crate::shape;
use crate::shape::{
    fault_check, lemma_pos, load_bytes, load_op, op_code, pos, spec_helper_dest, spec_helper_id,
    spec_reads, spec_tag_mask, spill, store_bytes, store_op, Config, Cx, TlbLayout,
};
use crate::wasm::{cond, instr, Code, Instr, IntBin, MemArg, StoreOp};

verus! {

/// The bytes of the registers are in `after` as they were in `before`.
pub open spec fn kept(before: Seq<u8>, after: Seq<u8>, regs: Seq<u32>, sp: u32) -> bool {
    forall|a: int|
        #![trigger after[a]]
        covers(regs, sp, a) && 0 <= a < before.len() ==> a < after.len() && after[a] == before[a]
}

/// In the world `w`, the embedder answers a call without looking at the bytes of the dirty
/// registers, and without changing any lifted register: whatever the bytes of the dirty ones
/// are, it reports the same and leaves the same in the rest of memory.
pub open spec fn quiet(
    env: Env,
    call: HelperCall,
    w: World,
    lifted: Seq<u32>,
    dirty: Seq<u32>,
    sp: u32,
) -> bool {
    &&& kept(w.mem, after_call(env, call, w).mem, lifted, sp)
    &&& forall|w1: World|
        #![trigger after_call(env, call, w1)]
        w1.calls == w.calls && agree(w1.mem, w.mem, dirty, sp) ==> {
            &&& call_result(env, call, w1) == call_result(env, call, w)
            &&& agree(after_call(env, call, w1).mem, after_call(env, call, w).mem, dirty, sp)
        }
}

/// A probe of the TLB looks at none of the registers: neither at the tag of the entry nor, on
/// a hit, at its addend.
pub open spec fn probe_clear(
    t: TlbLayout,
    tlb_off: u32,
    bytes: u64,
    addr: u64,
    w: World,
    sp: u32,
    regs: Seq<u32>,
) -> bool {
    let e = tlb_entry(t, addr, sp);
    &&& clear(regs, sp, e + tlb_off + t.vaddr_off, 8)
    &&& load64(w.mem, e + tlb_off + t.vaddr_off) == Some(addr & spec_tag_mask(t.pg_shift, bytes))
        ==> clear(regs, sp, e + tlb_off + t.addend_off, 4)
}

/// The accesses of an operation through the TLB look at no dirty register and change no
/// lifted one.
pub open spec fn op_clear(
    op: Op,
    cfg: Config,
    w: World,
    sp: u32,
    lifted: Seq<u32>,
    dirty: Seq<u32>,
) -> bool {
    cfg.tlb matches Some(t) ==> (source(op, 0, w, sp) matches Some(a) ==> {
        let addr = effective(op, a);
        match op {
            Op::Load { w: width, .. } => {
                let (off, n) = (t.tlb_read_off, load_bytes(width));
                &&& probe_clear(t, off, n, addr, w, sp, dirty)
                &&& tlb_lookup(t, off, n, addr, w.mem, sp) matches Some(Some(host)) ==> clear(
                    dirty,
                    sp,
                    host as int,
                    n as nat,
                )
            },
            Op::Store { w: width, .. } => {
                let (off, n) = (t.tlb_write_off, store_bytes(width));
                &&& probe_clear(t, off, n, addr, w, sp, dirty)
                &&& (tlb_lookup(t, off, n, addr, w.mem, sp), source(op, 1, w, sp)) matches (
                    Some(Some(host)),
                    Some(val),
                ) ==> (store(w.mem, host as int, n as nat, val as nat) matches Some(mem) ==> kept(
                    w.mem,
                    mem,
                    lifted,
                    sp,
                ))
            },
            _ => true,
        }
    })
}

/// The call of a helper that an operation makes, if it makes one.
pub open spec fn op_call(op: Op, cfg: Config, w: World, sp: u32) -> Option<HelperCall> {
    let id = spec_helper_id(op)->0;
    match (source(op, 0, w, sp), source(op, 1, w, sp)) {
        (Some(a), Some(b)) => {
            let addr = effective(op, a);
            match op {
                Op::Load { w: width, rd, .. } => {
                    let call = HelperCall::Load { id, state: sp, addr, rd_off: rd };
                    match cfg.tlb {
                        None => Some(call),
                        Some(t) => if tlb_lookup(
                            t,
                            t.tlb_read_off,
                            load_bytes(width),
                            addr,
                            w.mem,
                            sp,
                        ) == Some(None::<u32>) {
                            Some(call)
                        } else {
                            None
                        },
                    }
                },
                Op::Store { w: width, .. } => {
                    let call = HelperCall::Store { id, state: sp, addr, val: b };
                    match cfg.tlb {
                        None => Some(call),
                        Some(t) => if tlb_lookup(
                            t,
                            t.tlb_write_off,
                            store_bytes(width),
                            addr,
                            w.mem,
                            sp,
                        ) == Some(None::<u32>) {
                            Some(call)
                        } else {
                            None
                        },
                    }
                },
                Op::Amo { rd, funct5, .. } => Some(
                    HelperCall::Amo { id, state: sp, addr, val: b, funct5, rd_off: rd },
                ),
                _ => None,
            }
        },
        _ => None,
    }
}

/// That an operation finds lifted registers in locals goes unnoticed: neither its accesses
/// through the TLB nor its helper look at those that have been written or change one.
pub open spec fn op_safe(
    op: Op,
    cfg: Config,
    w: World,
    sp: u32,
    env: Env,
    lifted: Seq<u32>,
    dirty: Seq<u32>,
) -> bool {
    &&& op_clear(op, cfg, w, sp, lifted, dirty)
    &&& op_call(op, cfg, w, sp) matches Some(call) ==> quiet(env, call, w, lifted, dirty, sp)
}

/// The memory of `f` with the bytes of the registers as the guest has them.
pub open spec fn spilled(f: Frame, w: World, regs: Seq<u32>, sp: u32) -> Frame {
    Frame {
        world: World {
            mem: Seq::new(
                f.world.mem.len(),
                |a: int|
                    if covers(regs, sp, a) {
                        w.mem[a]
                    } else {
                        f.world.mem[a]
                    },
            ),
            ..f.world
        },
        ..f
    }
}

/// Code that spills registers writes the guest's values of them to memory.
proof fn lemma_spill_regs(
    cx: Cx,
    regs: Seq<u32>,
    k: Code,
    s: Stack,
    f: Frame,
    env: Env,
    w: World,
    dirty: Seq<u32>,
    sp: u32,
)
    requires
        rel(f, w, cx, dirty, sp),
        some_of(regs, cx.lifted),
    ensures
        run(spill(cx, regs, k), s, f, env) == run(k, s, spilled(f, w, regs, sp), env),
    decreases regs.len(),
{
    if regs.len() == 0 {
        assert(spilled(f, w, regs, sp).world.mem =~= f.world.mem);
        assert(spilled(f, w, regs, sp) == f);
    } else {
        let init = regs.drop_last();
        let r = regs.last();
        let one = shape::spill_one(cx, r, k);
        assert(some_of(init, cx.lifted)) by {
            assert forall|i: int| 0 <= i < init.len() implies cx.lifted.contains(
                #[trigger] init[i],
            ) by {
                assert(init[i] == regs[i]);
            }
        }
        lemma_spill_regs(cx, init, one, s, f, env, w, dirty, sp);
        let f1 = spilled(f, w, init, sp);
        let f2 = spilled(f, w, regs, sp);
        reveal(rel);
        lemma_pos(cx.lifted, r);
        assert(cx.lifted.contains(regs[regs.len() - 1]));
        let i = pos(cx.lifted, r)->0 as int;
        assert(cx.lifted[i] == r);
        let v = reg(w, sp, r)->0;
        lemma_loaded_bytes(w.mem, sp + r);
        lemma_store(f1.world.mem, sp + r, 8, v as nat);
        let m = store(f1.world.mem, sp + r, 8, v as nat)->0;
        assert forall|a: int| 0 <= a < m.len() implies m[a] == f2.world.mem[a] by {
            if sp + r <= a < sp + r + 8 {
                assert(regs[regs.len() - 1] == r);
                assert(covers(regs, sp, a));
            } else if covers(init, sp, a) {
                let j = choose|j: int|
                    0 <= j < init.len() && sp + #[trigger] init[j] <= a < sp + init[j] + 8;
                assert(regs[j] == init[j]);
                assert(covers(regs, sp, a));
            } else if covers(regs, sp, a) {
                let j = choose|j: int|
                    0 <= j < regs.len() && sp + #[trigger] regs[j] <= a < sp + regs[j] + 8;
                assert(j < init.len() ==> init[j] == regs[j]);
            }
        }
        assert(m =~= f2.world.mem);
        assert(run(one, s, f1, env) == run(k, s, f2, env)) by {
            broadcast use group_run;

        }
    }
}

/// Code that spills the dirty registers leaves the guest's world.
pub proof fn lemma_spill(
    cx: Cx,
    dirty: Seq<u32>,
    k: Code,
    s: Stack,
    f: Frame,
    env: Env,
    w: World,
    sp: u32,
) -> (f2: Frame)
    requires
        rel(f, w, cx, dirty, sp),
    ensures
        f2.world == w,
        f2.locals == f.locals,
        run(spill(cx, dirty, k), s, f, env) == run(k, s, f2, env),
{
    reveal(rel);
    lemma_spill_regs(cx, dirty, k, s, f, env, w, dirty, sp);
    let f2 = spilled(f, w, dirty, sp);
    assert(f2.world.mem =~= w.mem);
    f2
}

/// Registers whose bytes are kept are kept.
proof fn lemma_kept_regs(w: World, w2: World, regs: Seq<u32>, sp: u32)
    requires
        kept(w.mem, w2.mem, regs, sp),
        forall|i: int| 0 <= i < regs.len() ==> reg(w, sp, #[trigger] regs[i]) is Some,
    ensures
        forall|i: int|
            0 <= i < regs.len() ==> reg(w2, sp, #[trigger] regs[i]) == reg(w, sp, regs[i]),
{
    assert forall|i: int| 0 <= i < regs.len() implies reg(w2, sp, #[trigger] regs[i]) == reg(
        w,
        sp,
        regs[i],
    ) by {
        let at = sp + regs[i];
        assert(at + 8 <= w.mem.len());
        assert forall|a: int| at <= a < at + 8 implies a < w2.mem.len() && #[trigger] w2.mem[a]
            == w.mem[a] by {
            assert(sp + regs[i] <= a);
            assert(covers(regs, sp, a));
            assert(0 <= a < w.mem.len());
            assert(w2.mem[a] == w.mem[a]);
        }
        assert(w2.mem[at + 7] == w.mem[at + 7]);
        assert(w2.mem.subrange(at, at + 8) =~= w.mem.subrange(at, at + 8));
    }
}

/// A call of a helper leaves a frame that stands for the guest's world after it.
proof fn lemma_called(at: At, call: HelperCall)
    requires
        at.ok(),
        quiet(at.env, call, at.w, at.cx.lifted, at.dirty, at.sp),
    ensures
        call_result(at.env, call, at.f.world) == call_result(at.env, call, at.w),
        rel(
            Frame { world: after_call(at.env, call, at.f.world), ..at.f },
            after_call(at.env, call, at.w),
            at.cx,
            at.dirty,
            at.sp,
        ),
{
    reveal(rel);
    let cx = at.cx;
    let (sp, w) = (at.sp, at.w);
    let fw = at.f.world;
    let fw2 = after_call(at.env, call, fw);
    let w2 = after_call(at.env, call, w);
    assert(agree(fw.mem, w.mem, at.dirty, sp));
    assert(agree(fw2.mem, w2.mem, at.dirty, sp));
    lemma_kept_regs(w, w2, cx.lifted, sp);
}

/// A fault reported by a helper leaves the block with the guest's world.
proof fn lemma_fault_check(at: At, result: u32, tagged: u64, k: Code)
    requires
        at.ok(),
        tagged & 1 == 1,
    ensures
        ({
            let out = run(
                fault_check_tagged(at.cx, at.dirty, tagged, k),
                push32(result, at.s),
                at.f,
                at.env,
            );
            out == if result != 0 {
                Outcome::Return(tagged, at.w)
            } else {
                run(k, at.s, at.f, at.env)
            }
        }),
{
    broadcast use group_run, lemma_const64;

    let tail = instr(Instr::I64Const(tagged as i64), instr(Instr::Return, Code::Nil));
    let f2 = lemma_spill(at.cx, at.dirty, tail, at.s, at.f, at.env, at.w, at.sp);
    assert(run(tail, at.s, f2, at.env) == Outcome::Return(tagged, at.w));
}

/// `fault_check` for a pc that is tagged already.
spec fn fault_check_tagged(cx: Cx, dirty: Seq<u32>, tagged: u64, k: Code) -> Code {
    cond(
        None,
        spill(
            cx,
            dirty,
            instr(Instr::I64Const(tagged as i64), instr(Instr::Return, Code::Nil)),
        ),
        Code::Nil,
        k,
    )
}

/// What a call of a helper comes to, with its arguments on the stack.
proof fn lemma_helper(
    at: At,
    id: usize,
    call: HelperCall,
    args: Stack,
    pc: u64,
    k: Code,
)
    requires
        at.ok(),
        quiet(at.env, call, at.w, at.cx.lifted, at.dirty, at.sp),
        at.env.imports == at.cx.used,
        at.cx.used.len() <= 13,
        at.cx.used.contains(id),
        pop_call(id, args) == Some((call, at.s)),
    ensures
        ({
            let n = pos(at.cx.used, id)->0 as u32;
            let out = run(
                instr(Instr::Call(n), fault_check(at.cx, at.dirty, pc, k)),
                args,
                at.f,
                at.env,
            );
            let f = Frame { world: after_call(at.env, call, at.f.world), ..at.f };
            match helped(call, pc | 1, at.w, at.env) {
                Step::Next(w) => {
                    &&& out == run(k, at.s, f, at.env)
                    &&& rel(f, w, at.cx, at.dirty, at.sp)
                },
                Step::Fault(tagged, w) => out == Outcome::Return(tagged, w),
                _ => false,
            }
        }),
{
    broadcast use group_run;

    lemma_pos(at.cx.used, id);
    lemma_called(at, call);
    assert((pc | 1) & 1 == 1) by (bit_vector);
    let at2 = At {
        f: Frame { world: after_call(at.env, call, at.f.world), ..at.f },
        w: after_call(at.env, call, at.w),
        ..at
    };
    lemma_fault_check(at2, call_result(at.env, call, at.w), pc | 1, k);
}

/// Where the context of a block comes from.
pub open spec fn cx_of(cx: Cx, cfg: Config, env: Env) -> bool {
    &&& cx.start_pc == cfg.start_pc
    &&& cx.end_pc == cfg.end_pc
    &&& cx.tlb == cfg.tlb
    &&& env.imports == cx.used
    &&& cx.used.len() <= 13
}

/// What is needed of a memory operation.
pub open spec fn ready(at: At, op: Op, cfg: Config) -> bool {
    &&& at.ok()
    &&& cx_of(at.cx, cfg, at.env)
    &&& cfg.tlb matches Some(t) ==> t.serves(op)
    &&& known_op(at.cx, op)
    &&& spec_helper_id(op) matches Some(id) ==> at.cx.used.contains(id)
    &&& spec_helper_dest(op) matches Some(rd) ==> known(at.cx, rd) && !at.cx.lifted.contains(rd)
    &&& op_safe(op, cfg, at.w, at.sp, at.env, at.cx.lifted, at.dirty)
}

/// The call of an atomic's helper.
proof fn lemma_amo_run(at: At, n: u32, rd: u32, rs1: u32, rs2: u32, funct5: u32, pc: u64)
    requires
        at.ok(),
        known(at.cx, rs1),
        known(at.cx, rs2),
    ensures
        at.run(shape::amo_mem(at.cx, at.dirty, n, rd, rs1, rs2, funct5, pc, at.k)) == match (
            reg(at.w, at.sp, rs1),
            reg(at.w, at.sp, rs2),
        ) {
            (Some(addr), Some(val)) => run(
                instr(Instr::Call(n), fault_check(at.cx, at.dirty, pc, at.k)),
                push32(rd, push32(funct5, push64(val, push64(addr, push32(at.sp, at.s))))),
                at.f,
                at.env,
            ),
            _ => Outcome::Trap,
        },
{
    broadcast use lemma_run_cons, group_rel, lemma_const32;

}

/// The call of a load's helper.
proof fn lemma_load_run(at: At, n: u32, w: LoadW, rd: u32, rs1: u32, imm: i64, pc: u64)
    requires
        at.ok(),
        at.cx.tlb is None,
        known(at.cx, rs1),
    ensures
        at.run(shape::load_mem(at.cx, at.dirty, n, w, rd, rs1, imm, pc, at.k)) == match reg(
            at.w,
            at.sp,
            rs1,
        ) {
            Some(a) => run(
                instr(Instr::Call(n), fault_check(at.cx, at.dirty, pc, at.k)),
                push32(rd, push64(u64w(a + imm), push32(at.sp, at.s))),
                at.f,
                at.env,
            ),
            None => Outcome::Trap,
        },
{
    broadcast use lemma_run_cons, group_rel, lemma_const32;

    if let Some(a) = reg(at.w, at.sp, rs1) {
        lemma_u64w_add(a as int, imm as int);
    }
}

/// The call of a store's helper.
proof fn lemma_store_run(at: At, n: u32, w: StoreW, rs1: u32, rs2: u32, imm: i64, pc: u64)
    requires
        at.ok(),
        at.cx.tlb is None,
        known(at.cx, rs1),
        known(at.cx, rs2),
    ensures
        at.run(shape::store_mem(at.cx, at.dirty, n, w, rs1, rs2, imm, pc, at.k)) == match (
            reg(at.w, at.sp, rs1),
            reg(at.w, at.sp, rs2),
        ) {
            (Some(a), Some(val)) => run(
                instr(Instr::Call(n), fault_check(at.cx, at.dirty, pc, at.k)),
                push64(val, push64(u64w(a + imm), push32(at.sp, at.s))),
                at.f,
                at.env,
            ),
            _ => Outcome::Trap,
        },
{
    broadcast use lemma_run_cons, group_rel;

    if let Some(a) = reg(at.w, at.sp, rs1) {
        lemma_u64w_add(a as int, imm as int);
    }
}

/// An atomic.
pub proof fn lemma_amo(at: At, op: Op, cfg: Config) -> (f: Frame)
    requires
        ready(at, op, cfg),
        op is Amo,
    ensures
        at.done(op, cfg, at.run(op_code(op, at.cx, at.dirty, at.k)), f),
{
    reveal(op_code);
    reveal(op_step);
    let id = spec_helper_id(op)->0;
    let (rd, rs1, rs2, funct5) = (op->Amo_rd, op->Amo_rs1, op->Amo_rs2, op->Amo_funct5);
    let pc = shape::fault_pc(at.cx, op->Amo_pc_off);
    let n = shape::helper_index(at.cx, op);
    assert(spec_reads(op) == seq![rs1, rs2]);
    assert(known(at.cx, spec_reads(op)[0]));
    assert(known(at.cx, spec_reads(op)[1]));
    lemma_amo_run(at, n, rd, rs1, rs2, funct5, pc);
    if let (Some(addr), Some(val)) = (reg(at.w, at.sp, rs1), reg(at.w, at.sp, rs2)) {
        let call = HelperCall::Amo { id, state: at.sp, addr, val, funct5, rd_off: rd };
        let args = push32(rd, push32(funct5, push64(val, push64(addr, push32(at.sp, at.s)))));
        lemma_helper(at, id, call, args, pc, at.k);
        Frame { world: after_call(at.env, call, at.f.world), ..at.f }
    } else {
        at.f
    }
}

/// A load without a TLB.
pub proof fn lemma_load_helped(at: At, op: Op, cfg: Config) -> (f: Frame)
    requires
        ready(at, op, cfg),
        op is Load,
        cfg.tlb is None,
    ensures
        at.done(op, cfg, at.run(op_code(op, at.cx, at.dirty, at.k)), f),
{
    reveal(op_code);
    reveal(op_step);
    let id = spec_helper_id(op)->0;
    let (rd, rs1, imm) = (op->Load_rd, op->Load_rs1, op->Load_imm);
    let pc = shape::fault_pc(at.cx, op->Load_pc_off);
    let n = shape::helper_index(at.cx, op);
    assert(spec_reads(op) == seq![rs1]);
    assert(known(at.cx, spec_reads(op)[0]));
    lemma_load_run(at, n, op->Load_w, rd, rs1, imm, pc);
    if let Some(a) = reg(at.w, at.sp, rs1) {
        let addr = u64w(a + imm);
        let call = HelperCall::Load { id, state: at.sp, addr, rd_off: rd };
        let args = push32(rd, push64(addr, push32(at.sp, at.s)));
        lemma_helper(at, id, call, args, pc, at.k);
        Frame { world: after_call(at.env, call, at.f.world), ..at.f }
    } else {
        at.f
    }
}

/// A store without a TLB.
pub proof fn lemma_store_helped(at: At, op: Op, cfg: Config) -> (f: Frame)
    requires
        ready(at, op, cfg),
        op is Store,
        cfg.tlb is None,
    ensures
        at.done(op, cfg, at.run(op_code(op, at.cx, at.dirty, at.k)), f),
{
    reveal(op_code);
    reveal(op_step);
    let id = spec_helper_id(op)->0;
    let (rs1, rs2, imm) = (op->Store_rs1, op->Store_rs2, op->Store_imm);
    let pc = shape::fault_pc(at.cx, op->Store_pc_off);
    let n = shape::helper_index(at.cx, op);
    assert(spec_reads(op) == seq![rs1, rs2]);
    assert(known(at.cx, spec_reads(op)[0]));
    assert(known(at.cx, spec_reads(op)[1]));
    lemma_store_run(at, n, op->Store_w, rs1, rs2, imm, pc);
    if let (Some(a), Some(val)) = (reg(at.w, at.sp, rs1), reg(at.w, at.sp, rs2)) {
        let addr = u64w(a + imm);
        let call = HelperCall::Store { id, state: at.sp, addr, val };
        let args = push64(val, push64(addr, push32(at.sp, at.s)));
        lemma_helper(at, id, call, args, pc, at.k);
        Frame { world: after_call(at.env, call, at.f.world), ..at.f }
    } else {
        at.f
    }
}

/// A read clear of the dirty registers gives what the guest's memory holds.
proof fn lemma_rel_load(at: At, a: int, n: nat)
    requires
        at.ok(),
        clear(at.dirty, at.sp, a, n),
    ensures
        load(at.f.world.mem, a, n) == load(at.w.mem, a, n),
{
    reveal(rel);
    lemma_agree_load(at.f.world.mem, at.w.mem, at.dirty, at.sp, a, n);
}

/// The frame after a write to memory.
spec fn stored(f: Frame, a: int, n: nat, v: nat) -> Frame {
    Frame { world: World { mem: store(f.world.mem, a, n, v)->0, ..f.world }, ..f }
}

/// A write that leaves the lifted registers as they are does what it does to the guest's
/// memory.
proof fn lemma_rel_store(at: At, a: int, n: nat, v: nat)
    requires
        at.ok(),
        store(at.w.mem, a, n, v) matches Some(mem) ==> kept(
            at.w.mem,
            mem,
            at.cx.lifted,
            at.sp,
        ),
    ensures
        store(at.f.world.mem, a, n, v) is Some <==> store(at.w.mem, a, n, v) is Some,
        store(at.w.mem, a, n, v) matches Some(mem) ==> rel(
            stored(at.f, a, n, v),
            World { mem, ..at.w },
            at.cx,
            at.dirty,
            at.sp,
        ),
{
    reveal(rel);
    lemma_agree_store(at.f.world.mem, at.w.mem, at.dirty, at.sp, a, n, v);
    if let Some(mem) = store(at.w.mem, a, n, v) {
        lemma_kept_regs(at.w, World { mem, ..at.w }, at.cx.lifted, at.sp);
    }
}

/// The frame behind a probe.
spec fn probed(f: Frame, addr: u64, entry: u32) -> Frame {
    Frame {
        locals: f.locals.update(2, Val::I64(addr)).update(3, Val::I32(entry)),
        world: f.world,
    }
}

proof fn lemma_probed(at: At, addr: u64, entry: u32)
    requires
        at.ok(),
    ensures
        rel(probed(at.f, addr, entry), at.w, at.cx, at.dirty, at.sp),
        probed(at.f, addr, entry).locals.len() >= 4,
        probed(at.f, addr, entry).locals[0] == Val::I32(at.sp),
        probed(at.f, addr, entry).locals[2] == Val::I64(addr),
        probed(at.f, addr, entry).locals[3] == Val::I32(entry),
{
    broadcast use group_rel;

    let f1 = Frame { locals: at.f.locals.update(2, Val::I64(addr)), ..at.f };
    lemma_rel_scratch(at.f, at.w, at.cx, at.dirty, at.sp, 2, Val::I64(addr));
    lemma_rel_scratch(f1, at.w, at.cx, at.dirty, at.sp, 3, Val::I32(entry));
}

/// The first half of a probe computes the entry's place in the table.
proof fn lemma_probe_index(
    at: At,
    t: TlbLayout,
    rs1: u32,
    imm: i64,
    tlb_off: u32,
    bytes: u64,
    k: Code,
    a: u64,
)
    requires
        at.ok(),
        t.pg_shift < 64,
        known(at.cx, rs1),
        reg(at.w, at.sp, rs1) == Some(a),
    ensures
        ({
            let addr = u64w(a + imm);
            let index = u32w(addr as int / pow2(t.pg_shift as nat) as int) & t.idx_mask;
            at.run(shape::tlb_probe(at.cx, t, rs1, imm, tlb_off, bytes, k)) == run(
                shape::tlb_tag(t, tlb_off, bytes, k),
                push32(u32w(index * pow2(t.entry_shift as nat % 32)), at.s),
                Frame { locals: at.f.locals.update(2, Val::I64(addr)), ..at.f },
                at.env,
            )
        }),
{
    let addr = u64w(a + imm);
    let q = u64w(addr as int / pow2(t.pg_shift as nat) as int);
    let index = u32w(q as int) & t.idx_mask;
    let f1 = Frame { locals: at.f.locals.update(2, Val::I64(addr)), ..at.f };
    let c0 = shape::tlb_tag(t, tlb_off, bytes, k);
    let c1 = instr(Instr::I32Bin(IntBin::Shl), c0);
    let c2 = instr(Instr::I32Const(t.entry_shift as i32), c1);
    let c3 = instr(Instr::I32Bin(IntBin::And), c2);
    let c4 = instr(Instr::I32Const(t.idx_mask as i32), c3);
    let c5 = instr(Instr::I32WrapI64, c4);
    let c6 = instr(Instr::I64Bin(IntBin::ShrU), c5);
    let c7 = instr(Instr::I64Const(t.pg_shift as i64), c6);
    let c8 = instr(Instr::LocalTee(2), c7);
    assert(at.run(shape::address(at.cx, rs1, imm, c8)) == run(
        c8,
        push64(addr, at.s),
        at.f,
        at.env,
    )) by {
        broadcast use lemma_run_cons, group_rel;

        lemma_u64w_add(a as int, imm as int);
    }
    assert(at.f.locals.len() >= 4) by {
        broadcast use group_rel;

    }
    lemma_run_cons(Instr::LocalTee(2), Box::new(c7), push64(addr, at.s), at.f, at.env);
    lemma_run_cons(
        Instr::I64Const(t.pg_shift as i64),
        Box::new(c6),
        push64(addr, at.s),
        f1,
        at.env,
    );
    let amount = u64w((t.pg_shift as i64) as int);
    assert(amount as nat % 64 == t.pg_shift as nat);
    assert(bin64(IntBin::ShrU, addr, amount) == Some(q));
    lemma_run_cons(
        Instr::I64Bin(IntBin::ShrU),
        Box::new(c5),
        push64(amount, push64(addr, at.s)),
        f1,
        at.env,
    );
    lemma_run_cons(Instr::I32WrapI64, Box::new(c4), push64(q, at.s), f1, at.env);
    let low = u32w(q as int);
    lemma_const32(t.idx_mask);
    lemma_const32(t.entry_shift);
    lemma_run_cons(
        Instr::I32Const(t.idx_mask as i32),
        Box::new(c3),
        push32(low, at.s),
        f1,
        at.env,
    );
    lemma_run_cons(
        Instr::I32Bin(IntBin::And),
        Box::new(c2),
        push32(t.idx_mask, push32(low, at.s)),
        f1,
        at.env,
    );
    lemma_run_cons(
        Instr::I32Const(t.entry_shift as i32),
        Box::new(c1),
        push32(index, at.s),
        f1,
        at.env,
    );
    lemma_run_cons(
        Instr::I32Bin(IntBin::Shl),
        Box::new(c0),
        push32(t.entry_shift, push32(index, at.s)),
        f1,
        at.env,
    );
    lemma_u32w_u64w(addr as int / pow2(t.pg_shift as nat) as int);
}

/// The second half compares the tag.
proof fn lemma_probe_tag(at: At, t: TlbLayout, tlb_off: u32, bytes: u64, k: Code, addr: u64, x: u32)
    requires
        at.ok(),
        t.usable_at(tlb_off),
        clear(at.dirty, at.sp, u32w(at.sp + x) + tlb_off + t.vaddr_off, 8),
    ensures
        ({
            let entry = u32w(at.sp + x);
            let f1 = Frame { locals: at.f.locals.update(2, Val::I64(addr)), ..at.f };
            run(
                shape::tlb_tag(t, tlb_off, bytes, k),
                push32(x, at.s),
                f1,
                at.env,
            ) == match load64(at.w.mem, entry + tlb_off + t.vaddr_off) {
                Some(tag) => run(
                    k,
                    push32(flag(tag == addr & spec_tag_mask(t.pg_shift, bytes)), at.s),
                    probed(at.f, addr, entry),
                    at.env,
                ),
                None => Outcome::Trap,
            }
        }),
{
    broadcast use lemma_run_cons, group_rel, lemma_const64;

    lemma_rel_load(at, u32w(at.sp + x) + tlb_off + t.vaddr_off, 8);
}

/// A probe decides between hit and miss as the guest's lookup does.
proof fn lemma_probe(
    at: At,
    t: TlbLayout,
    rs1: u32,
    imm: i64,
    tlb_off: u32,
    bytes: u64,
    k: Code,
)
    requires
        at.ok(),
        t.usable_at(tlb_off),
        known(at.cx, rs1),
        reg(at.w, at.sp, rs1) matches Some(a) ==> probe_clear(
            t,
            tlb_off,
            bytes,
            u64w(a + imm),
            at.w,
            at.sp,
            at.dirty,
        ),
    ensures
        at.run(shape::tlb_probe(at.cx, t, rs1, imm, tlb_off, bytes, k)) == match reg(
            at.w,
            at.sp,
            rs1,
        ) {
            Some(a) => {
                let addr = u64w(a + imm);
                let entry = tlb_entry(t, addr, at.sp);
                match load64(at.w.mem, entry + tlb_off + t.vaddr_off) {
                    Some(tag) => run(
                        k,
                        push32(flag(tag == addr & spec_tag_mask(t.pg_shift, bytes)), at.s),
                        probed(at.f, addr, entry),
                        at.env,
                    ),
                    None => Outcome::Trap,
                }
            },
            None => Outcome::Trap,
        },
{
    match reg(at.w, at.sp, rs1) {
        Some(a) => {
            let addr = u64w(a + imm);
            let index = u32w(addr as int / pow2(t.pg_shift as nat) as int) & t.idx_mask;
            let x = index * pow2(t.entry_shift as nat % 32);
            lemma_probe_index(at, t, rs1, imm, tlb_off, bytes, k, a);
            lemma_u32w_add(at.sp as int, x);
            lemma_probe_tag(at, t, tlb_off, bytes, k, addr, u32w(x));
        },
        None => {
            broadcast use group_rel;

        },
    }
}

/// The address in linear memory of a hit.
proof fn lemma_host_addr(
    at: At,
    t: TlbLayout,
    tlb_off: u32,
    s: Stack,
    k: Code,
    addr: u64,
    entry: u32,
)
    requires
        at.ok(),
        t.usable_at(tlb_off),
        at.f.locals[2] == Val::I64(addr),
        at.f.locals[3] == Val::I32(entry),
        clear(at.dirty, at.sp, entry + tlb_off + t.addend_off, 4),
    ensures
        run(shape::tlb_host_addr(t, tlb_off, k), s, at.f, at.env) == match load32(
            at.w.mem,
            entry + tlb_off + t.addend_off,
        ) {
            Some(addend) => run(k, push32(u32w(addend + addr), s), at.f, at.env),
            None => Outcome::Trap,
        },
{
    broadcast use lemma_run_cons, group_rel;

    lemma_rel_load(at, entry + tlb_off + t.addend_off, 4);
    if let Some(addend) = load32(at.w.mem, entry + tlb_off + t.addend_off) {
        lemma_u32w_add(addend as int, addr as int);
    }
}

/// A load that hits.
proof fn lemma_load_fast(
    at: At,
    t: TlbLayout,
    w: LoadW,
    rd: u32,
    addr: u64,
    entry: u32,
) -> (f: Frame)
    requires
        at.ok(),
        t.usable_at(t.tlb_read_off),
        rd != 0 ==> known(at.cx, rd) && !at.cx.lifted.contains(rd),
        at.f.locals[2] == Val::I64(addr),
        at.f.locals[3] == Val::I32(entry),
        clear(at.dirty, at.sp, entry + t.tlb_read_off + t.addend_off, 4),
        load32(at.w.mem, entry + t.tlb_read_off + t.addend_off) matches Some(addend) ==> clear(
            at.dirty,
            at.sp,
            u32w(addend + addr) as int,
            load_bytes(w) as nat,
        ),
    ensures
        ({
            let out = at.run(shape::load_fast(t, w, rd));
            match load32(at.w.mem, entry + t.tlb_read_off + t.addend_off) {
                None => out is Trap,
                Some(addend) => match load_ext(
                    load_op(w),
                    at.w.mem,
                    u32w(addend + addr) as int,
                ) {
                    None => out is Trap,
                    Some(v) => if rd == 0 {
                        out == Outcome::Next(at.s, f) && rel(f, at.w, at.cx, at.dirty, at.sp)
                    } else {
                        match put_reg(at.w, at.sp, rd, v) {
                            None => out is Trap,
                            Some(w2) => out == Outcome::Next(at.s, f) && rel(
                                f,
                                w2,
                                at.cx,
                                at.dirty,
                                at.sp,
                            ),
                        }
                    },
                },
            }
        }),
{
    broadcast use group_rel;

    let arg = MemArg { offset: 0, align: shape::align_of(load_bytes(w)) };
    let s = if rd != 0 {
        push32(at.sp, at.s)
    } else {
        at.s
    };
    let last = if rd != 0 {
        instr(Instr::Store(StoreOp::I64, shape::reg_arg(rd)), Code::Nil)
    } else {
        instr(Instr::Drop, Code::Nil)
    };
    let acc = instr(Instr::Load(load_op(w), arg), last);
    lemma_host_addr(at, t, t.tlb_read_off, s, acc, addr, entry);
    assert(at.run(shape::load_fast(t, w, rd)) == run(
        shape::tlb_host_addr(t, t.tlb_read_off, acc),
        s,
        at.f,
        at.env,
    )) by {
        broadcast use lemma_run_cons;

    }
    match load32(at.w.mem, entry + t.tlb_read_off + t.addend_off) {
        None => at.f,
        Some(addend) => {
            let host = u32w(addend + addr);
            lemma_rel_load(at, host as int, load_bytes(w) as nat);
            let got = load_ext(load_op(w), at.w.mem, host as int);
            assert(load_val(load_op(w), at.f.world.mem, host as int) == match got {
                Some(v) => Some(Val::I64(v)),
                None => None,
            });
            assert(run(acc, push32(host, s), at.f, at.env) == match got {
                Some(v) => run(last, push64(v, s), at.f, at.env),
                None => Outcome::Trap,
            }) by {
                lemma_run_cons(
                    Instr::Load(load_op(w), arg),
                    Box::new(last),
                    push32(host, s),
                    at.f,
                    at.env,
                );
            }
            match got {
                None => at.f,
                Some(v) => if rd == 0 {
                    broadcast use group_run;

                    at.f
                } else {
                    broadcast use lemma_run_nil;

                    lemma_pos(at.cx.lifted, rd);
                    lemma_store_reg(
                        at.cx,
                        rd,
                        v,
                        Code::Nil,
                        at.s,
                        at.f,
                        at.env,
                        at.w,
                        at.dirty,
                        at.sp,
                    );
                    after_write(at.cx, rd, v, at.f, at.sp)
                },
            }
        },
    }
}

/// A load with a TLB.
pub proof fn lemma_load_probed(at: At, op: Op, cfg: Config) -> (f: Frame)
    requires
        ready(at, op, cfg),
        op is Load,
        cfg.tlb is Some,
    ensures
        at.done(op, cfg, at.run(op_code(op, at.cx, at.dirty, at.k)), f),
{
    reveal(op_code);
    reveal(op_step);
    let id = spec_helper_id(op)->0;
    let (width, rd, rs1, imm) = (op->Load_w, op->Load_rd, op->Load_rs1, op->Load_imm);
    let pc = shape::fault_pc(at.cx, op->Load_pc_off);
    let n = shape::helper_index(at.cx, op);
    let t = cfg.tlb->0;
    let off = t.tlb_read_off;
    let bytes = load_bytes(width);
    assert(spec_reads(op) == seq![rs1]);
    assert(known(at.cx, spec_reads(op)[0]));
    let fast = shape::load_fast(t, width, rd);
    let call_code = instr(Instr::Call(n), fault_check(at.cx, at.dirty, pc, Code::Nil));
    let slow = instr(
        Instr::LocalGet(0),
        instr(Instr::LocalGet(2), instr(Instr::I32Const(rd as i32), call_code)),
    );
    let rest = cond(None, fast, slow, at.k);
    assert(op_code(op, at.cx, at.dirty, at.k) == shape::tlb_probe(
        at.cx,
        t,
        rs1,
        imm,
        off,
        bytes,
        rest,
    ));
    lemma_probe(at, t, rs1, imm, off, bytes, rest);
    match reg(at.w, at.sp, rs1) {
        None => at.f,
        Some(a) => {
            let addr = u64w(a + imm);
            let entry = tlb_entry(t, addr, at.sp);
            lemma_probed(at, addr, entry);
            let at2 = At { f: probed(at.f, addr, entry), k: Code::Nil, ..at };
            match load64(at.w.mem, entry + off + t.vaddr_off) {
                None => at.f,
                Some(tag) => {
                    let hit = tag == addr & spec_tag_mask(t.pg_shift, bytes);
                    lemma_run_if(
                        None,
                        Box::new(fast),
                        Box::new(slow),
                        Box::new(at.k),
                        push32(flag(hit), at.s),
                        at2.f,
                        at.env,
                    );
                    if hit {
                        lemma_load_fast(at2, t, width, rd, addr, entry)
                    } else {
                        let call = HelperCall::Load { id, state: at.sp, addr, rd_off: rd };
                        let args = push32(rd, push64(addr, push32(at.sp, at.s)));
                        lemma_helper(at2, id, call, args, pc, Code::Nil);
                        assert(at2.run(slow) == run(call_code, args, at2.f, at.env)) by {
                            broadcast use lemma_run_cons, lemma_const32;

                        }
                        let f = Frame { world: after_call(at.env, call, at2.f.world), ..at2.f };
                        lemma_run_nil(at.s, f, at.env);
                        f
                    }
                },
            }
        },
    }
}

/// The code of a store that hits.
spec fn store_fast(cx: Cx, t: TlbLayout, w: StoreW, rs2: u32) -> Code {
    let arg = MemArg { offset: 0, align: shape::align_of(store_bytes(w)) };
    let last = instr(Instr::Store(store_op(w), arg), Code::Nil);
    shape::tlb_host_addr(t, t.tlb_write_off, shape::get_reg(cx, rs2, last))
}

/// A store that hits.
proof fn lemma_store_fast(
    at: At,
    t: TlbLayout,
    w: StoreW,
    rs2: u32,
    addr: u64,
    entry: u32,
) -> (f: Frame)
    requires
        at.ok(),
        t.usable_at(t.tlb_write_off),
        known(at.cx, rs2),
        at.f.locals[2] == Val::I64(addr),
        at.f.locals[3] == Val::I32(entry),
        clear(at.dirty, at.sp, entry + t.tlb_write_off + t.addend_off, 4),
        (
            load32(at.w.mem, entry + t.tlb_write_off + t.addend_off),
            reg(at.w, at.sp, rs2),
        ) matches (Some(addend), Some(val)) ==> (store(
            at.w.mem,
            u32w(addend + addr) as int,
            store_bytes(w) as nat,
            val as nat,
        ) matches Some(mem) ==> kept(at.w.mem, mem, at.cx.lifted, at.sp)),
    ensures
        ({
            let out = at.run(store_fast(at.cx, t, w, rs2));
            match (
                load32(at.w.mem, entry + t.tlb_write_off + t.addend_off),
                reg(at.w, at.sp, rs2),
            ) {
                (Some(addend), Some(val)) => match store(
                    at.w.mem,
                    u32w(addend + addr) as int,
                    store_width(store_op(w)),
                    val as nat,
                ) {
                    Some(mem) => out == Outcome::Next(at.s, f) && rel(
                        f,
                        World { mem, ..at.w },
                        at.cx,
                        at.dirty,
                        at.sp,
                    ),
                    None => out is Trap,
                },
                _ => out is Trap,
            }
        }),
{
    let arg = MemArg { offset: 0, align: shape::align_of(store_bytes(w)) };
    let last = instr(Instr::Store(store_op(w), arg), Code::Nil);
    let k = shape::get_reg(at.cx, rs2, last);
    lemma_host_addr(at, t, t.tlb_write_off, at.s, k, addr, entry);
    match load32(at.w.mem, entry + t.tlb_write_off + t.addend_off) {
        None => at.f,
        Some(addend) => {
            let host = u32w(addend + addr);
            let s = push32(host, at.s);
            lemma_get_reg(at.cx, rs2, last, s, at.f, at.env, at.w, at.dirty, at.sp);
            match reg(at.w, at.sp, rs2) {
                None => at.f,
                Some(val) => {
                    broadcast use group_run;

                    let m = store_width(store_op(w));
                    lemma_rel_store(at, host as int, m, val as nat);
                    stored(at.f, host as int, m, val as nat)
                },
            }
        },
    }
}

/// A store with a TLB.
pub proof fn lemma_store_probed(at: At, op: Op, cfg: Config) -> (f: Frame)
    requires
        ready(at, op, cfg),
        op is Store,
        cfg.tlb is Some,
    ensures
        at.done(op, cfg, at.run(op_code(op, at.cx, at.dirty, at.k)), f),
{
    reveal(op_code);
    reveal(op_step);
    let id = spec_helper_id(op)->0;
    let (width, rs1, rs2, imm) = (op->Store_w, op->Store_rs1, op->Store_rs2, op->Store_imm);
    let pc = shape::fault_pc(at.cx, op->Store_pc_off);
    let n = shape::helper_index(at.cx, op);
    let t = cfg.tlb->0;
    let off = t.tlb_write_off;
    let bytes = store_bytes(width);
    assert(spec_reads(op) == seq![rs1, rs2]);
    assert(known(at.cx, spec_reads(op)[0]));
    assert(known(at.cx, spec_reads(op)[1]));
    let fast = store_fast(at.cx, t, width, rs2);
    let call_code = instr(Instr::Call(n), fault_check(at.cx, at.dirty, pc, Code::Nil));
    let slow = instr(
        Instr::LocalGet(0),
        instr(Instr::LocalGet(2), shape::get_reg(at.cx, rs2, call_code)),
    );
    let rest = cond(None, fast, slow, at.k);
    assert(op_code(op, at.cx, at.dirty, at.k) == shape::tlb_probe(
        at.cx,
        t,
        rs1,
        imm,
        off,
        bytes,
        rest,
    ));
    lemma_probe(at, t, rs1, imm, off, bytes, rest);
    match reg(at.w, at.sp, rs1) {
        None => at.f,
        Some(a) => {
            let addr = u64w(a + imm);
            let entry = tlb_entry(t, addr, at.sp);
            lemma_probed(at, addr, entry);
            let at2 = At { f: probed(at.f, addr, entry), k: Code::Nil, ..at };
            match load64(at.w.mem, entry + off + t.vaddr_off) {
                None => at.f,
                Some(tag) => {
                    let hit = tag == addr & spec_tag_mask(t.pg_shift, bytes);
                    lemma_run_if(
                        None,
                        Box::new(fast),
                        Box::new(slow),
                        Box::new(at.k),
                        push32(flag(hit), at.s),
                        at2.f,
                        at.env,
                    );
                    if hit {
                        lemma_store_fast(at2, t, width, rs2, addr, entry)
                    } else {
                        let args1 = push64(addr, push32(at.sp, at.s));
                        assert(at2.run(slow) == run(
                            shape::get_reg(at.cx, rs2, call_code),
                            args1,
                            at2.f,
                            at.env,
                        )) by {
                            broadcast use lemma_run_cons;

                        }
                        lemma_get_reg(
                            at.cx,
                            rs2,
                            call_code,
                            args1,
                            at2.f,
                            at.env,
                            at.w,
                            at.dirty,
                            at.sp,
                        );
                        match reg(at.w, at.sp, rs2) {
                            None => at.f,
                            Some(val) => {
                                let call = HelperCall::Store { id, state: at.sp, addr, val };
                                let args = push64(val, args1);
                                lemma_helper(at2, id, call, args, pc, Code::Nil);
                                let f = Frame {
                                    world: after_call(at.env, call, at2.f.world),
                                    ..at2.f
                                };
                                lemma_run_nil(at.s, f, at.env);
                                f
                            },
                        }
                    }
                },
            }
        },
    }
}

} // verus!
