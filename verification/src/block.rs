//! The laws of compiled blocks: running the code of a block does what the guest's
//! instructions do.

use vstd::prelude::*;
use crate::access::{
    lemma_amo, lemma_load_helped, lemma_load_probed, lemma_spill, lemma_store_helped,
    lemma_store_probed, op_call, op_safe, quiet, ready,
};
use crate::arith::{lemma_const64, lemma_u64w_add, u64w};
use crate::chaining::{finish, lemma_charge, lemma_epilogue};
use crate::codegen::{block_locals, law_used_helpers};
use crate::compute::{known_op, lemma_alu, lemma_const_reg, At};
use crate::guest::{block_run, charged, op_step, ops_run, reg, well_ended, Step};
use crate::ir::{spec_is_terminator, Op};
use crate::machine::{
    after_call, call_result, group_run, lemma_run_cons, lemma_run_nil, push64, rel64, run, Env,
    Frame, HelperCall, Outcome, Stack, Val, World,
};
use crate::muldiv::lemma_mul_div;
use crate::relate::{
    after_write, agree, good_cx, group_rel, known, lemma_rel_locals, lemma_rel_scratch, rel,
};
use crate::shape;
use crate::shape::{
    apart, block_code, block_cx, calls_helper, code_regs, ends_with_terminator, exit_code, fill,
    helper_dests, lifted_regs, mark, mark_all, op_code, ops_code, select, spec_helper_dest,
    spec_helper_id, spec_is_wide, spec_reads, spec_written, spill, spread, used_helpers, wide,
    with_reg, with_regs, Config, Cx, FIXED_LOCALS, MAX_LIFTED,
};
use crate::wasm::{instr, Code, Instr, IntBin, IntRel, ValTy};

verus! {

// The registers that are lifted.

proof fn lemma_with_regs(s: Seq<u32>, xs: Seq<u32>)
    ensures
        with_regs(s, xs).len() >= s.len(),
        forall|i: int| 0 <= i < s.len() ==> #[trigger] with_regs(s, xs)[i] == s[i],
        forall|x: u32| s.contains(x) ==> #[trigger] with_regs(s, xs).contains(x),
        forall|i: int| 0 <= i < xs.len() ==> with_regs(s, xs).contains(#[trigger] xs[i]),
    decreases xs.len(),
{
    if xs.len() > 0 {
        let init = xs.drop_last();
        let r = with_regs(s, init);
        lemma_with_regs(s, init);
        let t = with_reg(r, xs.last());
        assert forall|x: u32| r.contains(x) || x == xs.last() implies #[trigger] t.contains(x) by {
            if r.contains(x) {
                let i = choose|i: int| 0 <= i < r.len() && r[i] == x;
                assert(t[i] == x);
            } else {
                assert(t[r.len() as int] == x);
            }
        }
        assert forall|i: int| 0 <= i < xs.len() implies t.contains(#[trigger] xs[i]) by {
            if i < init.len() {
                assert(r.contains(init[i]));
            }
        }
        assert forall|i: int| 0 <= i < s.len() implies #[trigger] t[i] == s[i] by {
            assert(r[i] == s[i]);
        }
    } else {
        assert(with_regs(s, xs) == s);
    }
}

/// The registers of each operation are among those of all.
proof fn lemma_op_regs(ops: Seq<Op>, i: int)
    requires
        0 <= i < ops.len(),
    ensures
        forall|j: int|
            0 <= j < spec_reads(ops[i]).len() ==> code_regs(ops).contains(
                #[trigger] spec_reads(ops[i])[j],
            ),
        spec_written(ops[i]) matches Some(rd) ==> code_regs(ops).contains(rd),
        spec_helper_dest(ops[i]) matches Some(rd) ==> helper_dests(ops).contains(rd),
    decreases ops.len(),
{
    let init = ops.drop_last();
    let last = ops.last();
    let r1 = code_regs(init);
    let r2 = with_regs(r1, spec_reads(last));
    let w = shape::option_seq(spec_written(last));
    let d = shape::option_seq(spec_helper_dest(last));
    lemma_with_regs(r1, spec_reads(last));
    lemma_with_regs(r2, w);
    lemma_with_regs(helper_dests(init), d);
    if i < init.len() {
        lemma_op_regs(init, i);
        assert(init[i] == ops[i]);
        assert forall|j: int| 0 <= j < spec_reads(ops[i]).len() implies code_regs(ops).contains(
            #[trigger] spec_reads(ops[i])[j],
        ) by {
            assert(r1.contains(spec_reads(init[i])[j]));
            assert(r2.contains(spec_reads(ops[i])[j]));
        }
        if let Some(rd) = spec_written(ops[i]) {
            assert(r2.contains(rd));
        }
    } else {
        assert forall|j: int| 0 <= j < spec_reads(ops[i]).len() implies code_regs(ops).contains(
            #[trigger] spec_reads(ops[i])[j],
        ) by {
            assert(r2.contains(spec_reads(last)[j]));
        }
        if let Some(rd) = spec_written(last) {
            assert(w[0] == rd);
        }
        if let Some(rd) = spec_helper_dest(last) {
            assert(d[0] == rd);
        }
    }
}

proof fn lemma_select(s: Seq<u32>, out: Seq<u32>, max: nat)
    ensures
        select(s, out, max).len() <= max,
        forall|i: int|
            0 <= i < select(s, out, max).len() ==> s.contains(#[trigger] select(s, out, max)[i])
                && !out.contains(select(s, out, max)[i]),
        spread(s) ==> spread(select(s, out, max)),
    decreases s.len(),
{
    if s.len() > 0 {
        let init = s.drop_last();
        let r = select(init, out, max);
        let t = select(s, out, max);
        lemma_select(init, out, max);
        assert forall|i: int| 0 <= i < t.len() implies s.contains(#[trigger] t[i])
            && !out.contains(t[i]) by {
            if i < r.len() {
                assert(init.contains(r[i]));
                let j = choose|j: int| 0 <= j < init.len() && init[j] == r[i];
                assert(s[j] == t[i]);
            } else {
                assert(s[s.len() - 1] == t[i]);
            }
        }
        if spread(s) {
            assert(spread(init)) by {
                assert forall|i: int, j: int|
                    0 <= i < init.len() && 0 <= j < init.len() && i != j implies apart(
                    #[trigger] init[i],
                    #[trigger] init[j],
                ) by {
                    assert(apart(s[i], s[j]));
                }
            }
            assert forall|i: int, j: int|
                0 <= i < t.len() && 0 <= j < t.len() && i != j implies apart(
                #[trigger] t[i],
                #[trigger] t[j],
            ) by {
                if i < r.len() && j < r.len() {
                    assert(apart(r[i], r[j]));
                } else {
                    let n = if i < r.len() {
                        i
                    } else {
                        j
                    };
                    assert(init.contains(r[n]));
                    let m = choose|m: int| 0 <= m < init.len() && init[m] == r[n];
                    assert(apart(s[m], s[s.len() - 1]));
                    assert(apart(s[s.len() - 1], s[m]));
                }
            }
        }
    }
}

/// Lifted registers share no byte with each other nor with any other register that the
/// block names, are at most as many as there are registers, and are written by no helper.
pub proof fn lemma_lifted(ops: Seq<Op>, cfg: Config)
    ensures
        ({
            let cx = block_cx(ops, cfg);
            &&& good_cx(cx)
            &&& forall|i: int|
                #![trigger ops[i]]
                0 <= i < ops.len() ==> known_op(cx, ops[i]) && (spec_helper_dest(
                    ops[i],
                ) matches Some(rd) ==> known(cx, rd) && !cx.lifted.contains(rd))
        }),
{
    let cx = block_cx(ops, cfg);
    let code = code_regs(ops);
    let dests = helper_dests(ops);
    let all = with_regs(code, dests);
    lemma_with_regs(code, dests);
    lemma_select(code, dests, MAX_LIFTED as nat);
    if cfg.lift && spread(all) {
        assert(spread(code)) by {
            assert forall|i: int, j: int|
                0 <= i < code.len() && 0 <= j < code.len() && i != j implies apart(
                #[trigger] code[i],
                #[trigger] code[j],
            ) by {
                assert(all[i] == code[i] && all[j] == code[j]);
                assert(apart(all[i], all[j]));
            }
        }
        assert forall|r: u32| all.contains(r) implies known(cx, r) by {
            if !cx.lifted.contains(r) {
                assert forall|i: int| 0 <= i < cx.lifted.len() implies apart(
                    r,
                    #[trigger] cx.lifted[i],
                ) by {
                    let l = cx.lifted[i];
                    assert(cx.lifted.contains(l));
                    assert(code.contains(l));
                    assert(all.contains(l));
                    let p = choose|p: int| 0 <= p < all.len() && all[p] == l;
                    let q = choose|q: int| 0 <= q < all.len() && all[q] == r;
                    assert(apart(all[q], all[p]));
                }
            }
        }
    }
    assert forall|i: int| #![trigger ops[i]] 0 <= i < ops.len() implies known_op(cx, ops[i]) && (
    spec_helper_dest(ops[i]) matches Some(rd) ==> known(cx, rd) && !cx.lifted.contains(rd)) by {
        lemma_op_regs(ops, i);
        assert forall|j: int| 0 <= j < spec_reads(ops[i]).len() implies known(
            cx,
            #[trigger] spec_reads(ops[i])[j],
        ) by {
            assert(all.contains(spec_reads(ops[i])[j]));
        }
        if let Some(rd) = spec_written(ops[i]) {
            assert(all.contains(rd));
        }
        if let Some(rd) = spec_helper_dest(ops[i]) {
            let n = choose|n: int| 0 <= n < dests.len() && dests[n] == rd;
            assert(all.contains(dests[n]));
            if cx.lifted.contains(rd) {
                let m = choose|m: int| 0 <= m < cx.lifted.len() && cx.lifted[m] == rd;
                assert(!dests.contains(cx.lifted[m]));
            }
        }
    }
}

/// **What a helper writes stays in memory.** A register that is kept in a local shares no byte
/// with the destination of any load or atomic of the block, other than x0: the helper writes
/// the destination in the state, behind the back of the compiled code. At most 32 registers are
/// kept in locals, each once, and none where lifting is off.
pub proof fn law_lifted_apart(ops: Seq<Op>, lift: bool, i: int, r: u32)
    requires
        0 <= i < ops.len(),
        lifted_regs(ops, lift).contains(r),
    ensures
        lift,
        lifted_regs(ops, lift).len() <= 32,
        lifted_regs(ops, lift).no_duplicates(),
        match ops[i] {
            Op::Load { rd, .. } | Op::Amo { rd, .. } => rd != 0 ==> r + 8 <= rd || rd + 8 <= r,
            _ => true,
        },
{
    let cfg = Config { start_pc: 0, end_pc: 0, n_insns: 0, tlb: None, chain: None, lift };
    let lifted = lifted_regs(ops, lift);
    lemma_lifted(ops, cfg);
    lemma_select(code_regs(ops), helper_dests(ops), MAX_LIFTED as nat);
    let n = choose|n: int| 0 <= n < lifted.len() && lifted[n] == r;
    assert(lifted == block_cx(ops, cfg).lifted);
    assert(known_op(block_cx(ops, cfg), ops[i]));
    assert forall|p: int, q: int| 0 <= p < q < lifted.len() implies lifted[p] != lifted[q] by {
        assert(apart(lifted[p], lifted[q]));
    }
    match ops[i] {
        Op::Load { rd, .. } | Op::Amo { rd, .. } => {
            if rd != 0 {
                assert(apart(rd, lifted[n]));
            }
        },
        _ => {},
    }
}

// Operations that leave the block.

proof fn lemma_jal(at: At, op: Op, cfg: Config) -> (f: Frame)
    requires
        ready(at, op, cfg),
        op is Jal,
    ensures
        at.done(op, cfg, at.run(op_code(op, at.cx, at.dirty, at.k)), f),
{
    reveal(op_code);
    reveal(op_step);
    let (rd, target) = (op->Jal_rd, op->Jal_target_pc);
    let k = instr(Instr::I64Const(target), at.k);
    let at2 = At { k, ..at };
    lemma_const64(at.cx.end_pc);
    let f = if rd != 0 {
        lemma_const_reg(at2, rd, at.cx.end_pc as i64);
        after_write(at.cx, rd, at.cx.end_pc, at.f, at.sp)
    } else {
        at.f
    };
    lemma_run_cons(Instr::I64Const(target), Box::new(at.k), at.s, f, at.env);
    f
}

/// The target of an indirect jump, in local 1.
proof fn lemma_target(at: At, rs1: u32, imm: i64, k: Code, a: u64)
    requires
        at.ok(),
        known(at.cx, rs1),
        reg(at.w, at.sp, rs1) == Some(a),
    ensures
        ({
            let sum = u64w(a + imm);
            let pc = (sum - sum % 2) as u64;
            at.run(
                shape::get_reg(
                    at.cx,
                    rs1,
                    instr(
                        Instr::I64Const(imm),
                        instr(
                            Instr::I64Bin(IntBin::Add),
                            instr(
                                Instr::I64Const(-2i64),
                                instr(
                                    Instr::I64Bin(IntBin::And),
                                    instr(Instr::LocalSet(1), k),
                                ),
                            ),
                        ),
                    ),
                ),
            ) == run(
                k,
                at.s,
                Frame { locals: at.f.locals.update(1, Val::I64(pc)), ..at.f },
                at.env,
            )
        }),
{
    broadcast use lemma_run_cons, group_rel;

    let sum = u64w(a + imm);
    lemma_u64w_add(a as int, imm as int);
    assert(sum & 0xffff_ffff_ffff_fffe == sum - sum % 2) by (bit_vector);
    assert(u64w(-2) == 0xffff_ffff_ffff_fffe);
}

proof fn lemma_jalr(at: At, op: Op, cfg: Config) -> (f: Frame)
    requires
        ready(at, op, cfg),
        op is Jalr,
    ensures
        at.done(op, cfg, at.run(op_code(op, at.cx, at.dirty, at.k)), f),
{
    reveal(op_code);
    reveal(op_step);
    let (rd, rs1, imm) = (op->Jalr_rd, op->Jalr_rs1, op->Jalr_imm);
    assert(spec_reads(op) == seq![rs1]);
    assert(known(at.cx, spec_reads(op)[0]));
    let last = instr(Instr::LocalGet(1), at.k);
    let k = shape::link(at.cx, rd, last);
    match reg(at.w, at.sp, rs1) {
        Some(a) => {
            let sum = u64w(a + imm);
            let pc = (sum - sum % 2) as u64;
            let v = Val::I64(pc);
            lemma_target(at, rs1, imm, k, a);
            let f1 = Frame { locals: at.f.locals.update(1, v), ..at.f };
            lemma_rel_locals(at.f, at.w, at.cx, at.dirty, at.sp);
            lemma_rel_scratch(at.f, at.w, at.cx, at.dirty, at.sp, 1, v);
            let at2 = At { f: f1, k: last, ..at };
            lemma_const64(at.cx.end_pc);
            let f = if rd != 0 {
                lemma_const_reg(at2, rd, at.cx.end_pc as i64);
                after_write(at.cx, rd, at.cx.end_pc, f1, at.sp)
            } else {
                f1
            };
            shape::lemma_pos(at.cx.lifted, rd);
            lemma_run_cons(Instr::LocalGet(1), Box::new(at.k), at.s, f, at.env);
            f
        },
        None => {
            assert(at.run(op_code(op, at.cx, at.dirty, at.k)) is Trap) by {
                broadcast use group_rel;

            }
            at.f
        },
    }
}

/// A conditional branch.
proof fn lemma_branch_run(at: At, rs1: u32, rs2: u32, target: i64, op: IntRel)
    requires
        at.ok(),
        known(at.cx, rs1),
        known(at.cx, rs2),
    ensures
        at.run(shape::branch(at.cx, rs1, rs2, target, op, at.k)) == match (
            reg(at.w, at.sp, rs1),
            reg(at.w, at.sp, rs2),
        ) {
            (Some(a), Some(b)) => run(
                at.k,
                push64(
                    if rel64(op, a, b) {
                        u64w(target as int)
                    } else {
                        at.cx.end_pc
                    },
                    at.s,
                ),
                at.f,
                at.env,
            ),
            _ => Outcome::Trap,
        },
{
    broadcast use group_run, group_rel, lemma_const64;

}

proof fn lemma_branch(at: At, op: Op, cfg: Config)
    requires
        ready(at, op, cfg),
        spec_is_terminator(op),
        !(op is Jal),
        !(op is Jalr),
    ensures
        at.done(op, cfg, at.run(op_code(op, at.cx, at.dirty, at.k)), at.f),
{
    reveal(op_code);
    reveal(op_step);
    assert(known(at.cx, spec_reads(op)[0]));
    assert(known(at.cx, spec_reads(op)[1]));
    let (rs1, rs2) = (spec_reads(op)[0], spec_reads(op)[1]);
    match op {
        Op::Beq { target_pc, .. } => lemma_branch_run(at, rs1, rs2, target_pc, IntRel::Eq),
        Op::Bne { target_pc, .. } => lemma_branch_run(at, rs1, rs2, target_pc, IntRel::Ne),
        Op::Blt { target_pc, .. } => lemma_branch_run(at, rs1, rs2, target_pc, IntRel::LtS),
        Op::Bge { target_pc, .. } => lemma_branch_run(at, rs1, rs2, target_pc, IntRel::GeS),
        Op::Bltu { target_pc, .. } => lemma_branch_run(at, rs1, rs2, target_pc, IntRel::LtU),
        Op::Bgeu { target_pc, .. } => lemma_branch_run(at, rs1, rs2, target_pc, IntRel::GeU),
        _ => {},
    }
}

/// Any operation: its code does what the guest's instruction does.
pub proof fn lemma_op(at: At, op: Op, cfg: Config) -> (f: Frame)
    requires
        ready(at, op, cfg),
        spec_is_wide(op) ==> at.cx.lift_base > FIXED_LOCALS,
    ensures
        at.done(op, cfg, at.run(op_code(op, at.cx, at.dirty, at.k)), f),
{
    match op {
        Op::Load { .. } => if cfg.tlb is Some {
            lemma_load_probed(at, op, cfg)
        } else {
            lemma_load_helped(at, op, cfg)
        },
        Op::Store { .. } => if cfg.tlb is Some {
            lemma_store_probed(at, op, cfg)
        } else {
            lemma_store_helped(at, op, cfg)
        },
        Op::Amo { .. } => lemma_amo(at, op, cfg),
        Op::MulDiv { op: md, rd, rs1, rs2 } => {
            reveal(op_code);
            reveal(op_step);
            assert(spec_reads(op) == seq![rs1, rs2]);
            assert(known(at.cx, spec_reads(op)[0]));
            assert(known(at.cx, spec_reads(op)[1]));
            let f = lemma_mul_div(at, md, rd, rs1, rs2);
            match (reg(at.w, at.sp, rs1), reg(at.w, at.sp, rs2)) {
                (Some(a), Some(b)) => after_write(
                    at.cx,
                    rd,
                    crate::guest::mul_div_value(md, a, b),
                    f,
                    at.sp,
                ),
                _ => f,
            }
        },
        Op::Jal { .. } => lemma_jal(at, op, cfg),
        Op::Jalr { .. } => lemma_jalr(at, op, cfg),
        _ => if spec_is_terminator(op) {
            lemma_branch(at, op, cfg);
            at.f
        } else {
            lemma_alu(at, op, cfg)
        },
    }
}

// Sequences of operations.

/// That lifted registers are in locals goes unnoticed by the operations from `i` on, where
/// `dirty` are those that have been written before.
pub open spec fn run_safe(
    ops: Seq<Op>,
    i: int,
    cfg: Config,
    w: World,
    sp: u32,
    env: Env,
    dirty: Seq<u32>,
) -> bool
    decreases ops.len() - i,
{
    let cx = block_cx(ops, cfg);
    if 0 <= i < ops.len() {
        &&& op_safe(ops[i], cfg, w, sp, env, cx.lifted, dirty)
        &&& op_step(ops[i], cfg, w, sp, env) matches Step::Next(w2) ==> run_safe(
            ops,
            i + 1,
            cfg,
            w2,
            sp,
            env,
            mark(cx, dirty, ops[i]),
        )
    } else {
        true
    }
}

/// Without registers no call looks at one.
proof fn lemma_no_regs_quiet(call: HelperCall, w: World, sp: u32, env: Env)
    ensures
        quiet(env, call, w, Seq::empty(), Seq::empty(), sp),
{
    let regs = Seq::<u32>::empty();
    assert forall|w1: World|
        #![trigger after_call(env, call, w1)]
        #![trigger call_result(env, call, w1)]
        w1.calls == w.calls && agree(w1.mem, w.mem, regs, sp) implies {
        &&& call_result(env, call, w1) == call_result(env, call, w)
        &&& agree(after_call(env, call, w1).mem, after_call(env, call, w).mem, regs, sp)
    } by {
        assert(w1.mem =~= w.mem);
        assert(w1 == w);
    }
}

/// Without registers there is nothing to notice.
proof fn lemma_no_regs_safe(ops: Seq<Op>, i: int, cfg: Config, w: World, sp: u32, env: Env)
    requires
        lifted_regs(ops, cfg.lift) == Seq::<u32>::empty(),
    ensures
        run_safe(ops, i, cfg, w, sp, env, Seq::empty()),
    decreases ops.len() - i,
{
    if 0 <= i < ops.len() {
        if let Some(call) = op_call(ops[i], cfg, w, sp) {
            lemma_no_regs_quiet(call, w, sp, env);
        }
        if let Step::Next(w2) = op_step(ops[i], cfg, w, sp, env) {
            lemma_no_regs_safe(ops, i + 1, cfg, w2, sp, env);
        }
    }
}

/// The code that follows the operations and their next pc.
spec fn after_ops(ops: Seq<Op>, cfg: Config) -> Code {
    let cx = block_cx(ops, cfg);
    let tail = match cfg.chain {
        Some(chain) => shape::epilogue(chain, Code::Nil),
        None => Code::Nil,
    };
    spill(cx, mark_all(ops, 0, cx, Seq::empty()), tail)
}

/// The operations from `i` on.
proof fn lemma_ops(
    ops: Seq<Op>,
    i: int,
    cfg: Config,
    dirty: Seq<u32>,
    f: Frame,
    env: Env,
    w: World,
    sp: u32,
) -> (f2: Frame)
    requires
        0 <= i <= ops.len(),
        well_ended(ops),
        cfg.suits(ops),
        env.imports == used_helpers(ops),
        rel(f, w, block_cx(ops, cfg), dirty, sp),
        run_safe(ops, i, cfg, w, sp, env, dirty),
        i == ops.len() && i > 0 ==> !ends_with_terminator(ops),
    ensures
        ({
            let cx = block_cx(ops, cfg);
            let out = run(
                ops_code(ops, i, cx, dirty, exit_code(ops, cfg)),
                Stack::Empty,
                f,
                env,
            );
            match ops_run(ops, i, cfg, w, sp, env) {
                Step::Exit(pc, w2) => {
                    &&& out == run(after_ops(ops, cfg), push64(pc, Stack::Empty), f2, env)
                    &&& rel(f2, w2, cx, mark_all(ops, i, cx, dirty), sp)
                },
                Step::Fault(pc, w2) => out == Outcome::Return(pc, w2),
                Step::Trap => out is Trap,
                Step::Next(_) => false,
            }
        }),
    decreases ops.len() - i,
{
    let cx = block_cx(ops, cfg);
    if i == ops.len() {
        lemma_const64(cfg.end_pc);
        lemma_run_cons(
            Instr::I64Const(cfg.end_pc as i64),
            Box::new(after_ops(ops, cfg)),
            Stack::Empty,
            f,
            env,
        );
        f
    } else {
        let op = ops[i];
        let d2 = mark(cx, dirty, op);
        let k = ops_code(ops, i + 1, cx, d2, exit_code(ops, cfg));
        let at = At { cx, dirty, k, s: Stack::Empty, f, env, w, sp };
        lemma_lifted(ops, cfg);
        law_used_helpers(ops);
        if let Some(id) = spec_helper_id(op) {
            assert(calls_helper(ops, id));
        }
        if spec_is_wide(op) {
            assert(wide(ops));
        }
        let f1 = lemma_op(at, op, cfg);
        match op_step(op, cfg, w, sp, env) {
            Step::Next(w2) => {
                assert(!spec_is_terminator(op)) by {
                    lemma_step_kind(op, cfg, w, sp, env);
                }
                lemma_ops(ops, i + 1, cfg, d2, f1, env, w2, sp)
            },
            Step::Exit(pc, w2) => {
                lemma_step_kind(op, cfg, w, sp, env);
                assert(i == ops.len() - 1);
                assert(k == exit_code(ops, cfg));
                assert(mark_all(ops, i + 1, cx, d2) == d2);
                assert(exit_code(ops, cfg) == after_ops(ops, cfg));
                f1
            },
            _ => f1,
        }
    }
}

/// Terminators, and only they, choose the next pc.
pub proof fn lemma_step_kind(op: Op, cfg: Config, w: World, sp: u32, env: Env)
    ensures
        op_step(op, cfg, w, sp, env) is Next ==> !spec_is_terminator(op),
        op_step(op, cfg, w, sp, env) is Exit ==> spec_is_terminator(op),
{
    reveal(op_step);
}

/// Code that reads the lifted registers into their locals.
proof fn lemma_fill(cx: Cx, n: nat, k: Code, f: Frame, env: Env, sp: u32) -> (f2: Frame)
    requires
        n <= cx.lifted.len(),
        cx.lifted.len() <= 32,
        cx.lift_base <= 5,
        f.locals.len() == cx.lift_base + cx.lifted.len(),
        cx.lift_base > 0,
        f.locals[0] == Val::I32(sp),
        forall|i: int| 0 <= i < n ==> reg(f.world, sp, #[trigger] cx.lifted[i]) is Some,
    ensures
        run(fill(cx, n, k), Stack::Empty, f, env) == run(k, Stack::Empty, f2, env),
        f2.world == f.world,
        f2.locals.len() == f.locals.len(),
        f2.locals[0] == Val::I32(sp),
        forall|i: int|
            0 <= i < n ==> f2.locals[cx.lift_base + i] == Val::I64(
                reg(f.world, sp, #[trigger] cx.lifted[i])->0,
            ),
    decreases n,
{
    if n == 0 {
        f
    } else {
        let m = (n - 1) as nat;
        let r = cx.lifted[m as int];
        let local = (cx.lift_base + m) as u32;
        let one = shape::load_reg(r, instr(Instr::LocalSet(local), k));
        let f1 = lemma_fill(cx, m, one, f, env, sp);
        assert(reg(f.world, sp, cx.lifted[m as int]) is Some);
        let v = Val::I64(reg(f.world, sp, r)->0);
        let f2 = Frame { locals: f1.locals.update(local as int, v), ..f1 };
        assert(run(one, Stack::Empty, f1, env) == run(k, Stack::Empty, f2, env)) by {
            broadcast use lemma_run_cons;

        }
        f2
    }
}

/// The same, where one of them is out of bounds.
proof fn lemma_fill_trap(cx: Cx, n: nat, k: Code, f: Frame, env: Env, sp: u32)
    requires
        n <= cx.lifted.len(),
        cx.lifted.len() <= 32,
        cx.lift_base <= 5,
        f.locals.len() == cx.lift_base + cx.lifted.len(),
        cx.lift_base > 0,
        f.locals[0] == Val::I32(sp),
        exists|i: int| 0 <= i < n && reg(f.world, sp, #[trigger] cx.lifted[i]) is None,
    ensures
        run(fill(cx, n, k), Stack::Empty, f, env) is Trap,
    decreases n,
{
    let m = (n - 1) as nat;
    let r = cx.lifted[m as int];
    let one = shape::load_reg(r, instr(Instr::LocalSet((cx.lift_base + m) as u32), k));
    if exists|i: int| 0 <= i < m && reg(f.world, sp, #[trigger] cx.lifted[i]) is None {
        lemma_fill_trap(cx, m, one, f, env, sp);
    } else {
        let f1 = lemma_fill(cx, m, one, f, env, sp);
        assert(run(one, Stack::Empty, f1, env) is Trap) by {
            broadcast use lemma_run_cons;

        }
    }
}

/// Locals as a call finds them: zero, in groups of one type.
pub open spec fn zeros(groups: Seq<(u32, ValTy)>) -> Seq<Val>
    decreases groups.len(),
{
    if groups.len() == 0 {
        Seq::empty()
    } else {
        let (n, ty) = groups.last();
        zeros(groups.drop_last()) + Seq::new(
            n as nat,
            |i: int|
                match ty {
                    ValTy::I32 => Val::I32(0),
                    ValTy::I64 => Val::I64(0),
                },
        )
    }
}

/// The frame in which a block is entered: its argument, the state pointer, is local 0.
pub open spec fn entry_frame(ops: Seq<Op>, cfg: Config, w: World, sp: u32) -> Frame {
    Frame { locals: seq![Val::I32(sp)] + zeros(block_locals(ops, cfg.lift)), world: w }
}

proof fn lemma_entry_locals(ops: Seq<Op>, cfg: Config)
    ensures
        zeros(block_locals(ops, cfg.lift)).len() + 1 == block_cx(ops, cfg).lift_base + block_cx(
            ops,
            cfg,
        ).lifted.len(),
{
    let n = lifted_regs(ops, cfg.lift).len();
    lemma_lifted(ops, cfg);
    let fixed = seq![(2u32, ValTy::I64), (1u32, ValTy::I32)];
    assert(fixed.drop_last() =~= seq![(2u32, ValTy::I64)]);
    assert(seq![(2u32, ValTy::I64)].drop_last() =~= Seq::empty());
    reveal_with_fuel(zeros, 3);
    assert(zeros(fixed).len() == 3);
    let scratch = if wide(ops) {
        fixed.push((1u32, ValTy::I64))
    } else {
        fixed
    };
    assert(fixed.push((1u32, ValTy::I64)).drop_last() =~= fixed);
    assert(zeros(scratch).len() + 1 == block_cx(ops, cfg).lift_base);
    assert(scratch.push((n as u32, ValTy::I64)).drop_last() =~= scratch);
}

/// The registers are in bounds.
pub open spec fn regs_in_bounds(regs: Seq<u32>, w: World, sp: u32) -> bool {
    forall|i: int| 0 <= i < regs.len() ==> sp + #[trigger] regs[i] + 8 <= w.mem.len()
}

/// What is asked where registers are lifted. They are in bounds, since a block reads them all
/// on entry, unless its operations run out of bounds too. The helpers that the block calls,
/// and its accesses through the TLB, look at none that the block has written by then and
/// change none. Of a block that lifts none nothing is asked.
pub open spec fn liftable(ops: Seq<Op>, cfg: Config, w: World, sp: u32, env: Env) -> bool {
    let regs = lifted_regs(ops, cfg.lift);
    regs.len() > 0 ==> (entered(cfg, w, sp) matches Some(w2) ==> if regs_in_bounds(regs, w, sp) {
        run_safe(ops, 0, cfg, w2, sp, env, Seq::empty())
    } else {
        block_run(ops, cfg, w, sp, env) is Trap
    })
}

/// The world after a block has charged the cycle budget, if it does.
pub open spec fn entered(cfg: Config, w: World, sp: u32) -> Option<World> {
    match cfg.chain {
        Some(chain) => charged(chain, cfg.n_insns, w, sp),
        None => Some(w),
    }
}

/// **Compiled blocks are correct.** Running the code of a block ends as the block's
/// instructions do: with the same next pc and the same memory and helper calls, by
/// returning to the dispatcher or by hopping to the next block; and it gets stuck in no
/// state.
pub proof fn law_block(ops: Seq<Op>, cfg: Config, w: World, sp: u32, env: Env)
    requires
        well_ended(ops),
        cfg.suits(ops),
        env.imports == used_helpers(ops),
        liftable(ops, cfg, w, sp, env),
    ensures
        finish(
            run(block_code(ops, cfg), Stack::Empty, entry_frame(ops, cfg, w, sp), env),
        ) == block_run(ops, cfg, w, sp, env),
{
    let cx = block_cx(ops, cfg);
    let regs = lifted_regs(ops, cfg.lift);
    let f0 = entry_frame(ops, cfg, w, sp);
    let k = ops_code(ops, 0, cx, Seq::empty(), exit_code(ops, cfg));
    let body = fill(cx, cx.lifted.len(), k);
    lemma_lifted(ops, cfg);
    lemma_entry_locals(ops, cfg);
    assert(f0.locals[0] == Val::I32(sp));
    if let Some(chain) = cfg.chain {
        lemma_charge(chain, cfg.n_insns, body, Stack::Empty, f0, env, sp);
    }
    if let Some(w1) = entered(cfg, w, sp) {
        assert(w1.mem.len() == w.mem.len()) by {
            if let Some(chain) = cfg.chain {
                let n = crate::machine::load32(w.mem, sp + chain.n_cycles_off)->0;
                crate::relate::lemma_store(
                    w.mem,
                    sp + chain.n_cycles_off,
                    4,
                    crate::arith::u32w(n - cfg.n_insns) as nat,
                );
            }
        }
        let f1 = Frame { world: w1, ..f0 };
        if regs_in_bounds(regs, w, sp) {
            assert forall|i: int| 0 <= i < cx.lifted.len() implies reg(
                w1,
                sp,
                #[trigger] cx.lifted[i],
            ) is Some by {
                assert(sp + regs[i] + 8 <= w.mem.len());
            }
            let f2 = lemma_fill(cx, cx.lifted.len(), k, f1, env, sp);
            assert(rel(f2, w1, cx, Seq::empty(), sp)) by {
                reveal(rel);
            }
            if regs.len() == 0 {
                assert(regs =~= Seq::empty());
                lemma_no_regs_safe(ops, 0, cfg, w1, sp, env);
            }
            let f3 = lemma_ops(ops, 0, cfg, Seq::empty(), f2, env, w1, sp);
            if let Step::Exit(pc, w2) = ops_run(ops, 0, cfg, w1, sp, env) {
                let tail = match cfg.chain {
                    Some(chain) => shape::epilogue(chain, Code::Nil),
                    None => Code::Nil,
                };
                let s = push64(pc, Stack::Empty);
                let dirty = mark_all(ops, 0, cx, Seq::empty());
                let f4 = lemma_spill(cx, dirty, tail, s, f3, env, w2, sp);
                assert(f4.locals.len() >= 4 && f4.locals[0] == Val::I32(sp)) by {
                    broadcast use group_rel;

                }
                match cfg.chain {
                    Some(chain) => lemma_epilogue(chain, f4, env, sp, pc),
                    None => lemma_run_nil(s, f4, env),
                }
            }
        } else {
            let i = choose|i: int|
                0 <= i < regs.len() && sp + #[trigger] regs[i] + 8 > w.mem.len();
            assert(reg(w1, sp, cx.lifted[i]) is None);
            lemma_fill_trap(cx, cx.lifted.len(), k, f1, env, sp);
        }
    }
}

} // verus!
