//! Which registers a block keeps in locals, and why nobody notices.

use vstd::prelude::*;
use crate::access::{kept, op_call, op_clear, op_safe, quiet};
use crate::block::{entered, law_lifted_apart, liftable, run_safe};
use crate::guest::{op_step, Step};
use crate::ir::Op;
use crate::machine::{after_call, call_result, store, Env, HelperCall, World};
use crate::meaning::there;
use crate::places::{held, inside, lemma_sums};
use crate::reach::{
    accessed, lemma_addr, lemma_lookup, lemma_probed, mapped, probed, tagged, width,
};
use crate::relate::{agree, covers, lemma_store, some_of};
use crate::shape::{
    apart, block_cx, code_regs, helper_dests, lifted_regs, load_bytes, mark, option_seq, select,
    spec_helper_dest, spec_reads, spec_written, spread, store_bytes, with_regs, Config, TlbLayout,
    MAX_LIFTED,
};

verus! {

/// The code of the operation reads or writes the register itself.
pub open spec fn in_code(op: Op, r: u32) -> bool {
    match op {
        Op::Const { rd, .. } => r == rd,
        Op::Addi { rd, rs1, .. } | Op::Addiw { rd, rs1, .. } | Op::Andi { rd, rs1, .. }
        | Op::Ori { rd, rs1, .. } | Op::Xori { rd, rs1, .. } | Op::Slti { rd, rs1, .. }
        | Op::Sltiu { rd, rs1, .. } | Op::Slli { rd, rs1, .. } | Op::Srli { rd, rs1, .. }
        | Op::Srai { rd, rs1, .. } | Op::Slliw { rd, rs1, .. } | Op::Srliw { rd, rs1, .. }
        | Op::Sraiw { rd, rs1, .. } => r == rd || r == rs1,
        Op::Add { rd, rs1, rs2 } | Op::Sub { rd, rs1, rs2 } | Op::And { rd, rs1, rs2 }
        | Op::Or { rd, rs1, rs2 } | Op::Xor { rd, rs1, rs2 } | Op::Sll { rd, rs1, rs2 }
        | Op::Srl { rd, rs1, rs2 } | Op::Sra { rd, rs1, rs2 } | Op::Slt { rd, rs1, rs2 }
        | Op::Sltu { rd, rs1, rs2 } | Op::Addw { rd, rs1, rs2 } | Op::Subw { rd, rs1, rs2 }
        | Op::Sllw { rd, rs1, rs2 } | Op::Srlw { rd, rs1, rs2 } | Op::Sraw { rd, rs1, rs2 }
        | Op::MulDiv { rd, rs1, rs2, .. } => r == rd || r == rs1 || r == rs2,
        Op::Jal { rd, .. } => rd != 0 && r == rd,
        Op::Jalr { rd, rs1, .. } => (rd != 0 && r == rd) || r == rs1,
        Op::Beq { rs1, rs2, .. } | Op::Bne { rs1, rs2, .. } | Op::Blt { rs1, rs2, .. }
        | Op::Bge { rs1, rs2, .. } | Op::Bltu { rs1, rs2, .. } | Op::Bgeu { rs1, rs2, .. }
        | Op::Store { rs1, rs2, .. } | Op::Amo { rs1, rs2, .. } => r == rs1 || r == rs2,
        Op::Load { rs1, .. } => r == rs1,
    }
}

/// The helper of the operation writes the register.
pub open spec fn by_helper(op: Op, r: u32) -> bool {
    match op {
        Op::Load { rd, .. } | Op::Amo { rd, .. } => rd != 0 && r == rd,
        _ => false,
    }
}

/// Some operation of the block has to do with the register.
pub open spec fn named(ops: Seq<Op>, r: u32) -> bool {
    exists|i: int|
        #![trigger ops[i]]
        0 <= i < ops.len() && (in_code(ops[i], r) || by_helper(ops[i], r))
}

proof fn lemma_union(s: Seq<u32>, xs: Seq<u32>)
    ensures
        forall|x: u32| #[trigger]
            with_regs(s, xs).contains(x) <==> s.contains(x) || xs.contains(x),
        s.no_duplicates() ==> with_regs(s, xs).no_duplicates(),
    decreases xs.len(),
{
    if xs.len() > 0 {
        let init = xs.drop_last();
        let r = with_regs(s, init);
        let t = with_regs(s, xs);
        lemma_union(s, init);
        assert forall|x: u32| #[trigger] t.contains(x) <==> s.contains(x) || xs.contains(x) by {
            assert(xs.contains(x) <==> init.contains(x) || x == xs.last()) by {
                if init.contains(x) {
                    let i = choose|i: int| 0 <= i < init.len() && init[i] == x;
                    assert(xs[i] == x);
                }
                assert(xs[xs.len() - 1] == xs.last());
                if xs.contains(x) && x != xs.last() {
                    let i = choose|i: int| 0 <= i < xs.len() && xs[i] == x;
                    assert(init[i] == x);
                }
            }
            assert(t.contains(x) <==> r.contains(x) || x == xs.last()) by {
                if r.contains(x) {
                    let i = choose|i: int| 0 <= i < r.len() && r[i] == x;
                    assert(t[i] == x);
                }
                if !r.contains(xs.last()) {
                    assert(t[r.len() as int] == xs.last());
                }
            }
        }
    }
}

proof fn lemma_origins(ops: Seq<Op>)
    ensures
        forall|x: u32|
            code_regs(ops).contains(x) <==> exists|i: int|
                #![trigger ops[i]]
                0 <= i < ops.len() && in_code(ops[i], x),
        forall|x: u32|
            helper_dests(ops).contains(x) <==> exists|i: int|
                #![trigger ops[i]]
                0 <= i < ops.len() && by_helper(ops[i], x),
        code_regs(ops).no_duplicates(),
    decreases ops.len(),
{
    if ops.len() > 0 {
        let init = ops.drop_last();
        let op = ops.last();
        lemma_origins(init);
        let a = with_regs(code_regs(init), spec_reads(op));
        lemma_union(code_regs(init), spec_reads(op));
        lemma_union(a, option_seq(spec_written(op)));
        lemma_union(helper_dests(init), option_seq(spec_helper_dest(op)));
        assert forall|x: u32|
            in_code(op, x) <==> spec_reads(op).contains(x) || option_seq(
                spec_written(op),
            ).contains(x) by {
            lemma_op_names(op, x);
        }
        assert forall|x: u32|
            by_helper(op, x) <==> option_seq(spec_helper_dest(op)).contains(x) by {
            if let Some(rd) = spec_helper_dest(op) {
                assert(seq![rd][0] == rd);
            }
        }
        assert forall|x: u32|
            code_regs(ops).contains(x) <==> exists|i: int|
                #![trigger ops[i]]
                0 <= i < ops.len() && in_code(ops[i], x) by {
            if code_regs(init).contains(x) {
                let i = choose|i: int|
                    #![trigger init[i]]
                    0 <= i < init.len() && in_code(init[i], x);
                assert(ops[i] == init[i]);
            }
            if in_code(op, x) {
                assert(ops[ops.len() - 1] == op);
            }
            if exists|i: int| #![trigger ops[i]] 0 <= i < ops.len() && in_code(ops[i], x) {
                let i = choose|i: int|
                    #![trigger ops[i]]
                    0 <= i < ops.len() && in_code(ops[i], x);
                if i < init.len() {
                    assert(init[i] == ops[i]);
                }
            }
        }
        assert forall|x: u32|
            helper_dests(ops).contains(x) <==> exists|i: int|
                #![trigger ops[i]]
                0 <= i < ops.len() && by_helper(ops[i], x) by {
            if helper_dests(init).contains(x) {
                let i = choose|i: int|
                    #![trigger init[i]]
                    0 <= i < init.len() && by_helper(init[i], x);
                assert(ops[i] == init[i]);
            }
            if by_helper(op, x) {
                assert(ops[ops.len() - 1] == op);
            }
            if exists|i: int| #![trigger ops[i]] 0 <= i < ops.len() && by_helper(ops[i], x) {
                let i = choose|i: int|
                    #![trigger ops[i]]
                    0 <= i < ops.len() && by_helper(ops[i], x);
                if i < init.len() {
                    assert(init[i] == ops[i]);
                }
            }
        }
    }
}

proof fn lemma_op_names(op: Op, x: u32)
    ensures
        in_code(op, x) <==> spec_reads(op).contains(x) || option_seq(spec_written(op)).contains(
            x,
        ),
{
    let s = spec_reads(op);
    if let Some(rd) = spec_written(op) {
        assert(seq![rd][0] == rd);
    }
    if s.len() > 0 {
        assert(s.contains(s[0]));
    }
    if s.len() > 1 {
        assert(s.contains(s[1]));
    }
}

proof fn lemma_selected(s: Seq<u32>, out: Seq<u32>, max: nat)
    ensures
        select(s, out, max).len() < max ==> forall|x: u32|
            s.contains(x) && !out.contains(x) ==> #[trigger] select(s, out, max).contains(x),
        select(s, out, max).len() <= max,
    decreases s.len(),
{
    if s.len() > 0 {
        let init = s.drop_last();
        let r = select(init, out, max);
        let t = select(s, out, max);
        lemma_selected(init, out, max);
        if t.len() < max {
            assert forall|x: u32| s.contains(x) && !out.contains(x) implies #[trigger] t.contains(
                x,
            ) by {
                if x == s.last() {
                    assert(t[t.len() - 1] == x);
                } else {
                    let i = choose|i: int| 0 <= i < s.len() && s[i] == x;
                    assert(init[i] == x);
                    assert(r.contains(x));
                    let j = choose|j: int| 0 <= j < r.len() && r[j] == x;
                    assert(t[j] == x);
                }
            }
        }
    }
}

/// **Every register that can be is lifted.** Where lifting is on and no two registers of the block
/// overlap, a register that the code reads or writes and no helper writes is kept in a local,
/// unless 32 others are; and no other register is.
pub proof fn law_lifts(ops: Seq<Op>, r: u32)
    requires
        forall|a: u32, b: u32|
            #[trigger] named(ops, a) && #[trigger] named(ops, b) && a != b ==> a + 8 <= b || b + 8
                <= a,
        lifted_regs(ops, true).len() < 32,
    ensures
        lifted_regs(ops, true).contains(r) <==> {
            &&& exists|i: int| #![trigger ops[i]] 0 <= i < ops.len() && in_code(ops[i], r)
            &&& forall|i: int|
                #![trigger ops[i]]
                0 <= i < ops.len() ==> !by_helper(ops[i], r)
        },
{
    let code = code_regs(ops);
    let dests = helper_dests(ops);
    let all = with_regs(code, dests);
    lemma_origins(ops);
    lemma_union(code, dests);
    assert(spread(all)) by {
        assert forall|i: int, j: int|
            0 <= i < all.len() && 0 <= j < all.len() && i != j implies apart(
            #[trigger] all[i],
            #[trigger] all[j],
        ) by {
            lemma_named(ops, all[i]);
            lemma_named(ops, all[j]);
            assert(all.contains(all[i]) && all.contains(all[j]));
            assert(named(ops, all[i]) && named(ops, all[j]));
        }
    }
    lemma_selected(code, dests, MAX_LIFTED as nat);
    lemma_from(code, dests, MAX_LIFTED as nat, r);
}

proof fn lemma_from(s: Seq<u32>, out: Seq<u32>, max: nat, x: u32)
    ensures
        select(s, out, max).contains(x) ==> s.contains(x) && !out.contains(x),
    decreases s.len(),
{
    if s.len() > 0 && select(s, out, max).contains(x) {
        let init = s.drop_last();
        let r = select(init, out, max);
        let t = select(s, out, max);
        lemma_from(init, out, max, x);
        let i = choose|i: int| 0 <= i < t.len() && t[i] == x;
        assert(s[s.len() - 1] == s.last());
        if i < r.len() {
            assert(r[i] == x);
            assert(init.contains(x));
            let j = choose|j: int| 0 <= j < init.len() && init[j] == x;
            assert(s[j] == x);
        }
    }
}

proof fn lemma_named(ops: Seq<Op>, x: u32)
    ensures
        with_regs(code_regs(ops), helper_dests(ops)).contains(x) <==> named(ops, x),
{
    lemma_origins(ops);
    lemma_union(code_regs(ops), helper_dests(ops));
    if code_regs(ops).contains(x) {
        let i = choose|i: int| #![trigger ops[i]] 0 <= i < ops.len() && in_code(ops[i], x);
        assert(in_code(ops[i], x));
    }
    if helper_dests(ops).contains(x) {
        let i = choose|i: int| #![trigger ops[i]] 0 <= i < ops.len() && by_helper(ops[i], x);
        assert(by_helper(ops[i], x));
    }
}

/// The register that a call lets the helper write.
pub open spec fn may_write(call: HelperCall, r: u32) -> bool {
    match call {
        HelperCall::Load { rd_off, .. } | HelperCall::Amo { rd_off, .. } => rd_off != 0 && r
            == rd_off,
        HelperCall::Store { .. } => false,
    }
}

/// The byte belongs to one of the block's registers.
pub open spec fn of_register(ops: Seq<Op>, sp: u32, a: int) -> bool {
    exists|r: u32| #[trigger] named(ops, r) && sp + r <= a < sp + r + 8
}

/// The helpers keep to themselves: of the block's registers they write none but the one that they
/// are asked to, and what they answer, write there, and leave in the rest of memory does not
/// depend on what the block's registers hold.
pub open spec fn modest(ops: Seq<Op>, env: Env, sp: u32) -> bool {
    &&& forall|call: HelperCall, w: World, r: u32, a: int|
        #![trigger after_call(env, call, w), named(ops, r), w.mem[a]]
        named(ops, r) && !may_write(call, r) && sp + r <= a < sp + r + 8 && 0 <= a < w.mem.len()
            ==> after_call(env, call, w).mem[a] == w.mem[a]
    &&& forall|call: HelperCall, w: World|
        #![trigger after_call(env, call, w)]
        after_call(env, call, w).mem.len() == w.mem.len()
    &&& forall|call: HelperCall, w1: World, w2: World|
        #![trigger after_call(env, call, w1), after_call(env, call, w2)]
        alike(ops, sp, w1, w2) ==> {
            &&& call_result(env, call, w1) == call_result(env, call, w2)
            &&& forall|a: int|
                #![trigger after_call(env, call, w1).mem[a]]
                0 <= a < w1.mem.len() && (!of_register(ops, sp, a) || exists|r: u32|
                    #[trigger] named(ops, r) && may_write(call, r) && sp + r <= a < sp + r + 8)
                    ==> after_call(env, call, w1).mem[a] == after_call(env, call, w2).mem[a]
        }
}

/// The worlds differ in bytes of the block's registers only.
pub open spec fn alike(ops: Seq<Op>, sp: u32, w1: World, w2: World) -> bool {
    &&& w1.calls == w2.calls
    &&& w1.mem.len() == w2.mem.len()
    &&& forall|a: int|
        #![trigger w1.mem[a]]
        0 <= a < w1.mem.len() && !of_register(ops, sp, a) ==> w1.mem[a] == w2.mem[a]
}

proof fn lemma_quiet(
    ops: Seq<Op>,
    i: int,
    cfg: Config,
    w: World,
    sp: u32,
    env: Env,
    dirty: Seq<u32>,
)
    requires
        0 <= i < ops.len(),
        cfg.lift,
        op_clear(ops[i], cfg, w, sp, lifted_regs(ops, true), dirty),
        lifted_regs(ops, true).len() > 0,
        modest(ops, env, sp),
        some_of(dirty, lifted_regs(ops, true)),
    ensures
        op_safe(ops[i], cfg, w, sp, env, lifted_regs(ops, true), dirty),
{
    let lifted = lifted_regs(ops, true);
    let code = code_regs(ops);
    let dests = helper_dests(ops);
    let all = with_regs(code, dests);
    assert(spread(all));
    if let Some(call) = op_call(ops[i], cfg, w, sp) {
        let after = after_call(env, call, w);
        assert forall|a: int|
            #![trigger after.mem[a]]
            covers(lifted, sp, a) && 0 <= a < w.mem.len() implies a < after.mem.len()
            && after.mem[a] == w.mem[a] by {
            let n = choose|n: int|
                0 <= n < lifted.len() && sp + #[trigger] lifted[n] <= a < sp + lifted[n] + 8;
            let r = lifted[n];
            assert(lifted.contains(r));
            lemma_lifted_named(ops, r);
            law_lifted_apart(ops, true, i, r);
            assert(!may_write(call, r));
            assert(w.mem[a] == w.mem[a]);
        }
        assert(kept(w.mem, after.mem, lifted, sp));
        assert forall|w1: World|
            #![trigger after_call(env, call, w1)]
            #![trigger call_result(env, call, w1)]
            w1.calls == w.calls && agree(w1.mem, w.mem, dirty, sp) implies call_result(
            env,
            call,
            w1,
        ) == call_result(env, call, w) && agree(
            after_call(env, call, w1).mem,
            after_call(env, call, w).mem,
            dirty,
            sp,
        ) by {
            assert(alike(ops, sp, w1, w)) by {
                assert forall|a: int|
                    #![trigger w1.mem[a]]
                    0 <= a < w1.mem.len() && !of_register(ops, sp, a) implies w1.mem[a]
                    == w.mem[a] by {
                    if covers(dirty, sp, a) {
                        let n = choose|n: int|
                            0 <= n < dirty.len() && sp + #[trigger] dirty[n] <= a < sp + dirty[n]
                                + 8;
                        lemma_lifted_named(ops, dirty[n]);
                        assert(named(ops, dirty[n]));
                    }
                }
            }
            let b1 = after_call(env, call, w1);
            assert(b1.mem.len() == after.mem.len());
            assert forall|a: int| 0 <= a < b1.mem.len() && !covers(dirty, sp, a) implies b1.mem[a]
                == after.mem[a] by {
                if of_register(ops, sp, a) {
                    let r = choose|r: u32| #[trigger] named(ops, r) && sp + r <= a < sp + r + 8;
                    if !may_write(call, r) {
                        assert(w1.mem[a] == w.mem[a]);
                        assert(b1.mem[a] == w1.mem[a]);
                        assert(after.mem[a] == w.mem[a]);
                    }
                }
            }
        }
        assert(quiet(env, call, w, lifted, dirty, sp));
    }
}

proof fn lemma_lifted_named(ops: Seq<Op>, r: u32)
    requires
        lifted_regs(ops, true).contains(r),
    ensures
        named(ops, r),
{
    lemma_from(code_regs(ops), helper_dests(ops), MAX_LIFTED as nat, r);
    lemma_union(code_regs(ops), helper_dests(ops));
    lemma_named(ops, r);
}

/// The accesses of the operations from `i` on go unnoticed, one after the other.
pub open spec fn run_clear(
    ops: Seq<Op>,
    i: int,
    cfg: Config,
    w: World,
    sp: u32,
    env: Env,
    dirty: Seq<u32>,
) -> bool
    decreases ops.len() - i,
{
    0 <= i < ops.len() ==> {
        &&& op_clear(ops[i], cfg, w, sp, lifted_regs(ops, true), dirty)
        &&& op_step(ops[i], cfg, w, sp, env) matches Step::Next(w2) ==> run_clear(
            ops,
            i + 1,
            cfg,
            w2,
            sp,
            env,
            mark(block_cx(ops, cfg), dirty, ops[i]),
        )
    }
}

proof fn lemma_no_probes(
    ops: Seq<Op>,
    i: int,
    cfg: Config,
    w: World,
    sp: u32,
    env: Env,
    dirty: Seq<u32>,
)
    requires
        cfg.tlb is None,
    ensures
        run_clear(ops, i, cfg, w, sp, env, dirty),
    decreases ops.len() - i,
{
    if 0 <= i < ops.len() {
        if let Step::Next(w2) = op_step(ops[i], cfg, w, sp, env) {
            let d = mark(block_cx(ops, cfg), dirty, ops[i]);
            lemma_no_probes(ops, i + 1, cfg, w2, sp, env, d);
        }
    }
}

proof fn lemma_run_safe(
    ops: Seq<Op>,
    i: int,
    cfg: Config,
    w: World,
    sp: u32,
    env: Env,
    dirty: Seq<u32>,
)
    requires
        0 <= i,
        cfg.lift,
        run_clear(ops, i, cfg, w, sp, env, dirty),
        lifted_regs(ops, true).len() > 0,
        modest(ops, env, sp),
        some_of(dirty, lifted_regs(ops, true)),
    ensures
        run_safe(ops, i, cfg, w, sp, env, dirty),
    decreases ops.len() - i,
{
    if i < ops.len() {
        let cx = block_cx(ops, cfg);
        lemma_quiet(ops, i, cfg, w, sp, env, dirty);
        if let Step::Next(w2) = op_step(ops[i], cfg, w, sp, env) {
            let d = mark(cx, dirty, ops[i]);
            assert(some_of(d, cx.lifted)) by {
                assert forall|n: int| 0 <= n < d.len() implies cx.lifted.contains(
                    #[trigger] d[n],
                ) by {
                    if n < dirty.len() {
                        assert(d[n] == dirty[n]);
                    }
                }
            }
            lemma_run_safe(ops, i + 1, cfg, w2, sp, env, d);
        }
    }
}

/// **With modest helpers, registers can always be lifted.** A helper that writes no register but
/// the destination that it is given, and looks at none, never notices that registers are in
/// locals: all that is asked for lifting holds, if the registers are in memory and what is
/// accessed through the TLB lies beside them.
pub proof fn law_modest_helpers(ops: Seq<Op>, cfg: Config, w: World, sp: u32, env: Env)
    requires
        modest(ops, env, sp),
        forall|r: u32| #[trigger] named(ops, r) ==> inside(w.mem, sp + r, 8),
        cfg.tlb is Some ==> (entered(cfg, w, sp) matches Some(w2) ==> run_clear(
            ops,
            0,
            cfg,
            w2,
            sp,
            env,
            Seq::empty(),
        )),
    ensures
        liftable(ops, cfg, w, sp, env),
{
    let lifted = lifted_regs(ops, cfg.lift);
    if lifted.len() > 0 {
        assert(cfg.lift);
        assert forall|i: int| 0 <= i < lifted.len() implies sp + #[trigger] lifted[i] + 8
            <= w.mem.len() by {
            lemma_lifted_named(ops, lifted[i]);
            assert(named(ops, lifted[i]));
        }
        if let Some(w2) = entered(cfg, w, sp) {
            if cfg.tlb is None {
                lemma_no_probes(ops, 0, cfg, w2, sp, env, Seq::empty());
            }
            lemma_run_safe(ops, 0, cfg, w2, sp, env, Seq::empty());
        }
    }
}

/// No register of these has a byte among the `n` bytes at `at`.
pub open spec fn beside(regs: Seq<u32>, sp: u32, at: int, n: int) -> bool {
    forall|r: u32| #[trigger] regs.contains(r) ==> at + n <= sp + r || sp + r + 8 <= at
}

/// **Accesses beside the registers are fine.** Where the entry of the TLB that a load or store
/// probes, and on a hit the bytes that it accesses, lie beside the registers in locals, the
/// access goes unnoticed, whether it hits or misses; and that is all that is asked of it.
pub proof fn law_beside(
    op: Op,
    t: TlbLayout,
    cfg: Config,
    w: World,
    sp: u32,
    lifted: Seq<u32>,
    dirty: Seq<u32>,
    addr: u64,
    e: u32,
    host: u32,
)
    requires
        cfg.tlb == Some(t),
        t.serves(op),
        some_of(dirty, lifted),
        probed(e, t, addr, sp),
        match op {
            Op::Load { rs1, imm, .. } => there(w, sp, Some(rs1)) && accessed(
                addr,
                held(w.mem, sp + rs1),
                imm as int,
            ),
            Op::Store { rs1, rs2, imm, .. } => there(w, sp, Some(rs1)) && there(w, sp, Some(rs2))
                && accessed(addr, held(w.mem, sp + rs1), imm as int),
            _ => false,
        },
        ({
            let off = if op is Load {
                t.tlb_read_off
            } else {
                t.tlb_write_off
            };
            &&& inside(w.mem, e + off + t.vaddr_off, 8)
            &&& inside(w.mem, e + off + t.addend_off, 4)
            &&& beside(lifted, sp, e + off + t.vaddr_off, 8)
            &&& tagged(e, t, off, width(op), addr, w.mem) ==> mapped(host, e, t, off, addr, w.mem)
                && beside(lifted, sp, e + off + t.addend_off, 4) && beside(
                lifted,
                sp,
                host as int,
                width(op) as int,
            )
        }),
    ensures
        op_clear(op, cfg, w, sp, lifted, dirty),
{
    let off = if op is Load {
        t.tlb_read_off
    } else {
        t.tlb_write_off
    };
    let (rs1, imm) = match op {
        Op::Load { rs1, imm, .. } | Op::Store { rs1, imm, .. } => (rs1, imm),
        _ => (0u32, 0i64),
    };
    lemma_sums(w.mem, sp + rs1);
    lemma_addr(addr, held(w.mem, sp + rs1), imm as int);
    lemma_lookup(t, off, width(op), addr, w.mem, sp, e, host);
    lemma_probed(e, t, addr, sp);
    lemma_sums(w.mem, e + off + t.vaddr_off);
    assert forall|i: int| 0 <= i < dirty.len() implies lifted.contains(#[trigger] dirty[i]) by {}
    match op {
        Op::Load { w: kind, .. } => {
            assert(load_bytes(kind) == width(op));
        },
        Op::Store { w: kind, rs2, .. } => {
            assert(store_bytes(kind) == width(op));
            lemma_sums(w.mem, sp + rs2);
            let val = held(w.mem, sp + rs2);
            if let Some(mem) = store(w.mem, host as int, width(op) as nat, val as nat) {
                lemma_store(w.mem, host as int, width(op) as nat, val as nat);
                if tagged(e, t, off, width(op), addr, w.mem) {
                    assert forall|a: int|
                        #![trigger mem[a]]
                        covers(lifted, sp, a) && 0 <= a < w.mem.len() implies a < mem.len()
                        && mem[a] == w.mem[a] by {
                        let n = choose|n: int|
                            0 <= n < lifted.len() && sp + #[trigger] lifted[n] <= a < sp
                                + lifted[n] + 8;
                        assert(lifted.contains(lifted[n]));
                    }
                }
            }
        },
        _ => {},
    }
}

} // verus!
