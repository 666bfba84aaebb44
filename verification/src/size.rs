//! How long the code of blocks is.

use vstd::prelude::*;
use crate::block::lemma_lifted;
use crate::codegen::{block_body, MAX_IR_LEN};
use crate::encode::{code_len, instr_len, locals_len, sleb_len, uleb_len};
use crate::ir::{ir_ops, MulDivOp, Op, TUPLE_SIZE};
use crate::shape;
use crate::shape::{
    block_code, block_cx, exit_code, fill, mark, mark_all, op_code, ops_code, spill, ChainLayout,
    Config, Cx, Half, MAX_LIFTED,
};
use crate::wasm::{flat, group_flat, instr, Code, Instr, IntBin, ValTy};

verus! {

/// Most instructions of one operation, and of what a block does besides its operations.
pub const OP_INSTRS: usize = 200;

/// The number of instructions of a body, with those that open and close its conditionals.
#[verifier::opaque]
pub open spec fn size(c: Code) -> nat
    decreases c,
{
    match c {
        Code::Nil => 0,
        Code::Cons(_, k) => 1 + size(*k),
        Code::If(_, yes, no, k) => 3 + size(*yes) + size(*no) + size(*k),
    }
}

broadcast proof fn lemma_size_nil()
    ensures
        #[trigger] size(Code::Nil) == 0,
{
    reveal(size);
}

broadcast proof fn lemma_size_cons(i: Instr, k: Box<Code>)
    ensures
        #[trigger] size(Code::Cons(i, k)) == 1 + size(*k),
{
    reveal(size);
}

broadcast proof fn lemma_size_if(ty: Option<ValTy>, yes: Box<Code>, no: Box<Code>, k: Box<Code>)
    ensures
        #[trigger] size(Code::If(ty, yes, no, k)) == 3 + size(*yes) + size(*no) + size(*k),
{
    reveal(size);
}

broadcast group group_size {
    lemma_size_nil,
    lemma_size_cons,
    lemma_size_if,
}

/// A body takes no more instructions than that.
proof fn lemma_flat_len(p: Seq<Instr>, c: Code)
    ensures
        flat(p, c).len() <= p.len() + size(c),
    decreases c,
{
    broadcast use group_flat, group_size;

    match c {
        Code::Nil => {},
        Code::Cons(i, k) => lemma_flat_len(p.push(i), *k),
        Code::If(ty, yes, no, k) => {
            let q = flat(p.push(Instr::If(ty)), *yes);
            lemma_flat_len(p.push(Instr::If(ty)), *yes);
            let r = if *no is Nil {
                q
            } else {
                lemma_flat_len(q.push(Instr::Else), *no);
                flat(q.push(Instr::Else), *no)
            };
            lemma_flat_len(r.push(Instr::End), *k);
        },
    }
}

proof fn lemma_spill(cx: Cx, regs: Seq<u32>, k: Code)
    ensures
        size(spill(cx, regs, k)) <= size(k) + 4 * regs.len(),
    decreases regs.len(),
{
    if regs.len() > 0 {
        let one = shape::spill_one(cx, regs.last(), k);
        assert(size(one) <= size(k) + 4) by {
            broadcast use group_size;

        }
        lemma_spill(cx, regs.drop_last(), one);
    }
}

proof fn lemma_fill(cx: Cx, n: nat, k: Code)
    ensures
        size(fill(cx, n, k)) <= size(k) + 3 * n,
    decreases n,
{
    if n > 0 {
        let local = (cx.lift_base + (n - 1)) as u32;
        let one = shape::load_reg(cx.lifted[n - 1], instr(Instr::LocalSet(local), k));
        assert(size(one) <= size(k) + 3) by {
            broadcast use group_size;

        }
        lemma_fill(cx, (n - 1) as nat, one);
    }
}

broadcast proof fn lemma_get_reg(cx: Cx, r: u32, k: Code)
    ensures
        #[trigger] size(shape::get_reg(cx, r, k)) <= size(k) + 2,
{
    broadcast use group_size;

}

broadcast proof fn lemma_begin_write(cx: Cx, rd: u32, k: Code)
    ensures
        #[trigger] size(shape::begin_write(cx, rd, k)) <= size(k) + 1,
{
    broadcast use group_size;

}

broadcast proof fn lemma_store_reg(cx: Cx, rd: u32, k: Code)
    ensures
        #[trigger] size(shape::store_reg(cx, rd, k)) == size(k) + 1,
{
    broadcast use group_size;

}

broadcast group group_regs {
    lemma_get_reg,
    lemma_begin_write,
    lemma_store_reg,
}

proof fn lemma_fault_check(cx: Cx, dirty: Seq<u32>, pc: u64, k: Code)
    ensures
        size(shape::fault_check(cx, dirty, pc, k)) <= size(k) + 5 + 4 * dirty.len(),
{
    broadcast use group_size;

    let bail = instr(Instr::I64Const((pc | 1) as i64), instr(Instr::Return, Code::Nil));
    lemma_spill(cx, dirty, bail);
}

proof fn lemma_load(op: Op, cx: Cx, dirty: Seq<u32>, k: Code)
    requires
        op is Load,
        dirty.len() <= MAX_LIFTED,
    ensures
        size(op_code(op, cx, dirty, k)) <= size(k) + OP_INSTRS,
{
    broadcast use group_size, group_regs;

    reveal(op_code);
    let pc = shape::fault_pc(cx, op->Load_pc_off);
    lemma_fault_check(cx, dirty, pc, Code::Nil);
    lemma_fault_check(cx, dirty, pc, k);
    if let Some(t) = cx.tlb {
        assert(size(shape::load_fast(t, op->Load_w, op->Load_rd)) <= 8);
    }
}

proof fn lemma_store(op: Op, cx: Cx, dirty: Seq<u32>, k: Code)
    requires
        op is Store,
        dirty.len() <= MAX_LIFTED,
    ensures
        size(op_code(op, cx, dirty, k)) <= size(k) + OP_INSTRS,
{
    broadcast use group_size, group_regs;

    reveal(op_code);
    let pc = shape::fault_pc(cx, op->Store_pc_off);
    lemma_fault_check(cx, dirty, pc, Code::Nil);
    lemma_fault_check(cx, dirty, pc, k);
}

proof fn lemma_amo(op: Op, cx: Cx, dirty: Seq<u32>, k: Code)
    requires
        op is Amo,
        dirty.len() <= MAX_LIFTED,
    ensures
        size(op_code(op, cx, dirty, k)) <= size(k) + OP_INSTRS,
{
    broadcast use group_size, group_regs;

    reveal(op_code);
    lemma_fault_check(cx, dirty, shape::fault_pc(cx, op->Amo_pc_off), k);
}

proof fn lemma_mulhu(k: Code)
    ensures
        size(shape::mulhu(k)) <= size(k) + 50,
{
    broadcast use group_size;

    assert(size(shape::mulhu_upper(k)) <= size(k) + 30);
}

proof fn lemma_sign_fix(a: u32, b: u32, k: Code)
    ensures
        size(shape::sign_fix(a, b, k)) == size(k) + 6,
{
    broadcast use group_size;

}

proof fn lemma_operands(cx: Cx, rs1: u32, rs2: u32, h: Half, k: Code)
    ensures
        size(shape::operands(cx, rs1, rs2, h, k)) <= size(k) + 10,
{
    broadcast use group_size, group_regs;

}

proof fn lemma_divide(cx: Cx, op: MulDivOp, rd: u32, rs1: u32, rs2: u32, k: Code)
    ensures
        size(shape::divide(cx, op, rd, rs1, rs2, k)) <= size(k) + 50,
{
    broadcast use group_size, group_regs;

    let h = shape::spec_half(op);
    let bin = shape::spec_div_op(op);
    let end = shape::store_reg(cx, rd, k);
    let ext = if h is Whole {
        end
    } else {
        shape::extend(Half::Signed, end)
    };
    assert(size(shape::apply12(IntBin::DivS)) == 3);
    assert(size(shape::quotient(bin, h)) <= 14);
    let body = shape::unless_zero(shape::by_zero(bin), shape::quotient(bin, h), ext);
    assert(size(body) <= size(k) + 24);
    lemma_operands(cx, rs1, rs2, h, body);
}

proof fn lemma_mul_div(cx: Cx, op: MulDivOp, rd: u32, rs1: u32, rs2: u32, k: Code)
    ensures
        size(shape::mul_div(cx, op, rd, rs1, rs2, k)) <= size(k) + OP_INSTRS,
{
    let end = shape::store_reg(cx, rd, k);
    let fix = shape::sign_fix(2, 1, end);
    match op {
        MulDivOp::Mul | MulDivOp::Mulw => {
            broadcast use group_size, group_regs;

        },
        MulDivOp::Mulhu | MulDivOp::Mulhsu | MulDivOp::Mulh => {
            broadcast use group_regs;

            let c = if op is Mulhu {
                end
            } else if op is Mulhsu {
                shape::sign_fix(1, 2, end)
            } else {
                shape::sign_fix(1, 2, fix)
            };
            lemma_sign_fix(1, 2, end);
            lemma_sign_fix(2, 1, end);
            lemma_sign_fix(1, 2, fix);
            lemma_mulhu(c);
            lemma_operands(cx, rs1, rs2, Half::Whole, shape::mulhu(c));
        },
        _ => lemma_divide(cx, op, rd, rs1, rs2, k),
    }
}

proof fn lemma_op(op: Op, cx: Cx, dirty: Seq<u32>, k: Code)
    requires
        dirty.len() <= MAX_LIFTED,
    ensures
        size(op_code(op, cx, dirty, k)) <= size(k) + OP_INSTRS,
{
    match op {
        Op::Load { .. } => lemma_load(op, cx, dirty, k),
        Op::Store { .. } => lemma_store(op, cx, dirty, k),
        Op::Amo { .. } => lemma_amo(op, cx, dirty, k),
        Op::MulDiv { op: md, rd, rs1, rs2 } => {
            reveal(op_code);
            lemma_mul_div(cx, md, rd, rs1, rs2, k);
        },
        _ => {
            broadcast use group_size, group_regs;

            reveal(op_code);
        },
    }
}

/// The elements of `s` are different and all in `t`.
spec fn within(s: Seq<u32>, t: Seq<u32>) -> bool {
    &&& s.no_duplicates()
    &&& forall|i: int| 0 <= i < s.len() ==> t.contains(#[trigger] s[i])
}

proof fn lemma_within_len(s: Seq<u32>, t: Seq<u32>)
    requires
        within(s, t),
    ensures
        s.len() <= t.len(),
{
    s.unique_seq_to_set();
    t.lemma_cardinality_of_set();
    assert(s.to_set().subset_of(t.to_set()));
    vstd::set_lib::lemma_len_subset(s.to_set(), t.to_set());
}

proof fn lemma_ops(ops: Seq<Op>, i: int, cx: Cx, dirty: Seq<u32>, k: Code)
    requires
        0 <= i <= ops.len(),
        within(dirty, cx.lifted),
        cx.lifted.len() <= MAX_LIFTED,
    ensures
        size(ops_code(ops, i, cx, dirty, k)) <= size(k) + OP_INSTRS * (ops.len() - i),
        within(mark_all(ops, i, cx, dirty), cx.lifted),
    decreases ops.len() - i,
{
    if i < ops.len() {
        let d = mark(cx, dirty, ops[i]);
        lemma_within_len(dirty, cx.lifted);
        lemma_op(ops[i], cx, dirty, ops_code(ops, i + 1, cx, d, k));
        lemma_ops(ops, i + 1, cx, d, k);
        assert(OP_INSTRS * (ops.len() - i) == OP_INSTRS + OP_INSTRS * (ops.len() - (i + 1)))
            by (nonlinear_arith);
    }
}

/// What a block does besides its operations.
proof fn lemma_chain(chain: ChainLayout, n_insns: u32, k: Code)
    ensures
        size(shape::charge(chain, n_insns, k)) == size(k) + 6,
        size(shape::epilogue(chain, k)) <= size(k) + 90,
{
    broadcast use group_size;

    let hop = crate::wasm::cond(None, shape::hop(chain), Code::Nil, Code::Nil);
    assert(size(hop) <= 14);
    assert(size(shape::slot_check(chain, hop)) <= 19);
    assert(size(shape::page_check(chain, hop)) <= 34);
    assert(size(shape::entry_check(chain, hop)) <= 50);
    assert(size(shape::lookup(chain)) <= 75);
}

/// No instruction takes more than 16 bytes.
proof fn lemma_instr_len(i: Instr)
    ensures
        instr_len(i) <= 16,
{
    reveal_with_fuel(uleb_len, 11);
    reveal_with_fuel(sleb_len, 11);
}

proof fn lemma_code_len(code: Seq<Instr>)
    ensures
        code_len(code) <= 16 * code.len(),
    decreases code.len(),
{
    if code.len() > 0 {
        lemma_instr_len(code.last());
        lemma_code_len(code.drop_last());
    }
}

proof fn lemma_locals_len(groups: Seq<(u32, ValTy)>)
    ensures
        locals_len(groups) <= 6 * groups.len(),
    decreases groups.len(),
{
    if groups.len() > 0 {
        reveal_with_fuel(uleb_len, 6);
        lemma_locals_len(groups.drop_last());
    }
}

/// **Blocks of ordinary length fit the binary format.** A block grows with its operations, by
/// so many bytes for each at most, so that streams up to a length far beyond that of a page
/// can be compiled whatever their operations are.
pub proof fn law_short_streams(ir: Seq<u8>, cfg: Config)
    ensures
        block_body(ir_ops(ir), cfg).byte_len() <= 16 * OP_INSTRS * (ir_ops(ir).len() + 3),
        ir.len() <= MAX_IR_LEN ==> block_body(ir_ops(ir), cfg).fits(),
{
    let ops = ir_ops(ir);
    let cx = block_cx(ops, cfg);
    let none = Seq::<u32>::empty();
    lemma_lifted(ops, cfg);
    let tail = match cfg.chain {
        Some(chain) => shape::epilogue(chain, Code::Nil),
        None => Code::Nil,
    };
    let dirty = mark_all(ops, 0, cx, none);
    let exit = exit_code(ops, cfg);
    let k = ops_code(ops, 0, cx, none, exit);
    let body = fill(cx, cx.lifted.len(), k);
    if let Some(chain) = cfg.chain {
        lemma_chain(chain, cfg.n_insns, Code::Nil);
        lemma_chain(chain, cfg.n_insns, body);
    }
    lemma_ops(ops, 0, cx, none, exit);
    lemma_within_len(dirty, cx.lifted);
    lemma_spill(cx, dirty, tail);
    lemma_fill(cx, cx.lifted.len(), k);
    lemma_flat_len(Seq::empty(), block_code(ops, cfg));
    assert(size(tail) <= 90 && size(exit) <= size(spill(cx, dirty, tail)) + 1) by {
        broadcast use group_size;

    }
    assert(OP_INSTRS * (ops.len() - 0) + 400 == OP_INSTRS * (ops.len() + 2)) by (nonlinear_arith);
    let body = block_body(ops, cfg);
    assert(body.code.len() <= OP_INSTRS * (ops.len() + 2));
    lemma_code_len(body.code);
    lemma_locals_len(body.locals);
    assert(uleb_len(body.locals.len()) == 1);
    assert(16 * (OP_INSTRS * (ops.len() + 2)) + 25 <= 16 * OP_INSTRS * (ops.len() + 3))
        by (nonlinear_arith);
    assert(ir.len() <= MAX_IR_LEN ==> ops.len() <= MAX_IR_LEN / TUPLE_SIZE);
}

} // verus!
