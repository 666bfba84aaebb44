//! The code of blocks is well typed: each instruction finds the operands it needs on the
//! stack, and a block leaves its result there and nothing else.

use vstd::prelude::*;
use crate::block::lemma_lifted;
use crate::codegen::{
    block_locals, block_types, law_used_helpers, lemma_used_below, spec_helper_type,
};
use crate::encode::FuncTy;
use crate::guest::well_ended;
use crate::ir::{spec_is_terminator, MulDivOp, Op};
use crate::shape;
use crate::shape::{
    block_code, block_cx, calls_helper, ends_with_terminator, exit_code, fill, lemma_pos,
    lifted_regs, mark, mark_all, op_code, ops_code, pos, spec_helper_id, spec_is_wide, spill,
    used_helpers, wide, ChainLayout, Config, Cx, FIXED_LOCALS, HELPERS,
};
use crate::wasm::{instr, Code, Instr, IntBin, LoadOp, MemArg, StoreOp, ValTy};

verus! {

/// The types of the values on the stack, the topmost first.
pub enum Types {
    Empty,
    Push(ValTy, Box<Types>),
}

/// A 32-bit value on top of others.
pub open spec fn ty32(st: Types) -> Types {
    Types::Push(ValTy::I32, Box::new(st))
}

/// A 64-bit value on top of others.
pub open spec fn ty64(st: Types) -> Types {
    Types::Push(ValTy::I64, Box::new(st))
}

/// What code is typed against.
pub struct Sig {
    /// The types of the locals, the argument first.
    pub locals: Seq<ValTy>,
    /// Ids of the imported helpers.
    pub imports: Seq<usize>,
    /// A function table is imported.
    pub table: bool,
}

/// What typing a piece of code comes to.
pub enum Typed {
    /// Execution goes on behind the code, with these values on the stack.
    Next(Types),
    /// Execution never comes behind the code.
    Never,
    /// The code is not well typed.
    Invalid,
}

/// Takes two operands of one type off the stack and puts a result there.
pub open spec fn bin_types(operand: ValTy, result: ValTy, st: Types) -> Typed {
    match st {
        Types::Push(b, st) => match *st {
            Types::Push(a, st) => if a == operand && b == operand {
                Typed::Next(Types::Push(result, st))
            } else {
                Typed::Invalid
            },
            _ => Typed::Invalid,
        },
        _ => Typed::Invalid,
    }
}

/// Takes one operand off the stack and puts a result there.
pub open spec fn un_types(operand: ValTy, result: ValTy, st: Types) -> Typed {
    match st {
        Types::Push(a, st) => if a == operand {
            Typed::Next(Types::Push(result, st))
        } else {
            Typed::Invalid
        },
        _ => Typed::Invalid,
    }
}

/// Takes values of the given types off the stack, the last of them topmost.
pub open spec fn pop_types(tys: Seq<ValTy>, st: Types) -> Option<Types>
    decreases tys.len(),
{
    if tys.len() == 0 {
        Some(st)
    } else {
        match st {
            Types::Push(a, st) => if a == tys.last() {
                pop_types(tys.drop_last(), *st)
            } else {
                None
            },
            Types::Empty => None,
        }
    }
}

/// The types of the arguments of a helper: those of a load, a store or an atomic.
pub open spec fn helper_params(id: usize) -> Seq<ValTy> {
    if id < 7 {
        seq![ValTy::I32, ValTy::I64, ValTy::I32]
    } else if id < 11 {
        seq![ValTy::I32, ValTy::I64, ValTy::I64]
    } else {
        seq![ValTy::I32, ValTy::I64, ValTy::I64, ValTy::I32, ValTy::I32]
    }
}

/// The type that a read pushes.
pub open spec fn load_ty(op: LoadOp) -> ValTy {
    match op {
        LoadOp::I32 => ValTy::I32,
        _ => ValTy::I64,
    }
}

/// Binary logarithm of the width of a read, the largest alignment that it may claim.
pub open spec fn load_align(op: LoadOp) -> u32 {
    match op {
        LoadOp::I64S8 | LoadOp::I64U8 => 0,
        LoadOp::I64S16 | LoadOp::I64U16 => 1,
        LoadOp::I32 | LoadOp::I64S32 | LoadOp::I64U32 => 2,
        LoadOp::I64 => 3,
    }
}

/// The type that a write pops.
pub open spec fn store_ty(op: StoreOp) -> ValTy {
    match op {
        StoreOp::I32 => ValTy::I32,
        _ => ValTy::I64,
    }
}

/// Binary logarithm of the width of a write.
pub open spec fn store_align(op: StoreOp) -> u32 {
    match op {
        StoreOp::I64As8 => 0,
        StoreOp::I64As16 => 1,
        StoreOp::I32 | StoreOp::I64As32 => 2,
        StoreOp::I64 => 3,
    }
}

/// The static part of an access is one that a 32-bit memory admits.
pub open spec fn arg_ok(arg: MemArg, align: u32) -> bool {
    arg.offset <= u32::MAX && arg.align <= align
}

/// Types one instruction that opens or closes no conditional.
pub open spec fn type_step(i: Instr, st: Types, sig: Sig) -> Typed {
    match i {
        Instr::LocalGet(n) => if n < sig.locals.len() {
            Typed::Next(Types::Push(sig.locals[n as int], Box::new(st)))
        } else {
            Typed::Invalid
        },
        Instr::LocalSet(n) => match st {
            Types::Push(a, st) => if n < sig.locals.len() && a == sig.locals[n as int] {
                Typed::Next(*st)
            } else {
                Typed::Invalid
            },
            _ => Typed::Invalid,
        },
        Instr::LocalTee(n) => match st {
            Types::Push(a, _) => if n < sig.locals.len() && a == sig.locals[n as int] {
                Typed::Next(st)
            } else {
                Typed::Invalid
            },
            _ => Typed::Invalid,
        },
        Instr::I32Const(_) => Typed::Next(ty32(st)),
        Instr::I64Const(_) => Typed::Next(ty64(st)),
        Instr::I32Bin(_) | Instr::I32Rel(_) => bin_types(ValTy::I32, ValTy::I32, st),
        Instr::I64Bin(_) => bin_types(ValTy::I64, ValTy::I64, st),
        Instr::I64Rel(_) => bin_types(ValTy::I64, ValTy::I32, st),
        Instr::I64Eqz | Instr::I32WrapI64 => un_types(ValTy::I64, ValTy::I32, st),
        Instr::I64ExtendI32S | Instr::I64ExtendI32U => un_types(ValTy::I32, ValTy::I64, st),
        Instr::Load(op, arg) => if arg_ok(arg, load_align(op)) {
            un_types(ValTy::I32, load_ty(op), st)
        } else {
            Typed::Invalid
        },
        Instr::Store(op, arg) => match st {
            Types::Push(v, st) => match *st {
                Types::Push(a, st) => if arg_ok(arg, store_align(op)) && a == ValTy::I32 && v
                    == store_ty(op) {
                    Typed::Next(*st)
                } else {
                    Typed::Invalid
                },
                _ => Typed::Invalid,
            },
            _ => Typed::Invalid,
        },
        Instr::Drop => match st {
            Types::Push(_, st) => Typed::Next(*st),
            _ => Typed::Invalid,
        },
        Instr::Return => match st {
            Types::Push(ValTy::I64, _) => Typed::Never,
            _ => Typed::Invalid,
        },
        Instr::Call(n) => if n < sig.imports.len() {
            match pop_types(helper_params(sig.imports[n as int]), st) {
                Some(st) => Typed::Next(ty32(st)),
                None => Typed::Invalid,
            }
        } else {
            Typed::Invalid
        },
        // The function type 0 is that of blocks, from which the result is handed on.
        Instr::ReturnCallIndirect(ty) => if sig.table && ty == 0 && pop_types(
            seq![ValTy::I32, ValTy::I32],
            st,
        ) is Some {
            Typed::Never
        } else {
            Typed::Invalid
        },
        Instr::If(_) | Instr::Else | Instr::End => Typed::Invalid,
    }
}

/// An arm of a conditional leaves the result of the conditional, or is never left.
pub open spec fn arm_ok(arm: Typed, ty: Option<ValTy>) -> bool {
    arm is Never || arm == Typed::Next(
        match ty {
            Some(ty) => Types::Push(ty, Box::new(Types::Empty)),
            None => Types::Empty,
        },
    )
}

/// Types a body, found with the values `st` on the stack. The arms of a conditional find
/// none, and nothing stands behind an instruction that is never passed.
#[verifier::opaque]
pub open spec fn check(c: Code, st: Types, sig: Sig) -> Typed
    decreases c,
{
    match c {
        Code::Nil => Typed::Next(st),
        Code::Cons(i, k) => match type_step(i, st, sig) {
            Typed::Next(st) => check(*k, st, sig),
            Typed::Never => if *k is Nil {
                Typed::Never
            } else {
                Typed::Invalid
            },
            Typed::Invalid => Typed::Invalid,
        },
        Code::If(ty, yes, no, k) => match st {
            Types::Push(ValTy::I32, st) => if arm_ok(check(*yes, Types::Empty, sig), ty) && arm_ok(
                check(*no, Types::Empty, sig),
                ty,
            ) {
                match ty {
                    Some(ty) => check(*k, Types::Push(ty, st), sig),
                    None => check(*k, *st, sig),
                }
            } else {
                Typed::Invalid
            },
            _ => Typed::Invalid,
        },
    }
}

broadcast proof fn lemma_check_nil(st: Types, sig: Sig)
    ensures
        #[trigger] check(Code::Nil, st, sig) == Typed::Next(st),
{
    reveal(check);
}

broadcast proof fn lemma_check_cons(i: Instr, k: Box<Code>, st: Types, sig: Sig)
    ensures
        #[trigger] check(Code::Cons(i, k), st, sig) == match type_step(i, st, sig) {
            Typed::Next(st) => check(*k, st, sig),
            Typed::Never => if *k is Nil {
                Typed::Never
            } else {
                Typed::Invalid
            },
            Typed::Invalid => Typed::Invalid,
        },
{
    reveal(check);
}

broadcast proof fn lemma_check_if(
    ty: Option<ValTy>,
    yes: Box<Code>,
    no: Box<Code>,
    k: Box<Code>,
    st: Types,
    sig: Sig,
)
    ensures
        #[trigger] check(Code::If(ty, yes, no, k), st, sig) == match st {
            Types::Push(ValTy::I32, st) => if arm_ok(check(*yes, Types::Empty, sig), ty) && arm_ok(
                check(*no, Types::Empty, sig),
                ty,
            ) {
                match ty {
                    Some(ty) => check(*k, Types::Push(ty, st), sig),
                    None => check(*k, *st, sig),
                }
            } else {
                Typed::Invalid
            },
            _ => Typed::Invalid,
        },
{
    reveal(check);
}

broadcast group group_check {
    lemma_check_nil,
    lemma_check_cons,
    lemma_check_if,
}

/// The locals are where code compiled in the context expects them: the state pointer, two
/// 64-bit scratch locals and a 32-bit one, and the lifted registers.
#[verifier::opaque]
pub open spec fn sig_of(cx: Cx, sig: Sig) -> bool {
    &&& sig.imports == cx.used
    &&& cx.used.len() <= u32::MAX
    &&& FIXED_LOCALS <= cx.lift_base
    &&& sig.locals.len() >= cx.lift_base + cx.lifted.len()
    &&& cx.lift_base + cx.lifted.len() <= u32::MAX
    &&& sig.locals[0] == ValTy::I32
    &&& sig.locals[1] == ValTy::I64
    &&& sig.locals[2] == ValTy::I64
    &&& sig.locals[3] == ValTy::I32
    &&& cx.lift_base > FIXED_LOCALS ==> sig.locals[FIXED_LOCALS as int] == ValTy::I64
    &&& forall|i: int|
        0 <= i < cx.lifted.len() ==> #[trigger] sig.locals[cx.lift_base + i] == ValTy::I64
}

/// The fixed locals.
broadcast proof fn lemma_fixed(cx: Cx, sig: Sig)
    requires
        #[trigger] sig_of(cx, sig),
    ensures
        sig.locals.len() >= 4,
        sig.locals[0] == ValTy::I32,
        sig.locals[1] == ValTy::I64,
        sig.locals[2] == ValTy::I64,
        sig.locals[3] == ValTy::I32,
        cx.lift_base > FIXED_LOCALS ==> sig.locals.len() > FIXED_LOCALS
            && sig.locals[FIXED_LOCALS as int] == ValTy::I64,
{
    reveal(sig_of);
}

/// The stack below a value that is to be written to a register.
pub open spec fn begun(cx: Cx, rd: u32, st: Types) -> Types {
    match pos(cx.lifted, rd) {
        Some(_) => st,
        None => ty32(st),
    }
}

broadcast proof fn lemma_get_reg(cx: Cx, r: u32, k: Code, st: Types, sig: Sig)
    requires
        sig_of(cx, sig),
    ensures
        #[trigger] check(shape::get_reg(cx, r, k), st, sig) == check(k, ty64(st), sig),
{
    broadcast use group_check;

    reveal(sig_of);
    lemma_pos(cx.lifted, r);
    if let Some(i) = pos(cx.lifted, r) {
        assert(sig.locals[cx.lift_base + i] == ValTy::I64);
    }
}

broadcast proof fn lemma_begin_write(cx: Cx, rd: u32, k: Code, st: Types, sig: Sig)
    requires
        sig_of(cx, sig),
    ensures
        #[trigger] check(shape::begin_write(cx, rd, k), st, sig) == check(
            k,
            begun(cx, rd, st),
            sig,
        ),
{
    broadcast use group_check;

    reveal(sig_of);
}

broadcast proof fn lemma_store_reg(cx: Cx, rd: u32, k: Code, st: Types, sig: Sig)
    requires
        sig_of(cx, sig),
    ensures
        #[trigger] check(shape::store_reg(cx, rd, k), ty64(begun(cx, rd, st)), sig) == check(
            k,
            st,
            sig,
        ),
{
    broadcast use group_check;

    reveal(sig_of);
    lemma_pos(cx.lifted, rd);
    if let Some(i) = pos(cx.lifted, rd) {
        assert(sig.locals[cx.lift_base + i] == ValTy::I64);
    }
}

broadcast group group_regs {
    lemma_fixed,
    lemma_get_reg,
    lemma_begin_write,
    lemma_store_reg,
}

proof fn lemma_spill(cx: Cx, regs: Seq<u32>, k: Code, st: Types, sig: Sig)
    requires
        sig_of(cx, sig),
    ensures
        check(spill(cx, regs, k), st, sig) == check(k, st, sig),
    decreases regs.len(),
{
    if regs.len() > 0 {
        let one = shape::spill_one(cx, regs.last(), k);
        lemma_spill(cx, regs.drop_last(), one, st, sig);
        assert(check(one, st, sig) == check(k, st, sig)) by {
            broadcast use group_check, group_regs;

        }
    }
}

proof fn lemma_fill(cx: Cx, n: nat, k: Code, st: Types, sig: Sig)
    requires
        sig_of(cx, sig),
        n <= cx.lifted.len(),
    ensures
        check(fill(cx, n, k), st, sig) == check(k, st, sig),
    decreases n,
{
    if n > 0 {
        let m = n - 1;
        let local = (cx.lift_base + m) as u32;
        let one = shape::load_reg(cx.lifted[m], instr(Instr::LocalSet(local), k));
        lemma_fill(cx, m as nat, one, st, sig);
        assert(check(one, st, sig) == check(k, st, sig)) by {
            broadcast use group_check;

            reveal(sig_of);
            assert(sig.locals[cx.lift_base + m] == ValTy::I64);
        }
    }
}

proof fn lemma_fault_check(cx: Cx, dirty: Seq<u32>, pc: u64, k: Code, st: Types, sig: Sig)
    requires
        sig_of(cx, sig),
    ensures
        check(shape::fault_check(cx, dirty, pc, k), ty32(st), sig) == check(k, st, sig),
{
    broadcast use group_check;

    let bail = instr(Instr::I64Const((pc | 1) as i64), instr(Instr::Return, Code::Nil));
    lemma_spill(cx, dirty, bail, Types::Empty, sig);
}

/// A call of a helper takes its arguments and leaves its report.
proof fn lemma_call(cx: Cx, id: usize, st: Types, sig: Sig)
    requires
        sig_of(cx, sig),
        cx.used.contains(id),
    ensures
        ({
            let call = Instr::Call(pos(cx.used, id)->0 as u32);
            let (a, b) = (ty64(ty32(st)), ty64(ty64(ty32(st))));
            &&& id < 7 ==> type_step(call, ty32(a), sig) == Typed::Next(ty32(st))
            &&& 7 <= id < 11 ==> type_step(call, b, sig) == Typed::Next(ty32(st))
            &&& 11 <= id ==> type_step(call, ty32(ty32(b)), sig) == Typed::Next(ty32(st))
        }),
{
    reveal(sig_of);
    lemma_pos(cx.used, id);
    let (w, d) = (ValTy::I32, ValTy::I64);
    reveal_with_fuel(pop_types, 6);
    assert(seq![w, d, w].drop_last() =~= seq![w, d]);
    assert(seq![w, d, d].drop_last() =~= seq![w, d]);
    assert(seq![w, d, d, w, w].drop_last() =~= seq![w, d, d, w]);
    assert(seq![w, d, d, w].drop_last() =~= seq![w, d, d]);
    assert(seq![w, d].drop_last() =~= seq![w]);
    assert(seq![w].drop_last() =~= Seq::empty());
}

proof fn lemma_load(op: Op, cx: Cx, dirty: Seq<u32>, k: Code, st: Types, sig: Sig)
    requires
        op is Load,
        sig_of(cx, sig),
        spec_helper_id(op) matches Some(id) && cx.used.contains(id),
        cx.tlb matches Some(t) ==> t.serves(op),
    ensures
        check(op_code(op, cx, dirty, k), st, sig) == check(k, st, sig),
{
    broadcast use group_check, group_regs;

    reveal(op_code);
    let id = spec_helper_id(op)->0;
    let pc = shape::fault_pc(cx, op->Load_pc_off);
    if cx.tlb is Some {
        lemma_call(cx, id, Types::Empty, sig);
        lemma_fault_check(cx, dirty, pc, Code::Nil, Types::Empty, sig);
    } else {
        lemma_call(cx, id, st, sig);
        lemma_fault_check(cx, dirty, pc, k, st, sig);
    }
}

proof fn lemma_store(op: Op, cx: Cx, dirty: Seq<u32>, k: Code, st: Types, sig: Sig)
    requires
        op is Store,
        sig_of(cx, sig),
        spec_helper_id(op) matches Some(id) && cx.used.contains(id),
        cx.tlb matches Some(t) ==> t.serves(op),
    ensures
        check(op_code(op, cx, dirty, k), st, sig) == check(k, st, sig),
{
    broadcast use group_check, group_regs;

    reveal(op_code);
    let id = spec_helper_id(op)->0;
    let pc = shape::fault_pc(cx, op->Store_pc_off);
    if cx.tlb is Some {
        lemma_call(cx, id, Types::Empty, sig);
        lemma_fault_check(cx, dirty, pc, Code::Nil, Types::Empty, sig);
    } else {
        lemma_call(cx, id, st, sig);
        lemma_fault_check(cx, dirty, pc, k, st, sig);
    }
}

proof fn lemma_amo(op: Op, cx: Cx, dirty: Seq<u32>, k: Code, st: Types, sig: Sig)
    requires
        op is Amo,
        sig_of(cx, sig),
        spec_helper_id(op) matches Some(id) && cx.used.contains(id),
    ensures
        check(op_code(op, cx, dirty, k), st, sig) == check(k, st, sig),
{
    broadcast use group_check, group_regs;

    reveal(op_code);
    let pc = shape::fault_pc(cx, op->Amo_pc_off);
    lemma_call(cx, spec_helper_id(op)->0, st, sig);
    lemma_fault_check(cx, dirty, pc, k, st, sig);
}

/// The upper half of a product.
proof fn lemma_mulhu(cx: Cx, k: Code, st: Types, sig: Sig)
    requires
        sig_of(cx, sig),
        cx.lift_base > FIXED_LOCALS,
    ensures
        check(shape::mulhu(k), st, sig) == check(k, ty64(st), sig),
{
    broadcast use group_check, lemma_fixed;

    assert(check(shape::mulhu_upper(k), st, sig) == check(k, ty64(st), sig));
}

/// The sign correction of a product.
proof fn lemma_sign_fix(cx: Cx, a: u32, b: u32, k: Code, st: Types, sig: Sig)
    requires
        sig_of(cx, sig),
        1 <= a <= 2,
        1 <= b <= 2,
    ensures
        check(shape::sign_fix(a, b, k), ty64(st), sig) == check(k, ty64(st), sig),
{
    broadcast use group_check, lemma_fixed;

}

/// A quotient or remainder.
proof fn lemma_divide(
    cx: Cx,
    op: MulDivOp,
    rd: u32,
    rs1: u32,
    rs2: u32,
    k: Code,
    st: Types,
    sig: Sig,
)
    requires
        sig_of(cx, sig),
    ensures
        check(shape::divide(cx, op, rd, rs1, rs2, k), st, sig) == check(k, st, sig),
{
    broadcast use group_check, group_regs;

    let h = shape::spec_half(op);
    let bin = shape::spec_div_op(op);
    let ok = Typed::Next(ty64(Types::Empty));
    assert(check(shape::apply12(bin), Types::Empty, sig) == ok);
    assert(check(shape::apply12(IntBin::DivS), Types::Empty, sig) == ok);
    assert(check(shape::div_guarded(), Types::Empty, sig) == ok);
    assert(check(shape::quotient(bin, h), Types::Empty, sig) == ok);
    assert(check(instr(shape::by_zero(bin), Code::Nil), Types::Empty, sig) == ok);
}

proof fn lemma_mul_div(
    cx: Cx,
    op: MulDivOp,
    rd: u32,
    rs1: u32,
    rs2: u32,
    k: Code,
    st: Types,
    sig: Sig,
)
    requires
        sig_of(cx, sig),
        op is Mulh || op is Mulhsu || op is Mulhu ==> cx.lift_base > FIXED_LOCALS,
    ensures
        check(shape::mul_div(cx, op, rd, rs1, rs2, k), st, sig) == check(k, st, sig),
{
    let end = shape::store_reg(cx, rd, k);
    let b = begun(cx, rd, st);
    match op {
        MulDivOp::Mul | MulDivOp::Mulw => {
            broadcast use group_check, group_regs;

        },
        MulDivOp::Mulhu => {
            broadcast use group_check, group_regs;

            lemma_mulhu(cx, end, b, sig);
        },
        MulDivOp::Mulhsu => {
            broadcast use group_check, group_regs;

            lemma_mulhu(cx, shape::sign_fix(1, 2, end), b, sig);
            lemma_sign_fix(cx, 1, 2, end, b, sig);
        },
        MulDivOp::Mulh => {
            broadcast use group_check, group_regs;

            let fix = shape::sign_fix(2, 1, end);
            lemma_mulhu(cx, shape::sign_fix(1, 2, fix), b, sig);
            lemma_sign_fix(cx, 1, 2, fix, b, sig);
            lemma_sign_fix(cx, 2, 1, end, b, sig);
        },
        _ => lemma_divide(cx, op, rd, rs1, rs2, k, st, sig),
    }
}

/// What the code of an operation leaves on the stack.
pub open spec fn op_types(op: Op, st: Types) -> Types {
    if spec_is_terminator(op) {
        ty64(st)
    } else {
        st
    }
}

/// **Terminators push the next pc, and no other operation leaves anything.** The code of an
/// operation is well typed, whatever is on the stack. It leaves the stack as it was, with one
/// more 64-bit value on top if the operation is a terminator.
pub proof fn law_op_types(op: Op, cx: Cx, dirty: Seq<u32>, k: Code, st: Types, sig: Sig)
    requires
        sig_of(cx, sig),
        spec_helper_id(op) matches Some(id) ==> cx.used.contains(id),
        spec_is_wide(op) ==> cx.lift_base > FIXED_LOCALS,
        cx.tlb matches Some(t) ==> t.serves(op),
    ensures
        check(op_code(op, cx, dirty, k), st, sig) == check(k, op_types(op, st), sig),
{
    match op {
        Op::Load { .. } => lemma_load(op, cx, dirty, k, st, sig),
        Op::Store { .. } => lemma_store(op, cx, dirty, k, st, sig),
        Op::Amo { .. } => lemma_amo(op, cx, dirty, k, st, sig),
        Op::MulDiv { op: md, rd, rs1, rs2 } => {
            reveal(op_code);
            lemma_mul_div(cx, md, rd, rs1, rs2, k, st, sig);
        },
        _ => {
            broadcast use group_check, group_regs;

            reveal(op_code);
        },
    }
}

/// The operations from `i` on leave the next pc if the last of them is a terminator.
proof fn lemma_ops(ops: Seq<Op>, i: int, cfg: Config, dirty: Seq<u32>, k: Code, sig: Sig)
    requires
        0 <= i <= ops.len(),
        well_ended(ops),
        cfg.suits(ops),
        sig_of(block_cx(ops, cfg), sig),
        i == ops.len() && i > 0 ==> !ends_with_terminator(ops),
    ensures
        check(ops_code(ops, i, block_cx(ops, cfg), dirty, k), Types::Empty, sig) == check(
            k,
            if ends_with_terminator(ops) {
                ty64(Types::Empty)
            } else {
                Types::Empty
            },
            sig,
        ),
    decreases ops.len() - i,
{
    if i < ops.len() {
        let cx = block_cx(ops, cfg);
        let op = ops[i];
        let rest = ops_code(ops, i + 1, cx, mark(cx, dirty, op), k);
        law_used_helpers(ops);
        if let Some(id) = spec_helper_id(op) {
            assert(calls_helper(ops, id));
        }
        if spec_is_wide(op) {
            assert(wide(ops));
        }
        law_op_types(op, cx, dirty, rest, Types::Empty, sig);
        if i + 1 < ops.len() || !spec_is_terminator(op) {
            lemma_ops(ops, i + 1, cfg, mark(cx, dirty, op), k, sig);
        }
    }
}

/// The way out of a block that chains.
proof fn lemma_epilogue(cx: Cx, chain: ChainLayout, k: Code, st: Types, sig: Sig)
    requires
        sig_of(cx, sig),
        sig.table,
    ensures
        check(shape::epilogue(chain, k), ty64(st), sig) == check(k, ty64(st), sig),
{
    broadcast use group_check, lemma_fixed;

    let none = Types::Empty;
    assert(pop_types(seq![ValTy::I32, ValTy::I32], ty32(ty32(none))) is Some) by {
        reveal_with_fuel(pop_types, 3);
        assert(seq![ValTy::I32, ValTy::I32].drop_last() =~= seq![ValTy::I32]);
    }
    assert(check(shape::hop(chain), none, sig) is Never);
    let hop = crate::wasm::cond(None, shape::hop(chain), Code::Nil, Code::Nil);
    assert(check(hop, ty32(none), sig) == Typed::Next(none));
    assert(check(shape::slot_check(chain, hop), ty32(none), sig) == Typed::Next(none));
    assert(check(shape::page_check(chain, hop), ty32(none), sig) == Typed::Next(none));
    assert(check(shape::entry_check(chain, hop), none, sig) == Typed::Next(none));
    assert(check(shape::lookup(chain), none, sig) == Typed::Next(none));
}

/// The types of locals in groups.
pub open spec fn local_types(groups: Seq<(u32, ValTy)>) -> Seq<ValTy>
    decreases groups.len(),
{
    if groups.len() == 0 {
        Seq::empty()
    } else {
        let (n, ty) = groups.last();
        local_types(groups.drop_last()) + Seq::new(n as nat, |i: int| ty)
    }
}

/// What the code of a block is typed against: its argument and the locals that its module
/// declares, the helpers that it imports, and the table if it chains.
pub open spec fn block_sig(ops: Seq<Op>, cfg: Config) -> Sig {
    Sig {
        locals: seq![ValTy::I32] + local_types(block_locals(ops, cfg.lift)),
        imports: used_helpers(ops),
        table: cfg.chain is Some,
    }
}

proof fn lemma_block_sig(ops: Seq<Op>, cfg: Config)
    ensures
        sig_of(block_cx(ops, cfg), block_sig(ops, cfg)),
{
    reveal(sig_of);
    let n = lifted_regs(ops, cfg.lift).len();
    lemma_lifted(ops, cfg);
    law_used_helpers(ops);
    let one = seq![(2u32, ValTy::I64)];
    let fixed = seq![(2u32, ValTy::I64), (1u32, ValTy::I32)];
    assert(fixed.drop_last() =~= one);
    assert(one.drop_last() =~= Seq::empty());
    reveal_with_fuel(local_types, 3);
    assert(local_types(fixed) =~= seq![ValTy::I64, ValTy::I64, ValTy::I32]);
    let scratch = if wide(ops) {
        fixed.push((1u32, ValTy::I64))
    } else {
        fixed
    };
    assert(fixed.push((1u32, ValTy::I64)).drop_last() =~= fixed);
    let t = local_types(scratch);
    assert(t.len() + 1 == block_cx(ops, cfg).lift_base);
    assert(scratch.push((n as u32, ValTy::I64)).drop_last() =~= scratch);
    assert(local_types(block_locals(ops, cfg.lift)) =~= t + Seq::new(n, |i: int| ValTy::I64));
}

/// **Compiled blocks are well typed.** The code of a block, typed against what its module
/// declares, finds the operands it needs at each instruction, and leaves one 64-bit value:
/// the next pc. The helpers are typed as the module imports them.
pub proof fn law_block_types(ops: Seq<Op>, cfg: Config)
    requires
        well_ended(ops),
        cfg.suits(ops),
    ensures
        block_types(used_helpers(ops))[0] == (FuncTy {
            params: seq![ValTy::I32],
            results: seq![ValTy::I64],
        }),
        forall|id: usize| #[trigger]
            used_helpers(ops).contains(id) ==> block_types(
                used_helpers(ops),
            )[spec_helper_type(id) as int] == (FuncTy {
                params: helper_params(id),
                results: seq![ValTy::I32],
            }),
        check(block_code(ops, cfg), Types::Empty, block_sig(ops, cfg)) == Typed::Next(
            ty64(Types::Empty),
        ),
{
    let sig = block_sig(ops, cfg);
    let cx = block_cx(ops, cfg);
    let exit = exit_code(ops, cfg);
    let k = ops_code(ops, 0, cx, Seq::empty(), exit);
    let body = fill(cx, cx.lifted.len(), k);
    let pc = ty64(Types::Empty);
    let tail = match cfg.chain {
        Some(chain) => shape::epilogue(chain, Code::Nil),
        None => Code::Nil,
    };
    lemma_block_sig(ops, cfg);
    lemma_used_below(ops, HELPERS as nat);
    if let Some(chain) = cfg.chain {
        assert(check(block_code(ops, cfg), Types::Empty, sig) == check(
            body,
            Types::Empty,
            sig,
        )) by {
            broadcast use group_check, lemma_fixed;

        }
        lemma_epilogue(cx, chain, Code::Nil, Types::Empty, sig);
    }
    lemma_fill(cx, cx.lifted.len(), k, Types::Empty, sig);
    lemma_ops(ops, 0, cfg, Seq::empty(), exit, sig);
    lemma_spill(cx, mark_all(ops, 0, cx, Seq::empty()), tail, pc, sig);
    lemma_check_nil(pc, sig);
    if !ends_with_terminator(ops) {
        let spilled = spill(cx, mark_all(ops, 0, cx, Seq::empty()), tail);
        lemma_check_cons(
            Instr::I64Const(cfg.end_pc as i64),
            Box::new(spilled),
            Types::Empty,
            sig,
        );
    }
}

} // verus!
