//! The instructions of a body determine its nesting.

use vstd::prelude::*;
use crate::ir::Op;
use crate::shape;
use crate::shape::{
    block_code, block_cx, exit_code, fill, mark, op_code, ops_code, spill, Config, Cx,
};
use crate::wasm::{flat, group_flat, instr, Code, Instr, ValTy};

verus! {

/// No instruction of the code opens or closes a conditional: these are in its nesting.
#[verifier::opaque]
pub open spec fn proper(c: Code) -> bool
    decreases c,
{
    match c {
        Code::Nil => true,
        Code::Cons(i, k) => !(i is If) && !(i is Else) && !(i is End) && proper(*k),
        Code::If(_, yes, no, k) => proper(*yes) && proper(*no) && proper(*k),
    }
}

broadcast proof fn lemma_proper_nil()
    ensures
        #[trigger] proper(Code::Nil),
{
    reveal(proper);
}

broadcast proof fn lemma_proper_cons(i: Instr, k: Box<Code>)
    ensures
        #[trigger] proper(Code::Cons(i, k)) <==> !(i is If) && !(i is Else) && !(i is End)
            && proper(*k),
{
    reveal(proper);
}

broadcast proof fn lemma_proper_if(ty: Option<ValTy>, yes: Box<Code>, no: Box<Code>, k: Box<Code>)
    ensures
        #[trigger] proper(Code::If(ty, yes, no, k)) <==> proper(*yes) && proper(*no) && proper(*k),
{
    reveal(proper);
}

broadcast group group_proper {
    lemma_proper_nil,
    lemma_proper_cons,
    lemma_proper_if,
}

/// What stands before a body does not matter to it.
proof fn lemma_flat_prefix(p: Seq<Instr>, c: Code)
    ensures
        flat(p, c) == p + flat(Seq::empty(), c),
    decreases c,
{
    broadcast use group_flat;

    let e = Seq::<Instr>::empty();
    match c {
        Code::Nil => {
            assert(p + e =~= p);
        },
        Code::Cons(i, k) => {
            lemma_flat_prefix(p.push(i), *k);
            lemma_flat_prefix(e.push(i), *k);
            assert(p.push(i) + flat(e, *k) =~= p + (e.push(i) + flat(e, *k)));
        },
        Code::If(ty, yes, no, k) => {
            let i = Instr::If(ty);
            lemma_flat_prefix(p.push(i), *yes);
            lemma_flat_prefix(e.push(i), *yes);
            let q1 = flat(p.push(i), *yes);
            let q2 = flat(e.push(i), *yes);
            assert(q1 =~= p + q2);
            let (r1, r2) = if *no is Nil {
                (q1, q2)
            } else {
                lemma_flat_prefix(q1.push(Instr::Else), *no);
                lemma_flat_prefix(q2.push(Instr::Else), *no);
                (flat(q1.push(Instr::Else), *no), flat(q2.push(Instr::Else), *no))
            };
            assert(r1 =~= p + r2);
            lemma_flat_prefix(r1.push(Instr::End), *k);
            lemma_flat_prefix(r2.push(Instr::End), *k);
            assert(flat(r1.push(Instr::End), *k) =~= p + flat(r2.push(Instr::End), *k));
        },
    }
}

/// Nothing, or what closes a part of a conditional.
spec fn closes(r: Seq<Instr>) -> bool {
    r.len() == 0 || r[0] is Else || r[0] is End
}

/// The instructions of a conditional, behind its first arm.
spec fn behind(no: Code, k: Code, r: Seq<Instr>) -> Seq<Instr> {
    let e = Seq::<Instr>::empty();
    let last = seq![Instr::End] + (flat(e, k) + r);
    if no is Nil {
        last
    } else {
        seq![Instr::Else] + (flat(e, no) + last)
    }
}

/// The instructions of code, part by part.
proof fn lemma_parts(c: Code, r: Seq<Instr>)
    ensures
        ({
            let e = Seq::<Instr>::empty();
            flat(e, c) + r == match c {
                Code::Nil => r,
                Code::Cons(i, k) => seq![i] + (flat(e, *k) + r),
                Code::If(ty, yes, no, k) => seq![Instr::If(ty)] + (flat(e, *yes) + behind(
                    *no,
                    *k,
                    r,
                )),
            }
        }),
{
    broadcast use group_flat;

    let e = Seq::<Instr>::empty();
    match c {
        Code::Nil => {
            assert(e + r =~= r);
        },
        Code::Cons(i, k) => {
            lemma_flat_prefix(e.push(i), *k);
            assert(e.push(i) + flat(e, *k) + r =~= seq![i] + (flat(e, *k) + r));
        },
        Code::If(ty, yes, no, k) => {
            let i = Instr::If(ty);
            lemma_flat_prefix(e.push(i), *yes);
            let q = flat(e.push(i), *yes);
            let q2 = if *no is Nil {
                q
            } else {
                lemma_flat_prefix(q.push(Instr::Else), *no);
                flat(q.push(Instr::Else), *no)
            };
            lemma_flat_prefix(q2.push(Instr::End), *k);
            assert(flat(e, c) + r =~= seq![i] + (flat(e, *yes) + behind(*no, *k, r)));
        },
    }
}

/// Two codes with the same instructions before something that closes are the same.
proof fn lemma_unique(c1: Code, c2: Code, r1: Seq<Instr>, r2: Seq<Instr>)
    requires
        proper(c1),
        proper(c2),
        closes(r1),
        closes(r2),
        flat(Seq::empty(), c1) + r1 == flat(Seq::empty(), c2) + r2,
    ensures
        c1 == c2,
        r1 == r2,
    decreases c1,
{
    broadcast use group_proper;

    let e = Seq::<Instr>::empty();
    let s = flat(e, c1) + r1;
    lemma_parts(c1, r1);
    lemma_parts(c2, r2);
    match (c1, c2) {
        (Code::Nil, Code::Nil) => {},
        (Code::Cons(i, k1), Code::Cons(j, k2)) => {
            let t1 = flat(e, *k1) + r1;
            let t2 = flat(e, *k2) + r2;
            assert(s[0] == i && s[0] == j);
            assert((seq![i] + t1).skip(1) =~= t1);
            assert((seq![j] + t2).skip(1) =~= t2);
            lemma_unique(*k1, *k2, r1, r2);
        },
        (Code::If(ty1, y1, n1, k1), Code::If(ty2, y2, n2, k2)) => {
            let b1 = behind(*n1, *k1, r1);
            let b2 = behind(*n2, *k2, r2);
            assert(s[0] == Instr::If(ty1) && s[0] == Instr::If(ty2));
            assert((seq![Instr::If(ty1)] + (flat(e, *y1) + b1)).skip(1) =~= flat(e, *y1) + b1);
            assert((seq![Instr::If(ty2)] + (flat(e, *y2) + b2)).skip(1) =~= flat(e, *y2) + b2);
            lemma_unique(*y1, *y2, b1, b2);
            let l1 = seq![Instr::End] + (flat(e, *k1) + r1);
            let l2 = seq![Instr::End] + (flat(e, *k2) + r2);
            assert(b1[0] == b2[0]);
            assert(*n1 is Nil <==> *n2 is Nil);
            if !(*n1 is Nil) {
                assert(b1.skip(1) =~= flat(e, *n1) + l1);
                assert(b2.skip(1) =~= flat(e, *n2) + l2);
                lemma_unique(*n1, *n2, l1, l2);
            }
            assert(l1 == l2);
            assert(l1.skip(1) =~= flat(e, *k1) + r1);
            assert(l2.skip(1) =~= flat(e, *k2) + r2);
            lemma_unique(*k1, *k2, r1, r2);
        },
        (Code::Nil, _) => {
            assert(r1 == s);
            assert(false);
        },
        (_, Code::Nil) => {
            assert(r2 == s);
            assert(false);
        },
        (Code::Cons(i, k1), Code::If(ty, ..)) => {
            assert(s[0] == i && s[0] == Instr::If(ty));
        },
        (Code::If(ty, ..), Code::Cons(i, _)) => {
            assert(s[0] == i && s[0] == Instr::If(ty));
        },
    }
}

proof fn lemma_proper_spill(cx: Cx, regs: Seq<u32>, k: Code)
    requires
        proper(k),
    ensures
        proper(spill(cx, regs, k)),
    decreases regs.len(),
{
    if regs.len() > 0 {
        let one = shape::spill_one(cx, regs.last(), k);
        assert(proper(one)) by {
            broadcast use group_proper;

        }
        lemma_proper_spill(cx, regs.drop_last(), one);
    }
}

proof fn lemma_proper_fill(cx: Cx, n: nat, k: Code)
    requires
        proper(k),
    ensures
        proper(fill(cx, n, k)),
    decreases n,
{
    if n > 0 {
        let local = (cx.lift_base + (n - 1)) as u32;
        let one = shape::load_reg(cx.lifted[n - 1], instr(Instr::LocalSet(local), k));
        assert(proper(one)) by {
            broadcast use group_proper;

        }
        lemma_proper_fill(cx, (n - 1) as nat, one);
    }
}

proof fn lemma_proper_op(op: Op, cx: Cx, dirty: Seq<u32>, k: Code)
    requires
        proper(k),
    ensures
        proper(op_code(op, cx, dirty, k)),
{
    broadcast use group_proper;

    reveal(op_code);
    match op {
        Op::Load { pc_off, .. } | Op::Store { pc_off, .. } | Op::Amo { pc_off, .. } => {
            let pc = shape::fault_pc(cx, pc_off);
            let bail = instr(
                Instr::I64Const((pc | 1) as i64),
                instr(Instr::Return, Code::Nil),
            );
            assert(proper(bail));
            lemma_proper_spill(cx, dirty, bail);
        },
        _ => {},
    }
}

proof fn lemma_proper_ops(ops: Seq<Op>, i: int, cx: Cx, dirty: Seq<u32>, k: Code)
    requires
        proper(k),
    ensures
        proper(ops_code(ops, i, cx, dirty, k)),
    decreases ops.len() - i,
{
    if 0 <= i < ops.len() {
        let d = mark(cx, dirty, ops[i]);
        lemma_proper_ops(ops, i + 1, cx, d, k);
        lemma_proper_op(ops[i], cx, dirty, ops_code(ops, i + 1, cx, d, k));
    }
}

/// **The instructions of a block have one reading.** The nested code of which the module of
/// a block holds the instructions is the only one with these instructions.
pub proof fn law_one_reading(ops: Seq<Op>, cfg: Config, c: Code)
    requires
        proper(c),
        flat(Seq::empty(), c) == flat(Seq::empty(), block_code(ops, cfg)),
    ensures
        proper(block_code(ops, cfg)),
        c == block_code(ops, cfg),
{
    let cx = block_cx(ops, cfg);
    let tail = match cfg.chain {
        Some(chain) => shape::epilogue(chain, Code::Nil),
        None => Code::Nil,
    };
    assert(proper(tail)) by {
        broadcast use group_proper;

    }
    let dirty = shape::mark_all(ops, 0, cx, Seq::empty());
    lemma_proper_spill(cx, dirty, tail);
    assert(proper(exit_code(ops, cfg))) by {
        broadcast use group_proper;

    }
    lemma_proper_ops(ops, 0, cx, Seq::empty(), exit_code(ops, cfg));
    let k = ops_code(ops, 0, cx, Seq::empty(), exit_code(ops, cfg));
    lemma_proper_fill(cx, cx.lifted.len(), k);
    assert(proper(block_code(ops, cfg))) by {
        broadcast use group_proper;

    }
    let e = Seq::<Instr>::empty();
    lemma_unique(c, block_code(ops, cfg), e, e);
}

} // verus!
