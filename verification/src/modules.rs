//! What the modules of blocks look like from outside.

use vstd::prelude::*;
use vstd::arithmetic::power2::pow2;
use crate::block::zeros;
use crate::chaining::finish;
use crate::codegen::{block_locals, block_module, law_used_helpers, preflight_module};
use crate::encode::{sleb_len, uleb_len, Body, Export, ImportTy, Section, MAX_BODY};
use crate::guest::BlockEnd;
use crate::ir::{MulDivOp, Op};
use crate::machine::{group_run, run, Env, Frame, Stack, Val, World};
use crate::shape::{
    align_of, calls_helper, lifted_regs, reg_arg, spec_helper_id, used_helpers, wide, word_arg,
    Config,
};
use crate::unique::proper;
use crate::wasm::{flat, Code, Instr, ValTy};

verus! {

/// **A block's module is one function over the guest's memory.** It imports the guest's memory,
/// its function table if and only if the block chains, and its helpers. It defines one function
/// of one 32-bit parameter and one 64-bit result, exports it as "block" under the number behind
/// those of the helpers, and nothing else. Besides that function's type it has those of loads
/// and stores, and that of atomics if the block has one.
pub proof fn law_module_shape(ops: Seq<Op>, cfg: Config)
    ensures
        ({
            let m = block_module(ops, cfg);
            let n = used_helpers(ops).len();
            let first = if cfg.chain is Some {
                2int
            } else {
                1
            };
            &&& m.len() == 5
            &&& m[0] matches Section::Types(t) && t[0].params == seq![ValTy::I32] && t[0].results
                == seq![ValTy::I64] && t.len() == if exists|i: int|
                0 <= i < ops.len() && (#[trigger] ops[i]) is Amo {
                4int
            } else {
                3
            }
            &&& m[1] matches Section::Imports(i) && {
                &&& i.len() == first + n
                &&& forall|k: int| 0 <= k < i.len() ==> (#[trigger] i[k]).module == "guest"@
                &&& i[0].name == "mem"@ && i[0].ty == ImportTy::Memory(0)
                &&& cfg.chain is Some ==> i[1].name == "table"@ && i[1].ty == ImportTy::FuncTable(0)
                &&& forall|k: int| first <= k < i.len() ==> (#[trigger] i[k]).ty is Func
            }
            &&& m[2] == Section::Functions(seq![0u32])
            &&& m[3] matches Section::Exports(e) && e.len() == 1 && e[0].name == "block"@ && e[0].func
                == n as u32
            &&& m[4] matches Section::Bodies(b) && b.len() == 1
        }),
{
    let used = used_helpers(ops);
    law_used_helpers(ops);
    if exists|i: int| 0 <= i < ops.len() && (#[trigger] ops[i]) is Amo {
        let i = choose|i: int| 0 <= i < ops.len() && (#[trigger] ops[i]) is Amo;
        let id = spec_helper_id(ops[i])->0;
        assert(calls_helper(ops, id));
        assert(used.contains(id));
        assert(id == 11 || id == 12);
    }
    assert forall|id: usize| (id == 11 || id == 12) && used.contains(id) implies exists|i: int|
        0 <= i < ops.len() && (#[trigger] ops[i]) is Amo by {
        assert(calls_helper(ops, id));
        let i = choose|i: int| 0 <= i < ops.len() && spec_helper_id(#[trigger] ops[i]) == Some(id);
        assert(ops[i] is Amo);
    }
}

/// What a local of the type holds when a function is entered.
pub open spec fn starts_as(v: Val, ty: ValTy) -> bool {
    v == match ty {
        ValTy::I32 => Val::I32(0),
        ValTy::I64 => Val::I64(0),
    }
}

/// **A block's locals.** Behind its parameter a block has two 64-bit locals, a 32-bit one, a
/// 64-bit one if it has an upper-half product, and a 64-bit one for each register that it keeps
/// in a local.
pub proof fn law_block_locals(ops: Seq<Op>, lift: bool)
    requires
        lifted_regs(ops, lift).len() <= 32,
    ensures
        ({
            let z = zeros(block_locals(ops, lift));
            let upper = exists|i: int|
                #![trigger ops[i]]
                0 <= i < ops.len() && (ops[i] matches Op::MulDiv { op, .. } && (op == MulDivOp::Mulh
                    || op == MulDivOp::Mulhsu || op == MulDivOp::Mulhu));
            &&& z.len() == 3 + lifted_regs(ops, lift).len() + if upper {
                1int
            } else {
                0
            }
            &&& forall|i: int|
                0 <= i < z.len() ==> starts_as(
                    #[trigger] z[i],
                    if i == 2 {
                        ValTy::I32
                    } else {
                        ValTy::I64
                    },
                )
        }),
{
    let n = lifted_regs(ops, lift).len();
    let g1 = seq![(2u32, ValTy::I64)];
    let fixed = seq![(2u32, ValTy::I64), (1u32, ValTy::I32)];
    assert(fixed.drop_last() =~= g1);
    assert(g1.drop_last() =~= Seq::empty());
    reveal_with_fuel(zeros, 3);
    assert(zeros(fixed).len() == 3);
    let scratch = if wide(ops) {
        fixed.push((1u32, ValTy::I64))
    } else {
        fixed
    };
    assert(fixed.push((1u32, ValTy::I64)).drop_last() =~= fixed);
    assert(scratch.push((n as u32, ValTy::I64)).drop_last() =~= scratch);
}

proof fn lemma_flat_from(p: Seq<Instr>, c: Code)
    ensures
        flat(p, c) == p + flat(Seq::empty(), c),
    decreases c,
{
    reveal(flat);
    let e = Seq::<Instr>::empty();
    match c {
        Code::Nil => {
            assert(p + e =~= p);
        },
        Code::Cons(i, k) => {
            lemma_flat_from(p.push(i), *k);
            lemma_flat_from(e.push(i), *k);
            assert(flat(p, c) =~= p + flat(e, c));
        },
        Code::If(ty, yes, no, k) => {
            lemma_flat_from(p.push(Instr::If(ty)), *yes);
            lemma_flat_from(e.push(Instr::If(ty)), *yes);
            let q = flat(p.push(Instr::If(ty)), *yes);
            let r = flat(e.push(Instr::If(ty)), *yes);
            assert(q =~= p + r);
            let (q2, r2) = if *no is Nil {
                (q, r)
            } else {
                lemma_flat_from(q.push(Instr::Else), *no);
                lemma_flat_from(r.push(Instr::Else), *no);
                (flat(q.push(Instr::Else), *no), flat(r.push(Instr::Else), *no))
            };
            assert(q2 =~= p + r2);
            lemma_flat_from(q2.push(Instr::End), *k);
            lemma_flat_from(r2.push(Instr::End), *k);
            assert(flat(p, c) =~= p + flat(e, c));
        },
    }
}

/// **Nested code is laid out in order.** A conditional is laid out as its head, its first branch,
/// its second branch behind a separator if it has one, and its end; what follows comes behind.
pub proof fn law_layout(i: Instr, ty: Option<ValTy>, yes: Code, no: Code, k: Code)
    ensures
        flat(Seq::empty(), Code::Nil).len() == 0,
        flat(Seq::empty(), Code::Cons(i, Box::new(k))) == seq![i] + flat(Seq::empty(), k),
        ({
            let other = if no is Nil {
                Seq::empty()
            } else {
                seq![Instr::Else] + flat(Seq::empty(), no)
            };
            flat(Seq::empty(), Code::If(ty, Box::new(yes), Box::new(no), Box::new(k))) == seq![
                Instr::If(ty),
            ] + flat(Seq::empty(), yes) + other + seq![Instr::End] + flat(Seq::empty(), k)
        }),
{
    reveal(flat);
    let e = Seq::<Instr>::empty();
    lemma_flat_from(e.push(i), k);
    assert(e.push(i) =~= seq![i]);
    let a = flat(e.push(Instr::If(ty)), yes);
    lemma_flat_from(e.push(Instr::If(ty)), yes);
    lemma_flat_from(a.push(Instr::Else), no);
    let b = if no is Nil {
        a
    } else {
        flat(a.push(Instr::Else), no)
    };
    lemma_flat_from(b.push(Instr::End), k);
    let other = if no is Nil {
        e
    } else {
        seq![Instr::Else] + flat(e, no)
    };
    assert(a =~= seq![Instr::If(ty)] + flat(e, yes));
    assert(b =~= a + other);
    assert(flat(b.push(Instr::End), k) =~= a + other + seq![Instr::End] + flat(e, k));
}

/// **The trial module gives 42.** Its one function, of the type of blocks and exported as "block",
/// needs no import and returns 42, whatever its argument and the world.
pub proof fn law_preflight(sp: u32, w: World, env: Env)
    ensures
        ({
            let m = preflight_module();
            let c = Code::Cons(Instr::I64Const(42), Box::new(Code::Nil));
            &&& m.len() == 4
            &&& m[0] matches Section::Types(t) && t.len() == 1 && t[0].params == seq![ValTy::I32]
                && t[0].results == seq![ValTy::I64]
            &&& m[1] == Section::Functions(seq![0u32])
            &&& m[2] == Section::Exports(seq![Export { name: "block"@, func: 0 }])
            &&& m[3] == Section::Bodies(
                seq![Body { locals: Seq::empty(), code: flat(Seq::empty(), c).push(Instr::End) }],
            )
            &&& proper(c)
            &&& finish(run(c, Stack::Empty, Frame { locals: seq![Val::I32(sp)], world: w }, env))
                == BlockEnd::Return(42, w)
        }),
{
    broadcast use group_run;

    reveal(flat);
    reveal(proper);
    reveal_with_fuel(flat, 2);
    reveal_with_fuel(proper, 2);
    let c = Code::Cons(Instr::I64Const(42), Box::new(Code::Nil));
    assert(flat(Seq::empty(), c).push(Instr::End) =~= seq![Instr::I64Const(42), Instr::End]);
}

/// **Numbers take a byte for every seven bits.** An unsigned number has `k` bytes if and only if
/// it needs more than `7 * (k - 1)` bits and no more than `7 * k`; a signed one likewise, with
/// its sign among the bits. The number zero has one byte.
pub proof fn law_lengths(n: nat, v: int, k: nat)
    requires
        k > 0,
    ensures
        uleb_len(n) <= k <==> n < pow2(7 * k),
        sleb_len(v) <= k <==> -pow2((7 * k - 1) as nat) <= v < pow2((7 * k - 1) as nat),
        uleb_len(n) >= 1,
        sleb_len(v) >= 1,
    decreases k,
{
    vstd::arithmetic::power2::lemma2_to64();
    if k > 1 {
        let j = (k - 1) as nat;
        law_lengths(n / 128, v / 128, j);
        vstd::arithmetic::power2::lemma_pow2_adds(7 * j, 7);
        vstd::arithmetic::power2::lemma_pow2_adds((7 * j - 1) as nat, 7);
        assert(7 * j + 7 == 7 * k);
        assert(pow2(7 * k) == pow2(7 * j) * 128);
        assert(pow2((7 * k - 1) as nat) == pow2((7 * j - 1) as nat) * 128);
        let p = pow2(7 * j) as int;
        let q = pow2((7 * j - 1) as nat) as int;
        assert(p >= 128 && q >= 64) by {
            if j > 1 {
                vstd::arithmetic::power2::lemma_pow2_strictly_increases(7, 7 * j);
                vstd::arithmetic::power2::lemma_pow2_strictly_increases(6, (7 * j - 1) as nat);
            }
        }
    } else {
        lemma_positive(n, v);
    }
}

proof fn lemma_positive(n: nat, v: int)
    ensures
        uleb_len(n) >= 1,
        sleb_len(v) >= 1,
        n >= 128 ==> uleb_len(n) >= 2,
        !(-64 <= v < 64) ==> sleb_len(v) >= 2,
    decreases
            n + if v < 0 {
                -v
            } else {
                v
            },
{
    if n >= 128 {
        lemma_positive(n / 128, 0);
    }
    if !(-64 <= v < 64) {
        lemma_positive(0, v / 128);
    }
}

/// **The longest body is the longest that has a place.** The section of a body that long has the
/// largest length of 32 bits: one byte for the number of bodies, and five for the body's own
/// length.
pub proof fn law_longest_body()
    ensures
        MAX_BODY + 1 + uleb_len(MAX_BODY as nat) == 0xffff_ffff,
{
    vstd::arithmetic::power2::lemma2_to64();
    vstd::arithmetic::power2::lemma2_to64_rest();
    law_lengths(MAX_BODY as nat, 0, 5);
    law_lengths(MAX_BODY as nat, 0, 4);
}

/// **Accesses claim their natural alignment.** An access of 1, 2, 4 or 8 bytes claims to be aligned
/// to as many; registers are accessed as eight bytes, counters as four, each at its own offset.
pub proof fn law_alignment(bytes: u64, off: u32)
    requires
        bytes == 1 || bytes == 2 || bytes == 4 || bytes == 8,
    ensures
        pow2(align_of(bytes) as nat) == bytes,
        reg_arg(off).offset == off && pow2(reg_arg(off).align as nat) == 8,
        word_arg(off).offset == off && pow2(word_arg(off).align as nat) == 4,
{
    vstd::arithmetic::power2::lemma2_to64();
}

} // verus!
