//! A compiled block charges the cycle budget and hops as the guest's block does.

use vstd::prelude::*;
use vstd::arithmetic::power2::{lemma2_to64, pow2};
use crate::arith::{
    flag, lemma_const32, lemma_const64, lemma_u32w_add, s32, u32w, u64w,
};
use crate::guest::{
    chain_exit, charged, counted, hash, map_entry, map_lookup, page_counter, BlockEnd,
};
use crate::machine::{
    bin32, bin64, group_run, lemma_run_cons, lemma_run_if, lemma_run_nil, load32, load64, push32,
    push64, run, Env, Frame, Outcome, Stack, Val,
};
use crate::shape;
use crate::shape::{ChainLayout, HASH_MULT, KERNEL_HALF_BASE};
use crate::wasm::{cond, instr, Code, Instr, IntBin, IntRel, LoadOp, MemArg};

verus! {

/// How a whole block ends.
pub open spec fn finish(o: Outcome) -> BlockEnd {
    match o {
        Outcome::Next(Stack::Push(Val::I64(pc), s), f) => match *s {
            Stack::Empty => BlockEnd::Return(pc, f.world),
            _ => BlockEnd::Stuck,
        },
        Outcome::Next(_, _) => BlockEnd::Stuck,
        Outcome::Return(pc, w) => BlockEnd::Return(pc, w),
        Outcome::TailCall { slot, arg, world } => BlockEnd::Hop { slot, arg, world },
        Outcome::Trap => BlockEnd::Trap,
        Outcome::Stuck => BlockEnd::Stuck,
    }
}

/// Flags combine as truth values do.
proof fn lemma_flags(a: bool, b: bool)
    ensures
        flag(a) & flag(b) == flag(a && b),
        flag(a) | flag(b) == flag(a || b),
{
    assert(1u32 & 1 == 1 && 1u32 & 0 == 0 && 0u32 & 1 == 0 && 0u32 & 0 == 0) by (bit_vector);
    assert(1u32 | 1 == 1 && 1u32 | 0 == 1 && 0u32 | 1 == 1 && 0u32 | 0 == 0) by (bit_vector);
}

/// Code that charges the budget.
pub proof fn lemma_charge(
    chain: ChainLayout,
    n_insns: u32,
    k: Code,
    s: Stack,
    f: Frame,
    env: Env,
    sp: u32,
)
    requires
        f.locals.len() > 0,
        f.locals[0] == Val::I32(sp),
    ensures
        run(shape::charge(chain, n_insns, k), s, f, env) == match charged(
            chain,
            n_insns,
            f.world,
            sp,
        ) {
            Some(world) => run(k, s, Frame { world, ..f }, env),
            None => Outcome::Trap,
        },
{
    broadcast use lemma_run_cons, lemma_const32;

}

/// Code that hashes a pc.
proof fn lemma_hash(shift: u32, bits: u32, k: Code, s: Stack, f: Frame, env: Env, pc: u64, x: int)
    requires
        f.locals.len() > 1,
        f.locals[1] == Val::I64(pc),
        1 <= bits <= 32,
        shift < 64,
        x == pc as int / pow2(shift as nat) as int,
        0 <= x < 0x1_0000_0000_0000_0000,
    ensures
        run(shape::hash_code(shift, bits, k), s, f, env) == run(
            k,
            push32(hash(x, bits), s),
            f,
            env,
        ),
{
    let h = u64w(x * HASH_MULT);
    let c1 = instr(Instr::I32WrapI64, k);
    let c2 = instr(Instr::I64Bin(IntBin::ShrU), c1);
    let c3 = instr(Instr::I64Const((64 - bits) as i64), c2);
    let c4 = instr(Instr::I64Bin(IntBin::Mul), c3);
    let c5 = instr(Instr::I64Const(HASH_MULT as i64), c4);
    let c6 = instr(Instr::I64Bin(IntBin::ShrU), c5);
    let c7 = instr(Instr::I64Const(shift as i64), c6);
    let v = x as u64;
    let amount = u64w((shift as i64) as int);
    let amount2 = u64w(((64 - bits) as i64) as int);
    let top = u64w(h as int / pow2((64 - bits) as nat) as int);
    lemma_const64(HASH_MULT);
    lemma_run_cons(Instr::LocalGet(1), Box::new(c7), s, f, env);
    lemma_run_cons(Instr::I64Const(shift as i64), Box::new(c6), push64(pc, s), f, env);
    assert(bin64(IntBin::ShrU, pc, amount) == Some(v));
    lemma_run_cons(
        Instr::I64Bin(IntBin::ShrU),
        Box::new(c5),
        push64(amount, push64(pc, s)),
        f,
        env,
    );
    lemma_run_cons(Instr::I64Const(HASH_MULT as i64), Box::new(c4), push64(v, s), f, env);
    assert(bin64(IntBin::Mul, v, HASH_MULT) == Some(h));
    lemma_run_cons(
        Instr::I64Bin(IntBin::Mul),
        Box::new(c3),
        push64(HASH_MULT, push64(v, s)),
        f,
        env,
    );
    lemma_run_cons(Instr::I64Const((64 - bits) as i64), Box::new(c2), push64(h, s), f, env);
    assert(bin64(IntBin::ShrU, h, amount2) == Some(top));
    lemma_run_cons(
        Instr::I64Bin(IntBin::ShrU),
        Box::new(c1),
        push64(amount2, push64(h, s)),
        f,
        env,
    );
    lemma_run_cons(Instr::I32WrapI64, Box::new(k), push64(top, s), f, env);
    crate::arith::lemma_u32w_u64w(h as int / pow2((64 - bits) as nat) as int);
}

/// Code that compares a generation with its counter.
proof fn lemma_gen(off: u32, counter: u32, k: Code, s: Stack, f: Frame, env: Env, e: u32)
    requires
        f.locals.len() > 3,
        f.locals[3] == Val::I32(e),
    ensures
        run(shape::gen_check(off, counter, k), s, f, env) == match (
            load32(f.world.mem, e + off),
            load32(f.world.mem, counter as int),
        ) {
            (Some(a), Some(b)) => run(k, push32(flag(a == b), s), f, env),
            _ => Outcome::Trap,
        },
{
    broadcast use lemma_run_cons;

}

/// A 32-bit operator with its operands on the stack.
proof fn lemma_bin32_run(op: IntBin, a: u32, b: u32, v: u32, k: Code, s: Stack, f: Frame, env: Env)
    requires
        bin32(op, a, b) == Some(v),
    ensures
        run(instr(Instr::I32Bin(op), k), push32(b, push32(a, s)), f, env) == run(
            k,
            push32(v, s),
            f,
            env,
        ),
{
    lemma_run_cons(Instr::I32Bin(op), Box::new(k), push32(b, push32(a, s)), f, env);
}

/// Code that checks for a table slot.
proof fn lemma_slot(chain: ChainLayout, k: Code, s: Stack, f: Frame, env: Env, e: u32, so_far: bool)
    requires
        f.locals.len() > 3,
        f.locals[3] == Val::I32(e),
    ensures
        run(shape::slot_check(chain, k), push32(flag(so_far), s), f, env) == match load32(
            f.world.mem,
            e + chain.fn_idx_off,
        ) {
            Some(slot) => run(k, push32(flag(so_far && s32(slot) > 0), s), f, env),
            None => Outcome::Trap,
        },
{
    broadcast use lemma_run_cons;

    if let Some(slot) = load32(f.world.mem, e + chain.fn_idx_off) {
        lemma_flags(so_far, s32(slot) > 0);
    }
}

/// Code that checks the page generation and for a table slot.
proof fn lemma_page(
    chain: ChainLayout,
    k: Code,
    s: Stack,
    f: Frame,
    env: Env,
    pc: u64,
    e: u32,
    so_far: bool,
)
    requires
        chain.wf(),
        f.locals.len() > 3,
        f.locals[1] == Val::I64(pc),
        f.locals[3] == Val::I32(e),
    ensures
        run(shape::page_check(chain, k), push32(flag(so_far), s), f, env) == match (
            load32(f.world.mem, e + chain.page_gen_off),
            load32(f.world.mem, page_counter(chain, pc) + chain.page_gen_base),
            load32(f.world.mem, e + chain.fn_idx_off),
        ) {
            (Some(page), Some(page_now), Some(slot)) => run(
                k,
                push32(flag(so_far && page == page_now && s32(slot) > 0), s),
                f,
                env,
            ),
            _ => Outcome::Trap,
        },
{
    let mem = f.world.mem;
    let s1 = push32(flag(so_far), s);
    let c1 = instr(Instr::I32Bin(IntBin::And), shape::slot_check(chain, k));
    let c2 = instr(Instr::I32Rel(IntRel::Eq), c1);
    let c3 = instr(Instr::Load(LoadOp::I32, shape::word_arg(chain.page_gen_base)), c2);
    let c4 = instr(Instr::I32Bin(IntBin::Shl), c3);
    let c5 = instr(Instr::I32Const(2), c4);
    let c6 = shape::hash_code(12, chain.page_gen_bits, c5);
    assert(run(shape::page_check(chain, k), s1, f, env) == match load32(
        mem,
        e + chain.page_gen_off,
    ) {
        Some(page) => run(c6, push32(page, s1), f, env),
        None => Outcome::Trap,
    }) by {
        broadcast use lemma_run_cons;

    }
    if let Some(page) = load32(mem, e + chain.page_gen_off) {
        let s2 = push32(page, s1);
        assert(pow2(12) == 4096 && pow2(2) == 4) by {
            lemma2_to64();
        }
        lemma_hash(12, chain.page_gen_bits, c5, s2, f, env, pc, pc as int / 4096);
        let h = hash(pc as int / 4096, chain.page_gen_bits);
        let at = page_counter(chain, pc);
        assert(u32w(2) == 2);
        lemma_run_cons(Instr::I32Const(2), Box::new(c4), push32(h, s2), f, env);
        assert(bin32(IntBin::Shl, h, 2) == Some(at));
        lemma_bin32_run(IntBin::Shl, h, 2, at, c3, s2, f, env);
        lemma_run_cons(
            Instr::Load(LoadOp::I32, shape::word_arg(chain.page_gen_base)),
            Box::new(c2),
            push32(at, s2),
            f,
            env,
        );
        if let Some(now) = load32(mem, at + chain.page_gen_base) {
            lemma_run_cons(
                Instr::I32Rel(IntRel::Eq),
                Box::new(c1),
                push32(now, s2),
                f,
                env,
            );
            let ok = so_far && page == now;
            lemma_flags(so_far, page == now);
            lemma_bin32_run(
                IntBin::And,
                flag(so_far),
                flag(page == now),
                flag(ok),
                shape::slot_check(chain, k),
                s,
                f,
                env,
            );
            lemma_slot(chain, k, s, f, env, e, ok);
        }
    }
}

/// Whether a map entry is current, where all that decides it is in bounds.
pub open spec fn current(chain: ChainLayout, pc: u64, mem: Seq<u8>, e: u32) -> Option<bool> {
    match (
        load32(mem, e + chain.user_gen_off),
        load32(mem, chain.user_gen_addr as int),
        load32(mem, e + chain.global_gen_off),
        load32(mem, chain.global_gen_addr as int),
        load32(mem, e + chain.page_gen_off),
        load32(mem, page_counter(chain, pc) + chain.page_gen_base),
        load32(mem, e + chain.fn_idx_off),
    ) {
        (
            Some(user),
            Some(user_now),
            Some(global),
            Some(global_now),
            Some(page),
            Some(page_now),
            Some(slot),
        ) => Some(
            (pc >= KERNEL_HALF_BASE || user == user_now) && global == global_now && page
                == page_now && s32(slot) > 0,
        ),
        _ => None,
    }
}

/// Code that decides whether a map entry is current.
proof fn lemma_entry(chain: ChainLayout, k: Code, s: Stack, f: Frame, env: Env, pc: u64, e: u32)
    requires
        chain.wf(),
        f.locals.len() > 3,
        f.locals[1] == Val::I64(pc),
        f.locals[3] == Val::I32(e),
    ensures
        run(shape::entry_check(chain, k), s, f, env) == match current(chain, pc, f.world.mem, e) {
            Some(b) => run(k, push32(flag(b), s), f, env),
            None => Outcome::Trap,
        },
{
    let mem = f.world.mem;
    let c1 = shape::page_check(chain, k);
    let c2 = instr(Instr::I32Bin(IntBin::And), c1);
    let c3 = shape::gen_check(chain.global_gen_off, chain.global_gen_addr, c2);
    let c4 = instr(Instr::I32Bin(IntBin::Or), c3);
    let c5 = shape::gen_check(chain.user_gen_off, chain.user_gen_addr, c4);
    let kernel = pc >= KERNEL_HALF_BASE;
    let s1 = push32(flag(kernel), s);
    assert(run(shape::entry_check(chain, k), s, f, env) == run(c5, s1, f, env)) by {
        broadcast use lemma_run_cons, lemma_const64;

    }
    lemma_gen(chain.user_gen_off, chain.user_gen_addr, c4, s1, f, env, e);
    if let (Some(user), Some(user_now)) = (
        load32(mem, e + chain.user_gen_off),
        load32(mem, chain.user_gen_addr as int),
    ) {
        let b1 = kernel || user == user_now;
        lemma_flags(kernel, user == user_now);
        lemma_bin32_run(
            IntBin::Or,
            flag(kernel),
            flag(user == user_now),
            flag(b1),
            c3,
            s,
            f,
            env,
        );
        lemma_gen(
            chain.global_gen_off,
            chain.global_gen_addr,
            c2,
            push32(flag(b1), s),
            f,
            env,
            e,
        );
        if let (Some(global), Some(global_now)) = (
            load32(mem, e + chain.global_gen_off),
            load32(mem, chain.global_gen_addr as int),
        ) {
            let b2 = b1 && global == global_now;
            lemma_flags(b1, global == global_now);
            lemma_bin32_run(
                IntBin::And,
                flag(b1),
                flag(global == global_now),
                flag(b2),
                c1,
                s,
                f,
                env,
            );
            lemma_page(chain, k, s, f, env, pc, e, b2);
        }
    }
}

/// Code that hops.
proof fn lemma_hop(chain: ChainLayout, s: Stack, f: Frame, env: Env, sp: u32, e: u32)
    requires
        f.locals.len() > 3,
        f.locals[0] == Val::I32(sp),
        f.locals[3] == Val::I32(e),
    ensures
        run(shape::hop(chain), s, f, env) == match counted(chain, f.world) {
            Some(world) => match load32(world.mem, e + chain.fn_idx_off) {
                Some(slot) => Outcome::TailCall { slot, arg: sp, world },
                None => Outcome::Trap,
            },
            None => Outcome::Trap,
        },
{
    broadcast use lemma_run_cons;

}

/// The code behind the comparison of a map entry's pc.
spec fn if_found(chain: ChainLayout) -> Code {
    cond(
        None,
        shape::entry_check(chain, cond(None, shape::hop(chain), Code::Nil, Code::Nil)),
        Code::Nil,
        Code::Nil,
    )
}

/// The code that leads to the comparison.
proof fn lemma_find(chain: ChainLayout, f: Frame, env: Env, pc: u64)
    requires
        chain.wf(),
        f.locals.len() > 3,
        f.locals[1] == Val::I64(pc),
    ensures
        ({
            let e = map_entry(chain, pc);
            let f2 = Frame { locals: f.locals.update(3, Val::I32(e)), ..f };
            run(shape::lookup(chain), Stack::Empty, f, env) == match load64(
                f.world.mem,
                e as int,
            ) {
                Some(tag) => run(
                    if_found(chain),
                    push32(flag(tag == pc), Stack::Empty),
                    f2,
                    env,
                ),
                None => Outcome::Trap,
            }
        }),
{
    let s = Stack::Empty;
    let e = map_entry(chain, pc);
    let f2 = Frame { locals: f.locals.update(3, Val::I32(e)), ..f };
    let c1 = if_found(chain);
    let c2 = instr(Instr::I64Rel(IntRel::Eq), c1);
    let c3 = instr(Instr::LocalGet(1), c2);
    let c4 = instr(Instr::Load(LoadOp::I64, MemArg { offset: 0, align: 3 }), c3);
    let c5 = instr(Instr::LocalTee(3), c4);
    let c6 = instr(Instr::I32Bin(IntBin::Add), c5);
    let c7 = instr(Instr::I32Const(chain.map_base as i32), c6);
    let c8 = instr(Instr::I32Bin(IntBin::Mul), c7);
    let c9 = instr(Instr::I32Const(chain.entry_size as i32), c8);
    assert(pow2(1) == 2) by {
        lemma2_to64();
    }
    lemma_hash(1, chain.map_bits, c9, s, f, env, pc, pc as int / 2);
    let h = hash(pc as int / 2, chain.map_bits);
    lemma_const32(chain.entry_size);
    lemma_const32(chain.map_base);
    lemma_run_cons(
        Instr::I32Const(chain.entry_size as i32),
        Box::new(c8),
        push32(h, s),
        f,
        env,
    );
    let prod = u32w(h * chain.entry_size);
    lemma_bin32_run(IntBin::Mul, h, chain.entry_size, prod, c7, s, f, env);
    lemma_run_cons(
        Instr::I32Const(chain.map_base as i32),
        Box::new(c6),
        push32(prod, s),
        f,
        env,
    );
    lemma_u32w_add(chain.map_base as int, h * chain.entry_size);
    lemma_bin32_run(IntBin::Add, prod, chain.map_base, e, c5, s, f, env);
    lemma_run_cons(Instr::LocalTee(3), Box::new(c4), push32(e, s), f, env);
    assert(run(c4, push32(e, s), f2, env) == match load64(f.world.mem, e as int) {
        Some(tag) => run(c1, push32(flag(tag == pc), s), f2, env),
        None => Outcome::Trap,
    }) by {
        broadcast use lemma_run_cons;

    }
}

/// Code that looks the next pc up: it hops, or goes on with the world as it is.
proof fn lemma_lookup(chain: ChainLayout, f: Frame, env: Env, sp: u32, pc: u64)
    requires
        chain.wf(),
        f.locals.len() > 3,
        f.locals[0] == Val::I32(sp),
        f.locals[1] == Val::I64(pc),
    ensures
        ({
            let e = map_entry(chain, pc);
            let f2 = Frame { locals: f.locals.update(3, Val::I32(e)), ..f };
            run(shape::lookup(chain), Stack::Empty, f, env) == match map_lookup(
                chain,
                pc,
                f.world.mem,
            ) {
                None => Outcome::Trap,
                Some(None) => Outcome::Next(Stack::Empty, f2),
                Some(Some(_)) => match counted(chain, f.world) {
                    Some(world) => match load32(world.mem, e + chain.fn_idx_off) {
                        Some(slot) => Outcome::TailCall { slot, arg: sp, world },
                        None => Outcome::Trap,
                    },
                    None => Outcome::Trap,
                },
            }
        }),
{
    let s = Stack::Empty;
    let e = map_entry(chain, pc);
    let f2 = Frame { locals: f.locals.update(3, Val::I32(e)), ..f };
    let mem = f.world.mem;
    let inner = cond(None, shape::hop(chain), Code::Nil, Code::Nil);
    let check = shape::entry_check(chain, inner);
    lemma_find(chain, f, env, pc);
    if let Some(tag) = load64(mem, e as int) {
        lemma_run_if(
            None,
            Box::new(check),
            Box::new(Code::Nil),
            Box::new(Code::Nil),
            push32(flag(tag == pc), s),
            f2,
            env,
        );
        lemma_run_nil(s, f2, env);
        if tag == pc {
            lemma_entry(chain, inner, s, f2, env, pc, e);
            if let Some(b) = current(chain, pc, mem, e) {
                lemma_run_if(
                    None,
                    Box::new(shape::hop(chain)),
                    Box::new(Code::Nil),
                    Box::new(Code::Nil),
                    push32(flag(b), s),
                    f2,
                    env,
                );
                lemma_hop(chain, s, f2, env, sp, e);
            }
        }
    }
}

/// The end of a chaining block does what the guest's exit does.
pub proof fn lemma_epilogue(chain: ChainLayout, f: Frame, env: Env, sp: u32, pc: u64)
    requires
        chain.wf(),
        f.locals.len() > 3,
        f.locals[0] == Val::I32(sp),
    ensures
        finish(
            run(shape::epilogue(chain, Code::Nil), push64(pc, Stack::Empty), f, env),
        ) == chain_exit(chain, pc, f.world, sp),
{
    let s = Stack::Empty;
    let f1 = Frame { locals: f.locals.update(1, Val::I64(pc)), ..f };
    let last = instr(Instr::LocalGet(1), Code::Nil);
    let c1 = cond(None, shape::lookup(chain), Code::Nil, last);
    assert(run(shape::epilogue(chain, Code::Nil), push64(pc, s), f, env) == match load32(
        f.world.mem,
        sp + chain.n_cycles_off,
    ) {
        Some(n) => run(c1, push32(flag(s32(n) > 0), s), f1, env),
        None => Outcome::Trap,
    }) by {
        broadcast use lemma_run_cons;

    }
    if let Some(n) = load32(f.world.mem, sp + chain.n_cycles_off) {
        lemma_run_if(
            None,
            Box::new(shape::lookup(chain)),
            Box::new(Code::Nil),
            Box::new(last),
            push32(flag(s32(n) > 0), s),
            f1,
            env,
        );
        lemma_run_nil(s, f1, env);
        lemma_lookup(chain, f1, env, sp, pc);
        let f2 = Frame { locals: f1.locals.update(3, Val::I32(map_entry(chain, pc))), ..f1 };
        assert(run(last, s, f1, env) == Outcome::Next(push64(pc, s), f1)) by {
            broadcast use group_run;

        }
        assert(run(last, s, f2, env) == Outcome::Next(push64(pc, s), f2)) by {
            broadcast use group_run;

        }
    }
}

} // verus!
