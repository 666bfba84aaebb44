//! Compiled products, quotients and remainders are those of the guest.

use vstd::prelude::*;
use vstd::arithmetic::div_mod::{
    lemma_fundamental_div_mod, lemma_fundamental_div_mod_converse, lemma_mul_mod_noop_general,
};
use vstd::arithmetic::power2::{lemma2_to64, lemma2_to64_rest, pow2};
use crate::arith::{
    abs, flag, lemma_u32w_u64w, lemma_u64w_add, s32, s64, sext32, tdiv, trem, u32w, u64w,
};
use crate::compute::{lemma_bin32, lemma_bin_reg, At};
use crate::guest::{mul_div_value, reg};
use crate::ir::MulDivOp;
use crate::machine::{
    bin64, group_run, lemma_run_cons, push64, run, Env, Frame, Stack, Val,
};
use crate::relate::{group_rel, known, lemma_rel_scratch, lemma_store_reg, rel, write_base};
use crate::shape;
use crate::shape::{spec_div_op, spec_half, Half, FIXED_LOCALS};
use crate::wasm::{instr, Code, Instr, IntBin};

verus! {

/// 2 to the 32nd.
#[verifier::inline]
pub open spec fn b32() -> int {
    0x1_0000_0000
}

/// 2 to the 64th.
#[verifier::inline]
pub open spec fn b64() -> int {
    0x1_0000_0000_0000_0000
}

/// Powers that shifts divide by.
proof fn lemma_shift_powers()
    ensures
        pow2(32) == b32(),
        pow2(63) == 0x8000_0000_0000_0000,
{
    lemma2_to64();
    lemma2_to64_rest();
}

/// Schoolbook multiplication of halves gives the upper half of the product, and no sum on
/// the way exceeds 64 bits.
proof fn lemma_schoolbook(ah: int, al: int, bh: int, bl: int)
    requires
        0 <= ah < b32(),
        0 <= al < b32(),
        0 <= bh < b32(),
        0 <= bl < b32(),
    ensures
        ({
            let a = ah * b32() + al;
            let b = bh * b32() + bl;
            let t = ah * bl + (al * bl) / b32();
            let u = al * bh + t % b32();
            let hi = ah * bh + t / b32() + u / b32();
            &&& 0 <= al * bl < b64()
            &&& 0 <= ah * bl < b64()
            &&& 0 <= al * bh < b64()
            &&& 0 <= ah * bh < b64()
            &&& 0 <= t < b64()
            &&& 0 <= u < b64()
            &&& 0 <= ah * bh + t / b32() < b64()
            &&& 0 <= hi < b64()
            &&& (a * b) / b64() == hi
        }),
{
    let a = ah * b32() + al;
    let b = bh * b32() + bl;
    let p = al * bl;
    let t = ah * bl + p / b32();
    let u = al * bh + t % b32();
    let hi = ah * bh + t / b32() + u / b32();
    let top = (b32() - 1) * (b32() - 1);
    assert(0 <= al * bl <= top) by (nonlinear_arith)
        requires
            0 <= al <= b32() - 1,
            0 <= bl <= b32() - 1,
            top == (b32() - 1) * (b32() - 1),
    ;
    assert(0 <= ah * bl <= top) by (nonlinear_arith)
        requires
            0 <= ah <= b32() - 1,
            0 <= bl <= b32() - 1,
            top == (b32() - 1) * (b32() - 1),
    ;
    assert(0 <= al * bh <= top) by (nonlinear_arith)
        requires
            0 <= al <= b32() - 1,
            0 <= bh <= b32() - 1,
            top == (b32() - 1) * (b32() - 1),
    ;
    assert(0 <= ah * bh <= top) by (nonlinear_arith)
        requires
            0 <= ah <= b32() - 1,
            0 <= bh <= b32() - 1,
            top == (b32() - 1) * (b32() - 1),
    ;
    let r = (u % b32()) * b32() + p % b32();
    let hh = ah * bh;
    let hl = ah * bl;
    let lh = al * bh;
    assert(a * b == hh * b64() + hl * b32() + lh * b32() + p) by (nonlinear_arith)
        requires
            a == ah * b32() + al,
            b == bh * b32() + bl,
            p == al * bl,
            hh == ah * bh,
            hl == ah * bl,
            lh == al * bh,
    ;
    assert(a * b == hi * b64() + r);
    lemma_fundamental_div_mod_converse(a * b, b64(), hi, r);
}

/// Masks and shifts by a word's half.
proof fn lemma_halves(x: u64)
    ensures
        x & u64w(0xffff_ffff) == x as int % b32(),
        bin64(IntBin::ShrU, x, u64w(32)) == Some((x as int / b32()) as u64),
        0 <= x as int / b32() < b32(),
        x as int == (x as int / b32()) * b32() + x as int % b32(),
{
    lemma_shift_powers();
    assert(x & 0xffff_ffff == x % 0x1_0000_0000) by (bit_vector);
}

/// The locals while a product or quotient is computed.
pub open spec fn loaded(f: Frame, a: u64, b: u64) -> bool {
    f.locals.len() >= 3 && f.locals[1] == Val::I64(a) && f.locals[2] == Val::I64(b)
}

/// The middle sum of a product of halves.
pub open spec fn middle(a: u64, b: u64) -> u64 {
    let ah = a as int / b32();
    let al = a as int % b32();
    let bl = b as int % b32();
    (ah * bl + (al * bl) / b32()) as u64
}

/// The sum that carries from the middle.
pub open spec fn carry(a: u64, b: u64) -> u64 {
    let al = a as int % b32();
    let bh = b as int / b32();
    (al * bh + middle(a, b) as int % b32()) as u64
}

/// Upper and lower half of a word.
pub open spec fn upper(x: u64) -> u64 {
    (x as int / b32()) as u64
}

pub open spec fn lower(x: u64) -> u64 {
    (x as int % b32()) as u64
}

proof fn lemma_high_half(n: u32, x: u64, k: Code, s: Stack, f: Frame, env: Env)
    requires
        n < f.locals.len(),
        f.locals[n as int] == Val::I64(x),
    ensures
        run(shape::high_half(n, k), s, f, env) == run(k, push64(upper(x), s), f, env),
{
    broadcast use group_run;

    lemma_halves(x);
}

proof fn lemma_low_half(n: u32, x: u64, k: Code, s: Stack, f: Frame, env: Env)
    requires
        n < f.locals.len(),
        f.locals[n as int] == Val::I64(x),
    ensures
        run(shape::low_half(n, k), s, f, env) == run(k, push64(lower(x), s), f, env),
{
    broadcast use group_run;

    lemma_halves(x);
}

/// The operators on the way to the middle sum do not wrap.
proof fn lemma_middle_values(a: u64, b: u64) -> (r: (u64, u64, u64))
    ensures
        bin64(IntBin::Mul, upper(a), lower(b)) == Some(r.0),
        bin64(IntBin::Mul, lower(a), lower(b)) == Some(r.1),
        bin64(IntBin::ShrU, r.1, u64w(32)) == Some(r.2),
        bin64(IntBin::Add, r.0, r.2) == Some(middle(a, b)),
{
    let ah = a as int / b32();
    let al = a as int % b32();
    let bh = b as int / b32();
    let bl = b as int % b32();
    lemma_halves(a);
    lemma_halves(b);
    lemma_schoolbook(ah, al, bh, bl);
    lemma_halves((al * bl) as u64);
    ((ah * bl) as u64, (al * bl) as u64, ((al * bl) / b32()) as u64)
}

/// Nor do those from there to the upper half.
proof fn lemma_upper_values(a: u64, b: u64) -> (r: (u64, u64, u64, u64))
    ensures
        bin64(IntBin::Mul, upper(a), upper(b)) == Some(r.0),
        bin64(IntBin::Add, r.0, upper(middle(a, b))) == Some(r.1),
        bin64(IntBin::Mul, lower(a), upper(b)) == Some(r.2),
        bin64(IntBin::Add, r.2, lower(middle(a, b))) == Some(carry(a, b)),
        bin64(IntBin::ShrU, carry(a, b), u64w(32)) == Some(r.3),
        bin64(IntBin::Add, r.1, r.3) == Some(u64w((a * b) / b64())),
{
    let ah = a as int / b32();
    let al = a as int % b32();
    let bh = b as int / b32();
    let bl = b as int % b32();
    lemma_halves(a);
    lemma_halves(b);
    lemma_schoolbook(ah, al, bh, bl);
    let t = middle(a, b);
    let u = carry(a, b);
    lemma_halves(t);
    lemma_halves(u);
    let sum = (ah * bh + t as int / b32()) as u64;
    assert((a * b) / b64() == sum + u as int / b32());
    ((ah * bh) as u64, sum, (al * bh) as u64, (u as int / b32()) as u64)
}

/// First half of the product: the middle sum.
proof fn lemma_mulhu_middle(k: Code, s: Stack, f: Frame, env: Env, a: u64, b: u64)
    requires
        loaded(f, a, b),
        f.locals.len() > FIXED_LOCALS,
    ensures
        run(shape::mulhu(k), s, f, env) == run(
            shape::mulhu_upper(k),
            s,
            Frame {
                locals: f.locals.update(FIXED_LOCALS as int, Val::I64(middle(a, b))),
                ..f
            },
            env,
        ),
{
    let (p, q, r) = lemma_middle_values(a, b);
    let end = instr(
        Instr::I64Bin(IntBin::Mul),
        instr(
            Instr::I64Const(32),
            instr(
                Instr::I64Bin(IntBin::ShrU),
                instr(
                    Instr::I64Bin(IntBin::Add),
                    instr(Instr::LocalSet(FIXED_LOCALS), shape::mulhu_upper(k)),
                ),
            ),
        ),
    );
    let c1 = shape::low_half(1, shape::low_half(2, end));
    let c2 = instr(Instr::I64Bin(IntBin::Mul), c1);
    let c3 = shape::low_half(2, c2);
    assert(shape::mulhu(k) == shape::high_half(1, c3));
    lemma_high_half(1, a, c3, s, f, env);
    let s1 = push64(upper(a), s);
    lemma_low_half(2, b, c2, s1, f, env);
    let s2 = push64(p, s);
    assert(run(c2, push64(lower(b), s1), f, env) == run(c1, s2, f, env)) by {
        lemma_bin64_run(IntBin::Mul, upper(a), lower(b), p, c1, s, f, env);
    }
    lemma_low_half(1, a, shape::low_half(2, end), s2, f, env);
    let s3 = push64(lower(a), s2);
    lemma_low_half(2, b, end, s3, f, env);
    lemma_tail(
        lower(a),
        lower(b),
        q,
        r,
        p,
        middle(a, b),
        instr(Instr::LocalSet(FIXED_LOCALS), shape::mulhu_upper(k)),
        s,
        f,
        env,
    );
    lemma_run_cons(
        Instr::LocalSet(FIXED_LOCALS),
        Box::new(shape::mulhu_upper(k)),
        push64(middle(a, b), s),
        f,
        env,
    );
}

/// An operator with its operands on the stack.
proof fn lemma_bin64_run(
    op: IntBin,
    a: u64,
    b: u64,
    v: u64,
    k: Code,
    s: Stack,
    f: Frame,
    env: Env,
)
    requires
        bin64(op, a, b) == Some(v),
    ensures
        run(instr(Instr::I64Bin(op), k), push64(b, push64(a, s)), f, env) == run(
            k,
            push64(v, s),
            f,
            env,
        ),
{
    lemma_run_cons(Instr::I64Bin(op), Box::new(k), push64(b, push64(a, s)), f, env);
}

/// A product shifted down by half a word and added to what is below it.
proof fn lemma_tail(
    a: u64,
    b: u64,
    q: u64,
    r: u64,
    below: u64,
    v: u64,
    k: Code,
    s: Stack,
    f: Frame,
    env: Env,
)
    requires
        bin64(IntBin::Mul, a, b) == Some(q),
        bin64(IntBin::ShrU, q, u64w(32)) == Some(r),
        bin64(IntBin::Add, below, r) == Some(v),
    ensures
        run(
            instr(
                Instr::I64Bin(IntBin::Mul),
                instr(
                    Instr::I64Const(32),
                    instr(Instr::I64Bin(IntBin::ShrU), instr(Instr::I64Bin(IntBin::Add), k)),
                ),
            ),
            push64(b, push64(a, push64(below, s))),
            f,
            env,
        ) == run(k, push64(v, s), f, env),
{
    let c1 = instr(Instr::I64Bin(IntBin::Add), k);
    let c2 = instr(Instr::I64Bin(IntBin::ShrU), c1);
    let c3 = instr(Instr::I64Const(32), c2);
    let s1 = push64(below, s);
    lemma_bin64_run(IntBin::Mul, a, b, q, c3, s1, f, env);
    lemma_run_cons(Instr::I64Const(32), Box::new(c2), push64(q, s1), f, env);
    lemma_bin64_run(IntBin::ShrU, q, u64w(32), r, c1, s1, f, env);
    lemma_bin64_run(IntBin::Add, below, r, v, k, s, f, env);
}

/// Second half of the product: what carries into the upper half.
proof fn lemma_mulhu_upper(k: Code, s: Stack, f: Frame, env: Env, a: u64, b: u64)
    requires
        loaded(f, a, b),
        f.locals.len() > FIXED_LOCALS,
        f.locals[FIXED_LOCALS as int] == Val::I64(middle(a, b)),
    ensures
        run(shape::mulhu_upper(k), s, f, env) == run(
            k,
            push64(u64w((a * b) / b64()), s),
            f,
            env,
        ),
{
    let (p, q, r, c) = lemma_upper_values(a, b);
    let t = middle(a, b);
    let hi = u64w((a * b) / b64());
    let c1 = instr(Instr::I64Bin(IntBin::Add), k);
    let c2 = instr(Instr::I64Bin(IntBin::ShrU), c1);
    let c3 = instr(Instr::I64Const(32), c2);
    let c4 = instr(Instr::I64Bin(IntBin::Add), c3);
    let c5 = shape::low_half(FIXED_LOCALS, c4);
    let c6 = instr(Instr::I64Bin(IntBin::Mul), c5);
    let c7 = shape::high_half(2, c6);
    let c8 = shape::low_half(1, c7);
    let c9 = instr(Instr::I64Bin(IntBin::Add), c8);
    let c10 = shape::high_half(FIXED_LOCALS, c9);
    let c11 = instr(Instr::I64Bin(IntBin::Mul), c10);
    let c12 = shape::high_half(2, c11);
    assert(shape::mulhu_upper(k) == shape::high_half(1, c12));
    lemma_high_half(1, a, c12, s, f, env);
    lemma_high_half(2, b, c11, push64(upper(a), s), f, env);
    lemma_bin64_run(IntBin::Mul, upper(a), upper(b), p, c10, s, f, env);
    lemma_high_half(FIXED_LOCALS, t, c9, push64(p, s), f, env);
    lemma_bin64_run(IntBin::Add, p, upper(t), q, c8, s, f, env);
    let s1 = push64(q, s);
    lemma_low_half(1, a, c7, s1, f, env);
    lemma_high_half(2, b, c6, push64(lower(a), s1), f, env);
    lemma_bin64_run(IntBin::Mul, lower(a), upper(b), r, c5, s1, f, env);
    lemma_low_half(FIXED_LOCALS, t, c4, push64(r, s1), f, env);
    lemma_bin64_run(IntBin::Add, r, lower(t), carry(a, b), c3, s1, f, env);
    lemma_run_cons(Instr::I64Const(32), Box::new(c2), push64(carry(a, b), s1), f, env);
    lemma_bin64_run(IntBin::ShrU, carry(a, b), u64w(32), c, c1, s1, f, env);
    lemma_bin64_run(IntBin::Add, q, c, hi, k, s, f, env);
}

/// The correction for a negative factor.
proof fn lemma_sign(a: u64, b: u64)
    ensures
        bin64(IntBin::ShrS, a, u64w(63)) matches Some(m) && m & b == if s64(a) < 0 {
            b
        } else {
            0
        },
{
    lemma_shift_powers();
    assert(0xffff_ffff_ffff_ffffu64 & b == b) by (bit_vector);
    assert(0u64 & b == 0) by (bit_vector);
    let d: int = 0x8000_0000_0000_0000;
    assert(bin64(IntBin::ShrS, a, u64w(63)) == Some(u64w(s64(a) / d)));
    if s64(a) < 0 {
        assert(s64(a) / d == -1);
        assert(u64w(-1) == 0xffff_ffff_ffff_ffff);
    } else {
        assert(s64(a) / d == 0);
    }
}

/// The upper half of a product of which the first factor, or both, are signed.
proof fn lemma_signed_upper(a: u64, b: u64)
    ensures
        ({
            let hi = u64w((a * b) / b64());
            let na: int = if s64(a) < 0 { b as int } else { 0 };
            let nb: int = if s64(b) < 0 { a as int } else { 0 };
            &&& u64w(u64w(hi - na) - nb) == u64w((s64(a) * s64(b)) / b64())
            &&& u64w(hi - na) == u64w((s64(a) * b) / b64())
        }),
{
    let q = (a * b) / b64();
    let hi = u64w(q);
    let na: int = if s64(a) < 0 { b as int } else { 0 };
    let nb: int = if s64(b) < 0 { a as int } else { 0 };
    let nn: int = if s64(a) < 0 && s64(b) < 0 { 1 } else { 0 };
    let r = (a * b) % b64();
    lemma_fundamental_div_mod(a * b, b64());
    assert(0 <= a * b) by (nonlinear_arith)
        requires
            a >= 0,
            b >= 0,
    ;
    // The first factor signed.
    assert(s64(a) * b == a * b - na * b64()) by (nonlinear_arith)
        requires
            s64(a) == a || (s64(a) == a - b64() && na == b),
            s64(a) == a ==> na == 0,
    ;
    lemma_fundamental_div_mod_converse(s64(a) * b, b64(), q - na, r);
    lemma_u64w_add(q, na);
    // Both signed.
    assert(s64(a) * s64(b) == a * b - (na + nb) * b64() + nn * b64() * b64()) by (nonlinear_arith)
        requires
            (s64(a) == a && na == 0) || (s64(a) == a - b64() && na == b),
            (s64(b) == b && nb == 0) || (s64(b) == b - b64() && nb == a),
            nn == 1 <==> (s64(a) == a - b64() && s64(b) == b - b64()),
            nn == 0 || nn == 1,
    ;
    let q2 = q - na - nb + nn * b64();
    assert(s64(a) * s64(b) == q2 * b64() + r) by (nonlinear_arith)
        requires
            s64(a) * s64(b) == a * b - (na + nb) * b64() + nn * b64() * b64(),
            a * b == b64() * q + r,
            q2 == q - na - nb + nn * b64(),
    ;
    lemma_fundamental_div_mod_converse(s64(a) * s64(b), b64(), q2, r);
    lemma_u64w_add(q - na, nb);
    assert(u64w(q2) == u64w(q - na - nb)) by {
        if nn == 1 {
            lemma_u64w_add(q - na - nb, b64());
        }
    }
}

/// The value of an operand of a division.
pub open spec fn operand(h: Half, a: u64) -> u64 {
    match h {
        Half::Whole => a,
        Half::Signed => sext32(u32w(a as int)),
        Half::Unsigned => u32w(a as int) as u64,
    }
}

/// Code that reads the operands puts them into locals 1 and 2.
proof fn lemma_operands(at: At, rs1: u32, rs2: u32, h: Half, k: Code, s: Stack) -> (f: Frame)
    requires
        at.ok(),
        known(at.cx, rs1),
        known(at.cx, rs2),
    ensures
        match (reg(at.w, at.sp, rs1), reg(at.w, at.sp, rs2)) {
            (Some(a), Some(b)) => {
                &&& run(shape::operands(at.cx, rs1, rs2, h, k), s, at.f, at.env) == run(
                    k,
                    s,
                    f,
                    at.env,
                )
                &&& rel(f, at.w, at.cx, at.dirty, at.sp)
                &&& loaded(f, operand(h, a), operand(h, b))
                &&& f.locals.len() == at.f.locals.len()
            },
            _ => run(shape::operands(at.cx, rs1, rs2, h, k), s, at.f, at.env) is Trap,
        },
{
    broadcast use group_run, group_rel;

    let f = at.f;
    if let (Some(a), Some(b)) = (reg(at.w, at.sp, rs1), reg(at.w, at.sp, rs2)) {
        let v1 = Val::I64(operand(h, a));
        let v2 = Val::I64(operand(h, b));
        let f1 = Frame { locals: f.locals.update(1, v1), ..f };
        let f2 = Frame { locals: f1.locals.update(2, v2), ..f1 };
        lemma_rel_scratch(f, at.w, at.cx, at.dirty, at.sp, 1, v1);
        lemma_rel_scratch(f1, at.w, at.cx, at.dirty, at.sp, 2, v2);
        f2
    } else {
        if let Some(a) = reg(at.w, at.sp, rs1) {
            let v1 = Val::I64(operand(h, a));
            lemma_rel_scratch(f, at.w, at.cx, at.dirty, at.sp, 1, v1);
        }
        f
    }
}

/// The value that a division leaves in 64 bits.
pub open spec fn divided(op: IntBin, x: u64, y: u64) -> u64 {
    if y == 0 {
        if op is DivS || op is DivU {
            u64::MAX
        } else {
            x
        }
    } else {
        match op {
            IntBin::DivS => u64w(tdiv(s64(x), s64(y))),
            IntBin::DivU => x / y,
            IntBin::RemS => u64w(trem(s64(x), s64(y))),
            _ => x % y,
        }
    }
}

/// Code that divides pushes the quotient or remainder, and traps on no operand.
proof fn lemma_unless_zero(
    op: IntBin,
    h: Half,
    k: Code,
    s: Stack,
    f: Frame,
    env: Env,
    x: u64,
    y: u64,
)
    requires
        loaded(f, x, y),
        op is DivS || op is DivU || op is RemS || op is RemU,
        !(h is Whole) ==> s64(x) > -0x8000_0000_0000_0000,
    ensures
        run(
            shape::unless_zero(shape::by_zero(op), shape::quotient(op, h), k),
            s,
            f,
            env,
        ) == run(k, push64(divided(op, x, y), s), f, env),
{
    broadcast use group_run;

    let c = s64(x) == -0x8000_0000_0000_0000;
    let d = s64(y) == -1;
    assert(flag(c) & flag(d) == flag(c && d)) by {
        assert(1u32 & 1 == 1) by (bit_vector);
        assert(1u32 & 0 == 0) by (bit_vector);
        assert(0u32 & 1 == 0) by (bit_vector);
        assert(0u32 & 0 == 0) by (bit_vector);
    }
    assert(c <==> x == u64w(i64::MIN as int));
    assert(d <==> y == u64w(-1));
    if c && d {
        assert(tdiv(s64(x), s64(y)) == 0x8000_0000_0000_0000) by {
            let m = abs(s64(x));
            let n = abs(s64(y));
            assert(m / n == m) by (nonlinear_arith)
                requires
                    n == 1,
            ;
        }
    }
}

/// Sign-extended halves keep their value.
proof fn lemma_sext(x: u32)
    ensures
        s64(sext32(x)) == s32(x),
        sext32(x) == 0 <==> x == 0,
        u32w(sext32(x) as int) == x,
{
}

/// Magnitudes of quotient and remainder.
proof fn lemma_div_bounds(a: nat, b: nat)
    requires
        b > 0,
    ensures
        a / b <= a,
        a % b < b,
        a % b <= a,
{
    assert(a / b <= a) by (nonlinear_arith)
        requires
            b > 0,
    ;
    assert(a % b <= a) by (nonlinear_arith)
        requires
            b > 0,
    ;
}

/// What the code of a division leaves is the guest's quotient or remainder.
proof fn lemma_divided(op: MulDivOp, a: u64, b: u64)
    requires
        op is Div || op is Divu || op is Rem || op is Remu || op is Divw || op is Divuw
            || op is Remw || op is Remuw,
    ensures
        ({
            let h = spec_half(op);
            let v = divided(spec_div_op(op), operand(h, a), operand(h, b));
            mul_div_value(op, a, b) == if h is Whole {
                v
            } else {
                sext32(u32w(v as int))
            }
        }),
{
    let x = u32w(a as int);
    let y = u32w(b as int);
    lemma_sext(x);
    lemma_sext(y);
    match op {
        MulDivOp::Divw => {
            lemma_u32w_u64w(tdiv(s32(x), s32(y)));
        },
        MulDivOp::Remw => {
            lemma_u32w_u64w(trem(s32(x), s32(y)));
        },
        MulDivOp::Divuw | MulDivOp::Remuw => {
            if y != 0 {
                lemma_div_bounds(x as nat, y as nat);
            }
        },
        _ => {},
    }
}

/// The low half of a product is the same for signed and unsigned factors.
proof fn lemma_low_product(a: u64, b: u64)
    ensures
        u64w(a * b) == u64w(s64(a) * s64(b)),
        u32w(u32w(a as int) * u32w(b as int)) == u32w(
            s32(u32w(a as int)) * s32(u32w(b as int)),
        ),
{
    lemma_mul_mod_noop_general(s64(a), s64(b), b64());
    let x = u32w(a as int);
    let y = u32w(b as int);
    lemma_mul_mod_noop_general(s32(x), s32(y), b32());
}

/// The upper half of a product.
proof fn lemma_upper(
    at: At,
    op: MulDivOp,
    rd: u32,
    rs1: u32,
    rs2: u32,
    a: u64,
    b: u64,
) -> (f: Frame)
    requires
        at.ok(),
        known(at.cx, rd),
        known(at.cx, rs1),
        known(at.cx, rs2),
        reg(at.w, at.sp, rs1) == Some(a),
        reg(at.w, at.sp, rs2) == Some(b),
        op is Mulh || op is Mulhsu || op is Mulhu,
        at.cx.lift_base > FIXED_LOCALS,
    ensures
        at.wrote_via(
            rd,
            mul_div_value(op, a, b),
            at.run(shape::mul_div(at.cx, op, rd, rs1, rs2, at.k)),
            f,
        ),
{
    let end = shape::store_reg(at.cx, rd, at.k);
    let s = write_base(at.cx, rd, at.sp, at.s);
    let k2 = match op {
        MulDivOp::Mulhu => end,
        MulDivOp::Mulhsu => shape::sign_fix(1, 2, end),
        _ => shape::sign_fix(1, 2, shape::sign_fix(2, 1, end)),
    };
    let f1 = lemma_operands(at, rs1, rs2, Half::Whole, shape::mulhu(k2), s);
    let mid = Val::I64(middle(a, b));
    let f2 = Frame { locals: f1.locals.update(FIXED_LOCALS as int, mid), ..f1 };
    assert(f1.locals.len() > FIXED_LOCALS) by {
        broadcast use group_rel;

    }
    lemma_mulhu_middle(k2, s, f1, at.env, a, b);
    lemma_mulhu_upper(k2, s, f2, at.env, a, b);
    lemma_rel_scratch(f1, at.w, at.cx, at.dirty, at.sp, FIXED_LOCALS as int, mid);
    let r = mul_div_value(op, a, b);
    let hi = u64w((a * b) / b64());
    assert(run(k2, push64(hi, s), f2, at.env) == run(end, push64(r, s), f2, at.env)) by {
        broadcast use group_run;

        lemma_sign(a, b);
        lemma_sign(b, a);
        lemma_signed_upper(a, b);
    }
    lemma_store_reg(at.cx, rd, r, at.k, at.s, f2, at.env, at.w, at.dirty, at.sp);
    assert(at.run(shape::mul_div(at.cx, op, rd, rs1, rs2, at.k)) == run(
        shape::operands(at.cx, rs1, rs2, Half::Whole, shape::mulhu(k2)),
        s,
        at.f,
        at.env,
    )) by {
        broadcast use group_rel;

    }
    f2
}

/// A quotient or remainder.
proof fn lemma_division(at: At, op: MulDivOp, rd: u32, rs1: u32, rs2: u32, a: u64, b: u64) -> (f:
    Frame)
    requires
        at.ok(),
        known(at.cx, rd),
        known(at.cx, rs1),
        known(at.cx, rs2),
        reg(at.w, at.sp, rs1) == Some(a),
        reg(at.w, at.sp, rs2) == Some(b),
        op is Div || op is Divu || op is Rem || op is Remu || op is Divw || op is Divuw
            || op is Remw || op is Remuw,
    ensures
        at.wrote_via(
            rd,
            mul_div_value(op, a, b),
            at.run(shape::mul_div(at.cx, op, rd, rs1, rs2, at.k)),
            f,
        ),
{
    let end = shape::store_reg(at.cx, rd, at.k);
    let s = write_base(at.cx, rd, at.sp, at.s);
    let h = spec_half(op);
    let bin = spec_div_op(op);
    let k2 = if h is Whole {
        end
    } else {
        shape::extend(Half::Signed, end)
    };
    let div = shape::unless_zero(shape::by_zero(bin), shape::quotient(bin, h), k2);
    let f1 = lemma_operands(at, rs1, rs2, h, div, s);
    lemma_sext(u32w(a as int));
    let x = operand(h, a);
    let y = operand(h, b);
    lemma_unless_zero(bin, h, k2, s, f1, at.env, x, y);
    lemma_divided(op, a, b);
    let r = mul_div_value(op, a, b);
    assert(run(k2, push64(divided(bin, x, y), s), f1, at.env) == run(
        end,
        push64(r, s),
        f1,
        at.env,
    )) by {
        broadcast use group_run;

    }
    lemma_store_reg(at.cx, rd, r, at.k, at.s, f1, at.env, at.w, at.dirty, at.sp);
    assert(at.run(shape::mul_div(at.cx, op, rd, rs1, rs2, at.k)) == run(
        shape::operands(at.cx, rs1, rs2, h, div),
        s,
        at.f,
        at.env,
    )) by {
        broadcast use group_rel;

    }
    f1
}

/// A product, quotient or remainder.
pub proof fn lemma_mul_div(at: At, op: MulDivOp, rd: u32, rs1: u32, rs2: u32) -> (f: Frame)
    requires
        at.ok(),
        known(at.cx, rd),
        known(at.cx, rs1),
        known(at.cx, rs2),
        op is Mulh || op is Mulhsu || op is Mulhu ==> at.cx.lift_base > FIXED_LOCALS,
    ensures
        ({
            let out = at.run(shape::mul_div(at.cx, op, rd, rs1, rs2, at.k));
            match (reg(at.w, at.sp, rs1), reg(at.w, at.sp, rs2)) {
                (Some(a), Some(b)) => at.wrote_via(rd, mul_div_value(op, a, b), out, f),
                _ => out is Trap,
            }
        }),
{
    match (reg(at.w, at.sp, rs1), reg(at.w, at.sp, rs2)) {
        (Some(a), Some(b)) => match op {
            MulDivOp::Mul => {
                lemma_bin_reg(at, rd, rs1, rs2, IntBin::Mul);
                lemma_low_product(a, b);
                at.f
            },
            MulDivOp::Mulw => {
                lemma_bin32(at, rd, rs1, rs2, IntBin::Mul);
                lemma_low_product(a, b);
                at.f
            },
            MulDivOp::Mulhu | MulDivOp::Mulhsu | MulDivOp::Mulh => lemma_upper(
                at,
                op,
                rd,
                rs1,
                rs2,
                a,
                b,
            ),
            _ => lemma_division(at, op, rd, rs1, rs2, a, b),
        },
        _ => {
            lemma_trap(at, op, rd, rs1, rs2);
            at.f
        },
    }
}

/// Operands out of bounds trap.
proof fn lemma_trap(at: At, op: MulDivOp, rd: u32, rs1: u32, rs2: u32)
    requires
        at.ok(),
        known(at.cx, rd),
        known(at.cx, rs1),
        known(at.cx, rs2),
        reg(at.w, at.sp, rs1) is None || reg(at.w, at.sp, rs2) is None,
    ensures
        at.run(shape::mul_div(at.cx, op, rd, rs1, rs2, at.k)) is Trap,
{
    broadcast use group_rel;

    let end = shape::store_reg(at.cx, rd, at.k);
    let s = write_base(at.cx, rd, at.sp, at.s);
    match op {
        MulDivOp::Mul => lemma_bin_reg(at, rd, rs1, rs2, IntBin::Mul),
        MulDivOp::Mulw => lemma_bin32(at, rd, rs1, rs2, IntBin::Mul),
        MulDivOp::Mulhu => {
            lemma_operands(at, rs1, rs2, Half::Whole, shape::mulhu(end), s);
        },
        MulDivOp::Mulhsu => {
            let k = shape::mulhu(shape::sign_fix(1, 2, end));
            lemma_operands(at, rs1, rs2, Half::Whole, k, s);
        },
        MulDivOp::Mulh => {
            let k = shape::mulhu(shape::sign_fix(1, 2, shape::sign_fix(2, 1, end)));
            lemma_operands(at, rs1, rs2, Half::Whole, k, s);
        },
        _ => {
            let h = spec_half(op);
            let bin = spec_div_op(op);
            let k2 = if h is Whole {
                end
            } else {
                shape::extend(Half::Signed, end)
            };
            let div = shape::unless_zero(shape::by_zero(bin), shape::quotient(bin, h), k2);
            lemma_operands(at, rs1, rs2, h, div, s);
        },
    }
}

} // verus!
