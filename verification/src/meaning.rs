//! What the instructions of the guest compute, stated by what their results satisfy.
//!
//! A sum is congruent to the operands' sum, a quotient is the largest that fits, an extended
//! word is that of a small number: each relation has one solution, and says which without
//! saying how it is found.

use vstd::prelude::*;
use vstd::arithmetic::div_mod::{
    lemma_fundamental_div_mod, lemma_mod_bound,
};
use vstd::arithmetic::power2::{lemma_pow2_pos, pow2};
use crate::arith::{abs, lemma_casts, s32, s64, sext32, tdiv, trem, u32w, u64w};
use crate::guest::{mul_div_value, op_step, value, Step};
use crate::ir::{MulDivOp, Op};
use crate::machine::{Env, World};
use crate::places::{held, inside, lemma_sums, lemma_written, same_but};
use crate::shape::Config;

verus! {

/// The two numbers differ by a multiple of `m`.
pub open spec fn cong(x: int, y: int, m: int) -> bool {
    (x - y) % m == 0
}

/// The quotient of `a` by `d`, rounded down.
pub open spec fn floor_of(q: int, a: int, d: int) -> bool {
    q * d <= a < q * d + d
}

/// Magnitude of a number.
pub open spec fn mag(x: int) -> int {
    if x < 0 {
        -x
    } else {
        x
    }
}

/// The quotient of `a` by `b`, rounded toward zero.
pub open spec fn trunc_of(q: int, a: int, b: int) -> bool {
    &&& floor_of(mag(q), mag(a), mag(b))
    &&& q != 0 ==> ((q < 0) == ((a < 0) != (b < 0)))
}

/// The remainder that goes with it: it has the sign of the dividend.
pub open spec fn rest_of(r: int, a: int, b: int) -> bool {
    &&& mag(r) < mag(b)
    &&& r != 0 ==> ((r < 0) == (a < 0))
    &&& cong(mag(a), mag(r), mag(b))
}

/// The number that a register holds in two's complement.
pub open spec fn si(a: u64) -> int {
    (a as i64) as int
}

/// The lower half of a register.
pub open spec fn low(a: u64) -> int {
    a as int % 0x1_0000_0000
}

/// The number that the lower half of a register holds in two's complement.
pub open spec fn slow(a: u64) -> int {
    ((a % 0x1_0000_0000) as u32 as i32) as int
}

/// The register holds a 32-bit number, sign-extended.
pub open spec fn small(v: u64) -> bool {
    -0x8000_0000 <= si(v) < 0x8000_0000
}

/// The result of a product, quotient or remainder.
pub open spec fn divides(op: MulDivOp, a: u64, b: u64, v: u64) -> bool {
    match op {
        MulDivOp::Mul => cong(v as int, si(a) * si(b), 0x1_0000_0000_0000_0000),
        MulDivOp::Mulh => floor_of(si(v), si(a) * si(b), 0x1_0000_0000_0000_0000),
        MulDivOp::Mulhsu => floor_of(si(v), si(a) * b, 0x1_0000_0000_0000_0000),
        MulDivOp::Mulhu => floor_of(v as int, a * b, 0x1_0000_0000_0000_0000),
        MulDivOp::Div => if b == 0 {
            si(v) == -1
        } else if si(a) == -0x8000_0000_0000_0000 && si(b) == -1 {
            v == a
        } else {
            trunc_of(si(v), si(a), si(b))
        },
        MulDivOp::Divu => if b == 0 {
            si(v) == -1
        } else {
            floor_of(v as int, a as int, b as int)
        },
        MulDivOp::Rem => if b == 0 {
            v == a
        } else {
            rest_of(si(v), si(a), si(b))
        },
        MulDivOp::Remu => if b == 0 {
            v == a
        } else {
            rest_of(v as int, a as int, b as int)
        },
        MulDivOp::Mulw => small(v) && cong(v as int, slow(a) * slow(b), 0x1_0000_0000),
        MulDivOp::Divw => if low(b) == 0 {
            si(v) == -1
        } else if slow(a) == -0x8000_0000 && slow(b) == -1 {
            si(v) == -0x8000_0000
        } else {
            trunc_of(si(v), slow(a), slow(b))
        },
        MulDivOp::Divuw => if low(b) == 0 {
            si(v) == -1
        } else {
            small(v) && floor_of(low(v), low(a), low(b))
        },
        MulDivOp::Remw => if low(b) == 0 {
            si(v) == slow(a)
        } else {
            rest_of(si(v), slow(a), slow(b))
        },
        MulDivOp::Remuw => if low(b) == 0 {
            si(v) == slow(a)
        } else {
            small(v) && rest_of(low(v), low(a), low(b))
        },
    }
}

/// A truth value as a register holds it.
pub open spec fn is_truth(v: u64, b: bool) -> bool {
    v == if b {
        1u64
    } else {
        0u64
    }
}

/// The result `v` of a computing instruction on registers that hold `a` and `b`.
pub open spec fn computes(op: Op, a: u64, b: u64, v: u64) -> bool {
    match op {
        Op::Const { imm, .. } => si(v) == imm,
        Op::Addi { imm, .. } => cong(v as int, a + imm, 0x1_0000_0000_0000_0000),
        Op::Addiw { imm, .. } => small(v) && cong(v as int, a + imm, 0x1_0000_0000),
        Op::Andi { imm, .. } => v == a & (imm as u64),
        Op::Ori { imm, .. } => v == a | (imm as u64),
        Op::Xori { imm, .. } => v == a ^ (imm as u64),
        Op::Slti { imm, .. } => is_truth(v, si(a) < imm),
        Op::Sltiu { imm, .. } => is_truth(v, a < imm as u64),
        Op::Slli { shamt, .. } => cong(
            v as int,
            a * pow2(shamt as nat % 64),
            0x1_0000_0000_0000_0000,
        ),
        Op::Srli { shamt, .. } => floor_of(v as int, a as int, pow2(shamt as nat % 64) as int),
        Op::Srai { shamt, .. } => floor_of(si(v), si(a), pow2(shamt as nat % 64) as int),
        Op::Slliw { shamt, .. } => small(v) && cong(
            v as int,
            low(a) * pow2(shamt as nat % 32),
            0x1_0000_0000,
        ),
        Op::Srliw { shamt, .. } => small(v) && floor_of(
            low(v),
            low(a),
            pow2(shamt as nat % 32) as int,
        ),
        Op::Sraiw { shamt, .. } => floor_of(si(v), slow(a), pow2(shamt as nat % 32) as int),
        Op::Add { .. } => cong(v as int, a + b, 0x1_0000_0000_0000_0000),
        Op::Sub { .. } => cong(v + b, a as int, 0x1_0000_0000_0000_0000),
        Op::And { .. } => v == a & b,
        Op::Or { .. } => v == a | b,
        Op::Xor { .. } => v == a ^ b,
        Op::Sll { .. } => cong(v as int, a * pow2(b as nat % 64), 0x1_0000_0000_0000_0000),
        Op::Srl { .. } => floor_of(v as int, a as int, pow2(b as nat % 64) as int),
        Op::Sra { .. } => floor_of(si(v), si(a), pow2(b as nat % 64) as int),
        Op::Slt { .. } => is_truth(v, si(a) < si(b)),
        Op::Sltu { .. } => is_truth(v, a < b),
        Op::Addw { .. } => small(v) && cong(v as int, a + b, 0x1_0000_0000),
        Op::Subw { .. } => small(v) && cong(v + b, a as int, 0x1_0000_0000),
        Op::Sllw { .. } => small(v) && cong(
            v as int,
            low(a) * pow2(b as nat % 32),
            0x1_0000_0000,
        ),
        Op::Srlw { .. } => small(v) && floor_of(low(v), low(a), pow2(b as nat % 32) as int),
        Op::Sraw { .. } => floor_of(si(v), slow(a), pow2(b as nat % 32) as int),
        Op::MulDiv { op, .. } => divides(op, a, b, v),
        _ => false,
    }
}

/// Rounding down, and what it is bounded by.
pub proof fn lemma_floor(a: int, d: int)
    requires
        d > 0,
    ensures
        floor_of(a / d, a, d),
        0 <= a ==> 0 <= a / d <= a,
        a < 0 ==> a <= a / d < 0,
{
    lemma_fundamental_div_mod(a, d);
    lemma_mod_bound(a, d);
    let q = a / d;
    assert(q * d == d * q) by (nonlinear_arith);
    assert(0 <= a ==> 0 <= q <= a) by (nonlinear_arith)
        requires
            q * d <= a < q * d + d,
            d > 0,
    ;
    assert(a < 0 ==> a <= q < 0) by (nonlinear_arith)
        requires
            q * d <= a < q * d + d,
            d > 0,
    ;
}

/// Rounding toward zero, and what it is bounded by.
pub proof fn lemma_trunc(a: int, b: int)
    requires
        b != 0,
    ensures
        trunc_of(tdiv(a, b), a, b),
        rest_of(trem(a, b), a, b),
        mag(tdiv(a, b)) <= mag(a),
        mag(tdiv(a, b)) == mag(a) && a != 0 ==> mag(b) == 1,
{
    let (x, y) = (mag(a), mag(b));
    assert(abs(a) == x && abs(b) == y);
    lemma_floor(x, y);
    lemma_fundamental_div_mod(x, y);
    lemma_mod_bound(x, y);
    let q = x / y;
    assert(x - x % y == y * q);
    assert((x - x % y) % y == 0) by {
        vstd::arithmetic::div_mod::lemma_mod_multiples_basic(q, y);
        assert(q * y == y * q) by (nonlinear_arith);
    }
    assert(q == x && x != 0 ==> y == 1) by (nonlinear_arith)
        requires
            q * y <= x,
            y >= 1,
            x >= 0,
    ;
}

/// A 32-bit number in a register.
proof fn lemma_small(x: int)
    ensures
        small(sext32(u32w(x))),
        cong(sext32(u32w(x)) as int, x, 0x1_0000_0000),
        si(sext32(u32w(x))) == s32(u32w(x)),
        low(sext32(u32w(x))) == u32w(x),
        -0x8000_0000 <= x < 0x8000_0000 ==> si(sext32(u32w(x))) == x,
{
    lemma_casts(sext32(u32w(x)), 0, 0);
}

/// A 64-bit number in a register.
pub proof fn lemma_word(x: int)
    ensures
        cong(u64w(x) as int, x, 0x1_0000_0000_0000_0000),
        -0x8000_0000_0000_0000 <= x < 0x8000_0000_0000_0000 ==> si(u64w(x)) == x,
        0 <= x < 0x1_0000_0000_0000_0000 ==> u64w(x) == x,
{
    lemma_casts(u64w(x), 0, 0);
}

proof fn lemma_halves(a: u64)
    ensures
        si(a) == s64(a),
        low(a) == u32w(a as int),
        slow(a) == s32(u32w(a as int)),
        -0x8000_0000 <= slow(a) < 0x8000_0000,
        low(a) == 0 <==> slow(a) == 0,
{
    lemma_casts(a, u32w(a as int), 0);
}

#[verifier::spinoff_prover]
#[verifier::rlimit(40)]
proof fn lemma_divides(op: MulDivOp, a: u64, b: u64)
    ensures
        divides(op, a, b, mul_div_value(op, a, b)),
{
    lemma_halves(a);
    lemma_halves(b);
    let (x, y) = (low(a), low(b));
    let m = 0x1_0000_0000_0000_0000int;
    match op {
        MulDivOp::Mul => {
            lemma_word(s64(a) * s64(b));
        },
        MulDivOp::Mulh => {
            let p = s64(a) * s64(b);
            lemma_floor(p, m);
            assert(-0x8000_0000_0000_0000 * m < p < 0x8000_0000_0000_0000 * m) by (nonlinear_arith)
                requires
                    p == s64(a) * s64(b),
                    -0x8000_0000_0000_0000 <= s64(a) < 0x8000_0000_0000_0000,
                    -0x8000_0000_0000_0000 <= s64(b) < 0x8000_0000_0000_0000,
                    m == 0x1_0000_0000_0000_0000,
            ;
            lemma_word(p / m);
        },
        MulDivOp::Mulhsu => {
            let p = s64(a) * b;
            lemma_floor(p, m);
            assert(-0x8000_0000_0000_0000 * m <= p < 0x8000_0000_0000_0000 * m) by (nonlinear_arith)
                requires
                    p == s64(a) * b,
                    -0x8000_0000_0000_0000 <= s64(a) < 0x8000_0000_0000_0000,
                    0 <= b < m,
                    m == 0x1_0000_0000_0000_0000,
            ;
            lemma_word(p / m);
        },
        MulDivOp::Mulhu => {
            let p = a * b;
            lemma_floor(p, m);
            assert(0 <= p < m * m) by (nonlinear_arith)
                requires
                    p == a * b,
                    0 <= a < m,
                    0 <= b < m,
                    m == 0x1_0000_0000_0000_0000,
            ;
            lemma_word(p / m);
        },
        MulDivOp::Div => if b != 0 {
            lemma_trunc(s64(a), s64(b));
            lemma_word(tdiv(s64(a), s64(b)));
            if s64(a) == -0x8000_0000_0000_0000 && s64(b) == -1 {
                assert(0x8000_0000_0000_0000int / 1 == 0x8000_0000_0000_0000);
            }
        } else {
            lemma_halves(u64::MAX);
        },
        MulDivOp::Rem => if b != 0 {
            lemma_trunc(s64(a), s64(b));
            lemma_word(trem(s64(a), s64(b)));
        },
        MulDivOp::Divu => if b != 0 {
            lemma_floor(a as int, b as int);
        } else {
            lemma_halves(u64::MAX);
        },
        MulDivOp::Remu => if b != 0 {
            lemma_trunc(a as int, b as int);
        },
        MulDivOp::Mulw => lemma_small(slow(a) * slow(b)),
        MulDivOp::Divw => if y != 0 {
            lemma_trunc(slow(a), slow(b));
            lemma_small(tdiv(slow(a), slow(b)));
            if slow(a) == -0x8000_0000 && slow(b) == -1 {
                assert(0x8000_0000int / 1 == 0x8000_0000);
            }
        } else {
            lemma_halves(u64::MAX);
        },
        MulDivOp::Remw => if y != 0 {
            lemma_trunc(slow(a), slow(b));
            lemma_small(trem(slow(a), slow(b)));
        } else {
            lemma_small(slow(a));
        },
        MulDivOp::Divuw => if y != 0 {
            lemma_floor(x, y);
            lemma_small(x / y);
        } else {
            lemma_halves(u64::MAX);
        },
        MulDivOp::Remuw => if y != 0 {
            lemma_trunc(x, y);
            lemma_mod_bound(x, y);
            lemma_small(x % y);
        } else {
            lemma_small(x);
        },
    }
}

/// An amount of shift is a power of two.
proof fn lemma_shift(s: nat)
    ensures
        pow2(s) > 0,
{
    lemma_pow2_pos(s);
}

#[verifier::spinoff_prover]
#[verifier::rlimit(40)]
proof fn lemma_computes(op: Op, a: u64, b: u64)
    requires
        places(op) is Some,
    ensures
        computes(op, a, b, value(op, a, b)),
{
    lemma_halves(a);
    lemma_halves(b);
    match op {
        Op::Const { imm, .. } => lemma_word(imm as int),
        Op::Addi { imm, .. } => lemma_word(a + imm),
        Op::Addiw { imm, .. } => lemma_small(a + imm),
        Op::Andi { imm, .. } | Op::Ori { imm, .. } | Op::Xori { imm, .. } | Op::Sltiu { imm, .. } => {
            lemma_casts(0, 0, imm);
        },
        Op::Slti { .. } => {},
        Op::Slli { shamt, .. } => lemma_word(a * pow2(shamt as nat % 64)),
        Op::Srli { shamt, .. } => {
            let p = pow2(shamt as nat % 64) as int;
            lemma_shift(shamt as nat % 64);
            lemma_floor(a as int, p);
            lemma_word(a as int / p);
        },
        Op::Srai { shamt, .. } => {
            let p = pow2(shamt as nat % 64) as int;
            lemma_shift(shamt as nat % 64);
            lemma_floor(s64(a), p);
            lemma_word(s64(a) / p);
        },
        Op::Slliw { shamt, .. } => lemma_small(low(a) * pow2(shamt as nat % 32)),
        Op::Srliw { shamt, .. } => {
            let p = pow2(shamt as nat % 32) as int;
            lemma_shift(shamt as nat % 32);
            lemma_floor(low(a), p);
            lemma_small(low(a) / p);
        },
        Op::Sraiw { shamt, .. } => {
            let p = pow2(shamt as nat % 32) as int;
            lemma_shift(shamt as nat % 32);
            lemma_floor(slow(a), p);
            lemma_small(slow(a) / p);
        },
        Op::Add { .. } => lemma_word(a + b),
        Op::Sub { .. } => lemma_word(a - b),
        Op::Sll { .. } => lemma_word(a * pow2(b as nat % 64)),
        Op::Srl { .. } => {
            let p = pow2(b as nat % 64) as int;
            lemma_shift(b as nat % 64);
            lemma_floor(a as int, p);
            lemma_word(a as int / p);
        },
        Op::Sra { .. } => {
            let p = pow2(b as nat % 64) as int;
            lemma_shift(b as nat % 64);
            lemma_floor(s64(a), p);
            lemma_word(s64(a) / p);
        },
        Op::Addw { .. } => lemma_small(a + b),
        Op::Subw { .. } => lemma_small(a - b),
        Op::Sllw { .. } => lemma_small(low(a) * pow2(b as nat % 32)),
        Op::Srlw { .. } => {
            let p = pow2(b as nat % 32) as int;
            lemma_shift(b as nat % 32);
            lemma_floor(low(a), p);
            lemma_small(low(a) / p);
        },
        Op::Sraw { .. } => {
            let p = pow2(b as nat % 32) as int;
            lemma_shift(b as nat % 32);
            lemma_floor(slow(a), p);
            lemma_small(slow(a) / p);
        },
        Op::MulDiv { op, .. } => lemma_divides(op, a, b),
        _ => {},
    }
}

/// Destination, first and second source of an operation that only computes.
pub open spec fn places(op: Op) -> Option<(u32, Option<u32>, Option<u32>)> {
    match op {
        Op::Const { rd, .. } => Some((rd, None, None)),
        Op::Addi { rd, rs1, .. } | Op::Addiw { rd, rs1, .. } | Op::Andi { rd, rs1, .. }
        | Op::Ori { rd, rs1, .. } | Op::Xori { rd, rs1, .. } | Op::Slti { rd, rs1, .. }
        | Op::Sltiu { rd, rs1, .. } | Op::Slli { rd, rs1, .. } | Op::Srli { rd, rs1, .. }
        | Op::Srai { rd, rs1, .. } | Op::Slliw { rd, rs1, .. } | Op::Srliw { rd, rs1, .. }
        | Op::Sraiw { rd, rs1, .. } => Some((rd, Some(rs1), None)),
        Op::Add { rd, rs1, rs2 } | Op::Sub { rd, rs1, rs2 } | Op::And { rd, rs1, rs2 }
        | Op::Or { rd, rs1, rs2 } | Op::Xor { rd, rs1, rs2 } | Op::Sll { rd, rs1, rs2 }
        | Op::Srl { rd, rs1, rs2 } | Op::Sra { rd, rs1, rs2 } | Op::Slt { rd, rs1, rs2 }
        | Op::Sltu { rd, rs1, rs2 } | Op::Addw { rd, rs1, rs2 } | Op::Subw { rd, rs1, rs2 }
        | Op::Sllw { rd, rs1, rs2 } | Op::Srlw { rd, rs1, rs2 } | Op::Sraw { rd, rs1, rs2 }
        | Op::MulDiv { rd, rs1, rs2, .. } => Some((rd, Some(rs1), Some(rs2))),
        _ => None,
    }
}

/// The register is in memory, where there is one.
pub open spec fn there(w: World, sp: u32, r: Option<u32>) -> bool {
    r matches Some(r) ==> inside(w.mem, sp + r, 8)
}

/// The number that a register holds; without a register it does not matter.
pub open spec fn read(w: World, sp: u32, r: Option<u32>) -> u64 {
    match r {
        Some(r) => held(w.mem, sp + r),
        None => 0,
    }
}

/// **Instructions compute what they stand for.** An operation that only computes leaves in its
/// destination the number that its sources and its immediate determine, changes no other byte
/// of memory and calls nobody. A register outside memory is a trap.
pub proof fn law_computes(op: Op, cfg: Config, w: World, sp: u32, env: Env)
    requires
        places(op) is Some,
    ensures
        ({
            let (rd, rs1, rs2) = places(op)->0;
            let after = op_step(op, cfg, w, sp, env);
            if there(w, sp, rs1) && there(w, sp, rs2) && there(w, sp, Some(rd)) {
                &&& after matches Step::Next(w2)
                &&& w2.calls == w.calls
                &&& same_but(w.mem, w2.mem, sp + rd, 8)
                &&& computes(op, read(w, sp, rs1), read(w, sp, rs2), held(w2.mem, sp + rd))
            } else {
                after is Trap
            }
        }),
{
    reveal(op_step);
    let (rd, rs1, rs2) = places(op)->0;
    let (a, b) = (read(w, sp, rs1), read(w, sp, rs2));
    if let Some(r) = rs1 {
        lemma_sums(w.mem, sp + r);
    }
    if let Some(r) = rs2 {
        lemma_sums(w.mem, sp + r);
    }
    lemma_computes(op, a, b);
    lemma_written(w.mem, sp + rd, value(op, a, b));
}

/// **Branches compare what they stand for.** A conditional branch leaves the block for its
/// target if its condition holds of its sources, else for the pc behind the block, and changes
/// nothing.
pub proof fn law_branches(op: Op, cfg: Config, w: World, sp: u32, env: Env)
    ensures
        match op {
            Op::Beq { rs1, rs2, target_pc } | Op::Bne { rs1, rs2, target_pc }
            | Op::Blt { rs1, rs2, target_pc } | Op::Bge { rs1, rs2, target_pc }
            | Op::Bltu { rs1, rs2, target_pc } | Op::Bgeu { rs1, rs2, target_pc } => {
                let after = op_step(op, cfg, w, sp, env);
                if there(w, sp, Some(rs1)) && there(w, sp, Some(rs2)) {
                    let (a, b) = (held(w.mem, sp + rs1), held(w.mem, sp + rs2));
                    let holds = match op {
                        Op::Beq { .. } => a == b,
                        Op::Bne { .. } => a != b,
                        Op::Blt { .. } => (a as i64) < (b as i64),
                        Op::Bge { .. } => (a as i64) >= (b as i64),
                        Op::Bltu { .. } => a < b,
                        _ => a >= b,
                    };
                    after == Step::Exit(
                        if holds {
                            target_pc as u64
                        } else {
                            cfg.end_pc
                        },
                        w,
                    )
                } else {
                    after is Trap
                }
            },
            _ => true,
        },
{
    reveal(op_step);
    match op {
        Op::Beq { rs1, rs2, target_pc } | Op::Bne { rs1, rs2, target_pc }
        | Op::Blt { rs1, rs2, target_pc } | Op::Bge { rs1, rs2, target_pc }
        | Op::Bltu { rs1, rs2, target_pc } | Op::Bgeu { rs1, rs2, target_pc } => {
            lemma_sums(w.mem, sp + rs1);
            lemma_sums(w.mem, sp + rs2);
            lemma_casts(held(w.mem, sp + rs1), 0, target_pc);
            lemma_casts(held(w.mem, sp + rs2), 0, 0);
        },
        _ => {},
    }
}

/// The pc behind the block is in the link register, if it is not x0; nothing else has changed.
pub open spec fn links(rd: u32, end_pc: u64, w: World, w2: World, sp: u32) -> bool {
    if rd == 0 {
        w2 == w
    } else {
        &&& w2.calls == w.calls
        &&& same_but(w.mem, w2.mem, sp + rd, 8)
        &&& held(w2.mem, sp + rd) == end_pc
    }
}

/// **Jumps link and leave.** A jump leaves the block for its target, and leaves the pc behind
/// the block in its link register. The target of an indirect jump is its base register's
/// number, as it was before the jump, with the immediate added and the lowest bit cleared.
pub proof fn law_jumps(op: Op, cfg: Config, w: World, sp: u32, env: Env)
    ensures
        match op {
            Op::Jal { rd, target_pc } => {
                let after = op_step(op, cfg, w, sp, env);
                if rd == 0 || there(w, sp, Some(rd)) {
                    after matches Step::Exit(pc, w2) && pc == target_pc as u64 && links(
                        rd,
                        cfg.end_pc,
                        w,
                        w2,
                        sp,
                    )
                } else {
                    after is Trap
                }
            },
            Op::Jalr { rd, rs1, imm } => {
                let after = op_step(op, cfg, w, sp, env);
                if there(w, sp, Some(rs1)) && (rd == 0 || there(w, sp, Some(rd))) {
                    let to = held(w.mem, sp + rs1) + imm;
                    after matches Step::Exit(pc, w2) && pc % 2 == 0 && (cong(
                        pc as int,
                        to,
                        0x1_0000_0000_0000_0000,
                    ) || cong(pc + 1, to, 0x1_0000_0000_0000_0000)) && links(
                        rd,
                        cfg.end_pc,
                        w,
                        w2,
                        sp,
                    )
                } else {
                    after is Trap
                }
            },
            _ => true,
        },
{
    reveal(op_step);
    match op {
        Op::Jal { rd, target_pc } => {
            lemma_casts(0, 0, target_pc);
            lemma_written(w.mem, sp + rd, cfg.end_pc);
        },
        Op::Jalr { rd, rs1, imm } => {
            lemma_sums(w.mem, sp + rs1);
            lemma_word(held(w.mem, sp + rs1) + imm);
            lemma_written(w.mem, sp + rd, cfg.end_pc);
        },
        _ => {},
    }
}

} // verus!
