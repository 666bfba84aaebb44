//! What the instructions of a body do to the operand stack, stated by what their results satisfy.

use vstd::prelude::*;
use vstd::arithmetic::power2::{lemma_pow2_pos, pow2};
use crate::arith::{lemma_casts, s32, s64, tdiv, trem, u32w};
use crate::chaining::finish;
use crate::guest::BlockEnd;
use crate::machine::{
    bin32, bin64, rel32, rel64, run, step, Env, Frame, HelperCall, Outcome, Stack, Val, World,
};
use crate::meaning::{cong, floor_of, lemma_floor, lemma_trunc, lemma_word, rest_of, si, trunc_of};
use crate::places::{inside, lemma_sums, lemma_written, same_but, sum2, sum4, sum8};
use crate::wasm::{Code, Instr, IntBin, IntRel, LoadOp, MemArg, StoreOp, ValTy};

verus! {

/// The number that a 32-bit word holds in two's complement.
pub open spec fn si32(a: u32) -> int {
    (a as i32) as int
}

/// The result of an operator on numbers of `bits` bits, in two readings: as they are, and in
/// two's complement. The machine traps where there is none.
pub open spec fn results(
    op: IntBin,
    bits: nat,
    a: int,
    b: int,
    sa: int,
    sb: int,
    r: Option<(int, int)>,
) -> bool {
    let m = pow2(bits) as int;
    let p = pow2((b % (bits as int)) as nat) as int;
    match r {
        None => match op {
            IntBin::DivU | IntBin::RemU | IntBin::RemS => b == 0,
            IntBin::DivS => b == 0 || (sa == -pow2((bits - 1) as nat) && sb == -1),
            _ => false,
        },
        Some((v, sv)) => match op {
            IntBin::Add => cong(v, a + b, m),
            IntBin::Sub => cong(v + b, a, m),
            IntBin::Mul => cong(v, a * b, m),
            IntBin::DivU => b != 0 && floor_of(v, a, b),
            IntBin::RemU => b != 0 && rest_of(v, a, b),
            IntBin::DivS => b != 0 && trunc_of(sv, sa, sb),
            IntBin::RemS => b != 0 && rest_of(sv, sa, sb),
            IntBin::Shl => cong(v, a * p, m),
            IntBin::ShrU => floor_of(v, a, p),
            IntBin::ShrS => floor_of(sv, sa, p),
            IntBin::And | IntBin::Or | IntBin::Xor => true,
        },
    }
}

proof fn lemma_powers()
    ensures
        pow2(64) == 0x1_0000_0000_0000_0000,
        pow2(63) == 0x8000_0000_0000_0000,
        pow2(32) == 0x1_0000_0000,
        pow2(31) == 0x8000_0000,
{
    vstd::arithmetic::power2::lemma2_to64();
    vstd::arithmetic::power2::lemma2_to64_rest();
}

/// **64-bit operators compute what they stand for.**
#[verifier::spinoff_prover]
pub proof fn law_bin64(op: IntBin, a: u64, b: u64)
    ensures
        results(
            op,
            64,
            a as int,
            b as int,
            si(a),
            si(b),
            match bin64(op, a, b) {
                Some(v) => Some((v as int, si(v))),
                None => None,
            },
        ),
        op is And ==> bin64(op, a, b) == Some(a & b),
        op is Or ==> bin64(op, a, b) == Some(a | b),
        op is Xor ==> bin64(op, a, b) == Some(a ^ b),
{
    lemma_powers();
    lemma_casts(a, 0, 0);
    lemma_casts(b, 0, 0);
    let p = pow2(b as nat % 64) as int;
    lemma_pow2_pos(b as nat % 64);
    assert((b as int % 64) as nat == b as nat % 64);
    match op {
        IntBin::Add => lemma_word(a + b),
        IntBin::Sub => lemma_word(a - b),
        IntBin::Mul => lemma_word(a * b),
        IntBin::Shl => lemma_word(a * p),
        IntBin::ShrU => {
            lemma_floor(a as int, p);
            lemma_word(a as int / p);
        },
        IntBin::ShrS => {
            lemma_floor(s64(a), p);
            lemma_word(s64(a) / p);
        },
        IntBin::DivU => if b != 0 {
            lemma_floor(a as int, b as int);
        },
        IntBin::RemU => if b != 0 {
            lemma_trunc(a as int, b as int);
        },
        IntBin::DivS => if b != 0 {
            lemma_trunc(s64(a), s64(b));
            lemma_word(tdiv(s64(a), s64(b)));
        },
        IntBin::RemS => if b != 0 {
            lemma_trunc(s64(a), s64(b));
            lemma_word(trem(s64(a), s64(b)));
        },
        _ => {},
    }
}

proof fn lemma_word32(x: int)
    ensures
        cong(u32w(x) as int, x, 0x1_0000_0000),
        -0x8000_0000 <= x < 0x8000_0000 ==> si32(u32w(x)) == x,
        0 <= x < 0x1_0000_0000 ==> u32w(x) == x,
{
    lemma_casts(0, u32w(x), 0);
}

/// **32-bit operators compute what they stand for.**
#[verifier::spinoff_prover]
pub proof fn law_bin32(op: IntBin, a: u32, b: u32)
    ensures
        results(
            op,
            32,
            a as int,
            b as int,
            si32(a),
            si32(b),
            match bin32(op, a, b) {
                Some(v) => Some((v as int, si32(v))),
                None => None,
            },
        ),
        op is And ==> bin32(op, a, b) == Some(a & b),
        op is Or ==> bin32(op, a, b) == Some(a | b),
        op is Xor ==> bin32(op, a, b) == Some(a ^ b),
{
    lemma_powers();
    lemma_casts(0, a, 0);
    lemma_casts(0, b, 0);
    let p = pow2(b as nat % 32) as int;
    lemma_pow2_pos(b as nat % 32);
    assert((b as int % 32) as nat == b as nat % 32);
    match op {
        IntBin::Add => lemma_word32(a + b),
        IntBin::Sub => lemma_word32(a - b),
        IntBin::Mul => lemma_word32(a * b),
        IntBin::Shl => lemma_word32(a * p),
        IntBin::ShrU => {
            lemma_floor(a as int, p);
            lemma_word32(a as int / p);
        },
        IntBin::ShrS => {
            lemma_floor(s32(a), p);
            lemma_word32(s32(a) / p);
        },
        IntBin::DivU => if b != 0 {
            lemma_floor(a as int, b as int);
        },
        IntBin::RemU => if b != 0 {
            lemma_trunc(a as int, b as int);
        },
        IntBin::DivS => if b != 0 {
            lemma_trunc(s32(a), s32(b));
            lemma_word32(tdiv(s32(a), s32(b)));
        },
        IntBin::RemS => if b != 0 {
            lemma_trunc(s32(a), s32(b));
            lemma_word32(trem(s32(a), s32(b)));
        },
        _ => {},
    }
}

/// **Comparisons compare what they stand for.**
pub proof fn law_rels(a: u64, b: u64, x: u32, y: u32)
    ensures
        rel64(IntRel::Eq, a, b) <==> a == b,
        rel64(IntRel::Ne, a, b) <==> a != b,
        rel64(IntRel::LtS, a, b) <==> (a as i64) < (b as i64),
        rel64(IntRel::GtS, a, b) <==> (a as i64) > (b as i64),
        rel64(IntRel::GeS, a, b) <==> (a as i64) >= (b as i64),
        rel64(IntRel::LtU, a, b) <==> a < b,
        rel64(IntRel::GeU, a, b) <==> a >= b,
        rel32(IntRel::Eq, x, y) <==> x == y,
        rel32(IntRel::Ne, x, y) <==> x != y,
        rel32(IntRel::LtS, x, y) <==> (x as i32) < (y as i32),
        rel32(IntRel::GtS, x, y) <==> (x as i32) > (y as i32),
        rel32(IntRel::GeS, x, y) <==> (x as i32) >= (y as i32),
        rel32(IntRel::LtU, x, y) <==> x < y,
        rel32(IntRel::GeU, x, y) <==> x >= y,
{
    lemma_casts(a, x, 0);
    lemma_casts(b, y, 0);
}

/// The stack with a 32-bit number on top.
pub open spec fn over32(v: u32, s: Stack) -> Stack {
    Stack::Push(Val::I32(v), Box::new(s))
}

/// The stack with a 64-bit number on top.
pub open spec fn over64(v: u64, s: Stack) -> Stack {
    Stack::Push(Val::I64(v), Box::new(s))
}

/// One or zero on top of the stack, by whether the condition holds.
pub open spec fn says(o: Outcome, b: bool, s: Stack, f: Frame) -> bool {
    o == Outcome::Next(over32(if b { 1 } else { 0 }, s), f)
}

/// **Operators take their operands in order.** The operand that was pushed first is the left
/// one. The result takes their place, and nothing else changes.
pub proof fn law_operators(
    op: IntBin,
    rel: IntRel,
    a: u64,
    b: u64,
    x: u32,
    y: u32,
    s: Stack,
    f: Frame,
    env: Env,
)
    ensures
        step(Instr::I64Bin(op), over64(b, over64(a, s)), f, env) == match bin64(op, a, b) {
            Some(v) => Outcome::Next(over64(v, s), f),
            None => Outcome::Trap,
        },
        step(Instr::I32Bin(op), over32(y, over32(x, s)), f, env) == match bin32(op, x, y) {
            Some(v) => Outcome::Next(over32(v, s), f),
            None => Outcome::Trap,
        },
        says(step(Instr::I64Rel(rel), over64(b, over64(a, s)), f, env), rel64(rel, a, b), s, f),
        says(step(Instr::I32Rel(rel), over32(y, over32(x, s)), f, env), rel32(rel, x, y), s, f),
        says(step(Instr::I64Eqz, over64(a, s), f, env), a == 0, s, f),
{
}

/// **Constants and conversions keep numbers.** A constant is pushed as it is; cutting a number
/// keeps its low half; extending one keeps it, with or without its sign.
pub proof fn law_conversions(c: i64, d: i32, a: u64, x: u32, s: Stack, f: Frame, env: Env)
    ensures
        step(Instr::I64Const(c), s, f, env) == Outcome::Next(over64(c as u64, s), f),
        step(Instr::I32Const(d), s, f, env) == Outcome::Next(over32(d as u32, s), f),
        step(Instr::I32WrapI64, over64(a, s), f, env) == Outcome::Next(over32(a as u32, s), f),
        step(Instr::I64ExtendI32U, over32(x, s), f, env) == Outcome::Next(over64(x as u64, s), f),
        step(Instr::I64ExtendI32S, over32(x, s), f, env) matches Outcome::Next(
            Stack::Push(Val::I64(v), rest),
            g,
        ) && si(v) == si32(x) && *rest == s && g == f,
{
    lemma_casts(a, x, c);
    assert(a as u32 == a % 0x1_0000_0000) by (bit_vector);
    assert((d as u32) == if d >= 0 {
        d as int
    } else {
        d + 0x1_0000_0000
    }) by (bit_vector);
    lemma_word(s32(x));
}

/// **Locals hold what was put there.**
pub proof fn law_locals(n: u32, v: Val, s: Stack, f: Frame, env: Env)
    requires
        n < f.locals.len(),
    ensures
        step(Instr::LocalGet(n), s, f, env) == Outcome::Next(
            Stack::Push(f.locals[n as int], Box::new(s)),
            f,
        ),
        ({
            let set = step(Instr::LocalSet(n), Stack::Push(v, Box::new(s)), f, env);
            let tee = step(Instr::LocalTee(n), Stack::Push(v, Box::new(s)), f, env);
            &&& set matches Outcome::Next(rest, g) && rest == s && g.world == f.world
                && g.locals.len() == f.locals.len() && g.locals[n as int] == v && forall|i: int|
                0 <= i < f.locals.len() && i != n ==> #[trigger] g.locals[i] == f.locals[i]
            &&& tee matches Outcome::Next(rest, g) && rest == Stack::Push(v, Box::new(s)) && set
                == Outcome::Next(s, g)
        }),
        step(Instr::Drop, Stack::Push(v, Box::new(s)), f, env) == Outcome::Next(s, f),
{
}

/// The number that a read gives is that of the bytes, extended as the read says.
pub open spec fn reads(op: LoadOp, v: Val, mem: Seq<u8>, at: int) -> bool {
    match (op, v) {
        (LoadOp::I32, Val::I32(v)) => v == sum4(mem, at),
        (LoadOp::I64, Val::I64(v)) => v == sum8(mem, at),
        (LoadOp::I64U8, Val::I64(v)) => v == mem[at],
        (LoadOp::I64U16, Val::I64(v)) => v == sum2(mem, at),
        (LoadOp::I64U32, Val::I64(v)) => v == sum4(mem, at),
        (LoadOp::I64S8, Val::I64(v)) => -0x80 <= si(v) < 0x80 && cong(
            v as int,
            mem[at] as int,
            0x100,
        ),
        (LoadOp::I64S16, Val::I64(v)) => -0x8000 <= si(v) < 0x8000 && cong(
            v as int,
            sum2(mem, at),
            0x1_0000,
        ),
        (LoadOp::I64S32, Val::I64(v)) => -0x8000_0000 <= si(v) < 0x8000_0000 && cong(
            v as int,
            sum4(mem, at),
            0x1_0000_0000,
        ),
        _ => false,
    }
}

/// Bytes of a read.
pub open spec fn read_width(op: LoadOp) -> int {
    match op {
        LoadOp::I64S8 | LoadOp::I64U8 => 1,
        LoadOp::I64S16 | LoadOp::I64U16 => 2,
        LoadOp::I64S32 | LoadOp::I64U32 | LoadOp::I32 => 4,
        LoadOp::I64 => 8,
    }
}

/// **Reads see bytes, least significant first**, at the address on the stack with the static
/// offset added. They trap outside memory and change nothing.
pub proof fn law_reads(op: LoadOp, arg: MemArg, a: u32, s: Stack, f: Frame, env: Env)
    ensures
        ({
            let at = a + arg.offset;
            let o = step(Instr::Load(op, arg), over32(a, s), f, env);
            if inside(f.world.mem, at, read_width(op)) {
                o matches Outcome::Next(Stack::Push(v, rest), g) && *rest == s && g == f && reads(
                    op,
                    v,
                    f.world.mem,
                    at,
                )
            } else {
                o is Trap
            }
        }),
{
    let at = a + arg.offset;
    lemma_sums(f.world.mem, at);
    if let Outcome::Next(Stack::Push(Val::I64(v), _), _) = step(
        Instr::Load(op, arg),
        over32(a, s),
        f,
        env,
    ) {
        lemma_casts(v, 0, 0);
    }
}

/// Bytes of a write.
pub open spec fn write_width(op: StoreOp) -> int {
    match op {
        StoreOp::I64As8 => 1,
        StoreOp::I64As16 => 2,
        StoreOp::I32 | StoreOp::I64As32 => 4,
        StoreOp::I64 => 8,
    }
}

/// **Writes leave low-order bytes, least significant first**, at the address below the value on
/// the stack with the static offset added. They trap outside memory and change nothing else.
pub proof fn law_writes(op: StoreOp, arg: MemArg, a: u32, v: u64, s: Stack, f: Frame, env: Env)
    ensures
        ({
            let at = a + arg.offset;
            let top = if op is I32 {
                over32(v as u32, over32(a, s))
            } else {
                over64(v, over32(a, s))
            };
            let o = step(Instr::Store(op, arg), top, f, env);
            if inside(f.world.mem, at, write_width(op)) {
                o matches Outcome::Next(rest, g) && rest == s && g.locals == f.locals
                    && g.world.calls == f.world.calls && same_but(
                    f.world.mem,
                    g.world.mem,
                    at,
                    write_width(op),
                ) && match op {
                    StoreOp::I64As8 => g.world.mem[at] == v % 0x100,
                    StoreOp::I64As16 => sum2(g.world.mem, at) == v % 0x1_0000,
                    StoreOp::I32 | StoreOp::I64As32 => sum4(g.world.mem, at) == v % 0x1_0000_0000,
                    StoreOp::I64 => sum8(g.world.mem, at) == v,
                }
            } else {
                o is Trap
            }
        }),
{
    let at = a + arg.offset;
    assert(v as u32 == v % 0x1_0000_0000) by (bit_vector);
    lemma_written(f.world.mem, at, v);
    lemma_written(f.world.mem, at, (v as u32) as u64);
    if let Outcome::Next(_, g) = step(
        Instr::Store(op, arg),
        if op is I32 {
            over32(v as u32, over32(a, s))
        } else {
            over64(v, over32(a, s))
        },
        f,
        env,
    ) {
        lemma_sums(g.world.mem, at);
    }
}

/// **Calls hand over their arguments in order.** The helper that is imported under the number
/// answers; its answer is on the stack, memory is as it has left it, and the call is recorded.
pub proof fn law_calls(
    n: u32,
    state: u32,
    addr: u64,
    val: u64,
    funct5: u32,
    rd_off: u32,
    s: Stack,
    f: Frame,
    env: Env,
)
    requires
        n < env.imports.len(),
    ensures
        ({
            let id = env.imports[n as int];
            let at = over64(addr, over32(state, s));
            let (top, call) = if id < 7 {
                (over32(rd_off, at), HelperCall::Load { id, state, addr, rd_off })
            } else if id < 11 {
                (over64(val, at), HelperCall::Store { id, state, addr, val })
            } else {
                (
                    over32(rd_off, over32(funct5, over64(val, at))),
                    HelperCall::Amo { id, state, addr, val, funct5, rd_off },
                )
            };
            let (mem, answer) = (env.host)(call, f.world);
            step(Instr::Call(n), top, f, env) == Outcome::Next(
                over32(answer, s),
                Frame {
                    locals: f.locals,
                    world: World { mem, calls: f.world.calls.push(call) },
                },
            )
        }),
{
}

/// **Leaving.** A return hands over the number on the stack; a tail call hands over the argument
/// that was pushed first to the slot that was pushed last. Neither changes the world.
pub proof fn law_leaves(pc: u64, arg: u32, slot: u32, s: Stack, f: Frame, env: Env)
    ensures
        step(Instr::Return, over64(pc, s), f, env) == Outcome::Return(pc, f.world),
        step(Instr::ReturnCallIndirect(0), over32(slot, over32(arg, s)), f, env)
            == (Outcome::TailCall { slot, arg, world: f.world }),
{
}

/// What follows code that has gone on.
pub open spec fn follows(o: Outcome, k: Code, env: Env) -> Outcome {
    match o {
        Outcome::Next(s, f) => run(k, s, f, env),
        o => o,
    }
}

/// **Code runs in order.** An instruction runs before what follows it. Of a conditional the
/// first branch runs where the number on the stack is not zero, else the second, and what
/// follows it afterwards.
pub proof fn law_control(
    i: Instr,
    ty: Option<ValTy>,
    yes: Code,
    no: Code,
    k: Code,
    c: u32,
    s: Stack,
    f: Frame,
    env: Env,
)
    ensures
        run(Code::Nil, s, f, env) == Outcome::Next(s, f),
        run(Code::Cons(i, Box::new(k)), s, f, env) == follows(step(i, s, f, env), k, env),
        c != 0 ==> run(
            Code::If(ty, Box::new(yes), Box::new(no), Box::new(k)),
            over32(c, s),
            f,
            env,
        ) == follows(run(yes, s, f, env), k, env),
        run(Code::If(ty, Box::new(yes), Box::new(no), Box::new(k)), over32(0, s), f, env)
            == follows(run(no, s, f, env), k, env),
{
    reveal(run);
}

/// **A block ends as its code does.** Code that has run to its end returns the one number on the
/// stack, in the world that it has left; a return, a tail call and a trap are what they are.
pub proof fn law_finish(pc: u64, slot: u32, arg: u32, f: Frame)
    ensures
        finish(Outcome::Next(over64(pc, Stack::Empty), f)) == BlockEnd::Return(pc, f.world),
        finish(Outcome::Return(pc, f.world)) == BlockEnd::Return(pc, f.world),
        finish(Outcome::TailCall { slot, arg, world: f.world }) == (BlockEnd::Hop {
            slot,
            arg,
            world: f.world,
        }),
        finish(Outcome::Trap) is Trap,
        finish(Outcome::Stuck) is Stuck,
{
}

} // verus!
