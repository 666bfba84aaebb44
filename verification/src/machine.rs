//! Execution of function bodies.
//!
//! A body runs over an operand stack, the function's locals, the linear memory and
//! a record of the helper calls made so far. Helpers are functions of the embedder:
//! nothing is known of what one returns or does to memory beyond what a statement
//! about a run supposes of it.

use vstd::prelude::*;
use vstd::arithmetic::power2::pow2;
use crate::arith::{flag, s32, s64, sext32, tdiv, trem, u32w, u64w};
use crate::bytes::{le_bytes, le_val};
use crate::wasm::{Code, Instr, IntBin, IntRel, LoadOp, StoreOp, ValTy};

verus! {

/// A value on the operand stack or in a local.
pub enum Val {
    I32(u32),
    I64(u64),
}

/// The operand stack, top first.
pub enum Stack {
    Empty,
    Push(Val, Box<Stack>),
}

/// One call of an embedder function, with its arguments.
pub enum HelperCall {
    Load { id: usize, state: u32, addr: u64, rd_off: u32 },
    Store { id: usize, state: u32, addr: u64, val: u64 },
    Amo { id: usize, state: u32, addr: u64, val: u64, funct5: u32, rd_off: u32 },
}

/// Everything a block can see or change outside its own locals: the linear memory,
/// and the helper calls made so far.
#[verifier::ext_equal]
pub struct World {
    pub mem: Seq<u8>,
    pub calls: Seq<HelperCall>,
}

/// Locals and outside world of a running block.
pub struct Frame {
    pub locals: Seq<Val>,
    pub world: World,
}

/// The embedder: which helper each imported function is, and what a call does. A
/// call is answered with the memory that it leaves behind and its result.
pub struct Env {
    pub imports: Seq<usize>,
    pub host: spec_fn(HelperCall, World) -> (Seq<u8>, u32),
}

/// How a piece of code ends.
pub enum Outcome {
    /// Execution goes on behind the code.
    Next(Stack, Frame),
    /// The function returns.
    Return(u64, World),
    /// The function is replaced by a call through the table.
    TailCall { slot: u32, arg: u32, world: World },
    /// A trap of the machine: an access out of bounds or a division it does not define.
    Trap,
    /// The code is not well typed here.
    Stuck,
}

#[verifier::inline]
pub open spec fn push32(v: u32, s: Stack) -> Stack {
    Stack::Push(Val::I32(v), Box::new(s))
}

#[verifier::inline]
pub open spec fn push64(v: u64, s: Stack) -> Stack {
    Stack::Push(Val::I64(v), Box::new(s))
}

/// The number stored in the `n` bytes at `at`, if they are in bounds.
pub open spec fn load(mem: Seq<u8>, at: int, n: nat) -> Option<nat> {
    if 0 <= at && at + n <= mem.len() {
        Some(le_val(mem.subrange(at, at + n)))
    } else {
        None
    }
}

/// The memory with the `n` low-order bytes of `v` at `at`, if they are in bounds.
pub open spec fn store(mem: Seq<u8>, at: int, n: nat, v: nat) -> Option<Seq<u8>> {
    if 0 <= at && at + n <= mem.len() {
        Some(mem.subrange(0, at) + le_bytes(v, n) + mem.subrange(at + n, mem.len() as int))
    } else {
        None
    }
}

/// The 32-bit word at `at`.
pub open spec fn load32(mem: Seq<u8>, at: int) -> Option<u32> {
    match load(mem, at, 4) {
        Some(v) => Some(v as u32),
        None => None,
    }
}

/// The 64-bit word at `at`.
pub open spec fn load64(mem: Seq<u8>, at: int) -> Option<u64> {
    match load(mem, at, 8) {
        Some(v) => Some(v as u64),
        None => None,
    }
}

/// The value that a read pushes.
pub open spec fn load_val(op: LoadOp, mem: Seq<u8>, at: int) -> Option<Val> {
    match op {
        LoadOp::I32 => match load32(mem, at) {
            Some(v) => Some(Val::I32(v)),
            None => None,
        },
        _ => match load_ext(op, mem, at) {
            Some(v) => Some(Val::I64(v)),
            None => None,
        },
    }
}

/// The 64-bit word that a read of the given width and extension gives.
pub open spec fn load_ext(op: LoadOp, mem: Seq<u8>, at: int) -> Option<u64> {
    let n: nat = match op {
        LoadOp::I64S8 | LoadOp::I64U8 => 1,
        LoadOp::I64S16 | LoadOp::I64U16 => 2,
        LoadOp::I64S32 | LoadOp::I64U32 | LoadOp::I32 => 4,
        LoadOp::I64 => 8,
    };
    match load(mem, at, n) {
        Some(v) => Some(match op {
            LoadOp::I64S8 => u64w(if v < 0x80 { v as int } else { v - 0x100 }),
            LoadOp::I64S16 => u64w(if v < 0x8000 { v as int } else { v - 0x1_0000 }),
            LoadOp::I64S32 => sext32(v as u32),
            _ => v as u64,
        }),
        None => None,
    }
}

/// The number of bytes that a write touches.
pub open spec fn store_width(op: StoreOp) -> nat {
    match op {
        StoreOp::I32 | StoreOp::I64As32 => 4,
        StoreOp::I64 => 8,
        StoreOp::I64As8 => 1,
        StoreOp::I64As16 => 2,
    }
}

/// 64-bit operators; `None` where the machine traps.
pub open spec fn bin64(op: IntBin, a: u64, b: u64) -> Option<u64> {
    match op {
        IntBin::Add => Some(u64w(a + b)),
        IntBin::Sub => Some(u64w(a - b)),
        IntBin::Mul => Some(u64w(a * b)),
        IntBin::DivU => if b == 0 { None } else { Some(a / b) },
        IntBin::RemU => if b == 0 { None } else { Some(a % b) },
        IntBin::DivS => if b == 0 || (s64(a) == -0x8000_0000_0000_0000 && s64(b) == -1) {
            None
        } else {
            Some(u64w(tdiv(s64(a), s64(b))))
        },
        IntBin::RemS => if b == 0 { None } else { Some(u64w(trem(s64(a), s64(b)))) },
        IntBin::And => Some(a & b),
        IntBin::Or => Some(a | b),
        IntBin::Xor => Some(a ^ b),
        IntBin::Shl => Some(u64w(a * pow2(b as nat % 64))),
        IntBin::ShrU => Some(u64w(a as int / pow2(b as nat % 64) as int)),
        IntBin::ShrS => Some(u64w(s64(a) / pow2(b as nat % 64) as int)),
    }
}

/// 32-bit operators; `None` where the machine traps.
pub open spec fn bin32(op: IntBin, a: u32, b: u32) -> Option<u32> {
    match op {
        IntBin::Add => Some(u32w(a + b)),
        IntBin::Sub => Some(u32w(a - b)),
        IntBin::Mul => Some(u32w(a * b)),
        IntBin::DivU => if b == 0 { None } else { Some(a / b) },
        IntBin::RemU => if b == 0 { None } else { Some(a % b) },
        IntBin::DivS => if b == 0 || (s32(a) == -0x8000_0000 && s32(b) == -1) {
            None
        } else {
            Some(u32w(tdiv(s32(a), s32(b))))
        },
        IntBin::RemS => if b == 0 { None } else { Some(u32w(trem(s32(a), s32(b)))) },
        IntBin::And => Some(a & b),
        IntBin::Or => Some(a | b),
        IntBin::Xor => Some(a ^ b),
        IntBin::Shl => Some(u32w(a * pow2(b as nat % 32))),
        IntBin::ShrU => Some(u32w(a as int / pow2(b as nat % 32) as int)),
        IntBin::ShrS => Some(u32w(s32(a) / pow2(b as nat % 32) as int)),
    }
}

/// 64-bit comparisons.
pub open spec fn rel64(op: IntRel, a: u64, b: u64) -> bool {
    match op {
        IntRel::Eq => a == b,
        IntRel::Ne => a != b,
        IntRel::LtS => s64(a) < s64(b),
        IntRel::LtU => a < b,
        IntRel::GtS => s64(a) > s64(b),
        IntRel::GeS => s64(a) >= s64(b),
        IntRel::GeU => a >= b,
    }
}

/// 32-bit comparisons.
pub open spec fn rel32(op: IntRel, a: u32, b: u32) -> bool {
    match op {
        IntRel::Eq => a == b,
        IntRel::Ne => a != b,
        IntRel::LtS => s32(a) < s32(b),
        IntRel::LtU => a < b,
        IntRel::GtS => s32(a) > s32(b),
        IntRel::GeS => s32(a) >= s32(b),
        IntRel::GeU => a >= b,
    }
}

/// The world after the embedder has answered a call.
pub open spec fn after_call(env: Env, call: HelperCall, w: World) -> World {
    World { mem: (env.host)(call, w).0, calls: w.calls.push(call) }
}

/// What the embedder answers a call with.
pub open spec fn call_result(env: Env, call: HelperCall, w: World) -> u32 {
    (env.host)(call, w).1
}

/// Takes the arguments of a call of helper `id` off the stack: (state, addr, rd_off)
/// for a load, (state, addr, val) for a store, (state, addr, val, funct5, rd_off) for
/// an atomic.
pub open spec fn pop_call(id: usize, s: Stack) -> Option<(HelperCall, Stack)> {
    if id < 7 {
        match s {
            Stack::Push(Val::I32(rd_off), s) => match *s {
                Stack::Push(Val::I64(addr), s) => match *s {
                    Stack::Push(Val::I32(state), s) => Some(
                        (HelperCall::Load { id, state, addr, rd_off }, *s),
                    ),
                    _ => None,
                },
                _ => None,
            },
            _ => None,
        }
    } else if id < 11 {
        match s {
            Stack::Push(Val::I64(val), s) => match *s {
                Stack::Push(Val::I64(addr), s) => match *s {
                    Stack::Push(Val::I32(state), s) => Some(
                        (HelperCall::Store { id, state, addr, val }, *s),
                    ),
                    _ => None,
                },
                _ => None,
            },
            _ => None,
        }
    } else {
        match s {
            Stack::Push(Val::I32(rd_off), s) => match *s {
                Stack::Push(Val::I32(funct5), s) => match *s {
                    Stack::Push(Val::I64(val), s) => match *s {
                        Stack::Push(Val::I64(addr), s) => match *s {
                            Stack::Push(Val::I32(state), s) => Some(
                                (HelperCall::Amo { id, state, addr, val, funct5, rd_off }, *s),
                            ),
                            _ => None,
                        },
                        _ => None,
                    },
                    _ => None,
                },
                _ => None,
            },
            _ => None,
        }
    }
}

/// Takes two 64-bit operands off the stack: the lower one, the upper one, the rest.
pub open spec fn pop2x64(s: Stack) -> Option<(u64, u64, Stack)> {
    match s {
        Stack::Push(Val::I64(b), s) => match *s {
            Stack::Push(Val::I64(a), s) => Some((a, b, *s)),
            _ => None,
        },
        _ => None,
    }
}

/// Takes two 32-bit operands off the stack: the lower one, the upper one, the rest.
pub open spec fn pop2x32(s: Stack) -> Option<(u32, u32, Stack)> {
    match s {
        Stack::Push(Val::I32(b), s) => match *s {
            Stack::Push(Val::I32(a), s) => Some((a, b, *s)),
            _ => None,
        },
        _ => None,
    }
}

/// Takes a value of the type that `op` writes and an address off the stack.
pub open spec fn pop_store(op: StoreOp, s: Stack) -> Option<(u32, nat, Stack)> {
    match s {
        Stack::Push(Val::I32(v), s) => match *s {
            Stack::Push(Val::I32(a), s) => if op is I32 { Some((a, v as nat, *s)) } else { None },
            _ => None,
        },
        Stack::Push(Val::I64(v), s) => match *s {
            Stack::Push(Val::I32(a), s) => if op is I32 { None } else { Some((a, v as nat, *s)) },
            _ => None,
        },
        _ => None,
    }
}

/// Executes one instruction that opens or closes no conditional.
pub open spec fn step(i: Instr, s: Stack, f: Frame, env: Env) -> Outcome {
    match i {
        Instr::LocalGet(n) => if n < f.locals.len() {
            Outcome::Next(Stack::Push(f.locals[n as int], Box::new(s)), f)
        } else {
            Outcome::Stuck
        },
        Instr::LocalSet(n) => match s {
            Stack::Push(v, s) if n < f.locals.len() => Outcome::Next(
                *s,
                Frame { locals: f.locals.update(n as int, v), ..f },
            ),
            _ => Outcome::Stuck,
        },
        Instr::LocalTee(n) => match s {
            Stack::Push(v, _) if n < f.locals.len() => Outcome::Next(
                s,
                Frame { locals: f.locals.update(n as int, v), ..f },
            ),
            _ => Outcome::Stuck,
        },
        Instr::I32Const(v) => Outcome::Next(push32(u32w(v as int), s), f),
        Instr::I64Const(v) => Outcome::Next(push64(u64w(v as int), s), f),
        Instr::I32Bin(op) => match pop2x32(s) {
            Some((a, b, s)) => match bin32(op, a, b) {
                Some(v) => Outcome::Next(push32(v, s), f),
                None => Outcome::Trap,
            },
            None => Outcome::Stuck,
        },
        Instr::I64Bin(op) => match pop2x64(s) {
            Some((a, b, s)) => match bin64(op, a, b) {
                Some(v) => Outcome::Next(push64(v, s), f),
                None => Outcome::Trap,
            },
            None => Outcome::Stuck,
        },
        Instr::I32Rel(op) => match pop2x32(s) {
            Some((a, b, s)) => Outcome::Next(push32(flag(rel32(op, a, b)), s), f),
            None => Outcome::Stuck,
        },
        Instr::I64Rel(op) => match pop2x64(s) {
            Some((a, b, s)) => Outcome::Next(push32(flag(rel64(op, a, b)), s), f),
            None => Outcome::Stuck,
        },
        Instr::I64Eqz => match s {
            Stack::Push(Val::I64(a), s) => Outcome::Next(push32(flag(a == 0), *s), f),
            _ => Outcome::Stuck,
        },
        Instr::I32WrapI64 => match s {
            Stack::Push(Val::I64(a), s) => Outcome::Next(push32(u32w(a as int), *s), f),
            _ => Outcome::Stuck,
        },
        Instr::I64ExtendI32S => match s {
            Stack::Push(Val::I32(a), s) => Outcome::Next(push64(sext32(a), *s), f),
            _ => Outcome::Stuck,
        },
        Instr::I64ExtendI32U => match s {
            Stack::Push(Val::I32(a), s) => Outcome::Next(push64(a as u64, *s), f),
            _ => Outcome::Stuck,
        },
        Instr::Load(op, arg) => match s {
            Stack::Push(Val::I32(a), s) => match load_val(op, f.world.mem, a + arg.offset) {
                Some(v) => Outcome::Next(Stack::Push(v, s), f),
                None => Outcome::Trap,
            },
            _ => Outcome::Stuck,
        },
        Instr::Store(op, arg) => match pop_store(op, s) {
            Some((a, v, s)) => match store(f.world.mem, a + arg.offset, store_width(op), v) {
                Some(mem) => Outcome::Next(s, Frame { world: World { mem, ..f.world }, ..f }),
                None => Outcome::Trap,
            },
            None => Outcome::Stuck,
        },
        Instr::Drop => match s {
            Stack::Push(_, s) => Outcome::Next(*s, f),
            _ => Outcome::Stuck,
        },
        Instr::Return => match s {
            Stack::Push(Val::I64(v), _) => Outcome::Return(v, f.world),
            _ => Outcome::Stuck,
        },
        Instr::Call(n) => if n < env.imports.len() {
            match pop_call(env.imports[n as int], s) {
                Some((call, s)) => Outcome::Next(
                    push32(call_result(env, call, f.world), s),
                    Frame { world: after_call(env, call, f.world), ..f },
                ),
                None => Outcome::Stuck,
            }
        } else {
            Outcome::Stuck
        },
        Instr::ReturnCallIndirect(ty) => match pop2x32(s) {
            Some((arg, slot, _)) => if ty == 0 {
                Outcome::TailCall { slot, arg, world: f.world }
            } else {
                Outcome::Stuck
            },
            None => Outcome::Stuck,
        },
        Instr::If(_) | Instr::Else | Instr::End => Outcome::Stuck,
    }
}

/// Executes a body.
#[verifier::opaque]
pub open spec fn run(c: Code, s: Stack, f: Frame, env: Env) -> Outcome
    decreases c,
{
    match c {
        Code::Nil => Outcome::Next(s, f),
        Code::Cons(i, k) => match step(i, s, f, env) {
            Outcome::Next(s, f) => run(*k, s, f, env),
            o => o,
        },
        Code::If(_, yes, no, k) => match s {
            Stack::Push(Val::I32(c), s) => {
                let o = if c != 0 {
                    run(*yes, *s, f, env)
                } else {
                    run(*no, *s, f, env)
                };
                match o {
                    Outcome::Next(s, f) => run(*k, s, f, env),
                    o => o,
                }
            },
            _ => Outcome::Stuck,
        },
    }
}

pub broadcast proof fn lemma_run_nil(s: Stack, f: Frame, env: Env)
    ensures
        #[trigger] run(Code::Nil, s, f, env) == Outcome::Next(s, f),
{
    reveal(run);
}

pub broadcast proof fn lemma_run_cons(i: Instr, k: Box<Code>, s: Stack, f: Frame, env: Env)
    ensures
        #[trigger] run(Code::Cons(i, k), s, f, env) == match step(i, s, f, env) {
            Outcome::Next(s, f) => run(*k, s, f, env),
            o => o,
        },
{
    reveal(run);
}

pub broadcast proof fn lemma_run_if(
    ty: Option<ValTy>,
    yes: Box<Code>,
    no: Box<Code>,
    k: Box<Code>,
    s: Stack,
    f: Frame,
    env: Env,
)
    ensures
        #[trigger] run(Code::If(ty, yes, no, k), s, f, env) == match s {
            Stack::Push(Val::I32(c), s) => {
                let o = if c != 0 {
                    run(*yes, *s, f, env)
                } else {
                    run(*no, *s, f, env)
                };
                match o {
                    Outcome::Next(s, f) => run(*k, s, f, env),
                    o => o,
                }
            },
            _ => Outcome::Stuck,
        },
{
    reveal(run);
}

pub broadcast group group_run {
    lemma_run_nil,
    lemma_run_cons,
    lemma_run_if,
}

} // verus!
