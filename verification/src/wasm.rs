//! The WebAssembly instructions that blocks are made of.
//!
//! `Instr` is one element of a function body as it is laid out in the binary
//! format, where `If`, `Else` and `End` are instructions of their own. `Code` is
//! the same body with its nesting made explicit, which is what execution is
//! defined over.

use vstd::prelude::*;

verus! {

/// Value types.
#[derive(Clone, Copy, Debug, PartialEq, Eq, Structural)]
pub enum ValTy {
    I32,
    I64,
}

/// Integer operators with two operands and a result of the same type.
#[derive(Clone, Copy, Debug, PartialEq, Eq, Structural)]
pub enum IntBin {
    Add,
    Sub,
    Mul,
    DivS,
    DivU,
    RemS,
    RemU,
    And,
    Or,
    Xor,
    Shl,
    ShrS,
    ShrU,
}

/// Integer comparisons.
#[derive(Clone, Copy, Debug, PartialEq, Eq, Structural)]
pub enum IntRel {
    Eq,
    Ne,
    LtS,
    LtU,
    GtS,
    GeS,
    GeU,
}

/// Memory reads, by the type they push and the width and extension they read with.
#[derive(Clone, Copy, Debug, PartialEq, Eq, Structural)]
pub enum LoadOp {
    I32,
    I64,
    I64S8,
    I64U8,
    I64S16,
    I64U16,
    I64S32,
    I64U32,
}

/// Memory writes, by the type they pop and the width they write.
#[derive(Clone, Copy, Debug, PartialEq, Eq, Structural)]
pub enum StoreOp {
    I32,
    I64,
    I64As8,
    I64As16,
    I64As32,
}

/// Static part of a memory access: a byte offset and the binary logarithm of the
/// alignment hint. Only memory 0 is accessed.
#[derive(Clone, Copy, Debug, PartialEq, Eq, Structural)]
pub struct MemArg {
    pub offset: u64,
    pub align: u32,
}

/// One instruction of a function body.
#[derive(Clone, Copy, Debug, PartialEq, Eq, Structural)]
pub enum Instr {
    LocalGet(u32),
    LocalSet(u32),
    LocalTee(u32),
    I32Const(i32),
    I64Const(i64),
    I32Bin(IntBin),
    I64Bin(IntBin),
    I32Rel(IntRel),
    I64Rel(IntRel),
    I64Eqz,
    I32WrapI64,
    I64ExtendI32S,
    I64ExtendI32U,
    Load(LoadOp, MemArg),
    Store(StoreOp, MemArg),
    Drop,
    Return,
    Call(u32),
    /// Tail call through table 0 of a function of the given type.
    ReturnCallIndirect(u32),
    /// Opens a conditional, with the type of its result if it has one.
    If(Option<ValTy>),
    Else,
    End,
}

/// A function body with explicit nesting: a list of instructions and conditionals.
pub enum Code {
    Nil,
    /// One instruction that opens or closes no conditional, then the rest.
    Cons(Instr, Box<Code>),
    /// A conditional with its result type and both arms, then the rest.
    If(Option<ValTy>, Box<Code>, Box<Code>, Box<Code>),
}

/// An instruction followed by `k`.
#[verifier::inline]
pub open spec fn instr(i: Instr, k: Code) -> Code {
    Code::Cons(i, Box::new(k))
}

/// A conditional followed by `k`.
#[verifier::inline]
pub open spec fn cond(ty: Option<ValTy>, yes: Code, no: Code, k: Code) -> Code {
    Code::If(ty, Box::new(yes), Box::new(no), Box::new(k))
}

/// The instructions of the body `c`, appended to `p`. An empty alternative is left
/// out together with its `Else`.
#[verifier::opaque]
pub open spec fn flat(p: Seq<Instr>, c: Code) -> Seq<Instr>
    decreases c,
{
    match c {
        Code::Nil => p,
        Code::Cons(i, k) => flat(p.push(i), *k),
        Code::If(ty, yes, no, k) => {
            let q = flat(p.push(Instr::If(ty)), *yes);
            let q = if *no is Nil {
                q
            } else {
                flat(q.push(Instr::Else), *no)
            };
            flat(q.push(Instr::End), *k)
        },
    }
}

pub broadcast proof fn lemma_flat_nil(p: Seq<Instr>)
    ensures
        #[trigger] flat(p, Code::Nil) == p,
{
    reveal(flat);
}

pub broadcast proof fn lemma_flat_cons(p: Seq<Instr>, i: Instr, k: Box<Code>)
    ensures
        #[trigger] flat(p, Code::Cons(i, k)) == flat(p.push(i), *k),
{
    reveal(flat);
}

pub broadcast proof fn lemma_flat_if(
    p: Seq<Instr>,
    ty: Option<ValTy>,
    yes: Box<Code>,
    no: Box<Code>,
    k: Box<Code>,
)
    ensures
        #[trigger] flat(p, Code::If(ty, yes, no, k)) == {
            let q = flat(p.push(Instr::If(ty)), *yes);
            let q = if *no is Nil {
                q
            } else {
                flat(q.push(Instr::Else), *no)
            };
            flat(q.push(Instr::End), *k)
        },
{
    reveal(flat);
}

pub broadcast group group_flat {
    lemma_flat_nil,
    lemma_flat_cons,
    lemma_flat_if,
}

} // verus!
