//! Compiled operations do what the guest's instructions do: those that compute.

use vstd::prelude::*;
use crate::arith::{
    flag, lemma_const32, lemma_s64_of, lemma_u32w_add, lemma_u32w_u64w, lemma_u64w_add, sext32,
    u32w, u64w,
};
use crate::guest::{op_step, put_reg, reg, source, value, Step};
use crate::ir::Op;
use crate::machine::{
    bin32, bin64, group_run, push64, rel64, run, Env, Frame, Outcome, Stack, World,
};
use crate::relate::{after_write, dirtied, group_rel, known, lemma_store_reg, rel};
use crate::shape;
use crate::shape::{mark, op_code, spec_reads, spec_written, Config, Cx};
use crate::wasm::{Code, IntBin, IntRel};

verus! {

/// A point in the execution of a block: the code that follows, the frame, and the guest's
/// world for which the frame stands.
pub struct At {
    pub cx: Cx,
    pub dirty: Seq<u32>,
    pub k: Code,
    pub s: Stack,
    pub f: Frame,
    pub env: Env,
    pub w: World,
    pub sp: u32,
}

impl At {
    /// The frame stands for the world.
    pub open spec fn ok(self) -> bool {
        rel(self.f, self.w, self.cx, self.dirty, self.sp)
    }

    /// The run of `c` at this point.
    pub open spec fn run(self, c: Code) -> Outcome {
        run(c, self.s, self.f, self.env)
    }

    /// `out` is what comes of writing `v` to `rd` and going on.
    pub open spec fn wrote(self, rd: u32, v: u64, out: Outcome) -> bool {
        self.wrote_via(rd, v, out, self.f)
    }

    /// The same, where the frame has become `f` before the write.
    pub open spec fn wrote_via(self, rd: u32, v: u64, out: Outcome, f: Frame) -> bool {
        match put_reg(self.w, self.sp, rd, v) {
            Some(w) => {
                let f = after_write(self.cx, rd, v, f, self.sp);
                &&& out == run(self.k, self.s, f, self.env)
                &&& rel(f, w, self.cx, dirtied(self.cx, self.dirty, rd), self.sp)
            },
            None => out is Trap,
        }
    }

    /// `out` is what comes of one operation: on the way out of it, the frame `f`
    /// stands for the guest's world.
    pub open spec fn done(self, op: Op, cfg: Config, out: Outcome, f: Frame) -> bool {
        let dirty = mark(self.cx, self.dirty, op);
        match op_step(op, cfg, self.w, self.sp, self.env) {
            Step::Next(w) => {
                &&& out == run(self.k, self.s, f, self.env)
                &&& rel(f, w, self.cx, dirty, self.sp)
            },
            Step::Exit(pc, w) => {
                &&& out == run(self.k, push64(pc, self.s), f, self.env)
                &&& rel(f, w, self.cx, dirty, self.sp)
            },
            Step::Fault(pc, w) => out == Outcome::Return(pc, w),
            Step::Trap => out is Trap,
        }
    }
}

pub proof fn lemma_const_reg(at: At, rd: u32, imm: i64)
    requires
        at.ok(),
        known(at.cx, rd),
    ensures
        at.wrote(rd, u64w(imm as int), at.run(shape::const_reg(at.cx, rd, imm, at.k))),
{
    broadcast use group_run, group_rel;

    let v = u64w(imm as int);
    lemma_store_reg(at.cx, rd, v, at.k, at.s, at.f, at.env, at.w, at.dirty, at.sp);
}

proof fn lemma_bin_imm(at: At, rd: u32, rs1: u32, imm: i64, op: IntBin)
    requires
        at.ok(),
        known(at.cx, rd),
        known(at.cx, rs1),
        !(op is DivS || op is DivU || op is RemS || op is RemU),
    ensures
        match reg(at.w, at.sp, rs1) {
            Some(a) => at.wrote(
                rd,
                bin64(op, a, u64w(imm as int))->0,
                at.run(shape::bin_imm(at.cx, rd, rs1, imm, op, at.k)),
            ),
            None => at.run(shape::bin_imm(at.cx, rd, rs1, imm, op, at.k)) is Trap,
        },
{
    broadcast use group_run, group_rel;

    if let Some(a) = reg(at.w, at.sp, rs1) {
        lemma_store_reg(
            at.cx,
            rd,
            bin64(op, a, u64w(imm as int))->0,
            at.k,
            at.s,
            at.f,
            at.env,
            at.w,
            at.dirty,
            at.sp,
        );
    }
}

proof fn lemma_addiw(at: At, rd: u32, rs1: u32, imm: i64)
    requires
        at.ok(),
        known(at.cx, rd),
        known(at.cx, rs1),
    ensures
        match reg(at.w, at.sp, rs1) {
            Some(a) => at.wrote(
                rd,
                sext32(u32w(u64w(a + u64w(imm as int)) as int)),
                at.run(shape::addiw(at.cx, rd, rs1, imm, at.k)),
            ),
            None => at.run(shape::addiw(at.cx, rd, rs1, imm, at.k)) is Trap,
        },
{
    broadcast use group_run, group_rel;

    if let Some(a) = reg(at.w, at.sp, rs1) {
        lemma_store_reg(
            at.cx,
            rd,
            sext32(u32w(u64w(a + u64w(imm as int)) as int)),
            at.k,
            at.s,
            at.f,
            at.env,
            at.w,
            at.dirty,
            at.sp,
        );
    }
}

proof fn lemma_bin32_imm(at: At, rd: u32, rs1: u32, imm: i32, op: IntBin)
    requires
        at.ok(),
        known(at.cx, rd),
        known(at.cx, rs1),
        !(op is DivS || op is DivU || op is RemS || op is RemU),
    ensures
        match reg(at.w, at.sp, rs1) {
            Some(a) => at.wrote(
                rd,
                sext32(bin32(op, u32w(a as int), u32w(imm as int))->0),
                at.run(shape::bin32_imm(at.cx, rd, rs1, imm, op, at.k)),
            ),
            None => at.run(shape::bin32_imm(at.cx, rd, rs1, imm, op, at.k)) is Trap,
        },
{
    broadcast use group_run, group_rel;

    if let Some(a) = reg(at.w, at.sp, rs1) {
        lemma_store_reg(
            at.cx,
            rd,
            sext32(bin32(op, u32w(a as int), u32w(imm as int))->0),
            at.k,
            at.s,
            at.f,
            at.env,
            at.w,
            at.dirty,
            at.sp,
        );
    }
}

proof fn lemma_rel_imm(at: At, rd: u32, rs1: u32, imm: i64, op: IntRel)
    requires
        at.ok(),
        known(at.cx, rd),
        known(at.cx, rs1),
    ensures
        match reg(at.w, at.sp, rs1) {
            Some(a) => at.wrote(
                rd,
                flag(rel64(op, a, u64w(imm as int))) as u64,
                at.run(shape::rel_imm(at.cx, rd, rs1, imm, op, at.k)),
            ),
            None => at.run(shape::rel_imm(at.cx, rd, rs1, imm, op, at.k)) is Trap,
        },
{
    broadcast use group_run, group_rel;

    if let Some(a) = reg(at.w, at.sp, rs1) {
        lemma_store_reg(
            at.cx,
            rd,
            flag(rel64(op, a, u64w(imm as int))) as u64,
            at.k,
            at.s,
            at.f,
            at.env,
            at.w,
            at.dirty,
            at.sp,
        );
    }
}

pub proof fn lemma_bin_reg(at: At, rd: u32, rs1: u32, rs2: u32, op: IntBin)
    requires
        at.ok(),
        known(at.cx, rd),
        known(at.cx, rs1),
        known(at.cx, rs2),
        !(op is DivS || op is DivU || op is RemS || op is RemU),
    ensures
        match (reg(at.w, at.sp, rs1), reg(at.w, at.sp, rs2)) {
            (Some(a), Some(b)) => at.wrote(
                rd,
                bin64(op, a, b)->0,
                at.run(shape::bin_reg(at.cx, rd, rs1, rs2, op, at.k)),
            ),
            _ => at.run(shape::bin_reg(at.cx, rd, rs1, rs2, op, at.k)) is Trap,
        },
{
    broadcast use group_run, group_rel;

    if let (Some(a), Some(b)) = (reg(at.w, at.sp, rs1), reg(at.w, at.sp, rs2)) {
        lemma_store_reg(
            at.cx,
            rd,
            bin64(op, a, b)->0,
            at.k,
            at.s,
            at.f,
            at.env,
            at.w,
            at.dirty,
            at.sp,
        );
    }
}

proof fn lemma_shift_reg(at: At, rd: u32, rs1: u32, rs2: u32, op: IntBin)
    requires
        at.ok(),
        known(at.cx, rd),
        known(at.cx, rs1),
        known(at.cx, rs2),
        !(op is DivS || op is DivU || op is RemS || op is RemU),
    ensures
        match (reg(at.w, at.sp, rs1), reg(at.w, at.sp, rs2)) {
            (Some(a), Some(b)) => at.wrote(
                rd,
                bin64(op, a, b & u64w(0x3f))->0,
                at.run(shape::shift_reg(at.cx, rd, rs1, rs2, op, at.k)),
            ),
            _ => at.run(shape::shift_reg(at.cx, rd, rs1, rs2, op, at.k)) is Trap,
        },
{
    broadcast use group_run, group_rel;

    if let (Some(a), Some(b)) = (reg(at.w, at.sp, rs1), reg(at.w, at.sp, rs2)) {
        lemma_store_reg(
            at.cx,
            rd,
            bin64(op, a, b & u64w(0x3f))->0,
            at.k,
            at.s,
            at.f,
            at.env,
            at.w,
            at.dirty,
            at.sp,
        );
    }
}

proof fn lemma_rel_reg(at: At, rd: u32, rs1: u32, rs2: u32, op: IntRel)
    requires
        at.ok(),
        known(at.cx, rd),
        known(at.cx, rs1),
        known(at.cx, rs2),
    ensures
        match (reg(at.w, at.sp, rs1), reg(at.w, at.sp, rs2)) {
            (Some(a), Some(b)) => at.wrote(
                rd,
                flag(rel64(op, a, b)) as u64,
                at.run(shape::rel_reg(at.cx, rd, rs1, rs2, op, at.k)),
            ),
            _ => at.run(shape::rel_reg(at.cx, rd, rs1, rs2, op, at.k)) is Trap,
        },
{
    broadcast use group_run, group_rel;

    if let (Some(a), Some(b)) = (reg(at.w, at.sp, rs1), reg(at.w, at.sp, rs2)) {
        lemma_store_reg(
            at.cx,
            rd,
            flag(rel64(op, a, b)) as u64,
            at.k,
            at.s,
            at.f,
            at.env,
            at.w,
            at.dirty,
            at.sp,
        );
    }
}

pub proof fn lemma_bin32(at: At, rd: u32, rs1: u32, rs2: u32, op: IntBin)
    requires
        at.ok(),
        known(at.cx, rd),
        known(at.cx, rs1),
        known(at.cx, rs2),
        !(op is DivS || op is DivU || op is RemS || op is RemU),
    ensures
        match (reg(at.w, at.sp, rs1), reg(at.w, at.sp, rs2)) {
            (Some(a), Some(b)) => at.wrote(
                rd,
                sext32(bin32(op, u32w(a as int), u32w(b as int))->0),
                at.run(shape::bin32(at.cx, rd, rs1, rs2, op, at.k)),
            ),
            _ => at.run(shape::bin32(at.cx, rd, rs1, rs2, op, at.k)) is Trap,
        },
{
    broadcast use group_run, group_rel;

    if let (Some(a), Some(b)) = (reg(at.w, at.sp, rs1), reg(at.w, at.sp, rs2)) {
        lemma_store_reg(
            at.cx,
            rd,
            sext32(bin32(op, u32w(a as int), u32w(b as int))->0),
            at.k,
            at.s,
            at.f,
            at.env,
            at.w,
            at.dirty,
            at.sp,
        );
    }
}

proof fn lemma_shift32_reg(at: At, rd: u32, rs1: u32, rs2: u32, op: IntBin)
    requires
        at.ok(),
        known(at.cx, rd),
        known(at.cx, rs1),
        known(at.cx, rs2),
        !(op is DivS || op is DivU || op is RemS || op is RemU),
    ensures
        match (reg(at.w, at.sp, rs1), reg(at.w, at.sp, rs2)) {
            (Some(a), Some(b)) => at.wrote(
                rd,
                sext32(bin32(op, u32w(a as int), u32w(b as int) & u32w(0x1f))->0),
                at.run(shape::shift32_reg(at.cx, rd, rs1, rs2, op, at.k)),
            ),
            _ => at.run(shape::shift32_reg(at.cx, rd, rs1, rs2, op, at.k)) is Trap,
        },
{
    broadcast use group_run, group_rel;

    if let (Some(a), Some(b)) = (reg(at.w, at.sp, rs1), reg(at.w, at.sp, rs2)) {
        lemma_store_reg(
            at.cx,
            rd,
            sext32(bin32(op, u32w(a as int), u32w(b as int) & u32w(0x1f))->0),
            at.k,
            at.s,
            at.f,
            at.env,
            at.w,
            at.dirty,
            at.sp,
        );
    }
}

/// Registers that an operation names are lifted or away from the lifted ones.
pub open spec fn known_op(cx: Cx, op: Op) -> bool {
    &&& forall|i: int| 0 <= i < spec_reads(op).len() ==> known(cx, #[trigger] spec_reads(op)[i])
    &&& spec_written(op) matches Some(rd) ==> known(cx, rd)
}

/// Operations that read registers, compute and write a register, but for products and
/// divisions.
pub open spec fn is_alu(op: Op) -> bool {
    spec_written(op) is Some && !(op is MulDiv) && !(op is Jal) && !(op is Jalr)
}

/// An amount of 64-bit shift counts modulo 64.
#[verifier::spinoff_prover]
proof fn lemma_amount64(b: u64)
    ensures
        (b & 0x3f) as nat % 64 == b as nat % 64,
{
    assert(b & 0x3f == b % 64) by (bit_vector);
}

/// An amount of 32-bit shift counts modulo 32.
#[verifier::spinoff_prover]
proof fn lemma_amount32(b: u64)
    ensures
        (u32w(b as int) & 0x1f) as nat % 32 == b as nat % 32,
{
    let y = u32w(b as int);
    assert(y & 0x1f == y % 32) by (bit_vector);
    assert(y as int == b as int % 0x1_0000_0000);
}

/// The same of constant amounts.
#[verifier::spinoff_prover]
proof fn lemma_amount_const(c: u32)
    ensures
        u64w(c as int) as nat % 64 == c as nat % 64,
        u32w((c as i32) as int) as nat % 32 == c as nat % 32,
{
    lemma_const32(c);
}

/// An amount of shift counts modulo the width.
proof fn lemma_amounts(b: u64, c: u32)
    ensures
        (b & 0x3f) as nat % 64 == b as nat % 64,
        (u32w(b as int) & 0x1f) as nat % 32 == b as nat % 32,
        u64w(c as int) as nat % 64 == c as nat % 64,
        u32w((c as i32) as int) as nat % 32 == c as nat % 32,
{
    lemma_amount64(b);
    lemma_amount32(b);
    lemma_amount_const(c);
}

/// Sums and differences of low halves.
proof fn lemma_words(a: int, b: int)
    ensures
        u32w(u32w(a) + u32w(b)) == u32w(a + b),
        u32w(u32w(a) - u32w(b)) == u32w(a - b),
{
    lemma_u32w_add(a, u32w(b) as int);
    lemma_u32w_add(a, b);
}

/// A computing operation with one source register at most.
#[verifier::spinoff_prover]
#[verifier::rlimit(30)]
proof fn lemma_alu_imm(at: At, op: Op, cfg: Config) -> (f: Frame)
    requires
        at.ok(),
        is_alu(op),
        known_op(at.cx, op),
        spec_reads(op).len() <= 1,
    ensures
        at.done(op, cfg, at.run(op_code(op, at.cx, at.dirty, at.k)), f),
{
    broadcast use lemma_s64_of, lemma_u32w_u64w;

    reveal(op_code);
    reveal(op_step);
    let rd = spec_written(op)->0;
    let a = match source(op, 0, at.w, at.sp) {
        Some(a) => a,
        None => 0,
    };
    let b = match source(op, 1, at.w, at.sp) {
        Some(b) => b,
        None => 0,
    };
    let reads = spec_reads(op);
    if reads.len() > 0 {
        assert(known(at.cx, reads[0]));
    }
    match op {
        Op::Const { rd, imm } => {
            lemma_const_reg(at, rd, imm);
        },
        Op::Addi { rd, rs1, imm } => {
            lemma_bin_imm(at, rd, rs1, imm, IntBin::Add);
        },
        Op::Andi { rd, rs1, imm } => {
            lemma_bin_imm(at, rd, rs1, imm, IntBin::And);
        },
        Op::Ori { rd, rs1, imm } => {
            lemma_bin_imm(at, rd, rs1, imm, IntBin::Or);
        },
        Op::Xori { rd, rs1, imm } => {
            lemma_bin_imm(at, rd, rs1, imm, IntBin::Xor);
        },
        Op::Addiw { rd, rs1, imm } => {
            lemma_addiw(at, rd, rs1, imm);
        },
        Op::Slti { rd, rs1, imm } => {
            lemma_rel_imm(at, rd, rs1, imm, IntRel::LtS);
        },
        Op::Sltiu { rd, rs1, imm } => {
            lemma_rel_imm(at, rd, rs1, imm, IntRel::LtU);
        },
        Op::Slli { rd, rs1, shamt } => {
            lemma_amounts(b, shamt);
            lemma_bin_imm(at, rd, rs1, shamt as i64, IntBin::Shl);
        },
        Op::Srli { rd, rs1, shamt } => {
            lemma_amounts(b, shamt);
            lemma_bin_imm(at, rd, rs1, shamt as i64, IntBin::ShrU);
        },
        Op::Srai { rd, rs1, shamt } => {
            lemma_amounts(b, shamt);
            lemma_bin_imm(at, rd, rs1, shamt as i64, IntBin::ShrS);
        },
        Op::Slliw { rd, rs1, shamt } => {
            lemma_amounts(b, shamt);
            lemma_bin32_imm(at, rd, rs1, shamt as i32, IntBin::Shl);
        },
        Op::Srliw { rd, rs1, shamt } => {
            lemma_amounts(b, shamt);
            lemma_bin32_imm(at, rd, rs1, shamt as i32, IntBin::ShrU);
        },
        Op::Sraiw { rd, rs1, shamt } => {
            lemma_amounts(b, shamt);
            lemma_bin32_imm(at, rd, rs1, shamt as i32, IntBin::ShrS);
        },
        _ => {},
    }
    match op {
        Op::Addi { imm, .. } | Op::Addiw { imm, .. } => {
            lemma_u64w_add(a as int, imm as int);
        },
        _ => {},
    }
    after_write(at.cx, rd, value(op, a, b), at.f, at.sp)
}

/// A computing operation with two source registers.
#[verifier::spinoff_prover]
#[verifier::rlimit(30)]
proof fn lemma_alu_reg(at: At, op: Op, cfg: Config) -> (f: Frame)
    requires
        at.ok(),
        is_alu(op),
        known_op(at.cx, op),
        spec_reads(op).len() == 2,
    ensures
        at.done(op, cfg, at.run(op_code(op, at.cx, at.dirty, at.k)), f),
{
    broadcast use lemma_s64_of, lemma_u32w_u64w;

    reveal(op_code);
    reveal(op_step);
    let rd = spec_written(op)->0;
    let a = match source(op, 0, at.w, at.sp) {
        Some(a) => a,
        None => 0,
    };
    let b = match source(op, 1, at.w, at.sp) {
        Some(b) => b,
        None => 0,
    };
    let reads = spec_reads(op);
    assert(known(at.cx, reads[0]));
    assert(known(at.cx, reads[1]));
    match op {
        Op::Add { rd, rs1, rs2 } => {
            lemma_bin_reg(at, rd, rs1, rs2, IntBin::Add);
        },
        Op::Sub { rd, rs1, rs2 } => {
            lemma_bin_reg(at, rd, rs1, rs2, IntBin::Sub);
        },
        Op::And { rd, rs1, rs2 } => {
            lemma_bin_reg(at, rd, rs1, rs2, IntBin::And);
        },
        Op::Or { rd, rs1, rs2 } => {
            lemma_bin_reg(at, rd, rs1, rs2, IntBin::Or);
        },
        Op::Xor { rd, rs1, rs2 } => {
            lemma_bin_reg(at, rd, rs1, rs2, IntBin::Xor);
        },
        Op::Sll { rd, rs1, rs2 } => {
            lemma_amounts(b, 0);
            lemma_shift_reg(at, rd, rs1, rs2, IntBin::Shl);
        },
        Op::Srl { rd, rs1, rs2 } => {
            lemma_amounts(b, 0);
            lemma_shift_reg(at, rd, rs1, rs2, IntBin::ShrU);
        },
        Op::Sra { rd, rs1, rs2 } => {
            lemma_amounts(b, 0);
            lemma_shift_reg(at, rd, rs1, rs2, IntBin::ShrS);
        },
        Op::Slt { rd, rs1, rs2 } => {
            lemma_rel_reg(at, rd, rs1, rs2, IntRel::LtS);
        },
        Op::Sltu { rd, rs1, rs2 } => {
            lemma_rel_reg(at, rd, rs1, rs2, IntRel::LtU);
        },
        Op::Addw { rd, rs1, rs2 } => {
            lemma_words(a as int, b as int);
            lemma_bin32(at, rd, rs1, rs2, IntBin::Add);
        },
        Op::Subw { rd, rs1, rs2 } => {
            lemma_words(a as int, b as int);
            lemma_bin32(at, rd, rs1, rs2, IntBin::Sub);
        },
        Op::Sllw { rd, rs1, rs2 } => {
            lemma_amounts(b, 0);
            lemma_shift32_reg(at, rd, rs1, rs2, IntBin::Shl);
        },
        Op::Srlw { rd, rs1, rs2 } => {
            lemma_amounts(b, 0);
            lemma_shift32_reg(at, rd, rs1, rs2, IntBin::ShrU);
        },
        Op::Sraw { rd, rs1, rs2 } => {
            lemma_amounts(b, 0);
            lemma_shift32_reg(at, rd, rs1, rs2, IntBin::ShrS);
        },
        _ => {},
    }
    after_write(at.cx, rd, value(op, a, b), at.f, at.sp)
}

/// A computing operation.
pub proof fn lemma_alu(at: At, op: Op, cfg: Config) -> (f: Frame)
    requires
        at.ok(),
        is_alu(op),
        known_op(at.cx, op),
    ensures
        at.done(op, cfg, at.run(op_code(op, at.cx, at.dirty, at.k)), f),
{
    if spec_reads(op).len() == 2 {
        lemma_alu_reg(at, op, cfg)
    } else {
        lemma_alu_imm(at, op, cfg)
    }
}

} // verus!
