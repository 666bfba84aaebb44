//! Compilation of basic blocks to WebAssembly.
//!
//! A compiled block is a function `(state_ptr: i32) -> (next_pc: i64)`. It imports the
//! guest's linear memory and reads and writes guest registers there, at offsets from
//! `state_ptr`. The pc it returns is where the guest goes on; a pc with bit 0 set is
//! the pc of an instruction that faulted, which the interpreter is to execute again.

use vstd::prelude::*;
use crate::encode::{
    add_body, add_export, add_function, add_import, add_type, body_list, byte_len, code_len,
    export_list, finish, function, function_body, function_list, import_list, module_bytes,
    module_sections, put_bodies, put_exports, put_functions, put_imports, put_types, type_list,
    Body, Export, FuncTy, Import, ImportTy, Section, MAX_BODY, MAX_ITEMS,
};
use crate::ir::{ir_ops, is_valid_ir, parse_ir, valid_ir, AmoW, LoadW, MulDivOp, Op, StoreW};
use crate::shape;
use crate::shape::{
    lemma_pos, pos, Config, Cx, Half, FIXED_LOCALS, HASH_MULT, HELPERS, KERNEL_HALF_BASE,
    MAX_LIFTED,
};
pub use crate::shape::{ChainLayout, TlbLayout};
use crate::size::law_short_streams;
use crate::wasm::{
    flat, group_flat, Code, Instr, IntBin, IntRel, LoadOp, MemArg, StoreOp, ValTy,
};

verus! {

/// Constants baked into the code of a block, and where its helpers and lifted
/// registers are.
struct Ctx {
    start_pc: u64,
    block_end_pc: u64,
    /// Ids of the imported helpers, in import order.
    used: Vec<usize>,
    tlb: Option<TlbLayout>,
    /// Registers kept in locals, from local `lift_base` on.
    lifted: Vec<u32>,
    lift_base: u32,
}

impl View for Ctx {
    type V = Cx;

    closed spec fn view(&self) -> Cx {
        Cx {
            start_pc: self.start_pc,
            end_pc: self.block_end_pc,
            used: self.used@,
            tlb: self.tlb,
            lifted: self.lifted@,
            lift_base: self.lift_base,
        }
    }
}

impl Ctx {
    spec fn wf(self) -> bool {
        &&& self.lift_base <= FIXED_LOCALS + 1
        &&& self.lifted@.len() <= MAX_LIFTED
        &&& self.used@.len() <= u32::MAX
    }

    /// Local of a lifted register.
    fn local_of(&self, r: u32) -> (l: Option<u32>)
        requires
            self.wf(),
        ensures
            l == (match pos(self@.lifted, r) {
                Some(i) => Some((self@.lift_base + i) as u32),
                None => None::<u32>,
            }),
    {
        let mut i: usize = self.lifted.len();
        assert(self.lifted@.take(i as int) =~= self.lifted@);
        while i > 0
            invariant
                i <= self.lifted@.len(),
                self.wf(),
                pos(self.lifted@, r) == pos(self.lifted@.take(i as int), r),
            decreases i,
        {
            assert(self.lifted@.take(i as int).drop_last() =~= self.lifted@.take(i - 1));
            i = i - 1;
            if self.lifted[i] == r {
                return Some(self.lift_base + i as u32);
            }
        }
        None
    }

    /// Function index of an imported helper.
    fn import_of(&self, id: usize) -> (n: u32)
        requires
            self.wf(),
            self.used@.contains(id),
        ensures
            n == pos(self@.used, id)->0 as u32,
    {
        let mut i: usize = self.used.len();
        proof {
            lemma_pos(self.used@, id);
        }
        assert(self.used@.take(i as int) =~= self.used@);
        while i > 0
            invariant
                i <= self.used@.len(),
                self.wf(),
                pos(self.used@, id) is Some,
                pos(self.used@, id) == pos(self.used@.take(i as int), id),
            decreases i,
        {
            assert(self.used@.take(i as int).drop_last() =~= self.used@.take(i - 1));
            i = i - 1;
            if self.used[i] == id {
                return i as u32;
            }
        }
        0
    }
}

/// The tag that a TLB entry is compared with. The page bits select the entry; the low
/// bits that are kept make an access that is not aligned for its width fail the
/// comparison.
fn tag_mask(pg_shift: u32, bytes: u64) -> (m: i64)
    requires
        pg_shift < 64,
        bytes >= 1,
    ensures
        m == shape::spec_tag_mask(pg_shift, bytes) as i64,
{
    assert(1u64 << pg_shift >= 1) by (bit_vector)
        requires
            pg_shift < 64,
    ;
    let pg_mask: u64 = (1u64 << pg_shift) - 1;
    (!(pg_mask & !(bytes - 1))) as i64
}

/// Helper that a memory operation calls.
pub fn helper_id(op: &Op) -> (r: Option<usize>)
    ensures
        r == shape::spec_helper_id(*op),
{
    match *op {
        Op::Load { w, .. } => Some(
            match w {
                LoadW::B => 0,
                LoadW::H => 1,
                LoadW::W => 2,
                LoadW::D => 3,
                LoadW::Bu => 4,
                LoadW::Hu => 5,
                LoadW::Wu => 6,
            },
        ),
        Op::Store { w, .. } => Some(
            match w {
                StoreW::B => 7,
                StoreW::H => 8,
                StoreW::W => 9,
                StoreW::D => 10,
            },
        ),
        Op::Amo { w, .. } => Some(
            match w {
                AmoW::W => 11,
                AmoW::D => 12,
            },
        ),
        _ => None,
    }
}

fn reg_arg(off: u32) -> (a: MemArg)
    ensures
        a == shape::reg_arg(off),
{
    MemArg { offset: off as u64, align: 3 }
}

fn word_arg(off: u32) -> (a: MemArg)
    ensures
        a == shape::word_arg(off),
{
    MemArg { offset: off as u64, align: 2 }
}

fn load_bytes(w: LoadW) -> (n: u64)
    ensures
        n == shape::load_bytes(w),
{
    match w {
        LoadW::B | LoadW::Bu => 1,
        LoadW::H | LoadW::Hu => 2,
        LoadW::W | LoadW::Wu => 4,
        LoadW::D => 8,
    }
}

fn store_bytes(w: StoreW) -> (n: u64)
    ensures
        n == shape::store_bytes(w),
{
    match w {
        StoreW::B => 1,
        StoreW::H => 2,
        StoreW::W => 4,
        StoreW::D => 8,
    }
}

fn load_op(w: LoadW) -> (op: LoadOp)
    ensures
        op == shape::load_op(w),
{
    match w {
        LoadW::B => LoadOp::I64S8,
        LoadW::Bu => LoadOp::I64U8,
        LoadW::H => LoadOp::I64S16,
        LoadW::Hu => LoadOp::I64U16,
        LoadW::W => LoadOp::I64S32,
        LoadW::Wu => LoadOp::I64U32,
        LoadW::D => LoadOp::I64,
    }
}

fn store_op(w: StoreW) -> (op: StoreOp)
    ensures
        op == shape::store_op(w),
{
    match w {
        StoreW::B => StoreOp::I64As8,
        StoreW::H => StoreOp::I64As16,
        StoreW::W => StoreOp::I64As32,
        StoreW::D => StoreOp::I64,
    }
}

fn align_of(bytes: u64) -> (n: u32)
    ensures
        n == shape::align_of(bytes),
{
    if bytes == 1 {
        0
    } else if bytes == 2 {
        1
    } else if bytes == 4 {
        2
    } else {
        3
    }
}

/// Pushes the value of a register from the state.
fn load_state(code: &mut Vec<Instr>, rs_off: u32)
    ensures
        forall|k: Code|
            #[trigger] flat(old(code)@, shape::load_reg(rs_off, k)) == flat(final(code)@, k),
{
    broadcast use group_flat;

    code.push(Instr::LocalGet(0));
    code.push(Instr::Load(LoadOp::I64, reg_arg(rs_off)));
}

/// Pushes the address in linear memory of a TLB hit, out of the locals that the probe
/// has set. The addition wraps.
fn tlb_host_addr(code: &mut Vec<Instr>, t: TlbLayout, tlb_off: u32)
    requires
        t.usable_at(tlb_off),
    ensures
        forall|k: Code|
            #[trigger] flat(old(code)@, shape::tlb_host_addr(t, tlb_off, k)) == flat(
                final(code)@,
                k,
            ),
{
    broadcast use group_flat;

    code.push(Instr::LocalGet(3));
    code.push(
        Instr::Load(LoadOp::I32, MemArg { offset: (tlb_off + t.addend_off) as u64, align: 2 }),
    );
    code.push(Instr::LocalGet(2));
    code.push(Instr::I32WrapI64);
    code.push(Instr::I32Bin(IntBin::Add));
}

/// Prepares a register write: a store needs its address below the value.
fn begin_write(code: &mut Vec<Instr>, cx: &Ctx, rd: u32)
    requires
        cx.wf(),
    ensures
        forall|k: Code|
            #[trigger] flat(old(code)@, shape::begin_write(cx@, rd, k)) == flat(final(code)@, k),
{
    broadcast use group_flat;

    if cx.local_of(rd).is_none() {
        code.push(Instr::LocalGet(0));
    }
}

/// Pushes the value of a register, from its local if it is lifted.
fn load_reg(code: &mut Vec<Instr>, cx: &Ctx, rs_off: u32)
    requires
        cx.wf(),
    ensures
        forall|k: Code|
            #[trigger] flat(old(code)@, shape::get_reg(cx@, rs_off, k)) == flat(final(code)@, k),
{
    broadcast use group_flat;

    match cx.local_of(rs_off) {
        Some(local) => code.push(Instr::LocalGet(local)),
        None => load_state(code, rs_off),
    }
}

/// Writes the value on the stack to a register.
fn store_reg(code: &mut Vec<Instr>, cx: &Ctx, rd_off: u32)
    requires
        cx.wf(),
    ensures
        forall|k: Code|
            #[trigger] flat(old(code)@, shape::store_reg(cx@, rd_off, k)) == flat(final(code)@, k),
{
    broadcast use group_flat;

    match cx.local_of(rd_off) {
        Some(local) => code.push(Instr::LocalSet(local)),
        None => code.push(Instr::Store(StoreOp::I64, reg_arg(rd_off))),
    }
}

fn bin_imm(code: &mut Vec<Instr>, cx: &Ctx, rd: u32, rs1: u32, imm: i64, op: IntBin)
    requires
        cx.wf(),
    ensures
        forall|k: Code|
            #[trigger] flat(
                old(code)@,
                shape::bin_imm(cx@, rd, rs1, imm, op, k),
            ) == flat(final(code)@, k),
{
    broadcast use group_flat;

    begin_write(code, cx, rd);
    load_reg(code, cx, rs1);
    code.push(Instr::I64Const(imm));
    code.push(Instr::I64Bin(op));
    store_reg(code, cx, rd);
}

fn addiw(code: &mut Vec<Instr>, cx: &Ctx, rd: u32, rs1: u32, imm: i64)
    requires
        cx.wf(),
    ensures
        forall|k: Code|
            #[trigger] flat(
                old(code)@,
                shape::addiw(cx@, rd, rs1, imm, k),
            ) == flat(final(code)@, k),
{
    broadcast use group_flat;

    begin_write(code, cx, rd);
    load_reg(code, cx, rs1);
    code.push(Instr::I64Const(imm));
    code.push(Instr::I64Bin(IntBin::Add));
    code.push(Instr::I32WrapI64);
    code.push(Instr::I64ExtendI32S);
    store_reg(code, cx, rd);
}

fn bin32_imm(code: &mut Vec<Instr>, cx: &Ctx, rd: u32, rs1: u32, imm: i32, op: IntBin)
    requires
        cx.wf(),
    ensures
        forall|k: Code|
            #[trigger] flat(
                old(code)@,
                shape::bin32_imm(cx@, rd, rs1, imm, op, k),
            ) == flat(final(code)@, k),
{
    broadcast use group_flat;

    begin_write(code, cx, rd);
    load_reg(code, cx, rs1);
    code.push(Instr::I32WrapI64);
    code.push(Instr::I32Const(imm));
    code.push(Instr::I32Bin(op));
    code.push(Instr::I64ExtendI32S);
    store_reg(code, cx, rd);
}

fn rel_imm(code: &mut Vec<Instr>, cx: &Ctx, rd: u32, rs1: u32, imm: i64, op: IntRel)
    requires
        cx.wf(),
    ensures
        forall|k: Code|
            #[trigger] flat(
                old(code)@,
                shape::rel_imm(cx@, rd, rs1, imm, op, k),
            ) == flat(final(code)@, k),
{
    broadcast use group_flat;

    begin_write(code, cx, rd);
    load_reg(code, cx, rs1);
    code.push(Instr::I64Const(imm));
    code.push(Instr::I64Rel(op));
    code.push(Instr::I64ExtendI32U);
    store_reg(code, cx, rd);
}

fn bin_reg(code: &mut Vec<Instr>, cx: &Ctx, rd: u32, rs1: u32, rs2: u32, op: IntBin)
    requires
        cx.wf(),
    ensures
        forall|k: Code|
            #[trigger] flat(
                old(code)@,
                shape::bin_reg(cx@, rd, rs1, rs2, op, k),
            ) == flat(final(code)@, k),
{
    broadcast use group_flat;

    begin_write(code, cx, rd);
    load_reg(code, cx, rs1);
    load_reg(code, cx, rs2);
    code.push(Instr::I64Bin(op));
    store_reg(code, cx, rd);
}

fn shift_reg(code: &mut Vec<Instr>, cx: &Ctx, rd: u32, rs1: u32, rs2: u32, op: IntBin)
    requires
        cx.wf(),
    ensures
        forall|k: Code|
            #[trigger] flat(
                old(code)@,
                shape::shift_reg(cx@, rd, rs1, rs2, op, k),
            ) == flat(final(code)@, k),
{
    broadcast use group_flat;

    begin_write(code, cx, rd);
    load_reg(code, cx, rs1);
    load_reg(code, cx, rs2);
    code.push(Instr::I64Const(0x3f));
    code.push(Instr::I64Bin(IntBin::And));
    code.push(Instr::I64Bin(op));
    store_reg(code, cx, rd);
}

fn rel_reg(code: &mut Vec<Instr>, cx: &Ctx, rd: u32, rs1: u32, rs2: u32, op: IntRel)
    requires
        cx.wf(),
    ensures
        forall|k: Code|
            #[trigger] flat(
                old(code)@,
                shape::rel_reg(cx@, rd, rs1, rs2, op, k),
            ) == flat(final(code)@, k),
{
    broadcast use group_flat;

    begin_write(code, cx, rd);
    load_reg(code, cx, rs1);
    load_reg(code, cx, rs2);
    code.push(Instr::I64Rel(op));
    code.push(Instr::I64ExtendI32U);
    store_reg(code, cx, rd);
}

fn bin32(code: &mut Vec<Instr>, cx: &Ctx, rd: u32, rs1: u32, rs2: u32, op: IntBin)
    requires
        cx.wf(),
    ensures
        forall|k: Code|
            #[trigger] flat(
                old(code)@,
                shape::bin32(cx@, rd, rs1, rs2, op, k),
            ) == flat(final(code)@, k),
{
    broadcast use group_flat;

    begin_write(code, cx, rd);
    load_reg(code, cx, rs1);
    code.push(Instr::I32WrapI64);
    load_reg(code, cx, rs2);
    code.push(Instr::I32WrapI64);
    code.push(Instr::I32Bin(op));
    code.push(Instr::I64ExtendI32S);
    store_reg(code, cx, rd);
}

fn shift32_reg(code: &mut Vec<Instr>, cx: &Ctx, rd: u32, rs1: u32, rs2: u32, op: IntBin)
    requires
        cx.wf(),
    ensures
        forall|k: Code|
            #[trigger] flat(
                old(code)@,
                shape::shift32_reg(cx@, rd, rs1, rs2, op, k),
            ) == flat(final(code)@, k),
{
    broadcast use group_flat;

    begin_write(code, cx, rd);
    load_reg(code, cx, rs1);
    code.push(Instr::I32WrapI64);
    load_reg(code, cx, rs2);
    code.push(Instr::I32WrapI64);
    code.push(Instr::I32Const(0x1f));
    code.push(Instr::I32Bin(IntBin::And));
    code.push(Instr::I32Bin(op));
    code.push(Instr::I64ExtendI32S);
    store_reg(code, cx, rd);
}

fn const_reg(code: &mut Vec<Instr>, cx: &Ctx, rd: u32, imm: i64)
    requires
        cx.wf(),
    ensures
        forall|k: Code|
            #[trigger] flat(old(code)@, shape::const_reg(cx@, rd, imm, k)) == flat(final(code)@, k),
{
    broadcast use group_flat;

    begin_write(code, cx, rd);
    code.push(Instr::I64Const(imm));
    store_reg(code, cx, rd);
}

/// Writes the link pc, unless the link register is x0.
fn link(code: &mut Vec<Instr>, cx: &Ctx, rd: u32)
    requires
        cx.wf(),
    ensures
        forall|k: Code|
            #[trigger] flat(old(code)@, shape::link(cx@, rd, k)) == flat(final(code)@, k),
{
    broadcast use group_flat;

    if rd != 0 {
        const_reg(code, cx, rd, cx.block_end_pc as i64);
    }
}

/// The new pc is stashed in local 1 before the link register is written: they may be
/// the same register.
fn jalr(code: &mut Vec<Instr>, cx: &Ctx, rd: u32, rs1: u32, imm: i64)
    requires
        cx.wf(),
    ensures
        forall|k: Code|
            #[trigger] flat(old(code)@, shape::jalr(cx@, rd, rs1, imm, k)) == flat(final(code)@, k),
{
    broadcast use group_flat;

    load_reg(code, cx, rs1);
    code.push(Instr::I64Const(imm));
    code.push(Instr::I64Bin(IntBin::Add));
    code.push(Instr::I64Const(-2));
    code.push(Instr::I64Bin(IntBin::And));
    code.push(Instr::LocalSet(1));
    link(code, cx, rd);
    code.push(Instr::LocalGet(1));
}

/// Conditional branch: pushes the target pc if the comparison holds, else the pc of the
/// fallthrough.
fn branch(code: &mut Vec<Instr>, cx: &Ctx, rs1: u32, rs2: u32, target_pc: i64, op: IntRel)
    requires
        cx.wf(),
    ensures
        forall|k: Code|
            #[trigger] flat(
                old(code)@,
                shape::branch(cx@, rs1, rs2, target_pc, op, k),
            ) == flat(final(code)@, k),
{
    broadcast use group_flat;

    load_reg(code, cx, rs1);
    load_reg(code, cx, rs2);
    code.push(Instr::I64Rel(op));
    code.push(Instr::If(Some(ValTy::I64)));
    code.push(Instr::I64Const(target_pc));
    code.push(Instr::Else);
    code.push(Instr::I64Const(cx.block_end_pc as i64));
    code.push(Instr::End);
}

/// Pushes the effective address of a memory operation.
fn address(code: &mut Vec<Instr>, cx: &Ctx, rs1: u32, imm: i64)
    requires
        cx.wf(),
    ensures
        forall|k: Code|
            #[trigger] flat(old(code)@, shape::address(cx@, rs1, imm, k)) == flat(final(code)@, k),
{
    broadcast use group_flat;

    load_reg(code, cx, rs1);
    code.push(Instr::I64Const(imm));
    code.push(Instr::I64Bin(IntBin::Add));
}

/// Front half of an inline TLB probe: the effective address goes to local 2, the entry
/// to local 3, and the result of the tag comparison stays on the stack. `tlb_off`
/// selects the table of reads or of writes.
fn tlb_probe(
    code: &mut Vec<Instr>,
    cx: &Ctx,
    t: TlbLayout,
    rs1: u32,
    imm: i64,
    tlb_off: u32,
    bytes: u64,
)
    requires
        cx.wf(),
        t.usable_at(tlb_off),
        bytes >= 1,
    ensures
        forall|k: Code|
            #[trigger] flat(
                old(code)@,
                shape::tlb_probe(cx@, t, rs1, imm, tlb_off, bytes, k),
            ) == flat(final(code)@, k),
{
    broadcast use group_flat;

    address(code, cx, rs1, imm);
    code.push(Instr::LocalTee(2));
    code.push(Instr::I64Const(t.pg_shift as i64));
    code.push(Instr::I64Bin(IntBin::ShrU));
    code.push(Instr::I32WrapI64);
    code.push(Instr::I32Const(t.idx_mask as i32));
    code.push(Instr::I32Bin(IntBin::And));
    code.push(Instr::I32Const(t.entry_shift as i32));
    code.push(Instr::I32Bin(IntBin::Shl));
    code.push(Instr::LocalGet(0));
    code.push(Instr::I32Bin(IntBin::Add));
    code.push(Instr::LocalTee(3));
    code.push(
        Instr::Load(LoadOp::I64, MemArg { offset: (tlb_off + t.vaddr_off) as u64, align: 3 }),
    );
    code.push(Instr::LocalGet(2));
    code.push(Instr::I64Const(tag_mask(t.pg_shift, bytes)));
    code.push(Instr::I64Bin(IntBin::And));
    code.push(Instr::I64Rel(IntRel::Eq));
}

/// Writes lifted registers back to the state.
fn spill(code: &mut Vec<Instr>, cx: &Ctx, dirty: &Vec<u32>)
    requires
        cx.wf(),
    ensures
        forall|k: Code|
            #[trigger] flat(old(code)@, shape::spill(cx@, dirty@, k)) == flat(final(code)@, k),
{
    broadcast use group_flat;

    let mut i: usize = 0;
    assert(dirty@.take(0) =~= Seq::empty());
    while i < dirty.len()
        invariant
            i <= dirty@.len(),
            cx.wf(),
            forall|k: Code|
                #[trigger] flat(old(code)@, shape::spill(cx@, dirty@.take(i as int), k)) == flat(
                    code@,
                    k,
                ),
        decreases dirty.len() - i,
    {
        let ghost before = code@;
        let r: u32 = dirty[i];
        code.push(Instr::LocalGet(0));
        load_reg(code, cx, r);
        code.push(Instr::Store(StoreOp::I64, reg_arg(r)));
        proof {
            broadcast use group_flat;

            let next = dirty@.take(i + 1);
            assert(next.drop_last() =~= dirty@.take(i as int));
            assert forall|k: Code| #[trigger]
                flat(old(code)@, shape::spill(cx@, next, k)) == flat(code@, k) by {
                let one = shape::spill_one(cx@, r, k);
                assert(shape::spill(cx@, next, k) == shape::spill(cx@, dirty@.take(i as int), one));
                assert(flat(before, one) == flat(code@, k));
            }
        }
        i = i + 1;
    }
    assert(dirty@.take(i as int) =~= dirty@);
}

/// Leaves the block if the helper reported a fault, with the pc of the faulting
/// instruction tagged in bit 0: real pcs are even.
fn fault_check(code: &mut Vec<Instr>, cx: &Ctx, dirty: &Vec<u32>, fault_pc: u64)
    requires
        cx.wf(),
    ensures
        forall|k: Code|
            #[trigger] flat(
                old(code)@,
                shape::fault_check(cx@, dirty@, fault_pc, k),
            ) == flat(final(code)@, k),
{
    broadcast use group_flat;

    code.push(Instr::If(None));
    spill(code, cx, dirty);
    code.push(Instr::I64Const((fault_pc | 1) as i64));
    code.push(Instr::Return);
    code.push(Instr::End);
}

/// The access of a load that hit the TLB. A load to x0 is still performed.
fn load_fast(code: &mut Vec<Instr>, t: TlbLayout, w: LoadW, rd: u32)
    requires
        t.usable_at(t.tlb_read_off),
    ensures
        flat(old(code)@, shape::load_fast(t, w, rd)) == final(code)@,
{
    broadcast use group_flat;

    let arg = MemArg { offset: 0, align: align_of(load_bytes(w)) };
    if rd != 0 {
        code.push(Instr::LocalGet(0));
        tlb_host_addr(code, t, t.tlb_read_off);
        code.push(Instr::Load(load_op(w), arg));
        code.push(Instr::Store(StoreOp::I64, reg_arg(rd)));
    } else {
        tlb_host_addr(code, t, t.tlb_read_off);
        code.push(Instr::Load(load_op(w), arg));
        code.push(Instr::Drop);
    }
}

/// A load: through the TLB where its layout is known, else and on a miss through the
/// helper, which performs the whole instruction and reports a fault.
fn load_mem(
    code: &mut Vec<Instr>,
    cx: &Ctx,
    dirty: &Vec<u32>,
    helper: u32,
    w: LoadW,
    rd: u32,
    rs1: u32,
    imm: i64,
    fault_pc: u64,
)
    requires
        cx.wf(),
        cx.tlb matches Some(t) ==> t.usable_at(t.tlb_read_off),
    ensures
        forall|k: Code|
            #[trigger] flat(
                old(code)@,
                shape::load_mem(cx@, dirty@, helper, w, rd, rs1, imm, fault_pc, k),
            ) == flat(final(code)@, k),
{
    broadcast use group_flat;

    match cx.tlb {
        Some(t) => {
            tlb_probe(code, cx, t, rs1, imm, t.tlb_read_off, load_bytes(w));
            code.push(Instr::If(None));
            load_fast(code, t, w, rd);
            code.push(Instr::Else);
            code.push(Instr::LocalGet(0));
            code.push(Instr::LocalGet(2));
            code.push(Instr::I32Const(rd as i32));
            code.push(Instr::Call(helper));
            fault_check(code, cx, dirty, fault_pc);
            code.push(Instr::End);
        },
        None => {
            code.push(Instr::LocalGet(0));
            address(code, cx, rs1, imm);
            code.push(Instr::I32Const(rd as i32));
            code.push(Instr::Call(helper));
            fault_check(code, cx, dirty, fault_pc);
        },
    }
}

/// A store, in the manner of a load.
fn store_mem(
    code: &mut Vec<Instr>,
    cx: &Ctx,
    dirty: &Vec<u32>,
    helper: u32,
    w: StoreW,
    rs1: u32,
    rs2: u32,
    imm: i64,
    fault_pc: u64,
)
    requires
        cx.wf(),
        cx.tlb matches Some(t) ==> t.usable_at(t.tlb_write_off),
    ensures
        forall|k: Code|
            #[trigger] flat(
                old(code)@,
                shape::store_mem(cx@, dirty@, helper, w, rs1, rs2, imm, fault_pc, k),
            ) == flat(final(code)@, k),
{
    broadcast use group_flat;

    match cx.tlb {
        Some(t) => {
            let arg = MemArg { offset: 0, align: align_of(store_bytes(w)) };
            tlb_probe(code, cx, t, rs1, imm, t.tlb_write_off, store_bytes(w));
            code.push(Instr::If(None));
            tlb_host_addr(code, t, t.tlb_write_off);
            load_reg(code, cx, rs2);
            code.push(Instr::Store(store_op(w), arg));
            code.push(Instr::Else);
            code.push(Instr::LocalGet(0));
            code.push(Instr::LocalGet(2));
            load_reg(code, cx, rs2);
            code.push(Instr::Call(helper));
            fault_check(code, cx, dirty, fault_pc);
            code.push(Instr::End);
        },
        None => {
            code.push(Instr::LocalGet(0));
            address(code, cx, rs1, imm);
            load_reg(code, cx, rs2);
            code.push(Instr::Call(helper));
            fault_check(code, cx, dirty, fault_pc);
        },
    }
}

/// An atomic, always through its helper.
fn amo_mem(
    code: &mut Vec<Instr>,
    cx: &Ctx,
    dirty: &Vec<u32>,
    helper: u32,
    rd: u32,
    rs1: u32,
    rs2: u32,
    funct5: u32,
    fault_pc: u64,
)
    requires
        cx.wf(),
    ensures
        forall|k: Code|
            #[trigger] flat(
                old(code)@,
                shape::amo_mem(cx@, dirty@, helper, rd, rs1, rs2, funct5, fault_pc, k),
            ) == flat(final(code)@, k),
{
    broadcast use group_flat;

    code.push(Instr::LocalGet(0));
    load_reg(code, cx, rs1);
    load_reg(code, cx, rs2);
    code.push(Instr::I32Const(funct5 as i32));
    code.push(Instr::I32Const(rd as i32));
    code.push(Instr::Call(helper));
    fault_check(code, cx, dirty, fault_pc);
}

fn high_half(code: &mut Vec<Instr>, local: u32)
    ensures
        forall|k: Code|
            #[trigger] flat(old(code)@, shape::high_half(local, k)) == flat(final(code)@, k),
{
    broadcast use group_flat;

    code.push(Instr::LocalGet(local));
    code.push(Instr::I64Const(32));
    code.push(Instr::I64Bin(IntBin::ShrU));
}

fn low_half(code: &mut Vec<Instr>, local: u32)
    ensures
        forall|k: Code|
            #[trigger] flat(old(code)@, shape::low_half(local, k)) == flat(final(code)@, k),
{
    broadcast use group_flat;

    code.push(Instr::LocalGet(local));
    code.push(Instr::I64Const(0xffff_ffff));
    code.push(Instr::I64Bin(IntBin::And));
}

fn mulhu_upper(code: &mut Vec<Instr>)
    ensures
        forall|k: Code|
            #[trigger] flat(old(code)@, shape::mulhu_upper(k)) == flat(final(code)@, k),
{
    broadcast use group_flat;

    high_half(code, 1);
    high_half(code, 2);
    code.push(Instr::I64Bin(IntBin::Mul));
    high_half(code, FIXED_LOCALS);
    code.push(Instr::I64Bin(IntBin::Add));
    low_half(code, 1);
    high_half(code, 2);
    code.push(Instr::I64Bin(IntBin::Mul));
    low_half(code, FIXED_LOCALS);
    code.push(Instr::I64Bin(IntBin::Add));
    code.push(Instr::I64Const(32));
    code.push(Instr::I64Bin(IntBin::ShrU));
    code.push(Instr::I64Bin(IntBin::Add));
}

/// Pushes the upper half of the unsigned product of locals 1 and 2.
fn mulhu(code: &mut Vec<Instr>)
    ensures
        forall|k: Code|
            #[trigger] flat(old(code)@, shape::mulhu(k)) == flat(final(code)@, k),
{
    broadcast use group_flat;

    high_half(code, 1);
    low_half(code, 2);
    code.push(Instr::I64Bin(IntBin::Mul));
    low_half(code, 1);
    low_half(code, 2);
    code.push(Instr::I64Bin(IntBin::Mul));
    code.push(Instr::I64Const(32));
    code.push(Instr::I64Bin(IntBin::ShrU));
    code.push(Instr::I64Bin(IntBin::Add));
    code.push(Instr::LocalSet(FIXED_LOCALS));
    mulhu_upper(code);
}

/// Takes local `b` off the product if local `a` is negative.
fn sign_fix(code: &mut Vec<Instr>, a: u32, b: u32)
    ensures
        forall|k: Code|
            #[trigger] flat(old(code)@, shape::sign_fix(a, b, k)) == flat(final(code)@, k),
{
    broadcast use group_flat;

    code.push(Instr::LocalGet(a));
    code.push(Instr::I64Const(63));
    code.push(Instr::I64Bin(IntBin::ShrS));
    code.push(Instr::LocalGet(b));
    code.push(Instr::I64Bin(IntBin::And));
    code.push(Instr::I64Bin(IntBin::Sub));
}

fn extend(code: &mut Vec<Instr>, h: Half)
    ensures
        forall|k: Code|
            #[trigger] flat(old(code)@, shape::extend(h, k)) == flat(final(code)@, k),
{
    broadcast use group_flat;

    match h {
        Half::Whole => {},
        Half::Signed => {
            code.push(Instr::I32WrapI64);
            code.push(Instr::I64ExtendI32S);
        },
        Half::Unsigned => {
            code.push(Instr::I32WrapI64);
            code.push(Instr::I64ExtendI32U);
        },
    }
}

fn operands(code: &mut Vec<Instr>, cx: &Ctx, rs1: u32, rs2: u32, h: Half)
    requires
        cx.wf(),
    ensures
        forall|k: Code|
            #[trigger] flat(
                old(code)@,
                shape::operands(cx@, rs1, rs2, h, k),
            ) == flat(final(code)@, k),
{
    broadcast use group_flat;

    load_reg(code, cx, rs1);
    extend(code, h);
    code.push(Instr::LocalSet(1));
    load_reg(code, cx, rs2);
    extend(code, h);
    code.push(Instr::LocalSet(2));
}

fn apply12(code: &mut Vec<Instr>, op: IntBin)
    ensures
        flat(old(code)@, shape::apply12(op)) == final(code)@,
{
    broadcast use group_flat;

    code.push(Instr::LocalGet(1));
    code.push(Instr::LocalGet(2));
    code.push(Instr::I64Bin(op));
}

/// The signed quotient; the one that overflows is the dividend.
fn div_guarded(code: &mut Vec<Instr>)
    ensures
        flat(old(code)@, shape::div_guarded()) == final(code)@,
{
    broadcast use group_flat;

    code.push(Instr::LocalGet(1));
    code.push(Instr::I64Const(i64::MIN));
    code.push(Instr::I64Rel(IntRel::Eq));
    code.push(Instr::LocalGet(2));
    code.push(Instr::I64Const(-1));
    code.push(Instr::I64Rel(IntRel::Eq));
    code.push(Instr::I32Bin(IntBin::And));
    code.push(Instr::If(Some(ValTy::I64)));
    code.push(Instr::LocalGet(1));
    code.push(Instr::Else);
    apply12(code, IntBin::DivS);
    code.push(Instr::End);
}

/// Pushes a quotient or remainder. A division by zero gives all ones and leaves the
/// dividend as remainder.
fn divide(code: &mut Vec<Instr>, cx: &Ctx, op: IntBin, rs1: u32, rs2: u32, h: Half)
    requires
        cx.wf(),
    ensures
        forall|k: Code|
            #[trigger] flat(
                old(code)@,
                shape::operands(
                    cx@,
                    rs1,
                    rs2,
                    h,
                    shape::unless_zero(shape::by_zero(op), shape::quotient(op, h), k),
                ),
            ) == flat(final(code)@, k),
{
    broadcast use group_flat;

    operands(code, cx, rs1, rs2, h);
    code.push(Instr::LocalGet(2));
    code.push(Instr::I64Eqz);
    code.push(Instr::If(Some(ValTy::I64)));
    if matches!(op, IntBin::DivS | IntBin::DivU) {
        code.push(Instr::I64Const(-1));
    } else {
        code.push(Instr::LocalGet(1));
    }
    code.push(Instr::Else);
    if matches!(op, IntBin::DivS) && matches!(h, Half::Whole) {
        div_guarded(code);
    } else {
        apply12(code, op);
    }
    code.push(Instr::End);
}

/// Writes a quotient or remainder to a register; that of halves is sign-extended.
fn div_rem(
    code: &mut Vec<Instr>,
    cx: &Ctx,
    op: MulDivOp,
    bin: IntBin,
    h: Half,
    rd: u32,
    rs1: u32,
    rs2: u32,
)
    requires
        cx.wf(),
        bin == shape::spec_div_op(op),
        h == shape::spec_half(op),
    ensures
        forall|k: Code|
            #[trigger] flat(old(code)@, shape::divide(cx@, op, rd, rs1, rs2, k)) == flat(
                final(code)@,
                k,
            ),
{
    broadcast use group_flat;

    begin_write(code, cx, rd);
    divide(code, cx, bin, rs1, rs2, h);
    if !matches!(h, Half::Whole) {
        extend(code, Half::Signed);
    }
    store_reg(code, cx, rd);
}

/// Multiplications and divisions.
fn mul_div(code: &mut Vec<Instr>, cx: &Ctx, op: MulDivOp, rd: u32, rs1: u32, rs2: u32)
    requires
        cx.wf(),
    ensures
        forall|k: Code|
            #[trigger] flat(
                old(code)@,
                shape::mul_div(cx@, op, rd, rs1, rs2, k),
            ) == flat(final(code)@, k),
{
    broadcast use group_flat;

    match op {
        MulDivOp::Mul => bin_reg(code, cx, rd, rs1, rs2, IntBin::Mul),
        MulDivOp::Mulw => bin32(code, cx, rd, rs1, rs2, IntBin::Mul),
        MulDivOp::Mulhu => {
            begin_write(code, cx, rd);
            operands(code, cx, rs1, rs2, Half::Whole);
            mulhu(code);
            store_reg(code, cx, rd);
        },
        MulDivOp::Mulhsu => {
            begin_write(code, cx, rd);
            operands(code, cx, rs1, rs2, Half::Whole);
            mulhu(code);
            sign_fix(code, 1, 2);
            store_reg(code, cx, rd);
        },
        MulDivOp::Mulh => {
            begin_write(code, cx, rd);
            operands(code, cx, rs1, rs2, Half::Whole);
            mulhu(code);
            sign_fix(code, 1, 2);
            sign_fix(code, 2, 1);
            store_reg(code, cx, rd);
        },
        MulDivOp::Div => div_rem(code, cx, op, IntBin::DivS, Half::Whole, rd, rs1, rs2),
        MulDivOp::Divu => div_rem(code, cx, op, IntBin::DivU, Half::Whole, rd, rs1, rs2),
        MulDivOp::Rem => div_rem(code, cx, op, IntBin::RemS, Half::Whole, rd, rs1, rs2),
        MulDivOp::Remu => div_rem(code, cx, op, IntBin::RemU, Half::Whole, rd, rs1, rs2),
        MulDivOp::Divw => div_rem(code, cx, op, IntBin::DivS, Half::Signed, rd, rs1, rs2),
        MulDivOp::Divuw => div_rem(code, cx, op, IntBin::DivU, Half::Unsigned, rd, rs1, rs2),
        MulDivOp::Remw => div_rem(code, cx, op, IntBin::RemS, Half::Signed, rd, rs1, rs2),
        MulDivOp::Remuw => div_rem(code, cx, op, IntBin::RemU, Half::Unsigned, rd, rs1, rs2),
    }
}

/// pc of the instruction at `pc_off` of the block.
fn fault_pc(cx: &Ctx, pc_off: u32) -> (pc: u64)
    ensures
        pc == shape::fault_pc(cx@, pc_off),
{
    cx.start_pc.wrapping_add(pc_off as u64)
}

/// Function index of the helper that a memory operation calls.
fn helper_import(cx: &Ctx, op: &Op) -> (n: u32)
    requires
        cx.wf(),
        shape::spec_helper_id(*op) matches Some(id) && cx@.used.contains(id),
    ensures
        n == shape::helper_index(cx@, *op),
{
    match helper_id(op) {
        Some(id) => cx.import_of(id),
        None => 0,
    }
}

/// Compiles one operation. `dirty` are the lifted registers written before it. Writes
/// to x0 are left out by whoever made the operations, except as the destination of a
/// jump, a load or an atomic, where offset 0 stands for x0.
fn emit_one(code: &mut Vec<Instr>, op: &Op, cx: &Ctx, dirty: &Vec<u32>)
    requires
        cx.wf(),
        shape::spec_helper_id(*op) matches Some(id) ==> cx@.used.contains(id),
        cx.tlb matches Some(t) ==> t.serves(*op),
    ensures
        forall|k: Code|
            #[trigger] flat(old(code)@, shape::op_code(*op, cx@, dirty@, k)) == flat(
                final(code)@,
                k,
            ),
{
    broadcast use group_flat;

    reveal(shape::op_code);
    match *op {
        Op::Const { rd, imm } => const_reg(code, cx, rd, imm),
        Op::Addi { rd, rs1, imm } => bin_imm(code, cx, rd, rs1, imm, IntBin::Add),
        Op::Addiw { rd, rs1, imm } => addiw(code, cx, rd, rs1, imm),
        Op::Andi { rd, rs1, imm } => bin_imm(code, cx, rd, rs1, imm, IntBin::And),
        Op::Ori { rd, rs1, imm } => bin_imm(code, cx, rd, rs1, imm, IntBin::Or),
        Op::Xori { rd, rs1, imm } => bin_imm(code, cx, rd, rs1, imm, IntBin::Xor),
        Op::Slti { rd, rs1, imm } => rel_imm(code, cx, rd, rs1, imm, IntRel::LtS),
        Op::Sltiu { rd, rs1, imm } => rel_imm(code, cx, rd, rs1, imm, IntRel::LtU),
        Op::Slli { rd, rs1, shamt } => bin_imm(code, cx, rd, rs1, shamt as i64, IntBin::Shl),
        Op::Srli { rd, rs1, shamt } => bin_imm(code, cx, rd, rs1, shamt as i64, IntBin::ShrU),
        Op::Srai { rd, rs1, shamt } => bin_imm(code, cx, rd, rs1, shamt as i64, IntBin::ShrS),
        Op::Slliw { rd, rs1, shamt } => bin32_imm(code, cx, rd, rs1, shamt as i32, IntBin::Shl),
        Op::Srliw { rd, rs1, shamt } => bin32_imm(code, cx, rd, rs1, shamt as i32, IntBin::ShrU),
        Op::Sraiw { rd, rs1, shamt } => bin32_imm(code, cx, rd, rs1, shamt as i32, IntBin::ShrS),
        Op::Add { rd, rs1, rs2 } => bin_reg(code, cx, rd, rs1, rs2, IntBin::Add),
        Op::Sub { rd, rs1, rs2 } => bin_reg(code, cx, rd, rs1, rs2, IntBin::Sub),
        Op::And { rd, rs1, rs2 } => bin_reg(code, cx, rd, rs1, rs2, IntBin::And),
        Op::Or { rd, rs1, rs2 } => bin_reg(code, cx, rd, rs1, rs2, IntBin::Or),
        Op::Xor { rd, rs1, rs2 } => bin_reg(code, cx, rd, rs1, rs2, IntBin::Xor),
        Op::Sll { rd, rs1, rs2 } => shift_reg(code, cx, rd, rs1, rs2, IntBin::Shl),
        Op::Srl { rd, rs1, rs2 } => shift_reg(code, cx, rd, rs1, rs2, IntBin::ShrU),
        Op::Sra { rd, rs1, rs2 } => shift_reg(code, cx, rd, rs1, rs2, IntBin::ShrS),
        Op::Slt { rd, rs1, rs2 } => rel_reg(code, cx, rd, rs1, rs2, IntRel::LtS),
        Op::Sltu { rd, rs1, rs2 } => rel_reg(code, cx, rd, rs1, rs2, IntRel::LtU),
        Op::Addw { rd, rs1, rs2 } => bin32(code, cx, rd, rs1, rs2, IntBin::Add),
        Op::Subw { rd, rs1, rs2 } => bin32(code, cx, rd, rs1, rs2, IntBin::Sub),
        Op::Sllw { rd, rs1, rs2 } => shift32_reg(code, cx, rd, rs1, rs2, IntBin::Shl),
        Op::Srlw { rd, rs1, rs2 } => shift32_reg(code, cx, rd, rs1, rs2, IntBin::ShrU),
        Op::Sraw { rd, rs1, rs2 } => shift32_reg(code, cx, rd, rs1, rs2, IntBin::ShrS),
        Op::Jal { rd, target_pc } => {
            link(code, cx, rd);
            code.push(Instr::I64Const(target_pc));
        },
        Op::Jalr { rd, rs1, imm } => jalr(code, cx, rd, rs1, imm),
        Op::Beq { rs1, rs2, target_pc } => branch(code, cx, rs1, rs2, target_pc, IntRel::Eq),
        Op::Bne { rs1, rs2, target_pc } => branch(code, cx, rs1, rs2, target_pc, IntRel::Ne),
        Op::Blt { rs1, rs2, target_pc } => branch(code, cx, rs1, rs2, target_pc, IntRel::LtS),
        Op::Bge { rs1, rs2, target_pc } => branch(code, cx, rs1, rs2, target_pc, IntRel::GeS),
        Op::Bltu { rs1, rs2, target_pc } => branch(code, cx, rs1, rs2, target_pc, IntRel::LtU),
        Op::Bgeu { rs1, rs2, target_pc } => branch(code, cx, rs1, rs2, target_pc, IntRel::GeU),
        Op::Load { w, rd, rs1, imm, pc_off } => {
            let helper: u32 = helper_import(cx, op);
            load_mem(code, cx, dirty, helper, w, rd, rs1, imm, fault_pc(cx, pc_off));
        },
        Op::Store { w, rs1, rs2, imm, pc_off } => {
            let helper: u32 = helper_import(cx, op);
            store_mem(code, cx, dirty, helper, w, rs1, rs2, imm, fault_pc(cx, pc_off));
        },
        Op::MulDiv { op, rd, rs1, rs2 } => mul_div(code, cx, op, rd, rs1, rs2),
        Op::Amo { w: _, rd, rs1, rs2, funct5, pc_off } => {
            let helper: u32 = helper_import(cx, op);
            amo_mem(code, cx, dirty, helper, rd, rs1, rs2, funct5, fault_pc(cx, pc_off));
        },
    }
}

/// Register that the code of an operation itself writes.
fn written(op: &Op) -> (r: Option<u32>)
    ensures
        r == shape::spec_written(*op),
{
    match *op {
        Op::Const { rd, .. } | Op::Addi { rd, .. } | Op::Addiw { rd, .. } | Op::Andi { rd, .. }
        | Op::Ori { rd, .. } | Op::Xori { rd, .. } | Op::Slti { rd, .. } | Op::Sltiu { rd, .. }
        | Op::Slli { rd, .. } | Op::Srli { rd, .. } | Op::Srai { rd, .. } | Op::Slliw { rd, .. }
        | Op::Srliw { rd, .. } | Op::Sraiw { rd, .. } | Op::Add { rd, .. } | Op::Sub { rd, .. }
        | Op::And { rd, .. } | Op::Or { rd, .. } | Op::Xor { rd, .. } | Op::Sll { rd, .. }
        | Op::Srl { rd, .. } | Op::Sra { rd, .. } | Op::Slt { rd, .. } | Op::Sltu { rd, .. }
        | Op::Addw { rd, .. } | Op::Subw { rd, .. } | Op::Sllw { rd, .. } | Op::Srlw { rd, .. }
        | Op::Sraw { rd, .. } | Op::MulDiv { rd, .. } => Some(rd),
        Op::Jal { rd, .. } | Op::Jalr { rd, .. } => if rd != 0 { Some(rd) } else { None },
        _ => None,
    }
}

/// Register that the helper of an operation writes.
fn helper_dest(op: &Op) -> (r: Option<u32>)
    ensures
        r == shape::spec_helper_dest(*op),
{
    match *op {
        Op::Load { rd, .. } | Op::Amo { rd, .. } => if rd != 0 { Some(rd) } else { None },
        _ => None,
    }
}

/// Registers that the code of an operation reads.
fn reads(op: &Op) -> (r: Vec<u32>)
    ensures
        r@ == shape::spec_reads(*op),
{
    match *op {
        Op::Const { .. } | Op::Jal { .. } => Vec::new(),
        Op::Addi { rs1, .. } | Op::Addiw { rs1, .. } | Op::Andi { rs1, .. } | Op::Ori { rs1, .. }
        | Op::Xori { rs1, .. } | Op::Slti { rs1, .. } | Op::Sltiu { rs1, .. }
        | Op::Slli { rs1, .. } | Op::Srli { rs1, .. } | Op::Srai { rs1, .. }
        | Op::Slliw { rs1, .. } | Op::Srliw { rs1, .. } | Op::Sraiw { rs1, .. }
        | Op::Jalr { rs1, .. } | Op::Load { rs1, .. } => vec![rs1],
        Op::Add { rs1, rs2, .. } | Op::Sub { rs1, rs2, .. } | Op::And { rs1, rs2, .. }
        | Op::Or { rs1, rs2, .. } | Op::Xor { rs1, rs2, .. } | Op::Sll { rs1, rs2, .. }
        | Op::Srl { rs1, rs2, .. } | Op::Sra { rs1, rs2, .. } | Op::Slt { rs1, rs2, .. }
        | Op::Sltu { rs1, rs2, .. } | Op::Addw { rs1, rs2, .. } | Op::Subw { rs1, rs2, .. }
        | Op::Sllw { rs1, rs2, .. } | Op::Srlw { rs1, rs2, .. } | Op::Sraw { rs1, rs2, .. }
        | Op::Beq { rs1, rs2, .. } | Op::Bne { rs1, rs2, .. } | Op::Blt { rs1, rs2, .. }
        | Op::Bge { rs1, rs2, .. } | Op::Bltu { rs1, rs2, .. } | Op::Bgeu { rs1, rs2, .. }
        | Op::Store { rs1, rs2, .. } | Op::MulDiv { rs1, rs2, .. } | Op::Amo { rs1, rs2, .. } => vec![
            rs1,
            rs2,
        ],
    }
}

/// Tests whether `x` is among `v`.
fn among(v: &Vec<u32>, x: u32) -> (r: bool)
    ensures
        r == v@.contains(x),
{
    let mut i: usize = 0;
    while i < v.len()
        invariant
            i <= v@.len(),
            forall|j: int| 0 <= j < i ==> v@[j] != x,
        decreases v.len() - i,
    {
        if v[i] == x {
            assert(v@[i as int] == x);
            return true;
        }
        i = i + 1;
    }
    false
}

/// Appends `x` unless it is there already.
fn insert_reg(v: &mut Vec<u32>, x: u32)
    ensures
        final(v)@ == shape::with_reg(old(v)@, x),
{
    if !among(v, x) {
        v.push(x);
    }
}

/// Appends the elements of `xs` that are not there already.
fn insert_regs(v: &mut Vec<u32>, xs: &Vec<u32>)
    ensures
        final(v)@ == shape::with_regs(old(v)@, xs@),
{
    let mut i: usize = 0;
    assert(xs@.take(0) =~= Seq::empty());
    while i < xs.len()
        invariant
            i <= xs@.len(),
            v@ == shape::with_regs(old(v)@, xs@.take(i as int)),
        decreases xs.len() - i,
    {
        assert(xs@.take(i + 1).drop_last() =~= xs@.take(i as int));
        insert_reg(v, xs[i]);
        i = i + 1;
    }
    assert(xs@.take(i as int) =~= xs@);
}

/// Registers that the code of the operations reads or writes.
fn code_regs(ops: &Vec<Op>) -> (r: Vec<u32>)
    ensures
        r@ == shape::code_regs(ops@),
{
    let mut r: Vec<u32> = Vec::new();
    let mut i: usize = 0;
    assert(ops@.take(0) =~= Seq::empty());
    while i < ops.len()
        invariant
            i <= ops@.len(),
            r@ == shape::code_regs(ops@.take(i as int)),
        decreases ops.len() - i,
    {
        assert(ops@.take(i + 1).drop_last() =~= ops@.take(i as int));
        insert_regs(&mut r, &reads(&ops[i]));
        let ghost before = r@;
        match written(&ops[i]) {
            Some(rd) => {
                insert_reg(&mut r, rd);
                assert(seq![rd].drop_last() =~= Seq::empty());
                reveal_with_fuel(shape::with_regs, 2);
            },
            None => {},
        }
        i = i + 1;
    }
    assert(ops@.take(i as int) =~= ops@);
    r
}

/// Registers that helpers write.
fn helper_dests(ops: &Vec<Op>) -> (r: Vec<u32>)
    ensures
        r@ == shape::helper_dests(ops@),
{
    let mut r: Vec<u32> = Vec::new();
    let mut i: usize = 0;
    assert(ops@.take(0) =~= Seq::empty());
    while i < ops.len()
        invariant
            i <= ops@.len(),
            r@ == shape::helper_dests(ops@.take(i as int)),
        decreases ops.len() - i,
    {
        assert(ops@.take(i + 1).drop_last() =~= ops@.take(i as int));
        match helper_dest(&ops[i]) {
            Some(rd) => {
                insert_reg(&mut r, rd);
                assert(seq![rd].drop_last() =~= Seq::empty());
                reveal_with_fuel(shape::with_regs, 2);
            },
            None => {},
        }
        i = i + 1;
    }
    assert(ops@.take(i as int) =~= ops@);
    r
}

/// Tests whether two 64-bit registers share no byte.
fn apart(a: u32, b: u32) -> (r: bool)
    ensures
        r == shape::apart(a, b),
{
    (a < b && b - a >= 8) || (b < a && a - b >= 8)
}

/// Tests whether no two of the registers share a byte.
fn is_spread(regs: &Vec<u32>) -> (r: bool)
    ensures
        r == shape::spread(regs@),
{
    let mut i: usize = 0;
    while i < regs.len()
        invariant
            i <= regs@.len(),
            forall|a: int, b: int|
                0 <= a < i && 0 <= b < a ==> shape::apart(#[trigger] regs@[a], #[trigger] regs@[b]),
        decreases regs.len() - i,
    {
        let mut j: usize = 0;
        while j < i
            invariant
                i < regs@.len(),
                j <= i,
                forall|b: int|
                    0 <= b < j ==> shape::apart(regs@[i as int], #[trigger] regs@[b]),
            decreases i - j,
        {
            if !apart(regs[i], regs[j]) {
                assert(!shape::apart(regs@[i as int], regs@[j as int]));
                return false;
            }
            j = j + 1;
        }
        i = i + 1;
    }
    assert forall|a: int, b: int|
        0 <= a < regs@.len() && 0 <= b < regs@.len() && a != b implies shape::apart(
        #[trigger] regs@[a],
        #[trigger] regs@[b],
    ) by {
        if b < a {
            assert(shape::apart(regs@[a], regs@[b]));
        } else {
            assert(shape::apart(regs@[b], regs@[a]));
        }
    }
    true
}

/// Registers that a block keeps in locals.
fn lifted_regs(ops: &Vec<Op>, lift: bool) -> (r: Vec<u32>)
    ensures
        r@ == shape::lifted_regs(ops@, lift),
        r@.len() <= MAX_LIFTED,
{
    let mut r: Vec<u32> = Vec::new();
    if !lift {
        return r;
    }
    let regs: Vec<u32> = code_regs(ops);
    let dests: Vec<u32> = helper_dests(ops);
    let mut all: Vec<u32> = regs.clone();
    insert_regs(&mut all, &dests);
    if !is_spread(&all) {
        return r;
    }
    let mut i: usize = 0;
    assert(regs@.take(0) =~= Seq::empty());
    while i < regs.len()
        invariant
            i <= regs@.len(),
            r@.len() <= MAX_LIFTED,
            r@ == shape::select(regs@.take(i as int), dests@, MAX_LIFTED as nat),
        decreases regs.len() - i,
    {
        assert(regs@.take(i + 1).drop_last() =~= regs@.take(i as int));
        if r.len() < MAX_LIFTED && !among(&dests, regs[i]) {
            r.push(regs[i]);
        }
        i = i + 1;
    }
    assert(regs@.take(i as int) =~= regs@);
    r
}

/// Notes the lifted register that an operation writes.
fn mark(cx: &Ctx, dirty: &mut Vec<u32>, op: &Op)
    ensures
        final(dirty)@ == shape::mark(cx@, old(dirty)@, *op),
{
    match written(op) {
        Some(rd) => if among(&cx.lifted, rd) {
            insert_reg(dirty, rd);
        },
        None => {},
    }
}

/// Compiles the operations in order. Hands back the lifted registers that they write.
fn emit_ops(code: &mut Vec<Instr>, ops: &Vec<Op>, cx: &Ctx) -> (dirty: Vec<u32>)
    requires
        cx.wf(),
        forall|i: int|
            0 <= i < ops@.len() ==> (shape::spec_helper_id(#[trigger] ops@[i]) matches Some(
                id,
            ) ==> cx@.used.contains(id)),
        cx.tlb matches Some(t) ==> forall|i: int|
            0 <= i < ops@.len() ==> t.serves(#[trigger] ops@[i]),
    ensures
        dirty@ == shape::mark_all(ops@, 0, cx@, Seq::empty()),
        forall|k: Code|
            #[trigger] flat(old(code)@, shape::ops_code(ops@, 0, cx@, Seq::empty(), k)) == flat(
                final(code)@,
                k,
            ),
{
    let mut dirty: Vec<u32> = Vec::new();
    let mut i: usize = 0;
    while i < ops.len()
        invariant
            i <= ops@.len(),
            cx.wf(),
            forall|i: int|
                0 <= i < ops@.len() ==> (shape::spec_helper_id(#[trigger] ops@[i]) matches Some(
                    id,
                ) ==> cx@.used.contains(id)),
            cx.tlb matches Some(t) ==> forall|i: int|
                0 <= i < ops@.len() ==> t.serves(#[trigger] ops@[i]),
            shape::mark_all(ops@, 0, cx@, Seq::empty()) == shape::mark_all(
                ops@,
                i as int,
                cx@,
                dirty@,
            ),
            forall|k: Code|
                #[trigger] flat(old(code)@, shape::ops_code(ops@, 0, cx@, Seq::empty(), k))
                    == flat(code@, shape::ops_code(ops@, i as int, cx@, dirty@, k)),
        decreases ops.len() - i,
    {
        let op = &ops[i];
        emit_one(code, op, cx, &dirty);
        mark(cx, &mut dirty, op);
        i = i + 1;
    }
    dirty
}

/// Reads the lifted registers into their locals.
fn fill(code: &mut Vec<Instr>, cx: &Ctx)
    requires
        cx.wf(),
    ensures
        forall|k: Code|
            #[trigger] flat(old(code)@, shape::fill(cx@, cx@.lifted.len(), k)) == flat(
                final(code)@,
                k,
            ),
{
    let mut i: usize = 0;
    while i < cx.lifted.len()
        invariant
            i <= cx.lifted@.len(),
            cx.wf(),
            forall|k: Code|
                #[trigger] flat(old(code)@, shape::fill(cx@, i as nat, k)) == flat(code@, k),
        decreases cx.lifted.len() - i,
    {
        let ghost before = code@;
        let r: u32 = cx.lifted[i];
        let local: u32 = cx.lift_base + i as u32;
        load_state(code, r);
        code.push(Instr::LocalSet(local));
        proof {
            broadcast use group_flat;

            assert forall|k: Code| #[trigger]
                flat(old(code)@, shape::fill(cx@, (i + 1) as nat, k)) == flat(code@, k) by {
                let one = shape::load_reg(r, crate::wasm::instr(Instr::LocalSet(local), k));
                assert(shape::fill(cx@, (i + 1) as nat, k) == shape::fill(cx@, i as nat, one));
                assert(flat(before, one) == flat(code@, k));
            }
        }
        i = i + 1;
    }
}

/// Takes the block's instructions off the cycle budget.
fn charge(code: &mut Vec<Instr>, chain: &ChainLayout, n_insns: u32)
    ensures
        forall|k: Code|
            #[trigger] flat(old(code)@, shape::charge(*chain, n_insns, k)) == flat(final(code)@, k),
{
    broadcast use group_flat;

    code.push(Instr::LocalGet(0));
    code.push(Instr::LocalGet(0));
    code.push(Instr::Load(LoadOp::I32, word_arg(chain.n_cycles_off)));
    code.push(Instr::I32Const(n_insns as i32));
    code.push(Instr::I32Bin(IntBin::Sub));
    code.push(Instr::Store(StoreOp::I32, word_arg(chain.n_cycles_off)));
}

/// Pushes the hash of the pc in local 1, shifted right by `shift`.
fn hash_pc(code: &mut Vec<Instr>, shift: u32, bits: u32)
    requires
        bits <= 64,
    ensures
        forall|k: Code|
            #[trigger] flat(old(code)@, shape::hash_code(shift, bits, k)) == flat(final(code)@, k),
{
    broadcast use group_flat;

    code.push(Instr::LocalGet(1));
    code.push(Instr::I64Const(shift as i64));
    code.push(Instr::I64Bin(IntBin::ShrU));
    code.push(Instr::I64Const(HASH_MULT as i64));
    code.push(Instr::I64Bin(IntBin::Mul));
    code.push(Instr::I64Const((64 - bits) as i64));
    code.push(Instr::I64Bin(IntBin::ShrU));
    code.push(Instr::I32WrapI64);
}

/// Compares a generation of the map entry in local 3 with its counter.
fn gen_check(code: &mut Vec<Instr>, field_off: u32, counter: u32)
    ensures
        forall|k: Code|
            #[trigger] flat(
                old(code)@,
                shape::gen_check(field_off, counter, k),
            ) == flat(final(code)@, k),
{
    broadcast use group_flat;

    code.push(Instr::LocalGet(3));
    code.push(Instr::Load(LoadOp::I32, word_arg(field_off)));
    code.push(Instr::I32Const(0));
    code.push(Instr::Load(LoadOp::I32, word_arg(counter)));
    code.push(Instr::I32Rel(IntRel::Eq));
}

/// Decides whether the map entry in local 3 is current for the pc in local 1.
fn entry_check(code: &mut Vec<Instr>, chain: &ChainLayout)
    requires
        chain.wf(),
    ensures
        forall|k: Code|
            #[trigger] flat(old(code)@, shape::entry_check(*chain, k)) == flat(final(code)@, k),
{
    broadcast use group_flat;

    code.push(Instr::LocalGet(1));
    code.push(Instr::I64Const(KERNEL_HALF_BASE as i64));
    code.push(Instr::I64Rel(IntRel::GeU));
    gen_check(code, chain.user_gen_off, chain.user_gen_addr);
    code.push(Instr::I32Bin(IntBin::Or));
    gen_check(code, chain.global_gen_off, chain.global_gen_addr);
    code.push(Instr::I32Bin(IntBin::And));
    code.push(Instr::LocalGet(3));
    code.push(Instr::Load(LoadOp::I32, word_arg(chain.page_gen_off)));
    hash_pc(code, 12, chain.page_gen_bits);
    code.push(Instr::I32Const(2));
    code.push(Instr::I32Bin(IntBin::Shl));
    code.push(Instr::Load(LoadOp::I32, word_arg(chain.page_gen_base)));
    code.push(Instr::I32Rel(IntRel::Eq));
    code.push(Instr::I32Bin(IntBin::And));
    code.push(Instr::LocalGet(3));
    code.push(Instr::Load(LoadOp::I32, word_arg(chain.fn_idx_off)));
    code.push(Instr::I32Const(0));
    code.push(Instr::I32Rel(IntRel::GtS));
    code.push(Instr::I32Bin(IntBin::And));
}

/// Counts the hop and continues in the block of the map entry in local 3.
fn hop(code: &mut Vec<Instr>, chain: &ChainLayout)
    ensures
        flat(old(code)@, shape::hop(*chain)) == final(code)@,
{
    broadcast use group_flat;

    let hops = MemArg { offset: chain.chain_hops_addr as u64, align: 3 };
    code.push(Instr::I32Const(0));
    code.push(Instr::I32Const(0));
    code.push(Instr::Load(LoadOp::I64, hops));
    code.push(Instr::I64Const(1));
    code.push(Instr::I64Bin(IntBin::Add));
    code.push(Instr::Store(StoreOp::I64, hops));
    code.push(Instr::LocalGet(0));
    code.push(Instr::LocalGet(3));
    code.push(Instr::Load(LoadOp::I32, word_arg(chain.fn_idx_off)));
    code.push(Instr::ReturnCallIndirect(0));
}

/// Looks the next pc up in the map and hops if its entry is current.
fn lookup(code: &mut Vec<Instr>, chain: &ChainLayout)
    requires
        chain.wf(),
    ensures
        flat(old(code)@, shape::lookup(*chain)) == final(code)@,
{
    broadcast use group_flat;

    hash_pc(code, 1, chain.map_bits);
    code.push(Instr::I32Const(chain.entry_size as i32));
    code.push(Instr::I32Bin(IntBin::Mul));
    code.push(Instr::I32Const(chain.map_base as i32));
    code.push(Instr::I32Bin(IntBin::Add));
    code.push(Instr::LocalTee(3));
    code.push(Instr::Load(LoadOp::I64, MemArg { offset: 0, align: 3 }));
    code.push(Instr::LocalGet(1));
    code.push(Instr::I64Rel(IntRel::Eq));
    code.push(Instr::If(None));
    entry_check(code, chain);
    code.push(Instr::If(None));
    hop(code, chain);
    code.push(Instr::End);
    code.push(Instr::End);
}

/// Continues in the next block if the cycle budget is not used up and the map has a
/// current entry for the next pc on the stack, which else stays there.
fn epilogue(code: &mut Vec<Instr>, chain: &ChainLayout)
    requires
        chain.wf(),
    ensures
        forall|k: Code|
            #[trigger] flat(old(code)@, shape::epilogue(*chain, k)) == flat(final(code)@, k),
{
    broadcast use group_flat;

    code.push(Instr::LocalSet(1));
    code.push(Instr::LocalGet(0));
    code.push(Instr::Load(LoadOp::I32, word_arg(chain.n_cycles_off)));
    code.push(Instr::I32Const(0));
    code.push(Instr::I32Rel(IntRel::GtS));
    code.push(Instr::If(None));
    lookup(code, chain);
    code.push(Instr::End);
    code.push(Instr::LocalGet(1));
}

/// Names under which the guest exports its memory helpers, by helper id: loads are 0 to
/// 6, stores 7 to 10, atomics 11 and 12.
pub const MEM_HELPER_EXPORTS: [&'static str; 13] = [
    "c2w_jit_lb",
    "c2w_jit_lh",
    "c2w_jit_lw",
    "c2w_jit_ld",
    "c2w_jit_lbu",
    "c2w_jit_lhu",
    "c2w_jit_lwu",
    "c2w_jit_sb",
    "c2w_jit_sh",
    "c2w_jit_sw",
    "c2w_jit_sd",
    "c2w_jit_amo_w",
    "c2w_jit_amo_d",
];

/// The binary format has 32-bit lengths. The code of a stream of this many bytes stays below
/// them, whatever its operations.
pub const MAX_IR_LEN: usize = 0x100_0000;

/// Index of the type of a helper: load, store or atomic.
pub open spec fn spec_helper_type(id: usize) -> u32 {
    if id < 7 {
        1
    } else if id < 11 {
        2
    } else {
        3
    }
}

/// The import of a helper.
pub open spec fn helper_import_desc(id: usize) -> Import {
    Import {
        module: "guest"@,
        name: MEM_HELPER_EXPORTS[id as int]@,
        ty: ImportTy::Func(spec_helper_type(id)),
    }
}

/// The function types of a block's module: that of blocks, those of load and store
/// helpers, and that of atomic helpers where one is imported.
pub open spec fn block_types(used: Seq<usize>) -> Seq<FuncTy> {
    let i32 = ValTy::I32;
    let i64 = ValTy::I64;
    let base = seq![
        FuncTy { params: seq![i32], results: seq![i64] },
        FuncTy { params: seq![i32, i64, i32], results: seq![i32] },
        FuncTy { params: seq![i32, i64, i64], results: seq![i32] },
    ];
    if used.contains(11) || used.contains(12) {
        base.push(FuncTy { params: seq![i32, i64, i64, i32, i32], results: seq![i32] })
    } else {
        base
    }
}

/// The imports of a block's module: the guest's memory, its function table if blocks
/// chain, and the helpers that the block calls.
pub open spec fn block_imports(used: Seq<usize>, chained: bool) -> Seq<Import> {
    let mem = Import { module: "guest"@, name: "mem"@, ty: ImportTy::Memory(0) };
    let table = Import { module: "guest"@, name: "table"@, ty: ImportTy::FuncTable(0) };
    let first = if chained {
        seq![mem, table]
    } else {
        seq![mem]
    };
    first + used.map_values(|id: usize| helper_import_desc(id))
}

/// The locals of a block: two 64-bit scratch locals, a 32-bit one, one more for
/// upper-half products, and one for each lifted register.
pub open spec fn block_locals(ops: Seq<Op>, lift: bool) -> Seq<(u32, ValTy)> {
    let fixed = seq![(2u32, ValTy::I64), (1u32, ValTy::I32)];
    let n = shape::lifted_regs(ops, lift).len();
    let scratch = if shape::wide(ops) {
        fixed.push((1u32, ValTy::I64))
    } else {
        fixed
    };
    if n > 0 {
        scratch.push((n as u32, ValTy::I64))
    } else {
        scratch
    }
}

/// The instructions of a block.
pub open spec fn block_instrs(ops: Seq<Op>, cfg: Config) -> Seq<Instr> {
    flat(Seq::empty(), shape::block_code(ops, cfg)).push(Instr::End)
}

/// The body of a block.
pub open spec fn block_body(ops: Seq<Op>, cfg: Config) -> Body {
    Body { locals: block_locals(ops, cfg.lift), code: block_instrs(ops, cfg) }
}

/// The module of a block: one function, exported as "block".
pub open spec fn block_module(ops: Seq<Op>, cfg: Config) -> Seq<Section> {
    let used = shape::used_helpers(ops);
    seq![
        Section::Types(block_types(used)),
        Section::Imports(block_imports(used, cfg.chain is Some)),
        Section::Functions(seq![0]),
        Section::Exports(seq![Export { name: "block"@, func: used.len() as u32 }]),
        Section::Bodies(seq![block_body(ops, cfg)]),
    ]
}

/// The module that tries out the encoder: a function without imports that returns 42.
pub open spec fn preflight_module() -> Seq<Section> {
    seq![
        Section::Types(seq![FuncTy { params: seq![ValTy::I32], results: seq![ValTy::I64] }]),
        Section::Functions(seq![0]),
        Section::Exports(seq![Export { name: "block"@, func: 0 }]),
        Section::Bodies(
            seq![Body { locals: Seq::empty(), code: seq![Instr::I64Const(42), Instr::End] }],
        ),
    ]
}

/// Tests whether some operation calls the helper `id`.
fn calls_helper(ops: &Vec<Op>, id: usize) -> (r: bool)
    ensures
        r == shape::calls_helper(ops@, id),
{
    let mut i: usize = 0;
    while i < ops.len()
        invariant
            i <= ops@.len(),
            forall|j: int| 0 <= j < i ==> shape::spec_helper_id(#[trigger] ops@[j]) != Some(id),
        decreases ops.len() - i,
    {
        match helper_id(&ops[i]) {
            Some(h) => if h == id {
                assert(shape::spec_helper_id(ops@[i as int]) == Some(id));
                return true;
            },
            None => {},
        }
        i = i + 1;
    }
    false
}

/// Ids of the helpers that the operations call, in ascending order.
fn used_helpers(ops: &Vec<Op>) -> (used: Vec<usize>)
    ensures
        used@ == shape::used_helpers(ops@),
        used@.len() <= HELPERS,
{
    let mut used: Vec<usize> = Vec::new();
    let mut id: usize = 0;
    while id < HELPERS
        invariant
            id <= HELPERS,
            used@ == shape::used_below(ops@, id as nat),
            used@.len() <= id,
        decreases HELPERS - id,
    {
        if calls_helper(ops, id) {
            used.push(id);
        }
        id = id + 1;
    }
    used
}

/// Tests whether some operation needs the extra local of the upper-half products.
fn is_wide(ops: &Vec<Op>) -> (r: bool)
    ensures
        r == shape::wide(ops@),
{
    let mut i: usize = 0;
    while i < ops.len()
        invariant
            i <= ops@.len(),
            forall|j: int| 0 <= j < i ==> !shape::spec_is_wide(#[trigger] ops@[j]),
        decreases ops.len() - i,
    {
        let wide = match ops[i] {
            Op::MulDiv { op, .. } => matches!(
                op,
                MulDivOp::Mulh | MulDivOp::Mulhsu | MulDivOp::Mulhu
            ),
            _ => false,
        };
        if wide {
            assert(shape::spec_is_wide(ops@[i as int]));
            return true;
        }
        i = i + 1;
    }
    false
}

/// The helper ids below `n` that are used are exactly those in the list, which ascends.
pub proof fn lemma_used_below(ops: Seq<Op>, n: nat)
    requires
        n <= HELPERS,
    ensures
        forall|id: usize|
            #[trigger] shape::used_below(ops, n).contains(id) <==> id < n && shape::calls_helper(
                ops,
                id,
            ),
        forall|i: int, j: int|
            0 <= i < j < shape::used_below(ops, n).len() ==> shape::used_below(ops, n)[i]
                < shape::used_below(ops, n)[j],
    decreases n,
{
    if n > 0 {
        let last = (n - 1) as usize;
        let r = shape::used_below(ops, (n - 1) as nat);
        lemma_used_below(ops, (n - 1) as nat);
        assert forall|id: usize| #[trigger]
            shape::used_below(ops, n).contains(id) <==> id < n && shape::calls_helper(ops, id) by {
            if shape::calls_helper(ops, last) {
                assert(r.push(last).contains(id) <==> r.contains(id) || id == last) by {
                    assert(r.push(last)[r.len() as int] == last);
                    if r.contains(id) {
                        let i = choose|i: int| 0 <= i < r.len() && r[i] == id;
                        assert(r.push(last)[i] == id);
                    }
                }
            }
        }
        assert forall|i: int, j: int|
            0 <= i < j < shape::used_below(ops, n).len() implies shape::used_below(ops, n)[i]
            < shape::used_below(ops, n)[j] by {
            if j == r.len() {
                assert(r.contains(r[i]));
            }
        }
    }
}

/// **A block imports what it calls.** The helpers that a block imports are exactly those
/// that its operations call, each once and in ascending order.
pub proof fn law_used_helpers(ops: Seq<Op>)
    ensures
        forall|id: usize|
            #[trigger] shape::used_helpers(ops).contains(id) <==> shape::calls_helper(ops, id),
        forall|i: int, j: int|
            0 <= i < j < shape::used_helpers(ops).len() ==> shape::used_helpers(ops)[i]
                < shape::used_helpers(ops)[j],
        shape::used_helpers(ops).len() <= HELPERS,
{
    lemma_used_below(ops, HELPERS as nat);
    let used = shape::used_helpers(ops);
    assert forall|id: usize| #[trigger]
        used.contains(id) <==> shape::calls_helper(ops, id) by {}
    assert(used.len() <= HELPERS) by {
        assert(used.no_duplicates());
        let all = Seq::new(HELPERS as nat, |i: int| i as usize);
        used.unique_seq_to_set();
        all.lemma_cardinality_of_set();
        assert forall|id: usize| used.to_set().contains(id) implies all.to_set().contains(id) by {
            assert(used.contains(id));
            assert(all[id as int] == id);
        }
        vstd::set_lib::lemma_len_subset(used.to_set(), all.to_set());
    }
}

/// The instructions of a block.
fn emit_block(ops: &Vec<Op>, cfg: &Config, used: &Vec<usize>, lifted: Vec<u32>) -> (code: Vec<
    Instr,
>)
    requires
        cfg.suits(ops@),
        used@ == shape::used_helpers(ops@),
        lifted@ == shape::lifted_regs(ops@, cfg.lift),
        lifted@.len() <= MAX_LIFTED,
    ensures
        code@ == block_instrs(ops@, *cfg),
{
    broadcast use group_flat;

    proof {
        law_used_helpers(ops@);
    }
    let lift_base: u32 = if is_wide(ops) {
        FIXED_LOCALS + 1
    } else {
        FIXED_LOCALS
    };
    let mut imports: Vec<usize> = Vec::new();
    let n: usize = used.len();
    let mut i: usize = 0;
    while i < n
        invariant
            n == used@.len(),
            i <= n,
            imports@ =~= used@.take(i as int),
        decreases n - i,
    {
        imports.push(used[i]);
        i = i + 1;
    }
    let cx = Ctx {
        start_pc: cfg.start_pc,
        block_end_pc: cfg.end_pc,
        used: imports,
        tlb: cfg.tlb,
        lifted,
        lift_base,
    };
    assert(cx@ =~= shape::block_cx(ops@, *cfg));
    assert forall|i: int|
        0 <= i < ops@.len() implies (shape::spec_helper_id(#[trigger] ops@[i]) matches Some(
        id,
    ) ==> cx@.used.contains(id)) by {
        if let Some(id) = shape::spec_helper_id(ops@[i]) {
            assert(shape::calls_helper(ops@, id));
        }
    }
    let mut code: Vec<Instr> = Vec::new();
    match &cfg.chain {
        Some(chain) => charge(&mut code, chain, cfg.n_insns),
        None => {},
    }
    fill(&mut code, &cx);
    let dirty = emit_ops(&mut code, ops, &cx);
    let terminated = if ops.len() > 0 {
        ops[ops.len() - 1].is_terminator()
    } else {
        false
    };
    if !terminated {
        code.push(Instr::I64Const(cfg.end_pc as i64));
    }
    spill(&mut code, &cx, &dirty);
    match &cfg.chain {
        Some(chain) => epilogue(&mut code, chain),
        None => {},
    }
    assert(code@ == flat(Seq::empty(), shape::block_code(ops@, *cfg)));
    code.push(Instr::End);
    code
}

/// Index of the type of a helper.
fn helper_type(id: usize) -> (ty: u32)
    ensures
        ty == spec_helper_type(id),
{
    if id < 7 {
        1
    } else if id < 11 {
        2
    } else {
        3
    }
}

/// The type section of a block's module.
fn type_section(used: &Vec<usize>) -> (s: wasm_encoder::TypeSection)
    ensures
        type_list(s) == block_types(used@),
{
    let mut s = wasm_encoder::TypeSection::new();
    add_type(&mut s, &[ValTy::I32], &[ValTy::I64]);
    add_type(&mut s, &[ValTy::I32, ValTy::I64, ValTy::I32], &[ValTy::I32]);
    add_type(&mut s, &[ValTy::I32, ValTy::I64, ValTy::I64], &[ValTy::I32]);
    let mut amo = false;
    let n: usize = used.len();
    let mut i: usize = 0;
    while i < n
        invariant
            n == used@.len(),
            i <= n,
            amo == (used@.take(i as int).contains(11) || used@.take(i as int).contains(12)),
        decreases n - i,
    {
        let ghost next = used@.take(i + 1);
        assert(next =~= used@.take(i as int).push(used@[i as int]));
        assert forall|x: usize|
            next.contains(x) <==> used@.take(i as int).contains(x) || used@[i as int] == x by {
            assert(next[i as int] == used@[i as int]);
            if used@.take(i as int).contains(x) {
                let j = choose|j: int| 0 <= j < i && used@.take(i as int)[j] == x;
                assert(next[j] == x);
            }
        }
        if used[i] == 11 || used[i] == 12 {
            amo = true;
        }
        i = i + 1;
    }
    assert(used@.take(i as int) =~= used@);
    if amo {
        add_type(
            &mut s,
            &[ValTy::I32, ValTy::I64, ValTy::I64, ValTy::I32, ValTy::I32],
            &[ValTy::I32],
        );
    }
    assert(type_list(s) =~~= block_types(used@));
    s
}

/// The import section of a block's module.
fn import_section(used: &Vec<usize>, chained: bool) -> (s: wasm_encoder::ImportSection)
    requires
        used@.len() <= HELPERS,
        forall|i: int| 0 <= i < used@.len() ==> #[trigger] used@[i] < HELPERS,
    ensures
        import_list(s) == block_imports(used@, chained),
{
    proof {
        reveal_strlit("guest");
        reveal_strlit("mem");
        reveal_strlit("table");
    }
    let mut s = wasm_encoder::ImportSection::new();
    add_import(&mut s, "guest", "mem", ImportTy::Memory(0));
    if chained {
        add_import(&mut s, "guest", "table", ImportTy::FuncTable(0));
    }
    let ghost first = import_list(s);
    let n: usize = used.len();
    let mut i: usize = 0;
    while i < n
        invariant
            n == used@.len(),
            n <= HELPERS,
            i <= n,
            first.len() <= 2,
            "guest"@.len() == 5,
            forall|i: int| 0 <= i < used@.len() ==> #[trigger] used@[i] < HELPERS,
            import_list(s) =~= first + used@.take(i as int).map_values(
                |id: usize| helper_import_desc(id),
            ),
        decreases n - i,
    {
        let id: usize = used[i];
        assert(used@[i as int] < HELPERS);
        let name = MEM_HELPER_EXPORTS[id];
        proof {
            lemma_helper_name(id);
        }
        add_import(&mut s, "guest", name, ImportTy::Func(helper_type(id)));
        i = i + 1;
    }
    assert(used@.take(i as int) =~= used@);
    s
}

/// Helpers have short names.
proof fn lemma_helper_name(id: usize)
    requires
        id < HELPERS,
    ensures
        MEM_HELPER_EXPORTS[id as int]@.len() <= MAX_ITEMS,
{
    reveal_strlit("c2w_jit_lb");
    reveal_strlit("c2w_jit_lh");
    reveal_strlit("c2w_jit_lw");
    reveal_strlit("c2w_jit_ld");
    reveal_strlit("c2w_jit_lbu");
    reveal_strlit("c2w_jit_lhu");
    reveal_strlit("c2w_jit_lwu");
    reveal_strlit("c2w_jit_sb");
    reveal_strlit("c2w_jit_sh");
    reveal_strlit("c2w_jit_sw");
    reveal_strlit("c2w_jit_sd");
    reveal_strlit("c2w_jit_amo_w");
    reveal_strlit("c2w_jit_amo_d");
}

/// The groups of locals of a block.
fn locals(wide: bool, lifted: usize) -> (l: Vec<(u32, ValTy)>)
    requires
        lifted <= MAX_LIFTED,
    ensures
        l@ == {
            let fixed = seq![(2u32, ValTy::I64), (1u32, ValTy::I32)];
            let scratch = if wide {
                fixed.push((1u32, ValTy::I64))
            } else {
                fixed
            };
            if lifted > 0 {
                scratch.push((lifted as u32, ValTy::I64))
            } else {
                scratch
            }
        },
        l@.len() <= 4,
{
    let mut l: Vec<(u32, ValTy)> = vec![(2, ValTy::I64), (1, ValTy::I32)];
    if wide {
        l.push((1, ValTy::I64));
    }
    if lifted > 0 {
        l.push((lifted as u32, ValTy::I64));
    }
    l
}

/// A module out of its sections: types, imports where there are any, one function of type
/// 0 with the given body, exported as "block" under its index.
fn assemble(
    types: wasm_encoder::TypeSection,
    imports: Option<wasm_encoder::ImportSection>,
    func: u32,
    body: wasm_encoder::Function,
) -> (bytes: Vec<u8>)
    requires
        type_list(types).len() <= 4,
        forall|i: int|
            0 <= i < type_list(types).len() ==> (#[trigger] type_list(types)[i]).params.len() <= 5
                && type_list(types)[i].results.len() <= 1,
        imports matches Some(s) ==> import_list(s).len() <= MAX_ITEMS && forall|i: int|
            0 <= i < import_list(s).len() ==> (#[trigger] import_list(s)[i]).module.len()
                <= MAX_ITEMS && import_list(s)[i].name.len() <= MAX_ITEMS,
        function_body(body).fits(),
    ensures
        bytes@ == module_bytes(
            (match imports {
                Some(s) => seq![Section::Types(type_list(types)), Section::Imports(import_list(s))],
                None => seq![Section::Types(type_list(types))],
            }) + seq![
                Section::Functions(seq![0]),
                Section::Exports(seq![Export { name: "block"@, func }]),
                Section::Bodies(seq![function_body(body)]),
            ],
        ),
{
    let mut module = wasm_encoder::Module::new();
    put_types(&mut module, &types);
    match &imports {
        Some(s) => put_imports(&mut module, s),
        None => {},
    }
    let ghost first = module_sections(module);
    let mut functions = wasm_encoder::FunctionSection::new();
    add_function(&mut functions, 0);
    assert(function_list(functions) =~= seq![0]);
    put_functions(&mut module, &functions);
    let mut exports = wasm_encoder::ExportSection::new();
    proof {
        reveal_strlit("block");
    }
    add_export(&mut exports, "block", func);
    assert(export_list(exports) =~= seq![Export { name: "block"@, func }]);
    put_exports(&mut module, &exports);
    let mut bodies = wasm_encoder::CodeSection::new();
    add_body(&mut bodies, &body);
    assert(body_list(bodies) =~= seq![function_body(body)]);
    put_bodies(&mut module, &bodies);
    assert(first =~= match imports {
        Some(s) => seq![Section::Types(type_list(types)), Section::Imports(import_list(s))],
        None => seq![Section::Types(type_list(types))],
    });
    assert(module_sections(module) =~= first + seq![
        Section::Functions(seq![0]),
        Section::Exports(seq![Export { name: "block"@, func }]),
        Section::Bodies(seq![function_body(body)]),
    ]);
    finish(module)
}

/// The module of a block with the given body.
fn module_of(
    ops: Ghost<Seq<Op>>,
    cfg: &Config,
    used: &Vec<usize>,
    body: wasm_encoder::Function,
) -> (bytes: Vec<u8>)
    requires
        used@ == shape::used_helpers(ops@),
        function_body(body) == block_body(ops@, *cfg),
        function_body(body).fits(),
    ensures
        bytes@ == module_bytes(block_module(ops@, *cfg)),
{
    proof {
        law_used_helpers(ops@);
        lemma_used_below(ops@, HELPERS as nat);
        assert forall|i: int| 0 <= i < used@.len() implies #[trigger] used@[i] < HELPERS by {
            assert(used@.contains(used@[i]));
        }
    }
    let types = type_section(used);
    let imports = import_section(used, cfg.chain.is_some());
    proof {
        assert forall|i: int| 0 <= i < import_list(imports).len() implies (#[trigger] import_list(
            imports,
        )[i]).module.len() <= MAX_ITEMS && import_list(imports)[i].name.len() <= MAX_ITEMS by {
            reveal_strlit("guest");
            reveal_strlit("mem");
            reveal_strlit("table");
            let n: int = if cfg.chain is Some {
                2
            } else {
                1
            };
            if i >= n {
                assert(import_list(imports)[i] == helper_import_desc(used@[i - n]));
                lemma_helper_name(used@[i - n]);
            }
        }
    }
    let bytes = assemble(types, Some(imports), used.len() as u32, body);
    assert(bytes@ == module_bytes(block_module(ops@, *cfg))) by {
        assert(block_module(ops@, *cfg) =~= seq![
            Section::Types(block_types(used@)),
            Section::Imports(block_imports(used@, cfg.chain is Some)),
        ] + seq![
            Section::Functions(seq![0]),
            Section::Exports(seq![Export { name: "block"@, func: used@.len() as u32 }]),
            Section::Bodies(seq![function_body(body)]),
        ]);
    }
    bytes
}

/// Compiles the operations of a block, if their code is not too long for the binary format.
fn compile(ops: &Vec<Op>, cfg: &Config) -> (r: Option<(Vec<u8>, Vec<usize>)>)
    requires
        cfg.suits(ops@),
    ensures
        r is Some <==> block_body(ops@, *cfg).fits(),
        r matches Some((bytes, used)) ==> bytes@ == module_bytes(block_module(ops@, *cfg)) && used@
            == shape::used_helpers(ops@),
{
    let used: Vec<usize> = used_helpers(ops);
    let lifted: Vec<u32> = lifted_regs(ops, cfg.lift);
    let groups = locals(is_wide(ops), lifted.len());
    let code = emit_block(ops, cfg, &used, lifted);
    let body = function(groups.as_slice(), &code);
    if byte_len(&body) > MAX_BODY {
        return None;
    }
    let bytes = module_of(Ghost(ops@), cfg, &used, body);
    Some((bytes, used))
}

/// Why a stream cannot be compiled.
#[derive(Clone, Copy, Debug, PartialEq, Eq, Structural)]
pub enum BuildError {
    /// It holds an operation of no known kind.
    Kind,
    /// A layout is not usable for one of its operations.
    Layout,
    /// Its code is too long for the binary format.
    Length,
}

impl BuildError {
    /// The error in words.
    pub open spec fn spec_message(self) -> &'static str {
        match self {
            BuildError::Kind => "unknown IR op_kind",
            BuildError::Layout => "unusable layout",
            BuildError::Length => "block too long",
        }
    }

    /// The error in words.
    pub fn message(&self) -> (s: &'static str)
        ensures
            s == self.spec_message(),
    {
        match self {
            BuildError::Kind => "unknown IR op_kind",
            BuildError::Layout => "unusable layout",
            BuildError::Length => "block too long",
        }
    }
}

/// Why a stream cannot be compiled, if it cannot.
pub open spec fn build_error(ir: Seq<u8>, cfg: Config) -> Option<BuildError> {
    if !valid_ir(ir) {
        Some(BuildError::Kind)
    } else if !cfg.suits(ir_ops(ir)) {
        Some(BuildError::Layout)
    } else if !block_body(ir_ops(ir), cfg).fits() {
        Some(BuildError::Length)
    } else {
        None
    }
}

/// Compiles a basic block as `build_block` does, for any stream and any layouts, if it can be
/// compiled.
pub fn try_build_block(ir: &[u8], cfg: &Config) -> (r: Result<
    (Vec<u8>, Vec<usize>),
    BuildError,
>)
    ensures
        match build_error(ir@, *cfg) {
            Some(e) => r == Err::<(Vec<u8>, Vec<usize>), BuildError>(e),
            None => r matches Ok((bytes, used)) && bytes@ == module_bytes(
                block_module(ir_ops(ir@), *cfg),
            ) && used@ == shape::used_helpers(ir_ops(ir@)),
        },
{
    if !is_valid_ir(ir) {
        return Err(BuildError::Kind);
    }
    let ops: Vec<Op> = parse_ir(ir);
    if !cfg.is_suited(&ops) {
        return Err(BuildError::Layout);
    }
    match compile(&ops, cfg) {
        Some(built) => Ok(built),
        None => Err(BuildError::Length),
    }
}

/// Compiles a basic block: a module with one function, exported as "block", that runs the
/// operations of the stream `ir`.
///
/// `start_pc` is the pc of the block's first instruction, from which the pcs of faulting
/// instructions are derived, `block_end_pc` the pc behind its last, and `n_insns` the
/// number of its instructions. With `tlb`, loads and stores probe the guest's TLB inline;
/// with `chain`, the block charges its instructions to the cycle budget and continues in
/// the next block by itself where it can; with `lift`, registers are kept in locals.
///
/// Also gives the ids of the helpers that the module imports, in import order: behind the
/// memory and, with `chain`, the function table.
pub fn build_block(
    ir: &[u8],
    start_pc: u64,
    block_end_pc: u64,
    n_insns: u32,
    tlb: Option<&TlbLayout>,
    chain: Option<&ChainLayout>,
    lift: bool,
) -> (r: (Vec<u8>, Vec<usize>))
    requires
        valid_ir(ir@),
        ir@.len() <= MAX_IR_LEN || block_body(
            ir_ops(ir@),
            block_config(start_pc, block_end_pc, n_insns, tlb, chain, lift),
        ).fits(),
        block_config(start_pc, block_end_pc, n_insns, tlb, chain, lift).suits(ir_ops(ir@)),
    ensures
        r.0@ == module_bytes(
            block_module(
                ir_ops(ir@),
                block_config(start_pc, block_end_pc, n_insns, tlb, chain, lift),
            ),
        ),
        r.1@ == shape::used_helpers(ir_ops(ir@)),
{
    let ops: Vec<Op> = parse_ir(ir);
    let cfg = Config {
        start_pc,
        end_pc: block_end_pc,
        n_insns,
        tlb: match tlb {
            Some(t) => Some(*t),
            None => None,
        },
        chain: match chain {
            Some(c) => Some(*c),
            None => None,
        },
        lift,
    };
    proof {
        law_short_streams(ir@, cfg);
    }
    compile(&ops, &cfg).unwrap()
}

/// The arguments of `build_block` as one value.
pub open spec fn block_config(
    start_pc: u64,
    block_end_pc: u64,
    n_insns: u32,
    tlb: Option<&TlbLayout>,
    chain: Option<&ChainLayout>,
    lift: bool,
) -> Config {
    Config {
        start_pc,
        end_pc: block_end_pc,
        n_insns,
        tlb: match tlb {
            Some(t) => Some(*t),
            None => None,
        },
        chain: match chain {
            Some(c) => Some(*c),
            None => None,
        },
        lift,
    }
}

/// Builds a module whose function "block" returns 42, to try out whether modules made at
/// run time compile and run.
pub fn build_preflight() -> (bytes: Vec<u8>)
    ensures
        bytes@ == module_bytes(preflight_module()),
{
    let mut types = wasm_encoder::TypeSection::new();
    add_type(&mut types, &[ValTy::I32], &[ValTy::I64]);
    assert(type_list(types) =~~= seq![FuncTy { params: seq![ValTy::I32], results: seq![ValTy::I64] }]);
    let code: Vec<Instr> = vec![Instr::I64Const(42), Instr::End];
    let groups: Vec<(u32, ValTy)> = Vec::new();
    let body = function(groups.as_slice(), &code);
    assert(function_body(body) =~= Body {
        locals: Seq::empty(),
        code: seq![Instr::I64Const(42), Instr::End],
    });
    assert(function_body(body).byte_len() == 4) by {
        reveal_with_fuel(code_len, 3);
        assert(code@.drop_last() =~= seq![Instr::I64Const(42)]);
        assert(code@.drop_last().drop_last() =~= Seq::empty());
    }
    let bytes = assemble(types, None, 0, body);
    assert(preflight_module() =~= seq![Section::Types(type_list(types))] + seq![
        Section::Functions(seq![0]),
        Section::Exports(seq![Export { name: "block"@, func: 0 }]),
        Section::Bodies(seq![function_body(body)]),
    ]);
    bytes
}

} // verus!
