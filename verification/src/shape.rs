//! The code of a block: what is emitted for each operation and around them.
//!
//! Every function here takes the code that follows, so that the code of a block is
//! one nested application.

use vstd::prelude::*;
use crate::ir::{spec_is_terminator, AmoW, LoadW, MulDivOp, Op, StoreW};
use crate::wasm::{cond, instr, Code, Instr, IntBin, IntRel, LoadOp, MemArg, StoreOp, ValTy};

verus! {

/// Byte offsets and constants of the guest's software TLB, by which a memory access
/// can probe it inline. `tlb_read_off` and `tlb_write_off` are relative to the state
/// pointer, `vaddr_off` and `addend_off` to an entry.
#[derive(Clone, Copy, Debug, PartialEq, Eq, Structural)]
pub struct TlbLayout {
    pub tlb_read_off: u32,
    pub tlb_write_off: u32,
    /// Number of entries minus one; the number is a power of two.
    pub idx_mask: u32,
    /// Binary logarithm of the size of an entry.
    pub entry_shift: u32,
    pub vaddr_off: u32,
    pub addend_off: u32,
    pub pg_shift: u32,
}

/// Where a block finds what it needs to continue in the next block by itself: the
/// cycle budget in the CPU state, the map from pc to table slot, and the generation
/// counters that say whether a map entry is still current.
#[derive(Clone, Copy, Debug, PartialEq, Eq, Structural)]
pub struct ChainLayout {
    /// Offset of the 32-bit cycle budget from the state pointer.
    pub n_cycles_off: u32,
    pub map_base: u32,
    pub entry_size: u32,
    pub fn_idx_off: u32,
    pub user_gen_off: u32,
    pub global_gen_off: u32,
    pub page_gen_off: u32,
    /// Binary logarithm of the number of map entries.
    pub map_bits: u32,
    /// Binary logarithm of the number of page generation counters.
    pub page_gen_bits: u32,
    pub user_gen_addr: u32,
    pub global_gen_addr: u32,
    pub page_gen_base: u32,
    pub chain_hops_addr: u32,
}

/// Multiplier of the hash that places pcs in the map and pages among the counters.
pub const HASH_MULT: u64 = 0x9E37_79B9_7F4A_7C15;

/// First pc of the half that the kernel maps globally.
pub const KERNEL_HALF_BASE: u64 = 0xffff_ffc0_0000_0000;

/// The most registers that are kept in locals: the size of the register file.
pub const MAX_LIFTED: usize = 32;

/// The first local behind the fixed ones: the state pointer, two 64-bit scratch
/// locals and a 32-bit one.
pub const FIXED_LOCALS: u32 = 4;

/// What the code of an operation depends on besides the operation.
#[verifier::ext_equal]
pub struct Cx {
    pub start_pc: u64,
    pub end_pc: u64,
    /// Ids of the imported helpers, in import order.
    pub used: Seq<usize>,
    pub tlb: Option<TlbLayout>,
    /// Registers kept in locals.
    pub lifted: Seq<u32>,
    /// Local of the first of them.
    pub lift_base: u32,
}

impl TlbLayout {
    /// The table at `tlb_off` can be probed: static offsets fit 32 bits, and the page size
    /// is one a 64-bit address can have.
    pub open spec fn usable_at(self, tlb_off: u32) -> bool {
        &&& tlb_off + self.vaddr_off <= u32::MAX
        &&& tlb_off + self.addend_off <= u32::MAX
        &&& self.pg_shift < 64
    }

    /// The operation can be compiled with this layout. Only loads and stores look at it,
    /// each at its own table.
    pub open spec fn serves(self, op: Op) -> bool {
        match op {
            Op::Load { .. } => self.usable_at(self.tlb_read_off),
            Op::Store { .. } => self.usable_at(self.tlb_write_off),
            _ => true,
        }
    }

    /// Tests whether the table at `tlb_off` can be probed.
    fn is_usable_at(&self, tlb_off: u32) -> (r: bool)
        ensures
            r == self.usable_at(tlb_off),
    {
        tlb_off <= u32::MAX - self.vaddr_off && tlb_off <= u32::MAX - self.addend_off
            && self.pg_shift < 64
    }

    /// Tests whether the operation can be compiled with this layout.
    pub fn can_serve(&self, op: &Op) -> (r: bool)
        ensures
            r == self.serves(*op),
    {
        match op {
            Op::Load { .. } => self.is_usable_at(self.tlb_read_off),
            Op::Store { .. } => self.is_usable_at(self.tlb_write_off),
            _ => true,
        }
    }
}

impl ChainLayout {
    /// Hashes have at least one bit and fit a 32-bit index.
    pub open spec fn wf(self) -> bool {
        &&& 1 <= self.map_bits <= 32
        &&& 1 <= self.page_gen_bits <= 30
    }

    /// Tests whether the layout is usable.
    pub fn is_wf(&self) -> (r: bool)
        ensures
            r == self.wf(),
    {
        1 <= self.map_bits && self.map_bits <= 32 && 1 <= self.page_gen_bits && self.page_gen_bits
            <= 30
    }
}

/// Place of `x` in `s`.
pub open spec fn pos<T>(s: Seq<T>, x: T) -> Option<nat>
    decreases s.len(),
{
    if s.len() == 0 {
        None
    } else if s.last() == x {
        Some((s.len() - 1) as nat)
    } else {
        pos(s.drop_last(), x)
    }
}

/// The place that `pos` gives holds the element.
pub proof fn lemma_pos<T>(s: Seq<T>, x: T)
    ensures
        pos(s, x) matches Some(i) ==> i < s.len() && s[i as int] == x,
        pos(s, x) is Some <==> s.contains(x),
    decreases s.len(),
{
    if s.len() > 0 {
        lemma_pos(s.drop_last(), x);
        if s.last() != x && s.contains(x) {
            let i = choose|i: int| 0 <= i < s.len() && s[i] == x;
            assert(s.drop_last()[i] == x);
        }
    }
}

/// Bits of an address that a TLB tag is compared with: those of the page, and the
/// low ones that an access of `bytes` bytes needs clear to be aligned.
pub open spec fn spec_tag_mask(pg_shift: u32, bytes: u64) -> u64 {
    let pg_mask = ((1u64 << pg_shift) - 1) as u64;
    !(pg_mask & !((bytes - 1) as u64))
}

/// Helper that a memory operation calls: loads are 0 to 6, stores 7 to 10, atomics
/// 11 and 12.
pub open spec fn spec_helper_id(op: Op) -> Option<usize> {
    match op {
        Op::Load { w, .. } => Some(match w {
            LoadW::B => 0,
            LoadW::H => 1,
            LoadW::W => 2,
            LoadW::D => 3,
            LoadW::Bu => 4,
            LoadW::Hu => 5,
            LoadW::Wu => 6,
        }),
        Op::Store { w, .. } => Some(match w {
            StoreW::B => 7,
            StoreW::H => 8,
            StoreW::W => 9,
            StoreW::D => 10,
        }),
        Op::Amo { w, .. } => Some(match w {
            AmoW::W => 11,
            AmoW::D => 12,
        }),
        _ => None,
    }
}

/// Function index under which the helper of `op` is imported.
pub open spec fn helper_index(cx: Cx, op: Op) -> u32 {
    pos(cx.used, spec_helper_id(op)->0)->0 as u32
}

/// Access to a 64-bit register at offset `off` of the state.
pub open spec fn reg_arg(off: u32) -> MemArg {
    MemArg { offset: off as u64, align: 3 }
}

/// Pushes the value of a register.
pub open spec fn get_reg(cx: Cx, r: u32, k: Code) -> Code {
    match pos(cx.lifted, r) {
        Some(i) => instr(Instr::LocalGet((cx.lift_base + i) as u32), k),
        None => load_reg(r, k),
    }
}

/// Pushes the value of a register from the state.
pub open spec fn load_reg(r: u32, k: Code) -> Code {
    instr(Instr::LocalGet(0), instr(Instr::Load(LoadOp::I64, reg_arg(r)), k))
}

/// Prepares a register write, before its value is computed.
pub open spec fn begin_write(cx: Cx, rd: u32, k: Code) -> Code {
    match pos(cx.lifted, rd) {
        Some(_) => k,
        None => instr(Instr::LocalGet(0), k),
    }
}

/// Writes the value on the stack to a register.
pub open spec fn store_reg(cx: Cx, rd: u32, k: Code) -> Code {
    match pos(cx.lifted, rd) {
        Some(i) => instr(Instr::LocalSet((cx.lift_base + i) as u32), k),
        None => instr(Instr::Store(StoreOp::I64, reg_arg(rd)), k),
    }
}

/// Writes the local of one lifted register back to the state.
pub open spec fn spill_one(cx: Cx, r: u32, k: Code) -> Code {
    instr(
        Instr::LocalGet(0),
        get_reg(cx, r, instr(Instr::Store(StoreOp::I64, reg_arg(r)), k)),
    )
}

/// Writes lifted registers back to the state.
pub open spec fn spill(cx: Cx, regs: Seq<u32>, k: Code) -> Code
    decreases regs.len(),
{
    if regs.len() == 0 {
        k
    } else {
        spill(cx, regs.drop_last(), spill_one(cx, regs.last(), k))
    }
}

/// Reads lifted registers from the state into their locals, the first `n` of them.
pub open spec fn fill(cx: Cx, n: nat, k: Code) -> Code
    decreases n,
{
    if n == 0 {
        k
    } else {
        let r = cx.lifted[n - 1];
        fill(
            cx,
            (n - 1) as nat,
            load_reg(r, instr(Instr::LocalSet((cx.lift_base + (n - 1)) as u32), k)),
        )
    }
}

/// Leaves the block if the helper reported a fault: registers written so far go back
/// to the state, and the pc of the faulting instruction is returned with bit 0 set.
pub open spec fn fault_check(cx: Cx, dirty: Seq<u32>, fault_pc: u64, k: Code) -> Code {
    cond(
        None,
        spill(
            cx,
            dirty,
            instr(
                Instr::I64Const((fault_pc | 1) as i64),
                instr(Instr::Return, Code::Nil),
            ),
        ),
        Code::Nil,
        k,
    )
}

/// pc of the instruction at `pc_off` of the block.
pub open spec fn fault_pc(cx: Cx, pc_off: u32) -> u64 {
    crate::arith::u64w(cx.start_pc + pc_off)
}

/// Operation with a constant.
pub open spec fn bin_imm(cx: Cx, rd: u32, rs1: u32, imm: i64, op: IntBin, k: Code) -> Code {
    begin_write(
        cx,
        rd,
        get_reg(
            cx,
            rs1,
            instr(Instr::I64Const(imm), instr(Instr::I64Bin(op), store_reg(cx, rd, k))),
        ),
    )
}

/// Low 32 bits of the sum, sign-extended.
pub open spec fn addiw(cx: Cx, rd: u32, rs1: u32, imm: i64, k: Code) -> Code {
    begin_write(
        cx,
        rd,
        get_reg(
            cx,
            rs1,
            instr(
                Instr::I64Const(imm),
                instr(
                    Instr::I64Bin(IntBin::Add),
                    instr(
                        Instr::I32WrapI64,
                        instr(Instr::I64ExtendI32S, store_reg(cx, rd, k)),
                    ),
                ),
            ),
        ),
    )
}

/// 32-bit operation with a constant, sign-extended.
pub open spec fn bin32_imm(cx: Cx, rd: u32, rs1: u32, imm: i32, op: IntBin, k: Code) -> Code {
    begin_write(
        cx,
        rd,
        get_reg(
            cx,
            rs1,
            instr(
                Instr::I32WrapI64,
                instr(
                    Instr::I32Const(imm),
                    instr(
                        Instr::I32Bin(op),
                        instr(Instr::I64ExtendI32S, store_reg(cx, rd, k)),
                    ),
                ),
            ),
        ),
    )
}

/// Comparison with a constant.
pub open spec fn rel_imm(cx: Cx, rd: u32, rs1: u32, imm: i64, op: IntRel, k: Code) -> Code {
    begin_write(
        cx,
        rd,
        get_reg(
            cx,
            rs1,
            instr(
                Instr::I64Const(imm),
                instr(
                    Instr::I64Rel(op),
                    instr(Instr::I64ExtendI32U, store_reg(cx, rd, k)),
                ),
            ),
        ),
    )
}

/// Operation on two registers.
pub open spec fn bin_reg(cx: Cx, rd: u32, rs1: u32, rs2: u32, op: IntBin, k: Code) -> Code {
    begin_write(
        cx,
        rd,
        get_reg(
            cx,
            rs1,
            get_reg(cx, rs2, instr(Instr::I64Bin(op), store_reg(cx, rd, k))),
        ),
    )
}

/// Shift by the low six bits of a register.
pub open spec fn shift_reg(cx: Cx, rd: u32, rs1: u32, rs2: u32, op: IntBin, k: Code) -> Code {
    begin_write(
        cx,
        rd,
        get_reg(
            cx,
            rs1,
            get_reg(
                cx,
                rs2,
                instr(
                    Instr::I64Const(0x3f),
                    instr(
                        Instr::I64Bin(IntBin::And),
                        instr(Instr::I64Bin(op), store_reg(cx, rd, k)),
                    ),
                ),
            ),
        ),
    )
}

/// Comparison of two registers.
pub open spec fn rel_reg(cx: Cx, rd: u32, rs1: u32, rs2: u32, op: IntRel, k: Code) -> Code {
    begin_write(
        cx,
        rd,
        get_reg(
            cx,
            rs1,
            get_reg(
                cx,
                rs2,
                instr(
                    Instr::I64Rel(op),
                    instr(Instr::I64ExtendI32U, store_reg(cx, rd, k)),
                ),
            ),
        ),
    )
}

/// 32-bit operation on the low halves, sign-extended.
pub open spec fn bin32(cx: Cx, rd: u32, rs1: u32, rs2: u32, op: IntBin, k: Code) -> Code {
    begin_write(
        cx,
        rd,
        get_reg(
            cx,
            rs1,
            instr(
                Instr::I32WrapI64,
                get_reg(
                    cx,
                    rs2,
                    instr(
                        Instr::I32WrapI64,
                        instr(
                            Instr::I32Bin(op),
                            instr(Instr::I64ExtendI32S, store_reg(cx, rd, k)),
                        ),
                    ),
                ),
            ),
        ),
    )
}

/// 32-bit shift by the low five bits of a register, sign-extended.
pub open spec fn shift32_reg(cx: Cx, rd: u32, rs1: u32, rs2: u32, op: IntBin, k: Code) -> Code {
    begin_write(
        cx,
        rd,
        get_reg(
            cx,
            rs1,
            instr(
                Instr::I32WrapI64,
                get_reg(
                    cx,
                    rs2,
                    instr(
                        Instr::I32WrapI64,
                        instr(
                            Instr::I32Const(0x1f),
                            instr(
                                Instr::I32Bin(IntBin::And),
                                instr(
                                    Instr::I32Bin(op),
                                    instr(Instr::I64ExtendI32S, store_reg(cx, rd, k)),
                                ),
                            ),
                        ),
                    ),
                ),
            ),
        ),
    )
}

/// Writes a constant to a register.
pub open spec fn const_reg(cx: Cx, rd: u32, imm: i64, k: Code) -> Code {
    begin_write(cx, rd, instr(Instr::I64Const(imm), store_reg(cx, rd, k)))
}

/// Writes the link pc to a register unless it is x0.
pub open spec fn link(cx: Cx, rd: u32, k: Code) -> Code {
    if rd != 0 {
        const_reg(cx, rd, cx.end_pc as i64, k)
    } else {
        k
    }
}

/// The target is computed into local 1 before the link register is written, which
/// may be the base.
pub open spec fn jalr(cx: Cx, rd: u32, rs1: u32, imm: i64, k: Code) -> Code {
    get_reg(
        cx,
        rs1,
        instr(
            Instr::I64Const(imm),
            instr(
                Instr::I64Bin(IntBin::Add),
                instr(
                    Instr::I64Const(-2i64),
                    instr(
                        Instr::I64Bin(IntBin::And),
                        instr(
                            Instr::LocalSet(1),
                            link(cx, rd, instr(Instr::LocalGet(1), k)),
                        ),
                    ),
                ),
            ),
        ),
    )
}

/// Pushes the target pc if the comparison holds, else the end pc.
pub open spec fn branch(cx: Cx, rs1: u32, rs2: u32, target: i64, op: IntRel, k: Code) -> Code {
    get_reg(
        cx,
        rs1,
        get_reg(
            cx,
            rs2,
            instr(
                Instr::I64Rel(op),
                cond(
                    Some(ValTy::I64),
                    instr(Instr::I64Const(target), Code::Nil),
                    instr(Instr::I64Const(cx.end_pc as i64), Code::Nil),
                    k,
                ),
            ),
        ),
    )
}

/// Pushes the effective address.
pub open spec fn address(cx: Cx, rs1: u32, imm: i64, k: Code) -> Code {
    get_reg(cx, rs1, instr(Instr::I64Const(imm), instr(Instr::I64Bin(IntBin::Add), k)))
}

/// Leaves the effective address in local 2, the TLB entry in local 3, and the result
/// of the tag comparison on the stack.
pub open spec fn tlb_probe(
    cx: Cx,
    t: TlbLayout,
    rs1: u32,
    imm: i64,
    tlb_off: u32,
    bytes: u64,
    k: Code,
) -> Code {
    address(
        cx,
        rs1,
        imm,
        instr(
            Instr::LocalTee(2),
            instr(
                Instr::I64Const(t.pg_shift as i64),
                instr(
                    Instr::I64Bin(IntBin::ShrU),
                    instr(
                        Instr::I32WrapI64,
                        instr(
                            Instr::I32Const(t.idx_mask as i32),
                            instr(
                                Instr::I32Bin(IntBin::And),
                                instr(
                                    Instr::I32Const(t.entry_shift as i32),
                                    instr(
                                        Instr::I32Bin(IntBin::Shl),
                                        tlb_tag(t, tlb_off, bytes, k),
                                    ),
                                ),
                            ),
                        ),
                    ),
                ),
            ),
        ),
    )
}

/// Second half of the probe: from the entry's offset in the table to the comparison.
pub open spec fn tlb_tag(t: TlbLayout, tlb_off: u32, bytes: u64, k: Code) -> Code {
    instr(
        Instr::LocalGet(0),
        instr(
            Instr::I32Bin(IntBin::Add),
            instr(
                Instr::LocalTee(3),
                instr(
                    Instr::Load(
                        LoadOp::I64,
                        MemArg { offset: (tlb_off + t.vaddr_off) as u64, align: 3 },
                    ),
                    instr(
                        Instr::LocalGet(2),
                        instr(
                            Instr::I64Const(spec_tag_mask(t.pg_shift, bytes) as i64),
                            instr(
                                Instr::I64Bin(IntBin::And),
                                instr(Instr::I64Rel(IntRel::Eq), k),
                            ),
                        ),
                    ),
                ),
            ),
        ),
    )
}

/// Pushes the address in linear memory that the entry in local 3 maps the address in
/// local 2 to.
pub open spec fn tlb_host_addr(t: TlbLayout, tlb_off: u32, k: Code) -> Code {
    instr(
        Instr::LocalGet(3),
        instr(
            Instr::Load(
                LoadOp::I32,
                MemArg { offset: (tlb_off + t.addend_off) as u64, align: 2 },
            ),
            instr(
                Instr::LocalGet(2),
                instr(Instr::I32WrapI64, instr(Instr::I32Bin(IntBin::Add), k)),
            ),
        ),
    )
}

/// Bytes that a load reads.
pub open spec fn load_bytes(w: LoadW) -> u64 {
    match w {
        LoadW::B | LoadW::Bu => 1,
        LoadW::H | LoadW::Hu => 2,
        LoadW::W | LoadW::Wu => 4,
        LoadW::D => 8,
    }
}

/// Bytes that a store writes.
pub open spec fn store_bytes(w: StoreW) -> u64 {
    match w {
        StoreW::B => 1,
        StoreW::H => 2,
        StoreW::W => 4,
        StoreW::D => 8,
    }
}

/// The memory read that performs a load.
pub open spec fn load_op(w: LoadW) -> LoadOp {
    match w {
        LoadW::B => LoadOp::I64S8,
        LoadW::Bu => LoadOp::I64U8,
        LoadW::H => LoadOp::I64S16,
        LoadW::Hu => LoadOp::I64U16,
        LoadW::W => LoadOp::I64S32,
        LoadW::Wu => LoadOp::I64U32,
        LoadW::D => LoadOp::I64,
    }
}

/// The memory write that performs a store.
pub open spec fn store_op(w: StoreW) -> StoreOp {
    match w {
        StoreW::B => StoreOp::I64As8,
        StoreW::H => StoreOp::I64As16,
        StoreW::W => StoreOp::I64As32,
        StoreW::D => StoreOp::I64,
    }
}

/// Binary logarithm of an access width, the natural alignment.
pub open spec fn align_of(bytes: u64) -> u32 {
    if bytes == 1 {
        0
    } else if bytes == 2 {
        1
    } else if bytes == 4 {
        2
    } else {
        3
    }
}

/// The access of a load that hit the TLB; the value goes to the register unless it is
/// x0.
pub open spec fn load_fast(t: TlbLayout, w: LoadW, rd: u32) -> Code {
    let arg = MemArg { offset: 0, align: align_of(load_bytes(w)) };
    if rd != 0 {
        instr(
            Instr::LocalGet(0),
            tlb_host_addr(
                t,
                t.tlb_read_off,
                instr(
                    Instr::Load(load_op(w), arg),
                    instr(Instr::Store(StoreOp::I64, reg_arg(rd)), Code::Nil),
                ),
            ),
        )
    } else {
        tlb_host_addr(
            t,
            t.tlb_read_off,
            instr(Instr::Load(load_op(w), arg), instr(Instr::Drop, Code::Nil)),
        )
    }
}

/// A load: with a TLB a probe, and the helper on a miss; without one the helper.
pub open spec fn load_mem(
    cx: Cx,
    dirty: Seq<u32>,
    helper: u32,
    w: LoadW,
    rd: u32,
    rs1: u32,
    imm: i64,
    fault_pc: u64,
    k: Code,
) -> Code {
    match cx.tlb {
        Some(t) => tlb_probe(
            cx,
            t,
            rs1,
            imm,
            t.tlb_read_off,
            load_bytes(w),
            cond(
                None,
                load_fast(t, w, rd),
                instr(
                    Instr::LocalGet(0),
                    instr(
                        Instr::LocalGet(2),
                        instr(
                            Instr::I32Const(rd as i32),
                            instr(
                                Instr::Call(helper),
                                fault_check(cx, dirty, fault_pc, Code::Nil),
                            ),
                        ),
                    ),
                ),
                k,
            ),
        ),
        None => instr(
            Instr::LocalGet(0),
            address(
                cx,
                rs1,
                imm,
                instr(
                    Instr::I32Const(rd as i32),
                    instr(
                        Instr::Call(helper),
                        fault_check(cx, dirty, fault_pc, k),
                    ),
                ),
            ),
        ),
    }
}

/// A store, in the manner of a load.
pub open spec fn store_mem(
    cx: Cx,
    dirty: Seq<u32>,
    helper: u32,
    w: StoreW,
    rs1: u32,
    rs2: u32,
    imm: i64,
    fault_pc: u64,
    k: Code,
) -> Code {
    match cx.tlb {
        Some(t) => tlb_probe(
            cx,
            t,
            rs1,
            imm,
            t.tlb_write_off,
            store_bytes(w),
            cond(
                None,
                tlb_host_addr(
                    t,
                    t.tlb_write_off,
                    get_reg(
                        cx,
                        rs2,
                        instr(
                            Instr::Store(
                                store_op(w),
                                MemArg { offset: 0, align: align_of(store_bytes(w)) },
                            ),
                            Code::Nil,
                        ),
                    ),
                ),
                instr(
                    Instr::LocalGet(0),
                    instr(
                        Instr::LocalGet(2),
                        get_reg(
                            cx,
                            rs2,
                            instr(
                                Instr::Call(helper),
                                fault_check(cx, dirty, fault_pc, Code::Nil),
                            ),
                        ),
                    ),
                ),
                k,
            ),
        ),
        None => instr(
            Instr::LocalGet(0),
            address(
                cx,
                rs1,
                imm,
                get_reg(
                    cx,
                    rs2,
                    instr(
                        Instr::Call(helper),
                        fault_check(cx, dirty, fault_pc, k),
                    ),
                ),
            ),
        ),
    }
}

/// An atomic: always the helper.
pub open spec fn amo_mem(
    cx: Cx,
    dirty: Seq<u32>,
    helper: u32,
    rd: u32,
    rs1: u32,
    rs2: u32,
    funct5: u32,
    fault_pc: u64,
    k: Code,
) -> Code {
    instr(
        Instr::LocalGet(0),
        get_reg(
            cx,
            rs1,
            get_reg(
                cx,
                rs2,
                instr(
                    Instr::I32Const(funct5 as i32),
                    instr(
                        Instr::I32Const(rd as i32),
                        instr(
                            Instr::Call(helper),
                            fault_check(cx, dirty, fault_pc, k),
                        ),
                    ),
                ),
            ),
        ),
    )
}

/// Pushes the upper half of a local.
pub open spec fn high_half(local: u32, k: Code) -> Code {
    instr(
        Instr::LocalGet(local),
        instr(Instr::I64Const(32), instr(Instr::I64Bin(IntBin::ShrU), k)),
    )
}

/// Pushes the lower half of a local.
pub open spec fn low_half(local: u32, k: Code) -> Code {
    instr(
        Instr::LocalGet(local),
        instr(Instr::I64Const(0xffff_ffff), instr(Instr::I64Bin(IntBin::And), k)),
    )
}

/// Pushes the upper half of the unsigned product of locals 1 and 2, by schoolbook
/// multiplication of their halves. The middle sum is kept in the local behind the
/// fixed ones.
pub open spec fn mulhu(k: Code) -> Code {
    high_half(
        1,
        low_half(
            2,
            instr(
                Instr::I64Bin(IntBin::Mul),
                low_half(
                    1,
                    low_half(
                        2,
                        instr(
                            Instr::I64Bin(IntBin::Mul),
                            instr(
                                Instr::I64Const(32),
                                instr(
                                    Instr::I64Bin(IntBin::ShrU),
                                    instr(
                                        Instr::I64Bin(IntBin::Add),
                                        instr(
                                            Instr::LocalSet(FIXED_LOCALS),
                                            mulhu_upper(k),
                                        ),
                                    ),
                                ),
                            ),
                        ),
                    ),
                ),
            ),
        ),
    )
}

/// Second half of the product: the sums that carry into the upper half.
pub open spec fn mulhu_upper(k: Code) -> Code {
    high_half(
        1,
        high_half(
            2,
            instr(
                Instr::I64Bin(IntBin::Mul),
                high_half(
                    FIXED_LOCALS,
                    instr(
                        Instr::I64Bin(IntBin::Add),
                        low_half(
                            1,
                            high_half(
                                2,
                                instr(
                                    Instr::I64Bin(IntBin::Mul),
                                    low_half(
                                        FIXED_LOCALS,
                                        instr(
                                            Instr::I64Bin(IntBin::Add),
                                            instr(
                                                Instr::I64Const(32),
                                                instr(
                                                    Instr::I64Bin(IntBin::ShrU),
                                                    instr(Instr::I64Bin(IntBin::Add), k),
                                                ),
                                            ),
                                        ),
                                    ),
                                ),
                            ),
                        ),
                    ),
                ),
            ),
        ),
    )
}

/// Subtracts local `b` from the product if local `a` is negative.
pub open spec fn sign_fix(a: u32, b: u32, k: Code) -> Code {
    instr(
        Instr::LocalGet(a),
        instr(
            Instr::I64Const(63),
            instr(
                Instr::I64Bin(IntBin::ShrS),
                instr(
                    Instr::LocalGet(b),
                    instr(
                        Instr::I64Bin(IntBin::And),
                        instr(Instr::I64Bin(IntBin::Sub), k),
                    ),
                ),
            ),
        ),
    )
}

/// An operand of a division: the whole register, or its lower half extended.
#[derive(Clone, Copy, Debug, PartialEq, Eq, Structural)]
pub enum Half {
    Whole,
    Signed,
    Unsigned,
}

/// Extends the value on the stack as `h` says.
pub open spec fn extend(h: Half, k: Code) -> Code {
    match h {
        Half::Whole => k,
        Half::Signed => instr(Instr::I32WrapI64, instr(Instr::I64ExtendI32S, k)),
        Half::Unsigned => instr(Instr::I32WrapI64, instr(Instr::I64ExtendI32U, k)),
    }
}

/// Puts the operands into locals 1 and 2.
pub open spec fn operands(cx: Cx, rs1: u32, rs2: u32, h: Half, k: Code) -> Code {
    get_reg(
        cx,
        rs1,
        extend(
            h,
            instr(
                Instr::LocalSet(1),
                get_reg(cx, rs2, extend(h, instr(Instr::LocalSet(2), k))),
            ),
        ),
    )
}

/// Applies a division operator to locals 1 and 2.
pub open spec fn apply12(op: IntBin) -> Code {
    instr(
        Instr::LocalGet(1),
        instr(Instr::LocalGet(2), instr(Instr::I64Bin(op), Code::Nil)),
    )
}

/// The signed quotient of locals 1 and 2, where the dividend itself is the quotient of
/// the one case that overflows.
pub open spec fn div_guarded() -> Code {
    instr(
        Instr::LocalGet(1),
        instr(
            Instr::I64Const(i64::MIN),
            instr(
                Instr::I64Rel(IntRel::Eq),
                instr(
                    Instr::LocalGet(2),
                    instr(
                        Instr::I64Const(-1i64),
                        instr(
                            Instr::I64Rel(IntRel::Eq),
                            instr(
                                Instr::I32Bin(IntBin::And),
                                cond(
                                    Some(ValTy::I64),
                                    instr(Instr::LocalGet(1), Code::Nil),
                                    apply12(IntBin::DivS),
                                    Code::Nil,
                                ),
                            ),
                        ),
                    ),
                ),
            ),
        ),
    )
}

/// Pushes the quotient or remainder of locals 1 and 2: what `by_zero` pushes if the
/// divisor is zero, else what `other` pushes.
pub open spec fn unless_zero(by_zero: Instr, other: Code, k: Code) -> Code {
    instr(
        Instr::LocalGet(2),
        instr(
            Instr::I64Eqz,
            cond(Some(ValTy::I64), instr(by_zero, Code::Nil), other, k),
        ),
    )
}

/// What a division by zero gives: all ones as quotient, the dividend as remainder.
pub open spec fn by_zero(op: IntBin) -> Instr {
    if op is DivS || op is DivU {
        Instr::I64Const(-1i64)
    } else {
        Instr::LocalGet(1)
    }
}

/// A quotient or remainder by a divisor that is not zero. Of halves none overflows.
pub open spec fn quotient(op: IntBin, h: Half) -> Code {
    if op is DivS && h is Whole {
        div_guarded()
    } else {
        apply12(op)
    }
}

/// How the operands of a division are read.
pub open spec fn spec_half(op: MulDivOp) -> Half {
    match op {
        MulDivOp::Divw | MulDivOp::Remw => Half::Signed,
        MulDivOp::Divuw | MulDivOp::Remuw => Half::Unsigned,
        _ => Half::Whole,
    }
}

/// Operator of a division.
pub open spec fn spec_div_op(op: MulDivOp) -> IntBin {
    match op {
        MulDivOp::Div | MulDivOp::Divw => IntBin::DivS,
        MulDivOp::Divu | MulDivOp::Divuw => IntBin::DivU,
        MulDivOp::Rem | MulDivOp::Remw => IntBin::RemS,
        _ => IntBin::RemU,
    }
}

/// A quotient or remainder; that of halves is sign-extended.
pub open spec fn divide(cx: Cx, op: MulDivOp, rd: u32, rs1: u32, rs2: u32, k: Code) -> Code {
    let h = spec_half(op);
    let bin = spec_div_op(op);
    let end = store_reg(cx, rd, k);
    begin_write(
        cx,
        rd,
        operands(
            cx,
            rs1,
            rs2,
            h,
            unless_zero(
                by_zero(bin),
                quotient(bin, h),
                if h is Whole {
                    end
                } else {
                    extend(Half::Signed, end)
                },
            ),
        ),
    )
}

/// Products, quotients and remainders.
pub open spec fn mul_div(cx: Cx, op: MulDivOp, rd: u32, rs1: u32, rs2: u32, k: Code) -> Code {
    let end = store_reg(cx, rd, k);
    match op {
        MulDivOp::Mul => bin_reg(cx, rd, rs1, rs2, IntBin::Mul, k),
        MulDivOp::Mulw => bin32(cx, rd, rs1, rs2, IntBin::Mul, k),
        MulDivOp::Mulhu => begin_write(cx, rd, operands(cx, rs1, rs2, Half::Whole, mulhu(end))),
        MulDivOp::Mulhsu => begin_write(
            cx,
            rd,
            operands(cx, rs1, rs2, Half::Whole, mulhu(sign_fix(1, 2, end))),
        ),
        MulDivOp::Mulh => begin_write(
            cx,
            rd,
            operands(cx, rs1, rs2, Half::Whole, mulhu(sign_fix(1, 2, sign_fix(2, 1, end)))),
        ),
        _ => divide(cx, op, rd, rs1, rs2, k),
    }
}

/// The code of one operation. `dirty` are the lifted registers written before it.
#[verifier::opaque]
pub open spec fn op_code(op: Op, cx: Cx, dirty: Seq<u32>, k: Code) -> Code {
    match op {
        Op::Const { rd, imm } => const_reg(cx, rd, imm, k),
        Op::Addi { rd, rs1, imm } => bin_imm(cx, rd, rs1, imm, IntBin::Add, k),
        Op::Addiw { rd, rs1, imm } => addiw(cx, rd, rs1, imm, k),
        Op::Andi { rd, rs1, imm } => bin_imm(cx, rd, rs1, imm, IntBin::And, k),
        Op::Ori { rd, rs1, imm } => bin_imm(cx, rd, rs1, imm, IntBin::Or, k),
        Op::Xori { rd, rs1, imm } => bin_imm(cx, rd, rs1, imm, IntBin::Xor, k),
        Op::Slti { rd, rs1, imm } => rel_imm(cx, rd, rs1, imm, IntRel::LtS, k),
        Op::Sltiu { rd, rs1, imm } => rel_imm(cx, rd, rs1, imm, IntRel::LtU, k),
        Op::Slli { rd, rs1, shamt } => bin_imm(cx, rd, rs1, shamt as i64, IntBin::Shl, k),
        Op::Srli { rd, rs1, shamt } => bin_imm(cx, rd, rs1, shamt as i64, IntBin::ShrU, k),
        Op::Srai { rd, rs1, shamt } => bin_imm(cx, rd, rs1, shamt as i64, IntBin::ShrS, k),
        Op::Slliw { rd, rs1, shamt } => bin32_imm(cx, rd, rs1, shamt as i32, IntBin::Shl, k),
        Op::Srliw { rd, rs1, shamt } => bin32_imm(cx, rd, rs1, shamt as i32, IntBin::ShrU, k),
        Op::Sraiw { rd, rs1, shamt } => bin32_imm(cx, rd, rs1, shamt as i32, IntBin::ShrS, k),
        Op::Add { rd, rs1, rs2 } => bin_reg(cx, rd, rs1, rs2, IntBin::Add, k),
        Op::Sub { rd, rs1, rs2 } => bin_reg(cx, rd, rs1, rs2, IntBin::Sub, k),
        Op::And { rd, rs1, rs2 } => bin_reg(cx, rd, rs1, rs2, IntBin::And, k),
        Op::Or { rd, rs1, rs2 } => bin_reg(cx, rd, rs1, rs2, IntBin::Or, k),
        Op::Xor { rd, rs1, rs2 } => bin_reg(cx, rd, rs1, rs2, IntBin::Xor, k),
        Op::Sll { rd, rs1, rs2 } => shift_reg(cx, rd, rs1, rs2, IntBin::Shl, k),
        Op::Srl { rd, rs1, rs2 } => shift_reg(cx, rd, rs1, rs2, IntBin::ShrU, k),
        Op::Sra { rd, rs1, rs2 } => shift_reg(cx, rd, rs1, rs2, IntBin::ShrS, k),
        Op::Slt { rd, rs1, rs2 } => rel_reg(cx, rd, rs1, rs2, IntRel::LtS, k),
        Op::Sltu { rd, rs1, rs2 } => rel_reg(cx, rd, rs1, rs2, IntRel::LtU, k),
        Op::Addw { rd, rs1, rs2 } => bin32(cx, rd, rs1, rs2, IntBin::Add, k),
        Op::Subw { rd, rs1, rs2 } => bin32(cx, rd, rs1, rs2, IntBin::Sub, k),
        Op::Sllw { rd, rs1, rs2 } => shift32_reg(cx, rd, rs1, rs2, IntBin::Shl, k),
        Op::Srlw { rd, rs1, rs2 } => shift32_reg(cx, rd, rs1, rs2, IntBin::ShrU, k),
        Op::Sraw { rd, rs1, rs2 } => shift32_reg(cx, rd, rs1, rs2, IntBin::ShrS, k),
        Op::Jal { rd, target_pc } => link(cx, rd, instr(Instr::I64Const(target_pc), k)),
        Op::Jalr { rd, rs1, imm } => jalr(cx, rd, rs1, imm, k),
        Op::Beq { rs1, rs2, target_pc } => branch(cx, rs1, rs2, target_pc, IntRel::Eq, k),
        Op::Bne { rs1, rs2, target_pc } => branch(cx, rs1, rs2, target_pc, IntRel::Ne, k),
        Op::Blt { rs1, rs2, target_pc } => branch(cx, rs1, rs2, target_pc, IntRel::LtS, k),
        Op::Bge { rs1, rs2, target_pc } => branch(cx, rs1, rs2, target_pc, IntRel::GeS, k),
        Op::Bltu { rs1, rs2, target_pc } => branch(cx, rs1, rs2, target_pc, IntRel::LtU, k),
        Op::Bgeu { rs1, rs2, target_pc } => branch(cx, rs1, rs2, target_pc, IntRel::GeU, k),
        Op::Load { w, rd, rs1, imm, pc_off } => load_mem(
            cx, dirty, helper_index(cx, op), w, rd, rs1, imm, fault_pc(cx, pc_off), k,
        ),
        Op::Store { w, rs1, rs2, imm, pc_off } => store_mem(
            cx, dirty, helper_index(cx, op), w, rs1, rs2, imm, fault_pc(cx, pc_off), k,
        ),
        Op::MulDiv { op, rd, rs1, rs2 } => mul_div(cx, op, rd, rs1, rs2, k),
        Op::Amo { w: _, rd, rs1, rs2, funct5, pc_off } => amo_mem(
            cx, dirty, helper_index(cx, op), rd, rs1, rs2, funct5, fault_pc(cx, pc_off), k,
        ),
    }
}

/// Register that the code of an operation itself writes. The destination of a load or
/// an atomic is not among them: the helper writes it, in the state.
pub open spec fn spec_written(op: Op) -> Option<u32> {
    match op {
        Op::Const { rd, .. } | Op::Addi { rd, .. } | Op::Addiw { rd, .. } | Op::Andi { rd, .. }
        | Op::Ori { rd, .. } | Op::Xori { rd, .. } | Op::Slti { rd, .. } | Op::Sltiu { rd, .. }
        | Op::Slli { rd, .. } | Op::Srli { rd, .. } | Op::Srai { rd, .. } | Op::Slliw { rd, .. }
        | Op::Srliw { rd, .. } | Op::Sraiw { rd, .. } | Op::Add { rd, .. } | Op::Sub { rd, .. }
        | Op::And { rd, .. } | Op::Or { rd, .. } | Op::Xor { rd, .. } | Op::Sll { rd, .. }
        | Op::Srl { rd, .. } | Op::Sra { rd, .. } | Op::Slt { rd, .. } | Op::Sltu { rd, .. }
        | Op::Addw { rd, .. } | Op::Subw { rd, .. } | Op::Sllw { rd, .. } | Op::Srlw { rd, .. }
        | Op::Sraw { rd, .. } | Op::MulDiv { rd, .. } => Some(rd),
        Op::Jal { rd, .. } | Op::Jalr { rd, .. } => if rd != 0 { Some(rd) } else { None },
        _ => None,
    }
}

/// Register that the helper of an operation writes.
pub open spec fn spec_helper_dest(op: Op) -> Option<u32> {
    match op {
        Op::Load { rd, .. } | Op::Amo { rd, .. } => if rd != 0 { Some(rd) } else { None },
        _ => None,
    }
}

/// Registers that the code of an operation reads.
pub open spec fn spec_reads(op: Op) -> Seq<u32> {
    match op {
        Op::Const { .. } | Op::Jal { .. } => Seq::empty(),
        Op::Addi { rs1, .. } | Op::Addiw { rs1, .. } | Op::Andi { rs1, .. } | Op::Ori { rs1, .. }
        | Op::Xori { rs1, .. } | Op::Slti { rs1, .. } | Op::Sltiu { rs1, .. }
        | Op::Slli { rs1, .. } | Op::Srli { rs1, .. } | Op::Srai { rs1, .. }
        | Op::Slliw { rs1, .. } | Op::Srliw { rs1, .. } | Op::Sraiw { rs1, .. }
        | Op::Jalr { rs1, .. } | Op::Load { rs1, .. } => seq![rs1],
        Op::Add { rs1, rs2, .. } | Op::Sub { rs1, rs2, .. } | Op::And { rs1, rs2, .. }
        | Op::Or { rs1, rs2, .. } | Op::Xor { rs1, rs2, .. } | Op::Sll { rs1, rs2, .. }
        | Op::Srl { rs1, rs2, .. } | Op::Sra { rs1, rs2, .. } | Op::Slt { rs1, rs2, .. }
        | Op::Sltu { rs1, rs2, .. } | Op::Addw { rs1, rs2, .. } | Op::Subw { rs1, rs2, .. }
        | Op::Sllw { rs1, rs2, .. } | Op::Srlw { rs1, rs2, .. } | Op::Sraw { rs1, rs2, .. }
        | Op::Beq { rs1, rs2, .. } | Op::Bne { rs1, rs2, .. } | Op::Blt { rs1, rs2, .. }
        | Op::Bge { rs1, rs2, .. } | Op::Bltu { rs1, rs2, .. } | Op::Bgeu { rs1, rs2, .. }
        | Op::Store { rs1, rs2, .. } | Op::MulDiv { rs1, rs2, .. } | Op::Amo { rs1, rs2, .. } => seq![
            rs1,
            rs2,
        ],
    }
}

/// `s` with `x` at its end, unless it is there already.
pub open spec fn with_reg(s: Seq<u32>, x: u32) -> Seq<u32> {
    if s.contains(x) {
        s
    } else {
        s.push(x)
    }
}

/// `s` with the elements of `xs` that it lacks.
pub open spec fn with_regs(s: Seq<u32>, xs: Seq<u32>) -> Seq<u32>
    decreases xs.len(),
{
    if xs.len() == 0 {
        s
    } else {
        with_reg(with_regs(s, xs.drop_last()), xs.last())
    }
}

/// `o` as a sequence.
pub open spec fn option_seq(o: Option<u32>) -> Seq<u32> {
    match o {
        Some(x) => seq![x],
        None => Seq::empty(),
    }
}

/// Registers that the code of the operations reads or writes, in order of first
/// appearance.
pub open spec fn code_regs(ops: Seq<Op>) -> Seq<u32>
    decreases ops.len(),
{
    if ops.len() == 0 {
        Seq::empty()
    } else {
        with_regs(
            with_regs(code_regs(ops.drop_last()), spec_reads(ops.last())),
            option_seq(spec_written(ops.last())),
        )
    }
}

/// Registers that helpers write, in order of first appearance.
pub open spec fn helper_dests(ops: Seq<Op>) -> Seq<u32>
    decreases ops.len(),
{
    if ops.len() == 0 {
        Seq::empty()
    } else {
        with_regs(helper_dests(ops.drop_last()), option_seq(spec_helper_dest(ops.last())))
    }
}

/// Two 64-bit registers at these offsets share no byte.
pub open spec fn apart(a: u32, b: u32) -> bool {
    a + 8 <= b || b + 8 <= a
}

/// No two different registers among these share a byte.
pub open spec fn spread(regs: Seq<u32>) -> bool {
    forall|i: int, j: int|
        0 <= i < regs.len() && 0 <= j < regs.len() && i != j ==> apart(
            #[trigger] regs[i],
            #[trigger] regs[j],
        )
}

/// The elements of `s` that are not in `out`, at most `max` of them.
pub open spec fn select(s: Seq<u32>, out: Seq<u32>, max: nat) -> Seq<u32>
    decreases s.len(),
{
    if s.len() == 0 {
        Seq::empty()
    } else {
        let r = select(s.drop_last(), out, max);
        if r.len() < max && !out.contains(s.last()) {
            r.push(s.last())
        } else {
            r
        }
    }
}

/// Registers that a block keeps in locals: those that its code uses and no helper
/// writes. Registers that overlap are not told apart by their offset, so nothing is
/// lifted where there are such.
pub open spec fn lifted_regs(ops: Seq<Op>, lift: bool) -> Seq<u32> {
    let code = code_regs(ops);
    let dests = helper_dests(ops);
    if lift && spread(with_regs(code, dests)) {
        select(code, dests, MAX_LIFTED as nat)
    } else {
        Seq::empty()
    }
}

/// Lifted registers written, after one more operation.
pub open spec fn mark(cx: Cx, dirty: Seq<u32>, op: Op) -> Seq<u32> {
    match spec_written(op) {
        Some(rd) => if cx.lifted.contains(rd) {
            with_reg(dirty, rd)
        } else {
            dirty
        },
        None => dirty,
    }
}

/// Lifted registers written by the operations from `i` on, and those in `dirty`.
pub open spec fn mark_all(ops: Seq<Op>, i: int, cx: Cx, dirty: Seq<u32>) -> Seq<u32>
    decreases ops.len() - i,
{
    if 0 <= i < ops.len() {
        mark_all(ops, i + 1, cx, mark(cx, dirty, ops[i]))
    } else {
        dirty
    }
}

/// The code of the operations from `i` on.
pub open spec fn ops_code(ops: Seq<Op>, i: int, cx: Cx, dirty: Seq<u32>, k: Code) -> Code
    decreases ops.len() - i,
{
    if 0 <= i < ops.len() {
        op_code(ops[i], cx, dirty, ops_code(ops, i + 1, cx, mark(cx, dirty, ops[i]), k))
    } else {
        k
    }
}

/// The operation needs the extra local of the upper-half products.
pub open spec fn spec_is_wide(op: Op) -> bool {
    op matches Op::MulDiv { op, .. } && (op is Mulh || op is Mulhsu || op is Mulhu)
}

/// Some operation needs the extra local of the upper-half products.
pub open spec fn wide(ops: Seq<Op>) -> bool {
    exists|i: int| 0 <= i < ops.len() && spec_is_wide(#[trigger] ops[i])
}

/// Ids of the helpers that the operations call, below `n`, in ascending order.
pub open spec fn used_below(ops: Seq<Op>, n: nat) -> Seq<usize>
    decreases n,
{
    if n == 0 {
        Seq::empty()
    } else {
        let r = used_below(ops, (n - 1) as nat);
        if calls_helper(ops, (n - 1) as usize) {
            r.push((n - 1) as usize)
        } else {
            r
        }
    }
}

/// Some operation calls the helper `id`.
pub open spec fn calls_helper(ops: Seq<Op>, id: usize) -> bool {
    exists|i: int| 0 <= i < ops.len() && spec_helper_id(#[trigger] ops[i]) == Some(id)
}

/// Number of helpers.
pub const HELPERS: usize = 13;

/// Ids of the helpers that the operations call, in ascending order.
pub open spec fn used_helpers(ops: Seq<Op>) -> Seq<usize> {
    used_below(ops, HELPERS as nat)
}

/// What a block is compiled with, besides its operations.
#[derive(Clone, Copy, Debug, PartialEq, Eq, Structural)]
pub struct Config {
    /// pc of the block's first instruction.
    pub start_pc: u64,
    /// pc behind its last.
    pub end_pc: u64,
    /// Number of guest instructions, charged on entry.
    pub n_insns: u32,
    pub tlb: Option<TlbLayout>,
    pub chain: Option<ChainLayout>,
    /// Keep registers in locals.
    pub lift: bool,
}

impl Config {
    /// The layouts are usable where the operations use them.
    pub open spec fn suits(self, ops: Seq<Op>) -> bool {
        &&& self.tlb matches Some(t) ==> forall|i: int|
            0 <= i < ops.len() ==> t.serves(#[trigger] ops[i])
        &&& self.chain matches Some(c) ==> c.wf()
    }

    /// Tests whether the layouts are usable where the operations use them.
    pub fn is_suited(&self, ops: &Vec<Op>) -> (r: bool)
        ensures
            r == self.suits(ops@),
    {
        match &self.chain {
            Some(c) => if !c.is_wf() {
                return false;
            },
            None => {},
        }
        match &self.tlb {
            Some(t) => {
                let mut i: usize = 0;
                while i < ops.len()
                    invariant
                        i <= ops@.len(),
                        self.tlb == Some(*t),
                        forall|j: int| 0 <= j < i ==> t.serves(#[trigger] ops@[j]),
                    decreases ops.len() - i,
                {
                    if !t.can_serve(&ops[i]) {
                        assert(!t.serves(ops@[i as int]));
                        return false;
                    }
                    i = i + 1;
                }
            },
            None => {},
        }
        true
    }
}

/// First local for lifted registers.
pub open spec fn lift_base(ops: Seq<Op>) -> u32 {
    if wide(ops) {
        (FIXED_LOCALS + 1) as u32
    } else {
        FIXED_LOCALS
    }
}

/// The context in which the operations of a block are compiled.
pub open spec fn block_cx(ops: Seq<Op>, cfg: Config) -> Cx {
    Cx {
        start_pc: cfg.start_pc,
        end_pc: cfg.end_pc,
        used: used_helpers(ops),
        tlb: cfg.tlb,
        lifted: lifted_regs(ops, cfg.lift),
        lift_base: lift_base(ops),
    }
}

/// The last operation leaves the next pc on the stack.
pub open spec fn ends_with_terminator(ops: Seq<Op>) -> bool {
    ops.len() > 0 && spec_is_terminator(ops.last())
}

/// Access to a 32-bit word.
pub open spec fn word_arg(off: u32) -> MemArg {
    MemArg { offset: off as u64, align: 2 }
}

/// Takes the block's instructions off the cycle budget.
pub open spec fn charge(chain: ChainLayout, n_insns: u32, k: Code) -> Code {
    instr(
        Instr::LocalGet(0),
        instr(
            Instr::LocalGet(0),
            instr(
                Instr::Load(LoadOp::I32, word_arg(chain.n_cycles_off)),
                instr(
                    Instr::I32Const(n_insns as i32),
                    instr(
                        Instr::I32Bin(IntBin::Sub),
                        instr(Instr::Store(StoreOp::I32, word_arg(chain.n_cycles_off)), k),
                    ),
                ),
            ),
        ),
    )
}

/// Pushes the top `bits` bits of the hash of the pc in local 1 shifted right by
/// `shift`.
pub open spec fn hash_code(shift: u32, bits: u32, k: Code) -> Code {
    instr(
        Instr::LocalGet(1),
        instr(
            Instr::I64Const(shift as i64),
            instr(
                Instr::I64Bin(IntBin::ShrU),
                instr(
                    Instr::I64Const(HASH_MULT as i64),
                    instr(
                        Instr::I64Bin(IntBin::Mul),
                        instr(
                            Instr::I64Const((64 - bits) as i64),
                            instr(Instr::I64Bin(IntBin::ShrU), instr(Instr::I32WrapI64, k)),
                        ),
                    ),
                ),
            ),
        ),
    )
}

/// Compares a field of the map entry in local 3 with the counter at a fixed address.
pub open spec fn gen_check(field_off: u32, counter: u32, k: Code) -> Code {
    instr(
        Instr::LocalGet(3),
        instr(
            Instr::Load(LoadOp::I32, word_arg(field_off)),
            instr(
                Instr::I32Const(0),
                instr(
                    Instr::Load(LoadOp::I32, word_arg(counter)),
                    instr(Instr::I32Rel(IntRel::Eq), k),
                ),
            ),
        ),
    )
}

/// Decides whether the map entry in local 3 is current for the pc in local 1. Pages of
/// the kernel half survive a change of address space, so their user generation does
/// not count.
pub open spec fn entry_check(chain: ChainLayout, k: Code) -> Code {
    instr(
        Instr::LocalGet(1),
        instr(
            Instr::I64Const(KERNEL_HALF_BASE as i64),
            instr(
                Instr::I64Rel(IntRel::GeU),
                gen_check(
                    chain.user_gen_off,
                    chain.user_gen_addr,
                    instr(
                        Instr::I32Bin(IntBin::Or),
                        gen_check(
                            chain.global_gen_off,
                            chain.global_gen_addr,
                            instr(Instr::I32Bin(IntBin::And), page_check(chain, k)),
                        ),
                    ),
                ),
            ),
        ),
    )
}

/// Second half of the decision: the page generation, and that there is a table slot.
pub open spec fn page_check(chain: ChainLayout, k: Code) -> Code {
    instr(
        Instr::LocalGet(3),
        instr(
            Instr::Load(LoadOp::I32, word_arg(chain.page_gen_off)),
            hash_code(
                12,
                chain.page_gen_bits,
                instr(
                    Instr::I32Const(2),
                    instr(
                        Instr::I32Bin(IntBin::Shl),
                        instr(
                            Instr::Load(LoadOp::I32, word_arg(chain.page_gen_base)),
                            instr(
                                Instr::I32Rel(IntRel::Eq),
                                instr(Instr::I32Bin(IntBin::And), slot_check(chain, k)),
                            ),
                        ),
                    ),
                ),
            ),
        ),
    )
}

/// The entry has a table slot.
pub open spec fn slot_check(chain: ChainLayout, k: Code) -> Code {
    instr(
        Instr::LocalGet(3),
        instr(
            Instr::Load(LoadOp::I32, word_arg(chain.fn_idx_off)),
            instr(
                Instr::I32Const(0),
                instr(
                    Instr::I32Rel(IntRel::GtS),
                    instr(Instr::I32Bin(IntBin::And), k),
                ),
            ),
        ),
    )
}

/// Counts the hop and continues in the block of the map entry in local 3.
pub open spec fn hop(chain: ChainLayout) -> Code {
    let hops = MemArg { offset: chain.chain_hops_addr as u64, align: 3 };
    instr(
        Instr::I32Const(0),
        instr(
            Instr::I32Const(0),
            instr(
                Instr::Load(LoadOp::I64, hops),
                instr(
                    Instr::I64Const(1),
                    instr(
                        Instr::I64Bin(IntBin::Add),
                        instr(
                            Instr::Store(StoreOp::I64, hops),
                            instr(
                                Instr::LocalGet(0),
                                instr(
                                    Instr::LocalGet(3),
                                    instr(
                                        Instr::Load(LoadOp::I32, word_arg(chain.fn_idx_off)),
                                        instr(Instr::ReturnCallIndirect(0), Code::Nil),
                                    ),
                                ),
                            ),
                        ),
                    ),
                ),
            ),
        ),
    )
}

/// Looks the next pc up in the map and hops if its entry is current.
pub open spec fn lookup(chain: ChainLayout) -> Code {
    hash_code(
        1,
        chain.map_bits,
        instr(
            Instr::I32Const(chain.entry_size as i32),
            instr(
                Instr::I32Bin(IntBin::Mul),
                instr(
                    Instr::I32Const(chain.map_base as i32),
                    instr(
                        Instr::I32Bin(IntBin::Add),
                        instr(
                            Instr::LocalTee(3),
                            instr(
                                Instr::Load(LoadOp::I64, MemArg { offset: 0, align: 3 }),
                                instr(
                                    Instr::LocalGet(1),
                                    instr(
                                        Instr::I64Rel(IntRel::Eq),
                                        cond(
                                            None,
                                            entry_check(
                                                chain,
                                                cond(None, hop(chain), Code::Nil, Code::Nil),
                                            ),
                                            Code::Nil,
                                            Code::Nil,
                                        ),
                                    ),
                                ),
                            ),
                        ),
                    ),
                ),
            ),
        ),
    )
}

/// With the next pc on the stack: continues in its block if there is budget left and
/// the map has a current entry for it, else goes on with the next pc on the stack.
pub open spec fn epilogue(chain: ChainLayout, k: Code) -> Code {
    instr(
        Instr::LocalSet(1),
        instr(
            Instr::LocalGet(0),
            instr(
                Instr::Load(LoadOp::I32, word_arg(chain.n_cycles_off)),
                instr(
                    Instr::I32Const(0),
                    instr(
                        Instr::I32Rel(IntRel::GtS),
                        cond(None, lookup(chain), Code::Nil, instr(Instr::LocalGet(1), k)),
                    ),
                ),
            ),
        ),
    )
}

/// The code behind the operations.
pub open spec fn exit_code(ops: Seq<Op>, cfg: Config) -> Code {
    let cx = block_cx(ops, cfg);
    let tail = match cfg.chain {
        Some(chain) => epilogue(chain, Code::Nil),
        None => Code::Nil,
    };
    let spilled = spill(cx, mark_all(ops, 0, cx, Seq::empty()), tail);
    if ends_with_terminator(ops) {
        spilled
    } else {
        instr(Instr::I64Const(cfg.end_pc as i64), spilled)
    }
}

/// The code of a block.
pub open spec fn block_code(ops: Seq<Op>, cfg: Config) -> Code {
    let cx = block_cx(ops, cfg);
    let body = fill(
        cx,
        cx.lifted.len(),
        ops_code(ops, 0, cx, Seq::empty(), exit_code(ops, cfg)),
    );
    match cfg.chain {
        Some(chain) => charge(chain, cfg.n_insns, body),
        None => body,
    }
}

} // verus!
