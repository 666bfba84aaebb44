//! What a basic block means, instruction by instruction, on the guest's machine state.
//!
//! The state lives in linear memory: a register is the 64-bit word at its offset from the
//! state pointer. The meaning is that of the RISC-V instructions, with memory accesses
//! through the guest's TLB and helpers, and with the cycle budget and the block map that
//! chaining uses. Nothing here speaks of compiled code.

use vstd::prelude::*;
use vstd::arithmetic::power2::pow2;
use crate::arith::{s32, s64, sext32, tdiv, trem, u32w, u64w};
use crate::ir::{spec_is_terminator, MulDivOp, Op};
use crate::machine::{
    after_call, call_result, load32, load64, load_ext, store, store_width, Env, HelperCall, World,
};
use crate::shape::{
    load_bytes, load_op, spec_helper_id, spec_reads, spec_tag_mask, spec_written, store_bytes,
    store_op, ChainLayout, Config, TlbLayout, HASH_MULT, KERNEL_HALF_BASE,
};

verus! {

/// How one instruction ends.
pub enum Step {
    /// The next instruction of the block follows.
    Next(World),
    /// The block is left for the given pc.
    Exit(u64, World),
    /// The instruction faulted. The pc is its own with bit 0 set.
    Fault(u64, World),
    /// An access outside linear memory.
    Trap,
}

/// How a block ends.
pub enum BlockEnd {
    /// Control returns to the dispatcher with a pc.
    Return(u64, World),
    /// Control passes to the block in a table slot, with its argument.
    Hop { slot: u32, arg: u32, world: World },
    /// An access outside linear memory.
    Trap,
    /// Not the end of a well-formed block.
    Stuck,
}

/// The value of a register.
pub open spec fn reg(w: World, sp: u32, r: u32) -> Option<u64> {
    load64(w.mem, sp + r)
}

/// The world after a register has been written.
pub open spec fn put_reg(w: World, sp: u32, r: u32, v: u64) -> Option<World> {
    match store(w.mem, sp + r, 8, v as nat) {
        Some(mem) => Some(World { mem, ..w }),
        None => None,
    }
}

/// The truth value as a register holds it.
pub open spec fn truth(b: bool) -> u64 {
    if b {
        1
    } else {
        0
    }
}

/// Products, quotients and remainders. A division by zero gives all ones, and leaves the
/// dividend as remainder; the quotient that overflows wraps around.
pub open spec fn mul_div_value(op: MulDivOp, a: u64, b: u64) -> u64 {
    let x = u32w(a as int);
    let y = u32w(b as int);
    match op {
        MulDivOp::Mul => u64w(s64(a) * s64(b)),
        MulDivOp::Mulh => u64w((s64(a) * s64(b)) / 0x1_0000_0000_0000_0000),
        MulDivOp::Mulhsu => u64w((s64(a) * b) / 0x1_0000_0000_0000_0000),
        MulDivOp::Mulhu => u64w((a * b) / 0x1_0000_0000_0000_0000),
        MulDivOp::Div => if b == 0 {
            u64::MAX
        } else {
            u64w(tdiv(s64(a), s64(b)))
        },
        MulDivOp::Divu => if b == 0 {
            u64::MAX
        } else {
            a / b
        },
        MulDivOp::Rem => if b == 0 {
            a
        } else {
            u64w(trem(s64(a), s64(b)))
        },
        MulDivOp::Remu => if b == 0 {
            a
        } else {
            a % b
        },
        MulDivOp::Mulw => sext32(u32w(s32(x) * s32(y))),
        MulDivOp::Divw => if y == 0 {
            u64::MAX
        } else {
            sext32(u32w(tdiv(s32(x), s32(y))))
        },
        MulDivOp::Divuw => if y == 0 {
            u64::MAX
        } else {
            sext32(x / y)
        },
        MulDivOp::Remw => if y == 0 {
            sext32(x)
        } else {
            sext32(u32w(trem(s32(x), s32(y))))
        },
        MulDivOp::Remuw => if y == 0 {
            sext32(x)
        } else {
            sext32(x % y)
        },
    }
}

/// What an operation that only computes writes to its destination, for the values `a` and
/// `b` of its source registers.
pub open spec fn value(op: Op, a: u64, b: u64) -> u64 {
    let x = u32w(a as int);
    let y = u32w(b as int);
    match op {
        Op::Const { imm, .. } => u64w(imm as int),
        Op::Addi { imm, .. } => u64w(a + imm),
        Op::Addiw { imm, .. } => sext32(u32w(a + imm)),
        Op::Andi { imm, .. } => a & u64w(imm as int),
        Op::Ori { imm, .. } => a | u64w(imm as int),
        Op::Xori { imm, .. } => a ^ u64w(imm as int),
        Op::Slti { imm, .. } => truth(s64(a) < imm),
        Op::Sltiu { imm, .. } => truth(a < u64w(imm as int)),
        Op::Slli { shamt, .. } => u64w(a * pow2(shamt as nat % 64)),
        Op::Srli { shamt, .. } => u64w(a as int / pow2(shamt as nat % 64) as int),
        Op::Srai { shamt, .. } => u64w(s64(a) / pow2(shamt as nat % 64) as int),
        Op::Slliw { shamt, .. } => sext32(u32w(x * pow2(shamt as nat % 32))),
        Op::Srliw { shamt, .. } => sext32(u32w(x as int / pow2(shamt as nat % 32) as int)),
        Op::Sraiw { shamt, .. } => sext32(u32w(s32(x) / pow2(shamt as nat % 32) as int)),
        Op::Add { .. } => u64w(a + b),
        Op::Sub { .. } => u64w(a - b),
        Op::And { .. } => a & b,
        Op::Or { .. } => a | b,
        Op::Xor { .. } => a ^ b,
        Op::Sll { .. } => u64w(a * pow2(b as nat % 64)),
        Op::Srl { .. } => u64w(a as int / pow2(b as nat % 64) as int),
        Op::Sra { .. } => u64w(s64(a) / pow2(b as nat % 64) as int),
        Op::Slt { .. } => truth(s64(a) < s64(b)),
        Op::Sltu { .. } => truth(a < b),
        Op::Addw { .. } => sext32(u32w(a + b)),
        Op::Subw { .. } => sext32(u32w(a - b)),
        Op::Sllw { .. } => sext32(u32w(x * pow2(b as nat % 32))),
        Op::Srlw { .. } => sext32(u32w(x as int / pow2(b as nat % 32) as int)),
        Op::Sraw { .. } => sext32(u32w(s32(x) / pow2(b as nat % 32) as int)),
        Op::MulDiv { op, .. } => mul_div_value(op, a, b),
        _ => 0,
    }
}

/// Whether a conditional branch is taken.
pub open spec fn taken(op: Op, a: u64, b: u64) -> bool {
    match op {
        Op::Beq { .. } => a == b,
        Op::Bne { .. } => a != b,
        Op::Blt { .. } => s64(a) < s64(b),
        Op::Bge { .. } => s64(a) >= s64(b),
        Op::Bltu { .. } => a < b,
        Op::Bgeu { .. } => a >= b,
        _ => false,
    }
}

/// The `i`-th source register's value; 0 if the operation has none.
pub open spec fn source(op: Op, i: int, w: World, sp: u32) -> Option<u64> {
    if i < spec_reads(op).len() {
        reg(w, sp, spec_reads(op)[i])
    } else {
        Some(0)
    }
}

/// Address of the TLB entry that is probed for `addr`, without the table's offset.
pub open spec fn tlb_entry(t: TlbLayout, addr: u64, sp: u32) -> u32 {
    let index = u32w(addr as int / pow2(t.pg_shift as nat) as int) & t.idx_mask;
    u32w(sp + index * pow2(t.entry_shift as nat % 32))
}

/// Looks `addr` up for an access of `bytes` bytes in the table at `tlb_off`: the address
/// in linear memory on a hit. `None` if the probe itself is out of bounds.
pub open spec fn tlb_lookup(
    t: TlbLayout,
    tlb_off: u32,
    bytes: u64,
    addr: u64,
    mem: Seq<u8>,
    sp: u32,
) -> Option<Option<u32>> {
    let entry = tlb_entry(t, addr, sp);
    match load64(mem, entry + tlb_off + t.vaddr_off) {
        Some(tag) => if tag == addr & spec_tag_mask(t.pg_shift, bytes) {
            match load32(mem, entry + tlb_off + t.addend_off) {
                Some(addend) => Some(Some(u32w(addend + addr))),
                None => None,
            }
        } else {
            Some(None)
        },
        None => None,
    }
}

/// pc of the instruction at `pc_off` of the block, as a fault at it is reported.
pub open spec fn tagged_pc(start_pc: u64, pc_off: u32) -> u64 {
    u64w(start_pc + pc_off) | 1
}

/// The embedder performs an access: it reports zero, or a fault.
pub open spec fn helped(call: HelperCall, tagged: u64, w: World, env: Env) -> Step {
    if call_result(env, call, w) != 0 {
        Step::Fault(tagged, after_call(env, call, w))
    } else {
        Step::Next(after_call(env, call, w))
    }
}

/// The address at which `op` accesses memory, for the value of its base register.
pub open spec fn effective(op: Op, base: u64) -> u64 {
    match op {
        Op::Load { imm, .. } | Op::Store { imm, .. } => u64w(base + imm),
        _ => base,
    }
}

/// Performs a load. A load to x0 is still performed.
pub open spec fn load_step(op: Op, cfg: Config, addr: u64, w: World, sp: u32, env: Env) -> Step
    recommends
        op is Load,
{
    let id = spec_helper_id(op)->0;
    let width = op->Load_w;
    let rd = op->Load_rd;
    let call = HelperCall::Load { id, state: sp, addr, rd_off: rd };
    let tagged = tagged_pc(cfg.start_pc, op->Load_pc_off);
    match cfg.tlb {
        None => helped(call, tagged, w, env),
        Some(t) => match tlb_lookup(t, t.tlb_read_off, load_bytes(width), addr, w.mem, sp) {
            None => Step::Trap,
            Some(None) => helped(call, tagged, w, env),
            Some(Some(host)) => match load_ext(load_op(width), w.mem, host as int) {
                None => Step::Trap,
                Some(v) => if rd == 0 {
                    Step::Next(w)
                } else {
                    match put_reg(w, sp, rd, v) {
                        Some(w) => Step::Next(w),
                        None => Step::Trap,
                    }
                },
            },
        },
    }
}

/// Performs a store of `val`.
pub open spec fn store_step(
    op: Op,
    cfg: Config,
    addr: u64,
    val: u64,
    w: World,
    sp: u32,
    env: Env,
) -> Step
    recommends
        op is Store,
{
    let id = spec_helper_id(op)->0;
    let width = op->Store_w;
    let call = HelperCall::Store { id, state: sp, addr, val };
    let tagged = tagged_pc(cfg.start_pc, op->Store_pc_off);
    match cfg.tlb {
        None => helped(call, tagged, w, env),
        Some(t) => match tlb_lookup(t, t.tlb_write_off, store_bytes(width), addr, w.mem, sp) {
            None => Step::Trap,
            Some(None) => helped(call, tagged, w, env),
            Some(Some(host)) => match store(
                w.mem,
                host as int,
                store_width(store_op(width)),
                val as nat,
            ) {
                Some(mem) => Step::Next(World { mem, ..w }),
                None => Step::Trap,
            },
        },
    }
}

/// Writes the link pc unless the link register is x0, and leaves for `pc`.
pub open spec fn jump(rd: u32, link: u64, pc: u64, w: World, sp: u32) -> Step {
    if rd == 0 {
        Step::Exit(pc, w)
    } else {
        match put_reg(w, sp, rd, link) {
            Some(w) => Step::Exit(pc, w),
            None => Step::Trap,
        }
    }
}

/// One operation, for the values of its source registers.
pub open spec fn op_step_with(
    op: Op,
    cfg: Config,
    a: u64,
    b: u64,
    w: World,
    sp: u32,
    env: Env,
) -> Step {
    match op {
        Op::Load { .. } => load_step(op, cfg, effective(op, a), w, sp, env),
        Op::Store { .. } => store_step(op, cfg, effective(op, a), b, w, sp, env),
        Op::Amo { rd, funct5, pc_off, .. } => helped(
            HelperCall::Amo {
                id: spec_helper_id(op)->0,
                state: sp,
                addr: effective(op, a),
                val: b,
                funct5,
                rd_off: rd,
            },
            tagged_pc(cfg.start_pc, pc_off),
            w,
            env,
        ),
        Op::Jal { rd, target_pc } => jump(rd, cfg.end_pc, u64w(target_pc as int), w, sp),
        Op::Jalr { rd, imm, .. } => {
            let sum = u64w(a + imm);
            jump(rd, cfg.end_pc, (sum - sum % 2) as u64, w, sp)
        },
        Op::Beq { target_pc, .. } | Op::Bne { target_pc, .. } | Op::Blt { target_pc, .. }
        | Op::Bge { target_pc, .. } | Op::Bltu { target_pc, .. }
        | Op::Bgeu { target_pc, .. } => Step::Exit(
            if taken(op, a, b) {
                u64w(target_pc as int)
            } else {
                cfg.end_pc
            },
            w,
        ),
        _ => match put_reg(w, sp, spec_written(op)->0, value(op, a, b)) {
            Some(w) => Step::Next(w),
            None => Step::Trap,
        },
    }
}

/// One operation.
#[verifier::opaque]
pub open spec fn op_step(op: Op, cfg: Config, w: World, sp: u32, env: Env) -> Step {
    match source(op, 0, w, sp) {
        Some(a) => match source(op, 1, w, sp) {
            Some(b) => op_step_with(op, cfg, a, b, w, sp, env),
            None => Step::Trap,
        },
        None => Step::Trap,
    }
}

/// The operations from `i` on. A block whose last operation does not choose the next pc
/// goes on at its end.
pub open spec fn ops_run(ops: Seq<Op>, i: int, cfg: Config, w: World, sp: u32, env: Env) -> Step
    decreases ops.len() - i,
{
    if 0 <= i < ops.len() {
        match op_step(ops[i], cfg, w, sp, env) {
            Step::Next(w) => ops_run(ops, i + 1, cfg, w, sp, env),
            s => s,
        }
    } else {
        Step::Exit(cfg.end_pc, w)
    }
}

/// Takes the block's instructions off the cycle budget.
pub open spec fn charged(chain: ChainLayout, n_insns: u32, w: World, sp: u32) -> Option<World> {
    match load32(w.mem, sp + chain.n_cycles_off) {
        Some(n) => match store(
            w.mem,
            sp + chain.n_cycles_off,
            4,
            u32w(n - n_insns) as nat,
        ) {
            Some(mem) => Some(World { mem, ..w }),
            None => None,
        },
        None => None,
    }
}

/// Multiplicative hash: the top `bits` bits.
pub open spec fn hash(x: int, bits: u32) -> u32 {
    u32w(u64w(x * HASH_MULT) as int / pow2((64 - bits) as nat) as int)
}

/// Address of the map entry in which `pc` would be.
pub open spec fn map_entry(chain: ChainLayout, pc: u64) -> u32 {
    u32w(chain.map_base + hash(pc as int / 2, chain.map_bits) * chain.entry_size)
}

/// Address of the generation counter of the page of `pc`, without the counters' base.
pub open spec fn page_counter(chain: ChainLayout, pc: u64) -> u32 {
    u32w(hash(pc as int / 4096, chain.page_gen_bits) * 4)
}

/// The table slot that the map has for `pc`, if its entry is for that pc, is current, and
/// has a slot. Entries of the kernel half are current whatever the user generation: it is
/// mapped in every address space. `None` if the map is out of bounds.
pub open spec fn map_lookup(chain: ChainLayout, pc: u64, mem: Seq<u8>) -> Option<Option<u32>> {
    let e = map_entry(chain, pc);
    match load64(mem, e as int) {
        Some(tag) => if tag != pc {
            Some(None)
        } else {
            match (
                load32(mem, e + chain.user_gen_off),
                load32(mem, chain.user_gen_addr as int),
                load32(mem, e + chain.global_gen_off),
                load32(mem, chain.global_gen_addr as int),
                load32(mem, e + chain.page_gen_off),
                load32(mem, page_counter(chain, pc) + chain.page_gen_base),
                load32(mem, e + chain.fn_idx_off),
            ) {
                (
                    Some(user),
                    Some(user_now),
                    Some(global),
                    Some(global_now),
                    Some(page),
                    Some(page_now),
                    Some(slot),
                ) => if (pc >= KERNEL_HALF_BASE || user == user_now) && global == global_now && page
                    == page_now && s32(slot) > 0 {
                    Some(Some(slot))
                } else {
                    Some(None)
                },
                _ => None,
            }
        },
        None => None,
    }
}

/// Counts a hop.
pub open spec fn counted(chain: ChainLayout, w: World) -> Option<World> {
    match load64(w.mem, chain.chain_hops_addr as int) {
        Some(n) => match store(w.mem, chain.chain_hops_addr as int, 8, u64w(n + 1) as nat) {
            Some(mem) => Some(World { mem, ..w }),
            None => None,
        },
        None => None,
    }
}

/// Leaves a block for `pc`: straight to its block if the cycle budget is not used up and
/// the map has a current entry for it, else to the dispatcher.
pub open spec fn chain_exit(chain: ChainLayout, pc: u64, w: World, sp: u32) -> BlockEnd {
    match load32(w.mem, sp + chain.n_cycles_off) {
        Some(n) => if s32(n) <= 0 {
            BlockEnd::Return(pc, w)
        } else {
            match map_lookup(chain, pc, w.mem) {
                None => BlockEnd::Trap,
                Some(None) => BlockEnd::Return(pc, w),
                Some(Some(_)) => match counted(chain, w) {
                    None => BlockEnd::Trap,
                    // The slot is read after the hop has been counted.
                    Some(w) => match load32(
                        w.mem,
                        map_entry(chain, pc) + chain.fn_idx_off,
                    ) {
                        Some(slot) => BlockEnd::Hop { slot, arg: sp, world: w },
                        None => BlockEnd::Trap,
                    },
                },
            }
        },
        None => BlockEnd::Trap,
    }
}

/// Leaves a block. A fault always goes to the dispatcher.
pub open spec fn block_exit(cfg: Config, s: Step, sp: u32) -> BlockEnd {
    match s {
        Step::Exit(pc, w) => match cfg.chain {
            Some(chain) => chain_exit(chain, pc, w, sp),
            None => BlockEnd::Return(pc, w),
        },
        Step::Fault(pc, w) => BlockEnd::Return(pc, w),
        Step::Trap => BlockEnd::Trap,
        Step::Next(_) => BlockEnd::Stuck,
    }
}

/// What a block does.
pub open spec fn block_run(ops: Seq<Op>, cfg: Config, w: World, sp: u32, env: Env) -> BlockEnd {
    let start = match cfg.chain {
        Some(chain) => charged(chain, cfg.n_insns, w, sp),
        None => Some(w),
    };
    match start {
        Some(w) => block_exit(cfg, ops_run(ops, 0, cfg, w, sp, env), sp),
        None => BlockEnd::Trap,
    }
}

/// Only the last operation of a block chooses the next pc.
pub open spec fn well_ended(ops: Seq<Op>) -> bool {
    forall|i: int| 0 <= i < ops.len() - 1 ==> !spec_is_terminator(#[trigger] ops[i])
}

} // verus!
