//! How loads, stores and atomics reach memory: through the guest's helpers, or straight where
//! its TLB has the page.

use vstd::prelude::*;
use vstd::arithmetic::power2::pow2;
use vstd::bits::lemma_u64_shr_is_div;
use crate::arith::{lemma_casts, u64w};
use crate::codegen::MEM_HELPER_EXPORTS;
use crate::guest::{load_step, op_step, store_step, tagged_pc, tlb_entry, tlb_lookup, Step};
use crate::ir::{AmoW, LoadW, Op, StoreW};
use crate::laws::helper_name;
use crate::machine::{load_ext, store, store_width, Env, HelperCall, World};
use crate::meaning::{cong, si, there};
use crate::places::{held, inside, lemma_sums, lemma_written, same_but, sum2, sum4, sum8};
use crate::shape::{
    load_bytes, load_op, spec_helper_id, store_bytes, store_op, Config, TlbLayout,
};

verus! {

/// The id stands for the helper that the guest exports under the operation's name.
pub open spec fn named(id: usize, op: Op) -> bool {
    id < 13 && helper_name(op) == Some(MEM_HELPER_EXPORTS[id as int]@)
}

/// The pc of the instruction at `pc_off` of a block, with its lowest bit set.
pub open spec fn marks(pc: u64, start_pc: u64, pc_off: u32) -> bool {
    &&& pc % 2 == 1
    &&& cong(pc as int, start_pc + pc_off, 0x1_0000_0000_0000_0000) || cong(
        pc - 1,
        start_pc + pc_off,
        0x1_0000_0000_0000_0000,
    )
}

/// The helper has been called once, with these arguments: the memory is as it has left it, and
/// the instruction has faulted if and only if it has answered with a number other than zero.
pub open spec fn asked(
    after: Step,
    call: HelperCall,
    start_pc: u64,
    pc_off: u32,
    w: World,
    env: Env,
) -> bool {
    let (mem, answer) = (env.host)(call, w);
    let w2 = World { mem, calls: w.calls.push(call) };
    if answer == 0 {
        after == Step::Next(w2)
    } else {
        after matches Step::Fault(pc, w3) && w3 == w2 && marks(pc, start_pc, pc_off)
    }
}

/// The address that is accessed: the base register's number with the immediate added.
pub open spec fn accessed(addr: u64, base: u64, imm: int) -> bool {
    cong(addr as int, base + imm, 0x1_0000_0000_0000_0000)
}

/// **A load asks for its own access.** Without a TLB, a load calls the helper of its width
/// with the state, the address and its destination.
pub proof fn law_load(op: Op, cfg: Config, w: World, sp: u32, env: Env, addr: u64, id: usize)
    requires
        cfg.tlb is None,
        named(id, op),
    ensures
        op matches Op::Load { rd, rs1, imm, pc_off, .. } ==> if !there(w, sp, Some(rs1)) {
            op_step(op, cfg, w, sp, env) is Trap
        } else {
            accessed(addr, held(w.mem, sp + rs1), imm as int) ==> asked(
                op_step(op, cfg, w, sp, env),
                HelperCall::Load { id, state: sp, addr, rd_off: rd },
                cfg.start_pc,
                pc_off,
                w,
                env,
            )
        },
{
    reveal(op_step);
    lemma_named(id, op);
    if let Op::Load { rs1, imm, pc_off, .. } = op {
        lemma_sums(w.mem, sp + rs1);
        lemma_addr(addr, held(w.mem, sp + rs1), imm as int);
        lemma_marks(cfg.start_pc, pc_off);
    }
}

/// **A store asks for its own access.** Without a TLB, a store calls the helper of its width
/// with the state, the address and its second source's number.
pub proof fn law_store(op: Op, cfg: Config, w: World, sp: u32, env: Env, addr: u64, id: usize)
    requires
        cfg.tlb is None,
        named(id, op),
    ensures
        op matches Op::Store { rs1, rs2, imm, pc_off, .. } ==> if !there(w, sp, Some(rs1))
            || !there(w, sp, Some(rs2)) {
            op_step(op, cfg, w, sp, env) is Trap
        } else {
            accessed(addr, held(w.mem, sp + rs1), imm as int) ==> asked(
                op_step(op, cfg, w, sp, env),
                HelperCall::Store { id, state: sp, addr, val: held(w.mem, sp + rs2) },
                cfg.start_pc,
                pc_off,
                w,
                env,
            )
        },
{
    reveal(op_step);
    lemma_named(id, op);
    if let Op::Store { rs1, rs2, imm, pc_off, .. } = op {
        lemma_sums(w.mem, sp + rs1);
        lemma_sums(w.mem, sp + rs2);
        lemma_addr(addr, held(w.mem, sp + rs1), imm as int);
        lemma_marks(cfg.start_pc, pc_off);
    }
}

/// **An atomic always asks.** It calls the helper of its width with the state, the address in
/// its first source, its second source's number, its function code and its destination,
/// whatever the TLB has.
pub proof fn law_amo(op: Op, cfg: Config, w: World, sp: u32, env: Env, id: usize)
    requires
        named(id, op),
    ensures
        op matches Op::Amo { rd, rs1, rs2, funct5, pc_off, .. } ==> if !there(w, sp, Some(rs1))
            || !there(w, sp, Some(rs2)) {
            op_step(op, cfg, w, sp, env) is Trap
        } else {
            asked(
                op_step(op, cfg, w, sp, env),
                HelperCall::Amo {
                    id,
                    state: sp,
                    addr: held(w.mem, sp + rs1),
                    val: held(w.mem, sp + rs2),
                    funct5,
                    rd_off: rd,
                },
                cfg.start_pc,
                pc_off,
                w,
                env,
            )
        },
{
    reveal(op_step);
    lemma_named(id, op);
    if let Op::Amo { rs1, rs2, pc_off, .. } = op {
        lemma_sums(w.mem, sp + rs1);
        lemma_sums(w.mem, sp + rs2);
        lemma_marks(cfg.start_pc, pc_off);
    }
}

/// Bytes that an access touches.
pub open spec fn width(op: Op) -> u64 {
    match op {
        Op::Load { w: LoadW::B, .. } | Op::Load { w: LoadW::Bu, .. }
        | Op::Store { w: StoreW::B, .. } => 1,
        Op::Load { w: LoadW::H, .. } | Op::Load { w: LoadW::Hu, .. }
        | Op::Store { w: StoreW::H, .. } => 2,
        Op::Load { w: LoadW::W, .. } | Op::Load { w: LoadW::Wu, .. }
        | Op::Store { w: StoreW::W, .. } | Op::Amo { w: AmoW::W, .. } => 4,
        _ => 8,
    }
}

/// The entry of the TLB that is probed for an address: its page number selects it.
pub open spec fn probed(e: u32, t: TlbLayout, addr: u64, sp: u32) -> bool {
    let page = addr >> (t.pg_shift as u64);
    let index = (page as u32) & t.idx_mask;
    cong(e as int, sp + index * pow2(t.entry_shift as nat % 32), 0x1_0000_0000)
}

/// The entry's tag is the address without its offset in the page, and the access is aligned.
pub open spec fn tagged(e: u32, t: TlbLayout, off: u32, n: u64, addr: u64, mem: Seq<u8>) -> bool {
    held(mem, e + off + t.vaddr_off) == addr & !(((1u64 << t.pg_shift) - 1) as u64 & !((n
        - 1) as u64))
}

/// Where in memory an address is that the entry maps.
pub open spec fn mapped(
    host: u32,
    e: u32,
    t: TlbLayout,
    off: u32,
    addr: u64,
    mem: Seq<u8>,
) -> bool {
    cong(host as int, sum4(mem, e + off + t.addend_off) + addr, 0x1_0000_0000)
}

/// The register's number is that of the bytes, extended as the load says.
pub open spec fn extended(width: LoadW, v: u64, mem: Seq<u8>, at: int) -> bool {
    match width {
        LoadW::B => -0x80 <= si(v) < 0x80 && cong(v as int, mem[at] as int, 0x100),
        LoadW::H => -0x8000 <= si(v) < 0x8000 && cong(v as int, sum2(mem, at), 0x1_0000),
        LoadW::W => -0x8000_0000 <= si(v) < 0x8000_0000 && cong(
            v as int,
            sum4(mem, at),
            0x1_0000_0000,
        ),
        LoadW::D => v == sum8(mem, at),
        LoadW::Bu => v == mem[at],
        LoadW::Hu => v == sum2(mem, at),
        LoadW::Wu => v == sum4(mem, at),
    }
}

/// **A load that hits the TLB reads memory itself.** Where the entry for its page has the tag of
/// its address, a load calls nobody: its destination gets the bytes at the mapped address,
/// extended as the load says, and nothing else changes. Where it does not, the load asks.
#[verifier::spinoff_prover]
#[verifier::rlimit(40)]
pub proof fn law_load_probed(
    op: Op,
    t: TlbLayout,
    cfg: Config,
    w: World,
    sp: u32,
    env: Env,
    addr: u64,
    id: usize,
    e: u32,
    host: u32,
)
    requires
        cfg.tlb == Some(t),
        t.serves(op),
        named(id, op),
        op matches Op::Load { rs1, imm, .. } ==> there(w, sp, Some(rs1)) && accessed(
            addr,
            held(w.mem, sp + rs1),
            imm as int,
        ),
        probed(e, t, addr, sp),
        inside(w.mem, e + t.tlb_read_off + t.vaddr_off, 8),
    ensures
        op matches Op::Load { w: kind, rd, pc_off, .. } ==> {
            let after = op_step(op, cfg, w, sp, env);
            if tagged(e, t, t.tlb_read_off, width(op), addr, w.mem) {
                inside(w.mem, e + t.tlb_read_off + t.addend_off, 4) && mapped(
                    host,
                    e,
                    t,
                    t.tlb_read_off,
                    addr,
                    w.mem,
                ) ==> if !inside(w.mem, host as int, width(op) as int) || (rd != 0 && !there(
                    w,
                    sp,
                    Some(rd),
                )) {
                    after is Trap
                } else {
                    after matches Step::Next(w2) && if rd == 0 {
                        w2 == w
                    } else {
                        w2.calls == w.calls && same_but(w.mem, w2.mem, sp + rd, 8) && extended(
                            kind,
                            held(w2.mem, sp + rd),
                            w.mem,
                            host as int,
                        )
                    }
                }
            } else {
                asked(
                    after,
                    HelperCall::Load { id, state: sp, addr, rd_off: rd },
                    cfg.start_pc,
                    pc_off,
                    w,
                    env,
                )
            }
        },
{
    reveal(op_step);
    lemma_named(id, op);
    if let Op::Load { w: kind, rd, rs1, imm, pc_off } = op {
        lemma_sums(w.mem, sp + rs1);
        lemma_addr(addr, held(w.mem, sp + rs1), imm as int);
        lemma_marks(cfg.start_pc, pc_off);
        lemma_lookup(t, t.tlb_read_off, width(op), addr, w.mem, sp, e, host);
        assert(load_bytes(kind) == width(op));
        lemma_reads(kind, w.mem, host as int);
        if let Some(v) = load_ext(load_op(kind), w.mem, host as int) {
            lemma_written(w.mem, sp + rd, v);
        }
        assert(op_step(op, cfg, w, sp, env) == load_step(op, cfg, addr, w, sp, env));
    }
}

/// The low-order bytes of a number are at `at`, as many as the store writes.
pub open spec fn laid(width: StoreW, v: u64, mem: Seq<u8>, at: int) -> bool {
    match width {
        StoreW::B => mem[at] == v % 0x100,
        StoreW::H => sum2(mem, at) == v % 0x1_0000,
        StoreW::W => sum4(mem, at) == v % 0x1_0000_0000,
        StoreW::D => sum8(mem, at) == v,
    }
}

/// **A store that hits the TLB writes memory itself.** Where the entry for its page has the tag
/// of its address, a store calls nobody: as many low-order bytes of its second source as its
/// width are at the mapped address, and nothing else changes. Where it does not, the store
/// asks.
#[verifier::spinoff_prover]
#[verifier::rlimit(40)]
pub proof fn law_store_probed(
    op: Op,
    t: TlbLayout,
    cfg: Config,
    w: World,
    sp: u32,
    env: Env,
    addr: u64,
    id: usize,
    e: u32,
    host: u32,
)
    requires
        cfg.tlb == Some(t),
        t.serves(op),
        named(id, op),
        op matches Op::Store { rs1, rs2, imm, .. } ==> there(w, sp, Some(rs1)) && there(
            w,
            sp,
            Some(rs2),
        ) && accessed(addr, held(w.mem, sp + rs1), imm as int),
        probed(e, t, addr, sp),
        inside(w.mem, e + t.tlb_write_off + t.vaddr_off, 8),
    ensures
        op matches Op::Store { w: kind, rs2, pc_off, .. } ==> {
            let after = op_step(op, cfg, w, sp, env);
            let val = held(w.mem, sp + rs2);
            if tagged(e, t, t.tlb_write_off, width(op), addr, w.mem) {
                inside(w.mem, e + t.tlb_write_off + t.addend_off, 4) && mapped(
                    host,
                    e,
                    t,
                    t.tlb_write_off,
                    addr,
                    w.mem,
                ) ==> if inside(w.mem, host as int, width(op) as int) {
                    after matches Step::Next(w2) && w2.calls == w.calls && same_but(
                        w.mem,
                        w2.mem,
                        host as int,
                        width(op) as int,
                    ) && laid(kind, val, w2.mem, host as int)
                } else {
                    after is Trap
                }
            } else {
                asked(
                    after,
                    HelperCall::Store { id, state: sp, addr, val },
                    cfg.start_pc,
                    pc_off,
                    w,
                    env,
                )
            }
        },
{
    reveal(op_step);
    lemma_named(id, op);
    if let Op::Store { w: kind, rs1, rs2, imm, pc_off } = op {
        lemma_sums(w.mem, sp + rs1);
        lemma_sums(w.mem, sp + rs2);
        lemma_addr(addr, held(w.mem, sp + rs1), imm as int);
        lemma_marks(cfg.start_pc, pc_off);
        lemma_lookup(t, t.tlb_write_off, width(op), addr, w.mem, sp, e, host);
        assert(store_bytes(kind) == width(op));
        let val = held(w.mem, sp + rs2);
        lemma_writes(kind, w.mem, host as int, val);
        assert(op_step(op, cfg, w, sp, env) == store_step(op, cfg, addr, val, w, sp, env));
    }
}

/// Names are told apart by their letters.
proof fn lemma_named(id: usize, op: Op)
    requires
        named(id, op),
    ensures
        spec_helper_id(op) == Some(id),
{
    reveal_strlit("c2w_jit_lb");
    reveal_strlit("c2w_jit_lh");
    reveal_strlit("c2w_jit_lw");
    reveal_strlit("c2w_jit_ld");
    reveal_strlit("c2w_jit_lbu");
    reveal_strlit("c2w_jit_lhu");
    reveal_strlit("c2w_jit_lwu");
    reveal_strlit("c2w_jit_sb");
    reveal_strlit("c2w_jit_sh");
    reveal_strlit("c2w_jit_sw");
    reveal_strlit("c2w_jit_sd");
    reveal_strlit("c2w_jit_amo_w");
    reveal_strlit("c2w_jit_amo_d");
    let a = MEM_HELPER_EXPORTS[id as int]@;
    let b = helper_name(op)->0;
    assert(a.len() == b.len());
    assert(a[8] == b[8]);
    assert(a[9] == b[9]);
    assert(a.len() > 10 ==> a[10] == b[10]);
    assert(a.len() > 12 ==> a[12] == b[12]);
}

pub proof fn lemma_addr(addr: u64, base: u64, imm: int)
    ensures
        accessed(addr, base, imm) ==> addr == u64w(base + imm),
{
}

proof fn lemma_marks(start_pc: u64, pc_off: u32)
    ensures
        marks(tagged_pc(start_pc, pc_off), start_pc, pc_off),
{
    let p = u64w(start_pc + pc_off);
    assert((p | 1) == p + 1 - p % 2) by (bit_vector);
}

pub proof fn lemma_probed(e: u32, t: TlbLayout, addr: u64, sp: u32)
    requires
        probed(e, t, addr, sp),
        t.pg_shift < 64,
    ensures
        e == tlb_entry(t, addr, sp),
{
    let page = addr >> (t.pg_shift as u64);
    lemma_u64_shr_is_div(addr, t.pg_shift as u64);
    assert(page as u32 == page % 0x1_0000_0000) by (bit_vector);
}

pub proof fn lemma_lookup(
    t: TlbLayout,
    off: u32,
    n: u64,
    addr: u64,
    mem: Seq<u8>,
    sp: u32,
    e: u32,
    host: u32,
)
    requires
        probed(e, t, addr, sp),
        t.pg_shift < 64,
        inside(mem, e + off + t.vaddr_off, 8),
    ensures
        !tagged(e, t, off, n, addr, mem) ==> tlb_lookup(t, off, n, addr, mem, sp) == Some(
            None::<u32>,
        ),
        tagged(e, t, off, n, addr, mem) && inside(mem, e + off + t.addend_off, 4) && mapped(
            host,
            e,
            t,
            off,
            addr,
            mem,
        ) ==> tlb_lookup(t, off, n, addr, mem, sp) == Some(Some(host)),
{
    lemma_probed(e, t, addr, sp);
    lemma_sums(mem, e + off + t.vaddr_off);
    lemma_sums(mem, e + off + t.addend_off);
}

/// Reads of every width and extension.
proof fn lemma_reads(kind: LoadW, mem: Seq<u8>, at: int)
    ensures
        match load_ext(load_op(kind), mem, at) {
            Some(v) => inside(mem, at, load_bytes(kind) as int) && extended(kind, v, mem, at),
            None => !inside(mem, at, load_bytes(kind) as int),
        },
{
    lemma_sums(mem, at);
    if let Some(v) = load_ext(load_op(kind), mem, at) {
        lemma_casts(v, 0, 0);
    }
}

/// Writes of every width.
proof fn lemma_writes(kind: StoreW, mem: Seq<u8>, at: int, val: u64)
    ensures
        match store(mem, at, store_width(store_op(kind)), val as nat) {
            Some(m) => inside(mem, at, store_bytes(kind) as int) && same_but(
                mem,
                m,
                at,
                store_bytes(kind) as int,
            ) && laid(kind, val, m, at),
            None => !inside(mem, at, store_bytes(kind) as int),
        },
{
    lemma_written(mem, at, val);
    if let Some(m) = store(mem, at, store_width(store_op(kind)), val as nat) {
        lemma_sums(m, at);
    }
}

} // verus!
