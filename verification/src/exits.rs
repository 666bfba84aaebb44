//! How blocks follow one another: instructions within a block, the budget at its start and the
//! map of blocks at its end.

use vstd::prelude::*;
use vstd::arithmetic::div_mod::lemma_fundamental_div_mod_converse;
use vstd::arithmetic::power2::{lemma_pow2_pos, pow2};
use crate::arith::{lemma_casts, u32w, u64w};
use crate::block::lemma_step_kind;
use crate::guest::{
    block_run, chain_exit, charged, counted, hash, map_entry, map_lookup, op_step, ops_run,
    page_counter, BlockEnd, Step,
};
use crate::ir::{spec_is_terminator, Op};
use crate::machine::{Env, World};
use crate::meaning::{cong, floor_of};
use crate::places::{held, inside, lemma_sums, lemma_written, same_but, sum4};
use crate::shape::{ChainLayout, Config};

verus! {

/// The operation chooses the next pc: a jump or a conditional branch.
pub open spec fn chooses(op: Op) -> bool {
    op is Jal || op is Jalr || op is Beq || op is Bne || op is Blt || op is Bge || op is Bltu
        || op is Bgeu
}

/// **Jumps and branches end a block, and nothing else does.**
pub proof fn law_terminators(op: Op)
    ensures
        spec_is_terminator(op) <==> chooses(op),
{
}

/// **A block that chooses no pc goes on behind itself.** A block without operations goes on at the pc behind it; a block
/// of one operation ends as the operation does, or goes on at the pc behind it.
pub proof fn law_short_blocks(op: Op, cfg: Config, w: World, sp: u32, env: Env)
    ensures
        ops_run(Seq::empty(), 0, cfg, w, sp, env) == Step::Exit(cfg.end_pc, w),
        ops_run(seq![op], 0, cfg, w, sp, env) == match op_step(op, cfg, w, sp, env) {
            Step::Next(w2) => Step::Exit(cfg.end_pc, w2),
            s => s,
        },
{
    reveal_with_fuel(ops_run, 2);
}

proof fn lemma_tail(a: Seq<Op>, b: Seq<Op>, i: int, cfg: Config, w: World, sp: u32, env: Env)
    requires
        0 <= i <= b.len(),
    ensures
        ops_run(a + b, a.len() + i, cfg, w, sp, env) == ops_run(b, i, cfg, w, sp, env),
    decreases b.len() - i,
{
    if i < b.len() {
        assert((a + b)[a.len() + i] == b[i]);
        if let Step::Next(w2) = op_step(b[i], cfg, w, sp, env) {
            lemma_tail(a, b, i + 1, cfg, w2, sp, env);
        }
    }
}

proof fn lemma_head(a: Seq<Op>, b: Seq<Op>, i: int, cfg: Config, w: World, sp: u32, env: Env)
    requires
        0 <= i <= a.len(),
        forall|j: int| 0 <= j < a.len() ==> !chooses(#[trigger] a[j]),
    ensures
        match ops_run(a, i, cfg, w, sp, env) {
            Step::Exit(pc, w2) => pc == cfg.end_pc && ops_run(a + b, i, cfg, w, sp, env)
                == ops_run(b, 0, cfg, w2, sp, env),
            s => ops_run(a + b, i, cfg, w, sp, env) == s,
        },
    decreases a.len() - i,
{
    if i < a.len() {
        assert((a + b)[i] == a[i]);
        lemma_step_kind(a[i], cfg, w, sp, env);
        if let Step::Next(w2) = op_step(a[i], cfg, w, sp, env) {
            lemma_head(a, b, i + 1, cfg, w2, sp, env);
        }
    } else {
        lemma_tail(a, b, 0, cfg, w, sp, env);
    }
}

/// **Instructions run in order, each once.** What stands behind a part of a block that chooses
/// no pc runs on the world that the part leaves, and does not run if the part faults or traps.
pub proof fn law_in_order(a: Seq<Op>, b: Seq<Op>, cfg: Config, w: World, sp: u32, env: Env)
    requires
        forall|j: int| 0 <= j < a.len() ==> !chooses(#[trigger] a[j]),
    ensures
        match ops_run(a, 0, cfg, w, sp, env) {
            Step::Exit(pc, w2) => pc == cfg.end_pc && ops_run(a + b, 0, cfg, w, sp, env)
                == ops_run(b, 0, cfg, w2, sp, env),
            s => ops_run(a + b, 0, cfg, w, sp, env) == s && !(s is Next),
        },
    decreases a.len(),
{
    lemma_head(a, b, 0, cfg, w, sp, env);
    lemma_ends(a, 0, cfg, w, sp, env);
}

proof fn lemma_ends(ops: Seq<Op>, i: int, cfg: Config, w: World, sp: u32, env: Env)
    ensures
        !(ops_run(ops, i, cfg, w, sp, env) is Next),
    decreases ops.len() - i,
{
    if 0 <= i < ops.len() {
        if let Step::Next(w2) = op_step(ops[i], cfg, w, sp, env) {
            lemma_ends(ops, i + 1, cfg, w2, sp, env);
        }
    }
}

/// The 32-bit number at `at`, in two's complement.
pub open spec fn signed4(mem: Seq<u8>, at: int) -> int {
    (sum4(mem, at) as u32 as i32) as int
}

/// `q` is the top `bits` bits of the product `h` of `x` and the multiplier.
pub open spec fn hashed(q: int, h: u64, x: int, bits: u32) -> bool {
    &&& cong(h as int, x * 0x9E37_79B9_7F4A_7C15, 0x1_0000_0000_0000_0000)
    &&& floor_of(q, h as int, pow2((64 - bits) as nat) as int)
}

/// The entry of the map for a pc: the hash of half the pc selects it.
pub open spec fn entry_for(e: u32, q: int, h: u64, chain: ChainLayout, pc: u64) -> bool {
    &&& hashed(q, h, pc as int / 2, chain.map_bits)
    &&& cong(e as int, chain.map_base + q * chain.entry_size, 0x1_0000_0000)
}

/// The generation counter of a pc's page: the hash of the page number selects it.
pub open spec fn counter_for(c: u32, q: int, h: u64, chain: ChainLayout, pc: u64) -> bool {
    &&& hashed(q, h, pc as int / 0x1000, chain.page_gen_bits)
    &&& c == q * 4
}

proof fn lemma_hashed(q: int, h: u64, x: int, bits: u32)
    requires
        hashed(q, h, x, bits),
        1 <= bits <= 32,
    ensures
        hash(x, bits) == u32w(q),
        q >= 0,
        bits <= 30 ==> u32w(q * 4) == q * 4,
{
    let d = pow2((64 - bits) as nat) as int;
    lemma_pow2_pos((64 - bits) as nat);
    assert(h == u64w(x * 0x9E37_79B9_7F4A_7C15));
    let r = h - q * d;
    lemma_fundamental_div_mod_converse(h as int, d, q, r);
    assert(q >= 0) by (nonlinear_arith)
        requires
            q * d <= h < q * d + d,
            h >= 0,
            d > 0,
    ;
    if bits <= 30 {
        vstd::arithmetic::power2::lemma2_to64();
        vstd::arithmetic::power2::lemma2_to64_rest();
        if bits < 30 {
            vstd::arithmetic::power2::lemma_pow2_strictly_increases(34, (64 - bits) as nat);
        }
        assert(d >= pow2(34));
        assert(q < 0x4000_0000) by (nonlinear_arith)
            requires
                q * d <= h,
                h < 0x1_0000_0000_0000_0000,
                d >= 0x4_0000_0000,
        ;
    }
}

/// Everything that is looked at on the way out of a block is in memory.
pub open spec fn exit_inside(chain: ChainLayout, w: World, sp: u32, e: u32, c: u32) -> bool {
    &&& inside(w.mem, sp + chain.n_cycles_off, 4)
    &&& inside(w.mem, e as int, 8)
    &&& inside(w.mem, e + chain.user_gen_off, 4)
    &&& inside(w.mem, chain.user_gen_addr as int, 4)
    &&& inside(w.mem, e + chain.global_gen_off, 4)
    &&& inside(w.mem, chain.global_gen_addr as int, 4)
    &&& inside(w.mem, e + chain.page_gen_off, 4)
    &&& inside(w.mem, c + chain.page_gen_base, 4)
    &&& inside(w.mem, e + chain.fn_idx_off, 4)
    &&& inside(w.mem, chain.chain_hops_addr as int, 8)
}

/// The budget is not used up, and the entry is for the pc, is of the current generations and
/// has a slot. The user generation does not count from the kernel half's first pc on.
pub open spec fn goes_on(chain: ChainLayout, pc: u64, w: World, sp: u32, e: u32, c: u32) -> bool {
    &&& signed4(w.mem, sp + chain.n_cycles_off) > 0
    &&& held(w.mem, e as int) == pc
    &&& sum4(w.mem, e + chain.global_gen_off) == sum4(w.mem, chain.global_gen_addr as int)
    &&& sum4(w.mem, e + chain.page_gen_off) == sum4(w.mem, c + chain.page_gen_base)
    &&& pc >= 0xffff_ffc0_0000_0000 || sum4(w.mem, e + chain.user_gen_off) == sum4(
        w.mem,
        chain.user_gen_addr as int,
    )
    &&& signed4(w.mem, e + chain.fn_idx_off) > 0
}

/// **A block goes on where the map is current, and only there.** It passes its state pointer to
/// the block in the entry's slot, having added one to the count of hops and changed nothing
/// else; where it may not go on it returns the pc and changes nothing.
#[verifier::spinoff_prover]
#[verifier::rlimit(40)]
pub proof fn law_exits(
    chain: ChainLayout,
    pc: u64,
    w: World,
    sp: u32,
    e: u32,
    c: u32,
    q1: int,
    h1: u64,
    q2: int,
    h2: u64,
)
    requires
        chain.wf(),
        entry_for(e, q1, h1, chain, pc),
        counter_for(c, q2, h2, chain, pc),
        exit_inside(chain, w, sp, e, c),
    ensures
        if goes_on(chain, pc, w, sp, e, c) {
            &&& chain_exit(chain, pc, w, sp) matches BlockEnd::Hop { slot, arg, world }
            &&& arg == sp
            &&& slot == sum4(world.mem, e + chain.fn_idx_off)
            &&& world.calls == w.calls
            &&& same_but(w.mem, world.mem, chain.chain_hops_addr as int, 8)
            &&& cong(
                held(world.mem, chain.chain_hops_addr as int) as int,
                held(w.mem, chain.chain_hops_addr as int) + 1,
                0x1_0000_0000_0000_0000,
            )
        } else {
            chain_exit(chain, pc, w, sp) == BlockEnd::Return(pc, w)
        },
{
    let mem = w.mem;
    let hops = chain.chain_hops_addr as int;
    lemma_entries(chain, pc, e, c, q1, h1, q2, h2);
    lemma_sums(mem, sp + chain.n_cycles_off);
    lemma_sums(mem, e as int);
    lemma_sums(mem, e + chain.user_gen_off);
    lemma_sums(mem, chain.user_gen_addr as int);
    lemma_sums(mem, e + chain.global_gen_off);
    lemma_sums(mem, chain.global_gen_addr as int);
    lemma_sums(mem, e + chain.page_gen_off);
    lemma_sums(mem, c + chain.page_gen_base);
    lemma_sums(mem, e + chain.fn_idx_off);
    lemma_sums(mem, hops);
    lemma_casts(0, sum4(mem, sp + chain.n_cycles_off) as u32, 0);
    lemma_casts(0, sum4(mem, e + chain.fn_idx_off) as u32, 0);
    let go = goes_on(chain, pc, w, sp, e, c);
    assert(signed4(mem, sp + chain.n_cycles_off) > 0 ==> (map_lookup(chain, pc, mem) == if go {
        Some(Some(sum4(mem, e + chain.fn_idx_off) as u32))
    } else {
        Some(None)
    }));
    if go {
        let n = held(mem, hops);
        lemma_written(mem, hops, u64w(n + 1));
        let w2 = counted(chain, w)->0;
        lemma_sums(w2.mem, e + chain.fn_idx_off);
    }
}

proof fn lemma_entries(
    chain: ChainLayout,
    pc: u64,
    e: u32,
    c: u32,
    q1: int,
    h1: u64,
    q2: int,
    h2: u64,
)
    requires
        chain.wf(),
        entry_for(e, q1, h1, chain, pc),
        counter_for(c, q2, h2, chain, pc),
    ensures
        map_entry(chain, pc) == e,
        page_counter(chain, pc) == c,
{
    lemma_hashed(q1, h1, pc as int / 2, chain.map_bits);
    lemma_hashed(q2, h2, pc as int / 0x1000, chain.page_gen_bits);
    let d = pow2((64 - chain.map_bits) as nat) as int;
    vstd::arithmetic::power2::lemma2_to64();
    vstd::arithmetic::power2::lemma2_to64_rest();
    if chain.map_bits < 32 {
        vstd::arithmetic::power2::lemma_pow2_strictly_increases(32, (64 - chain.map_bits) as nat);
    }
    assert(q1 < 0x1_0000_0000) by (nonlinear_arith)
        requires
            q1 * d <= h1,
            h1 < 0x1_0000_0000_0000_0000,
            d >= 0x1_0000_0000,
    ;
    assert(u32w(q1) == q1);
    let d2 = pow2((64 - chain.page_gen_bits) as nat) as int;
    if chain.page_gen_bits < 32 {
        vstd::arithmetic::power2::lemma_pow2_strictly_increases(
            32,
            (64 - chain.page_gen_bits) as nat,
        );
    }
    assert(q2 < 0x1_0000_0000) by (nonlinear_arith)
        requires
            q2 * d2 <= h2,
            h2 < 0x1_0000_0000_0000_0000,
            d2 >= 0x1_0000_0000,
    ;
    assert(u32w(q2) == q2);
    assert(q2 * 4 == c);
}

/// The block's instructions have been taken off the budget, and nothing else has changed.
pub open spec fn charges(w: World, w2: World, chain: ChainLayout, n_insns: u32, sp: u32) -> bool {
    let at = sp + chain.n_cycles_off;
    &&& w2.calls == w.calls
    &&& same_but(w.mem, w2.mem, at, 4)
    &&& cong(sum4(w2.mem, at), sum4(w.mem, at) - n_insns, 0x1_0000_0000)
}

proof fn lemma_bytes(a: u8, b: u8, c: u8, d: u8, e: u8, f: u8, g: u8, h: u8)
    requires
        a + 0x100 * b + 0x1_0000 * c + 0x100_0000 * d == e + 0x100 * f + 0x1_0000 * g + 0x100_0000
            * h,
    ensures
        a == e && b == f && c == g && d == h,
{
}

proof fn lemma_charges(w: World, w2: World, chain: ChainLayout, n_insns: u32, sp: u32)
    requires
        charges(w, w2, chain, n_insns, sp),
        inside(w.mem, sp + chain.n_cycles_off, 4),
    ensures
        charged(chain, n_insns, w, sp) == Some(w2),
{
    let at = sp + chain.n_cycles_off;
    lemma_sums(w.mem, at);
    let v = u32w(sum4(w.mem, at) - n_insns);
    lemma_written(w.mem, at, v as u64);
    let w3 = charged(chain, n_insns, w, sp)->0;
    assert(sum4(w3.mem, at) == v);
    lemma_sums(w2.mem, at);
    assert(sum4(w2.mem, at) == v);
    let (m2, m3) = (w2.mem, w3.mem);
    lemma_bytes(
        m2[at],
        m2[at + 1],
        m2[at + 2],
        m2[at + 3],
        m3[at],
        m3[at + 1],
        m3[at + 2],
        m3[at + 3],
    );
    assert(m2 =~= m3);
}

/// **A chaining block pays first.** Its instructions are taken off the budget, its operations
/// run on what that leaves, and the way out is taken from what they leave; a fault returns at
/// once. A block that does not chain pays nothing and returns.
pub proof fn law_enters(ops: Seq<Op>, cfg: Config, w: World, w2: World, sp: u32, env: Env)
    requires
        cfg.chain matches Some(chain) ==> inside(w.mem, sp + chain.n_cycles_off, 4) && charges(
            w,
            w2,
            chain,
            cfg.n_insns,
            sp,
        ),
        cfg.chain is None ==> w2 == w,
    ensures
        match ops_run(ops, 0, cfg, w2, sp, env) {
            Step::Exit(pc, w3) => block_run(ops, cfg, w, sp, env) == match cfg.chain {
                Some(chain) => chain_exit(chain, pc, w3, sp),
                None => BlockEnd::Return(pc, w3),
            },
            Step::Fault(pc, w3) => block_run(ops, cfg, w, sp, env) == BlockEnd::Return(pc, w3),
            Step::Trap => block_run(ops, cfg, w, sp, env) is Trap,
            Step::Next(_) => false,
        },
{
    lemma_ends(ops, 0, cfg, w2, sp, env);
    if let Some(chain) = cfg.chain {
        lemma_charges(w, w2, chain, cfg.n_insns, sp);
    }
}

} // verus!
