//! How the frame of a running block stands to the guest's state.
//!
//! Without lifted registers the two agree: the block's memory is the guest's. A lifted
//! register that has been written is in its local only, and memory still holds its old
//! value, until it is spilled.

use vstd::prelude::*;
use crate::bytes::{
    le_bytes, lemma_le_bytes_len, lemma_le_bytes_of_val, lemma_le_val_bound, lemma_le_val_of_bytes,
    lemma_pow256,
};
use crate::guest::{put_reg, reg};
use crate::machine::{
    group_run, load, load64, push32, push64, run, store, Env, Frame, Outcome, Stack, Val, World,
};
use crate::shape::{apart, begin_write, get_reg, lemma_pos, pos, spread, store_reg, with_reg, Cx};
use crate::wasm::Code;

verus! {

/// A store changes the bytes it covers and no others.
pub proof fn lemma_store(mem: Seq<u8>, at: int, n: nat, v: nat)
    requires
        store(mem, at, n, v) is Some,
    ensures
        store(mem, at, n, v)->0.len() == mem.len(),
        forall|i: int|
            0 <= i < mem.len() ==> #[trigger] store(mem, at, n, v)->0[i] == if at <= i < at + n {
                le_bytes(v, n)[i - at]
            } else {
                mem[i]
            },
{
    lemma_le_bytes_len(v, n);
}

/// A load depends on the bytes it covers only.
pub proof fn lemma_load(m1: Seq<u8>, m2: Seq<u8>, at: int, n: nat)
    requires
        m1.len() == m2.len(),
        forall|i: int| at <= i < at + n && 0 <= i < m1.len() ==> #[trigger] m1[i] == m2[i],
    ensures
        load(m1, at, n) == load(m2, at, n),
{
    if 0 <= at && at + n <= m1.len() {
        assert(m1.subrange(at, at + n) =~= m2.subrange(at, at + n));
    }
}

/// A 64-bit word that was stored is read back.
pub proof fn lemma_load_stored(mem: Seq<u8>, at: int, v: u64)
    requires
        store(mem, at, 8, v as nat) is Some,
    ensures
        load64(store(mem, at, 8, v as nat)->0, at) == Some(v),
{
    lemma_store(mem, at, 8, v as nat);
    lemma_pow256();
    lemma_le_bytes_len(v as nat, 8);
    lemma_le_val_of_bytes(v as nat, 8);
    assert(store(mem, at, 8, v as nat)->0.subrange(at, at + 8) =~= le_bytes(v as nat, 8));
}

/// The bytes of a 64-bit word are those of the number it denotes.
pub proof fn lemma_loaded_bytes(mem: Seq<u8>, at: int)
    requires
        load64(mem, at) is Some,
    ensures
        le_bytes(load64(mem, at)->0 as nat, 8) == mem.subrange(at, at + 8),
{
    let s = mem.subrange(at, at + 8);
    lemma_pow256();
    lemma_le_val_bound(s);
    lemma_le_bytes_of_val(s);
}

/// The byte at `a` belongs to one of the registers.
pub open spec fn covers(regs: Seq<u32>, sp: u32, a: int) -> bool {
    exists|i: int| 0 <= i < regs.len() && sp + #[trigger] regs[i] <= a < sp + regs[i] + 8
}

/// `n` bytes from `at` on belong to none of the registers.
pub open spec fn clear(regs: Seq<u32>, sp: u32, at: int, n: nat) -> bool {
    forall|i: int|
        0 <= i < regs.len() ==> at + n <= sp + #[trigger] regs[i] || sp + regs[i] + 8 <= at
}

/// The memories have the same length and differ in bytes of the registers only.
pub open spec fn agree(m1: Seq<u8>, m2: Seq<u8>, regs: Seq<u32>, sp: u32) -> bool {
    &&& m1.len() == m2.len()
    &&& forall|a: int|
        #![trigger m1[a]]
        #![trigger m2[a]]
        0 <= a < m1.len() && !covers(regs, sp, a) ==> m1[a] == m2[a]
}

/// Different registers, all among `t`.
pub open spec fn some_of(s: Seq<u32>, t: Seq<u32>) -> bool {
    forall|i: int| 0 <= i < s.len() ==> t.contains(#[trigger] s[i])
}

/// A register that code may name: it is lifted, or shares no byte with one that is.
pub open spec fn known(cx: Cx, r: u32) -> bool {
    cx.lifted.contains(r) || forall|i: int|
        0 <= i < cx.lifted.len() ==> apart(r, #[trigger] cx.lifted[i])
}

/// What holds of the compilation context of a block.
pub open spec fn good_cx(cx: Cx) -> bool {
    &&& 4 <= cx.lift_base <= 5
    &&& cx.lifted.len() <= 32
    &&& spread(cx.lifted)
}

/// The frame `f` of a block stands for the guest's world `w`, where `dirty` are the lifted
/// registers that have been written.
#[verifier::opaque]
pub open spec fn rel(f: Frame, w: World, cx: Cx, dirty: Seq<u32>, sp: u32) -> bool {
    &&& good_cx(cx)
    &&& some_of(dirty, cx.lifted)
    &&& f.locals.len() == cx.lift_base + cx.lifted.len()
    &&& f.locals[0] == Val::I32(sp)
    &&& f.world.calls == w.calls
    &&& agree(f.world.mem, w.mem, dirty, sp)
    &&& forall|i: int|
        0 <= i < cx.lifted.len() ==> reg(w, sp, #[trigger] cx.lifted[i]) is Some
            && f.locals[cx.lift_base + i] == Val::I64(reg(w, sp, cx.lifted[i])->0)
}

/// The state pointer is where it was, and scratch locals can be used.
pub broadcast proof fn lemma_rel_locals(f: Frame, w: World, cx: Cx, dirty: Seq<u32>, sp: u32)
    requires
        #[trigger] rel(f, w, cx, dirty, sp),
    ensures
        f.locals[0] == Val::I32(sp),
        f.locals.len() == cx.lift_base + cx.lifted.len(),
        cx.lift_base >= 4,
{
    reveal(rel);
}

/// A scratch local does not count.
pub proof fn lemma_rel_scratch(
    f: Frame,
    w: World,
    cx: Cx,
    dirty: Seq<u32>,
    sp: u32,
    n: int,
    v: Val,
)
    requires
        rel(f, w, cx, dirty, sp),
        0 < n < cx.lift_base,
    ensures
        rel(Frame { locals: f.locals.update(n, v), ..f }, w, cx, dirty, sp),
{
    reveal(rel);
}

/// Reading outside the dirty registers gives the same in both memories.
pub proof fn lemma_agree_load(
    m1: Seq<u8>,
    m2: Seq<u8>,
    regs: Seq<u32>,
    sp: u32,
    at: int,
    n: nat,
)
    requires
        agree(m1, m2, regs, sp),
        clear(regs, sp, at, n),
    ensures
        load(m1, at, n) == load(m2, at, n),
{
    assert forall|i: int| at <= i < at + n && 0 <= i < m1.len() implies #[trigger] m1[i]
        == m2[i] by {
        assert(!covers(regs, sp, i));
    }
    lemma_load(m1, m2, at, n);
}

/// Writing the same to both memories keeps their agreement.
pub proof fn lemma_agree_store(
    m1: Seq<u8>,
    m2: Seq<u8>,
    regs: Seq<u32>,
    sp: u32,
    at: int,
    n: nat,
    v: nat,
)
    requires
        agree(m1, m2, regs, sp),
    ensures
        store(m1, at, n, v) is Some <==> store(m2, at, n, v) is Some,
        store(m1, at, n, v) is Some ==> agree(
            store(m1, at, n, v)->0,
            store(m2, at, n, v)->0,
            regs,
            sp,
        ),
{
    if store(m1, at, n, v) is Some {
        lemma_store(m1, at, n, v);
        lemma_store(m2, at, n, v);
    }
}

/// A register away from the lifted ones is clear of the dirty ones.
pub proof fn lemma_clear_dirty(cx: Cx, dirty: Seq<u32>, sp: u32, r: u32)
    requires
        some_of(dirty, cx.lifted),
        known(cx, r),
        !cx.lifted.contains(r),
    ensures
        clear(dirty, sp, sp + r, 8),
        clear(cx.lifted, sp, sp + r, 8),
{
    assert forall|i: int| 0 <= i < dirty.len() implies sp + r + 8 <= sp + #[trigger] dirty[i] || sp
        + dirty[i] + 8 <= sp + r by {
        let j = choose|j: int| 0 <= j < cx.lifted.len() && cx.lifted[j] == dirty[i];
        assert(apart(r, cx.lifted[j]));
    }
    assert forall|i: int|
        0 <= i < cx.lifted.len() implies sp + r + 8 <= sp + #[trigger] cx.lifted[i] || sp
        + cx.lifted[i] + 8 <= sp + r by {
        assert(apart(r, cx.lifted[i]));
    }
}

/// Code that reads a register pushes the guest's value of it.
pub broadcast proof fn lemma_get_reg(
    cx: Cx,
    r: u32,
    k: Code,
    s: Stack,
    f: Frame,
    env: Env,
    w: World,
    dirty: Seq<u32>,
    sp: u32,
)
    requires
        #[trigger] rel(f, w, cx, dirty, sp),
        known(cx, r),
    ensures
        #[trigger] run(get_reg(cx, r, k), s, f, env) == match reg(w, sp, r) {
            Some(v) => run(k, push64(v, s), f, env),
            None => Outcome::Trap,
        },
{
    broadcast use group_run;

    reveal(rel);
    lemma_pos(cx.lifted, r);
    if cx.lifted.contains(r) {
        let i = pos(cx.lifted, r)->0 as int;
        assert(cx.lifted[i] == r);
    } else {
        lemma_clear_dirty(cx, dirty, sp, r);
        lemma_agree_load(f.world.mem, w.mem, dirty, sp, sp + r, 8);
    }
}

/// The stack below a value that is about to be written to `rd`.
pub open spec fn write_base(cx: Cx, rd: u32, sp: u32, s: Stack) -> Stack {
    match pos(cx.lifted, rd) {
        Some(_) => s,
        None => push32(sp, s),
    }
}

/// The frame after `v` has been written to `rd`.
pub open spec fn after_write(cx: Cx, rd: u32, v: u64, f: Frame, sp: u32) -> Frame {
    match pos(cx.lifted, rd) {
        Some(i) => Frame { locals: f.locals.update(cx.lift_base + i, Val::I64(v)), ..f },
        None => Frame {
            world: World { mem: store(f.world.mem, sp + rd, 8, v as nat)->0, ..f.world },
            ..f
        },
    }
}

/// The dirty registers after one more has been written.
pub open spec fn dirtied(cx: Cx, dirty: Seq<u32>, rd: u32) -> Seq<u32> {
    if cx.lifted.contains(rd) {
        with_reg(dirty, rd)
    } else {
        dirty
    }
}

pub broadcast proof fn lemma_begin_write(
    cx: Cx,
    rd: u32,
    k: Code,
    s: Stack,
    f: Frame,
    env: Env,
    w: World,
    dirty: Seq<u32>,
    sp: u32,
)
    requires
        #[trigger] rel(f, w, cx, dirty, sp),
    ensures
        #[trigger] run(begin_write(cx, rd, k), s, f, env) == run(
            k,
            write_base(cx, rd, sp, s),
            f,
            env,
        ),
{
    broadcast use group_run;

    reveal(rel);
}

/// Code that writes a register does what the guest's write does.
pub proof fn lemma_store_reg(
    cx: Cx,
    rd: u32,
    v: u64,
    k: Code,
    s: Stack,
    f: Frame,
    env: Env,
    w: World,
    dirty: Seq<u32>,
    sp: u32,
)
    requires
        rel(f, w, cx, dirty, sp),
        known(cx, rd),
    ensures
        run(store_reg(cx, rd, k), push64(v, write_base(cx, rd, sp, s)), f, env) == match put_reg(
            w,
            sp,
            rd,
            v,
        ) {
            Some(_) => run(k, s, after_write(cx, rd, v, f, sp), env),
            None => Outcome::Trap,
        },
        put_reg(w, sp, rd, v) matches Some(w2) ==> rel(
            after_write(cx, rd, v, f, sp),
            w2,
            cx,
            dirtied(cx, dirty, rd),
            sp,
        ),
{
    broadcast use group_run;

    reveal(rel);
    lemma_pos(cx.lifted, rd);
    let f2 = after_write(cx, rd, v, f, sp);
    let d2 = dirtied(cx, dirty, rd);
    let at = sp + rd;
    if cx.lifted.contains(rd) {
        let i = pos(cx.lifted, rd)->0 as int;
        assert(reg(w, sp, cx.lifted[i]) is Some);
    } else {
        lemma_clear_dirty(cx, dirty, sp, rd);
        lemma_agree_store(f.world.mem, w.mem, dirty, sp, at, 8, v as nat);
    }
    if let Some(w2) = put_reg(w, sp, rd, v) {
        lemma_store(w.mem, at, 8, v as nat);
        assert forall|j: int| 0 <= j < cx.lifted.len() implies reg(
            w2,
            sp,
            #[trigger] cx.lifted[j],
        ) is Some && f2.locals[cx.lift_base + j] == Val::I64(reg(w2, sp, cx.lifted[j])->0) by {
            let r = cx.lifted[j];
            assert(reg(w, sp, r) is Some);
            if r == rd {
                lemma_load_stored(w.mem, at, v);
                let i = pos(cx.lifted, rd)->0 as int;
                if i != j {
                    assert(apart(cx.lifted[i], cx.lifted[j]));
                }
            } else {
                if cx.lifted.contains(rd) {
                    let i = pos(cx.lifted, rd)->0 as int;
                    assert(apart(cx.lifted[i], cx.lifted[j]));
                } else {
                    assert(apart(rd, cx.lifted[j]));
                }
                lemma_load(w.mem, w2.mem, sp + r, 8);
            }
        }
        if cx.lifted.contains(rd) {
            assert(d2.contains(rd)) by {
                if !dirty.contains(rd) {
                    assert(d2[dirty.len() as int] == rd);
                }
            }
            assert(some_of(d2, cx.lifted));
            assert forall|a: int|
                #![trigger f2.world.mem[a]]
                #![trigger w2.mem[a]]
                0 <= a < f2.world.mem.len() && !covers(d2, sp, a) implies f2.world.mem[a]
                == w2.mem[a] by {
                let n = choose|n: int| 0 <= n < d2.len() && d2[n] == rd;
                assert(!(sp + d2[n] <= a < sp + d2[n] + 8));
                if covers(dirty, sp, a) {
                    let m = choose|m: int|
                        0 <= m < dirty.len() && sp + #[trigger] dirty[m] <= a < sp + dirty[m] + 8;
                    assert(d2[m] == dirty[m]);
                }
                assert(f.world.mem[a] == w.mem[a]);
            }
        }
    }
}

pub broadcast group group_rel {
    lemma_rel_locals,
    lemma_get_reg,
    lemma_begin_write,
}

} // verus!
