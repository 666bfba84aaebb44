//! Numbers in memory, byte by byte.

use vstd::prelude::*;
use crate::bytes::{le_bytes, le_val, lemma_le_bytes_len, lemma_le_val_bound, lemma_pow256};
use crate::machine::{load, load32, load64, store};
use crate::relate::{lemma_load_stored, lemma_store};

verus! {

/// The `n` bytes at `at` are in memory.
pub open spec fn inside(mem: Seq<u8>, at: int, n: int) -> bool {
    0 <= at && at + n <= mem.len()
}

/// The number in the two bytes at `at`, least significant first.
pub open spec fn sum2(mem: Seq<u8>, at: int) -> int {
    mem[at] + 0x100 * mem[at + 1]
}

/// The number in the four bytes at `at`, least significant first.
pub open spec fn sum4(mem: Seq<u8>, at: int) -> int {
    mem[at] + 0x100 * mem[at + 1] + 0x1_0000 * mem[at + 2] + 0x100_0000 * mem[at + 3]
}

/// The number in the eight bytes at `at`, least significant first.
pub open spec fn sum8(mem: Seq<u8>, at: int) -> int {
    sum4(mem, at) + 0x1_0000_0000 * sum4(mem, at + 4)
}

/// The 64-bit number at `at`.
pub open spec fn held(mem: Seq<u8>, at: int) -> u64 {
    sum8(mem, at) as u64
}

/// The two memories differ at most in the `n` bytes at `at`.
pub open spec fn same_but(m1: Seq<u8>, m2: Seq<u8>, at: int, n: int) -> bool {
    &&& m1.len() == m2.len()
    &&& forall|i: int|
        0 <= i < m1.len() && !(at <= i < at + n) ==> #[trigger] m2[i] == m1[i]
}

proof fn lemma_le(mem: Seq<u8>, at: int, n: int)
    requires
        inside(mem, at, n),
        n > 0,
    ensures
        le_val(mem.subrange(at, at + n)) == mem[at] + 256 * le_val(
            mem.subrange(at + 1, at + 1 + (n - 1)),
        ),
{
    let s = mem.subrange(at, at + n);
    assert(s.drop_first() =~= mem.subrange(at + 1, at + n));
}

/// Reads of every width, byte by byte.
pub proof fn lemma_sums(mem: Seq<u8>, at: int)
    ensures
        inside(mem, at, 1) ==> load(mem, at, 1) == Some(mem[at] as nat),
        inside(mem, at, 2) ==> load(mem, at, 2) == Some(sum2(mem, at) as nat) && 0 <= sum2(mem, at)
            < 0x1_0000,
        inside(mem, at, 4) ==> load(mem, at, 4) == Some(sum4(mem, at) as nat) && 0 <= sum4(mem, at)
            < 0x1_0000_0000,
        inside(mem, at, 8) ==> load(mem, at, 8) == Some(sum8(mem, at) as nat) && 0 <= sum8(mem, at)
            < 0x1_0000_0000_0000_0000,
        inside(mem, at, 4) ==> load32(mem, at) == Some(sum4(mem, at) as u32),
        inside(mem, at, 8) ==> load64(mem, at) == Some(held(mem, at)),
        inside(mem, at, 1) <==> load(mem, at, 1) is Some,
        inside(mem, at, 2) <==> load(mem, at, 2) is Some,
        inside(mem, at, 4) <==> load32(mem, at) is Some,
        inside(mem, at, 8) <==> load64(mem, at) is Some,
{
    if inside(mem, at, 1) {
        lemma_le(mem, at, 1);
        assert(mem.subrange(at + 1, at + 1 + 0) =~= Seq::empty());
    }
    if inside(mem, at, 2) {
        lemma_le(mem, at, 2);
        lemma_le(mem, at + 1, 1);
        assert(mem.subrange(at + 2, at + 2 + 0) =~= Seq::empty());
    }
    if inside(mem, at, 4) {
        lemma_le(mem, at, 4);
        lemma_le(mem, at + 1, 3);
        lemma_le(mem, at + 2, 2);
        lemma_le(mem, at + 3, 1);
        assert(mem.subrange(at + 4, at + 4 + 0) =~= Seq::empty());
    }
    if inside(mem, at, 8) {
        lemma_le(mem, at, 8);
        lemma_le(mem, at + 1, 7);
        lemma_le(mem, at + 2, 6);
        lemma_le(mem, at + 3, 5);
        lemma_le(mem, at + 4, 4);
        lemma_le(mem, at + 5, 3);
        lemma_le(mem, at + 6, 2);
        lemma_le(mem, at + 7, 1);
        assert(mem.subrange(at + 8, at + 8 + 0) =~= Seq::empty());
        lemma_pow256();
        lemma_le_val_bound(mem.subrange(at, at + 8));
    }
}

/// Writes of every width: what is there afterwards, and that nothing else has changed.
pub proof fn lemma_written(mem: Seq<u8>, at: int, v: u64)
    ensures
        inside(mem, at, 1) ==> ({
            &&& store(mem, at, 1, v as nat) matches Some(m) && same_but(mem, m, at, 1) && m[at]
                == v % 0x100
        }),
        inside(mem, at, 2) ==> ({
            &&& store(mem, at, 2, v as nat) matches Some(m) && same_but(mem, m, at, 2) && sum2(
                m,
                at,
            ) == v % 0x1_0000
        }),
        inside(mem, at, 4) ==> ({
            &&& store(mem, at, 4, v as nat) matches Some(m) && same_but(mem, m, at, 4) && sum4(
                m,
                at,
            ) == v % 0x1_0000_0000
        }),
        inside(mem, at, 8) ==> ({
            &&& store(mem, at, 8, v as nat) matches Some(m) && same_but(mem, m, at, 8) && held(
                m,
                at,
            ) == v
        }),
        inside(mem, at, 8) <==> store(mem, at, 8, v as nat) is Some,
{
    let n = v as nat;
    if inside(mem, at, 1) {
        lemma_store(mem, at, 1, n);
        reveal_with_fuel(le_bytes, 2);
    }
    if inside(mem, at, 2) {
        lemma_store(mem, at, 2, n);
        reveal_with_fuel(le_bytes, 3);
        lemma_le_bytes_len(n / 256, 1);
        assert(le_bytes(n, 2)[1] == le_bytes(n / 256, 1)[0]);
    }
    if inside(mem, at, 4) {
        lemma_store(mem, at, 4, n);
        reveal_with_fuel(le_bytes, 5);
        lemma_le_bytes_len(n / 256, 3);
        lemma_le_bytes_len(n / 256 / 256, 2);
        lemma_le_bytes_len(n / 256 / 256 / 256, 1);
        assert(le_bytes(n, 4)[1] == le_bytes(n / 256, 3)[0]);
        assert(le_bytes(n, 4)[2] == le_bytes(n / 256, 3)[1]);
        assert(le_bytes(n, 4)[3] == le_bytes(n / 256, 3)[2]);
        assert(le_bytes(n / 256, 3)[1] == le_bytes(n / 256 / 256, 2)[0]);
        assert(le_bytes(n / 256, 3)[2] == le_bytes(n / 256 / 256, 2)[1]);
        assert(le_bytes(n / 256 / 256, 2)[1] == le_bytes(n / 256 / 256 / 256, 1)[0]);
    }
    if inside(mem, at, 8) {
        lemma_store(mem, at, 8, n);
        lemma_load_stored(mem, at, v);
        lemma_sums(store(mem, at, 8, n)->0, at);
    }
}

} // verus!
