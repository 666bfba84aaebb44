//! Machine arithmetic stated over mathematical integers.

use vstd::prelude::*;
use vstd::arithmetic::div_mod::{lemma_add_mod_noop_right, lemma_mod_mod, lemma_sub_mod_noop_right};

verus! {

/// The 64-bit word congruent to `i`.
pub open spec fn u64w(i: int) -> u64 {
    (i % 0x1_0000_0000_0000_0000) as u64
}

/// The 32-bit word congruent to `i`.
pub open spec fn u32w(i: int) -> u32 {
    (i % 0x1_0000_0000) as u32
}

/// The two's-complement value of a 64-bit word.
pub open spec fn s64(a: u64) -> int {
    if a < 0x8000_0000_0000_0000 {
        a as int
    } else {
        a - 0x1_0000_0000_0000_0000
    }
}

/// The two's-complement value of a 32-bit word.
pub open spec fn s32(a: u32) -> int {
    if a < 0x8000_0000 {
        a as int
    } else {
        a - 0x1_0000_0000
    }
}

/// A 32-bit word sign-extended to 64 bits.
pub open spec fn sext32(a: u32) -> u64 {
    u64w(s32(a))
}

/// Magnitude of an integer.
pub open spec fn abs(i: int) -> nat {
    if i < 0 {
        (-i) as nat
    } else {
        i as nat
    }
}

/// Quotient rounded toward zero.
pub open spec fn tdiv(a: int, b: int) -> int {
    let q = (abs(a) / abs(b)) as int;
    if (a < 0) == (b < 0) {
        q
    } else {
        -q
    }
}

/// Remainder with the sign of the dividend.
pub open spec fn trem(a: int, b: int) -> int {
    let r = (abs(a) % abs(b)) as int;
    if a < 0 {
        -r
    } else {
        r
    }
}

/// One if the condition holds, else zero.
pub open spec fn flag(b: bool) -> u32 {
    if b {
        1
    } else {
        0
    }
}

/// A constant and the word it is written as.
pub broadcast proof fn lemma_const64(x: u64)
    ensures
        #[trigger] u64w((x as i64) as int) == x,
{
    assert((x as i64) == if x < 0x8000_0000_0000_0000u64 {
        x as int
    } else {
        x - 0x1_0000_0000_0000_0000
    }) by (bit_vector);
}

pub broadcast proof fn lemma_const32(x: u32)
    ensures
        #[trigger] u32w((x as i32) as int) == x,
{
    assert((x as i32) == if x < 0x8000_0000u32 {
        x as int
    } else {
        x - 0x1_0000_0000
    }) by (bit_vector);
}

/// The word of a signed number has that number as its value.
pub broadcast proof fn lemma_s64_of(x: i64)
    ensures
        s64(#[trigger] u64w(x as int)) == x,
{
}

/// Wrapping twice is wrapping once.
pub broadcast proof fn lemma_u32w_u64w(i: int)
    ensures
        #[trigger] u32w(u64w(i) as int) == u32w(i),
{
    lemma_mod_mod(i, 0x1_0000_0000, 0x1_0000_0000);
}

/// A summand may be wrapped first.
pub proof fn lemma_u64w_add(a: int, b: int)
    ensures
        u64w(a + u64w(b)) == u64w(a + b),
        u64w(u64w(a) + b) == u64w(a + b),
        u64w(a - u64w(b)) == u64w(a - b),
        u64w(u64w(a) - b) == u64w(a - b),
{
    lemma_add_mod_noop_right(a, b, 0x1_0000_0000_0000_0000);
    lemma_add_mod_noop_right(b, a, 0x1_0000_0000_0000_0000);
    lemma_sub_mod_noop_right(a, b, 0x1_0000_0000_0000_0000);
    lemma_add_mod_noop_right(-b, a, 0x1_0000_0000_0000_0000);
}

pub proof fn lemma_u32w_add(a: int, b: int)
    ensures
        u32w(a + u32w(b)) == u32w(a + b),
        u32w(u32w(a) + b) == u32w(a + b),
        u32w(a - u32w(b)) == u32w(a - b),
        u32w(u32w(a) - b) == u32w(a - b),
{
    lemma_add_mod_noop_right(a, b, 0x1_0000_0000);
    lemma_add_mod_noop_right(b, a, 0x1_0000_0000);
    lemma_sub_mod_noop_right(a, b, 0x1_0000_0000);
    lemma_add_mod_noop_right(-b, a, 0x1_0000_0000);
}

/// Casts between words and signed numbers, by their two's complement.
pub proof fn lemma_casts(a: u64, x: u32, i: i64)
    ensures
        (a as i64) as int == s64(a),
        (x as i32) as int == s32(x),
        i as u64 == u64w(i as int),
{
    lemma_const64(a);
    lemma_const32(x);
    assert((i as u64) == if i >= 0 {
        i as int
    } else {
        i + 0x1_0000_0000_0000_0000
    }) by (bit_vector);
}

} // verus!
