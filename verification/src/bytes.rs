//! Little-endian integers as byte sequences.

use vstd::prelude::*;
use vstd::arithmetic::power::pow;

verus! {

/// The number that `s` denotes, least significant byte first.
pub open spec fn le_val(s: Seq<u8>) -> nat
    decreases s.len(),
{
    if s.len() == 0 {
        0
    } else {
        s[0] as nat + 256 * le_val(s.drop_first())
    }
}

/// The `n` low-order bytes of `v`, least significant byte first.
pub open spec fn le_bytes(v: nat, n: nat) -> Seq<u8>
    decreases n,
{
    if n == 0 {
        Seq::empty()
    } else {
        seq![(v % 256) as u8] + le_bytes(v / 256, (n - 1) as nat)
    }
}

/// A byte sequence denotes a number below 256 to the power of its length.
pub proof fn lemma_le_val_bound(s: Seq<u8>)
    ensures
        le_val(s) < pow(256, s.len()),
    decreases s.len(),
{
    reveal(pow);
    if s.len() > 0 {
        lemma_le_val_bound(s.drop_first());
        assert(pow(256, s.len()) == 256 * pow(256, (s.len() - 1) as nat));
    }
}

pub proof fn lemma_le_bytes_len(v: nat, n: nat)
    ensures
        le_bytes(v, n).len() == n,
    decreases n,
{
    if n > 0 {
        lemma_le_bytes_len(v / 256, (n - 1) as nat);
    }
}

/// Writing a number out and reading it back gives the number, if it fits.
pub proof fn lemma_le_val_of_bytes(v: nat, n: nat)
    requires
        v < pow(256, n),
    ensures
        le_val(le_bytes(v, n)) == v,
    decreases n,
{
    reveal(pow);
    lemma_le_bytes_len(v, n);
    if n > 0 {
        let rest = le_bytes(v / 256, (n - 1) as nat);
        assert(pow(256, n) == 256 * pow(256, (n - 1) as nat));
        assert(v / 256 < pow(256, (n - 1) as nat)) by (nonlinear_arith)
            requires
                v < 256 * pow(256, (n - 1) as nat),
        ;
        lemma_le_val_of_bytes(v / 256, (n - 1) as nat);
        assert(le_bytes(v, n).drop_first() =~= rest);
    }
}

/// Reading a byte sequence and writing it back gives the sequence.
pub proof fn lemma_le_bytes_of_val(s: Seq<u8>)
    ensures
        le_bytes(le_val(s), s.len()) == s,
    decreases s.len(),
{
    if s.len() > 0 {
        let rest = s.drop_first();
        lemma_le_bytes_of_val(rest);
        assert(le_val(s) % 256 == s[0] && le_val(s) / 256 == le_val(rest));
        assert(seq![s[0]] + rest =~= s);
    } else {
        assert(s =~= Seq::empty());
    }
}

pub proof fn lemma_pow256()
    ensures
        pow(256, 1) == 0x100,
        pow(256, 2) == 0x1_0000,
        pow(256, 4) == 0x1_0000_0000,
        pow(256, 8) == 0x1_0000_0000_0000_0000,
{
    reveal_with_fuel(pow, 9);
}

/// Reads the 16-bit integer at `at`.
pub fn read_le16(s: &[u8], at: usize) -> (v: u16)
    requires
        at + 2 <= s@.len(),
    ensures
        v as nat == le_val(s@.subrange(at as int, at + 2)),
{
    proof {
        reveal_with_fuel(le_val, 3);
    }
    s[at] as u16 + s[at + 1] as u16 * 256
}

/// Reads the 64-bit integer at `at`.
pub fn read_le64(s: &[u8], at: usize) -> (v: u64)
    requires
        at + 8 <= s@.len(),
    ensures
        v as nat == le_val(s@.subrange(at as int, at + 8)),
{
    let ghost t = s@.subrange(at as int, at + 8);
    let len: usize = s.len();
    let mut v: u64 = 0;
    let mut i: usize = 8;
    proof {
        lemma_pow256();
        assert(t.skip(8) =~= Seq::empty());
        reveal(pow);
    }
    while i > 0
        invariant
            i <= 8,
            at + 8 <= s@.len(),
            s@.len() == len,
            t == s@.subrange(at as int, at + 8),
            v as nat == le_val(t.skip(i as int)),
            pow(256, 8) == 0x1_0000_0000_0000_0000,
        decreases i,
    {
        i = i - 1;
        let ghost before = t.skip(i as int);
        proof {
            assert(before.drop_first() =~= t.skip(i + 1));
            lemma_le_val_bound(before);
            vstd::arithmetic::power::lemma_pow_increases(256, (8 - i) as nat, 8);
        }
        v = v * 256 + s[at + i] as u64;
    }
    assert(t.skip(0) =~= t);
    v
}

} // verus!
