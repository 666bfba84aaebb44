//! The wire format of operations, stated from the writing side, and what decoding has to do
//! with it.
//!
//! `wire` is how the guest's scanner lays an operation out. Decoding is its inverse: on what
//! the scanner writes it gives the operation back, and of any tuple it takes exactly the bytes
//! that the tuple's kind has a use for.

use vstd::prelude::*;
use vstd::arithmetic::power::pow;
use crate::arith::{lemma_const64, u64w};
use crate::bytes::{lemma_le_val_bound, lemma_pow256, le_val};
use crate::ir::{
    decode_tuple, ir_ops, tuple_at, tuple_count, tuple_fields, valid_ir, AmoW, Fields, LoadW,
    MulDivOp, Op, OpKind, StoreW,
};

verus! {

/// The byte of `n` with the given number of bytes below it.
#[verifier::opaque]
pub open spec fn octet(n: nat, i: nat) -> u8
    decreases i,
{
    if i == 0 {
        (n % 256) as u8
    } else {
        octet(n / 256, (i - 1) as nat)
    }
}

/// The code of an operation on the wire.
pub open spec fn wire_code(op: Op) -> u8 {
    match op {
        Op::Const { .. } => 1,
        Op::Addi { .. } => 2,
        Op::Addiw { .. } => 3,
        Op::Andi { .. } => 4,
        Op::Ori { .. } => 5,
        Op::Xori { .. } => 6,
        Op::Slti { .. } => 7,
        Op::Sltiu { .. } => 8,
        Op::Slli { .. } => 9,
        Op::Srli { .. } => 10,
        Op::Srai { .. } => 11,
        Op::Slliw { .. } => 12,
        Op::Srliw { .. } => 13,
        Op::Sraiw { .. } => 14,
        Op::Add { .. } => 15,
        Op::Sub { .. } => 16,
        Op::And { .. } => 17,
        Op::Or { .. } => 18,
        Op::Xor { .. } => 19,
        Op::Sll { .. } => 20,
        Op::Srl { .. } => 21,
        Op::Sra { .. } => 22,
        Op::Slt { .. } => 23,
        Op::Sltu { .. } => 24,
        Op::Addw { .. } => 25,
        Op::Subw { .. } => 26,
        Op::Sllw { .. } => 27,
        Op::Srlw { .. } => 28,
        Op::Sraw { .. } => 29,
        Op::Jal { .. } => 30,
        Op::Jalr { .. } => 31,
        Op::Beq { .. } => 32,
        Op::Bne { .. } => 33,
        Op::Blt { .. } => 34,
        Op::Bge { .. } => 35,
        Op::Bltu { .. } => 36,
        Op::Bgeu { .. } => 37,
        Op::Load { w, .. } => match w {
            LoadW::B => 38,
            LoadW::H => 39,
            LoadW::W => 40,
            LoadW::D => 41,
            LoadW::Bu => 42,
            LoadW::Hu => 43,
            LoadW::Wu => 44,
        },
        Op::Store { w, .. } => match w {
            StoreW::B => 45,
            StoreW::H => 46,
            StoreW::W => 47,
            StoreW::D => 48,
        },
        Op::MulDiv { op, .. } => match op {
            MulDivOp::Mul => 49,
            MulDivOp::Mulh => 50,
            MulDivOp::Mulhsu => 51,
            MulDivOp::Mulhu => 52,
            MulDivOp::Div => 53,
            MulDivOp::Divu => 54,
            MulDivOp::Rem => 55,
            MulDivOp::Remu => 56,
            MulDivOp::Mulw => 57,
            MulDivOp::Divw => 58,
            MulDivOp::Divuw => 59,
            MulDivOp::Remw => 60,
            MulDivOp::Remuw => 61,
        },
        Op::Amo { w, .. } => match w {
            AmoW::W => 62,
            AmoW::D => 63,
        },
    }
}

/// The 16-bit fields behind the code, and the number in the last eight bytes. Fields without
/// a use are zero.
pub open spec fn wire_fields(op: Op) -> (u32, u32, u32, int) {
    match op {
        Op::Const { rd, imm } => (rd, 0, 0, imm as int),
        Op::Addi { rd, rs1, imm } | Op::Addiw { rd, rs1, imm } | Op::Andi { rd, rs1, imm }
        | Op::Ori { rd, rs1, imm } | Op::Xori { rd, rs1, imm } | Op::Slti { rd, rs1, imm }
        | Op::Sltiu { rd, rs1, imm } => (rd, rs1, 0, imm as int),
        Op::Slli { rd, rs1, shamt } | Op::Srli { rd, rs1, shamt } | Op::Srai { rd, rs1, shamt }
        | Op::Slliw { rd, rs1, shamt } | Op::Srliw { rd, rs1, shamt }
        | Op::Sraiw { rd, rs1, shamt } => (
            rd,
            rs1,
            0,
            shamt as int,
        ),
        Op::Add { rd, rs1, rs2 } | Op::Sub { rd, rs1, rs2 } | Op::And { rd, rs1, rs2 }
        | Op::Or { rd, rs1, rs2 } | Op::Xor { rd, rs1, rs2 } | Op::Sll { rd, rs1, rs2 }
        | Op::Srl { rd, rs1, rs2 } | Op::Sra { rd, rs1, rs2 } | Op::Slt { rd, rs1, rs2 }
        | Op::Sltu { rd, rs1, rs2 } | Op::Addw { rd, rs1, rs2 } | Op::Subw { rd, rs1, rs2 }
        | Op::Sllw { rd, rs1, rs2 } | Op::Srlw { rd, rs1, rs2 } | Op::Sraw { rd, rs1, rs2 } => (rd, rs1, rs2, 0),
        Op::Jal { rd, target_pc } => (rd, 0, 0, target_pc as int),
        Op::Jalr { rd, rs1, imm } => (rd, rs1, 0, imm as int),
        Op::Beq { rs1, rs2, target_pc } | Op::Bne { rs1, rs2, target_pc }
        | Op::Blt { rs1, rs2, target_pc } | Op::Bge { rs1, rs2, target_pc }
        | Op::Bltu { rs1, rs2, target_pc } | Op::Bgeu { rs1, rs2, target_pc } => (0, rs1, rs2, target_pc as int),
        Op::Load { rd, rs1, imm, pc_off, .. } => (rd, rs1, pc_off, imm as int),
        Op::Store { rs1, rs2, imm, pc_off, .. } => (pc_off, rs1, rs2, imm as int),
        Op::MulDiv { rd, rs1, rs2, .. } => (rd, rs1, rs2, 0),
        Op::Amo { rd, rs1, rs2, funct5, pc_off, .. } => (rd, rs1, rs2, funct5 + 256 * pc_off),
    }
}

/// The operation has room on the wire: register and pc offsets have 16 bits, and what selects
/// an atomic has eight.
pub open spec fn wirable(op: Op) -> bool {
    let (a, b, c, _) = wire_fields(op);
    &&& a < 0x1_0000 && b < 0x1_0000 && c < 0x1_0000
    &&& op matches Op::Amo { funct5, pc_off, .. } ==> funct5 < 0x100 && pc_off < 0x1_0000
}

/// The tuple that the scanner writes for an operation.
pub open spec fn wire(op: Op) -> Seq<u8> {
    let (a, b, c, imm) = wire_fields(op);
    let n = (if imm < 0 {
        imm + 0x1_0000_0000_0000_0000
    } else {
        imm
    }) as nat;
    seq![
        wire_code(op),
        0,
        octet(a as nat, 0),
        octet(a as nat, 1),
        octet(b as nat, 0),
        octet(b as nat, 1),
        octet(c as nat, 0),
        octet(c as nat, 1),
        octet(n, 0),
        octet(n, 1),
        octet(n, 2),
        octet(n, 3),
        octet(n, 4),
        octet(n, 5),
        octet(n, 6),
        octet(n, 7),
    ]
}

/// A tuple of the code `k` has a use for its byte `j`.
pub open spec fn used(k: u8, j: int) -> bool {
    if j == 0 {
        true
    } else if j == 1 {
        false
    } else if j < 4 {
        !(32 <= k <= 37)
    } else if j < 6 {
        k != 1 && k != 30
    } else if j < 8 {
        15 <= k <= 29 || 32 <= k
    } else if 9 <= k <= 14 {
        j < 12
    } else if k >= 62 {
        j < 11
    } else {
        k <= 8 || 30 <= k <= 48
    }
}

/// A tuple with the bytes that it has no use for cleared.
pub open spec fn cleared(t: Seq<u8>) -> Seq<u8> {
    Seq::new(
        16,
        |j: int|
            if used(t[0], j) {
                t[j]
            } else {
                0
            },
    )
}

/// The bytes of a little-endian number are its octets.
proof fn lemma_octets(s: Seq<u8>)
    ensures
        forall|i: nat| i < s.len() ==> #[trigger] octet(le_val(s), i) == s[i as int],
    decreases s.len(),
{
    reveal(octet);
    if s.len() > 0 {
        let rest = s.drop_first();
        lemma_octets(rest);
        assert(le_val(s) % 256 == s[0] && le_val(s) / 256 == le_val(rest));
        assert forall|i: nat| i < s.len() implies #[trigger] octet(le_val(s), i) == s[i as int] by {
            if i > 0 {
                assert(octet(le_val(rest), (i - 1) as nat) == rest[i - 1]);
            }
        }
    }
}

/// Two little-endian numbers of as many bytes are one if their octets are.
proof fn lemma_octets_same(s: Seq<u8>, n: nat)
    requires
        n < pow(256, s.len()),
        forall|i: nat| i < s.len() ==> #[trigger] octet(n, i) == s[i as int],
    ensures
        le_val(s) == n,
    decreases s.len(),
{
    reveal(octet);
    reveal(pow);
    if s.len() > 0 {
        let rest = s.drop_first();
        assert(pow(256, s.len()) == 256 * pow(256, (s.len() - 1) as nat));
        assert(n / 256 < pow(256, (s.len() - 1) as nat)) by (nonlinear_arith)
            requires
                n < 256 * pow(256, (s.len() - 1) as nat),
        ;
        assert(octet(n, 0) == s[0]);
        assert forall|i: nat| i < rest.len() implies #[trigger] octet(n / 256, i)
            == rest[i as int] by {
            assert(octet(n, i + 1) == s[(i + 1) as int]);
        }
        lemma_octets_same(rest, n / 256);
    }
}

/// What a tuple holds, octet by octet.
proof fn lemma_fields(t: Seq<u8>)
    requires
        t.len() == 16,
    ensures
        ({
            let f = tuple_fields(t);
            let n = (if f.imm < 0 {
                f.imm + 0x1_0000_0000_0000_0000
            } else {
                f.imm as int
            }) as nat;
            &&& f.rd < 0x1_0000 && f.rs1 < 0x1_0000 && f.rs2 < 0x1_0000
            &&& octet(f.rd as nat, 0) == t[2] && octet(f.rd as nat, 1) == t[3]
            &&& octet(f.rs1 as nat, 0) == t[4] && octet(f.rs1 as nat, 1) == t[5]
            &&& octet(f.rs2 as nat, 0) == t[6] && octet(f.rs2 as nat, 1) == t[7]
            &&& n < 0x1_0000_0000_0000_0000
            &&& n == le_val(t.subrange(8, 16))
            &&& octet(n, 0) == t[8] && octet(n, 1) == t[9] && octet(n, 2) == t[10]
            &&& octet(n, 3) == t[11] && octet(n, 4) == t[12] && octet(n, 5) == t[13]
            &&& octet(n, 6) == t[14] && octet(n, 7) == t[15]
        }),
{
    lemma_pow256();
    let (a, b, c, d) = (
        t.subrange(2, 4),
        t.subrange(4, 6),
        t.subrange(6, 8),
        t.subrange(8, 16),
    );
    lemma_le_val_bound(a);
    lemma_le_val_bound(b);
    lemma_le_val_bound(c);
    lemma_le_val_bound(d);
    lemma_octets(a);
    lemma_octets(b);
    lemma_octets(c);
    lemma_octets(d);
    assert(octet(le_val(a), 0) == a[0] && octet(le_val(a), 1) == a[1]);
    assert(octet(le_val(b), 0) == b[0] && octet(le_val(b), 1) == b[1]);
    assert(octet(le_val(c), 0) == c[0] && octet(le_val(c), 1) == c[1]);
    assert forall|i: nat| i < 8 implies #[trigger] octet(le_val(d), i) == t[8 + i as int] by {
        assert(octet(le_val(d), i) == d[i as int]);
    }
    lemma_const64(le_val(d) as u64);
}

/// Octets of zero.
proof fn lemma_octet_zero(i: nat)
    ensures
        octet(0, i) == 0,
    decreases i,
{
    reveal(octet);
    if i > 0 {
        lemma_octet_zero((i - 1) as nat);
    }
}

/// Octets of a number of one byte more than `p` tells.
proof fn lemma_octet_step(n: nat, p: nat, i: nat)
    requires
        p > 0,
    ensures
        octet(n % (256 * p), 0) == octet(n, 0),
        i > 0 ==> octet(n % (256 * p), i) == octet(n / 256 % p, (i - 1) as nat),
{
    reveal(octet);
    vstd::arithmetic::div_mod::lemma_mod_breakdown(n as int, 256, p as int);
    let m = n % (256 * p);
    let q = n / 256 % p;
    assert(m == 256 * q + n % 256);
}

/// Octets of what is left of a number of which the bytes from the fourth or from the fifth on
/// are cut off.
proof fn lemma_octets_cut(n: nat)
    ensures
        forall|i: nat|
            #[trigger] octet(n % 0x1_0000_0000, i) == if i < 4 {
                octet(n, i)
            } else {
                0
            },
        forall|i: nat|
            #[trigger] octet(n % 0x100_0000, i) == if i < 3 {
                octet(n, i)
            } else {
                0
            },
{
    reveal(octet);
    let n1 = n / 256;
    let n2 = n1 / 256;
    let n3 = n2 / 256;
    assert forall|i: nat|
        #[trigger] octet(n3 % 0x100, i) == if i < 1 {
            octet(n3, i)
        } else {
            0
        } by {
        if i > 0 {
            lemma_octet_zero((i - 1) as nat);
        }
    }
    assert forall|i: nat|
        #[trigger] octet(n2 % 0x1_0000, i) == if i < 2 {
            octet(n2, i)
        } else {
            0
        } by {
        lemma_octet_step(n2, 0x100, i);
    }
    assert forall|i: nat|
        #[trigger] octet(n2 % 0x100, i) == if i < 1 {
            octet(n2, i)
        } else {
            0
        } by {
        if i > 0 {
            lemma_octet_zero((i - 1) as nat);
        }
    }
    assert forall|i: nat|
        #[trigger] octet(n1 % 0x100_0000, i) == if i < 3 {
            octet(n1, i)
        } else {
            0
        } by {
        lemma_octet_step(n1, 0x1_0000, i);
    }
    assert forall|i: nat|
        #[trigger] octet(n1 % 0x1_0000, i) == if i < 2 {
            octet(n1, i)
        } else {
            0
        } by {
        lemma_octet_step(n1, 0x100, i);
    }
    assert forall|i: nat|
        #[trigger] octet(n % 0x1_0000_0000, i) == if i < 4 {
            octet(n, i)
        } else {
            0
        } by {
        lemma_octet_step(n, 0x100_0000, i);
    }
    assert forall|i: nat|
        #[trigger] octet(n % 0x100_0000, i) == if i < 3 {
            octet(n, i)
        } else {
            0
        } by {
        lemma_octet_step(n, 0x1_0000, i);
    }
}

/// The number in the last bytes of a tuple, as far as its kind has a use for it.
spec fn kept_imm(k: u8, imm: i64) -> int {
    if 9 <= k <= 14 {
        imm as int % 0x1_0000_0000
    } else if k >= 62 {
        imm as int % 0x100 + 256 * (imm as int / 0x100 % 0x1_0000)
    } else if k <= 8 || 30 <= k <= 48 {
        imm as int
    } else {
        0
    }
}

/// The fields of the operation that a tuple is decoded to.
#[verifier::spinoff_prover]
#[verifier::rlimit(40)]
proof fn lemma_decoded(t: Seq<u8>)
    requires
        t.len() == 16,
        1 <= t[0] <= 63,
    ensures
        decode_tuple(t) is Some,
        wire_code(decode_tuple(t)->0) == t[0],
        ({
            let f = tuple_fields(t);
            let k = t[0];
            wire_fields(decode_tuple(t)->0) == (
                if used(k, 2) {
                    f.rd
                } else {
                    0u32
                },
                if used(k, 4) {
                    f.rs1
                } else {
                    0u32
                },
                if used(k, 6) {
                    f.rs2
                } else {
                    0u32
                },
                kept_imm(k, f.imm),
            )
        }),
        decode_tuple(t)->0 matches Op::Amo { funct5, pc_off, .. } ==> funct5 < 0x100 && pc_off
            < 0x1_0000,
{
}

/// The word of a number.
spec fn word(imm: int) -> nat {
    (if imm < 0 {
        imm + 0x1_0000_0000_0000_0000
    } else {
        imm
    }) as nat
}

/// The last eight bytes of a tuple, as far as its kind has a use for them, are those of `v`.
spec fn ends_in(t: Seq<u8>, v: nat) -> bool {
    &&& octet(v, 0) == if used(t[0], 8) { t[8] } else { 0 }
    &&& octet(v, 1) == if used(t[0], 9) { t[9] } else { 0 }
    &&& octet(v, 2) == if used(t[0], 10) { t[10] } else { 0 }
    &&& octet(v, 3) == if used(t[0], 11) { t[11] } else { 0 }
    &&& octet(v, 4) == if used(t[0], 12) { t[12] } else { 0 }
    &&& octet(v, 5) == if used(t[0], 13) { t[13] } else { 0 }
    &&& octet(v, 6) == if used(t[0], 14) { t[14] } else { 0 }
    &&& octet(v, 7) == if used(t[0], 15) { t[15] } else { 0 }
}

/// Low bytes of a word.
#[verifier::spinoff_prover]
proof fn lemma_low(imm: i64)
    ensures
        imm as int % 0x1_0000_0000 == word(imm as int) % 0x1_0000_0000,
        imm as int % 0x100 + 256 * (imm as int / 0x100 % 0x1_0000) == word(imm as int)
            % 0x100_0000,
{
    let v = word(imm as int);
    assert(imm as int % 0x100 == v % 0x100);
    assert(imm as int / 0x100 % 0x1_0000 == v / 0x100 % 0x1_0000);
    assert(v % 0x100 + 256 * (v / 0x100 % 0x1_0000) == v % 0x100_0000);
}

/// The octets of that number.
#[verifier::spinoff_prover]
proof fn lemma_kept_octets(t: Seq<u8>)
    requires
        t.len() == 16,
    ensures
        ends_in(t, word(kept_imm(t[0], tuple_fields(t).imm))),
{
    lemma_fields(t);
    let f = tuple_fields(t);
    let n = word(f.imm as int);
    lemma_octets_cut(n);
    lemma_low(f.imm);
    lemma_octet_zero(0);
    lemma_octet_zero(1);
    lemma_octet_zero(2);
    lemma_octet_zero(3);
    lemma_octet_zero(4);
    lemma_octet_zero(5);
    lemma_octet_zero(6);
    lemma_octet_zero(7);
}

/// **Of any tuple, decoding takes exactly what its kind has a use for.** The operation that a
/// tuple is decoded to is one that the scanner would have written as that tuple, with the
/// bytes that its kind has no use for cleared. A tuple of a code from 1 to 63 is decoded, and
/// no other.
#[verifier::spinoff_prover]
pub proof fn law_decode(t: Seq<u8>)
    requires
        t.len() == 16,
    ensures
        decode_tuple(t) is Some <==> 1 <= t[0] <= 63,
        decode_tuple(t) matches Some(op) ==> wirable(op) && wire(op) == cleared(t),
{
    if 1 <= t[0] <= 63 {
        let op = decode_tuple(t)->0;
        lemma_decoded(t);
        lemma_fields(t);
        lemma_kept_octets(t);
        lemma_octet_zero(0);
        lemma_octet_zero(1);
        lemma_laid_out(op, t, tuple_fields(t));
    }
}

/// A tuple whose parts are those of an operation is the one written for it.
#[verifier::spinoff_prover]
proof fn lemma_laid_out(op: Op, t: Seq<u8>, f: Fields)
    requires
        t.len() == 16,
        wire_code(op) == t[0],
        ({
            let (a, b, c, imm) = wire_fields(op);
            let k = t[0];
            &&& a == if used(k, 2) { f.rd } else { 0 }
            &&& b == if used(k, 4) { f.rs1 } else { 0 }
            &&& c == if used(k, 6) { f.rs2 } else { 0 }
            &&& ends_in(t, word(imm))
        }),
        octet(0, 0) == 0,
        octet(0, 1) == 0,
        octet(f.rd as nat, 0) == t[2] && octet(f.rd as nat, 1) == t[3],
        octet(f.rs1 as nat, 0) == t[4] && octet(f.rs1 as nat, 1) == t[5],
        octet(f.rs2 as nat, 0) == t[6] && octet(f.rs2 as nat, 1) == t[7],
    ensures
        wire(op) == cleared(t),
{
    assert(wire(op) =~= cleared(t));
}

/// **Decoding undoes encoding.** The tuple of any operation that has room on the wire is
/// decoded to that operation: an atomic gets back what selects it and its pc offset, a jump
/// or branch its whole target pc.
pub proof fn law_wire_roundtrip(op: Op)
    requires
        wirable(op),
    ensures
        wire(op).len() == 16,
        decode_tuple(wire(op)) == Some(op),
{
    let t = wire(op);
    let (a, b, c, imm) = wire_fields(op);
    let n = (if imm < 0 {
        imm + 0x1_0000_0000_0000_0000
    } else {
        imm
    }) as nat;
    lemma_pow256();
    lemma_octets_same(t.subrange(2, 4), a as nat);
    lemma_octets_same(t.subrange(4, 6), b as nat);
    lemma_octets_same(t.subrange(6, 8), c as nat);
    lemma_octets_same(t.subrange(8, 16), n);
    lemma_const64(n as u64);
    let f = tuple_fields(t);
    assert(f.rd == a && f.rs1 == b && f.rs2 == c);
    assert(u64w(f.imm as int) == n);
    assert(f.imm == if imm < 0x8000_0000_0000_0000 {
        imm
    } else {
        imm - 0x1_0000_0000_0000_0000
    });
    lemma_undone(op, f);
}

#[verifier::spinoff_prover]
#[verifier::rlimit(40)]
proof fn lemma_undone(op: Op, f: Fields)
    requires
        wirable(op),
        wire_fields(op) == (f.rd, f.rs1, f.rs2, f.imm as int),
    ensures
        OpKind::spec_from_code(wire_code(op)) is Some,
        f.spec_op(OpKind::spec_from_code(wire_code(op))->0) == op,
{
}

/// The operation is of the kind.
pub open spec fn of_kind(op: Op, kind: OpKind) -> bool {
    match kind {
        OpKind::Const => op is Const,
        OpKind::Addi => op is Addi,
        OpKind::Addiw => op is Addiw,
        OpKind::Andi => op is Andi,
        OpKind::Ori => op is Ori,
        OpKind::Xori => op is Xori,
        OpKind::Slti => op is Slti,
        OpKind::Sltiu => op is Sltiu,
        OpKind::Slli => op is Slli,
        OpKind::Srli => op is Srli,
        OpKind::Srai => op is Srai,
        OpKind::Slliw => op is Slliw,
        OpKind::Srliw => op is Srliw,
        OpKind::Sraiw => op is Sraiw,
        OpKind::Add => op is Add,
        OpKind::Sub => op is Sub,
        OpKind::And => op is And,
        OpKind::Or => op is Or,
        OpKind::Xor => op is Xor,
        OpKind::Sll => op is Sll,
        OpKind::Srl => op is Srl,
        OpKind::Sra => op is Sra,
        OpKind::Slt => op is Slt,
        OpKind::Sltu => op is Sltu,
        OpKind::Addw => op is Addw,
        OpKind::Subw => op is Subw,
        OpKind::Sllw => op is Sllw,
        OpKind::Srlw => op is Srlw,
        OpKind::Sraw => op is Sraw,
        OpKind::Jal => op is Jal,
        OpKind::Jalr => op is Jalr,
        OpKind::Beq => op is Beq,
        OpKind::Bne => op is Bne,
        OpKind::Blt => op is Blt,
        OpKind::Bge => op is Bge,
        OpKind::Bltu => op is Bltu,
        OpKind::Bgeu => op is Bgeu,
        OpKind::Lb => op matches Op::Load { w, .. } && w == LoadW::B,
        OpKind::Lh => op matches Op::Load { w, .. } && w == LoadW::H,
        OpKind::Lw => op matches Op::Load { w, .. } && w == LoadW::W,
        OpKind::Ld => op matches Op::Load { w, .. } && w == LoadW::D,
        OpKind::Lbu => op matches Op::Load { w, .. } && w == LoadW::Bu,
        OpKind::Lhu => op matches Op::Load { w, .. } && w == LoadW::Hu,
        OpKind::Lwu => op matches Op::Load { w, .. } && w == LoadW::Wu,
        OpKind::Sb => op matches Op::Store { w, .. } && w == StoreW::B,
        OpKind::Sh => op matches Op::Store { w, .. } && w == StoreW::H,
        OpKind::Sw => op matches Op::Store { w, .. } && w == StoreW::W,
        OpKind::Sd => op matches Op::Store { w, .. } && w == StoreW::D,
        OpKind::Mul => op matches Op::MulDiv { op, .. } && op == MulDivOp::Mul,
        OpKind::Mulh => op matches Op::MulDiv { op, .. } && op == MulDivOp::Mulh,
        OpKind::Mulhsu => op matches Op::MulDiv { op, .. } && op == MulDivOp::Mulhsu,
        OpKind::Mulhu => op matches Op::MulDiv { op, .. } && op == MulDivOp::Mulhu,
        OpKind::Div => op matches Op::MulDiv { op, .. } && op == MulDivOp::Div,
        OpKind::Divu => op matches Op::MulDiv { op, .. } && op == MulDivOp::Divu,
        OpKind::Rem => op matches Op::MulDiv { op, .. } && op == MulDivOp::Rem,
        OpKind::Remu => op matches Op::MulDiv { op, .. } && op == MulDivOp::Remu,
        OpKind::Mulw => op matches Op::MulDiv { op, .. } && op == MulDivOp::Mulw,
        OpKind::Divw => op matches Op::MulDiv { op, .. } && op == MulDivOp::Divw,
        OpKind::Divuw => op matches Op::MulDiv { op, .. } && op == MulDivOp::Divuw,
        OpKind::Remw => op matches Op::MulDiv { op, .. } && op == MulDivOp::Remw,
        OpKind::Remuw => op matches Op::MulDiv { op, .. } && op == MulDivOp::Remuw,
        OpKind::AmoW => op matches Op::Amo { w, .. } && w == AmoW::W,
        OpKind::AmoD => op matches Op::Amo { w, .. } && w == AmoW::D,
    }
}

/// **Fields go where they belong.** Whatever the fields are, the operation that is made of them is
/// of the kind that was asked for, which has its own code; the fields that the kind has a use
/// for are in it as they are; and of the immediate a shift keeps the lower 32 bits, an atomic
/// the lower 24, in two parts, and any other operation all of it.
#[verifier::spinoff_prover]
#[verifier::rlimit(40)]
pub proof fn law_fields(f: Fields, kind: OpKind)
    ensures
        ({
            let op = f.spec_op(kind);
            let k = kind.spec_code();
            let (a, b, c, imm) = wire_fields(op);
            &&& of_kind(op, kind)
            &&& wire_code(op) == k
            &&& OpKind::spec_from_code(k) == Some(kind)
            &&& a == if used(k, 2) { f.rd } else { 0 }
            &&& b == if used(k, 4) { f.rs1 } else { 0 }
            &&& c == if used(k, 6) { f.rs2 } else { 0 }
            &&& if 9 <= k <= 14 {
                0 <= imm < 0x1_0000_0000 && (f.imm - imm) % 0x1_0000_0000 == 0
            } else if k >= 62 {
                0 <= imm < 0x100_0000 && (f.imm - imm) % 0x100_0000 == 0 && (op matches Op::Amo {
                    funct5,
                    ..
                } && funct5 < 0x100)
            } else {
                imm == if used(k, 8) { f.imm as int } else { 0 }
            }
        }),
{
}

/// The stream that the scanner writes for operations.
pub open spec fn wire_all(ops: Seq<Op>) -> Seq<u8>
    decreases ops.len(),
{
    if ops.len() == 0 {
        Seq::empty()
    } else {
        wire_all(ops.drop_last()) + wire(ops.last())
    }
}

proof fn lemma_wire_all(ops: Seq<Op>)
    ensures
        wire_all(ops).len() == 16 * ops.len(),
        forall|i: int|
            0 <= i < ops.len() ==> #[trigger] wire_all(ops).subrange(16 * i, 16 * i + 16) == wire(
                ops[i],
            ),
    decreases ops.len(),
{
    if ops.len() > 0 {
        let init = ops.drop_last();
        lemma_wire_all(init);
        assert(wire(ops.last()).len() == 16);
        assert forall|i: int| 0 <= i < ops.len() implies #[trigger] wire_all(ops).subrange(
            16 * i,
            16 * i + 16,
        ) == wire(ops[i]) by {
            if i < init.len() {
                assert(wire_all(ops).subrange(16 * i, 16 * i + 16) =~= wire_all(init).subrange(
                    16 * i,
                    16 * i + 16,
                ));
            } else {
                assert(wire_all(ops).subrange(16 * i, 16 * i + 16) =~= wire(ops.last()));
            }
        }
    }
}

/// **A stream is decoded to the operations that were written, in order.** Bytes behind the
/// last whole tuple do not count.
pub proof fn law_stream(ops: Seq<Op>, tail: Seq<u8>)
    requires
        forall|i: int| 0 <= i < ops.len() ==> wirable(#[trigger] ops[i]),
        tail.len() < 16,
    ensures
        wire_all(ops).len() == 16 * ops.len(),
        valid_ir(wire_all(ops) + tail),
        ir_ops(wire_all(ops) + tail) == ops,
{
    let s = wire_all(ops) + tail;
    lemma_wire_all(ops);
    assert(tuple_count(s) == ops.len());
    assert forall|i: int| 0 <= i < ops.len() implies #[trigger] tuple_at(s, i) == wire(
        ops[i],
    ) by {
        assert(tuple_at(s, i) =~= wire_all(ops).subrange(16 * i, 16 * i + 16));
    }
    assert forall|i: int| 0 <= i < tuple_count(s) implies 1 <= #[trigger] tuple_at(
        s,
        i,
    )[0] <= 63 by {
        assert(wire(ops[i])[0] == wire_code(ops[i]));
    }
    assert forall|i: int| 0 <= i < ops.len() implies ir_ops(s)[i] == ops[i] by {
        assert(tuple_at(s, i) == wire(ops[i]));
        law_wire_roundtrip(ops[i]);
    }
    assert(ir_ops(s) =~= ops);
}

/// **A stream can be decoded if and only if the first of every sixteen bytes is a code.**
pub proof fn law_valid(s: Seq<u8>)
    ensures
        valid_ir(s) <==> forall|i: int|
            0 <= i && 16 * i + 16 <= s.len() ==> 1 <= #[trigger] s[16 * i] <= 63,
        ir_ops(s).len() == s.len() / 16,
{
    assert forall|i: int| 0 <= i && 16 * i + 16 <= s.len() implies #[trigger] tuple_at(s, i)[0]
        == s[16 * i] by {}
    if valid_ir(s) {
        assert forall|i: int| 0 <= i && 16 * i + 16 <= s.len() implies 1 <= #[trigger] s[16 * i]
            <= 63 by {
            assert(tuple_at(s, i)[0] == s[16 * i]);
        }
    }
}

} // verus!
