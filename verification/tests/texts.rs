//! Settings given as text, the session, and the operations' wire format.

use jit_host::codegen;
use jit_host::codegen::{ChainLayout, TlbLayout};
use jit_host::config::{
    is_space, parse_number, parse_pcs, parse_radix, parse_truncation, Truncation,
};
use jit_host::ir::{is_valid_ir, parse_ir, AmoW, LoadW, MulDivOp, Op, OpKind, StoreW};
use jit_host::session::Session;

fn chars(s: &str) -> Vec<char> {
    s.chars().collect()
}

#[test]
fn numbers() {
    for s in ["0", "7", "+7", "007", "18446744073709551615"] {
        assert_eq!(parse_number(&chars(s)), s.parse::<u64>().ok(), "{s}");
        assert!(parse_number(&chars(s)).is_some());
    }
    for s in ["", "+", "-1", "++1", " 1", "1 ", "0x1", "18446744073709551616", "99999999999999999999"] {
        assert_eq!(parse_number(&chars(s)), None, "{s}");
        assert!(s.parse::<u64>().is_err());
    }
    for s in ["ff", "FF", "+fF", "ffffffffffffffff", "10000000000000000", "g", "", "٣"] {
        assert_eq!(parse_radix(&chars(s), 16), u64::from_str_radix(s, 16).ok(), "{s}");
    }
}

#[test]
fn white_space() {
    for n in 0..0x11_0000u32 {
        if let Some(c) = char::from_u32(n) {
            assert_eq!(is_space(c), c.is_whitespace(), "{n:#x}");
        }
    }
}

#[test]
fn lists_of_pcs() {
    assert_eq!(parse_pcs(&chars("11eb0,ffffffff8002561a")), vec![0x11eb0, 0xffff_ffff_8002_561a]);
    assert_eq!(parse_pcs(&chars(" 0x10 ,\t0x0x20,\u{a0}30\u{3000}")), vec![0x10, 0x20, 0x30]);
    assert_eq!(parse_pcs(&chars("x,,1,0x,2g,+3,0X4")), vec![1, 3]);
    assert_eq!(parse_pcs(&chars("")), Vec::<u64>::new());
    assert_eq!(parse_pcs(&chars("5")), vec![5]);
}

#[test]
fn truncations() {
    let t = |ops, pc| Some(Truncation { ops, pc });
    assert_eq!(parse_truncation(&chars("3@11eb0")), t(3, 0x11eb0));
    assert_eq!(parse_truncation(&chars("3@0x11eb0")), t(3, 0x11eb0));
    assert_eq!(parse_truncation(&chars("x@10")), t(u64::MAX, 0x10));
    assert_eq!(parse_truncation(&chars("3@zz")), t(3, 0));
    assert_eq!(parse_truncation(&chars("3@ 10")), t(3, 0));
    assert_eq!(parse_truncation(&chars("3")), None);
    assert_eq!(parse_truncation(&chars("3@1@2")), None);
    assert_eq!(parse_truncation(&chars("")), None);
}

fn tuple(kind: u8) -> Vec<u8> {
    let mut v = vec![kind, 9, 1, 2, 3, 4, 5, 6];
    v.extend_from_slice(&(-0x1234i64).to_le_bytes());
    v
}

#[test]
fn operation_codes_roundtrip() {
    for code in 0..=255u8 {
        match OpKind::from_code(code) {
            Some(k) => assert_eq!(k.code(), code),
            None => assert!(code == 0 || code > 63),
        }
        assert_eq!(is_valid_ir(&tuple(code)), OpKind::from_code(code).is_some());
    }
    assert_eq!(OpKind::Const.code(), 1);
    assert_eq!(OpKind::AmoD.code(), 63);
}

#[test]
fn operations_take_their_fields() {
    let (rd, rs1, rs2, imm) = (0x201u32, 0x403u32, 0x605u32, -0x1234i64);
    let one = |kind: u8| parse_ir(&tuple(kind))[0];
    assert_eq!(one(1), Op::Const { rd, imm });
    assert_eq!(one(9), Op::Slli { rd, rs1, shamt: imm as u32 });
    assert_eq!(one(16), Op::Sub { rd, rs1, rs2 });
    assert_eq!(one(30), Op::Jal { rd, target_pc: imm });
    assert_eq!(one(37), Op::Bgeu { rs1, rs2, target_pc: imm });
    assert_eq!(one(44), Op::Load { w: LoadW::Wu, rd, rs1, imm, pc_off: rs2 });
    assert_eq!(one(45), Op::Store { w: StoreW::B, rs1, rs2, imm, pc_off: rd });
    assert_eq!(one(52), Op::MulDiv { op: MulDivOp::Mulhu, rd, rs1, rs2 });
    let mut amo = tuple(62);
    amo[8..16].copy_from_slice(&(3i64 | (0x1234 << 8)).to_le_bytes());
    assert_eq!(
        parse_ir(&amo)[0],
        Op::Amo { w: AmoW::W, rd, rs1, rs2, funct5: 3, pc_off: 0x1234 }
    );
    assert!(one(31).is_terminator() && one(34).is_terminator());
    assert!(!one(29).is_terminator() && !one(38).is_terminator());
}

#[test]
fn streams_of_operations() {
    let mut ir = tuple(2);
    ir.extend(tuple(15));
    ir.extend_from_slice(&[0; 15]);
    assert_eq!(parse_ir(&ir).len(), 2);
    assert!(is_valid_ir(&ir), "a partial operation does not count");
    ir.push(0);
    assert!(!is_valid_ir(&ir));
    assert!(parse_ir(&[]).is_empty());
}

const TLB: TlbLayout = TlbLayout {
    tlb_read_off: 0x400,
    tlb_write_off: 0x600,
    idx_mask: 31,
    entry_shift: 4,
    vaddr_off: 0,
    addend_off: 8,
    pg_shift: 12,
};

const CHAIN: ChainLayout = ChainLayout {
    n_cycles_off: 8,
    map_base: 0x10000,
    entry_size: 40,
    fn_idx_off: 16,
    user_gen_off: 20,
    global_gen_off: 24,
    page_gen_off: 28,
    map_bits: 8,
    page_gen_bits: 12,
    user_gen_addr: 0x30000,
    global_gen_addr: 0x30004,
    page_gen_base: 0x31000,
    chain_hops_addr: 0x30008,
};

/// A session compiles as the code generator does, with the layouts that were set.
#[test]
fn session_builds_blocks() {
    let mut ir = tuple(2);
    ir.extend(tuple(41));
    ir.extend(tuple(48));
    let mut s = Session::new();
    s.reserve(64);
    assert_eq!(s.input, vec![0; 64]);
    s.input[..48].copy_from_slice(&ir);
    let (plain, used) = codegen::build_block(&ir, 0x1000, 0x100c, 3, None, None, false);
    assert_eq!(used, vec![3, 10]);
    assert_eq!(s.build(48, 0x1000, 0x100c, 3), Some(plain.len() as u32));
    assert_eq!((s.module.clone(), s.helpers.clone()), (plain, vec![3, 10]));
    s.set_tlb(TLB);
    s.set_chain(CHAIN);
    s.set_lift(true);
    for _ in 0..2 {
        s.build(48, 0x1000, 0x100c, 3).unwrap();
        let all = codegen::build_block(&ir, 0x1000, 0x100c, 3, Some(&TLB), Some(&CHAIN), true);
        assert_eq!(s.module, all.0);
    }
    let before = s.module.clone();
    assert_eq!(s.build(64, 0x1000, 0x100c, 3), None, "zero is no operation");
    assert_eq!(s.build(65, 0x1000, 0x100c, 3), None, "behind the buffer");
    s.set_tlb(TlbLayout { pg_shift: 64, ..TLB });
    assert_eq!(s.build(48, 0x1000, 0x100c, 3), None);
    s.set_tlb(TLB);
    s.set_chain(ChainLayout { map_bits: 0, ..CHAIN });
    assert_eq!(s.build(48, 0x1000, 0x100c, 3), None);
    assert_eq!(s.module, before);
    s.reserve(16);
    assert_eq!(s.input, vec![0; 16]);
}

/// A layout that no operation uses is no obstacle.
#[test]
fn session_ignores_an_unused_layout() {
    let mut s = Session::new();
    s.reserve(16);
    s.set_tlb(TlbLayout { pg_shift: 64, ..TLB });
    let (empty, _) = codegen::build_block(&[], 0x1000, 0x1000, 0, None, None, false);
    assert_eq!(s.build(0, 0x1000, 0x1000, 0), Some(empty.len() as u32));
    assert_eq!(s.module, empty);
    s.input.copy_from_slice(&tuple(2));
    let (add, _) = codegen::build_block(&tuple(2), 0x1000, 0x1004, 1, None, None, false);
    assert_eq!(s.build(16, 0x1000, 0x1004, 1), Some(add.len() as u32));
    assert_eq!(s.module, add);
    s.input.copy_from_slice(&tuple(41));
    assert_eq!(s.build(16, 0x1000, 0x1004, 1), None);
    assert_eq!(s.module, add);
}

/// Streams are as long as they are: what counts is that the code fits the binary format.
#[test]
fn session_builds_long_streams() {
    let len: u32 = (16 << 20) + 16;
    let mut s = Session::new();
    s.reserve(len);
    for t in s.input.chunks_exact_mut(16) {
        t.copy_from_slice(&tuple(2));
    }
    let n = s.build(len, 0x1000, 0x2000, 1).unwrap();
    assert_eq!(n as usize, s.module.len());
    assert!(n > len / 2);
    assert!(s.helpers.is_empty());
}

#[test]
fn chain_layouts_are_checked() {
    assert!(CHAIN.is_wf());
    assert!(ChainLayout { map_bits: 32, page_gen_bits: 30, ..CHAIN }.is_wf());
    assert!(!ChainLayout { map_bits: 33, ..CHAIN }.is_wf());
    assert!(!ChainLayout { page_gen_bits: 31, ..CHAIN }.is_wf());
    assert!(!ChainLayout { page_gen_bits: 0, ..CHAIN }.is_wf());
}
