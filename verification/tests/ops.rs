//! Every operation, run under wasmtime in blocks compiled with and without lifting.

use jit_host::codegen;
use wasmtime::{Config, Engine, Extern, Instance, Memory, MemoryType, Module, Store};

fn engine() -> Engine {
    let mut config = Config::new();
    config.memory_reservation(0);
    config.memory_reservation_for_growth(0);
    config.memory_guard_size(0);
    Engine::new(&config).unwrap()
}

fn reg_off(n: usize) -> u16 {
    (16 + n * 8) as u16
}

fn push(v: &mut Vec<u8>, kind: u8, rd: u16, rs1: u16, rs2: u16, imm: i64) {
    v.push(kind);
    v.push(0);
    v.extend_from_slice(&rd.to_le_bytes());
    v.extend_from_slice(&rs1.to_le_bytes());
    v.extend_from_slice(&rs2.to_le_bytes());
    v.extend_from_slice(&imm.to_le_bytes());
}

/// Runs a block without helpers at state pointer `sp`. Gives the next pc and the registers.
fn run_at(ir: &[u8], sp: i32, lift: bool, regs: &[(usize, u64)]) -> (u64, Vec<u64>) {
    let engine = engine();
    let (bytes, used) = codegen::build_block(ir, 0x1000, 0x1010, 4, None, None, lift);
    assert!(used.is_empty());
    let module = Module::from_binary(&engine, &bytes).unwrap();
    let mut store: Store<()> = Store::new(&engine, ());
    let mem = Memory::new(&mut store, MemoryType::new(1, None)).unwrap();
    for &(n, v) in regs {
        let at = sp as usize + reg_off(n) as usize;
        mem.data_mut(&mut store)[at..at + 8].copy_from_slice(&v.to_le_bytes());
    }
    let inst = Instance::new(&mut store, &module, &[Extern::Memory(mem)]).unwrap();
    let f = inst.get_typed_func::<i32, i64>(&mut store, "block").unwrap();
    let pc = f.call(&mut store, sp).unwrap();
    let data = mem.data(&store);
    let out = (0..64)
        .map(|n| {
            let at = sp as usize + reg_off(n) as usize;
            u64::from_le_bytes(data[at..at + 8].try_into().unwrap())
        })
        .collect();
    (pc as u64, out)
}

fn run(ir: &[u8], lift: bool, regs: &[(usize, u64)]) -> (u64, Vec<u64>) {
    run_at(ir, 0, lift, regs)
}

const VALUES: [u64; 9] = [
    0,
    1,
    31,
    64,
    0x7fff_ffff,
    0x8000_0000,
    0x7fff_ffff_ffff_ffff,
    0x8000_0000_0000_0000,
    0xffff_ffff_ffff_fff9,
];

/// Reference for the operations with a constant, kinds 1 to 14.
fn reference_imm(kind: u8, a: u64, imm: i64) -> u64 {
    let sh = imm as u32;
    match kind {
        1 => imm as u64,
        2 => a.wrapping_add(imm as u64),
        3 => a.wrapping_add(imm as u64) as i32 as i64 as u64,
        4 => a & imm as u64,
        5 => a | imm as u64,
        6 => a ^ imm as u64,
        7 => u64::from((a as i64) < imm),
        8 => u64::from(a < imm as u64),
        9 => a.wrapping_shl(sh),
        10 => a.wrapping_shr(sh),
        11 => (a as i64).wrapping_shr(sh) as u64,
        12 => (a as u32).wrapping_shl(sh) as i32 as i64 as u64,
        13 => (a as u32).wrapping_shr(sh) as i32 as i64 as u64,
        14 => (a as i32).wrapping_shr(sh) as i64 as u64,
        _ => unreachable!(),
    }
}

/// Reference for the operations on two registers, kinds 15 to 29.
fn reference_reg(kind: u8, a: u64, b: u64) -> u64 {
    let sh = b as u32;
    match kind {
        15 => a.wrapping_add(b),
        16 => a.wrapping_sub(b),
        17 => a & b,
        18 => a | b,
        19 => a ^ b,
        20 => a.wrapping_shl(sh),
        21 => a.wrapping_shr(sh),
        22 => (a as i64).wrapping_shr(sh) as u64,
        23 => u64::from((a as i64) < (b as i64)),
        24 => u64::from(a < b),
        25 => (a as i32).wrapping_add(b as i32) as i64 as u64,
        26 => (a as i32).wrapping_sub(b as i32) as i64 as u64,
        27 => (a as u32).wrapping_shl(sh) as i32 as i64 as u64,
        28 => (a as u32).wrapping_shr(sh) as i32 as i64 as u64,
        29 => (a as i32).wrapping_shr(sh) as i64 as u64,
        _ => unreachable!(),
    }
}

#[test]
fn immediate_operations() {
    for kind in 1..=14u8 {
        for lift in [false, true] {
            for a in [1u64, 0x8000_0000, 0xffff_ffff_ffff_fff9] {
                for imm in [0i64, 1, 33, -1, -2048, i64::MIN] {
                    let mut ir = Vec::new();
                    push(&mut ir, kind, reg_off(10), reg_off(11), 0, imm);
                    let (pc, regs) = run(&ir, lift, &[(11, a)]);
                    assert_eq!(pc, 0x1010);
                    assert_eq!(
                        regs[10],
                        reference_imm(kind, a, imm),
                        "kind {kind} a={a:#x} imm={imm}"
                    );
                    assert_eq!(regs[11], a, "the source keeps its value");
                }
            }
        }
    }
}

#[test]
fn register_operations() {
    for kind in 15..=29u8 {
        for a in VALUES {
            for b in [0u64, 33, 0x8000_0000_0000_0000, u64::MAX] {
                let mut ir = Vec::new();
                push(&mut ir, kind, reg_off(10), reg_off(11), reg_off(12), 0);
                let (_, regs) = run(&ir, false, &[(11, a), (12, b)]);
                assert_eq!(regs[10], reference_reg(kind, a, b), "kind {kind} a={a:#x} b={b:#x}");
            }
        }
    }
}

#[test]
fn register_operations_lifted() {
    for kind in 15..=29u8 {
        for (a, b) in [(7u64, 3u64), (0x8000_0000, 40), (u64::MAX, 1)] {
            let mut ir = Vec::new();
            // The destination is a source too.
            push(&mut ir, kind, reg_off(11), reg_off(11), reg_off(12), 0);
            let (_, regs) = run(&ir, true, &[(11, a), (12, b)]);
            assert_eq!(regs[11], reference_reg(kind, a, b), "kind {kind}");
        }
    }
}

#[test]
fn branches() {
    for lift in [false, true] {
        for a in [0u64, 1, u64::MAX] {
            for b in [0u64, 1, u64::MAX] {
                let (sa, sb) = (a as i64, b as i64);
                let taken = [a == b, a != b, sa < sb, sa >= sb, a < b, a >= b];
                for (i, &t) in taken.iter().enumerate() {
                    let mut ir = Vec::new();
                    push(&mut ir, 32 + i as u8, 0, reg_off(5), reg_off(6), 0x2222);
                    let (pc, _) = run(&ir, lift, &[(5, a), (6, b)]);
                    assert_eq!(pc, if t { 0x2222 } else { 0x1010 }, "branch {i} {a:#x} {b:#x}");
                }
            }
        }
    }
}

#[test]
fn jal_links_unless_x0() {
    let mut ir = Vec::new();
    push(&mut ir, 30, reg_off(1), 0, 0, 0x4000);
    for lift in [false, true] {
        let (pc, regs) = run(&ir, lift, &[]);
        assert_eq!((pc, regs[1]), (0x4000, 0x1010));
    }
    let mut ir = Vec::new();
    push(&mut ir, 30, 0, 0, 0, -4);
    let (pc, regs) = run(&ir, false, &[]);
    assert_eq!(pc, (-4i64) as u64);
    assert!(regs.iter().all(|&r| r == 0));
}

/// The link register may be the base: the target is computed first. Its lowest bit is
/// dropped.
#[test]
fn jalr_base_and_link_coincide() {
    let mut ir = Vec::new();
    push(&mut ir, 31, reg_off(1), reg_off(1), 0, 0x101);
    for lift in [false, true] {
        let (pc, regs) = run(&ir, lift, &[(1, 0x8000)]);
        assert_eq!(pc, 0x8100);
        assert_eq!(regs[1], 0x1010);
    }
    let mut ir = Vec::new();
    push(&mut ir, 31, 0, reg_off(1), 0, -1);
    let (pc, _) = run(&ir, false, &[(1, 0x8000)]);
    assert_eq!(pc, 0x7ffe);
}

#[test]
fn empty_block_falls_through() {
    for lift in [false, true] {
        assert_eq!(run(&[], lift, &[]).0, 0x1010);
    }
}

/// Bytes behind the last whole operation do not count, nor does the reserved byte.
#[test]
fn partial_operation_is_ignored() {
    let mut ir = Vec::new();
    push(&mut ir, 2, reg_off(5), reg_off(5), 0, 1);
    let (plain, _) = codegen::build_block(&ir, 0x1000, 0x1010, 1, None, None, false);
    ir[1] = 0xee;
    ir.extend_from_slice(&[1, 2, 3]);
    let (longer, _) = codegen::build_block(&ir, 0x1000, 0x1010, 1, None, None, false);
    assert_eq!(plain, longer);
}

#[test]
fn registers_are_relative_to_the_state_pointer() {
    let mut ir = Vec::new();
    push(&mut ir, 2, reg_off(5), reg_off(6), 0, 7);
    for lift in [false, true] {
        let (_, regs) = run_at(&ir, 0x4000, lift, &[(6, 35)]);
        assert_eq!(regs[5], 42);
    }
}

/// More registers than fit locals: the rest stays in memory, and nothing is lost.
#[test]
fn more_registers_than_are_lifted() {
    let mut ir = Vec::new();
    for n in 0..40 {
        push(&mut ir, 2, reg_off(n + 1), reg_off(n), 0, 1);
    }
    let (_, on) = run(&ir, true, &[(0, 100)]);
    let (_, off) = run(&ir, false, &[(0, 100)]);
    assert_eq!(on, off);
    assert_eq!(on[40], 140);
}

/// Registers that overlap are not lifted: a write to one shows in the other.
#[test]
fn overlapping_registers() {
    let mut ir = Vec::new();
    push(&mut ir, 1, 16, 0, 0, -1);
    push(&mut ir, 2, 40, 20, 0, 0);
    let (_, on) = run(&ir, true, &[]);
    let (_, off) = run(&ir, false, &[]);
    assert_eq!(on, off);
    assert_eq!(on[3], 0xffff_ffff);
}

/// A product with its extra local among lifted registers.
#[test]
fn upper_products_lifted() {
    let (a, b) = (0xfedc_ba98_7654_3210u64, 0x8234_5678_9abc_def0u64);
    let mut ir = Vec::new();
    push(&mut ir, 50, reg_off(10), reg_off(11), reg_off(12), 0);
    push(&mut ir, 51, reg_off(13), reg_off(11), reg_off(12), 0);
    push(&mut ir, 52, reg_off(14), reg_off(11), reg_off(12), 0);
    push(&mut ir, 53, reg_off(15), reg_off(11), reg_off(12), 0);
    push(&mut ir, 15, reg_off(16), reg_off(10), reg_off(14), 0);
    let (_, regs) = run(&ir, true, &[(11, a), (12, b)]);
    let (sa, sb) = (a as i64, b as i64);
    assert_eq!(regs[10], (((sa as i128) * (sb as i128)) >> 64) as u64);
    assert_eq!(regs[13], (((sa as i128) * (b as i128)) >> 64) as u64);
    assert_eq!(regs[14], (((a as u128) * (b as u128)) >> 64) as u64);
    assert_eq!(regs[15], (sa / sb) as u64);
    assert_eq!(regs[16], regs[10].wrapping_add(regs[14]));
}

/// Divisions by zero and the quotient that overflows, with lifting.
#[test]
fn division_edges_lifted() {
    let min = 1u64 << 63;
    for (kind, a, b, want) in [
        (53u8, 9u64, 0u64, u64::MAX),
        (53, min, u64::MAX, min),
        (54, 9, 0, u64::MAX),
        (55, 9, 0, 9),
        (55, min, u64::MAX, 0),
        (56, 9, 0, 9),
        (58, 9, 0, u64::MAX),
        (58, 0x8000_0000, u64::MAX, 0xffff_ffff_8000_0000),
        (59, 9, 1 << 32, u64::MAX),
        (60, 0x8000_0000, 0, 0xffff_ffff_8000_0000),
        (61, 0x8000_0000, 0, 0xffff_ffff_8000_0000),
    ] {
        let mut ir = Vec::new();
        push(&mut ir, kind, reg_off(10), reg_off(11), reg_off(12), 0);
        let (_, regs) = run(&ir, true, &[(11, a), (12, b)]);
        assert_eq!(regs[10], want, "kind {kind} {a:#x} {b:#x}");
    }
}

/// The module of a block, byte by byte.
#[test]
fn exact_module() {
    let mut ir = Vec::new();
    push(&mut ir, 2, reg_off(5), reg_off(5), 0, 1);
    let (bytes, used) = codegen::build_block(&ir, 0x1000, 0x1008, 2, None, None, false);
    assert!(used.is_empty());
    let mut want: Vec<u8> = vec![0, 0x61, 0x73, 0x6d, 1, 0, 0, 0];
    want.extend_from_slice(&[1, 0x14, 3, 0x60, 1, 0x7f, 1, 0x7e]);
    want.extend_from_slice(&[0x60, 3, 0x7f, 0x7e, 0x7f, 1, 0x7f]);
    want.extend_from_slice(&[0x60, 3, 0x7f, 0x7e, 0x7e, 1, 0x7f]);
    want.extend_from_slice(&[2, 0x0e, 1, 5]);
    want.extend_from_slice(b"guest");
    want.push(3);
    want.extend_from_slice(b"mem");
    want.extend_from_slice(&[2, 0, 0]);
    want.extend_from_slice(&[3, 2, 1, 0]);
    want.extend_from_slice(&[7, 9, 1, 5]);
    want.extend_from_slice(b"block");
    want.extend_from_slice(&[0, 0]);
    want.extend_from_slice(&[0x0a, 0x18, 1, 0x16, 2, 2, 0x7e, 1, 0x7f]);
    want.extend_from_slice(&[0x20, 0, 0x20, 0, 0x29, 3, 0x38, 0x42, 1, 0x7c]);
    want.extend_from_slice(&[0x37, 3, 0x38, 0x42, 0x88, 0x20, 0x0b]);
    assert_eq!(bytes, want);
}

#[test]
fn exact_preflight_module() {
    let mut want: Vec<u8> = vec![0, 0x61, 0x73, 0x6d, 1, 0, 0, 0];
    want.extend_from_slice(&[1, 6, 1, 0x60, 1, 0x7f, 1, 0x7e]);
    want.extend_from_slice(&[3, 2, 1, 0]);
    want.extend_from_slice(&[7, 9, 1, 5]);
    want.extend_from_slice(b"block");
    want.extend_from_slice(&[0, 0]);
    want.extend_from_slice(&[0x0a, 6, 1, 4, 0, 0x42, 42, 0x0b]);
    assert_eq!(codegen::build_preflight(), want);
}

/// Numbers take as many bytes as they need, with seven bits in each.
#[test]
fn numbers_take_the_bytes_they_need() {
    let len = |rd: u16, imm: i64| {
        let mut ir = vec![1u8, 0];
        ir.extend_from_slice(&rd.to_le_bytes());
        ir.extend_from_slice(&[0; 4]);
        ir.extend_from_slice(&imm.to_le_bytes());
        codegen::build_block(&ir, 0, 0, 1, None, None, false).0.len()
    };
    let base = len(8, 0);
    for (imm, more) in [(63, 0), (64, 1), (-64, 0), (-65, 1), (8191, 1), (8192, 2), (i64::MAX, 9)] {
        assert_eq!(len(8, imm), base + more, "{imm}");
    }
    assert_eq!(len(8, i64::MIN), base + 9);
    assert_eq!(len(127, 0), base);
    assert_eq!(len(128, 0), base + 1);
    assert_eq!(len(0x3fff, 0), base + 1);
    assert_eq!(len(0x4000, 0), base + 2);
}

#[test]
fn preflight_returns_42() {
    let engine = engine();
    let module = Module::from_binary(&engine, &codegen::build_preflight()).unwrap();
    let mut store: Store<()> = Store::new(&engine, ());
    let inst = Instance::new(&mut store, &module, &[]).unwrap();
    let f = inst.get_typed_func::<i32, i64>(&mut store, "block").unwrap();
    assert_eq!(f.call(&mut store, 7).unwrap(), 42);
}

/// A register outside the memory is a trap, lifted or not.
#[test]
fn register_out_of_bounds_traps() {
    let mut ir = Vec::new();
    push(&mut ir, 2, reg_off(5), reg_off(5), 0, 1);
    let engine = engine();
    for lift in [false, true] {
        let (bytes, _) = codegen::build_block(&ir, 0x1000, 0x1010, 1, None, None, lift);
        let module = Module::from_binary(&engine, &bytes).unwrap();
        let mut store: Store<()> = Store::new(&engine, ());
        let mem = Memory::new(&mut store, MemoryType::new(1, None)).unwrap();
        let inst = Instance::new(&mut store, &module, &[Extern::Memory(mem)]).unwrap();
        let f = inst.get_typed_func::<i32, i64>(&mut store, "block").unwrap();
        assert!(f.call(&mut store, 0xfffe).is_err());
    }
}
