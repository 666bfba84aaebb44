//! Loads and stores of every width, through the TLB and through helpers.

use jit_host::codegen;
use jit_host::codegen::{BuildError, TlbLayout};
use jit_host::ir::{LoadW, Op, StoreW};
use jit_host::shape::Config;
use wasmtime::{
    Caller, Engine, Extern, Func, Instance, Memory, MemoryType, Module, Store,
};

fn engine() -> Engine {
    let mut config = wasmtime::Config::new();
    config.memory_reservation(0);
    config.memory_reservation_for_growth(0);
    config.memory_guard_size(0);
    Engine::new(&config).unwrap()
}

fn reg_off(n: usize) -> u16 {
    (16 + n * 8) as u16
}

fn push(v: &mut Vec<u8>, kind: u8, rd: u16, rs1: u16, rs2: u16, imm: i64) {
    v.push(kind);
    v.push(0);
    v.extend_from_slice(&rd.to_le_bytes());
    v.extend_from_slice(&rs1.to_le_bytes());
    v.extend_from_slice(&rs2.to_le_bytes());
    v.extend_from_slice(&imm.to_le_bytes());
}

const TLB: TlbLayout = TlbLayout {
    tlb_read_off: 0x400,
    tlb_write_off: 0x600,
    idx_mask: 31,
    entry_shift: 4,
    vaddr_off: 0,
    addend_off: 8,
    pg_shift: 12,
};

#[derive(Default)]
struct Log {
    loads: Vec<(u64, u32)>,
    stores: Vec<(u64, u64)>,
    fail: bool,
}

struct Run {
    pc: u64,
    log: Log,
    mem: Vec<u8>,
}

impl Run {
    fn reg(&self, n: usize) -> u64 {
        let at = reg_off(n) as usize;
        u64::from_le_bytes(self.mem[at..at + 8].try_into().unwrap())
    }
}

/// Runs a block on a memory with an entry for page 0x8000 in both tables: reads go to
/// 0x2000, writes to 0x3000.
fn run(ir: &[u8], tlb: Option<&TlbLayout>, lift: bool, fail: bool, init: &[(usize, u64)]) -> Run {
    let engine = engine();
    let (bytes, used) = codegen::build_block(ir, 0x1000, 0x1010, 4, tlb, None, lift);
    let module = Module::from_binary(&engine, &bytes).unwrap();
    let mut store: Store<Log> = Store::new(&engine, Log { fail, ..Default::default() });
    let mem = Memory::new(&mut store, MemoryType::new(1, None)).unwrap();
    {
        let data = mem.data_mut(&mut store);
        for (table, host) in [(0x400usize, 0x2000u32), (0x600, 0x3000)] {
            let e = table + (8 << 4);
            data[e..e + 8].copy_from_slice(&0x8000u64.to_le_bytes());
            data[e + 8..e + 12].copy_from_slice(&host.wrapping_sub(0x8000).to_le_bytes());
        }
        data[0x2010..0x2018].copy_from_slice(&0x8182_8384_8586_8788u64.to_le_bytes());
        for &(n, v) in init {
            let at = reg_off(n) as usize;
            data[at..at + 8].copy_from_slice(&v.to_le_bytes());
        }
    }
    let load = Func::wrap(
        &mut store,
        |mut c: Caller<'_, Log>, _state: i32, addr: i64, rd: i32| -> i32 {
            c.data_mut().loads.push((addr as u64, rd as u32));
            i32::from(c.data().fail)
        },
    );
    let save = Func::wrap(
        &mut store,
        |mut c: Caller<'_, Log>, _state: i32, addr: i64, val: i64| -> i32 {
            c.data_mut().stores.push((addr as u64, val as u64));
            i32::from(c.data().fail)
        },
    );
    let mut externs = vec![Extern::Memory(mem)];
    for &h in &used {
        externs.push(Extern::Func(if h < 7 { load } else { save }));
    }
    let inst = Instance::new(&mut store, &module, &externs).unwrap();
    let f = inst.get_typed_func::<i32, i64>(&mut store, "block").unwrap();
    let pc = f.call(&mut store, 0).unwrap() as u64;
    let snapshot = mem.data(&store).to_vec();
    Run { pc, log: store.into_data(), mem: snapshot }
}

/// Loads of each width extend as they should.
#[test]
fn tlb_loads_of_every_width() {
    let want: [u64; 7] = [
        0xffff_ffff_ffff_ff88,
        0xffff_ffff_ffff_8788,
        0xffff_ffff_8586_8788,
        0x8182_8384_8586_8788,
        0x88,
        0x8788,
        0x8586_8788,
    ];
    for lift in [false, true] {
        for (i, &w) in want.iter().enumerate() {
            let mut ir = Vec::new();
            push(&mut ir, 38 + i as u8, reg_off(5), reg_off(6), 0, 0x10);
            let r = run(&ir, Some(&TLB), lift, true, &[(6, 0x8000)]);
            assert_eq!(r.pc, 0x1010);
            assert_eq!(r.reg(5), w, "load {i}");
            assert!(r.log.loads.is_empty());
        }
    }
}

/// Stores of each width write their bytes and no others.
#[test]
fn tlb_stores_of_every_width() {
    for lift in [false, true] {
        for (i, n) in [1usize, 2, 4, 8].into_iter().enumerate() {
            let mut ir = Vec::new();
            push(&mut ir, 45 + i as u8, 0, reg_off(6), reg_off(7), 0x20);
            let v = 0x1122_3344_5566_7788u64;
            let r = run(&ir, Some(&TLB), lift, true, &[(6, 0x8000), (7, v)]);
            assert_eq!(r.pc, 0x1010);
            let mut want = v.to_le_bytes();
            for b in &mut want[n..] {
                *b = 0;
            }
            assert_eq!(r.mem[0x3020..0x3028], want, "store {i}");
            assert!(r.log.stores.is_empty());
        }
    }
}

/// A hit is an aligned access to the page of the entry, and nothing else is.
#[test]
fn tlb_hits_are_aligned_accesses_to_the_page() {
    for (i, n) in [1u64, 2, 4, 8].into_iter().enumerate() {
        for addr in [0x8000u64, 0x8001, 0x8002, 0x8004, 0x8008, 0x8ff8, 0x8fff, 0x9000, 0x28000] {
            let mut ir = Vec::new();
            push(&mut ir, 45 + i as u8, 0, reg_off(6), reg_off(7), 0);
            let r = run(&ir, Some(&TLB), false, false, &[(6, addr), (7, 5)]);
            let hit = addr % n == 0 && addr / 4096 == 8;
            assert_eq!(r.log.stores.is_empty(), hit, "{n} bytes at {addr:#x}");
        }
    }
}

/// Pages may be as small as the access.
#[test]
fn tlb_pages_as_small_as_the_access() {
    let small = TlbLayout { pg_shift: 2, ..TLB };
    for (addr, hit) in [(0x8000u64, true), (0x8002, false), (0x8004, false), (0x9000, false)] {
        let mut ir = Vec::new();
        push(&mut ir, 47, 0, reg_off(6), reg_off(7), 0);
        // The entry for 0x8000 is the first of the table here.
        let tlb = TlbLayout { idx_mask: 0, tlb_write_off: 0x600 + (8 << 4), ..small };
        let r = run(&ir, Some(&tlb), false, false, &[(6, addr), (7, 5)]);
        assert_eq!(r.log.stores.is_empty(), hit, "{addr:#x}");
    }
}

/// A helper may look at a lifted register that the block has not written yet.
#[test]
fn helpers_see_registers_before_they_are_written() {
    let mut ir = Vec::new();
    push(&mut ir, 41, reg_off(5), reg_off(6), 0, 0);
    push(&mut ir, 2, reg_off(7), reg_off(7), 0, 1);
    for lift in [false, true] {
        let engine = engine();
        let (bytes, _) = codegen::build_block(&ir, 0x1000, 0x1010, 4, None, None, lift);
        let module = Module::from_binary(&engine, &bytes).unwrap();
        let mut store: Store<()> = Store::new(&engine, ());
        let mem = Memory::new(&mut store, MemoryType::new(1, None)).unwrap();
        let (at5, at7) = (reg_off(5) as usize, reg_off(7) as usize);
        mem.data_mut(&mut store)[at7..at7 + 8].copy_from_slice(&40u64.to_le_bytes());
        let load = Func::wrap(
            &mut store,
            move |mut c: Caller<'_, ()>, _state: i32, _addr: i64, rd: i32| -> i32 {
                let data = mem.data_mut(&mut c);
                data.copy_within(at7..at7 + 8, rd as usize);
                0
            },
        );
        let externs = [Extern::Memory(mem), Extern::Func(load)];
        let inst = Instance::new(&mut store, &module, &externs).unwrap();
        let f = inst.get_typed_func::<i32, i64>(&mut store, "block").unwrap();
        assert_eq!(f.call(&mut store, 0).unwrap(), 0x1010);
        let data = mem.data(&store);
        assert_eq!(data[at5..at5 + 8], 40u64.to_le_bytes());
        assert_eq!(data[at7..at7 + 8], 41u64.to_le_bytes());
    }
}

/// A register out of bounds is a trap, lifted or not.
#[test]
fn registers_out_of_bounds_trap() {
    let mut ir = Vec::new();
    push(&mut ir, 2, reg_off(5), reg_off(6), 0, 1);
    for lift in [false, true] {
        let engine = engine();
        let (bytes, _) = codegen::build_block(&ir, 0x1000, 0x1010, 4, None, None, lift);
        let module = Module::from_binary(&engine, &bytes).unwrap();
        let mut store: Store<()> = Store::new(&engine, ());
        let mem = Memory::new(&mut store, MemoryType::new(1, None)).unwrap();
        let inst = Instance::new(&mut store, &module, &[Extern::Memory(mem)]).unwrap();
        let f = inst.get_typed_func::<i32, i64>(&mut store, "block").unwrap();
        assert!(f.call(&mut store, 0xffff - reg_off(6) as i32).is_err());
        assert_eq!(f.call(&mut store, 0).unwrap(), 0x1010);
    }
}

/// A load to x0 is performed and changes no register.
#[test]
fn load_to_x0() {
    let mut ir = Vec::new();
    push(&mut ir, 41, 0, reg_off(6), 0, 0x10);
    for lift in [false, true] {
        let r = run(&ir, Some(&TLB), lift, true, &[(6, 0x8000)]);
        assert_eq!(r.pc, 0x1010);
        assert!((0..32).all(|n| n == 6 || r.reg(n) == 0));
    }
    let r = run(&ir, None, false, false, &[(6, 0x8000)]);
    assert_eq!(r.log.loads, vec![(0x8010, 0)]);
}

/// A fault on the miss path commits what was written before and runs nothing behind.
#[test]
fn tlb_miss_fault_commits_lifted_registers() {
    let mut ir = Vec::new();
    push(&mut ir, 2, reg_off(5), reg_off(5), 0, 1);
    push(&mut ir, 48, 6, reg_off(6), reg_off(5), 0);
    push(&mut ir, 2, reg_off(5), reg_off(5), 0, 100);
    for lift in [false, true] {
        let r = run(&ir, Some(&TLB), lift, true, &[(5, 7), (6, 0x4000)]);
        assert_eq!(r.pc, 0x1006 | 1);
        assert_eq!(r.reg(5), 8);
        assert_eq!(r.log.stores, vec![(0x4000, 8)]);
    }
}

/// A block imports the helpers it calls, in ascending order, each once.
#[test]
fn imports_what_it_calls() {
    let mut ir = Vec::new();
    for kind in [48u8, 40, 63, 38, 40, 45, 62] {
        push(&mut ir, kind, reg_off(5), reg_off(6), reg_off(7), 0);
    }
    let (bytes, used) = codegen::build_block(&ir, 0x1000, 0x1010, 7, None, None, false);
    assert_eq!(used, vec![0, 2, 7, 10, 11, 12]);
    let module = Module::from_binary(&engine(), &bytes).unwrap();
    let names: Vec<String> = module.imports().map(|i| i.name().to_string()).collect();
    let mut want = vec!["mem".to_string()];
    want.extend(used.iter().map(|&h| codegen::MEM_HELPER_EXPORTS[h].to_string()));
    assert_eq!(names, want);
    assert_eq!(codegen::MEM_HELPER_EXPORTS[12], "c2w_jit_amo_d");
}

/// The pc of a fault wraps around as pcs do.
#[test]
fn fault_pc_wraps() {
    let mut ir = Vec::new();
    push(&mut ir, 41, reg_off(5), reg_off(6), 8, 0);
    let engine = engine();
    let (bytes, _) = codegen::build_block(&ir, u64::MAX - 3, 0x10, 1, None, None, false);
    let module = Module::from_binary(&engine, &bytes).unwrap();
    let mut store: Store<()> = Store::new(&engine, ());
    let mem = Memory::new(&mut store, MemoryType::new(1, None)).unwrap();
    let ld = Func::wrap(&mut store, |_s: i32, _a: i64, _r: i32| -> i32 { 1 });
    let inst =
        Instance::new(&mut store, &module, &[Extern::Memory(mem), Extern::Func(ld)]).unwrap();
    let f = inst.get_typed_func::<i32, i64>(&mut store, "block").unwrap();
    assert_eq!(f.call(&mut store, 0).unwrap(), 5);
}

#[test]
fn layouts_are_checked() {
    let load = Op::Load { w: LoadW::D, rd: 24, rs1: 32, imm: 0, pc_off: 0 };
    let store = Op::Store { w: StoreW::D, rs1: 24, rs2: 32, imm: 0, pc_off: 0 };
    let other = Op::Addi { rd: 24, rs1: 32, imm: 0 };
    let served = |t: TlbLayout| (t.can_serve(&load), t.can_serve(&store), t.can_serve(&other));
    assert_eq!(served(TLB), (true, true, true));
    assert_eq!(served(TlbLayout { pg_shift: 64, ..TLB }), (false, false, true));
    let t = TlbLayout { tlb_read_off: u32::MAX, addend_off: 1, ..TLB };
    assert_eq!(served(t), (false, true, true));
    let t = TlbLayout { tlb_write_off: u32::MAX - 8, vaddr_off: 8, ..TLB };
    assert_eq!(served(t), (true, true, true));
    let t = TlbLayout { tlb_write_off: u32::MAX - 7, vaddr_off: 8, ..TLB };
    assert_eq!(served(t), (true, false, true));
}

/// A layout counts for the operations that use it only.
#[test]
fn layouts_are_used_by_loads_and_stores() {
    let config = |tlb| Config {
        start_pc: 0x1000,
        end_pc: 0x1004,
        n_insns: 1,
        tlb: Some(tlb),
        chain: None,
        lift: false,
    };
    let one = |kind| {
        let mut ir = vec![];
        push(&mut ir, kind, reg_off(5), reg_off(6), reg_off(7), 8);
        ir
    };
    let (addi, ld, sd) = (one(2), one(41), one(48));
    let plain = codegen::build_block(&addi, 0x1000, 0x1004, 1, None, None, false);
    let bad = TlbLayout { pg_shift: 64, ..TLB };
    assert_eq!(codegen::build_block(&addi, 0x1000, 0x1004, 1, Some(&bad), None, false), plain);
    assert_eq!(codegen::try_build_block(&addi, &config(bad)), Ok(plain));
    assert_eq!(codegen::try_build_block(&ld, &config(bad)), Err(BuildError::Layout));
    assert_eq!(codegen::try_build_block(&sd, &config(bad)), Err(BuildError::Layout));
    let no_writes = TlbLayout { tlb_write_off: u32::MAX, ..TLB };
    let (bytes, used) = codegen::try_build_block(&ld, &config(no_writes)).unwrap();
    assert_eq!(used, vec![3]);
    let same = codegen::build_block(&ld, 0x1000, 0x1004, 1, Some(&TLB), None, false);
    assert_eq!(bytes, same.0);
    assert_eq!(codegen::try_build_block(&sd, &config(no_writes)), Err(BuildError::Layout));
    assert_eq!(codegen::try_build_block(&[0; 16], &config(TLB)), Err(BuildError::Kind));
    assert_eq!(BuildError::Kind.message(), "unknown IR op_kind");
    assert_eq!(BuildError::Layout.message(), "unusable layout");
    assert_eq!(BuildError::Length.message(), "block too long");
}
