//! Chaining of blocks whose registers are lifted, and its edges.

use jit_host::codegen;
use jit_host::codegen::ChainLayout;
use wasmtime::{
    Config, Engine, Extern, Instance, Memory, MemoryType, Module, Ref, RefType, Store, Table,
    TableType, TypedFunc,
};

fn engine() -> Engine {
    let mut config = Config::new();
    config.memory_reservation(0);
    config.memory_reservation_for_growth(0);
    config.memory_guard_size(0);
    Engine::new(&config).unwrap()
}

const CHAIN: ChainLayout = ChainLayout {
    n_cycles_off: 8,
    map_base: 0x10000,
    entry_size: 40,
    fn_idx_off: 16,
    user_gen_off: 20,
    global_gen_off: 24,
    page_gen_off: 28,
    map_bits: 8,
    page_gen_bits: 12,
    user_gen_addr: 0x30000,
    global_gen_addr: 0x30004,
    page_gen_base: 0x31000,
    chain_hops_addr: 0x30008,
};

fn reg_off(n: usize) -> usize {
    16 + n * 8
}

fn addi(reg: usize, k: i64) -> Vec<u8> {
    let mut v = vec![2, 0];
    v.extend_from_slice(&(reg_off(reg) as u16).to_le_bytes());
    v.extend_from_slice(&(reg_off(reg) as u16).to_le_bytes());
    v.extend_from_slice(&0u16.to_le_bytes());
    v.extend_from_slice(&k.to_le_bytes());
    v
}

struct Guest {
    store: Store<()>,
    mem: Memory,
    table: Table,
    engine: Engine,
}

impl Guest {
    fn new() -> Guest {
        let engine = engine();
        let mut store: Store<()> = Store::new(&engine, ());
        let mem = Memory::new(&mut store, MemoryType::new(4, None)).unwrap();
        let ty = TableType::new(RefType::FUNCREF, 1, None);
        let table = Table::new(&mut store, ty, Ref::Func(None)).unwrap();
        Guest { store, mem, table, engine }
    }

    fn w32(&mut self, at: usize, v: u32) {
        self.mem.data_mut(&mut self.store)[at..at + 4].copy_from_slice(&v.to_le_bytes());
    }

    fn r64(&self, at: usize) -> u64 {
        u64::from_le_bytes(self.mem.data(&self.store)[at..at + 8].try_into().unwrap())
    }

    fn n_cycles(&self) -> i32 {
        i32::from_le_bytes(self.mem.data(&self.store)[8..12].try_into().unwrap())
    }

    fn block(&mut self, ir: &[u8], pc: u64, end: u64, n: u32) -> TypedFunc<i32, i64> {
        let (bytes, used) = codegen::build_block(ir, pc, end, n, None, Some(&CHAIN), true);
        assert!(used.is_empty());
        let module = Module::from_binary(&self.engine, &bytes).unwrap();
        let externs = [Extern::Memory(self.mem), Extern::Table(self.table)];
        let inst = Instance::new(&mut self.store, &module, &externs).unwrap();
        inst.get_typed_func::<i32, i64>(&mut self.store, "block").unwrap()
    }

    fn entry(pc: u64) -> usize {
        let h = (pc >> 1).wrapping_mul(0x9E37_79B9_7F4A_7C15) >> 56;
        0x10000 + h as usize * 40
    }

    fn map(&mut self, pc: u64, slot: u32) {
        let e = Self::entry(pc);
        self.mem.data_mut(&mut self.store)[e..e + 8].copy_from_slice(&pc.to_le_bytes());
        self.w32(e + 16, slot);
    }

    fn add(&mut self, f: &TypedFunc<i32, i64>) -> u32 {
        self.table.grow(&mut self.store, 1, Ref::Func(Some(*f.func()))).unwrap() as u32
    }
}

/// A register that one block wrote in a local is there for the next.
#[test]
fn lifted_registers_cross_hops() {
    let mut g = Guest::new();
    let b = g.block(&addi(5, 100), 0x1008, 0x1010, 3);
    let slot = g.add(&b);
    g.map(0x1008, slot);
    let a = g.block(&addi(5, 1), 0x1000, 0x1008, 2);
    g.w32(8, 10);
    assert_eq!(a.call(&mut g.store, 0).unwrap(), 0x1010);
    assert_eq!(g.r64(reg_off(5)), 101);
    assert_eq!(g.n_cycles(), 5);
    assert_eq!(g.r64(0x30008), 1);
}

/// A block that leads to itself runs until its budget is used up.
#[test]
fn loops_end_with_the_budget() {
    let mut g = Guest::new();
    let a = g.block(&addi(5, 1), 0x1000, 0x1000, 3);
    let slot = g.add(&a);
    g.map(0x1000, slot);
    g.w32(8, 10);
    assert_eq!(a.call(&mut g.store, 0).unwrap(), 0x1000);
    assert_eq!(g.n_cycles(), -2);
    assert_eq!(g.r64(reg_off(5)), 4);
    assert_eq!(g.r64(0x30008), 3);
}

/// A budget of exactly zero is used up.
#[test]
fn budget_of_zero() {
    let mut g = Guest::new();
    let a = g.block(&addi(5, 1), 0x1000, 0x1000, 3);
    let slot = g.add(&a);
    g.map(0x1000, slot);
    g.w32(8, 3);
    assert_eq!(a.call(&mut g.store, 0).unwrap(), 0x1000);
    assert_eq!((g.n_cycles(), g.r64(0x30008)), (0, 0));
}

/// An entry without a slot, or with a failure for one, is not taken, nor is one for another
/// pc.
#[test]
fn entries_without_a_slot() {
    for slot in [0u32, 0xffff_ffff] {
        let mut g = Guest::new();
        let a = g.block(&addi(5, 1), 0x1000, 0x1008, 1);
        g.map(0x1008, slot);
        g.w32(8, 10);
        assert_eq!(a.call(&mut g.store, 0).unwrap(), 0x1008);
        assert_eq!(g.r64(0x30008), 0);
    }
    let mut g = Guest::new();
    let a = g.block(&addi(5, 1), 0x1000, 0x1008, 1);
    let slot = g.add(&a);
    g.map(0x1008, slot);
    let e = Guest::entry(0x1008);
    g.w32(e, 0x100a);
    g.w32(8, 10);
    assert_eq!(a.call(&mut g.store, 0).unwrap(), 0x1008);
    assert_eq!(g.r64(0x30008), 0);
}
