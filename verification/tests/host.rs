//! The decisions of the embedder.

use jit_host::config::Truncation;
use jit_host::host::{
    check_helpers, exact_log2, filter, ir_range, tlb_masks, truncated, Host, Options, Prepared,
    RegisterError,
};
use jit_host::codegen;
use jit_host::codegen::{BuildError, TlbLayout};

const KERNEL: u64 = 0xffff_ffc0_0000_0000;

fn options() -> Options {
    Options {
        disable_compile: false,
        max_blocks: u64::MAX,
        skip_pcs: vec![],
        ignore_flush: false,
        no_branch: false,
        no_jump: false,
        no_mem: false,
        truncate: None,
    }
}

fn ops(kinds: &[u8]) -> Vec<u8> {
    let mut v = vec![0; 16 * kinds.len()];
    for (i, &k) in kinds.iter().enumerate() {
        v[16 * i] = k;
        v[16 * i + 2] = 24;
        v[16 * i + 4] = 32;
    }
    v
}

/// Registers a block that compiles, under a new handle.
fn register(h: &mut Host, pc: u64, ir: &[u8], handle: usize, slot: Option<u64>) -> i32 {
    match h.prepare(&options(), pc, pc + 8, 0, ir) {
        Prepared::Compile { ir, .. } => {
            let r = h.link(pc, pc + 8, 0, ir, handle, slot);
            h.conclude(pc, r, 5)
        }
        other => panic!("{other:?}"),
    }
}

#[test]
fn lookup_finds_what_was_registered() {
    let mut h = Host::new(0);
    assert_eq!(h.lookup(0x1000), None);
    assert_eq!(register(&mut h, 0x1000, &ops(&[2]), 7, None), 1);
    assert_eq!(h.lookup(0x1000), Some(7));
    assert_eq!(h.lookup(0x1002), None);
    h.mark_uncompilable(0x2000);
    assert_eq!(h.lookup(0x2000), None);
    let s = h.stats();
    assert_eq!((s.dispatch_miss, s.register_ok, s.compile_nanos), (3, 1, 5));
    assert_eq!((h.block_count(), h.cache_len()), (2, 1));
}

#[test]
fn prepare_compiles_as_build_block() {
    let mut h = Host::new(0);
    let ir = ops(&[2, 41]);
    let (want, helpers_want) = codegen::build_block(&ir, 0x1000, 0x1008, 0, None, None, false);
    match h.prepare(&options(), 0x1000, 0x1008, 0, &ir) {
        Prepared::Compile { ir: s, module, helpers } => {
            assert_eq!((s, module, helpers), (ir.clone(), want.clone(), helpers_want));
        }
        other => panic!("{other:?}"),
    }
    let tlb = TlbLayout {
        tlb_read_off: 0x400,
        tlb_write_off: 0x600,
        idx_mask: 31,
        entry_shift: 4,
        vaddr_off: 0,
        addend_off: 8,
        pg_shift: 12,
    };
    h.set_tlb(tlb);
    match h.prepare(&options(), 0x1000, 0x1008, 0, &ir) {
        Prepared::Compile { module, .. } => {
            let (probing, _) = codegen::build_block(&ir, 0x1000, 0x1008, 0, Some(&tlb), None, false);
            assert_eq!(module, probing);
            assert_ne!(module, want);
        }
        other => panic!("{other:?}"),
    }
}

#[test]
fn unknown_operations_are_not_compiled() {
    let mut h = Host::new(0);
    for kind in [0u8, 64, 255] {
        let r = h.prepare(&options(), 0x1000, 0x1008, 0, &ops(&[2, kind]));
        assert!(matches!(r, Prepared::Unsupported(BuildError::Kind)));
    }
}

/// A layout of the TLB that a block does not use is no obstacle to it.
#[test]
fn unused_layouts_do_not_count() {
    let mut h = Host::new(0);
    h.set_tlb(TlbLayout {
        tlb_read_off: 0x400,
        tlb_write_off: 0x600,
        idx_mask: 31,
        entry_shift: 4,
        vaddr_off: 0,
        addend_off: 8,
        pg_shift: 64,
    });
    let (want, _) = codegen::build_block(&ops(&[2]), 0x1000, 0x1008, 0, None, None, false);
    match h.prepare(&options(), 0x1000, 0x1008, 0, &ops(&[2])) {
        Prepared::Compile { module, .. } => assert_eq!(module, want),
        other => panic!("{other:?}"),
    }
    let r = h.prepare(&options(), 0x1000, 0x1008, 0, &ops(&[2, 41]));
    assert!(matches!(r, Prepared::Unsupported(BuildError::Layout)));
}

/// The same stream at another pc is another block.
#[test]
fn blocks_have_their_own_pc() {
    let mut h = Host::new(0);
    h.set_wasm_dispatch();
    let ir = ops(&[41]);
    for (pc, handle) in [(0x1000, 0), (0x2000, 1)] {
        match h.prepare(&options(), pc, 0x3000, 0, &ir) {
            Prepared::Compile { ir, .. } => {
                let r = h.link(pc, 0x3000, 0, ir, handle, Some(7 + handle as u64));
                assert_eq!(r, Ok(7 + handle as i32));
            }
            other => panic!("{other:?}"),
        }
    }
    assert_eq!((h.cache_len(), h.stats().cache_hit), (2, 0));
    assert!(matches!(h.prepare(&options(), 0x1000, 0x3000, 0, &ir), Prepared::Relinked(7)));
    assert!(matches!(h.prepare(&options(), 0x2000, 0x3000, 0, &ir), Prepared::Relinked(8)));
    assert_eq!(h.stats().cache_hit, 2);
}

/// A flush drops mappings, not code: the block is found again and the answer is the same.
#[test]
fn relinked_after_flush() {
    let mut h = Host::new(0);
    let ir = ops(&[2]);
    assert_eq!(register(&mut h, 0x1000, &ir, 3, None), 1);
    h.flush(&options(), 2, 0);
    assert_eq!(h.lookup(0x1000), None);
    assert!(matches!(h.prepare(&options(), 0x1000, 0x1008, 0, &ir), Prepared::Relinked(1)));
    assert_eq!(h.lookup(0x1000), Some(3));
    assert_eq!(h.stats().cache_hit, 1);
    assert_eq!(h.cache_len(), 1);
}

/// Each part of what a block was compiled from counts.
#[test]
fn cache_keys() {
    let mut h = Host::new(0);
    let ir = ops(&[2]);
    register(&mut h, 0x1000, &ir, 0, None);
    let compiles = |r: Prepared| matches!(r, Prepared::Compile { .. });
    assert!(compiles(h.prepare(&options(), 0x1002, 0x1008, 0, &ir)));
    assert!(compiles(h.prepare(&options(), 0x1000, 0x100a, 0, &ir)));
    assert!(compiles(h.prepare(&options(), 0x1000, 0x1008, 1, &ir)));
    assert!(compiles(h.prepare(&options(), 0x1000, 0x1008, 0, &ops(&[3]))));
    assert!(compiles(h.prepare(&options(), 0x1000, 0x1008, 0, &ops(&[2, 2]))));
    assert!(!compiles(h.prepare(&options(), 0x1000, 0x1008, 0, &ir)));
}

#[test]
fn slots_where_the_guest_dispatches() {
    let mut h = Host::new(0);
    assert_eq!(h.fail_code(), 0);
    h.set_wasm_dispatch();
    assert_eq!(h.fail_code(), -1);
    let ir = ops(&[2]);
    assert_eq!(register(&mut h, 0x1000, &ir, 0, Some(41)), 41);
    assert_eq!(h.lookup(0x1000), None, "the guest finds it itself");
    assert!(matches!(h.prepare(&options(), 0x1000, 0x1008, 0, &ir), Prepared::Relinked(41)));
    assert_eq!(
        h.link(0x2000, 0x2008, 0, ir.clone(), 1, Some(1 << 32)),
        Err(RegisterError::SlotTooLarge)
    );
    assert_eq!(h.link(0x2000, 0x2008, 0, ir, 1, Some(u64::from(u32::MAX))), Ok(-1));
}

#[test]
fn failures_bar_a_pc() {
    let mut h = Host::new(0);
    register(&mut h, 0x1000, &ops(&[2]), 0, None);
    assert_eq!(h.conclude(0x1000, Err(RegisterError::Outside), 9), 0);
    assert_eq!(h.lookup(0x1000), None);
    assert_eq!((h.stats().register_fail, h.stats().compile_nanos), (1, 14));
    h.set_wasm_dispatch();
    assert_eq!(h.conclude(0x1000, Err(RegisterError::NoMemory), 0), -1);
}

#[test]
fn some_blocks_are_not_considered() {
    let mut h = Host::new(0);
    assert_eq!(h.consider(&options(), 0x1000), None);
    assert_eq!(h.block_count(), 0);
    let off = Options { disable_compile: true, ..options() };
    assert_eq!(h.consider(&off, 0x1000), Some(0));
    assert_eq!(h.block_count(), 1);
    let skip = Options { skip_pcs: vec![0x3000, 0x2000], ..options() };
    assert_eq!(h.consider(&skip, 0x2000), Some(0));
    assert_eq!(h.consider(&skip, 0x2002), None);
    let one = Options { max_blocks: 1, ..options() };
    assert_eq!(h.consider(&one, 0x4000), None);
    register(&mut h, 0x4000, &ops(&[2]), 0, None);
    assert_eq!(h.consider(&one, 0x5000), Some(0));
}

/// A change of address space spares the kernel half.
#[test]
fn flush_of_an_address_space() {
    let mut h = Host::new(0);
    for (i, pc) in [0x1000, KERNEL - 8, KERNEL, KERNEL + 0x1000].into_iter().enumerate() {
        register(&mut h, pc, &ops(&[2]), i, None);
    }
    h.flush(&options(), 0, 0);
    assert_eq!(h.lookup(0x1000), None);
    assert_eq!(h.lookup(KERNEL - 8), None);
    assert_eq!(h.lookup(KERNEL), Some(2));
    assert_eq!(h.lookup(KERNEL + 0x1000), Some(3));
    assert_eq!(h.stats().flush_satp, 1);
}

/// A change of one page's mapping drops its blocks.
#[test]
fn flush_of_a_page() {
    let mut h = Host::new(0);
    for (i, pc) in [0x1ffe, 0x2000, 0x2ffe, 0x3000, u64::MAX - 1].into_iter().enumerate() {
        h.link(pc, 0, 0, ops(&[2]), i, None).unwrap();
    }
    h.flush(&options(), 1, 0x2abc);
    assert_eq!(h.lookup(0x1ffe), Some(0));
    assert_eq!(h.lookup(0x2000), None);
    assert_eq!(h.lookup(0x2ffe), None);
    assert_eq!(h.lookup(0x3000), Some(3));
    h.flush(&options(), 1, -4096);
    assert_eq!(h.lookup(u64::MAX - 1), None);
    assert_eq!(h.lookup(0x3000), Some(3));
    h.flush(&options(), 1, 0);
    assert_eq!(h.block_count(), 0);
    assert_eq!(h.stats().flush_sfence, 3);
}

#[test]
fn flush_of_everything() {
    for kind in [2, 3, -1] {
        let mut h = Host::new(0);
        register(&mut h, KERNEL, &ops(&[2]), 0, None);
        h.flush(&options(), kind, 0x1000);
        assert_eq!(h.block_count(), 0);
        assert_eq!(h.stats().flush_fencei, 1);
    }
}

#[test]
fn flushes_that_only_count() {
    let mut h = Host::new(0);
    register(&mut h, 0x1000, &ops(&[2]), 0, None);
    h.flush(&Options { ignore_flush: true, ..options() }, 2, 0);
    assert_eq!(h.lookup(0x1000), Some(0));
    h.set_wasm_dispatch();
    h.flush(&options(), 2, 0);
    assert_eq!(h.lookup(0x1000), Some(0));
    assert_eq!(h.stats().flush_fencei, 2);
}

/// The trace holds the last dispatches, the oldest first.
#[test]
fn trace_keeps_the_last() {
    let mut h = Host::new(2);
    for i in 0..5 {
        h.dispatched(i, i + 10);
    }
    assert_eq!(h.trace_len(), 2);
    assert_eq!((h.trace_at(0), h.trace_at(1)), ((3, 13), (4, 14)));
    assert_eq!(h.stats().dispatch_hit, 5);
    let mut off = Host::new(0);
    off.dispatched(1, 2);
    assert_eq!(off.trace_len(), 0);
}

#[test]
fn streams_are_in_bounds() {
    assert_eq!(ir_range(16, 32, 48), Ok((16, 48)));
    assert_eq!(ir_range(0, 0, 0), Ok((0, 0)));
    assert_eq!(ir_range(16, 33, 48), Err(RegisterError::OutOfBounds));
    assert_eq!(ir_range(-1, 0, 48), Err(RegisterError::OutOfBounds));
    assert_eq!(ir_range(-1, 1, 48), Err(RegisterError::Overflow));
    assert_eq!(ir_range(-16, -16, 48), Err(RegisterError::Overflow));
    assert_eq!(ir_range(i32::MIN, 0, u64::MAX), Ok((0xffff_ffff_8000_0000, 0xffff_ffff_8000_0000)));
}

#[test]
fn filters() {
    let b = Options { no_branch: true, ..options() };
    let j = Options { no_jump: true, ..options() };
    let m = Options { no_mem: true, ..options() };
    for kind in 32..=37 {
        assert_eq!(filter(&b, &ops(&[2, kind])), Some(RegisterError::Branch));
        assert_eq!(filter(&j, &ops(&[2, kind])), None);
    }
    for kind in [30, 31] {
        assert_eq!(filter(&j, &ops(&[2, kind])), Some(RegisterError::Jump));
        assert_eq!(filter(&b, &ops(&[2, kind])), None);
    }
    assert_eq!(filter(&b, &ops(&[32, 2])), None, "only the last operation counts");
    assert_eq!(filter(&m, &ops(&[38, 2])), Some(RegisterError::Mem));
    assert_eq!(filter(&m, &ops(&[2, 48])), Some(RegisterError::Mem));
    assert_eq!(filter(&m, &ops(&[2, 37, 49])), None);
    assert_eq!(filter(&m, &[]), None);
    // What follows the last whole operation does not count.
    let partial = |kinds: &[u8]| {
        let mut ir = ops(kinds);
        ir.extend_from_slice(&[32; 5]);
        ir
    };
    let mut odd = partial(&[2, 2]);
    odd[21] = 32;
    assert_eq!(filter(&b, &odd), None);
    assert_eq!(filter(&b, &partial(&[2, 35])), Some(RegisterError::Branch));
    assert_eq!(filter(&j, &partial(&[30])), Some(RegisterError::Jump));
    let mut h = Host::new(0);
    let r = h.prepare(&m, 0x1000, 0x1008, 0, &ops(&[41]));
    assert!(matches!(r, Prepared::Refused(RegisterError::Mem)));
    assert_eq!(RegisterError::Mem.message(), "JIT_NO_MEM: skipping block with memory ops");
    assert_eq!(RegisterError::NoMemory.message(), "guest memory not cached");
}

#[test]
fn truncation() {
    let ir = ops(&[2, 3, 4]);
    let t = |ops, pc| Some(Truncation { ops, pc });
    assert_eq!(truncated(t(2, 0x1000), 0x1000, &ir), ir[..32].to_vec());
    assert_eq!(truncated(t(0, 0x1000), 0x1000, &ir), Vec::<u8>::new());
    assert_eq!(truncated(t(2, 0x1002), 0x1000, &ir), ir);
    assert_eq!(truncated(t(3, 0x1000), 0x1000, &ir), ir);
    assert_eq!(truncated(t(u64::MAX, 0x1000), 0x1000, &ir), ir);
    assert_eq!(truncated(None, 0x1000, &ir), ir);
    let mut h = Host::new(0);
    let cut = Options { truncate: t(1, 0x1000), ..options() };
    match h.prepare(&cut, 0x1000, 0x1008, 0, &ir) {
        Prepared::Compile { ir: s, .. } => assert_eq!(s, ir[..16].to_vec()),
        other => panic!("{other:?}"),
    }
}

#[test]
fn helpers_must_be_exported() {
    let none = Err(RegisterError::NoHelpers);
    assert_eq!(check_helpers(&vec![3], false, true), none);
    assert_eq!(check_helpers(&vec![3, 10], true, false), Ok(()));
    assert_eq!(check_helpers(&vec![3, 11], true, false), none);
    assert_eq!(check_helpers(&vec![12], false, true), Ok(()));
    assert_eq!(check_helpers(&vec![0, 12], true, true), Ok(()));
    assert_eq!(check_helpers(&vec![], false, false), Ok(()));
}

#[test]
fn tlb_sizes_are_powers_of_two() {
    assert_eq!(tlb_masks(256, 16), Some((255, 4)));
    assert_eq!(tlb_masks(1, 1), Some((0, 0)));
    assert_eq!(tlb_masks(0x8000_0000, 0x8000_0000), Some((0x7fff_ffff, 31)));
    assert_eq!(tlb_masks(255, 16), None);
    assert_eq!(tlb_masks(256, 24), None);
    assert_eq!(tlb_masks(0, 16), None);
    assert_eq!(exact_log2(0x4000), Some(14));
    assert_eq!(exact_log2(0x4001), None);
}
