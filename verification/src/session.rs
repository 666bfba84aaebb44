//! The code generator as a coordinator in a browser drives it: one stream in, one module out,
//! with layouts that stay until they are set again.

use vstd::prelude::*;
use crate::codegen::{block_module, build_error, try_build_block};
use crate::encode::module_bytes;
use crate::ir::ir_ops;
use crate::shape::{used_helpers, ChainLayout, Config, TlbLayout};

verus! {

/// The state of a code generator.
pub struct Session {
    /// The buffer that streams are written to.
    pub input: Vec<u8>,
    /// The module that was built last.
    pub module: Vec<u8>,
    /// The ids of the helpers that it imports, in import order.
    pub helpers: Vec<u8>,
    pub tlb: Option<TlbLayout>,
    pub chain: Option<ChainLayout>,
    pub lift: bool,
}

impl Session {
    /// What blocks are compiled with.
    pub open spec fn config(self, start_pc: u64, end_pc: u64, n_insns: u32) -> Config {
        Config {
            start_pc,
            end_pc,
            n_insns,
            tlb: self.tlb,
            chain: self.chain,
            lift: self.lift,
        }
    }

    /// A stream of the first `ir_len` bytes of the buffer can be compiled: they are there,
    /// and make a block that can be compiled with the layouts as they are set.
    pub open spec fn can_build(
        self,
        ir_len: u32,
        start_pc: u64,
        end_pc: u64,
        n_insns: u32,
    ) -> bool {
        &&& ir_len <= self.input@.len()
        &&& build_error(
            self.input@.take(ir_len as int),
            self.config(start_pc, end_pc, n_insns),
        ) is None
    }

    /// A session with empty buffers and no layout.
    pub fn new() -> (s: Session)
        ensures
            s.input@ == Seq::<u8>::empty(),
            s.module@ == Seq::<u8>::empty(),
            s.helpers@ == Seq::<u8>::empty(),
            s.tlb is None,
            s.chain is None,
            !s.lift,
    {
        Session {
            input: Vec::new(),
            module: Vec::new(),
            helpers: Vec::new(),
            tlb: None,
            chain: None,
            lift: false,
        }
    }

    /// Makes the buffer `len` zero bytes long.
    pub fn reserve(&mut self, len: u32)
        ensures
            final(self).input@ == Seq::new(len as nat, |i: int| 0u8),
            final(self).module == old(self).module,
            final(self).helpers == old(self).helpers,
            final(self).tlb == old(self).tlb,
            final(self).chain == old(self).chain,
            final(self).lift == old(self).lift,
    {
        let mut input: Vec<u8> = Vec::new();
        let mut i: u32 = 0;
        while i < len
            invariant
                i <= len,
                input@ =~= Seq::new(i as nat, |i: int| 0u8),
            decreases len - i,
        {
            input.push(0);
            i = i + 1;
        }
        self.input = input;
    }

    /// From now on memory accesses probe the TLB of this layout.
    pub fn set_tlb(&mut self, tlb: TlbLayout)
        ensures
            *final(self) == (Session { tlb: Some(tlb), ..*old(self) }),
    {
        self.tlb = Some(tlb);
    }

    /// From now on blocks chain by this layout.
    pub fn set_chain(&mut self, chain: ChainLayout)
        ensures
            *final(self) == (Session { chain: Some(chain), ..*old(self) }),
    {
        self.chain = Some(chain);
    }

    /// From now on blocks keep registers in locals, or do not.
    pub fn set_lift(&mut self, lift: bool)
        ensures
            *final(self) == (Session { lift, ..*old(self) }),
    {
        self.lift = lift;
    }

    /// Compiles the block whose stream is the first `ir_len` bytes of the buffer. Gives the
    /// length of its module, modulo 2 to the 32nd; nothing, and changes nothing, if it
    /// cannot be compiled.
    pub fn build(&mut self, ir_len: u32, start_pc: u64, end_pc: u64, n_insns: u32) -> (r: Option<
        u32,
    >)
        ensures
            r is Some <==> old(self).can_build(ir_len, start_pc, end_pc, n_insns),
            r is None ==> *final(self) == *old(self),
            r matches Some(n) ==> {
                let ops = ir_ops(old(self).input@.take(ir_len as int));
                &&& final(self).module@ == module_bytes(
                    block_module(ops, old(self).config(start_pc, end_pc, n_insns)),
                )
                &&& final(self).helpers@ == used_helpers(ops).map_values(|id: usize| id as u8)
                &&& n == final(self).module@.len() as u32
                &&& final(self).input == old(self).input
                &&& final(self).tlb == old(self).tlb
                &&& final(self).chain == old(self).chain
                &&& final(self).lift == old(self).lift
            },
    {
        let n: usize = ir_len as usize;
        if n > self.input.len() {
            return None;
        }
        let mut ir: Vec<u8> = Vec::new();
        let mut i: usize = 0;
        while i < n
            invariant
                i <= n <= self.input@.len(),
                ir@ =~= self.input@.take(i as int),
            decreases n - i,
        {
            ir.push(self.input[i]);
            i = i + 1;
        }
        let cfg = Config {
            start_pc,
            end_pc,
            n_insns,
            tlb: self.tlb,
            chain: self.chain,
            lift: self.lift,
        };
        let (module, used) = match try_build_block(ir.as_slice(), &cfg) {
            Ok(built) => built,
            Err(_) => {
                return None;
            },
        };
        let mut helpers: Vec<u8> = Vec::new();
        let mut j: usize = 0;
        while j < used.len()
            invariant
                j <= used@.len(),
                helpers@ =~= used@.take(j as int).map_values(|id: usize| id as u8),
            decreases used.len() - j,
        {
            helpers.push(used[j] as u8);
            j = j + 1;
        }
        assert(used@.take(j as int) =~= used@);
        self.module = module;
        self.helpers = helpers;
        Some(self.module.len() as u32)
    }
}

} // verus!
