//! The content cache of compiled blocks.
//!
//! A block is found again by what it was compiled from. Code that has changed gives another
//! stream and so another key, which is why nothing is ever dropped from the cache.

use std::collections::HashMap;
use vstd::prelude::*;

verus! {

/// What a block is compiled from. The pcs are part of it: they are baked into the code.
#[verifier::ext_equal]
pub struct CacheKey {
    pub pc: u64,
    pub end_pc: u64,
    pub n_insns: u32,
    pub ir: Seq<u8>,
}

/// A compiled block: the embedder's handle of its function, and its slot in the guest's
/// function table where the guest dispatches by itself.
#[derive(Clone, Copy, Debug, PartialEq, Eq, Structural)]
pub struct Cached {
    pub handle: usize,
    pub slot: Option<u32>,
}

struct Entry {
    pc: u64,
    end_pc: u64,
    n_insns: u32,
    ir: Vec<u8>,
    block: Cached,
}

impl Entry {
    spec fn key(self) -> CacheKey {
        CacheKey { pc: self.pc, end_pc: self.end_pc, n_insns: self.n_insns, ir: self.ir@ }
    }
}

/// Compiled blocks by content.
pub struct Cache {
    entries: Vec<Entry>,
    /// Places among the entries of the blocks at a pc.
    at_pc: HashMap<u64, Vec<usize>>,
}

/// The entries as a map.
spec fn contents(entries: Seq<Entry>) -> Map<CacheKey, Cached>
    decreases entries.len(),
{
    if entries.len() == 0 {
        Map::empty()
    } else {
        contents(entries.drop_last()).insert(entries.last().key(), entries.last().block)
    }
}

/// Entries with different keys are found in the map, and nothing else is.
proof fn lemma_contents(entries: Seq<Entry>)
    requires
        distinct(entries),
    ensures
        forall|i: int|
            0 <= i < entries.len() ==> #[trigger] contents(entries).contains_pair(
                entries[i].key(),
                entries[i].block,
            ),
        forall|k: CacheKey| #[trigger]
            contents(entries).contains_key(k) ==> exists|i: int|
                0 <= i < entries.len() && #[trigger] entries[i].key() == k,
        contents(entries).dom().finite(),
        contents(entries).len() == entries.len(),
    decreases entries.len(),
{
    if entries.len() > 0 {
        let init = entries.drop_last();
        assert(distinct(init)) by {
            assert forall|i: int, j: int| 0 <= i < j < init.len() implies (
            #[trigger] init[i]).key() != (#[trigger] init[j]).key() by {
                assert(entries[i].key() != entries[j].key());
            }
        }
        lemma_contents(init);
        let k = entries.last().key();
        assert(!contents(init).contains_key(k)) by {
            if contents(init).contains_key(k) {
                let i = choose|i: int| 0 <= i < init.len() && #[trigger] init[i].key() == k;
                assert(entries[i].key() != entries[entries.len() - 1].key());
            }
        }
        assert forall|i: int| 0 <= i < entries.len() implies #[trigger] contents(
            entries,
        ).contains_pair(entries[i].key(), entries[i].block) by {
            if i < init.len() {
                assert(contents(init).contains_pair(init[i].key(), init[i].block));
            }
        }
        assert forall|q: CacheKey| #[trigger] contents(entries).contains_key(q) implies exists|
            i: int,
        |
            0 <= i < entries.len() && #[trigger] entries[i].key() == q by {
            if q == k {
                assert(entries[entries.len() - 1].key() == q);
            } else {
                assert(contents(init).contains_key(q));
                let i = choose|i: int| 0 <= i < init.len() && #[trigger] init[i].key() == q;
                assert(entries[i].key() == q);
            }
        }
    } else {
        assert(contents(entries).dom() =~= Set::empty());
    }
}

/// No two entries have the same key.
spec fn distinct(entries: Seq<Entry>) -> bool {
    forall|i: int, j: int|
        0 <= i < j < entries.len() ==> (#[trigger] entries[i]).key() != (
        #[trigger] entries[j]).key()
}

/// Tests whether two byte strings are equal.
fn same_bytes(a: &Vec<u8>, b: &[u8]) -> (r: bool)
    ensures
        r == (a@ == b@),
{
    let len: usize = b.len();
    if a.len() != len {
        return false;
    }
    let mut i: usize = 0;
    while i < len
        invariant
            len == a@.len(),
            len == b@.len(),
            i <= len,
            forall|j: int| 0 <= j < i ==> a@[j] == b@[j],
        decreases len - i,
    {
        if a[i] != b[i] {
            return false;
        }
        i = i + 1;
    }
    assert(a@ =~= b@);
    true
}

impl View for Cache {
    type V = Map<CacheKey, Cached>;

    closed spec fn view(&self) -> Map<CacheKey, Cached> {
        contents(self.entries@)
    }
}

impl Cache {
    /// Entries have different keys, and the places of those at a pc are all known.
    pub closed spec fn wf(&self) -> bool {
        &&& distinct(self.entries@)
        &&& forall|i: int|
            0 <= i < self.entries@.len() ==> {
                let pc = (#[trigger] self.entries@[i]).pc;
                self.at_pc@.contains_key(pc) && self.at_pc@[pc]@.contains(i as usize)
            }
        &&& forall|pc: u64, j: int|
            self.at_pc@.contains_key(pc) && 0 <= j < self.at_pc@[pc]@.len() ==> (
            #[trigger] self.at_pc@[pc]@[j]) < self.entries@.len()
    }

    /// An empty cache.
    pub fn new() -> (c: Cache)
        ensures
            c.wf(),
            c@ == Map::<CacheKey, Cached>::empty(),
    {
        Cache { entries: Vec::new(), at_pc: HashMap::new() }
    }

    /// Number of blocks.
    pub fn len(&self) -> (n: usize)
        requires
            self.wf(),
        ensures
            n == self@.len(),
    {
        proof {
            lemma_contents(self.entries@);
        }
        self.entries.len()
    }

    /// Looks a block up by what it was compiled from.
    pub fn get(&self, pc: u64, end_pc: u64, n_insns: u32, ir: &[u8]) -> (r: Option<Cached>)
        requires
            self.wf(),
        ensures
            ({
                let key = CacheKey { pc, end_pc, n_insns, ir: ir@ };
                match r {
                    Some(block) => self@.contains_pair(key, block),
                    None => !self@.contains_key(key),
                }
            }),
    {
        broadcast use vstd::std_specs::hash::group_hash_axioms;

        let ghost key = CacheKey { pc, end_pc, n_insns, ir: ir@ };
        proof {
            lemma_contents(self.entries@);
        }
        match self.at_pc.get(&pc) {
            None => {
                proof {
                    if self@.contains_key(key) {
                        let n = choose|n: int|
                            0 <= n < self.entries@.len() && #[trigger] self.entries@[n].key()
                                == key;
                        assert(self.entries@[n].pc == pc);
                    }
                }
                None
            },
            Some(places) => {
                let mut i: usize = 0;
                while i < places.len()
                    invariant
                        i <= places@.len(),
                        self.wf(),
                        self.at_pc@.contains_key(pc),
                        *places == self.at_pc@[pc],
                        key == (CacheKey { pc, end_pc, n_insns, ir: ir@ }),
                        forall|i: int|
                            0 <= i < self.entries@.len() ==> #[trigger] contents(
                                self.entries@,
                            ).contains_pair(self.entries@[i].key(), self.entries@[i].block),
                        forall|j: int|
                            0 <= j < i ==> self.entries@[(#[trigger] places@[j]) as int].key()
                                != key,
                    decreases places.len() - i,
                {
                    let n: usize = places[i];
                    assert(self.at_pc@[pc]@[i as int] < self.entries@.len());
                    let e = &self.entries[n];
                    if e.pc == pc && e.end_pc == end_pc && e.n_insns == n_insns && same_bytes(
                        &e.ir,
                        ir,
                    ) {
                        assert(self.entries@[n as int].key() =~= key);
                        assert(contents(self.entries@).contains_pair(
                            self.entries@[n as int].key(),
                            self.entries@[n as int].block,
                        ));
                        return Some(e.block);
                    }
                    i = i + 1;
                }
                proof {
                    if self@.contains_key(key) {
                        let n = choose|n: int|
                            0 <= n < self.entries@.len() && #[trigger] self.entries@[n].key()
                                == key;
                        assert(self.entries@[n].pc == pc);
                        assert(n < self.entries.len());
                        assert(places@.contains(n as usize));
                        let j = choose|j: int| 0 <= j < places@.len() && places@[j] == n as usize;
                        assert(places@[j] == n);
                        assert(self.entries@[places@[j] as int].key() != key);
                    }
                }
                None
            },
        }
    }

    /// Adds a block that is not there yet.
    pub fn insert(&mut self, pc: u64, end_pc: u64, n_insns: u32, ir: Vec<u8>, block: Cached)
        requires
            old(self).wf(),
            !old(self)@.contains_key(CacheKey { pc, end_pc, n_insns, ir: ir@ }),
        ensures
            final(self).wf(),
            final(self)@ == old(self)@.insert(
                CacheKey { pc, end_pc, n_insns, ir: ir@ },
                block,
            ),
    {
        broadcast use vstd::std_specs::hash::group_hash_axioms;

        let ghost before = self.entries@;
        let ghost map = self.at_pc@;
        let n: usize = self.entries.len();
        let e = Entry { pc, end_pc, n_insns, ir, block };
        let ghost key = e.key();
        proof {
            lemma_contents(before);
        }
        self.entries.push(e);
        let mut places: Vec<usize> = match self.at_pc.remove(&pc) {
            Some(p) => p,
            None => Vec::new(),
        };
        let ghost old_places = places@;
        places.push(n);
        self.at_pc.insert(pc, places);
        proof {
            let entries = self.entries@;
            assert(entries.drop_last() =~= before);
            assert(distinct(entries)) by {
                assert forall|i: int, j: int| 0 <= i < j < entries.len() implies (
                #[trigger] entries[i]).key() != (#[trigger] entries[j]).key() by {
                    if j == n {
                        assert(contents(before).contains_pair(before[i].key(), before[i].block));
                    } else {
                        assert(before[i].key() != before[j].key());
                    }
                }
            }
            assert forall|i: int| 0 <= i < entries.len() implies {
                let p = (#[trigger] entries[i]).pc;
                self.at_pc@.contains_key(p) && self.at_pc@[p]@.contains(i as usize)
            } by {
                let p = entries[i].pc;
                if i == n {
                    assert(self.at_pc@[pc]@[old_places.len() as int] == n);
                } else {
                    assert(before[i].pc == p);
                    if p == pc {
                        let j = choose|j: int|
                            0 <= j < map[pc]@.len() && map[pc]@[j] == i as usize;
                        assert(self.at_pc@[pc]@[j] == i as usize);
                    }
                }
            }
            assert forall|p: u64, j: int|
                self.at_pc@.contains_key(p) && 0 <= j < self.at_pc@[p]@.len() implies (
            #[trigger] self.at_pc@[p]@[j]) < entries.len() by {
                if p == pc {
                    if j < old_places.len() {
                        assert(map[pc]@[j] < before.len());
                    }
                } else {
                    assert(map[p]@[j] < before.len());
                }
            }
        }
    }
}

} // verus!
