//! Blocks that continue in one another: a hop passes control to the block in a slot of the
//! guest's function table.

use vstd::prelude::*;
use crate::block::{entry_frame, law_block, liftable};
use crate::chaining::finish;
use crate::guest::{block_run, well_ended, BlockEnd};
use crate::ir::Op;
use crate::machine::{run, Env, Stack, World};
use crate::shape::{block_code, used_helpers, Config};

verus! {

/// The blocks in the guest's function table, by slot: their operations and what they were
/// compiled with.
pub type Table = Map<u32, (Seq<Op>, Config)>;

/// The embedder as a block sees it: with the helpers that the block imports.
pub open spec fn env_of(env: Env, ops: Seq<Op>) -> Env {
    Env { imports: used_helpers(ops), ..env }
}

/// What the operations of a block do.
pub open spec fn meant(block: (Seq<Op>, Config), w: World, sp: u32, env: Env) -> BlockEnd {
    block_run(block.0, block.1, w, sp, env_of(env, block.0))
}

/// What the code of a block does.
pub open spec fn compiled(block: (Seq<Op>, Config), w: World, sp: u32, env: Env) -> BlockEnd {
    let (ops, cfg) = block;
    finish(
        run(
            block_code(ops, cfg),
            Stack::Empty,
            entry_frame(ops, cfg, w, sp),
            env_of(env, ops),
        ),
    )
}

/// Goes on from the end of a block through at most `n` hops to blocks of the table, each of
/// which does what its operations do.
pub open spec fn follow(table: Table, end: BlockEnd, env: Env, n: nat) -> BlockEnd
    decreases n,
{
    match end {
        BlockEnd::Hop { slot, arg, world } => if n > 0 && table.contains_key(slot) {
            follow(table, meant(table[slot], world, arg, env), env, (n - 1) as nat)
        } else {
            end
        },
        _ => end,
    }
}

/// The same, where each block does what its code does.
pub open spec fn follow_code(table: Table, end: BlockEnd, env: Env, n: nat) -> BlockEnd
    decreases n,
{
    match end {
        BlockEnd::Hop { slot, arg, world } => if n > 0 && table.contains_key(slot) {
            follow_code(table, compiled(table[slot], world, arg, env), env, (n - 1) as nat)
        } else {
            end
        },
        _ => end,
    }
}

/// The blocks of the table can be compiled.
pub open spec fn compilable(table: Table) -> bool {
    forall|slot: u32| #[trigger]
        table.contains_key(slot) ==> well_ended(table[slot].0) && table[slot].1.suits(
            table[slot].0,
        )
}

/// Of each block that is hopped to, what is asked where registers are lifted.
pub open spec fn all_liftable(table: Table, end: BlockEnd, env: Env, n: nat) -> bool
    decreases n,
{
    match end {
        BlockEnd::Hop { slot, arg, world } => n > 0 && table.contains_key(slot) ==> {
            let (ops, cfg) = table[slot];
            &&& liftable(ops, cfg, world, arg, env_of(env, ops))
            &&& all_liftable(table, meant(table[slot], world, arg, env), env, (n - 1) as nat)
        },
        _ => true,
    }
}

/// **A hop is a call of the target.** A block that hops to a slot of the table ends as the
/// block in that slot does, entered with the same state pointer in the world that the hop
/// leaves; and a block that does not hop ends by itself, however many hops are allowed.
pub proof fn law_one_hop(table: Table, end: BlockEnd, env: Env, n: nat)
    ensures
        match end {
            BlockEnd::Hop { slot, arg, world } => table.contains_key(slot) ==> follow(
                table,
                end,
                env,
                n + 1,
            ) == follow(table, meant(table[slot], world, arg, env), env, n),
            _ => follow(table, end, env, n) == end,
        },
        ({
            let last = follow(table, end, env, n);
            !(last is Hop) ==> follow(table, end, env, n + 1) == last
        }),
    decreases n,
{
    if let BlockEnd::Hop { slot, arg, world } = end {
        if n > 0 && table.contains_key(slot) {
            law_one_hop(table, meant(table[slot], world, arg, env), env, (n - 1) as nat);
        }
    }
}

/// **Chains of compiled blocks are correct.** However many blocks hop from one to the next,
/// running their code ends as their operations do: with what the last of them returns.
pub proof fn law_chain_run(
    table: Table,
    block: (Seq<Op>, Config),
    w: World,
    sp: u32,
    env: Env,
    n: nat,
)
    requires
        compilable(table),
        well_ended(block.0),
        block.1.suits(block.0),
        liftable(block.0, block.1, w, sp, env_of(env, block.0)),
        all_liftable(table, meant(block, w, sp, env), env, n),
    ensures
        follow_code(table, compiled(block, w, sp, env), env, n) == follow(
            table,
            meant(block, w, sp, env),
            env,
            n,
        ),
    decreases n,
{
    law_block(block.0, block.1, w, sp, env_of(env, block.0));
    if let BlockEnd::Hop { slot, arg, world } = meant(block, w, sp, env) {
        if n > 0 && table.contains_key(slot) {
            law_chain_run(table, table[slot], world, arg, env, (n - 1) as nat);
        }
    }
}

} // verus!
