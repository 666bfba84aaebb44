# jit_host

Compiles RISC-V basic blocks to WebAssembly while a guest runs. The guest is an emulator that is
itself a WebAssembly module; it hands over basic blocks as streams of operations and gets back
functions that run them on its CPU state.

The library is written in Verus. What it states, in order of use:

- `ir` decodes streams of operations.
- `shape` says what code an operation and a block are compiled to; `codegen` emits that code and
  `encode` hands it to the `wasm_encoder` crate, whose results are described by plain values.
- `machine` says how WebAssembly code runs, and `guest` what a block means on the guest's state:
  the RISC-V instructions, memory accesses through the guest's TLB and helpers, the cycle budget
  and the hops from block to block.
- `relate`, `compute`, `muldiv`, `access`, `chaining` and `block` prove that compiled blocks do
  what they mean; `unique` that the instructions in a module have one reading, `typing` that they
  are well typed, and `size` how many there are. `laws` and `hops` collect what follows: lifting
  registers into locals changes nothing, a fault commits what came before it, the TLB is hit by
  aligned accesses to its pages only and a miss is a helper call, blocks hop to current blocks
  only, and a chain of blocks ends as the last of them does.
- `host` decides for an embedder which blocks are compiled, found again and dropped, with the
  content cache of `cache` and the settings of `config`; `session` serves a coordinator in a
  browser.

`app/` is the embedder itself, on `wasmtime`, and the C interface of the browser's code generator.
The tests run compiled blocks under `wasmtime`.

Lifting asks something of the embedder, which `block::liftable` states: lifted registers are in
bounds, unless the block runs out of bounds anyway, and the helpers that the block calls, and its
accesses through the TLB, change no lifted register and do not look at one that the block has
written. Blocks that lift nothing ask nothing.
