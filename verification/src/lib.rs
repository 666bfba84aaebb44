//! Just-in-time compilation of RISC-V basic blocks to WebAssembly.
//!
//! A guest interprets RISC-V inside a WebAssembly module. It hands basic blocks over as
//! streams of operations (`ir`), and gets modules back that run them (`codegen`, `encode`).
//! What a block means is in `guest`, how WebAssembly runs is in `machine`, and that compiled
//! blocks do what they mean is proved in `block` and stated in `laws`, `hops` and `typing`.
//! What that comes to in bytes and numbers is stated in `wire`, `meaning`, `reach`, `exits`,
//! `lifting`, `words` and `modules`. The embedder's decisions are in `host` and `session` and
//! its settings in `config`; what these come to is stated in `ledger` and `texts`.

pub mod access;
pub mod arith;
pub mod block;
pub mod bytes;
pub mod cache;
pub mod chaining;
pub mod codegen;
pub mod compute;
pub mod config;
pub mod encode;
pub mod exits;
pub mod guest;
pub mod hops;
pub mod host;
pub mod ir;
pub mod laws;
pub mod ledger;
pub mod lifting;
pub mod machine;
pub mod meaning;
pub mod modules;
pub mod muldiv;
pub mod places;
pub mod reach;
pub mod relate;
pub mod session;
pub mod shape;
pub mod size;
pub mod texts;
pub mod typing;
pub mod unique;
pub mod wasm;
pub mod wire;
pub mod words;
