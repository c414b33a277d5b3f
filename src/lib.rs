//! Debug inspection engine for WebAssembly modules.
//!
//! - `memlayout`: typed decoding of variables out of a linear-memory snapshot.
//! - `disasm`: per-function disassembly with module offsets, and listings joined with
//!   source lines from `lines`.
//! - `dwarf`: debug-section extraction, location-expression answers and the type catalog.
//! - `debugger`: the session state machine (breakpoints, run, step, continue).
//! - `runtime`: the engine-facing decisions (exports, default memory, entry points, bounds).
//! - `symbols`, `hexdump`, `toolchain`: symbol table, memory dumps and check reports.
pub mod debugger;
pub mod disasm;
pub mod dwarf;
pub mod errors;
pub mod fmt;
pub mod hexdump;
pub mod lines;
pub mod memlayout;
pub mod runtime;
pub mod symbols;
pub mod text;
pub mod toolchain;
pub mod types;
