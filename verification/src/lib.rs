//! Solvers for a set of small integer puzzles, centred on an Intcode
//! virtual machine: an interpreter for programs encoded as flat sequences
//! of integers, with self-modifying memory, per-parameter addressing
//! modes, conditional jumps and an input/output channel.

pub mod calculator;
pub mod errors;
pub mod fuel;
pub mod loader;
pub mod machine;
pub mod memory;
pub mod modes;
pub mod numerals;
pub mod passwords;
pub mod semantics;
pub mod wires;
