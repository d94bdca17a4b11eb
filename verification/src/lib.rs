//! Read-only global memory for CUDA kernels.
//!
//! [`read_only`] is what device code calls: bounds-proved register tiles, read-only loads
//! and the upper-bound search. [`access`] is what the compiler calls: it decides which
//! operations take the place of a store, a load, a stack slot, a reference or a pointer
//! offset. [`meaning`] says what those operations compute and do to memory, [`typing`] what
//! types they have, and [`guarantees`] proves of each decision what a program may rely on.

pub mod access;
pub mod bits;
pub mod constants;
pub mod guarantees;
pub mod meaning;
pub mod operands;
pub mod read_only;
pub mod rewrite;
pub mod types;
pub mod typing;
