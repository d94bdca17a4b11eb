# cuda_memory

Read-only global memory for CUDA kernels, verified with Verus.

* `src/read_only.rs`: register tiles whose extent is proved once, read-only loads, and the
  upper-bound search.
* `src/access.rs`: lowering of stores, loads, stack slots, references and pointer offsets.
  Each function takes what is known of the operation and returns the operations that take
  its place, or why there are none.
* `src/types.rs`: which lowered types a read-only load can move.
* `src/rewrite.rs`, `src/operands.rs`, `src/constants.rs`: the emitted operations, the
  values they use, and their integer constants.
* `src/bits.rs`, `src/meaning.rs`: what the emitted operations compute, and the laws that
  follow for the lowering.
* `app/`: reads a pliron program for the library and performs the rewrites. The source and
  the target dialect are reached through two traits.

pliron is used for integer types, floating-point formats, arbitrary-precision integers,
integer attributes and the operands of operations. What is taken from it without proof is
stated at the item that takes it.
