# anglerkit

A verified library for hooking functions: allocators of executable memory near an address,
hooks of functions that are called through a pointer, and thunks that lead a call to an
arbitrary address.

- `src/` is the library. Verus proves what its functions promise, and the laws that relate
  several functions are proof functions named `law_*`. A few functions promise nothing:
  `allocator::teardown::discard`, which drops a value, `garbage_collect`, which does nothing
  unless an allocator has something to collect, and `page_size` and `main_separator` in
  `src/os/native.rs`, whose results are up to the system.
  Memory is designated by its address. What the operating system does is passed in, or reached
  through the functions of `src/os/native.rs`; the contracts of these, of `contains_span` in
  `src/allocator/block.rs` and of `into_inner` in `src/allocator/teardown.rs` are believed.
  The types have no destructors: a guard is reverted, and boxes, shared values, pools, blocks and
  hooks are released, by a call.
  - `allocator`: layouts and constraints, boxes and reference-counted values, slabs and pools of
    slabs, blocks with heaps in them, virtual memory. `allocator::interleaving` is about slabs
    that several threads use at once, `allocator::teardown` about the end of values, shared ones
    included.
  - `os`: protection of memory pages and its restoration, words of memory that are replaced
    meanwhile, recovery from hardware exceptions.
  - `hook`: pointer hooks, with or without a switch.
  - `trampoline`: machine code of call thunks.
- `tests/` runs the library on concrete values.
- `app/` puts real memory, threads and functions around it: atomics, locks, heaps, function
  pointers that call closures, destructors.
