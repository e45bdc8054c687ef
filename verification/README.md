# simd_popcnt

Bit population count (Hamming weight) of byte strings and integer slices,
verified with Verus.

- `src/spec.rs` defines the count (`ones`, `popcount`) and the arithmetic
  facts the algorithms rest on.
- `src/scalar.rs`, `src/avx2.rs`, `src/avx512.rs`, `src/neon.rs`, `src/sve.rs`
  hold the counting algorithms, each written over a safe model of its vector
  registers and proved to return exactly `popcount` of its input.
- `src/dispatch.rs` chooses an algorithm from the input length and the
  instruction sets that are enabled or detected; every choice is proved to
  give the same count.
- `src/lib.rs` holds `popcnt` and the `PopcntExt` trait for slices of the
  built-in integer types.
- `app/` detects the CPU's instruction sets at run time, calls the verified
  dispatch (also for its own `PopcntExt`, over the library's verified byte
  view), and holds the throughput benchmark.
