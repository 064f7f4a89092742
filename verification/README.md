# xvarna

Verified core of the XVARNA native analysis engine, written in Verus.

- `src/` is the library. Every function in it carries a verified
  contract: mesh topology auditing (`topology`, `audit`), conservative repair
  (`repair`), winding consistency (`winding`), content hashing (`hashing`),
  the stable status codes and flag words of the C ABI (`status`, `flags`,
  `ffi`, `metadata`), handle registries for jobs and scenes (`registry`,
  `job`, `scene`), union-find (`union_find`), surface-grid bookkeeping
  (`surface`), version parsing (`version`), and the buffer sizing and
  validation that the ABI entry points perform before they compute
  (`sizing`, `study`, `abi`).
- The public proof functions named `lemma_*` state the library's laws, such
  as that repair leaves only accepted faces and used vertices, that repair
  is idempotent, and that a released handle reads back as invalid.
- `tests/` runs the library on concrete values.
- `app/` is ordinary Rust around the library: the floating-point geometry
  (areas, volumes, welding, clipping, ray intersection, surface
  subdivision) and the `extern "C"` entry points for mesh audit, jobs and
  versions, which hand plain values to the library and take plain values
  back.

The only outside crate that the library calls is `blake3`, through one
trusted wrapper in `src/hashing.rs`.
