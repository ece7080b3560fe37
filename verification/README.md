# cuvm

The verified core of cuvm, a CUDA toolkit version manager: version parsing
and ordering, spec and alias resolution, driver/toolkit/cuDNN compatibility,
activation environments, `doctor` diagnostics, the install, listing and
payload decisions, and the `self update` plan. Every function in `src/` is
checked by Verus against its `requires`/`ensures`, except the few
`#[verifier::external_body]` wrappers around calls into std, `anyhow`,
`serde_json` and `time`: their contracts are trusted, and each one's doc
comment says what it claims of the call. The library's laws are public proof
functions beside the code they speak of.

Layout:

- `src/` — the library (one module per concern; `text` holds the character
  model the parsers and renderers share).
- `tests/` — executable tests of the library.
- `app/` — the `cuvm` binary: argument parsing, the filesystem, network,
  shell and process work, calling the library for every decision.
