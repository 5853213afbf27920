# karukan

Verified core of the Karukan Japanese input method: the candidate list with
its paging and selection, the learning cache, engine initialization, and the
special conversion candidates (dates, times, era years, calculations, Unicode
code points, emoticons and reading corrections). The emoticon and
reading-correction tables bundled in `special.rs` are small samples.

Verus verifies every function under `src/`; their contracts (`ensures`,
and `requires` where an input would overflow) are stated over mathematical
models (`Seq`, `int`, views of each type). Two small trusted functions are
taken as given: `string_push` (std's `String::push`, in `text.rs`) and
`char_from_u32` (std's `char::from_u32`, in `special.rs`).

- `candidate.rs`: `Candidate`, `CandidateList` and the laws of its navigation.
- `learning.rs`: the learning cache and the laws of recording, promoting,
  demoting and deleting learned conversions.
- `engine.rs`: the engine's conversion resources, their initialization from
  settings, and conversion candidates with and without learning.
- `special.rs`, `calendar.rs`, `era.rs`, `expression.rs`, `table.rs`,
  `text.rs`: the special conversion rewriter and what it is built from.

`app/` holds what the library cannot: the local clock, the file system,
floating-point evaluation of calculations, and the `Rewriter` interface.
