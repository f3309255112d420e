# camodel

A cycle-approximate model of a block-structured out-of-order core, written
in Verus. Given the committed instruction stream of a functional run, it
replays the stream through an eleven-stage frontend, dispatch into eight
physical issue queues, read-port arbitration, execute and the load/store
unit, and in-order retirement, and reports the retired commits, the cycle
count and a per-cycle trace of where every micro-op stood and why.

Alongside the model: the comparison of two commit streams used for
co-simulation, a static ELF image loader, and the bookkeeping of
design-space sweeps.

## Layout

- `src/` — the verified library. `engine.rs` runs the cycle loop; the
  stages live in `stages.rs` (frontend), `dispatch.rs`, `issue.rs`,
  `select.rs`, `iq*.rs` (issue queues and wakeup), `lsu*.rs` (memory side),
  `recovery.rs` and `owner.rs` (redirects, flushes, block-target tracking),
  `commit.rs` (retirement) and `trace.rs` (the stage trace). `cosim.rs`
  compares commit streams, `elf.rs` loads images, `sweep.rs` summarises
  sweep runs. The contract of the cycle loop describes a run as a log of
  cycles, each a chain of steps related by the contracts of the stages. Public `law_*` proof functions state properties that relate
  several operations.
- `app/` — file reading, JSON and TOML (de)serialisation and Markdown
  reporting around the library.
- `tests/` — tests on concrete values.
