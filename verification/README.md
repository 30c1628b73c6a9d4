# optimod

Read-only Linux host inspection for a resource-aware `llama.cpp` inference
advisor, written in Verus: the parsers and decisions are verified against
their specifications, and a thin program around them does the I/O.

## Layout

- `src/` — the verified library.
  - `text.rs` — character-level text handling (lines, words, trimming,
    splitting, decimal integers) with specifications that follow `std`.
  - `hardware/` — the snapshot types and the inspection logic:
    `cpuinfo`, `meminfo`, `cgroup` (`cpu.max`, `memory.max`,
    `/proc/self/cgroup`), `os_release`, `mountinfo` and `path`, `drm`,
    `sysfs`, `storage`, `format` (binary byte units), `quota` (a CPU quota
    as a share of CPUs), `render` (the report
    for people), `inspect` (the report from everything read) and `laws`
    (properties that hold of every inspection).
  - `cli.rs` — the command surface and what each command does.
  - `workload.rs`, `recommendation.rs`, `llama_cpp.rs` — data contracts.
- `app/` — the `optimod` program: argument parsing with clap, reading files
  under `/proc`, `/sys` and `/etc`, `statvfs`, JSON output with serde.
- `tests/` — tests of the library on concrete inputs.
