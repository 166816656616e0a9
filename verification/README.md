# asm-cache-inject

A user-space RAM cache for raw block devices (HDDs, SSDs) opened with
`O_DIRECT`, with a benchmark suite and rustc-style diagnostics.

The library (`src/`) is written in Verus and verified. It holds the logic:

- `cache/` — cache entries, the LBA table (a hash map with its key list and a
  logical access clock) and the LRU eviction policy that prefers clean blocks.
- `memory/` — page-aligned buffers and the fixed-size block pool.
- `engine/` — configuration checks and the cache engine. Reads and writes are
  split into steps: the engine decides (hit, fetch, write back a victim), the
  caller performs the device I/O the step names, and the engine completes.
- `flush/` — the dirty watermark and the flusher's exit decision.
- `io/` — device geometry, block offsets and the meaning of short transfers.
- `bench/` — benchmark planning and seeded random LBAs.
- `cli/` — argument records, their conversion to configurations, and the
  error codes, locations and notes of the diagnostics.

The program (`app/`) is ordinary Rust around it: argument parsing (clap),
`pread`/`pwrite`/`ioctl` calls (libc), the flusher thread (crossbeam,
parking_lot), Ctrl+C handling, timing and floating-point metrics, the x86_64
copy routines, and colored output.

The dirty watermark is an exact fraction `num/den` in the library; the command
line still takes a decimal such as `0.75`.
