# numaperf

A NUMA-first runtime toolkit, verified with Verus: CPU sets and node masks,
topology, thread pinning decisions, memory placement policies, a
work-stealing scheduler's decisions and queues, per-node sharding, I/O device
locality, and locality statistics with diagnostic reports.

Layout:

- `src/` — the verified library. Each module states its behaviour in
  `requires`/`ensures` contracts over spec models (`Set<u32>` for CPU sets,
  `Seq` for queues, nodes and devices); `src/laws.rs` holds the properties
  that span several functions (CPU list round trip, steal order, counter
  sums, sorted discovery, report recommendations).
- `tests/` — behaviour tests on concrete values.
- `app/` — the `numaperf-bench` command-line tool and everything that needs
  the operating system: system calls (affinity, `mmap`/`mbind`), reading
  `/proc` and `/sys`, worker threads, cache-line padding, floating-point
  ratios and JSON output.
