# concurrency_rs

Spin locks, id generators, one-time initialisation, a thread pool's task
queue and a xorshift generator, with their behaviour stated in contracts and
proved with Verus.

- `src/mutex.rs` — the test-and-set lock and the ticket lock over plain
  values, and the per-step decisions of their acquire loops.
- `src/interleaving.rs` — any number of threads running those locks,
  interleaved one atomic operation at a time: mutual exclusion, and
  first-come first-served order for the ticket lock.
- `src/generator.rs`, `src/lazy.rs`, `src/random.rs`, `src/threadpool.rs` —
  the remaining algorithms, each with its interleaving or ordering law.
- `app/` — the programs: real threads and atomics, driven by the library's
  decisions (`cargo run -- mutex`, `-- lazy`, `-- threadpool`, ...).
