# controller

Verified core of the player overlay's state pipeline.

- `src/interp.rs`: `InterpBuffer`, a bounded ring buffer of timestamped
  samples (times in nanoseconds on a monotonic clock). Its contracts state
  which samples are kept, when a new value is recorded, and which two samples
  and which exact blend factor (`Factor`, a ratio of integers) serve a render
  time: interpolation between samples, clamped extrapolation after the newest
  one, the oldest value before the first one. The floating-point blending
  itself is handed in as a closure.
- `src/memory_thread.rs`: the decisions of the background snapshot reader:
  double-buffer bookkeeping and statistics cadence (`ReaderCycle`), the pause
  that completes a poll interval, the snapshot's reset rules and the filter
  that decides which entities become players.
- `app/`: the unverified rest: the `Lerp` trait and its floating-point
  implementations, `Instant`/`Duration` conversion, the reader thread and the
  game memory reads.
