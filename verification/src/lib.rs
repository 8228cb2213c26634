//! Timestamped sample buffers for smoothing game state between reads, and the
//! decision logic of the background snapshot reader.

pub mod interp;
pub mod memory_thread;
