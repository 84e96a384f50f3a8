//! A memory-read-bandwidth micro-benchmark library.
//!
//! Several workers each scan a private buffer of 64-bit values for a fixed
//! number of passes, accumulating a throwaway sum; the total number of bytes
//! read divided by the elapsed wall-clock time is the measured bandwidth.
//! This crate holds the verified core: the benchmark parameters and their
//! byte totals, the split of the generated data into the workers' private
//! buffers, and the measurement loop each worker runs. The floating-point
//! draw and addition, thread handling, timing and printing live outside it,
//! exchanging plain 64-bit patterns with the verified code.

pub mod items;
pub mod params;
pub mod worker;
