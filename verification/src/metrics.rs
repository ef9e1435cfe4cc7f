//! A cell for a telemetry value that one thread writes and another reads
//! without locking.

use std::sync::atomic::AtomicU64;
use std::sync::atomic::Ordering;
use vstd::prelude::*;

verus! {

/// A 64-bit float shared between threads, held as its bit pattern.
///
/// The cell promises nothing about what a load returns: another thread may
/// have stored in between. Callers turn values into bits and back.
pub struct AtomicF64(AtomicU64);

impl AtomicF64 {
    /// A cell that holds the value with the bit pattern `bits`.
    pub fn new(bits: u64) -> (cell: AtomicF64) {
        AtomicF64(AtomicU64::new(bits))
    }

    /// The bit pattern of the value last stored, by this thread or another.
    pub fn load(&self) -> (bits: u64) {
        self.0.load(Ordering::Relaxed)
    }

    /// Stores the value with the bit pattern `bits`.
    pub fn store(&self, bits: u64) {
        self.0.store(bits, Ordering::Relaxed);
    }
}

} // verus!
