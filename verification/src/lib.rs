//! A bounded-concurrency file-checksumming engine.
//!
//! The library holds the verified core of an MD5 checksummer built around a
//! completion-queue kernel I/O interface: a fixed pool of I/O slots, a
//! per-file read-progress state machine, a streaming digest accumulator, and
//! the scheduler that admits pending files into free slots and routes
//! out-of-order completions back to them. The unverified binary around the
//! library performs the actual opens, reads and result delivery, and drives
//! the scheduler one decision at a time.

use vstd::prelude::*;

pub mod digest;
pub mod file_state;
pub mod pool;
pub mod scheduler;
pub mod strategy;

verus! {

/// Number of I/O slots: the most reads that may be in flight at once.
pub const RING_SIZE: usize = 16;

/// Upper bound on the number of bytes requested by a single read.
pub const MAX_READ_SIZE: usize = 4096 * 16;

/// Alignment required of buffer addresses, offsets and lengths when files
/// are opened for direct (page-cache-bypassing) I/O.
pub const BLOCK_SIZE: usize = 4096;

/// The caller's choice of files and engine variant.
pub struct Opt {
    /// The files to be checksummed.
    pub files: Vec<String>,
    /// Pre-register the files to be read with the kernel interface, and refer
    /// to them by number thereafter.
    pub pre_register_files: bool,
    /// Read into buffers pre-registered with the kernel interface (implies
    /// pre-registered files).
    pub use_fixed_buffers: bool,
    /// Compute checksums without the asynchronous kernel interface.
    pub no_uring: bool,
    /// Open files with the direct I/O flag.
    pub o_direct: bool,
}

} // verus!
