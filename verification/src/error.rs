//! The errors that buffer operations report.

use vstd::prelude::*;

verus! {

/// Why an operation on the buffer was refused.
#[derive(Debug, Clone, Copy, PartialEq, Eq)]
pub enum BipBufferError {
    /// No contiguous gap of `requested` bytes exists right now.
    BufferFull { requested: usize },
    /// A commit or consume asked for `size` bytes where at most `max` were on offer.
    InvalidCommitSize { size: usize, max: usize },
    /// Fewer bytes are stored than the reader asked for.
    NoData,
    /// A reservation of `size` bytes can never fit into `capacity` bytes.
    BufferOverflow { size: usize, capacity: usize },
}

} // verus!
