//! A fixed-capacity bip-buffer: a circular byte buffer whose writer always
//! receives one contiguous region and whose reader never sees a block that
//! wraps around the end of the storage.
//!
//! The buffer keeps two data regions in one byte array. Region A is the
//! primary block; region B starts at offset zero and holds what was written
//! after the space behind region A ran out. The logical contents are the bytes
//! of A followed by the bytes of B.

pub mod buffer;
pub mod error;
pub mod laws;
pub mod layout;
pub mod search;

pub use buffer::BipBuffer;
pub use error::BipBufferError;
