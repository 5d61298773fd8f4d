//! Atomic positional writes of a write-ahead-log record: a fixed-size header
//! followed by a payload, placed at one file offset.
//!
//! The library decides which system calls a record write takes on each
//! platform class and proves that, once the last of them has succeeded, the
//! file holds exactly the header and the payload at the offset and nothing
//! else changed. The calls themselves are made by the caller, which hands each
//! outcome back to a [`session::WriteSession`].

mod error;
pub mod image;
pub mod session;

pub use error::IoError;
