//! Seek the occurrences of a byte pattern in a stream of bytes, from either
//! end, without loading the stream into memory.
//!
//! A [`ByteSeeker`] borrows a stream, reads it one bounded window at a time,
//! and reports the offset of the next occurrence of a pattern, forwards with
//! [`ByteSeeker::seek`] or backwards with [`ByteSeeker::seek_back`]. It keeps
//! one boundary for each direction, so that repeated searches go through the
//! occurrences one after the other.
//!
//! ```ignore
//! use byteseeker::{ByteSeeker, MemoryStream};
//!
//! let mut stream = MemoryStream::new(b"first\nsecond\nthird".to_vec());
//! let mut seeker = ByteSeeker::new(&mut stream);
//! let last = seeker.seek_back(b"\n"); // Ok(12)
//! let before = seeker.seek_back(b"\n"); // Ok(5)
//! let none = seeker.seek_back(b"\n"); // Err, of kind ByteNotFound
//! ```
//!
//! The modules:
//!
//! - [`stream`]: what a seeker asks of a stream, and a stream in memory;
//! - [`occurrence`]: where a pattern occurs in a sequence of bytes;
//! - [`model`]: the state of a seeker and what one search does to it;
//! - [`seeker`]: the seeker itself, verified against the model;
//! - [`laws`]: what holds of every run of searches;
//! - [`error`]: the errors of a search.

pub mod error;
pub mod laws;
pub mod model;
pub mod occurrence;
pub mod seeker;
pub mod stream;

pub use error::{Error, ErrorKind, Result};
pub use seeker::{ByteSeeker, Dir};
pub use stream::{ByteStream, MemoryStream};
