//! Decoding of netstrings, the length-prefixed records `<length>:<payload>,`:
//! a length in ASCII decimal digits, a colon, as many bytes of payload as the
//! length says, and a comma.
//!
//! [`decode`] reads one record from a [`Cursor`] over bytes in memory. It
//! asks the caller's predicate about the length before it reads any payload,
//! so that a length from an untrusted stream can be turned down in time.
//!
//! - [`format`] is the model of the wire format that every contract is
//!   stated over.
//! - [`step`] holds the decoder's decisions, one for each read, for callers
//!   that do the reading themselves.
//! - [`laws`] states what holds of every decoding.

pub mod cursor;
pub mod decode;
pub mod error;
pub mod format;
pub mod laws;
pub mod lemmas;
pub mod step;

pub use cursor::Cursor;
pub use decode::{decode, decode_len};
pub use error::Error;
