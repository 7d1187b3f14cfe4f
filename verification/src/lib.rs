//! A string of fixed capacity over caller-chosen byte storage.
//!
//! [`StringWrapper`] pairs a length with any [`Buffer`]: an array, a borrowed
//! slice, a boxed slice. It never allocates and never grows past its storage.
//! The bytes before the length are well-formed UTF-8; the bytes behind it are
//! never read by a comparison, a hash or a rendering.
//!
//! Every operation carries a contract that Verus proves. The contracts speak
//! of a string through four things: its `storage`, its `spec_len`, the
//! `spec_bytes` that the two make up, and its view, the text that those bytes
//! encode. `wf` says that a string is well-formed; every constructor gives a
//! well-formed string and every operation keeps it so, but for `buffer_mut`
//! and `deref_mut`, which leave that to whoever writes through them.
pub mod boundary;
pub mod buffer;
pub mod bytes;
pub mod compare;
pub mod encoding;
pub mod interchange;
pub mod laws;
pub mod std_text;
pub mod text;
pub mod utf8_facts;
pub mod wrapper;

pub use buffer::{Buffer, OwnedBuffer};
pub use wrapper::{Error, StringWrapper};
