//! A compositional binary serialization library.
//!
//! Every type that implements the [`Serializable`](serializable::Serializable)
//! capability can turn a value into a big-endian byte sequence and back.  The
//! byte layout is deterministic and provably invertible: each implementation
//! carries machine-checked proofs of the round-trip law, of exact consumption
//! and of truncation safety.

pub mod bytes;
pub mod serializable;
pub mod primitives;
pub mod text;
pub mod containers;
pub mod addr;
pub mod timestamp;
pub mod derived;
pub mod laws;

pub use addr::SockAddr;
pub use serializable::DecodeError;
pub use serializable::Serializable;
pub use text::Text;
pub use timestamp::Timestamp;
