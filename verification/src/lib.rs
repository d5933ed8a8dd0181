//! A codec between typed values and the Bencode wire format: tagged
//! integers, length-prefixed byte strings, lists and dictionaries.
//!
//! The [`Deserializer`] is a cursor over a byte buffer with one operation
//! per shape of value; the [`Serializer`] appends the token of each value
//! to a buffer in the order in which the values are handed to it. What each
//! of them does is stated over the functions of [`grammar`], and
//! [`roundtrip`] proves that what the one writes the other reads back.
//! [`Value`] holds any message as a tree; [`from_bytes`] and [`to_bytes`]
//! decode and encode it whole.

pub mod bytes;
pub mod de;
pub mod error;
pub mod grammar;
pub mod number;
pub mod roundtrip;
pub mod ser;
pub mod value;

pub use de::Deserializer;
pub use error::{Error, ErrorKind};
pub use ser::Serializer;
pub use value::{Value, from_bytes, to_bytes, to_writer};
