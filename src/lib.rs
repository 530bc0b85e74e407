//! Reading and writing Age of Empires scenario file structures.
//!
//! Every decoder reads from a [`bytes::ByteReader`] and every encoder appends to a `Vec<u8>`;
//! the contracts state the wire layout of each structure as a byte sequence.
use vstd::prelude::*;

pub mod bitmap;
pub mod bytes;
pub mod convert;
pub mod lang;
pub mod map;
pub mod types;
pub mod util;

verus! {

} // verus!
