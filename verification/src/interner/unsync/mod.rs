//! Interners for use from a single thread.
use vstd::prelude::*;

pub mod bytes;
pub mod str;

pub use bytes::BytesInterner;
pub use str::Interner;

verus! {

} // verus!
