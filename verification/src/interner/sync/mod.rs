//! Interners that can be shared between threads.
use vstd::prelude::*;

pub mod bytes;
pub mod str;

pub use bytes::BytesInterner;
pub use str::Interner;

verus! {

} // verus!
