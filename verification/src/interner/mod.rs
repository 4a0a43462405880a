//! The interners.
use vstd::prelude::*;

pub mod bytes;
pub mod copy;
pub mod sync;
pub mod unsync;

pub use copy::CopyInterner;
pub use sync::{BytesInterner, Interner};

verus! {

} // verus!
