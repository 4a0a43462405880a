//! Interning of byte strings, strings and `Copy` values into dense `Symbol`s.
use vstd::prelude::*;

pub mod interner;
pub use interner::{BytesInterner, Interner};
mod symbol;

pub use symbol::{InternerSymbol, Symbol};

verus! {

} // verus!
