use crate::interner::sync::bytes::{
    symbols_below, vec_count,
};
use crate::interner::unsync::bytes::random_state;
use crate::{InternerSymbol, Symbol};
use dashmap::DashMap;
use std::collections::hash_map::RandomState;
use std::hash::{BuildHasher, Hash};
use vstd::layout::size_of;
use vstd::prelude::*;

verus! {

/// Whether `capacity` values of type `T` can be reserved without a size overflowing.
pub open spec fn capacity_fits<T>(capacity: usize) -> bool {
    capacity == 0 || (capacity + 32) * (size_of::<T>() + 32) < usize::MAX / 16
}

/// `DashMap::with_capacity_and_hasher`: a new map; what it holds is not modelled. Within
/// [`capacity_fits`] the capacity does not make the shard tables' sizes overflow.
#[verifier::external_body]
fn value_map_with_capacity_and_hasher<T: Eq + Hash, H: BuildHasher + Clone>(
    capacity: usize,
    hash_builder: H,
) -> DashMap<T, Symbol, H>
    requires
        capacity_fits::<T>(capacity),
{
    DashMap::with_capacity_and_hasher(capacity, hash_builder)
}

/// `DashMap::get`: the symbol the map holds for `value` at the moment of the call, if
/// any. What the map holds depends on the other threads, so nothing is stated of it.
#[verifier::external_body]
fn value_map_get<T: Eq + Hash, H: BuildHasher + Clone>(
    map: &DashMap<T, Symbol, H>,
    value: &T,
) -> Option<Symbol> {
    map.get(value).map(|r| *r)
}

/// `DashMap::entry` and `Entry::or_insert_with`: the symbol the map holds for `value`,
/// or, when it holds none, the symbol that [`push_value`] gives for `value`, which the map
/// then holds. Which of the two happens depends on the other threads, so nothing is
/// stated of the result.
#[verifier::external_body]
fn value_map_get_or_push<T: Copy + Eq + Hash, H: BuildHasher + Clone>(
    map: &DashMap<T, Symbol, H>,
    value: T,
    values: &boxcar::Vec<T>,
) -> Symbol {
    *map.entry(value).or_insert_with(|| push_value(values, value))
}

/// `boxcar::Vec::with_capacity`: a new, empty vector. Within [`capacity_fits`] the capacity
/// does not make a bucket's size overflow.
#[verifier::external_body]
fn values_with_capacity<T>(capacity: usize) -> boxcar::Vec<T>
    requires
        capacity_fits::<T>(capacity),
{
    boxcar::Vec::with_capacity(capacity)
}

/// `boxcar::Vec::push`: the position the value was written at. Positions are handed out
/// by other threads too, so nothing is stated of it. (Its capacity-overflow panic needs
/// more entries than the address space can hold.)
#[verifier::external_body]
fn values_push<T>(v: &boxcar::Vec<T>, value: T) -> usize {
    v.push(value)
}

/// `boxcar::Vec::get`: the value written at `index`, if it was written yet.
#[verifier::external_body]
fn values_get<T>(v: &boxcar::Vec<T>, index: usize) -> Option<&T> {
    v.get(index)
}

/// Appends `value` and returns the symbol of the position it was written at.
pub fn push_value<T>(values: &boxcar::Vec<T>, value: T) -> (r: Symbol) {
    let i = values_push(values, value);
    Symbol::from_usize(i)
}

/// Thread-safe interner of values of a `Copy` type `T`, stored directly.
///
/// Values are hashed with `T`'s `Hash` and compared with `T`'s `Eq`.
#[verifier::reject_recursive_types(T)]
#[verifier::reject_recursive_types(S)]
#[verifier::reject_recursive_types(H)]
pub struct CopyInterner<T: 'static, S = Symbol, H = RandomState> {
    map: DashMap<T, S, H>,
    values: boxcar::Vec<T>,
}

impl<T: Copy + Hash + Eq> CopyInterner<T, Symbol, RandomState> {
    /// Creates a new, empty `CopyInterner` with the default symbol and hasher.
    pub fn new() -> (r: Self) {
        Self::with_capacity(0)
    }

    /// Creates a new `CopyInterner` with the given capacity and default symbol and hasher.
    pub fn with_capacity(capacity: usize) -> (r: Self)
        requires
            capacity_fits::<T>(capacity),
    {
        Self::with_capacity_and_hasher(capacity, random_state())
    }
}

impl<T: Copy + Hash + Eq> Default for CopyInterner<T, Symbol, RandomState> {
    fn default() -> (r: Self) {
        Self::new()
    }
}

impl<T: Copy + Hash + Eq, H: BuildHasher + Clone> CopyInterner<T, Symbol, H> {
    /// Creates a new `CopyInterner` with the given custom hasher.
    pub fn with_hasher(hash_builder: H) -> (r: Self) {
        Self::with_capacity_and_hasher(0, hash_builder)
    }

    /// Creates a new `CopyInterner` with the given capacity and custom hasher.
    pub fn with_capacity_and_hasher(capacity: usize, hash_builder: H) -> (r: Self)
        requires
            capacity_fits::<T>(capacity),
    {
        CopyInterner {
            map: value_map_with_capacity_and_hasher(capacity, hash_builder),
            values: values_with_capacity(capacity),
        }
    }

    /// Returns the number of unique values in the interner.
    pub fn len(&self) -> (r: usize) {
        vec_count(&self.values)
    }

    /// Returns `true` if the interner is empty.
    pub fn is_empty(&self) -> (r: bool) {
        self.len() == 0
    }

    /// Interns a value, returning its unique `Symbol`.
    pub fn intern(&self, value: &T) -> (r: Symbol) {
        match value_map_get(&self.map, value) {
            Some(sym) => sym,
            None => value_map_get_or_push(&self.map, *value, &self.values),
        }
    }

    /// Interns a value, returning its unique `Symbol`.
    pub fn intern_mut(&mut self, value: &T) -> (r: Symbol) {
        self.intern(value)
    }

    /// Interns multiple values.
    pub fn intern_many(&self, values: &[T]) {
        let mut k: usize = 0;
        while k < values.len()
            decreases values@.len() - k,
        {
            let _ = self.intern(&values[k]);
            k = k + 1;
        }
    }

    /// Interns multiple values.
    pub fn intern_many_mut(&mut self, values: &[T]) {
        self.intern_many(values)
    }

    /// Tries to map a `Symbol` to its value; `None` when no value was written at its
    /// position yet.
    pub fn try_resolve(&self, sym: Symbol) -> (r: Option<T>) {
        match values_get(&self.values, sym.get()) {
            Some(v) => Some(*v),
            None => None,
        }
    }

    /// Returns the symbols of the values interned so far, in order.
    pub fn all_symbols(&self) -> (r: Vec<Symbol>)
        ensures
            forall|i: int| 0 <= i < r@.len() ==> #[trigger] r@[i]@ == i,
    {
        symbols_below(self.len())
    }

    /// Returns the values interned so far with their symbols, in order of the symbols: the
    /// `k`-th entry is `Symbol(k)` with its value. The listing ends before the first position
    /// (below the count of values) that another thread is still writing.
    pub fn iter(&self) -> (r: Vec<(Symbol, T)>)
        ensures
            forall|k: int| 0 <= k < r@.len() ==> #[trigger] r@[k].0@ == k,
            forall|a: int, b: int| 0 <= a < b < r@.len() ==> r@[a].0@ < r@[b].0@,
    {
        let n = self.len();
        let mut r: Vec<(Symbol, T)> = Vec::new();
        let mut i: usize = 0;
        let mut open: bool = true;
        while open && i < n
            invariant
                i <= n,
                r@.len() == i,
                forall|k: int| 0 <= k < r@.len() ==> #[trigger] r@[k].0@ == k,
            decreases 2 * (n - i) + (if open { 1int } else { 0int }),
        {
            let sym = Symbol::new(i);
            match self.try_resolve(sym) {
                Some(v) => {
                    let ghost before = r@;
                    r.push((sym, v));
                    assert(r@ == before.push((sym, v)));
                    i = i + 1;
                },
                None => {
                    open = false;
                },
            }
        }
        r
    }
}

} // verus!
