use crate::interner::sync::bytes::{
    new_stored, push_stored, slot_bytes, slot_of, stored_holds, strs_with_capacity,
    symbols_below, vec_count,
};
use crate::interner::unsync::bytes::{random_state, Stored};
use crate::{InternerSymbol, Symbol};
use papaya::HashMap;
use std::collections::hash_map::RandomState;
use std::hash::BuildHasher;
use vstd::prelude::*;

verus! {

#[verifier::external_type_specification]
#[verifier::external_body]
#[verifier::reject_recursive_types(K)]
#[verifier::reject_recursive_types(V)]
#[verifier::reject_recursive_types(S)]
pub struct ExPapayaMap<K, V, S>(HashMap<K, V, S>);

/// `papaya::HashMap::with_capacity_and_hasher`: a new map; what it holds is not modelled.
/// Below `usize::MAX / 128` the capacity does not make the table's size overflow.
#[verifier::external_body]
fn lf_map_with_capacity_and_hasher<H: BuildHasher>(capacity: usize, hash_builder: H) -> HashMap<
    Vec<u8>,
    Symbol,
    H,
>
    requires
        capacity < usize::MAX / 128,
{
    HashMap::with_capacity_and_hasher(capacity, hash_builder)
}

/// `papaya::HashMap::pin` and `HashMapRef::get`: the symbol the map holds for `key` at
/// the moment of the call, if any. What the map holds depends on the other threads, so
/// nothing is stated of it.
#[verifier::external_body]
fn lf_map_get<H: BuildHasher>(map: &HashMap<Vec<u8>, Symbol, H>, key: &[u8]) -> Option<Symbol> {
    map.pin().get(key).copied()
}

/// `papaya::HashMap::pin` and `HashMapRef::get_or_insert_with`: the symbol the map holds
/// for `key`, or, when it holds none, the symbol that [`push_stored`] gives for `stored`,
/// which the map then holds. Which happens depends on the other threads, so nothing is
/// stated of the result.
#[verifier::external_body]
fn lf_map_get_or_push<H: BuildHasher>(
    map: &HashMap<Vec<u8>, Symbol, H>,
    key: Vec<u8>,
    strs: &boxcar::Vec<Stored>,
    stored: Stored,
) -> Symbol {
    *map.pin().get_or_insert_with(key, || push_stored(strs, stored))
}

/// Byte string interner over a lock-free map.
#[verifier::reject_recursive_types(S)]
#[verifier::reject_recursive_types(H)]
pub struct BytesInterner<S = Symbol, H = RandomState> {
    map: HashMap<Vec<u8>, S, H>,
    strs: boxcar::Vec<Stored>,
}

impl BytesInterner<Symbol, RandomState> {
    /// Creates a new, empty `Interner` with the default symbol and hasher.
    pub fn new() -> (r: Self) {
        Self::with_capacity(0)
    }

    /// Creates a new `Interner` with the given capacity and default symbol and hasher.
    pub fn with_capacity(capacity: usize) -> (r: Self)
        requires
            capacity < usize::MAX / 128,
    {
        Self::with_capacity_and_hasher(capacity, random_state())
    }
}

impl Default for BytesInterner<Symbol, RandomState> {
    fn default() -> (r: Self) {
        Self::new()
    }
}

impl<H: BuildHasher> BytesInterner<Symbol, H> {
    /// Creates a new `Interner` with the given custom hasher.
    pub fn with_hasher(hash_builder: H) -> (r: Self) {
        Self::with_capacity_and_hasher(0, hash_builder)
    }

    /// Creates a new `Interner` with the given capacitiy and custom hasher.
    pub fn with_capacity_and_hasher(capacity: usize, hash_builder: H) -> (r: Self)
        requires
            capacity < usize::MAX / 128,
    {
        BytesInterner {
            map: lf_map_with_capacity_and_hasher(capacity, hash_builder),
            strs: strs_with_capacity(capacity),
        }
    }

    /// Returns the number of unique strings in the interner.
    pub fn len(&self) -> (r: usize) {
        vec_count(&self.strs)
    }

    /// Returns `true` if the interner is empty.
    pub fn is_empty(&self) -> (r: bool) {
        self.len() == 0
    }

    /// The bytes that position `i` holds once it is written; each position is written
    /// once and never changed.
    pub closed spec fn slot(&self, i: usize) -> Seq<u8> {
        slot_bytes(self.strs, i)
    }

    /// Whether some position holds the bytes `b` (once written).
    pub open spec fn holds(&self, b: Seq<u8>) -> bool {
        exists|j: usize| #[trigger] self.slot(j) == b
    }

    /// Returns the symbol the map holds for `s`, or files `s` under a new symbol, keeping
    /// `keep` (the same bytes, living forever) when given and a copy of `s` otherwise.
    /// A symbol taken from the map is returned only after its position is seen to hold
    /// `s`; otherwise `s` is written at a fresh position, whose symbol is returned.
    fn do_intern(&self, s: &[u8], keep: Option<&'static [u8]>) -> (r: Symbol)
        requires
            keep matches Some(k) ==> k@ == s@,
        ensures
            self.slot(r@) == s@,
    {
        match lf_map_get(&self.map, s) {
            Some(sym) => {
                if stored_holds(&self.strs, sym, s) {
                    return sym;
                }
            },
            None => {},
        }
        let key = vstd::slice::slice_to_vec(s);
        let sym = lf_map_get_or_push(&self.map, key, &self.strs, new_stored(s, keep));
        if stored_holds(&self.strs, sym, s) {
            sym
        } else {
            push_stored(&self.strs, new_stored(s, keep))
        }
    }

    /// Interns a string, returning its unique `Symbol`.
    pub fn intern(&self, s: &[u8]) -> (r: Symbol)
        ensures
            self.slot(r@) == s@,
    {
        self.do_intern(s, None)
    }

    /// Interns a string, returning its unique `Symbol`.
    pub fn intern_mut(&mut self, s: &[u8]) -> (r: Symbol)
        ensures
            final(self).slot(r@) == s@,
    {
        self.intern(s)
    }

    /// Interns a string that outlives the interner. The interner keeps a copy of it.
    pub fn intern_static(&self, s: &[u8]) -> (r: Symbol)
        ensures
            self.slot(r@) == s@,
    {
        self.intern(s)
    }

    /// Interns a string that outlives the interner. The interner keeps a copy of it.
    pub fn intern_mut_static(&mut self, s: &[u8]) -> (r: Symbol)
        ensures
            final(self).slot(r@) == s@,
    {
        self.intern(s)
    }

    /// Interns multiple strings, copying those not yet interned.
    pub fn intern_many(&self, strings: &[&[u8]])
        ensures
            forall|k: int| 0 <= k < strings@.len() ==> self.holds(#[trigger] strings@[k]@),
    {
        let mut k: usize = 0;
        while k < strings.len()
            invariant
                k <= strings@.len(),
                forall|i: int| 0 <= i < k ==> self.holds(#[trigger] strings@[i]@),
            decreases strings@.len() - k,
        {
            let r = self.intern(strings[k]);
            assert(self.slot(r@) == strings@[k as int]@);
            assert(self.holds(strings@[k as int]@));
            k = k + 1;
        }
    }

    /// Interns multiple strings, copying those not yet interned.
    pub fn intern_many_mut(&mut self, strings: &[&[u8]])
        ensures
            forall|k: int| 0 <= k < strings@.len() ==> final(self).holds(#[trigger] strings@[k]@),
    {
        self.intern_many(strings)
    }

    /// Interns multiple strings that outlive the interner.
    pub fn intern_many_static(&self, strings: &[&[u8]])
        ensures
            forall|k: int| 0 <= k < strings@.len() ==> self.holds(#[trigger] strings@[k]@),
    {
        self.intern_many(strings)
    }

    /// Interns multiple strings that outlive the interner.
    pub fn intern_many_mut_static(&mut self, strings: &[&[u8]])
        ensures
            forall|k: int| 0 <= k < strings@.len() ==> final(self).holds(#[trigger] strings@[k]@),
    {
        self.intern_many(strings)
    }

    /// Tries to map a `Symbol` to its string; `None` when no string was written at its
    /// position yet.
    pub fn try_resolve(&self, sym: Symbol) -> (r: Option<&[u8]>)
        ensures
            r matches Some(b) ==> b@ == self.slot(sym@),
    {
        slot_of(&self.strs, sym)
    }

    /// Returns the symbols of the strings interned so far, in order.
    pub fn all_symbols(&self) -> (r: Vec<Symbol>)
        ensures
            forall|i: int| 0 <= i < r@.len() ==> #[trigger] r@[i]@ == i,
    {
        symbols_below(self.len())
    }

    /// Returns the strings interned so far with their symbols, in order of the symbols: the
    /// `k`-th entry is `Symbol(k)` with its string. The listing ends before the first position
    /// (below the count of strings) that another thread is still writing.
    pub fn iter(&self) -> (r: Vec<(Symbol, &[u8])>)
        ensures
            forall|k: int| 0 <= k < r@.len() ==> #[trigger] r@[k].0@ == k,
            forall|a: int, b: int| 0 <= a < b < r@.len() ==> r@[a].0@ < r@[b].0@,
            forall|k: int| 0 <= k < r@.len() ==> #[trigger] r@[k].1@ == self.slot(r@[k].0@),
    {
        let n = self.len();
        let mut r: Vec<(Symbol, &[u8])> = Vec::new();
        let mut i: usize = 0;
        let mut open: bool = true;
        while open && i < n
            invariant
                i <= n,
                r@.len() == i,
                forall|k: int| 0 <= k < r@.len() ==> #[trigger] r@[k].0@ == k,
                forall|k: int| 0 <= k < r@.len() ==> #[trigger] r@[k].1@ == self.slot(r@[k].0@),
            decreases 2 * (n - i) + (if open { 1int } else { 0int }),
        {
            let sym = Symbol::new(i);
            match self.try_resolve(sym) {
                Some(b) => {
                    let ghost before = r@;
                    r.push((sym, b));
                    assert(r@ == before.push((sym, b)));
                    i = i + 1;
                },
                None => {
                    open = false;
                },
            }
        }
        r
    }
}

} // verus!
