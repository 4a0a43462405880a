use crate::interner::unsync::bytes::{bytes_eq, random_state, Stored};
use crate::{InternerSymbol, Symbol};
use dashmap::DashMap;
use std::collections::hash_map::RandomState;
use std::hash::BuildHasher;
use vstd::prelude::*;

verus! {

// ---------------------------------------------------------------------------
// The shared collections. Both are changed through shared references by any
// thread, so nothing is stated of what they hold at a given moment: each
// wrapper below states only what holds of every outcome of its call.
// ---------------------------------------------------------------------------

#[verifier::external_type_specification]
#[verifier::external_body]
#[verifier::reject_recursive_types(K)]
#[verifier::reject_recursive_types(V)]
#[verifier::reject_recursive_types(S)]
pub struct ExDashMap<K, V, S>(DashMap<K, V, S>);

#[verifier::external_type_specification]
#[verifier::external_body]
#[verifier::reject_recursive_types(T)]
pub struct ExBoxcarVec<T>(boxcar::Vec<T>);

/// `DashMap::with_capacity_and_hasher`: a new map; what it holds is not modelled. Below
/// `usize::MAX / 128` the capacity does not make the shard tables' sizes overflow.
#[verifier::external_body]
fn map_with_capacity_and_hasher<H: BuildHasher + Clone>(
    capacity: usize,
    hash_builder: H,
) -> DashMap<Vec<u8>, Symbol, H>
    requires
        capacity < usize::MAX / 128,
{
    DashMap::with_capacity_and_hasher(capacity, hash_builder)
}

/// `DashMap::get`: the symbol the map holds for `key` at the moment of the call, if any.
/// What the map holds depends on the other threads, so nothing is stated of the result.
#[verifier::external_body]
fn map_get<H: BuildHasher + Clone>(map: &DashMap<Vec<u8>, Symbol, H>, key: &[u8]) -> Option<
    Symbol,
> {
    map.get(key).map(|r| *r)
}

/// `DashMap::entry` and `Entry::or_insert_with`: the symbol the map holds for `key`, or,
/// when it holds none, the symbol that [`push_stored`] gives for `stored`, which the map
/// then holds. Which of the two happens depends on the other threads, so nothing is
/// stated of the result.
#[verifier::external_body]
fn map_get_or_push<H: BuildHasher + Clone>(
    map: &DashMap<Vec<u8>, Symbol, H>,
    key: Vec<u8>,
    strs: &boxcar::Vec<Stored>,
    stored: Stored,
) -> Symbol {
    *map.entry(key).or_insert_with(|| push_stored(strs, stored))
}

/// `boxcar::Vec::with_capacity`: a new, empty vector. Below `usize::MAX / 128` the
/// capacity does not make a bucket's size overflow.
#[verifier::external_body]
pub(crate) fn strs_with_capacity(capacity: usize) -> boxcar::Vec<Stored>
    requires
        capacity < usize::MAX / 128,
{
    boxcar::Vec::with_capacity(capacity)
}

/// The bytes that position `i` of `v` holds once it is written. Every position of such a
/// vector is written once, by the `push` that hands it out, and never changed: the
/// vector is only ever pushed to.
pub uninterp spec fn slot_bytes(v: boxcar::Vec<Stored>, i: usize) -> Seq<u8>;

/// `boxcar::Vec::push`: the position the value was written at, which then holds the
/// value's bytes. Which position is handed out depends on the other threads. (Its
/// capacity-overflow panic needs more entries than the address space can hold.)
#[verifier::external_body]
pub(crate) fn strs_push(v: &boxcar::Vec<Stored>, value: Stored) -> (r: usize)
    ensures
        slot_bytes(*v, r) == value@,
{
    v.push(value)
}

/// `boxcar::Vec::count`: the number of values written so far, which other threads change.
#[verifier::external_body]
pub(crate) fn vec_count<T>(v: &boxcar::Vec<T>) -> usize {
    v.count()
}

/// `boxcar::Vec::get`: the value written at `index`, if it was written yet; its bytes
/// are those the position holds.
#[verifier::external_body]
pub(crate) fn strs_get(v: &boxcar::Vec<Stored>, index: usize) -> (r: Option<&Stored>)
    ensures
        r matches Some(x) ==> x@ == slot_bytes(*v, index),
{
    v.get(index)
}

/// Appends `stored` and returns the symbol of the position it was written at.
pub fn push_stored(strs: &boxcar::Vec<Stored>, stored: Stored) -> (r: Symbol)
    ensures
        slot_bytes(*strs, r@) == stored@,
{
    let i = strs_push(strs, stored);
    Symbol::new(i)
}

/// Whether position `sym` of `strs` is written and holds `s`.
pub(crate) fn stored_holds(strs: &boxcar::Vec<Stored>, sym: Symbol, s: &[u8]) -> (r: bool)
    ensures
        r ==> slot_bytes(*strs, sym@) == s@,
{
    match strs_get(strs, sym.get()) {
        Some(st) => bytes_eq(st.as_bytes(), s),
        None => false,
    }
}

/// The bytes of `s` to keep: `keep` itself when given (it holds the same bytes and lives
/// forever), and a copy of `s` otherwise.
pub(crate) fn new_stored(s: &[u8], keep: Option<&'static [u8]>) -> (r: Stored)
    requires
        keep matches Some(k) ==> k@ == s@,
    ensures
        r@ == s@,
{
    match keep {
        Some(st) => Stored::Static(st),
        None => Stored::Owned(vstd::slice::slice_to_vec(s)),
    }
}

/// The bytes at `sym` of `strs`, if written yet.
pub(crate) fn slot_of(strs: &boxcar::Vec<Stored>, sym: Symbol) -> (r: Option<&[u8]>)
    ensures
        r matches Some(b) ==> b@ == slot_bytes(*strs, sym@),
{
    match strs_get(strs, sym.get()) {
        Some(stored) => Some(stored.as_bytes()),
        None => None,
    }
}

/// The symbols `0..n`, in order.
pub(crate) fn symbols_below(n: usize) -> (r: Vec<Symbol>)
    ensures
        r@.len() == n,
        forall|i: int| 0 <= i < n ==> #[trigger] r@[i]@ == i,
{
    let mut r: Vec<Symbol> = Vec::with_capacity(n);
    let mut i: usize = 0;
    while i < n
        invariant
            i <= n,
            r@.len() == i,
            forall|j: int| 0 <= j < i ==> #[trigger] r@[j]@ == j,
        decreases n - i,
    {
        r.push(Symbol::new(i));
        i = i + 1;
    }
    r
}

// ---------------------------------------------------------------------------
// The interner.
// ---------------------------------------------------------------------------

/// Thread-safe byte string interner.
#[verifier::reject_recursive_types(S)]
#[verifier::reject_recursive_types(H)]
pub struct BytesInterner<S = Symbol, H = RandomState> {
    map: DashMap<Vec<u8>, S, H>,
    strs: boxcar::Vec<Stored>,
}

impl BytesInterner<Symbol, RandomState> {
    /// Creates a new, empty `Interner` with the default symbol and hasher.
    pub fn new() -> (r: Self) {
        Self::with_capacity(0)
    }

    /// Creates a new `Interner` with the given capacity and default symbol and hasher.
    pub fn with_capacity(capacity: usize) -> (r: Self)
        requires
            capacity < usize::MAX / 128,
    {
        Self::with_capacity_and_hasher(capacity, random_state())
    }
}

impl Default for BytesInterner<Symbol, RandomState> {
    fn default() -> (r: Self) {
        Self::new()
    }
}

impl<H: BuildHasher + Clone> BytesInterner<Symbol, H> {
    /// Creates a new `Interner` with the given custom hasher.
    pub fn with_hasher(hash_builder: H) -> (r: Self) {
        Self::with_capacity_and_hasher(0, hash_builder)
    }

    /// Creates a new `Interner` with the given capacitiy and custom hasher.
    pub fn with_capacity_and_hasher(capacity: usize, hash_builder: H) -> (r: Self)
        requires
            capacity < usize::MAX / 128,
    {
        BytesInterner {
            map: map_with_capacity_and_hasher(capacity, hash_builder),
            strs: strs_with_capacity(capacity),
        }
    }

    /// Returns the number of unique strings in the interner.
    pub fn len(&self) -> (r: usize) {
        vec_count(&self.strs)
    }

    /// Returns `true` if the interner is empty.
    pub fn is_empty(&self) -> (r: bool) {
        self.len() == 0
    }

    /// The bytes that position `i` holds once it is written; each position is written
    /// once and never changed.
    pub closed spec fn slot(&self, i: usize) -> Seq<u8> {
        slot_bytes(self.strs, i)
    }

    /// Whether some position holds the bytes `b` (once written).
    pub open spec fn holds(&self, b: Seq<u8>) -> bool {
        exists|j: usize| #[trigger] self.slot(j) == b
    }

    /// Returns the symbol the map holds for `s`, or files `s` under a new symbol, keeping
    /// `keep` (the same bytes, living forever) when given and a copy of `s` otherwise.
    /// A symbol taken from the map is returned only after its position is seen to hold
    /// `s`; otherwise `s` is written at a fresh position, whose symbol is returned.
    fn do_intern(&self, s: &[u8], keep: Option<&'static [u8]>) -> (r: Symbol)
        requires
            keep matches Some(k) ==> k@ == s@,
        ensures
            self.slot(r@) == s@,
    {
        match map_get(&self.map, s) {
            Some(sym) => {
                if stored_holds(&self.strs, sym, s) {
                    return sym;
                }
            },
            None => {},
        }
        let key = vstd::slice::slice_to_vec(s);
        let sym = map_get_or_push(&self.map, key, &self.strs, new_stored(s, keep));
        if stored_holds(&self.strs, sym, s) {
            sym
        } else {
            push_stored(&self.strs, new_stored(s, keep))
        }
    }

    /// Interns a string, returning its unique `Symbol`.
    pub fn intern(&self, s: &[u8]) -> (r: Symbol)
        ensures
            self.slot(r@) == s@,
    {
        self.do_intern(s, None)
    }

    /// Interns a string, returning its unique `Symbol`.
    pub fn intern_mut(&mut self, s: &[u8]) -> (r: Symbol)
        ensures
            final(self).slot(r@) == s@,
    {
        self.intern(s)
    }

    /// Interns a static string, returning its unique `Symbol`, without copying it.
    pub fn intern_static(&self, s: &'static [u8]) -> (r: Symbol)
        ensures
            self.slot(r@) == s@,
    {
        self.do_intern(s, Some(s))
    }

    /// Interns a static string, returning its unique `Symbol`, without copying it.
    pub fn intern_mut_static(&mut self, s: &'static [u8]) -> (r: Symbol)
        ensures
            final(self).slot(r@) == s@,
    {
        self.intern_static(s)
    }

    /// Interns a string that is not typed as `'static`. The interner keeps a copy of it,
    /// so `s` need not outlive the interner.
    pub fn intern_static_unchecked(&self, s: &[u8]) -> (r: Symbol)
        ensures
            self.slot(r@) == s@,
    {
        self.intern(s)
    }

    /// Interns a string that is not typed as `'static`. The interner keeps a copy of it,
    /// so `s` need not outlive the interner.
    pub fn intern_mut_static_unchecked(&mut self, s: &[u8]) -> (r: Symbol)
        ensures
            final(self).slot(r@) == s@,
    {
        self.intern(s)
    }

    /// Interns multiple strings, copying those not yet interned.
    pub fn intern_many(&self, strings: &[&[u8]])
        ensures
            forall|k: int| 0 <= k < strings@.len() ==> self.holds(#[trigger] strings@[k]@),
    {
        let mut k: usize = 0;
        while k < strings.len()
            invariant
                k <= strings@.len(),
                forall|i: int| 0 <= i < k ==> self.holds(#[trigger] strings@[i]@),
            decreases strings@.len() - k,
        {
            let r = self.intern(strings[k]);
            assert(self.slot(r@) == strings@[k as int]@);
            assert(self.holds(strings@[k as int]@));
            k = k + 1;
        }
    }

    /// Interns multiple strings, copying those not yet interned.
    pub fn intern_many_mut(&mut self, strings: &[&[u8]])
        ensures
            forall|k: int| 0 <= k < strings@.len() ==> final(self).holds(#[trigger] strings@[k]@),
    {
        self.intern_many(strings)
    }

    /// Interns multiple static strings without copying them.
    pub fn intern_many_static(&self, strings: &[&'static [u8]])
        ensures
            forall|k: int| 0 <= k < strings@.len() ==> self.holds(#[trigger] strings@[k]@),
    {
        let mut k: usize = 0;
        while k < strings.len()
            invariant
                k <= strings@.len(),
                forall|i: int| 0 <= i < k ==> self.holds(#[trigger] strings@[i]@),
            decreases strings@.len() - k,
        {
            let r = self.intern_static(strings[k]);
            assert(self.slot(r@) == strings@[k as int]@);
            assert(self.holds(strings@[k as int]@));
            k = k + 1;
        }
    }

    /// Interns multiple static strings without copying them.
    pub fn intern_many_mut_static(&mut self, strings: &[&'static [u8]])
        ensures
            forall|k: int| 0 <= k < strings@.len() ==> final(self).holds(#[trigger] strings@[k]@),
    {
        self.intern_many_static(strings)
    }

    /// Interns multiple strings that are not typed as `'static`; the interner keeps copies
    /// of them.
    pub fn intern_many_static_unchecked(&self, strings: &[&[u8]])
        ensures
            forall|k: int| 0 <= k < strings@.len() ==> self.holds(#[trigger] strings@[k]@),
    {
        self.intern_many(strings)
    }

    /// Interns multiple strings that are not typed as `'static`; the interner keeps copies
    /// of them.
    pub fn intern_many_mut_static_unchecked(&mut self, strings: &[&[u8]])
        ensures
            forall|k: int| 0 <= k < strings@.len() ==> final(self).holds(#[trigger] strings@[k]@),
    {
        self.intern_many(strings)
    }

    /// Tries to map a `Symbol` to its string; `None` when no string was written at its
    /// position yet.
    pub fn try_resolve(&self, sym: Symbol) -> (r: Option<&[u8]>)
        ensures
            r matches Some(b) ==> b@ == self.slot(sym@),
    {
        slot_of(&self.strs, sym)
    }

    /// Returns the symbols of the strings interned so far, in order.
    pub fn all_symbols(&self) -> (r: Vec<Symbol>)
        ensures
            forall|i: int| 0 <= i < r@.len() ==> #[trigger] r@[i]@ == i,
    {
        symbols_below(self.len())
    }

    /// Returns the strings interned so far with their symbols, in order of the symbols: the
    /// `k`-th entry is `Symbol(k)` with its string. The listing ends before the first position
    /// (below the count of strings) that another thread is still writing.
    pub fn iter(&self) -> (r: Vec<(Symbol, &[u8])>)
        ensures
            forall|k: int| 0 <= k < r@.len() ==> #[trigger] r@[k].0@ == k,
            forall|a: int, b: int| 0 <= a < b < r@.len() ==> r@[a].0@ < r@[b].0@,
            forall|k: int| 0 <= k < r@.len() ==> #[trigger] r@[k].1@ == self.slot(r@[k].0@),
    {
        let n = self.len();
        let mut r: Vec<(Symbol, &[u8])> = Vec::new();
        let mut i: usize = 0;
        let mut open: bool = true;
        while open && i < n
            invariant
                i <= n,
                r@.len() == i,
                forall|k: int| 0 <= k < r@.len() ==> #[trigger] r@[k].0@ == k,
                forall|k: int| 0 <= k < r@.len() ==> #[trigger] r@[k].1@ == self.slot(r@[k].0@),
            decreases 2 * (n - i) + (if open { 1int } else { 0int }),
        {
            let sym = Symbol::new(i);
            match self.try_resolve(sym) {
                Some(b) => {
                    let ghost before = r@;
                    r.push((sym, b));
                    assert(r@ == before.push((sym, b)));
                    i = i + 1;
                },
                None => {
                    open = false;
                },
            }
        }
        r
    }
}

} // verus!
