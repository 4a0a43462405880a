use super::bytes::BytesInterner;
use crate::interner::unsync::bytes::random_state;
use crate::interner::unsync::str::{chars_of, lemma_str_chars, str_from_utf8};
use crate::Symbol;
use std::collections::hash_map::RandomState;
use std::hash::BuildHasher;
use vstd::prelude::*;
use vstd::string::StringSliceAdditionalSpecFns;

verus! {

/// Thread-safe string interner: a thin layer over [`BytesInterner`] that interns the
/// UTF-8 bytes of each `str`.
#[verifier::reject_recursive_types(S)]
#[verifier::reject_recursive_types(H)]
pub struct Interner<S = Symbol, H = RandomState> {
    inner: BytesInterner<S, H>,
}

impl Interner<Symbol, RandomState> {
    /// Creates a new, empty `Interner` with the default symbol and hasher.
    pub fn new() -> (r: Self) {
        Self::with_capacity(0)
    }

    /// Creates a new `Interner` with the given capacity and default symbol and hasher.
    pub fn with_capacity(capacity: usize) -> (r: Self)
        requires
            capacity < usize::MAX / 128,
    {
        Self::with_capacity_and_hasher(capacity, random_state())
    }
}

impl Default for Interner<Symbol, RandomState> {
    fn default() -> (r: Self) {
        Self::new()
    }
}

impl<H: BuildHasher + Clone> Interner<Symbol, H> {
    /// Creates a new `Interner` with the given custom hasher.
    pub fn with_hasher(hash_builder: H) -> (r: Self) {
        Self::with_capacity_and_hasher(0, hash_builder)
    }

    /// Creates a new `Interner` with the given capacitiy and custom hasher.
    pub fn with_capacity_and_hasher(capacity: usize, hash_builder: H) -> (r: Self)
        requires
            capacity < usize::MAX / 128,
    {
        Interner { inner: BytesInterner::with_capacity_and_hasher(capacity, hash_builder) }
    }

    /// The UTF-8 bytes that position `i` holds once it is written; each position is
    /// written once and never changed.
    pub closed spec fn slot(&self, i: usize) -> Seq<u8> {
        self.inner.slot(i)
    }

    /// Whether some position holds the UTF-8 bytes of `s` (once written), which encode `s`.
    pub open spec fn holds(&self, s: &str) -> bool {
        exists|j: usize| #[trigger] self.slot(j) == s.spec_bytes() && chars_of(self.slot(j)) == s@
    }

    /// Returns the number of unique strings in the interner.
    pub fn len(&self) -> (r: usize) {
        self.inner.len()
    }

    /// Returns `true` if the interner is empty.
    pub fn is_empty(&self) -> (r: bool) {
        self.len() == 0
    }

    /// Interns a string, returning its unique `Symbol`.
    pub fn intern(&self, s: &str) -> (r: Symbol)
        ensures
            self.slot(r@) == s.spec_bytes(),
            chars_of(self.slot(r@)) == s@,
    {
        let r = self.inner.intern(s.as_bytes());
        proof {
            lemma_str_chars(s);
        }
        r
    }

    /// Interns a string, returning its unique `Symbol`.
    pub fn intern_mut(&mut self, s: &str) -> (r: Symbol)
        ensures
            final(self).slot(r@) == s.spec_bytes(),
            chars_of(final(self).slot(r@)) == s@,
    {
        self.intern(s)
    }

    /// Interns a static string, returning its unique `Symbol`, without copying it.
    pub fn intern_static(&self, s: &'static str) -> (r: Symbol)
        ensures
            self.slot(r@) == s.spec_bytes(),
            chars_of(self.slot(r@)) == s@,
    {
        let r = self.inner.intern_static(s.as_bytes());
        proof {
            lemma_str_chars(s);
        }
        r
    }

    /// Interns a static string, returning its unique `Symbol`, without copying it.
    pub fn intern_mut_static(&mut self, s: &'static str) -> (r: Symbol)
        ensures
            final(self).slot(r@) == s.spec_bytes(),
            chars_of(final(self).slot(r@)) == s@,
    {
        self.intern_static(s)
    }

    /// Interns a string that is not typed as `'static`. The interner keeps a copy of it,
    /// so `s` need not outlive the interner.
    pub fn intern_static_unchecked(&self, s: &str) -> (r: Symbol)
        ensures
            self.slot(r@) == s.spec_bytes(),
            chars_of(self.slot(r@)) == s@,
    {
        self.intern(s)
    }

    /// Interns a string that is not typed as `'static`. The interner keeps a copy of it,
    /// so `s` need not outlive the interner.
    pub fn intern_mut_static_unchecked(&mut self, s: &str) -> (r: Symbol)
        ensures
            final(self).slot(r@) == s.spec_bytes(),
            chars_of(final(self).slot(r@)) == s@,
    {
        self.intern(s)
    }

    /// Interns multiple strings, copying those not yet interned.
    pub fn intern_many(&self, strings: &[&str])
        ensures
            forall|k: int| 0 <= k < strings@.len() ==> self.holds(#[trigger] strings@[k]),
    {
        let mut k: usize = 0;
        while k < strings.len()
            invariant
                k <= strings@.len(),
                forall|i: int| 0 <= i < k ==> self.holds(#[trigger] strings@[i]),
            decreases strings@.len() - k,
        {
            let r = self.intern(strings[k]);
            assert(self.slot(r@) == strings@[k as int].spec_bytes());
            assert(self.holds(strings@[k as int]));
            k = k + 1;
        }
    }

    /// Interns multiple strings, copying those not yet interned.
    pub fn intern_many_mut(&mut self, strings: &[&str])
        ensures
            forall|k: int| 0 <= k < strings@.len() ==> final(self).holds(#[trigger] strings@[k]),
    {
        self.intern_many(strings)
    }

    /// Interns multiple static strings without copying them.
    pub fn intern_many_static(&self, strings: &[&'static str])
        ensures
            forall|k: int| 0 <= k < strings@.len() ==> self.holds(#[trigger] strings@[k]),
    {
        let mut k: usize = 0;
        while k < strings.len()
            invariant
                k <= strings@.len(),
                forall|i: int| 0 <= i < k ==> self.holds(#[trigger] strings@[i]),
            decreases strings@.len() - k,
        {
            let r = self.intern_static(strings[k]);
            assert(self.slot(r@) == strings@[k as int].spec_bytes());
            assert(self.holds(strings@[k as int]));
            k = k + 1;
        }
    }

    /// Interns multiple static strings without copying them.
    pub fn intern_many_mut_static(&mut self, strings: &[&'static str])
        ensures
            forall|k: int| 0 <= k < strings@.len() ==> final(self).holds(#[trigger] strings@[k]),
    {
        self.intern_many_static(strings)
    }

    /// Interns multiple strings that are not typed as `'static`; the interner keeps copies
    /// of them.
    pub fn intern_many_static_unchecked(&self, strings: &[&str])
        ensures
            forall|k: int| 0 <= k < strings@.len() ==> self.holds(#[trigger] strings@[k]),
    {
        self.intern_many(strings)
    }

    /// Interns multiple strings that are not typed as `'static`; the interner keeps copies
    /// of them.
    pub fn intern_many_mut_static_unchecked(&mut self, strings: &[&str])
        ensures
            forall|k: int| 0 <= k < strings@.len() ==> final(self).holds(#[trigger] strings@[k]),
    {
        self.intern_many(strings)
    }

    /// Tries to map a `Symbol` to its string; `None` when no string was written at its
    /// position yet.
    pub fn try_resolve(&self, sym: Symbol) -> (r: Option<&str>)
        ensures
            r matches Some(t) ==> t.spec_bytes() == self.slot(sym@) && t@ == chars_of(
                self.slot(sym@),
            ),
    {
        match self.inner.try_resolve(sym) {
            Some(b) => match str_from_utf8(b) {
                Some(t) => {
                    proof {
                        lemma_str_chars(t);
                    }
                    Some(t)
                },
                None => None,
            },
            None => None,
        }
    }

    /// Returns the symbols of the strings interned so far, in order.
    pub fn all_symbols(&self) -> (r: Vec<Symbol>)
        ensures
            forall|i: int| 0 <= i < r@.len() ==> #[trigger] r@[i]@ == i,
    {
        self.inner.all_symbols()
    }

    /// Returns the strings interned so far with their symbols, in order of the symbols: the
    /// `k`-th entry is `Symbol(k)` with its string. The listing ends before the first position
    /// (below the count of strings) that another thread is still writing.
    pub fn iter(&self) -> (r: Vec<(Symbol, &str)>)
        ensures
            forall|k: int| 0 <= k < r@.len() ==> #[trigger] r@[k].0@ == k,
            forall|a: int, b: int| 0 <= a < b < r@.len() ==> r@[a].0@ < r@[b].0@,
            forall|k: int| 0 <= k < r@.len() ==> #[trigger] r@[k].1@ == chars_of(self.slot(r@[k].0@)),
    {
        let n = self.len();
        let mut r: Vec<(Symbol, &str)> = Vec::new();
        let mut i: usize = 0;
        let mut open: bool = true;
        while open && i < n
            invariant
                i <= n,
                r@.len() == i,
                forall|k: int| 0 <= k < r@.len() ==> #[trigger] r@[k].0@ == k,
                forall|k: int| 0 <= k < r@.len() ==> #[trigger] r@[k].1@ == chars_of(self.slot(r@[k].0@)),
            decreases 2 * (n - i) + (if open { 1int } else { 0int }),
        {
            let sym = Symbol::new(i);
            match self.try_resolve(sym) {
                Some(t) => {
                    let ghost before = r@;
                    r.push((sym, t));
                    assert(r@ == before.push((sym, t)));
                    i = i + 1;
                },
                None => {
                    open = false;
                },
            }
        }
        r
    }
}

} // verus!
