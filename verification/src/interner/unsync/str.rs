use super::bytes::{intern_all, interned, kinds_grown, random_state, BytesInterner};
use crate::{InternerSymbol, Symbol};
use std::collections::hash_map::RandomState;
use std::hash::BuildHasher;
use vstd::prelude::*;
use vstd::string::StringSliceAdditionalSpecFns;
use vstd::utf8::{
    decode_utf8, decode_utf8_encode_utf8, encode_utf8, encode_utf8_decode_utf8, encode_utf8_valid_utf8,
    valid_utf8,
};

verus! {

/// `std::str::from_utf8`: the result, when there is one, holds exactly the given bytes;
/// there is one whenever the bytes are well-formed UTF-8.
#[verifier::external_body]
pub(crate) fn str_from_utf8(b: &[u8]) -> (r: Option<&str>)
    ensures
        r matches Some(s) ==> s.spec_bytes() == b@,
        valid_utf8(b@) ==> r is Some,
{
    std::str::from_utf8(b).ok()
}

/// The characters a well-formed UTF-8 byte string encodes.
pub open spec fn chars_of(b: Seq<u8>) -> Seq<char> {
    decode_utf8(b)
}

/// A `str` holds the characters its bytes encode.
pub proof fn lemma_str_chars(s: &str)
    ensures
        chars_of(s.spec_bytes()) == s@,
        valid_utf8(s.spec_bytes()),
{
    encode_utf8_decode_utf8(s@);
    encode_utf8_valid_utf8(s@);
}

/// Turns interned bytes back into the `str` they were interned from.
pub(crate) fn bytes_to_str(b: &[u8]) -> (r: &str)
    requires
        valid_utf8(b@),
    ensures
        r@ == chars_of(b@),
        r.spec_bytes() == b@,
{
    match str_from_utf8(b) {
        Some(s) => {
            proof {
                lemma_str_chars(s);
            }
            s
        },
        None => {
            proof {
                assert(false);
            }
            ""
        },
    }
}

/// Non-thread-safe string interner: a thin layer over [`BytesInterner`] that interns the
/// UTF-8 bytes of each `str`.
pub struct Interner<S = Symbol, H = RandomState> {
    inner: BytesInterner<S, H>,
}

impl<S: InternerSymbol, H> View for Interner<S, H> {
    type V = Seq<Seq<char>>;

    /// The interned strings, in the order of their symbols.
    closed spec fn view(&self) -> Seq<Seq<char>> {
        self.inner@.map_values(|b: Seq<u8>| chars_of(b))
    }
}

impl<S: InternerSymbol, H> Interner<S, H> {
    /// The interner's invariant: the byte interner's own, and every interned byte string is
    /// well-formed UTF-8.
    pub closed spec fn wf(&self) -> bool {
        &&& self.inner.wf()
        &&& forall|i: int| 0 <= i < self.inner@.len() ==> valid_utf8(#[trigger] self.inner@[i])
    }

    /// For each interned string, in the order of the symbols, whether the interner keeps
    /// the caller's `'static` string itself (`true`) or a copy of its own (`false`).
    pub closed spec fn kinds(&self) -> Seq<bool> {
        self.inner.kinds()
    }

    /// The byte strings under the interned strings are their UTF-8 encodings.
    proof fn lemma_encodings(&self)
        requires
            self.wf(),
        ensures
            self@.len() == self.inner@.len(),
            forall|i: int| 0 <= i < self@.len() ==> #[trigger] self.inner@[i] == encode_utf8(self@[i]),
    {
        assert forall|i: int| 0 <= i < self@.len() implies #[trigger] self.inner@[i] == encode_utf8(
            self@[i],
        ) by {
            decode_utf8_encode_utf8(self.inner@[i]);
        }
    }

    /// A well-formed interner holds no string twice, and one kind per string.
    pub proof fn lemma_no_duplicates(&self)
        requires
            self.wf(),
        ensures
            self@.no_duplicates(),
            self.kinds().len() == self@.len(),
    {
        self.inner.lemma_no_duplicates();
        self.lemma_encodings();
        assert forall|i: int, j: int| 0 <= i < self@.len() && 0 <= j < self@.len() && i != j implies self@[i]
            != self@[j] by {
            assert(self.inner@[i] != self.inner@[j]);
            assert(self.inner@[i] == encode_utf8(self@[i]));
            assert(self.inner@[j] == encode_utf8(self@[j]));
        }
    }

    /// Interning the encoding of `s` in the byte interner interns `s` here.
    proof fn lemma_intern_step(old_s: &Self, new_s: &Self, s: &str, r: usize)
        requires
            old_s.wf(),
            new_s.inner.wf(),
            interned(old_s.inner@, new_s.inner@, s.spec_bytes(), r),
        ensures
            new_s.wf(),
            interned(old_s@, new_s@, s@, r),
    {
        lemma_str_chars(s);
        decode_utf8_encode_utf8(s.spec_bytes());
        old_s.lemma_encodings();
        if old_s.inner@.contains(s.spec_bytes()) {
            assert(new_s@ == old_s@);
            let p = choose|p: int| 0 <= p < old_s.inner@.len() && old_s.inner@[p] == s.spec_bytes();
            assert(old_s@[p] == s@);
            assert(old_s@.contains(s@));
        } else {
            assert(new_s@ =~= old_s@.push(s@));
            if old_s@.contains(s@) {
                let p = choose|p: int| 0 <= p < old_s@.len() && old_s@[p] == s@;
                assert(old_s.inner@[p] == s.spec_bytes());
            }
        }
        assert forall|i: int| 0 <= i < new_s.inner@.len() implies valid_utf8(#[trigger] new_s.inner@[i]) by {
            if i < old_s.inner@.len() {
                assert(new_s.inner@[i] == old_s.inner@[i]);
            }
        }
    }

    /// Creates a new `Interner` with the given capacitiy and custom hasher.
    pub fn with_capacity_and_hasher(capacity: usize, hash_builder: H) -> (r: Self)
        requires
            capacity < usize::MAX / 128,
        ensures
            r.wf(),
            r@ == Seq::<Seq<char>>::empty(),
            r.kinds() == Seq::<bool>::empty(),
    {
        let r = Interner { inner: BytesInterner::with_capacity_and_hasher(capacity, hash_builder) };
        assert(r@ =~= Seq::<Seq<char>>::empty());
        r
    }

    /// Creates a new `Interner` with the given custom hasher.
    pub fn with_hasher(hash_builder: H) -> (r: Self)
        ensures
            r.wf(),
            r@ == Seq::<Seq<char>>::empty(),
            r.kinds() == Seq::<bool>::empty(),
    {
        Self::with_capacity_and_hasher(0, hash_builder)
    }

    /// Returns the number of unique strings in the interner.
    pub fn len(&self) -> (r: usize)
        requires
            self.wf(),
        ensures
            r == self@.len(),
    {
        self.inner.len()
    }

    /// Returns `true` if the interner is empty.
    pub fn is_empty(&self) -> (r: bool)
        requires
            self.wf(),
        ensures
            r == (self@.len() == 0),
    {
        self.len() == 0
    }

    /// Maps a `Symbol` to its string.
    pub fn resolve(&self, sym: S) -> (r: &str)
        requires
            self.wf(),
            sym.spec_index() < self@.len(),
        ensures
            r@ == self@[sym.spec_index() as int],
    {
        let b = self.inner.resolve(sym);
        bytes_to_str(b)
    }

    /// Tries to map a `Symbol` to its string; `None` when the symbol is out of bounds.
    pub fn try_resolve(&self, sym: S) -> (r: Option<&str>)
        requires
            self.wf(),
        ensures
            r is Some <==> sym.spec_index() < self@.len(),
            r matches Some(s) ==> s@ == self@[sym.spec_index() as int],
    {
        match self.inner.try_resolve(sym) {
            Some(b) => Some(bytes_to_str(b)),
            None => None,
        }
    }

    /// Returns all symbols of the interner, in order.
    pub fn all_symbols(&self) -> (r: Vec<S>)
        requires
            self.wf(),
        ensures
            r@.len() == self@.len(),
            forall|i: int| 0 <= i < r@.len() ==> #[trigger] r@[i].spec_index() == i,
    {
        self.inner.all_symbols()
    }

    /// Returns the interned strings with their symbols, in order.
    pub fn iter(&self) -> (r: Vec<(S, &str)>)
        requires
            self.wf(),
        ensures
            r@.len() == self@.len(),
            forall|i: int| 0 <= i < r@.len() ==> #[trigger] r@[i].0.spec_index() == i && r@[i].1@ == self@[i],
    {
        let syms = self.inner.all_symbols();
        let n = syms.len();
        let mut r: Vec<(S, &str)> = Vec::with_capacity(n);
        let mut i: usize = 0;
        while i < n
            invariant
                self.wf(),
                n == self@.len(),
                syms@.len() == n,
                forall|j: int| 0 <= j < n ==> #[trigger] syms@[j].spec_index() == j,
                i <= n,
                r@.len() == i,
                forall|j: int|
                    0 <= j < r@.len() ==> #[trigger] r@[j].0.spec_index() == j && r@[j].1@ == self@[j],
            decreases n - i,
        {
            let sym = syms[i];
            let t = self.resolve(sym);
            let ghost before = r@;
            r.push((sym, t));
            assert(r@ == before.push((sym, t)));
            i = i + 1;
        }
        r
    }
}

impl Interner<Symbol, RandomState> {
    /// Creates a new, empty `Interner` with the default symbol and hasher.
    pub fn new() -> (r: Self)
        ensures
            r.wf(),
            r@ == Seq::<Seq<char>>::empty(),
            r.kinds() == Seq::<bool>::empty(),
    {
        Self::with_capacity(0)
    }

    /// Creates a new `Interner` with the given capacity and default symbol and hasher.
    pub fn with_capacity(capacity: usize) -> (r: Self)
        requires
            capacity < usize::MAX / 128,
        ensures
            r.wf(),
            r@ == Seq::<Seq<char>>::empty(),
            r.kinds() == Seq::<bool>::empty(),
    {
        Self::with_capacity_and_hasher(capacity, random_state())
    }
}

impl Default for Interner<Symbol, RandomState> {
    fn default() -> (r: Self)
        ensures
            r.wf(),
            r@ == Seq::<Seq<char>>::empty(),
            r.kinds() == Seq::<bool>::empty(),
    {
        Self::new()
    }
}

impl<S: InternerSymbol, H: BuildHasher> Interner<S, H> {
    /// Interns a string, returning its unique `Symbol`.
    ///
    /// Copies the string into the interner if it is not already interned.
    pub fn intern(&mut self, s: &str) -> (r: S)
        requires
            old(self).wf(),
            old(self)@.len() < usize::MAX / 128,
            S::spec_fits(old(self)@.len() as usize),
        ensures
            final(self).wf(),
            interned(old(self)@, final(self)@, s@, r.spec_index()),
            final(self).kinds() == kinds_grown(old(self).kinds(), final(self)@.len(), false),
    {
        proof {
            old(self).lemma_encodings();
        }
        let ghost before = *self;
        let r = self.inner.intern(s.as_bytes());
        proof {
            Self::lemma_intern_step(&before, self, s, r.spec_index());
        }
        r
    }

    /// Interns a string, returning its unique `Symbol`. Same as [`intern`](Self::intern).
    pub fn intern_mut(&mut self, s: &str) -> (r: S)
        requires
            old(self).wf(),
            old(self)@.len() < usize::MAX / 128,
            S::spec_fits(old(self)@.len() as usize),
        ensures
            final(self).wf(),
            interned(old(self)@, final(self)@, s@, r.spec_index()),
            final(self).kinds() == kinds_grown(old(self).kinds(), final(self)@.len(), false),
    {
        self.intern(s)
    }

    /// Interns a static string, returning its unique `Symbol`, without copying it.
    pub fn intern_static(&mut self, s: &'static str) -> (r: S)
        requires
            old(self).wf(),
            old(self)@.len() < usize::MAX / 128,
            S::spec_fits(old(self)@.len() as usize),
        ensures
            final(self).wf(),
            interned(old(self)@, final(self)@, s@, r.spec_index()),
            final(self).kinds() == kinds_grown(old(self).kinds(), final(self)@.len(), true),
    {
        proof {
            old(self).lemma_encodings();
        }
        let ghost before = *self;
        let r = self.inner.intern_static(s.as_bytes());
        proof {
            Self::lemma_intern_step(&before, self, s, r.spec_index());
        }
        r
    }

    /// Interns a static string, returning its unique `Symbol`, without copying it.
    pub fn intern_mut_static(&mut self, s: &'static str) -> (r: S)
        requires
            old(self).wf(),
            old(self)@.len() < usize::MAX / 128,
            S::spec_fits(old(self)@.len() as usize),
        ensures
            final(self).wf(),
            interned(old(self)@, final(self)@, s@, r.spec_index()),
            final(self).kinds() == kinds_grown(old(self).kinds(), final(self)@.len(), true),
    {
        self.intern_static(s)
    }

    /// Interns a string that is not typed as `'static`. The interner keeps a copy of it,
    /// so `s` need not outlive the interner.
    pub fn intern_static_unchecked(&mut self, s: &str) -> (r: S)
        requires
            old(self).wf(),
            old(self)@.len() < usize::MAX / 128,
            S::spec_fits(old(self)@.len() as usize),
        ensures
            final(self).wf(),
            interned(old(self)@, final(self)@, s@, r.spec_index()),
            final(self).kinds() == kinds_grown(old(self).kinds(), final(self)@.len(), false),
    {
        self.intern(s)
    }

    /// Interns a string that is not typed as `'static`. The interner keeps a copy of it,
    /// so `s` need not outlive the interner.
    pub fn intern_mut_static_unchecked(&mut self, s: &str) -> (r: S)
        requires
            old(self).wf(),
            old(self)@.len() < usize::MAX / 128,
            S::spec_fits(old(self)@.len() as usize),
        ensures
            final(self).wf(),
            interned(old(self)@, final(self)@, s@, r.spec_index()),
            final(self).kinds() == kinds_grown(old(self).kinds(), final(self)@.len(), false),
    {
        self.intern(s)
    }

    /// Interns multiple strings, copying those not yet interned.
    pub fn intern_many(&mut self, strings: &[&str])
        requires
            old(self).wf(),
            old(self)@.len() + strings@.len() < usize::MAX / 128,
            forall|k: int| 0 <= k < strings@.len() ==> S::spec_fits(#[trigger] (old(self)@.len() + k) as usize),
        ensures
            final(self).wf(),
            final(self)@ == intern_all(old(self)@, strings@.map_values(|x: &str| x@)),
            final(self).kinds() == kinds_grown(old(self).kinds(), final(self)@.len(), false),
    {
        self.do_intern_many(strings)
    }

    /// Interns multiple strings, copying those not yet interned.
    pub fn intern_many_mut(&mut self, strings: &[&str])
        requires
            old(self).wf(),
            old(self)@.len() + strings@.len() < usize::MAX / 128,
            forall|k: int| 0 <= k < strings@.len() ==> S::spec_fits(#[trigger] (old(self)@.len() + k) as usize),
        ensures
            final(self).wf(),
            final(self)@ == intern_all(old(self)@, strings@.map_values(|x: &str| x@)),
            final(self).kinds() == kinds_grown(old(self).kinds(), final(self)@.len(), false),
    {
        self.do_intern_many(strings)
    }

    /// Interns multiple static strings without copying them.
    pub fn intern_many_static(&mut self, strings: &[&'static str])
        requires
            old(self).wf(),
            old(self)@.len() + strings@.len() < usize::MAX / 128,
            forall|k: int| 0 <= k < strings@.len() ==> S::spec_fits(#[trigger] (old(self)@.len() + k) as usize),
        ensures
            final(self).wf(),
            final(self)@ == intern_all(old(self)@, strings@.map_values(|x: &str| x@)),
            final(self).kinds() == kinds_grown(old(self).kinds(), final(self)@.len(), true),
    {
        self.do_intern_many_static(strings)
    }

    /// Interns multiple static strings without copying them.
    pub fn intern_many_mut_static(&mut self, strings: &[&'static str])
        requires
            old(self).wf(),
            old(self)@.len() + strings@.len() < usize::MAX / 128,
            forall|k: int| 0 <= k < strings@.len() ==> S::spec_fits(#[trigger] (old(self)@.len() + k) as usize),
        ensures
            final(self).wf(),
            final(self)@ == intern_all(old(self)@, strings@.map_values(|x: &str| x@)),
            final(self).kinds() == kinds_grown(old(self).kinds(), final(self)@.len(), true),
    {
        self.do_intern_many_static(strings)
    }

    /// Interns multiple strings that are not typed as `'static`; the interner keeps copies of
    /// them, so they need not outlive it.
    pub fn intern_many_static_unchecked(&mut self, strings: &[&str])
        requires
            old(self).wf(),
            old(self)@.len() + strings@.len() < usize::MAX / 128,
            forall|k: int| 0 <= k < strings@.len() ==> S::spec_fits(#[trigger] (old(self)@.len() + k) as usize),
        ensures
            final(self).wf(),
            final(self)@ == intern_all(old(self)@, strings@.map_values(|x: &str| x@)),
            final(self).kinds() == kinds_grown(old(self).kinds(), final(self)@.len(), false),
    {
        self.do_intern_many(strings)
    }

    /// Interns multiple strings that are not typed as `'static`; the interner keeps copies of
    /// them, so they need not outlive it.
    pub fn intern_many_mut_static_unchecked(&mut self, strings: &[&str])
        requires
            old(self).wf(),
            old(self)@.len() + strings@.len() < usize::MAX / 128,
            forall|k: int| 0 <= k < strings@.len() ==> S::spec_fits(#[trigger] (old(self)@.len() + k) as usize),
        ensures
            final(self).wf(),
            final(self)@ == intern_all(old(self)@, strings@.map_values(|x: &str| x@)),
            final(self).kinds() == kinds_grown(old(self).kinds(), final(self)@.len(), false),
    {
        self.do_intern_many(strings)
    }

    /// Interns each of `strings` in turn, copying them.
    fn do_intern_many(&mut self, strings: &[&str])
        requires
            old(self).wf(),
            old(self)@.len() + strings@.len() < usize::MAX / 128,
            forall|k: int| 0 <= k < strings@.len() ==> S::spec_fits(#[trigger] (old(self)@.len() + k) as usize),
        ensures
            final(self).wf(),
            final(self)@ == intern_all(old(self)@, strings@.map_values(|x: &str| x@)),
            final(self).kinds() == kinds_grown(old(self).kinds(), final(self)@.len(), false),
    {
        let ghost views = strings@.map_values(|x: &str| x@);
        let ghost start = self@;
        let ghost start_kinds = self.kinds();
        proof {
            self.lemma_no_duplicates();
        }
        assert(views.subrange(0, 0) =~= Seq::<Seq<char>>::empty());
        assert(start_kinds =~= kinds_grown(start_kinds, start.len(), false));
        let mut k: usize = 0;
        while k < strings.len()
            invariant
                self.wf(),
                k <= strings@.len(),
                views == strings@.map_values(|x: &str| x@),
                start.len() <= self@.len() <= start.len() + k,
                start.len() + strings@.len() < usize::MAX / 128,
                forall|j: int| 0 <= j < strings@.len() ==> S::spec_fits(#[trigger] (start.len() + j) as usize),
                self@ == intern_all(start, views.subrange(0, k as int)),
                start_kinds.len() == start.len(),
                self.kinds() == kinds_grown(start_kinds, self@.len(), false),
            decreases strings@.len() - k,
        {
            let ghost before = self@;
            let s = strings[k];
            assert(S::spec_fits((start.len() + (before.len() - start.len())) as usize));
            let _ = self.intern(s);
            proof {
                super::bytes::lemma_intern_all_step(start, views, k as int);
                assert(self.kinds() =~= kinds_grown(start_kinds, self@.len(), false));
            }
            k = k + 1;
        }
        assert(views.subrange(0, strings@.len() as int) =~= views);
    }

    /// Interns each of `strings` in turn, keeping the slices themselves.
    fn do_intern_many_static(&mut self, strings: &[&'static str])
        requires
            old(self).wf(),
            old(self)@.len() + strings@.len() < usize::MAX / 128,
            forall|k: int| 0 <= k < strings@.len() ==> S::spec_fits(#[trigger] (old(self)@.len() + k) as usize),
        ensures
            final(self).wf(),
            final(self)@ == intern_all(old(self)@, strings@.map_values(|x: &str| x@)),
            final(self).kinds() == kinds_grown(old(self).kinds(), final(self)@.len(), true),
    {
        let ghost views = strings@.map_values(|x: &str| x@);
        let ghost start = self@;
        let ghost start_kinds = self.kinds();
        proof {
            self.lemma_no_duplicates();
        }
        assert(views.subrange(0, 0) =~= Seq::<Seq<char>>::empty());
        assert(start_kinds =~= kinds_grown(start_kinds, start.len(), true));
        let mut k: usize = 0;
        while k < strings.len()
            invariant
                self.wf(),
                k <= strings@.len(),
                views == strings@.map_values(|x: &str| x@),
                start.len() <= self@.len() <= start.len() + k,
                start.len() + strings@.len() < usize::MAX / 128,
                forall|j: int| 0 <= j < strings@.len() ==> S::spec_fits(#[trigger] (start.len() + j) as usize),
                self@ == intern_all(start, views.subrange(0, k as int)),
                start_kinds.len() == start.len(),
                self.kinds() == kinds_grown(start_kinds, self@.len(), true),
            decreases strings@.len() - k,
        {
            let ghost before = self@;
            let s = strings[k];
            assert(S::spec_fits((start.len() + (before.len() - start.len())) as usize));
            let _ = self.intern_static(s);
            proof {
                super::bytes::lemma_intern_all_step(start, views, k as int);
                assert(self.kinds() =~= kinds_grown(start_kinds, self@.len(), true));
            }
            k = k + 1;
        }
        assert(views.subrange(0, strings@.len() as int) =~= views);
    }
}

} // verus!
