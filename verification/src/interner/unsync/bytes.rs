use crate::{InternerSymbol, Symbol};
use core::marker::PhantomData;
use hashbrown::HashTable;
use std::collections::hash_map::RandomState;
use std::hash::BuildHasher;
use vstd::multiset::Multiset;
use vstd::prelude::*;

verus! {

// ---------------------------------------------------------------------------
// The table of `(hash, position)` entries, kept in a `hashbrown::HashTable`.
// ---------------------------------------------------------------------------

/// One entry of the lookup table: the hash the bytes were filed under and the
/// position of the bytes in the interner.
pub type Entry = (u64, usize);

/// A `hashbrown::HashTable` of entries, held in a struct of its own: `HashTable` has an
/// allocator parameter from another crate, so the table type is not declared directly.
#[verifier::external_body]
pub struct Table {
    t: HashTable<Entry>,
}

/// The entries that a lookup table holds.
pub uninterp spec fn table_entries(t: Table) -> Multiset<Entry>;

/// `hashbrown::HashTable::with_capacity`: the new table holds no entry. Below
/// `usize::MAX / 128` the capacity does not make the table's size overflow, so the call
/// does not panic.
#[verifier::external_body]
fn table_with_capacity(capacity: usize) -> (t: Table)
    requires
        capacity < usize::MAX / 128,
    ensures
        table_entries(t) =~= Multiset::empty(),
{
    Table { t: HashTable::with_capacity(capacity) }
}

/// `hashbrown::HashTable::find` with the equality of [`mk_eq`]: a result is an entry of
/// the table whose position holds `s`; `None` comes only when no entry filed under
/// `hash` has a position that holds `s`. (Every entry is filed under its first
/// component: [`table_insert`] inserts it so, and [`hasher`] hands that hash back when
/// the table grows.)
#[verifier::external_body]
fn table_find(t: &Table, hash: u64, strs: &Vec<Stored>, s: &[u8]) -> (r: Option<Entry>)
    ensures
        r matches Some(e) ==> table_entries(*t).contains(e) && entry_matches(
            stored_seq(strs@),
            s@,
            e,
        ),
        r is None ==> forall|e: Entry|
            #![trigger table_entries(*t).count(e)]
            table_entries(*t).contains(e) && e.0 == hash ==> !entry_matches(
                stored_seq(strs@),
                s@,
                e,
            ),
{
    t.t.find(hash, |e| mk_eq(strs, s, e)).copied()
}

/// `hashbrown::HashTable::insert_unique`, filing `e` under its hash `e.0`: the table
/// then holds `e` once more. The call does not panic while the table holds fewer
/// than `usize::MAX / 128` entries (the table's allocation stays below `isize::MAX`
/// bytes on 32- and 64-bit targets).
#[verifier::external_body]
fn table_insert(t: &mut Table, e: Entry)
    requires
        table_entries(*old(t)).len() < usize::MAX / 128,
    ensures
        table_entries(*final(t)) == table_entries(*old(t)).insert(e),
{
    t.t.insert_unique(e.0, e, |x| hasher(x));
}

/// A hash builder together with the function by which it hashes byte strings. The
/// function is fixed when the value is made and never changes after: `BuildHasher` asks
/// that all the hashers one builder makes give equal output for equal input.
pub struct ByteHasher<H> {
    builder: H,
    f: Ghost<spec_fn(Seq<u8>) -> u64>,
}

impl<H> ByteHasher<H> {
    /// The hash this hasher gives each byte string.
    pub closed spec fn hash_fn(&self) -> spec_fn(Seq<u8>) -> u64 {
        self.f@
    }
}

/// Pairs `builder` with the function it hashes byte strings by. Nothing is stated of
/// that function: it rests on the builder (for `RandomState`, on keys drawn for each
/// process). It is only fixed from here on, for every call of [`hash_bytes`].
#[verifier::external_body]
fn byte_hasher<H>(builder: H) -> ByteHasher<H> {
    ByteHasher { builder, f: Ghost(arbitrary()) }
}

/// `BuildHasher::hash_one` on the bytes: the value that the hasher's function gives
/// them. The documentation of `BuildHasher` states that the hashers one builder makes
/// give the same output for the same input, so calls on one builder with equal bytes
/// give equal hashes.
#[verifier::external_body]
fn hash_bytes<H: BuildHasher>(h: &ByteHasher<H>, s: &[u8]) -> (r: u64)
    ensures
        r == h.hash_fn()(s@),
{
    h.builder.hash_one(s)
}

/// `RandomState::new`: a fresh hasher with keys drawn for this process.
#[verifier::external_body]
pub(crate) fn random_state() -> RandomState {
    RandomState::new()
}

// ---------------------------------------------------------------------------
// Stored bytes.
// ---------------------------------------------------------------------------

/// Bytes kept by the interner: a copy it owns, or a slice that lives forever.
pub enum Stored {
    Owned(Vec<u8>),
    Static(&'static [u8]),
}

impl View for Stored {
    type V = Seq<u8>;

    open spec fn view(&self) -> Seq<u8> {
        match self {
            Stored::Owned(v) => v@,
            Stored::Static(s) => s@,
        }
    }
}

impl Stored {
    /// The bytes.
    pub fn as_bytes(&self) -> (r: &[u8])
        ensures
            r@ == self@,
    {
        match self {
            Stored::Owned(v) => v.as_slice(),
            Stored::Static(s) => s,
        }
    }
}

/// The bytes of each stored entry, in order.
pub open spec fn stored_seq(strs: Seq<Stored>) -> Seq<Seq<u8>> {
    strs.map_values(|x: Stored| x@)
}

/// Whether entry `e` names a position of `strs` that holds `s`.
pub open spec fn entry_matches(strs: Seq<Seq<u8>>, s: Seq<u8>, e: Entry) -> bool {
    e.1 < strs.len() && strs[e.1 as int] == s
}

/// Byte-wise equality of two slices.
pub fn bytes_eq(a: &[u8], b: &[u8]) -> (r: bool)
    ensures
        r == (a@ == b@),
{
    if a.len() != b.len() {
        return false;
    }
    let mut i: usize = 0;
    while i < a.len()
        invariant
            a@.len() == b@.len(),
            i <= a@.len(),
            forall|j: int| 0 <= j < i ==> a@[j] == b@[j],
        decreases a@.len() - i,
    {
        if a[i] != b[i] {
            return false;
        }
        i = i + 1;
    }
    assert(a@ =~= b@);
    true
}

/// The equality used to look bytes up: whether entry `e` names a position of `strs`
/// that holds `s`.
pub fn mk_eq(strs: &Vec<Stored>, s: &[u8], e: &Entry) -> (r: bool)
    ensures
        r == entry_matches(stored_seq(strs@), s@, *e),
{
    if e.1 < strs.len() {
        bytes_eq(strs[e.1].as_bytes(), s)
    } else {
        false
    }
}

/// The hash an entry is filed under.
pub fn hasher(e: &Entry) -> (r: u64)
    ensures
        r == e.0,
{
    e.0
}

// ---------------------------------------------------------------------------
// The interner.
// ---------------------------------------------------------------------------

/// Non-thread-safe byte string interner.
pub struct BytesInterner<S = Symbol, H = RandomState> {
    map: Table,
    hash_builder: ByteHasher<H>,
    strs: Vec<Stored>,
    hashes: Ghost<Seq<u64>>,
    sym: PhantomData<S>,
}

impl<S, H> View for BytesInterner<S, H> {
    type V = Seq<Seq<u8>>;

    /// The interned byte strings, in the order of their symbols.
    closed spec fn view(&self) -> Seq<Seq<u8>> {
        stored_seq(self.strs@)
    }
}

/// Whether some position of `v` holds `s` and was filed under `hash`.
pub open spec fn filed_under(v: Seq<Seq<u8>>, hashes: Seq<u64>, s: Seq<u8>, hash: u64) -> bool {
    exists|i: int| 0 <= i < v.len() && #[trigger] v[i] == s && hashes[i] == hash
}

/// Whether each position of `v` was filed under the hash that `f` gives its bytes.
pub open spec fn hashed_by(v: Seq<Seq<u8>>, hashes: Seq<u64>, f: spec_fn(Seq<u8>) -> u64) -> bool {
    hashes.len() == v.len() && forall|i: int| 0 <= i < v.len() ==> #[trigger] hashes[i] == f(v[i])
}

/// Whether no two positions of `v` hold the same bytes under the same hash.
pub open spec fn filed_once(v: Seq<Seq<u8>>, hashes: Seq<u64>) -> bool {
    forall|i: int, j: int|
        0 <= i < j < v.len() && hashes[i] == hashes[j] ==> #[trigger] v[i] != #[trigger] v[j]
}

/// The strings held after interning `s` into the strings `v`: `v` itself when it holds
/// `s` already, and `v` with `s` appended otherwise.
pub open spec fn intern_seq<T>(v: Seq<T>, s: T) -> Seq<T> {
    if v.contains(s) {
        v
    } else {
        v.push(s)
    }
}

/// Interning `s` into the strings `old` gives the strings `new` and position `r`: `new`
/// is [`intern_seq`] of `old` and `s`, and `r` is a position of `new` that holds `s`.
pub open spec fn interned<T>(old: Seq<T>, new: Seq<T>, s: T, r: usize) -> bool {
    &&& new == intern_seq(old, s)
    &&& r < new.len()
    &&& new[r as int] == s
}

/// The strings held after interning each of `strings` in turn, in input order, into `v`.
pub open spec fn intern_all<T>(v: Seq<T>, strings: Seq<T>) -> Seq<T>
    decreases strings.len(),
{
    if strings.len() == 0 {
        v
    } else {
        intern_seq(intern_all(v, strings.drop_last()), strings.last())
    }
}

/// `kinds` extended to length `n` with `is_static` at each added position.
pub open spec fn kinds_grown(kinds: Seq<bool>, n: nat, is_static: bool) -> Seq<bool> {
    kinds + Seq::new((n - kinds.len()) as nat, |i: int| is_static)
}

/// When each position was filed under the hash that `f` gives its bytes, `s` is filed
/// under `f(s)` exactly when it is interned at all.
pub proof fn lemma_hashed_by_filed(
    v: Seq<Seq<u8>>,
    hashes: Seq<u64>,
    s: Seq<u8>,
    f: spec_fn(Seq<u8>) -> u64,
)
    requires
        hashed_by(v, hashes, f),
    ensures
        filed_under(v, hashes, s, f(s)) <==> v.contains(s),
{
    if v.contains(s) {
        let i = choose|i: int| 0 <= i < v.len() && v[i] == s;
        assert(hashes[i] == f(v[i]));
    }
}

/// Under a hash function `f` that every interned string was filed under, no two
/// positions hold the same string.
proof fn lemma_hashed_by_distinct(v: Seq<Seq<u8>>, hashes: Seq<u64>, f: spec_fn(Seq<u8>) -> u64)
    requires
        filed_once(v, hashes),
        hashed_by(v, hashes, f),
    ensures
        v.no_duplicates(),
{
    assert forall|i: int, j: int| 0 <= i < v.len() && 0 <= j < v.len() && i != j implies v[i]
        != v[j] by {
        if v[i] == v[j] {
            assert(hashes[i] == f(v[i]));
            assert(hashes[j] == f(v[j]));
            if i < j {
                assert(v[i] != v[j]);
            } else {
                assert(v[j] != v[i]);
            }
        }
    }
}

/// Interning keeps the strings pairwise distinct.
pub proof fn lemma_intern_keeps_distinct<T>(v: Seq<T>, s: T)
    requires
        v.no_duplicates(),
    ensures
        intern_seq(v, s).no_duplicates(),
{
    if !v.contains(s) {
        let n = v.push(s);
        assert forall|i: int, j: int| 0 <= i < n.len() && 0 <= j < n.len() && i != j implies n[i]
            != n[j] by {
            if i == v.len() {
                assert(n[j] == v[j]);
            } else if j == v.len() {
                assert(n[i] == v[i]);
            } else {
                assert(n[i] == v[i] && n[j] == v[j]);
            }
        }
    }
}

/// Interning a string that the interner holds at position `i` returns `i` and changes
/// nothing: nothing is copied or appended, and every symbol resolves as before.
pub proof fn lemma_intern_finds<T>(old: Seq<T>, new: Seq<T>, s: T, r: usize, i: int)
    requires
        old.no_duplicates(),
        interned(old, new, s, r),
        0 <= i < old.len(),
        old[i] == s,
    ensures
        new == old,
        r == i,
{
    assert(old.contains(s));
}

/// Interning is a function of the strings held and the string interned: two interners
/// that hold the same strings, whatever hashers they were made with, return the same
/// symbol for the same string and end up holding the same strings.
pub proof fn lemma_intern_deterministic<T>(old: Seq<T>, n1: Seq<T>, r1: usize, n2: Seq<T>, r2: usize, s: T)
    requires
        old.no_duplicates(),
        interned(old, n1, s, r1),
        interned(old, n2, s, r2),
    ensures
        n1 == n2,
        r1 == r2,
{
    lemma_intern_keeps_distinct(old, s);
}

/// Interning the same string twice: the second call returns the symbol of the first and
/// changes nothing.
pub proof fn lemma_intern_twice<T>(a: Seq<T>, b: Seq<T>, c: Seq<T>, s: T, r1: usize, r2: usize)
    requires
        a.no_duplicates(),
        interned(a, b, s, r1),
        interned(b, c, s, r2),
    ensures
        c == b,
        r1 == r2,
{
    lemma_intern_keeps_distinct(a, s);
    lemma_intern_finds(b, c, s, r2, r1 as int);
}

/// Interning strings one after another: the strings held before keep their positions, at
/// most one position is added per string, no string is held twice, and the strings held
/// afterwards are those held before together with the interned ones.
pub proof fn lemma_intern_all<T>(v: Seq<T>, strings: Seq<T>)
    requires
        v.no_duplicates(),
    ensures
        intern_all(v, strings).no_duplicates(),
        v.len() <= intern_all(v, strings).len() <= v.len() + strings.len(),
        intern_all(v, strings).subrange(0, v.len() as int) == v,
        intern_all(v, strings).to_set() == v.to_set().union(strings.to_set()),
    decreases strings.len(),
{
    if strings.len() == 0 {
        assert(v.subrange(0, v.len() as int) =~= v);
        assert(v.to_set().union(strings.to_set()) =~= v.to_set());
    } else {
        let init = strings.drop_last();
        let last = strings.last();
        lemma_intern_all(v, init);
        let mid = intern_all(v, init);
        lemma_intern_keeps_distinct(mid, last);
        let out = intern_all(v, strings);
        assert(out == intern_seq(mid, last));
        assert(out.subrange(0, v.len() as int) =~= mid.subrange(0, v.len() as int));
        assert(strings =~= init.push(last));
        init.lemma_push_to_set_commute(last);
        if !mid.contains(last) {
            mid.lemma_push_to_set_commute(last);
        } else {
            assert(mid.to_set().insert(last) =~= mid.to_set());
        }
        assert(out.to_set() =~= v.to_set().union(strings.to_set()));
    }
}

/// Interning strings into an empty interner: it then holds as many strings as there are
/// distinct ones among them.
pub proof fn lemma_intern_all_counts_distinct<T>(strings: Seq<T>)
    ensures
        intern_all(Seq::<T>::empty(), strings).len() == strings.to_set().len(),
{
    let n = intern_all(Seq::<T>::empty(), strings);
    lemma_intern_all(Seq::<T>::empty(), strings);
    n.unique_seq_to_set();
    assert(Seq::<T>::empty().to_set().union(strings.to_set()) =~= strings.to_set());
}

/// One more string extends [`intern_all`] over a prefix of `strings`.
pub(crate) proof fn lemma_intern_all_step<T>(v: Seq<T>, strings: Seq<T>, k: int)
    requires
        0 <= k < strings.len(),
    ensures
        intern_all(v, strings.subrange(0, k + 1)) == intern_seq(
            intern_all(v, strings.subrange(0, k)),
            strings[k],
        ),
{
    assert(strings.subrange(0, k + 1).drop_last() =~= strings.subrange(0, k));
}

impl<S: InternerSymbol, H> BytesInterner<S, H> {
    /// The interner's invariant: the table holds exactly one entry `(hash, i)` for each
    /// position `i`, filed under the hash that the interner's hasher gives the bytes at
    /// `i`; no two positions hold the same bytes; every position can be represented by `S`.
    pub closed spec fn wf(&self) -> bool {
        &&& self.hashes@.len() == self.strs@.len()
        &&& table_entries(self.map).len() == self.strs@.len()
        &&& self.strs@.len() <= usize::MAX
        &&& forall|e: Entry| #[trigger]
            table_entries(self.map).count(e) == if e.1 < self.strs@.len() && self.hashes@[e.1 as int]
                == e.0 {
                1nat
            } else {
                0nat
            }
        &&& forall|i: int, j: int|
            0 <= i < j < self.strs@.len() && self.hashes@[i] == self.hashes@[j] ==> #[trigger] self@[i]
                != #[trigger] self@[j]
        &&& hashed_by(self@, self.hashes@, self.hash_builder.hash_fn())
        &&& forall|i: usize| i < self.strs@.len() ==> #[trigger] S::spec_fits(i)
    }

    /// For each interned string, in the order of the symbols, whether the interner keeps
    /// the caller's `'static` slice itself (`true`) or a copy of its own (`false`).
    pub closed spec fn kinds(&self) -> Seq<bool> {
        self.strs@.map_values(|x: Stored| x is Static)
    }

    /// A well-formed interner holds no string twice, and one kind per string.
    pub proof fn lemma_no_duplicates(&self)
        requires
            self.wf(),
        ensures
            self@.no_duplicates(),
            self.kinds().len() == self@.len(),
    {
        lemma_hashed_by_distinct(self@, self.hashes@, self.hash_builder.hash_fn());
    }

    /// Creates a new `Interner` with the given capacitiy and custom hasher.
    pub fn with_capacity_and_hasher(capacity: usize, hash_builder: H) -> (r: Self)
        requires
            capacity < usize::MAX / 128,
        ensures
            r.wf(),
            r@ == Seq::<Seq<u8>>::empty(),
            r.kinds() == Seq::<bool>::empty(),
    {
        let map = table_with_capacity(capacity);
        let strs: Vec<Stored> = Vec::with_capacity(capacity);
        let r = BytesInterner {
            map,
            hash_builder: byte_hasher(hash_builder),
            strs,
            hashes: Ghost(Seq::empty()),
            sym: PhantomData,
        };
        assert(r@ =~= Seq::<Seq<u8>>::empty());
        assert(r.kinds() =~= Seq::<bool>::empty());
        r
    }

    /// Creates a new `Interner` with the given custom hasher.
    pub fn with_hasher(hash_builder: H) -> (r: Self)
        ensures
            r.wf(),
            r@ == Seq::<Seq<u8>>::empty(),
            r.kinds() == Seq::<bool>::empty(),
    {
        Self::with_capacity_and_hasher(0, hash_builder)
    }

    /// Returns the number of unique strings in the interner.
    pub fn len(&self) -> (r: usize)
        requires
            self.wf(),
        ensures
            r == self@.len(),
    {
        self.strs.len()
    }

    /// Returns `true` if the interner is empty.
    pub fn is_empty(&self) -> (r: bool)
        requires
            self.wf(),
        ensures
            r == (self@.len() == 0),
    {
        self.len() == 0
    }

    /// Looks `s` up among the positions filed under `hash`.
    fn lookup(&self, s: &[u8], hash: u64) -> (r: Option<usize>)
        requires
            self.wf(),
        ensures
            r matches Some(i) ==> i < self@.len() && self@[i as int] == s@,
            r is None ==> !filed_under(self@, self.hashes@, s@, hash),
    {
        match table_find(&self.map, hash, &self.strs, s) {
            Some(e) => {
                assert(table_entries(self.map).count(e) > 0);
                Some(e.1)
            },
            None => {
                assert forall|i: int| 0 <= i < self@.len() && #[trigger] self@[i] == s@ implies self.hashes@[i]
                    != hash by {
                    let e: Entry = (self.hashes@[i], i as usize);
                    assert(e.1 as int == i);
                    assert(table_entries(self.map).count(e) == 1);
                    assert(entry_matches(stored_seq(self.strs@), s@, e));
                }
                None
            },
        }
    }

    /// Appends `stored`, filed under its hash `hash`, and returns its new symbol.
    fn push_new(&mut self, stored: Stored, hash: u64) -> (r: S)
        requires
            old(self).wf(),
            old(self)@.len() < usize::MAX / 128,
            S::spec_fits(old(self)@.len() as usize),
            hash == old(self).hash_builder.hash_fn()(stored@),
            !old(self)@.contains(stored@),
        ensures
            final(self).wf(),
            final(self)@ == old(self)@.push(stored@),
            final(self).kinds() == old(self).kinds().push(stored is Static),
            r.spec_index() == old(self)@.len(),
    {
        let i = self.strs.len();
        let ghost old_v = self@;
        let ghost old_k = self.kinds();
        let ghost bytes = stored@;
        let ghost is_static = stored is Static;
        self.strs.push(stored);
        table_insert(&mut self.map, (hash, i));
        self.hashes = Ghost(self.hashes@.push(hash));
        assert(self@ =~= old_v.push(bytes));
        assert(self.kinds() =~= old_k.push(is_static));
        assert forall|e: Entry| #[trigger]
            table_entries(self.map).count(e) == if e.1 < self.strs@.len() && self.hashes@[e.1 as int]
                == e.0 {
                1nat
            } else {
                0nat
            } by {
            if e.1 < i {
                assert(self.hashes@[e.1 as int] == old(self).hashes@[e.1 as int]);
            }
        }
        assert forall|a: int, b: int|
            0 <= a < b < self.strs@.len() && self.hashes@[a] == self.hashes@[b] implies #[trigger] self@[a]
            != #[trigger] self@[b] by {
            if b == i {
                assert(old_v[a] == self@[a]);
            } else {
                assert(old_v[a] == self@[a]);
                assert(old_v[b] == self@[b]);
            }
        }
        assert forall|a: int| 0 <= a < self@.len() implies #[trigger] self.hashes@[a]
            == self.hash_builder.hash_fn()(self@[a]) by {
            if a < i {
                assert(old_v[a] == self@[a]);
            }
        }
        S::from_usize(i)
    }

    /// Returns the symbol of `s`, looked up under its hash `hash`, and otherwise appends
    /// a copy of `s` under `hash` and returns the new symbol.
    fn get_or_insert(&mut self, s: &[u8], hash: u64) -> (r: S)
        requires
            old(self).wf(),
            old(self)@.len() < usize::MAX / 128,
            S::spec_fits(old(self)@.len() as usize),
            hash == old(self).hash_builder.hash_fn()(s@),
        ensures
            final(self).wf(),
            interned(old(self)@, final(self)@, s@, r.spec_index()),
            final(self).kinds() == kinds_grown(old(self).kinds(), final(self)@.len(), false),
    {
        proof {
            lemma_hashed_by_filed(self@, self.hashes@, s@, self.hash_builder.hash_fn());
        }
        match self.lookup(s, hash) {
            Some(i) => {
                assert(self@.contains(s@));
                assert(self.kinds() =~= kinds_grown(self.kinds(), self@.len(), false));
                S::from_usize(i)
            },
            None => {
                let v = vstd::slice::slice_to_vec(s);
                let ghost old_k = self.kinds();
                let r = self.push_new(Stored::Owned(v), hash);
                assert(self.kinds() =~= kinds_grown(old_k, self@.len(), false));
                r
            },
        }
    }

    /// Like [`get_or_insert`](Self::get_or_insert), but keeps `s` itself rather than a copy.
    fn get_or_insert_static(&mut self, s: &'static [u8], hash: u64) -> (r: S)
        requires
            old(self).wf(),
            old(self)@.len() < usize::MAX / 128,
            S::spec_fits(old(self)@.len() as usize),
            hash == old(self).hash_builder.hash_fn()(s@),
        ensures
            final(self).wf(),
            interned(old(self)@, final(self)@, s@, r.spec_index()),
            final(self).kinds() == kinds_grown(old(self).kinds(), final(self)@.len(), true),
    {
        proof {
            lemma_hashed_by_filed(self@, self.hashes@, s@, self.hash_builder.hash_fn());
        }
        match self.lookup(s, hash) {
            Some(i) => {
                assert(self@.contains(s@));
                assert(self.kinds() =~= kinds_grown(self.kinds(), self@.len(), true));
                S::from_usize(i)
            },
            None => {
                let ghost old_k = self.kinds();
                let r = self.push_new(Stored::Static(s), hash);
                assert(self.kinds() =~= kinds_grown(old_k, self@.len(), true));
                r
            },
        }
    }
}

impl BytesInterner<Symbol, RandomState> {
    /// Creates a new, empty `Interner` with the default symbol and hasher.
    pub fn new() -> (r: Self)
        ensures
            r.wf(),
            r@ == Seq::<Seq<u8>>::empty(),
            r.kinds() == Seq::<bool>::empty(),
    {
        Self::with_capacity(0)
    }

    /// Creates a new `Interner` with the given capacity and default symbol and hasher.
    pub fn with_capacity(capacity: usize) -> (r: Self)
        requires
            capacity < usize::MAX / 128,
        ensures
            r.wf(),
            r@ == Seq::<Seq<u8>>::empty(),
            r.kinds() == Seq::<bool>::empty(),
    {
        Self::with_capacity_and_hasher(capacity, random_state())
    }
}

impl Default for BytesInterner<Symbol, RandomState> {
    fn default() -> (r: Self)
        ensures
            r.wf(),
            r@ == Seq::<Seq<u8>>::empty(),
            r.kinds() == Seq::<bool>::empty(),
    {
        Self::new()
    }
}

impl<S: InternerSymbol, H: BuildHasher> BytesInterner<S, H> {
    /// Interns `s`, copying it, under the hash the interner's hasher gives it.
    fn do_intern(&mut self, s: &[u8]) -> (r: S)
        requires
            old(self).wf(),
            old(self)@.len() < usize::MAX / 128,
            S::spec_fits(old(self)@.len() as usize),
        ensures
            final(self).wf(),
            interned(old(self)@, final(self)@, s@, r.spec_index()),
            final(self).kinds() == kinds_grown(old(self).kinds(), final(self)@.len(), false),
    {
        let hash = hash_bytes(&self.hash_builder, s);
        self.get_or_insert(s, hash)
    }

    /// Interns `s`, keeping the slice itself, under the hash the interner's hasher gives it.
    fn do_intern_static(&mut self, s: &'static [u8]) -> (r: S)
        requires
            old(self).wf(),
            old(self)@.len() < usize::MAX / 128,
            S::spec_fits(old(self)@.len() as usize),
        ensures
            final(self).wf(),
            interned(old(self)@, final(self)@, s@, r.spec_index()),
            final(self).kinds() == kinds_grown(old(self).kinds(), final(self)@.len(), true),
    {
        let hash = hash_bytes(&self.hash_builder, s);
        self.get_or_insert_static(s, hash)
    }

    /// Interns a string, returning its unique `Symbol`.
    ///
    /// Copies the string into the interner if it is not already interned.
    pub fn intern(&mut self, s: &[u8]) -> (r: S)
        requires
            old(self).wf(),
            old(self)@.len() < usize::MAX / 128,
            S::spec_fits(old(self)@.len() as usize),
        ensures
            final(self).wf(),
            interned(old(self)@, final(self)@, s@, r.spec_index()),
            final(self).kinds() == kinds_grown(old(self).kinds(), final(self)@.len(), false),
    {
        self.do_intern(s)
    }

    /// Interns a string, returning its unique `Symbol`. Same as [`intern`](Self::intern).
    pub fn intern_mut(&mut self, s: &[u8]) -> (r: S)
        requires
            old(self).wf(),
            old(self)@.len() < usize::MAX / 128,
            S::spec_fits(old(self)@.len() as usize),
        ensures
            final(self).wf(),
            interned(old(self)@, final(self)@, s@, r.spec_index()),
            final(self).kinds() == kinds_grown(old(self).kinds(), final(self)@.len(), false),
    {
        self.do_intern(s)
    }

    /// Interns a static string, returning its unique `Symbol`, without copying it.
    pub fn intern_static(&mut self, s: &'static [u8]) -> (r: S)
        requires
            old(self).wf(),
            old(self)@.len() < usize::MAX / 128,
            S::spec_fits(old(self)@.len() as usize),
        ensures
            final(self).wf(),
            interned(old(self)@, final(self)@, s@, r.spec_index()),
            final(self).kinds() == kinds_grown(old(self).kinds(), final(self)@.len(), true),
    {
        self.do_intern_static(s)
    }

    /// Interns a static string, returning its unique `Symbol`, without copying it.
    pub fn intern_mut_static(&mut self, s: &'static [u8]) -> (r: S)
        requires
            old(self).wf(),
            old(self)@.len() < usize::MAX / 128,
            S::spec_fits(old(self)@.len() as usize),
        ensures
            final(self).wf(),
            interned(old(self)@, final(self)@, s@, r.spec_index()),
            final(self).kinds() == kinds_grown(old(self).kinds(), final(self)@.len(), true),
    {
        self.do_intern_static(s)
    }

    /// Interns a string that is not typed as `'static`. The interner keeps a copy of it,
    /// so `s` need not outlive the interner.
    pub fn intern_static_unchecked(&mut self, s: &[u8]) -> (r: S)
        requires
            old(self).wf(),
            old(self)@.len() < usize::MAX / 128,
            S::spec_fits(old(self)@.len() as usize),
        ensures
            final(self).wf(),
            interned(old(self)@, final(self)@, s@, r.spec_index()),
            final(self).kinds() == kinds_grown(old(self).kinds(), final(self)@.len(), false),
    {
        self.do_intern(s)
    }

    /// Interns a string that is not typed as `'static`. The interner keeps a copy of it,
    /// so `s` need not outlive the interner.
    pub fn intern_mut_static_unchecked(&mut self, s: &[u8]) -> (r: S)
        requires
            old(self).wf(),
            old(self)@.len() < usize::MAX / 128,
            S::spec_fits(old(self)@.len() as usize),
        ensures
            final(self).wf(),
            interned(old(self)@, final(self)@, s@, r.spec_index()),
            final(self).kinds() == kinds_grown(old(self).kinds(), final(self)@.len(), false),
    {
        self.do_intern(s)
    }

    /// Interns each of `strings` in turn, copying them.
    fn do_intern_many(&mut self, strings: &[&[u8]])
        requires
            old(self).wf(),
            old(self)@.len() + strings@.len() < usize::MAX / 128,
            forall|k: int| 0 <= k < strings@.len() ==> S::spec_fits(#[trigger] (old(self)@.len() + k) as usize),
        ensures
            final(self).wf(),
            final(self)@ == intern_all(old(self)@, strings@.map_values(|x: &[u8]| x@)),
            final(self).kinds() == kinds_grown(old(self).kinds(), final(self)@.len(), false),
    {
        let ghost views = strings@.map_values(|x: &[u8]| x@);
        let ghost start = self@;
        let ghost start_kinds = self.kinds();
        assert(views.subrange(0, 0) =~= Seq::<Seq<u8>>::empty());
        assert(start_kinds =~= kinds_grown(start_kinds, start.len(), false));
        let mut k: usize = 0;
        while k < strings.len()
            invariant
                self.wf(),
                k <= strings@.len(),
                views == strings@.map_values(|x: &[u8]| x@),
                start.len() <= self@.len() <= start.len() + k,
                start.len() + strings@.len() < usize::MAX / 128,
                forall|j: int| 0 <= j < strings@.len() ==> S::spec_fits(#[trigger] (start.len() + j) as usize),
                self@ == intern_all(start, views.subrange(0, k as int)),
                start_kinds.len() == start.len(),
                self.kinds() == kinds_grown(start_kinds, self@.len(), false),
            decreases strings@.len() - k,
        {
            let ghost before = self@;
            let s = strings[k];
            assert(S::spec_fits((start.len() + (before.len() - start.len())) as usize));
            let _ = self.do_intern(s);
            proof {
                lemma_intern_all_step(start, views, k as int);
                assert(self.kinds() =~= kinds_grown(start_kinds, self@.len(), false));
            }
            k = k + 1;
        }
        assert(views.subrange(0, strings@.len() as int) =~= views);
    }

    /// Interns each of `strings` in turn, keeping the slices themselves.
    fn do_intern_many_static(&mut self, strings: &[&'static [u8]])
        requires
            old(self).wf(),
            old(self)@.len() + strings@.len() < usize::MAX / 128,
            forall|k: int| 0 <= k < strings@.len() ==> S::spec_fits(#[trigger] (old(self)@.len() + k) as usize),
        ensures
            final(self).wf(),
            final(self)@ == intern_all(old(self)@, strings@.map_values(|x: &[u8]| x@)),
            final(self).kinds() == kinds_grown(old(self).kinds(), final(self)@.len(), true),
    {
        let ghost views = strings@.map_values(|x: &[u8]| x@);
        let ghost start = self@;
        let ghost start_kinds = self.kinds();
        assert(views.subrange(0, 0) =~= Seq::<Seq<u8>>::empty());
        assert(start_kinds =~= kinds_grown(start_kinds, start.len(), true));
        let mut k: usize = 0;
        while k < strings.len()
            invariant
                self.wf(),
                k <= strings@.len(),
                views == strings@.map_values(|x: &[u8]| x@),
                start.len() <= self@.len() <= start.len() + k,
                start.len() + strings@.len() < usize::MAX / 128,
                forall|j: int| 0 <= j < strings@.len() ==> S::spec_fits(#[trigger] (start.len() + j) as usize),
                self@ == intern_all(start, views.subrange(0, k as int)),
                start_kinds.len() == start.len(),
                self.kinds() == kinds_grown(start_kinds, self@.len(), true),
            decreases strings@.len() - k,
        {
            let ghost before = self@;
            let s = strings[k];
            assert(S::spec_fits((start.len() + (before.len() - start.len())) as usize));
            let _ = self.do_intern_static(s);
            proof {
                lemma_intern_all_step(start, views, k as int);
                assert(self.kinds() =~= kinds_grown(start_kinds, self@.len(), true));
            }
            k = k + 1;
        }
        assert(views.subrange(0, strings@.len() as int) =~= views);
    }

    /// Interns multiple strings, copying those not yet interned.
    pub fn intern_many(&mut self, strings: &[&[u8]])
        requires
            old(self).wf(),
            old(self)@.len() + strings@.len() < usize::MAX / 128,
            forall|k: int| 0 <= k < strings@.len() ==> S::spec_fits(#[trigger] (old(self)@.len() + k) as usize),
        ensures
            final(self).wf(),
            final(self)@ == intern_all(old(self)@, strings@.map_values(|x: &[u8]| x@)),
            final(self).kinds() == kinds_grown(old(self).kinds(), final(self)@.len(), false),
    {
        self.do_intern_many(strings)
    }

    /// Interns multiple strings, copying those not yet interned.
    pub fn intern_many_mut(&mut self, strings: &[&[u8]])
        requires
            old(self).wf(),
            old(self)@.len() + strings@.len() < usize::MAX / 128,
            forall|k: int| 0 <= k < strings@.len() ==> S::spec_fits(#[trigger] (old(self)@.len() + k) as usize),
        ensures
            final(self).wf(),
            final(self)@ == intern_all(old(self)@, strings@.map_values(|x: &[u8]| x@)),
            final(self).kinds() == kinds_grown(old(self).kinds(), final(self)@.len(), false),
    {
        self.do_intern_many(strings)
    }

    /// Interns multiple static strings without copying them.
    pub fn intern_many_static(&mut self, strings: &[&'static [u8]])
        requires
            old(self).wf(),
            old(self)@.len() + strings@.len() < usize::MAX / 128,
            forall|k: int| 0 <= k < strings@.len() ==> S::spec_fits(#[trigger] (old(self)@.len() + k) as usize),
        ensures
            final(self).wf(),
            final(self)@ == intern_all(old(self)@, strings@.map_values(|x: &[u8]| x@)),
            final(self).kinds() == kinds_grown(old(self).kinds(), final(self)@.len(), true),
    {
        self.do_intern_many_static(strings)
    }

    /// Interns multiple static strings without copying them.
    pub fn intern_many_mut_static(&mut self, strings: &[&'static [u8]])
        requires
            old(self).wf(),
            old(self)@.len() + strings@.len() < usize::MAX / 128,
            forall|k: int| 0 <= k < strings@.len() ==> S::spec_fits(#[trigger] (old(self)@.len() + k) as usize),
        ensures
            final(self).wf(),
            final(self)@ == intern_all(old(self)@, strings@.map_values(|x: &[u8]| x@)),
            final(self).kinds() == kinds_grown(old(self).kinds(), final(self)@.len(), true),
    {
        self.do_intern_many_static(strings)
    }

    /// Interns multiple strings that are not typed as `'static`; the interner keeps copies of
    /// them, so they need not outlive it.
    pub fn intern_many_static_unchecked(&mut self, strings: &[&[u8]])
        requires
            old(self).wf(),
            old(self)@.len() + strings@.len() < usize::MAX / 128,
            forall|k: int| 0 <= k < strings@.len() ==> S::spec_fits(#[trigger] (old(self)@.len() + k) as usize),
        ensures
            final(self).wf(),
            final(self)@ == intern_all(old(self)@, strings@.map_values(|x: &[u8]| x@)),
            final(self).kinds() == kinds_grown(old(self).kinds(), final(self)@.len(), false),
    {
        self.do_intern_many(strings)
    }

    /// Interns multiple strings that are not typed as `'static`; the interner keeps copies of
    /// them, so they need not outlive it.
    pub fn intern_many_mut_static_unchecked(&mut self, strings: &[&[u8]])
        requires
            old(self).wf(),
            old(self)@.len() + strings@.len() < usize::MAX / 128,
            forall|k: int| 0 <= k < strings@.len() ==> S::spec_fits(#[trigger] (old(self)@.len() + k) as usize),
        ensures
            final(self).wf(),
            final(self)@ == intern_all(old(self)@, strings@.map_values(|x: &[u8]| x@)),
            final(self).kinds() == kinds_grown(old(self).kinds(), final(self)@.len(), false),
    {
        self.do_intern_many(strings)
    }
}

impl<S: InternerSymbol, H> BytesInterner<S, H> {
    /// Maps a `Symbol` to its string.
    pub fn resolve(&self, sym: S) -> (r: &[u8])
        requires
            self.wf(),
            sym.spec_index() < self@.len(),
        ensures
            r@ == self@[sym.spec_index() as int],
    {
        let i = sym.to_usize();
        self.strs[i].as_bytes()
    }

    /// Tries to map a `Symbol` to its string; `None` when the symbol is out of bounds.
    pub fn try_resolve(&self, sym: S) -> (r: Option<&[u8]>)
        requires
            self.wf(),
        ensures
            r is Some <==> sym.spec_index() < self@.len(),
            r matches Some(b) ==> b@ == self@[sym.spec_index() as int],
    {
        let i = sym.to_usize();
        if i < self.strs.len() {
            Some(self.strs[i].as_bytes())
        } else {
            None
        }
    }

    /// Returns all symbols of the interner, in order.
    pub fn all_symbols(&self) -> (r: Vec<S>)
        requires
            self.wf(),
        ensures
            r@.len() == self@.len(),
            forall|i: int| 0 <= i < r@.len() ==> #[trigger] r@[i].spec_index() == i,
    {
        let n = self.strs.len();
        let mut r: Vec<S> = Vec::with_capacity(n);
        let mut i: usize = 0;
        while i < n
            invariant
                self.wf(),
                n == self@.len(),
                i <= n,
                r@.len() == i,
                forall|j: int| 0 <= j < r@.len() ==> #[trigger] r@[j].spec_index() == j,
            decreases n - i,
        {
            let ghost before = r@;
            r.push(S::from_usize(i));
            assert(r@ == before.push(r@[i as int]));
            i = i + 1;
        }
        r
    }

    /// Returns the interned strings with their symbols, in order.
    pub fn iter(&self) -> (r: Vec<(S, &[u8])>)
        requires
            self.wf(),
        ensures
            r@.len() == self@.len(),
            forall|i: int|
                0 <= i < r@.len() ==> #[trigger] r@[i].0.spec_index() == i && r@[i].1@ == self@[i],
    {
        let n = self.strs.len();
        let mut r: Vec<(S, &[u8])> = Vec::with_capacity(n);
        let mut i: usize = 0;
        while i < n
            invariant
                self.wf(),
                n == self@.len(),
                i <= n,
                r@.len() == i,
                forall|j: int|
                    0 <= j < r@.len() ==> #[trigger] r@[j].0.spec_index() == j && r@[j].1@ == self@[j],
            decreases n - i,
        {
            let sym = S::from_usize(i);
            let b = self.strs[i].as_bytes();
            let ghost before = r@;
            r.push((sym, b));
            assert(r@ == before.push((sym, b)));
            assert(r@[i as int].1@ == self@[i as int]);
            i = i + 1;
        }
        r
    }
}

} // verus!

