use vstd::prelude::*;

verus! {

/// A handle to an interned value: the position of the value in its interner.
#[derive(Clone, Copy, Debug, PartialEq, Eq, Structural, Hash, PartialOrd, Ord)]
pub struct Symbol {
    idx: usize,
}

impl View for Symbol {
    type V = usize;

    closed spec fn view(&self) -> usize {
        self.idx
    }
}

impl Symbol {
    /// Two symbols are equal exactly when they stand for the same position.
    pub proof fn lemma_view_eq(a: Symbol, b: Symbol)
        ensures
            a == b <==> a@ == b@,
            a.spec_index() == a@,
    {
    }

    /// Creates the symbol that stands for position `idx`.
    pub fn new(idx: usize) -> (r: Symbol)
        ensures
            r@ == idx,
            r.spec_index() == idx,
    {
        Symbol { idx }
    }

    /// Returns the position this symbol stands for.
    pub fn get(self) -> (r: usize)
        ensures
            r == self@,
            r == self.spec_index(),
    {
        self.idx
    }
}

/// A type that can stand for the positions of an interner.
pub trait InternerSymbol: Sized + Copy {
    /// The position this symbol stands for.
    spec fn spec_index(&self) -> usize;

    /// Whether position `n` can be represented by this type.
    spec fn spec_fits(n: usize) -> bool;

    /// Creates the symbol for position `n`, or `None` when `n` cannot be represented.
    fn try_from_usize(n: usize) -> (r: Option<Self>)
        ensures
            r is Some <==> Self::spec_fits(n),
            r matches Some(s) ==> s.spec_index() == n,
    ;

    /// Creates the symbol for position `n`.
    fn from_usize(n: usize) -> (r: Self)
        requires
            Self::spec_fits(n),
        ensures
            r.spec_index() == n,
    ;

    /// Returns the position this symbol stands for.
    fn to_usize(self) -> (r: usize)
        ensures
            r == self.spec_index(),
    ;
}

impl InternerSymbol for Symbol {
    closed spec fn spec_index(&self) -> usize {
        self.idx
    }

    open spec fn spec_fits(n: usize) -> bool {
        true
    }

    fn try_from_usize(n: usize) -> (r: Option<Self>) {
        Some(Symbol { idx: n })
    }

    fn from_usize(n: usize) -> (r: Self) {
        Symbol { idx: n }
    }

    fn to_usize(self) -> (r: usize) {
        self.idx
    }
}

} // verus!
