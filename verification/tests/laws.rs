use inturn::interner::bytes as lockfree;
use inturn::interner::{sync, unsync, CopyInterner};
use inturn::{InternerSymbol, Symbol};

#[test]
fn symbol_new_and_get() {
    let s = Symbol::new(7);
    assert_eq!(s.get(), 7);
    assert_eq!(s.to_usize(), 7);
    assert_eq!(Symbol::from_usize(3), Symbol::new(3));
    assert_eq!(Symbol::try_from_usize(9), Some(Symbol::new(9)));
}

#[test]
fn unsync_resolve_after_intern_multibyte() {
    let mut interner = unsync::Interner::new();
    let a = interner.intern("héllo");
    let b = interner.intern("日本語");
    let c = interner.intern("");
    assert_eq!(interner.resolve(a), "héllo");
    assert_eq!(interner.resolve(b), "日本語");
    assert_eq!(interner.resolve(c), "");
    assert_eq!((a.get(), b.get(), c.get()), (0, 1, 2));
    assert_eq!(interner.intern("日本語"), b);
    assert_eq!(interner.len(), 3);
}

#[test]
fn unsync_earlier_symbols_keep_their_strings() {
    let mut interner = unsync::BytesInterner::new();
    let a: Symbol = interner.intern(b"a");
    let b: Symbol = interner.intern(b"b");
    for i in 0..100u32 {
        interner.intern(&i.to_le_bytes());
    }
    assert_eq!(interner.resolve(a), b"a");
    assert_eq!(interner.resolve(b), b"b");
    assert_eq!(interner.len(), 102);
    assert_eq!(interner.intern(b"a"), a);
    assert_eq!(interner.len(), 102);
}

#[test]
fn unsync_same_hash_for_every_string() {
    #[derive(Default)]
    struct ConstHasher;
    impl std::hash::Hasher for ConstHasher {
        fn finish(&self) -> u64 {
            11
        }
        fn write(&mut self, _bytes: &[u8]) {}
    }
    let mut interner = unsync::BytesInterner::<Symbol, _>::with_hasher(
        std::hash::BuildHasherDefault::<ConstHasher>::default(),
    );
    let x: Symbol = interner.intern(b"x");
    let y: Symbol = interner.intern(b"y");
    assert_eq!((x.get(), y.get()), (0, 1));
    assert_eq!(interner.intern(b"x"), x);
    assert_eq!(interner.intern_static(b"y"), y);
    assert_eq!(interner.len(), 2);
    let z: Symbol = interner.intern_static(b"z");
    assert_eq!(z.get(), 2);
    assert_eq!(interner.intern(b"z"), z);
    assert_eq!(interner.resolve(z), b"z");
    assert_eq!(interner.len(), 3);
}

#[test]
fn unsync_try_resolve_bounds() {
    let mut interner = unsync::BytesInterner::new();
    assert_eq!(interner.try_resolve(Symbol::new(0)), None);
    let s: Symbol = interner.intern(b"only");
    assert_eq!(interner.try_resolve(s), Some(&b"only"[..]));
    assert_eq!(interner.try_resolve(Symbol::new(1)), None);
    assert_eq!(interner.try_resolve(Symbol::new(usize::MAX)), None);
}

#[test]
fn unsync_intern_many_and_listing() {
    let mut interner = unsync::BytesInterner::new();
    interner.intern_many(&[b"p", b"q", b"p", b"r"]);
    assert_eq!(interner.len(), 3);
    let syms: Vec<Symbol> = interner.all_symbols();
    assert_eq!(syms, vec![Symbol::new(0), Symbol::new(1), Symbol::new(2)]);
    let pairs: Vec<(Symbol, &[u8])> = interner.iter();
    assert_eq!(
        pairs,
        vec![
            (Symbol::new(0), &b"p"[..]),
            (Symbol::new(1), &b"q"[..]),
            (Symbol::new(2), &b"r"[..])
        ]
    );
    interner.intern_many_static(&[b"r", b"s"]);
    assert_eq!(interner.len(), 4);
    assert_eq!(interner.resolve(Symbol::new(3)), b"s");
}

#[test]
fn unsync_str_listing_and_default() {
    let mut interner = unsync::Interner::default();
    assert!(interner.is_empty());
    interner.intern_many(&["one", "two", "one"]);
    interner.intern_many_mut_static(&["three"]);
    assert_eq!(interner.len(), 3);
    assert_eq!(
        interner.iter(),
        vec![(Symbol::new(0), "one"), (Symbol::new(1), "two"), (Symbol::new(2), "three")]
    );
    assert_eq!(interner.all_symbols().len(), 3);
    let mut with_cap = unsync::Interner::with_capacity(64);
    assert_eq!(with_cap.intern("one").get(), 0);
}

#[test]
fn sync_listing_and_capacity() {
    let interner = sync::Interner::with_capacity(16);
    interner.intern_many(&["a", "b", "a"]);
    assert_eq!(interner.len(), 2);
    assert_eq!(interner.all_symbols(), vec![Symbol::new(0), Symbol::new(1)]);
    assert_eq!(interner.iter(), vec![(Symbol::new(0), "a"), (Symbol::new(1), "b")]);
    let bytes = sync::BytesInterner::default();
    bytes.intern_many_static(&[b"k", b"l"]);
    assert_eq!(bytes.intern(b"l").get(), 1);
    assert_eq!(bytes.iter(), vec![(Symbol::new(0), &b"k"[..]), (Symbol::new(1), &b"l"[..])]);
}

#[test]
fn copy_interner_values() {
    let interner: CopyInterner<u64> = CopyInterner::new();
    let a = interner.intern(&5);
    let b = interner.intern(&7);
    let a2 = interner.intern(&5);
    assert_eq!((a.get(), b.get()), (0, 1));
    assert_eq!(a, a2);
    assert_eq!(interner.len(), 2);
    assert_eq!(interner.try_resolve(a), Some(5));
    assert_eq!(interner.try_resolve(b), Some(7));
    assert_eq!(interner.try_resolve(Symbol::new(2)), None);
    interner.intern_many(&[7, 9, 9]);
    assert_eq!(interner.len(), 3);
    assert_eq!(interner.iter(), vec![(Symbol::new(0), 5), (Symbol::new(1), 7), (Symbol::new(2), 9)]);
    assert!(!interner.is_empty());
}

#[test]
fn lockfree_bytes_interner() {
    let interner = lockfree::BytesInterner::new();
    assert!(interner.is_empty());
    let h = interner.intern(b"hello");
    let w = interner.intern_static(b"world");
    assert_eq!((h.get(), w.get()), (0, 1));
    assert_eq!(interner.intern(b"hello"), h);
    assert_eq!(interner.try_resolve(w), Some(&b"world"[..]));
    assert_eq!(interner.try_resolve(Symbol::new(2)), None);
    interner.intern_many(&[b"hello", b"x"]);
    assert_eq!(interner.len(), 3);
    assert_eq!(interner.all_symbols().len(), 3);
}

#[test]
fn sync_try_resolve_of_interned() {
    let interner = sync::BytesInterner::new();
    let a = interner.intern(b"alpha");
    let b = interner.intern_static(b"beta");
    assert_eq!(interner.try_resolve(a), Some(&b"alpha"[..]));
    assert_eq!(interner.try_resolve(b), Some(&b"beta"[..]));
    let lf = lockfree::BytesInterner::new();
    let c = lf.intern(b"gamma");
    assert_eq!(lf.try_resolve(c), Some(&b"gamma"[..]));
    assert_eq!(lf.iter(), vec![(Symbol::new(0), &b"gamma"[..])]);
}

#[test]
fn unsync_intern_many_keeps_input_order() {
    let mut interner = unsync::BytesInterner::new();
    interner.intern_many_static_unchecked(&[b"hello", b"world", b"hello"]);
    assert_eq!(interner.len(), 2);
    assert_eq!(interner.resolve(Symbol::new(0)), b"hello");
    assert_eq!(interner.resolve(Symbol::new(1)), b"world");
}
