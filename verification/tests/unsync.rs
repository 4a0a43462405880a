use inturn::interner::unsync;
use inturn::Symbol;

fn check_basic(intern: fn(&mut unsync::Interner, &'static str) -> Symbol) {
    let mut interner = unsync::Interner::new();
    assert!(interner.is_empty());

    let hello = intern(&mut interner, "hello");
    assert_eq!(hello.get(), 0);
    assert_eq!(interner.try_resolve(hello), Some("hello"));
    assert_eq!(interner.resolve(hello), "hello");
    assert_eq!(interner.len(), 1);

    let world = intern(&mut interner, "world");
    assert_eq!(world.get(), 1);
    assert_eq!(interner.try_resolve(world), Some("world"));
    assert_eq!(interner.resolve(world), "world");
    assert_eq!(interner.len(), 2);
    assert_eq!(interner.try_resolve(Symbol::new(2)), None);

    let hello2 = intern(&mut interner, "hello");
    assert_eq!(hello, hello2);
    let hello3 = intern(&mut interner, "hello");
    assert_eq!(hello, hello3);

    let world2 = intern(&mut interner, "world");
    assert_eq!(world, world2);

    assert_eq!(interner.len(), 2);

    let mut interner2 = unsync::Interner::new();
    let prefill = &["hello", "world"];
    for &s in prefill {
        intern(&mut interner2, s);
    }
    assert_eq!(interner2.resolve(hello), "hello");
    assert_eq!(interner2.resolve(world), "world");
    assert_eq!(intern(&mut interner2, "hello"), hello);
    assert_eq!(intern(&mut interner2, "world"), world);
    assert_eq!(interner2.len(), 2);
}

fn check_basic_unchecked(intern: fn(&mut unsync::Interner, &str) -> Symbol) {
    let mut interner = unsync::Interner::new();
    assert!(interner.is_empty());

    let hello = intern(&mut interner, "hello");
    assert_eq!(hello.get(), 0);
    assert_eq!(interner.try_resolve(hello), Some("hello"));
    assert_eq!(interner.resolve(hello), "hello");
    assert_eq!(interner.len(), 1);

    let world = intern(&mut interner, "world");
    assert_eq!(world.get(), 1);
    assert_eq!(interner.try_resolve(world), Some("world"));
    assert_eq!(interner.resolve(world), "world");
    assert_eq!(interner.len(), 2);
    assert_eq!(interner.try_resolve(Symbol::new(2)), None);

    let hello2 = intern(&mut interner, "hello");
    assert_eq!(hello, hello2);
}

fn check_basic_many_unchecked(intern_many: fn(&mut unsync::Interner, &[&str])) {
    let mut interner = unsync::Interner::new();
    assert!(interner.is_empty());

    intern_many(&mut interner, &["hello", "world", "hello"]);
    assert_eq!(interner.len(), 2);

    let hello = interner.intern("hello");
    let world = interner.intern("world");
    assert_eq!(hello.get(), 0);
    assert_eq!(world.get(), 1);
    assert_eq!(interner.try_resolve(hello), Some("hello"));
    assert_eq!(interner.try_resolve(world), Some("world"));
    assert_eq!(interner.resolve(hello), "hello");
    assert_eq!(interner.resolve(world), "world");
    assert_eq!(interner.try_resolve(Symbol::new(2)), None);
}

#[test]
fn unsync_basic() {
    check_basic(|i, s| i.intern(s));
}

#[test]
fn unsync_basic_mut() {
    check_basic(|i, s| i.intern_mut(s));
}

#[test]
fn unsync_basic_static() {
    check_basic(|i, s| i.intern_static(s));
}

#[test]
fn unsync_basic_mut_static() {
    check_basic(|i, s| i.intern_mut_static(s));
}

#[test]
fn unsync_basic_static_unchecked() {
    check_basic_unchecked(|i, s| i.intern_static_unchecked(s));
}

#[test]
fn unsync_basic_mut_static_unchecked() {
    check_basic_unchecked(|i, s| i.intern_mut_static_unchecked(s));
}

#[test]
fn unsync_basic_many_static_unchecked() {
    check_basic_many_unchecked(|i, s| i.intern_many_static_unchecked(s));
}

#[test]
fn unsync_basic_many_mut_static_unchecked() {
    check_basic_many_unchecked(|i, s| i.intern_many_mut_static_unchecked(s));
}
