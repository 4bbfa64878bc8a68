use wyw::interner::{Interner, StrId};

#[test]
fn interning_twice_gives_the_same_id() {
    let mut interner = Interner::new();
    let first = interner.intern("甲");
    let second = interner.intern("乙");
    let again = interner.intern("甲");
    assert_eq!(first, StrId(0));
    assert_eq!(second, StrId(1));
    assert_eq!(again, first);
    assert_eq!(interner.lookup(first), "甲");
    assert_eq!(interner.lookup(second), "乙");
}

#[test]
fn lookup_keeps_earlier_ids() {
    let mut interner = Interner::new();
    let ids: Vec<StrId> = ["a", "b", "c", ""].iter().map(|name| interner.intern(name)).collect();
    assert_eq!(ids, vec![StrId(0), StrId(1), StrId(2), StrId(3)]);
    assert_eq!(interner.lookup(StrId(1)), "b");
    assert_eq!(interner.lookup(StrId(3)), "");
    assert!(interner.has_id(StrId(3)));
    assert!(!interner.has_id(StrId(4)));
    assert!(interner.knows("c"));
    assert!(!interner.knows("d"));
    assert_eq!(interner.id_of("c"), Some(StrId(2)));
    assert_eq!(interner.id_of("d"), None);
    assert!(interner.has_room());
    assert_eq!(interner.try_intern("d"), Some(StrId(4)));
}

#[test]
fn free_releases_every_string() {
    let mut interner = Interner::new();
    let first = interner.intern("甲");
    interner.free();
    assert!(!interner.has_id(first));
    assert!(!interner.knows("甲"));
    let next = interner.intern("甲");
    assert_eq!(next, StrId(1));
    assert_eq!(interner.lookup(next), "甲");
}
