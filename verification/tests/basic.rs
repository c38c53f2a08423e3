use atum::prelude::{AtomId, AtomTable};

#[test]
fn test_small_strings() {
    let mut table = AtomTable::new();

    let id1 = table.intern("hello");
    let id2 = table.intern("world");
    let id3 = table.intern("hello");

    assert_eq!(id1, id3);
    assert_ne!(id1, id2);
}

#[test]
fn test_large_strings() {
    let mut table = AtomTable::new();

    let long_str = "this_is_a_very_long_identifier_name";
    let id1 = table.intern(long_str);
    let id2 = table.intern(long_str);

    assert_eq!(id1, id2);
    assert_eq!(table.len(), 1);
}

#[test]
fn test_resolve() {
    let mut table = AtomTable::new();

    let id = table.intern("test");
    let resolved = table.lookup_owned(id);

    assert_eq!(resolved, "test");
}

#[test]
fn hello_world_hello() {
    let mut t = AtomTable::new();
    let a = t.intern("hello");
    let b = t.intern("world");
    let c = t.intern("hello");
    assert_eq!(a, c);
    assert_ne!(a, b);
    assert_eq!(t.len(), 2);
    assert_eq!(t.lookup_owned(a).as_str(), "hello");
    assert_eq!(t.lookup_owned(b).as_str(), "world");
}

#[test]
fn ids_count_up_from_zero() {
    let mut t = AtomTable::new();
    assert_eq!(t.intern("a"), AtomId(0));
    assert_eq!(t.intern("b"), AtomId(1));
    assert_eq!(t.intern("a"), AtomId(0));
    assert_eq!(t.intern("c"), AtomId(2));
    assert_eq!(t.intern("c").0, 2);
    assert!(AtomId(0) < AtomId(1));
}

#[test]
fn interning_twice_is_idempotent() {
    let mut t = AtomTable::new();
    t.intern("padding");
    let first = t.intern("again");
    let second = t.intern("again");
    assert_eq!(first, second);
    assert_eq!(first, AtomId(1));
    assert_eq!(t.lookup_ref(first).value().as_str(), t.lookup_ref(second).value().as_str());
}

#[test]
fn different_strings_get_different_ids() {
    let mut t = AtomTable::new();
    let a = t.intern("abc");
    let b = t.intern("abd");
    let c = t.intern("ab");
    let d = t.intern("");
    assert_ne!(a, b);
    assert_ne!(a, c);
    assert_ne!(a, d);
    assert_ne!(b, c);
    assert_ne!(b, d);
    assert_ne!(c, d);
}

#[test]
fn round_trip_of_edge_strings() {
    let mut t = AtomTable::new();
    let long = "x".repeat(100_000);
    let texts = ["", "plain", "h\u{e9}llo w\u{f6}rld", "\u{65e5}\u{672c}\u{8a9e}", "\u{1f980}", long.as_str()];
    for text in texts {
        let id = t.intern(text);
        assert_eq!(t.lookup_owned(id).as_str(), text);
        assert_eq!(t.lookup_ref(id).value().as_str(), text);
    }
    assert_eq!(t.len(), 6);
}

#[test]
fn len_counts_distinct_strings() {
    let mut t = AtomTable::new();
    assert_eq!(t.len(), 0);
    assert!(t.is_empty());
    for i in 0..50 {
        t.intern(&format!("name{}", i));
    }
    assert_eq!(t.len(), 50);
    assert!(!t.is_empty());
    for i in 0..50 {
        t.intern(&format!("name{}", i));
    }
    assert_eq!(t.len(), 50);
}

#[test]
fn clear_resets_the_table() {
    let mut t = AtomTable::new();
    let a = t.intern("one");
    let b = t.intern("two");
    assert_eq!((a, b), (AtomId(0), AtomId(1)));
    t.clear();
    assert_eq!(t.len(), 0);
    assert!(t.is_empty());
    assert_eq!(t.try_lookup_id("one"), None);
    assert_eq!(t.try_lookup_id("two"), None);
    assert!(t.iter().is_empty());
    assert_eq!(t.intern("two"), AtomId(0));
    assert_eq!(t.lookup_owned(AtomId(0)).as_str(), "two");
    assert_eq!(t.len(), 1);
}

#[test]
fn pool_of_a_hundred_keys_converges() {
    let mut t = AtomTable::new();
    let mut seen: Vec<AtomId> = Vec::new();
    for i in 0..10_000 {
        let s = format!("key{}", i % 100);
        let id = t.intern(&s);
        assert_eq!(t.lookup_ref(id).value().as_str(), s);
        assert_eq!(t.intern(&s), id);
        assert_eq!(id, AtomId((i % 100) as u64));
        if !seen.contains(&id) {
            seen.push(id);
        }
    }
    assert_eq!(seen.len(), 100);
    assert_eq!(t.len(), 100);
}

#[test]
fn arbitrary_text_interns_the_same_twice() {
    let inputs: [&[u8]; 5] = [b"", b"a", b"\xc3\xa9t\xc3\xa9", b"tab\there", b"\x00nul"];
    for data in inputs {
        let s = std::str::from_utf8(data).unwrap();
        let mut table = AtomTable::new();
        let id1 = table.intern(s);
        let id2 = table.intern(s);
        assert_eq!(id1, id2);
        assert_eq!(table.lookup_owned(id1), table.lookup_owned(id2));
        assert_eq!(table.lookup_owned(id1).as_str(), s);
    }
}
