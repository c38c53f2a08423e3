use atum::{AtomId, AtomTable, UnwrapDbg};

#[test]
fn batch_keeps_order_and_multiplicity() {
    let mut t = AtomTable::new();
    let ids = t.intern_batch(&["b", "a", "b", "c", "a"]);
    assert_eq!(ids, vec![AtomId(0), AtomId(1), AtomId(0), AtomId(2), AtomId(1)]);
    assert_eq!(t.len(), 3);
    assert_eq!(t.lookup_owned(AtomId(0)).as_str(), "b");
    assert_eq!(t.lookup_owned(AtomId(1)).as_str(), "a");
    assert_eq!(t.lookup_owned(AtomId(2)).as_str(), "c");
}

#[test]
fn batch_agrees_with_single_calls() {
    let mut t = AtomTable::new();
    let x = t.intern("x");
    let ids = t.intern_batch(&["y", "x"]);
    assert_eq!(ids, vec![AtomId(1), x]);
    assert_eq!(t.intern("y"), AtomId(1));
    let none: [&str; 0] = [];
    assert_eq!(t.intern_batch(&none), Vec::<AtomId>::new());
    assert_eq!(t.len(), 2);
}

#[test]
fn try_lookup_never_inserts() {
    let mut t = AtomTable::new();
    assert_eq!(t.try_lookup_id("ghost"), None);
    assert_eq!(t.len(), 0);
    let id = t.intern("ghost");
    assert_eq!(t.try_lookup_id("ghost"), Some(id));
    assert_eq!(t.try_lookup_id("ghos"), None);
    assert_eq!(t.len(), 1);
}

#[test]
fn lookup_id_of_known_strings() {
    let mut t = AtomTable::new();
    t.intern("first");
    t.intern("second");
    assert_eq!(t.lookup_id("first"), AtomId(0));
    assert_eq!(t.lookup_id("second"), AtomId(1));
}

#[test]
fn queries_through_a_pinned_handle() {
    let mut t = AtomTable::new();
    t.intern_batch(&["red", "green", "blue"]);
    let g = t.pin();
    assert_eq!(t.try_lookup_id_with_guard("green", &g), Some(AtomId(1)));
    assert_eq!(t.try_lookup_id_with_guard("pink", &g), None);
    assert_eq!(t.lookup_id_with_guard("blue", &g), AtomId(2));
    assert_eq!(t.lookup_id_with_guard("red", &g), AtomId(0));
}

#[test]
fn lookup_ref_reads_in_place() {
    let mut t = AtomTable::new();
    let id = t.intern("borrowed");
    let entry = t.lookup_ref(id);
    assert_eq!(*entry.key(), 0);
    assert_eq!(entry.value().as_str(), "borrowed");
}

#[test]
fn iter_yields_every_entry_once() {
    let mut t = AtomTable::new();
    t.intern_batch(&["p", "q", "r", "q"]);
    let mut pairs: Vec<(u64, String)> =
        t.iter().into_iter().map(|(id, text)| (id.0, text.as_str().to_string())).collect();
    pairs.sort();
    assert_eq!(
        pairs,
        vec![(0, "p".to_string()), (1, "q".to_string()), (2, "r".to_string())]
    );
}

#[test]
fn clone_is_independent() {
    let mut t = AtomTable::new();
    t.intern("shared");
    let mut copy = t.clone();
    assert_eq!(copy.len(), 1);
    assert_eq!(copy.try_lookup_id("shared"), Some(AtomId(0)));
    assert_eq!(copy.lookup_owned(AtomId(0)).as_str(), "shared");
    assert_eq!(copy.intern("only in copy"), AtomId(1));
    assert_eq!(t.try_lookup_id("only in copy"), None);
    assert_eq!(t.len(), 1);
    assert_eq!(t.intern("only in first"), AtomId(1));
    assert_eq!(copy.lookup_owned(AtomId(1)).as_str(), "only in copy");
}

#[test]
fn capacity_is_only_a_hint() {
    let mut t = AtomTable::with_capacity(4);
    assert!(t.is_empty());
    for i in 0..64 {
        assert_eq!(t.intern(&format!("n{}", i)), AtomId(i as u64));
    }
    assert_eq!(t.len(), 64);
    let mut d = AtomTable::default();
    assert_eq!(d.len(), 0);
    assert_eq!(d.intern("z"), AtomId(0));
}

#[test]
fn unwrap_dbg_hands_out_the_value() {
    assert_eq!(Some(7u32).unwrap_dbg(), 7);
    let ok: Result<&str, String> = Ok("fine");
    assert_eq!(ok.unwrap_dbg(), "fine");
}

#[test]
fn interning_with_the_answer_of_a_handle() {
    let mut t = AtomTable::new();
    t.intern("known");
    let found = {
        let g = t.pin();
        t.try_lookup_id_with_guard("known", &g)
    };
    assert_eq!(found, Some(AtomId(0)));
    assert_eq!(t.intern_with_guard("known", found), AtomId(0));
    assert_eq!(t.len(), 1);
    let found = {
        let g = t.pin();
        t.try_lookup_id_with_guard("new", &g)
    };
    assert_eq!(found, None);
    assert_eq!(t.intern_with_guard("new", found), AtomId(1));
    assert_eq!(t.lookup_owned(AtomId(1)).as_str(), "new");
    assert_eq!(t.len(), 2);
}

#[test]
fn unwrap_dbg_on_lookups() {
    let mut t = AtomTable::new();
    let id = t.intern("present");
    assert_eq!(t.try_lookup_id("present").unwrap_dbg(), id);
}

#[test]
fn cold_path_on_a_held_string_draws_nothing() {
    let mut t = AtomTable::new();
    assert_eq!(t.intern_with_guard("hello", None), AtomId(0));
    assert_eq!(t.intern_with_guard("hello", None), AtomId(0));
    assert_eq!(t.len(), 1);
    assert_eq!(t.iter().len(), 1);
    assert_eq!(t.lookup_owned(AtomId(0)).as_str(), "hello");
    assert_eq!(t.try_lookup_id("hello"), Some(AtomId(0)));
    assert_eq!(t.intern("world"), AtomId(1));
    assert_eq!(t.lookup_owned(AtomId(1)).as_str(), "world");
    assert_eq!(t.len(), 2);
}

#[test]
fn batch_of_new_strings_appends_and_of_held_strings_changes_nothing() {
    let mut t = AtomTable::new();
    t.intern("zero");
    let ids = t.intern_batch(&["one", "two", "three"]);
    assert_eq!(ids, vec![AtomId(1), AtomId(2), AtomId(3)]);
    assert_eq!(t.len(), 4);
    let again = t.intern_batch(&["three", "zero", "one"]);
    assert_eq!(again, vec![AtomId(3), AtomId(0), AtomId(1)]);
    assert_eq!(t.len(), 4);
    for (id, text) in [(0u64, "zero"), (1, "one"), (2, "two"), (3, "three")] {
        assert_eq!(t.lookup_owned(AtomId(id)).as_str(), text);
    }
}

#[test]
fn lookup_ref_points_at_the_entry_of_the_id() {
    let mut t = AtomTable::new();
    t.intern_batch(&["a", "b", "c"]);
    for (raw, text) in [(0u64, "a"), (1, "b"), (2, "c")] {
        let entry = t.lookup_ref(AtomId(raw));
        assert_eq!(*entry.key(), raw);
        assert_eq!(entry.value().as_str(), text);
    }
}
