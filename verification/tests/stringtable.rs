use vts::stringtable::StringTable;

#[test]
fn test_interning() {
    let mut table = StringTable::<u32>::with_capacity(1);
    let id1 = table.entry("test");
    let id2 = table.entry("test2");
    assert_eq!(table.lookup(id1), "test");
    assert_eq!(table.lookup(id2), "test2");

    let id1_copy = table.entry("test");
    assert_eq!(id1, id1_copy);
    assert_ne!(id1, id2);

    let id3 = table.entry("test3");
    assert_eq!(table.lookup(id3), "test3");
    assert_eq!(table.lookup(id1), "test");
    assert_eq!(table.lookup(id2), "test2");

    assert_eq!(table.entry(""), 0);
    assert!(table.lookup(0).is_empty());
}

#[test]
fn test_rlookup_and_keys() {
    let mut table: StringTable<u8> = StringTable::default();
    assert_eq!(table.rlookup(""), Some(0));
    assert_eq!(table.rlookup("a"), None);
    let a = table.entry("a");
    let b = table.entry("b");
    assert_eq!((a, b), (1, 2));
    assert_eq!(table.rlookup("a"), Some(1));
    assert_eq!(table.rlookup("b"), Some(2));
    assert_eq!(table.len(), 2);
}
