use vts::database::Database;

#[test]
fn test_database() {
    #[derive(Debug, PartialEq)]
    struct Foo {
        bar: usize,
    }

    let mut db = Database::<Foo>::with_capacity(1);
    let test1 = db.entry(Foo { bar: 1 });
    let test2 = db.entry(Foo { bar: 2 });
    assert_eq!(*db.lookup(test1), Foo { bar: 1 });
    assert_eq!(*db.lookup(test2), Foo { bar: 2 });

    let test3 = db.entry(Foo { bar: 3 });
    assert_eq!(*db.lookup(test1), Foo { bar: 1 });
    assert_eq!(*db.lookup(test2), Foo { bar: 2 });
    assert_eq!(*db.lookup(test3), Foo { bar: 3 });
}

#[test]
fn test_database_keys_values() {
    let mut db: Database<u8, u16> = Database::default();
    assert_eq!(db.entry(10), 0);
    assert_eq!(db.entry(20), 1);
    *db.lookup_mut(1) = 21;
    assert_eq!(db.len(), 2);
    assert_eq!(db.values(), vec![&10, &21]);
    assert_eq!(db.iter(), vec![(1, &10), (2, &21)]);
    let mut keys = db.keys();
    assert_eq!(keys.next(), Some(1));
    assert_eq!(keys.next(), Some(2));
}

#[test]
fn test_full_database_iter() {
    let mut db: Database<usize, u8> = Database::default();
    for i in 0..255usize {
        assert_eq!(db.entry(i) as usize, i);
    }
    assert_eq!(db.len(), 255);
    let all = db.iter();
    assert_eq!(all.len(), 255);
    assert_eq!(all[0], (1, &0));
    assert_eq!(all[254], (255, &254));
}
