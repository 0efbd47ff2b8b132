use kythe_graph::data_structures::{EdgeSet, FactBook, KindedEdgeSet};

#[test]
fn test_edge_set() {
    let mut set = EdgeSet::new();
    set.add(4, 5);
    set.add(4, 6);
    set.add(20, 6);

    assert!(set.incoming(&5).unwrap().contains(&4));
    assert!(set.incoming(&5).unwrap().len() == 1);

    assert!(set.incoming(&6).unwrap().contains(&4));
    assert!(set.incoming(&6).unwrap().contains(&20));
    assert!(set.incoming(&6).unwrap().len() == 2);

    assert!(set.incoming(&4).is_none());
    assert!(set.incoming(&2).is_none());

    assert!(set.outgoing(&4).unwrap().contains(&5));
    assert!(set.outgoing(&4).unwrap().contains(&6));
    assert!(set.outgoing(&4).unwrap().len() == 2);

    assert!(set.outgoing(&20).unwrap().contains(&6));
    assert!(set.outgoing(&20).unwrap().len() == 1);

    assert!(set.outgoing(&6).is_none());
    assert!(set.outgoing(&2).is_none());

    assert!(set.contains(&4, &5));
    assert!(!set.contains(&4, &7));
}

#[test]
fn test_kinded_edge_set() {
    let mut set = KindedEdgeSet::new();
    set.add("call".to_string(), 4, 5);
    set.add("call".to_string(), 4, 6);
    set.add("bind".to_string(), 4, 5);

    assert!(set.incoming("call", &5).unwrap().contains(&4));
    assert!(set.incoming("call", &5).unwrap().len() == 1);

    assert!(set.incoming("bind", &5).unwrap().contains(&4));
    assert!(set.incoming("bind", &5).unwrap().len() == 1);

    assert!(set.outgoing("call", &4).unwrap().contains(&5));
    assert!(set.outgoing("call", &4).unwrap().contains(&6));
    assert!(set.outgoing("call", &4).unwrap().len() == 2);

    assert!(set.outgoing("bind", &4).unwrap().contains(&5));
    assert!(set.outgoing("bind", &4).unwrap().len() == 1);

    assert!(!set.outgoing("bind", &4).unwrap().contains(&6));

    assert!(set.contains("call", &4, &6));
    assert!(!set.contains("bind", &4, &6));

    assert!(set.between(&4, &5).contains(&"call".to_string()));
    assert!(set.between(&4, &5).contains(&"bind".to_string()));
    assert!(set.between(&4, &5).len() == 2);
}

#[test]
fn fact_book_last_write_wins() {
    let mut book = FactBook::new();
    book.insert(7, "color".to_string(), "red".to_string());
    book.add(7, "color".to_string(), "blue".to_string());
    book.insert(8, "color".to_string(), "green".to_string());
    assert_eq!(book.get(&7, "color"), Some(&"blue".to_string()));
    assert_eq!(book.get(&8, "color"), Some(&"green".to_string()));
    assert_eq!(book.get(&9, "color"), None);
    assert_eq!(book.get(&7, "shape"), None);
}
