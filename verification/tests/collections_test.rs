use kythe_graph::collections::{EdgeBag, KindedEdgeBag};
use kythe_graph::edge_kind::EdgeKind;

#[test]
fn collections_test() {
    let mut bag: EdgeBag = EdgeBag::new();

    bag.insert(3, 4);

    let set: Vec<(usize, usize, usize)> = bag.iter();
    assert!(set.contains(&(3, 4, 1)));
}

#[test]
fn edge_bag_counts_duplicates() {
    let mut bag = EdgeBag::new();
    assert_eq!(bag.insert(3, 4), 1);
    assert_eq!(bag.insert(3, 4), 2);
    assert_eq!(bag.insert(3, 5), 1);
    let triples = bag.iter();
    assert!(triples.contains(&(3, 4, 2)));
    assert!(triples.contains(&(3, 5, 1)));
    assert_eq!(triples.len(), 2);
}

#[test]
fn edge_bag_incoming_outgoing() {
    let mut bag = EdgeBag::new();
    bag.insert(1, 9);
    bag.insert(2, 9);
    bag.insert(2, 9);
    let inc = bag.incoming(9);
    assert_eq!(inc.len(), 2);
    assert!(inc.contains(&(1, 1)));
    assert!(inc.contains(&(2, 2)));
    let out = bag.outgoing(2);
    assert_eq!(out, vec![(9, 2)]);
}

#[test]
fn kinded_edge_bag_partitions_by_kind() {
    let mut bag = KindedEdgeBag::new();
    assert_eq!(bag.insert(EdgeKind::RefCall, 4, 5), 1);
    assert_eq!(bag.insert(EdgeKind::RefCall, 4, 5), 2);
    assert_eq!(bag.insert(EdgeKind::DefinesBinding, 4, 5), 1);
    let quads = bag.iter();
    assert!(quads.contains(&(EdgeKind::RefCall, 4, 5, 2)));
    assert!(quads.contains(&(EdgeKind::DefinesBinding, 4, 5, 1)));
    assert_eq!(quads.len(), 2);
    assert_eq!(bag.outgoing(EdgeKind::RefCall, 4), vec![(5, 2)]);
    assert!(bag.incoming(EdgeKind::Childof, 5).is_empty());
}
