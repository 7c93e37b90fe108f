use atto8::common::reflexive_transitive_closure;
use std::collections::{BTreeMap, BTreeSet};

fn graph(edges: &[(u64, &[u64])]) -> BTreeMap<u64, BTreeSet<u64>> {
    edges.iter().map(|(k, vs)| (*k, vs.iter().cloned().collect())).collect()
}

#[test]
fn closure_of_a_chain() {
    let mut g = graph(&[(1, &[2]), (2, &[3]), (3, &[]), (4, &[1, 5])]);
    reflexive_transitive_closure(&mut g);
    assert_eq!(g, graph(&[(1, &[1, 2, 3]), (2, &[2, 3]), (3, &[3]), (4, &[1, 2, 3, 4, 5])]));
}

#[test]
fn closure_of_a_cycle() {
    let mut g = graph(&[(1, &[2]), (2, &[1])]);
    reflexive_transitive_closure(&mut g);
    assert_eq!(g, graph(&[(1, &[1, 2]), (2, &[1, 2])]));
}

#[test]
fn closure_is_idempotent() {
    let mut g = graph(&[(7, &[8]), (8, &[9]), (9, &[7]), (10, &[])]);
    reflexive_transitive_closure(&mut g);
    let once = g.clone();
    reflexive_transitive_closure(&mut g);
    assert_eq!(g, once);
    assert_eq!(g[&10], [10].into_iter().collect());
}

#[test]
fn closure_of_an_empty_graph() {
    let mut g = graph(&[]);
    reflexive_transitive_closure(&mut g);
    assert!(g.is_empty());
}
