//! Reachability in directed graphs whose nodes are integers.

use std::collections::{BTreeMap, BTreeSet};
use vstd::prelude::*;
use vstd::set_lib::{lemma_int_range, lemma_len_subset, lemma_map_size, set_int_range};

verus! {

broadcast use vstd::std_specs::btree::group_btree_axioms;

/// A graph as a map from each node to the set of its successors.
pub open spec fn spec_graph(g: Map<u64, BTreeSet<u64>>) -> Map<u64, Set<u64>> {
    g.map_values(|s: BTreeSet<u64>| s@)
}

/// Whether `b` is a successor of `a`.
pub open spec fn spec_edge<K>(g: Map<K, Set<K>>, a: K, b: K) -> bool {
    g.contains_key(a) && g[a].contains(b)
}

/// Whether `w` is a walk: a nonempty sequence of nodes, each a successor of the one before.
pub open spec fn spec_walk<K>(g: Map<K, Set<K>>, w: Seq<K>) -> bool {
    w.len() >= 1 && forall|i: int| 0 <= i < w.len() - 1 ==> #[trigger] spec_edge(g, w[i], w[i + 1])
}

/// Whether some walk, possibly of no edge, leads from `a` to `b`.
pub open spec fn spec_reaches<K>(g: Map<K, Set<K>>, a: K, b: K) -> bool {
    exists|w: Seq<K>| #[trigger] spec_walk(g, w) && w[0] == a && w.last() == b
}

/// Every node reaches itself.
proof fn lemma_reaches_self<K>(g: Map<K, Set<K>>, a: K)
    ensures
        spec_reaches(g, a, a),
{
    let w = seq![a];
    assert(spec_walk(g, w));
}

/// A walk followed by one more edge is a walk.
proof fn lemma_reaches_step<K>(g: Map<K, Set<K>>, a: K, c: K, b: K)
    requires
        spec_reaches(g, a, c),
        spec_edge(g, c, b),
    ensures
        spec_reaches(g, a, b),
{
    let w = choose|w: Seq<K>| #[trigger] spec_walk(g, w) && w[0] == a && w.last() == c;
    let w2 = w.push(b);
    assert forall|i: int| 0 <= i < w2.len() - 1 implies #[trigger] spec_edge(g, w2[i], w2[i + 1]) by {
        if i < w.len() - 1 {
            assert(spec_edge(g, w[i], w[i + 1]));
        }
    }
    assert(spec_walk(g, w2));
}

/// Any finite set of `u64` has at most 2^64 elements.
proof fn lemma_u64_set_len(s: Set<u64>)
    requires
        s.finite(),
    ensures
        s.len() <= 0x1_0000_0000_0000_0000,
{
    let f = |x: u64| x as int;
    let t = s.map(f);
    assert(vstd::relations::injective_on(f, s));
    lemma_map_size(s, t, f);
    lemma_int_range(0, 0x1_0000_0000_0000_0000);
    assert(t.subset_of(set_int_range(0, 0x1_0000_0000_0000_0000)));
    lemma_len_subset(t, set_int_range(0, 0x1_0000_0000_0000_0000));
}

/// Every node on a walk from `k` is `k` or visited, where the visited nodes and `k` are closed
/// under successors.
proof fn lemma_closed_walk(g: Map<u64, Set<u64>>, k: u64, visited: Set<u64>, w: Seq<u64>)
    requires
        forall|x: u64, y: u64| (x == k || visited.contains(x)) && #[trigger] spec_edge(g, x, y) ==> visited.contains(y),
        spec_walk(g, w),
        w[0] == k,
    ensures
        w.last() == k || visited.contains(w.last()),
    decreases w.len(),
{
    if w.len() > 1 {
        let w1 = w.drop_last();
        assert forall|i: int| 0 <= i < w1.len() - 1 implies #[trigger] spec_edge(g, w1[i], w1[i + 1]) by {
            assert(spec_edge(g, w[i], w[i + 1]));
        }
        lemma_closed_walk(g, k, visited, w1);
        assert(spec_edge(g, w[w.len() - 2], w[(w.len() - 2) + 1]));
    }
}

/// The nodes that `a` reaches, as its successors after the closure.
pub open spec fn spec_closure_of<K>(g: Map<K, Set<K>>, a: K) -> Set<K> {
    Set::new(|b: K| spec_reaches(g, a, b))
}

/// Whether a walk of one or more edges leads from `a` to `b`.
pub open spec fn spec_reaches_by_edges<K>(g: Map<K, Set<K>>, a: K, b: K) -> bool {
    exists|w: Seq<K>| #[trigger] spec_walk(g, w) && w.len() >= 2 && w[0] == a && w.last() == b
}

/// After the closure a node's successors are the node itself and the nodes that a path of one
/// or more edges leads to.
pub proof fn law_closure_is_self_and_paths<K>(g: Map<K, Set<K>>, a: K, b: K)
    ensures
        spec_closure_of(g, a).contains(b) <==> (b == a || spec_reaches_by_edges(g, a, b)),
{
    if spec_closure_of(g, a).contains(b) && b != a {
        let w = choose|w: Seq<K>| #[trigger] spec_walk(g, w) && w[0] == a && w.last() == b;
        assert(w.len() >= 2);
        assert(spec_reaches_by_edges(g, a, b));
    }
    if b == a {
        lemma_reaches_self(g, a);
    }
    if spec_reaches_by_edges(g, a, b) {
        let w = choose|w: Seq<K>| #[trigger] spec_walk(g, w) && w.len() >= 2 && w[0] == a && w.last() == b;
        assert(spec_reaches(g, a, b));
    }
}

/// A node reaches everything that a node it reaches reaches.
proof fn lemma_reaches_walk<K>(g: Map<K, Set<K>>, a: K, w: Seq<K>)
    requires
        spec_walk(g, w),
        spec_reaches(g, a, w[0]),
    ensures
        spec_reaches(g, a, w.last()),
    decreases w.len(),
{
    if w.len() > 1 {
        let w1 = w.drop_last();
        assert forall|i: int| 0 <= i < w1.len() - 1 implies #[trigger] spec_edge(g, w1[i], w1[i + 1]) by {
            assert(spec_edge(g, w[i], w[i + 1]));
        }
        lemma_reaches_walk(g, a, w1);
        assert(spec_edge(g, w[w.len() - 2], w[(w.len() - 2) + 1]));
        lemma_reaches_step(g, a, w1.last(), w.last());
    }
}

/// The closure is reflexive and transitive: every node is among its own successors, and the
/// successors of a successor are successors.
pub proof fn law_closure_reflexive_transitive<K>(g: Map<K, Set<K>>, a: K, b: K, c: K)
    ensures
        spec_closure_of(g, a).contains(a),
        spec_closure_of(g, a).contains(b) && spec_closure_of(g, b).contains(c) ==> spec_closure_of(g, a).contains(c),
{
    lemma_reaches_self(g, a);
    if spec_closure_of(g, a).contains(b) && spec_closure_of(g, b).contains(c) {
        let w = choose|w: Seq<K>| #[trigger] spec_walk(g, w) && w[0] == b && w.last() == c;
        lemma_reaches_walk(g, a, w);
    }
}

/// The closure keeps every successor: a node's successors are among the nodes it reaches.
pub proof fn law_closure_keeps_successors<K>(g: Map<K, Set<K>>, a: K, b: K)
    requires
        spec_edge(g, a, b),
    ensures
        spec_closure_of(g, a).contains(b),
{
    lemma_reaches_self(g, a);
    lemma_reaches_step(g, a, a, b);
}

/// The graph in which every node's successors are the nodes it reaches.
pub open spec fn spec_closure_graph(g: Map<u64, Set<u64>>) -> Map<u64, Set<u64>> {
    Map::new(|a: u64| g.contains_key(a), |a: u64| spec_closure_of(g, a))
}

/// What a walk of the closed graph reaches, the graph reaches.
proof fn lemma_closure_walk(g: Map<u64, Set<u64>>, a: u64, w: Seq<u64>)
    requires
        spec_walk(spec_closure_graph(g), w),
        spec_reaches(g, a, w[0]),
    ensures
        spec_reaches(g, a, w.last()),
    decreases w.len(),
{
    let h = spec_closure_graph(g);
    if w.len() > 1 {
        let w1 = w.drop_last();
        assert forall|i: int| 0 <= i < w1.len() - 1 implies #[trigger] spec_edge(h, w1[i], w1[i + 1]) by {
            assert(spec_edge(h, w[i], w[i + 1]));
        }
        lemma_closure_walk(g, a, w1);
        assert(spec_edge(h, w[w.len() - 2], w[(w.len() - 2) + 1]));
        law_closure_reflexive_transitive(g, a, w1.last(), w.last());
    }
}

/// Closing a closed graph changes nothing.
pub proof fn law_closure_idempotent(g: Map<u64, Set<u64>>, a: u64)
    requires
        g.contains_key(a),
    ensures
        spec_closure_of(spec_closure_graph(g), a) == spec_closure_of(g, a),
{
    let h = spec_closure_graph(g);
    assert forall|b: u64| spec_closure_of(h, a).contains(b) <==> spec_closure_of(g, a).contains(b) by {
        if spec_reaches(h, a, b) {
            let w = choose|w: Seq<u64>| #[trigger] spec_walk(h, w) && w[0] == a && w.last() == b;
            lemma_reaches_self(g, a);
            lemma_closure_walk(g, a, w);
        }
        if spec_reaches(g, a, b) {
            assert(spec_edge(h, a, b));
            law_closure_keeps_successors(h, a, b);
        }
    }
    assert(spec_closure_of(h, a) =~= spec_closure_of(g, a));
}

/// Adds to the successors of each node every node that it reaches, itself included.
#[verifier::loop_isolation(false)]
pub fn reflexive_transitive_closure(graph: &mut BTreeMap<u64, BTreeSet<u64>>)
    ensures
        final(graph)@.dom() == old(graph)@.dom(),
        forall|a: u64| #[trigger] old(graph)@.contains_key(a) ==> final(graph)@[a]@ == spec_closure_of(spec_graph(old(graph)@), a),
        spec_graph(final(graph)@) == spec_closure_graph(spec_graph(old(graph)@)),
{
    let ghost g = spec_graph(graph@);
    let ghost mut done: Set<u64> = Set::empty();
    let before = graph.clone();
    for parent in it: before.keys()
        invariant
            graph@.dom() == old(graph)@.dom(),
            forall|j: int| 0 <= j < it.index() ==> done.contains(*#[trigger] it.seq()[j]),
            forall|a: u64| #[trigger] graph@.contains_key(a) && done.contains(a) ==> graph@[a]@ == spec_closure_of(g, a),
            forall|a: u64| #[trigger] graph@.contains_key(a) && !done.contains(a) ==> graph@[a] == old(graph)@[a],
    {
        let p: u64 = *parent;
        assert(it.seq().unref().to_set() == before@.dom());
        assert(it.seq().unref()[it.index() as int] == p);
        assert(graph@.contains_key(p));
        let ghost start = graph@[p]@;
        assert forall|b: u64| start.contains(b) implies spec_reaches(g, p, b) by {
            lemma_reaches_self(g, p);
            if !done.contains(p) {
                lemma_reaches_step(g, p, p, b);
            }
        }
        let mut stack: Vec<u64> = vec![p];
        let mut visited: BTreeSet<u64> = BTreeSet::new();
        let mut children: BTreeSet<u64> = match graph.get(&p) {
            Some(c) => c.clone(),
            None => BTreeSet::new(),
        };
        children.insert(p);
        while stack.len() > 0
            invariant
                visited@.finite(),
                visited@.len() <= 0x1_0000_0000_0000_0000,
                children@ == start.insert(p).union(visited@),
                forall|i: int| 0 <= i < stack.len() ==> (stack[i] == p || visited@.contains(#[trigger] stack[i])),
                forall|v: u64| #[trigger] visited@.contains(v) ==> spec_reaches(g, p, v),
                forall|x: u64, y: u64| (x == p || visited@.contains(x)) && !stack@.contains(x) && #[trigger] spec_edge(g, x, y) ==> visited@.contains(y),
            decreases 0x1_0000_0000_0000_0000 - visited@.len(), stack.len(),
        {
            let ghost pre = stack@;
            let x = stack.pop().unwrap();
            assert(pre == stack@.push(x));
            assert forall|x2: u64| x2 != x && pre.contains(x2) implies stack@.contains(x2) by {
                let i = choose|i: int| 0 <= i < pre.len() && pre[i] == x2;
                assert(stack@[i] == x2);
            }
            let ghost v0 = visited@.len();
            let ghost popped = stack@;
            proof {
                lemma_reaches_self(g, p);
            }
            assert(spec_reaches(g, p, x));
            let empty: BTreeSet<u64> = BTreeSet::new();
            let succ: &BTreeSet<u64> = match before.get(&x) {
                Some(s) => s,
                None => &empty,
            };
            assert(forall|y: u64| #[trigger] spec_edge(g, x, y) ==> succ@.contains(y));
            for child in it2: succ.iter()
                invariant
                    visited@.finite(),
                    visited@.len() <= 0x1_0000_0000_0000_0000,
                    visited@.len() >= v0,
                    stack.len() == popped.len() + (visited@.len() - v0),
                    stack@.subrange(0, popped.len() as int) == popped,
                    children@ == start.insert(p).union(visited@),
                    forall|i: int| 0 <= i < stack.len() ==> (stack[i] == p || visited@.contains(#[trigger] stack[i])),
                    forall|v: u64| #[trigger] visited@.contains(v) ==> spec_reaches(g, p, v),
                    forall|x2: u64, y: u64| x2 != x && (x2 == p || visited@.contains(x2)) && !stack@.contains(x2) && #[trigger] spec_edge(g, x2, y) ==> visited@.contains(y),
                    forall|j: int| 0 <= j < it2.index() ==> visited@.contains(*#[trigger] it2.seq()[j]),
            {
                let c: u64 = *child;
                if !visited.contains(&c) {
                    proof {
                        lemma_reaches_step(g, p, x, c);
                    }
                    let ghost before = stack@;
                    stack.push(c);
                    assert forall|x2: u64| before.contains(x2) implies stack@.contains(x2) by {
                        let i = choose|i: int| 0 <= i < before.len() && before[i] == x2;
                        assert(stack@[i] == x2);
                    }
                    assert(stack@[before.len() as int] == c);
                    assert(stack@.contains(c));
                    visited.insert(c);
                    children.insert(c);
                    proof {
                        lemma_u64_set_len(visited@);
                    }
                }
            }
        }
        assert forall|b: u64| children@.contains(b) <==> spec_reaches(g, p, b) by {
            if spec_reaches(g, p, b) {
                let w = choose|w: Seq<u64>| #[trigger] spec_walk(g, w) && w[0] == p && w.last() == b;
                lemma_closed_walk(g, p, visited@, w);
            }
            if b == p {
                lemma_reaches_self(g, p);
            }
        }
        assert(children@ == spec_closure_of(g, p));
        graph.insert(p, children);
        proof {
            done = done.insert(p);
        }
    }
    assert(spec_graph(graph@) =~= spec_closure_graph(g));
}

} // verus!
