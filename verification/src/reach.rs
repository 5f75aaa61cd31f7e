//! Structural reachability over an edge list: the specification of
//! path existence, and the query both engines' independence checks are
//! built on. Independence is purely topological — conditions on edges
//! play no part in it.

use vstd::prelude::*;

verus! {

/// Whether the edge list holds an edge from `a` to `b`.
pub open spec fn is_edge(links: Seq<(usize, usize)>, a: int, b: int) -> bool {
    exists|k: int| 0 <= k < links.len() && (#[trigger] links[k]).0 == a && links[k].1 == b
}

/// Whether `p` walks from `a` to `b` along edges of `links`.
pub open spec fn is_path(links: Seq<(usize, usize)>, p: Seq<int>, a: int, b: int) -> bool {
    &&& p.len() >= 1
    &&& p[0] == a
    &&& p[p.len() - 1] == b
    &&& forall|i: int| 0 <= i < p.len() - 1 ==> is_edge(links, #[trigger] p[i], p[i + 1])
}

/// Whether a (possibly empty) chain of edges leads from `a` to `b`;
/// every node reaches itself.
pub open spec fn connected(links: Seq<(usize, usize)>, a: int, b: int) -> bool {
    exists|p: Seq<int>| is_path(links, p, a, b)
}

/// Whether `a` and `b` are structurally independent: no path between
/// them in either direction.
pub open spec fn independent(links: Seq<(usize, usize)>, a: int, b: int) -> bool {
    !connected(links, a, b) && !connected(links, b, a)
}

/// Independence is symmetric.
pub proof fn lemma_independent_sym(links: Seq<(usize, usize)>, a: int, b: int)
    ensures
        independent(links, a, b) == independent(links, b, a),
{
}

/// Every node reaches itself through the empty chain.
pub proof fn lemma_connected_self(links: Seq<(usize, usize)>, a: int)
    ensures
        connected(links, a, a),
{
    let p = seq![a];
    assert(is_path(links, p, a, a));
}

/// Relies on petgraph's `has_path_connecting` over a directed graph
/// with `n` nodes and the given edge list: it reports whether a
/// depth-first search started at `a` reaches `b`, that is, whether a
/// (possibly empty) chain of edges leads from `a` to `b`.
#[verifier::external_body]
pub fn path_exists(n: usize, links: &Vec<(usize, usize)>, a: usize, b: usize) -> (r: bool)
    requires
        n < 0x1000_0000,
        links@.len() < 0x1000_0000,
        a < n,
        b < n,
        forall|k: int| 0 <= k < links@.len() ==> (#[trigger] links@[k]).0 < n && links@[k].1 < n,
    ensures
        r == connected(links@, a as int, b as int),
{
    let mut g = petgraph::graph::DiGraph::<(), ()>::new();
    let mut idx = Vec::with_capacity(n);
    for _ in 0..n {
        idx.push(g.add_node(()));
    }
    for &(f, t) in links.iter() {
        g.add_edge(idx[f], idx[t], ());
    }
    petgraph::algo::has_path_connecting(&g, idx[a], idx[b], None)
}

} // verus!
