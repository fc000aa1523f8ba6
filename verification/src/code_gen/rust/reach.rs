//! Reachability in a directed graph whose nodes are the numbers below the
//! length of its adjacency list.

use vstd::prelude::*;

verus! {

/// Every successor is a node.
pub open spec fn graph_ok(adj: Seq<Seq<usize>>) -> bool {
    forall|a: int, k: int|
        0 <= a < adj.len() && 0 <= k < adj[a].len() ==> (#[trigger] adj[a][k]) < adj.len()
}

/// There is an edge from `a` to `b`.
pub open spec fn edge(adj: Seq<Seq<usize>>, a: int, b: int) -> bool {
    0 <= a < adj.len() && exists|k: int| 0 <= k < adj[a].len() && #[trigger] adj[a][k] == b
}

/// `p` walks along edges, from a node.
pub open spec fn is_path(adj: Seq<Seq<usize>>, p: Seq<int>) -> bool {
    &&& p.len() >= 1
    &&& 0 <= p[0] < adj.len()
    &&& forall|k: int| 0 <= k < p.len() - 1 ==> edge(adj, #[trigger] p[k], p[k + 1])
}

/// `b` can be reached from `a` along edges; every node reaches itself.
pub open spec fn reach(adj: Seq<Seq<usize>>, a: int, b: int) -> bool {
    exists|p: Seq<int>| is_path(adj, p) && p[0] == a && #[trigger] p.last() == b
}

/// `b` can be reached from `a` along at least one edge.
pub open spec fn reach_by_edges(adj: Seq<Seq<usize>>, a: int, b: int) -> bool {
    exists|c: int| edge(adj, a, c) && #[trigger] reach(adj, c, b)
}

/// Each of the two can be reached from the other.
pub open spec fn mutual(adj: Seq<Seq<usize>>, a: int, b: int) -> bool {
    reach(adj, a, b) && reach(adj, b, a)
}

/// The two lie on a common cycle: each can be reached from the other along
/// at least one edge. A node lies on a cycle with itself where it refers to
/// itself, directly or through others.
pub open spec fn cyclic(adj: Seq<Seq<usize>>, a: int, b: int) -> bool {
    reach_by_edges(adj, a, b) && reach_by_edges(adj, b, a)
}

/// Every node reaches itself.
pub proof fn lemma_reach_refl(adj: Seq<Seq<usize>>, a: int)
    requires
        0 <= a < adj.len(),
    ensures
        reach(adj, a, a),
{
    let p = seq![a];
    assert(is_path(adj, p));
    assert(p[0] == a && p.last() == a);
}

/// An edge reaches its target.
pub proof fn lemma_reach_edge(adj: Seq<Seq<usize>>, a: int, b: int)
    requires
        edge(adj, a, b),
    ensures
        reach(adj, a, b),
{
    let p = seq![a, b];
    assert(is_path(adj, p)) by {
        assert forall|k: int| 0 <= k < p.len() - 1 implies edge(adj, #[trigger] p[k], p[k + 1]) by {
            assert(k == 0);
        }
    }
    assert(p[0] == a && p.last() == b);
}

/// What is reached from what is reached is reached.
pub proof fn lemma_reach_trans(adj: Seq<Seq<usize>>, a: int, b: int, c: int)
    requires
        reach(adj, a, b),
        reach(adj, b, c),
    ensures
        reach(adj, a, c),
{
    let front = choose|p: Seq<int>| is_path(adj, p) && p[0] == a && #[trigger] p.last() == b;
    let back = choose|p: Seq<int>| is_path(adj, p) && p[0] == b && #[trigger] p.last() == c;
    let p = front + back.subrange(1, back.len() as int);
    assert(is_path(adj, p)) by {
        assert forall|k: int| 0 <= k < p.len() - 1 implies edge(adj, #[trigger] p[k], p[k + 1]) by {
            if k < front.len() - 1 {
                assert(p[k] == front[k] && p[k + 1] == front[k + 1]);
            } else if k == front.len() - 1 {
                assert(p[k] == front[k]);
                assert(p[k + 1] == back[1]);
                assert(front[k] == back[0]);
                assert(edge(adj, back[0int], back[0int + 1]));
            } else {
                let j = k - front.len() + 1;
                assert(p[k] == back[j] && p[k + 1] == back[j + 1]);
            }
        }
    }
    assert(p[0] == a);
    assert(p.last() == c) by {
        if back.len() == 1 {
            assert(p =~= front);
        } else {
            assert(p.last() == back[back.len() - 1]);
        }
    }
}

/// What is reached goes on along an edge.
pub proof fn lemma_reach_step(adj: Seq<Seq<usize>>, a: int, b: int, c: int)
    requires
        reach(adj, a, b),
        edge(adj, b, c),
    ensures
        reach(adj, a, c),
{
    lemma_reach_edge(adj, b, c);
    lemma_reach_trans(adj, a, b, c);
}

/// What is reached is a node.
pub proof fn lemma_reach_node(adj: Seq<Seq<usize>>, a: int, b: int)
    requires
        graph_ok(adj),
        reach(adj, a, b),
    ensures
        0 <= a < adj.len(),
        0 <= b < adj.len(),
{
    let p = choose|p: Seq<int>| is_path(adj, p) && p[0] == a && #[trigger] p.last() == b;
    if p.len() > 1 {
        let k = p.len() - 2;
        assert(edge(adj, p[k], p[k + 1]));
    }
}

/// A path that starts inside a set and ends outside of it has an edge that
/// leaves the set, whose source is reached from the start and whose target
/// reaches the end.
pub proof fn lemma_leaving_edge(adj: Seq<Seq<usize>>, inside: Set<int>, a: int, t: int) -> (r: (
    int,
    int,
))
    requires
        graph_ok(adj),
        reach(adj, a, t),
        inside.contains(a),
        !inside.contains(t),
    ensures
        inside.contains(r.0),
        !inside.contains(r.1),
        edge(adj, r.0, r.1),
        reach(adj, a, r.0),
        reach(adj, r.1, t),
{
    let p = choose|p: Seq<int>| is_path(adj, p) && p[0] == a && #[trigger] p.last() == t;
    let k = lemma_leaving_index(inside, p, p.len() - 1);
    let front = p.subrange(0, k + 1);
    let back = p.subrange(k + 1, p.len() as int);
    assert(is_path(adj, front)) by {
        assert forall|i: int| 0 <= i < front.len() - 1 implies edge(
            adj,
            #[trigger] front[i],
            front[i + 1],
        ) by {
            assert(front[i] == p[i] && front[i + 1] == p[i + 1]);
        }
    }
    assert(front[0] == a && front.last() == p[k]);
    assert(edge(adj, p[k], p[k + 1]));
    assert(is_path(adj, back)) by {
        assert(back[0] == p[k + 1]);
        assert forall|i: int| 0 <= i < back.len() - 1 implies edge(
            adj,
            #[trigger] back[i],
            back[i + 1],
        ) by {
            assert(back[i] == p[k + 1 + i] && back[i + 1] == p[k + 1 + i + 1]);
        }
        let e = choose|e: int| 0 <= e < adj[p[k]].len() && #[trigger] adj[p[k]][e] == p[k + 1];
        assert(0 <= p[k + 1] < adj.len());
    }
    assert(back[0] == p[k + 1] && back.last() == t);
    (p[k], p[k + 1])
}

/// The place of a step that leaves the set, among the first `m` steps.
proof fn lemma_leaving_index(inside: Set<int>, p: Seq<int>, m: int) -> (k: int)
    requires
        0 <= m < p.len(),
        inside.contains(p[0]),
        !inside.contains(p[m]),
    ensures
        0 <= k < m,
        inside.contains(p[k]),
        !inside.contains(p[k + 1]),
    decreases m,
{
    if inside.contains(p[m - 1]) {
        m - 1
    } else {
        lemma_leaving_index(inside, p, m - 1)
    }
}

/// A node that reaches another node reaches it along at least one edge.
pub proof fn lemma_reach_by_edges(adj: Seq<Seq<usize>>, a: int, b: int)
    requires
        graph_ok(adj),
        reach(adj, a, b),
        a != b,
    ensures
        reach_by_edges(adj, a, b),
{
    let p = choose|p: Seq<int>| is_path(adj, p) && p[0] == a && #[trigger] p.last() == b;
    assert(p.len() >= 2);
    assert(edge(adj, p[0int], p[0int + 1]));
    let e = choose|e: int| 0 <= e < adj[a].len() && #[trigger] adj[a][e] == p[1];
    let rest = p.subrange(1, p.len() as int);
    assert(is_path(adj, rest)) by {
        assert(rest[0] == p[1]);
        assert forall|k: int| 0 <= k < rest.len() - 1 implies edge(adj, #[trigger] rest[k], rest[k + 1]) by {
            assert(rest[k] == p[k + 1] && rest[k + 1] == p[k + 1 + 1]);
        }
    }
    assert(rest[0] == p[1] && rest.last() == b);
    assert(edge(adj, a, p[1]) && reach(adj, p[1], b));
}

/// Two nodes lie on a common cycle where each can be reached from the
/// other and, where they are one node, that node has an edge to itself or
/// shares its component with another node.
pub proof fn lemma_cyclic(adj: Seq<Seq<usize>>, a: int, b: int)
    requires
        graph_ok(adj),
    ensures
        cyclic(adj, a, b) <==> mutual(adj, a, b) && (a != b || edge(adj, a, a) || exists|c: int|
            c != a && #[trigger] mutual(adj, a, c)),
{
    if cyclic(adj, a, b) {
        let c1 = choose|c: int| edge(adj, a, c) && #[trigger] reach(adj, c, b);
        let c2 = choose|c: int| edge(adj, b, c) && #[trigger] reach(adj, c, a);
        lemma_reach_edge(adj, a, c1);
        lemma_reach_trans(adj, a, c1, b);
        lemma_reach_edge(adj, b, c2);
        lemma_reach_trans(adj, b, c2, a);
        if a == b && c1 != a {
            assert(mutual(adj, a, c1));
        }
    }
    if mutual(adj, a, b) {
        lemma_reach_node(adj, a, b);
        if a != b {
            lemma_reach_by_edges(adj, a, b);
            lemma_reach_by_edges(adj, b, a);
        } else if edge(adj, a, a) {
            lemma_reach_refl(adj, a);
            assert(edge(adj, a, a) && reach(adj, a, a));
        } else if exists|c: int| c != a && #[trigger] mutual(adj, a, c) {
            let c = choose|c: int| c != a && #[trigger] mutual(adj, a, c);
            lemma_reach_by_edges(adj, a, c);
            let c1 = choose|c1: int| edge(adj, a, c1) && #[trigger] reach(adj, c1, c);
            lemma_reach_trans(adj, c1, c, a);
            assert(edge(adj, a, c1) && reach(adj, c1, a));
        }
    }
}

} // verus!
