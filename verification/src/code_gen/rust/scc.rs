//! What holds while the reference graph is walked depth first and its
//! strongly connected components are closed, one root at a time.

use crate::code_gen::rust::reach::{
    edge, graph_ok, lemma_leaving_edge, lemma_reach_edge, lemma_reach_refl, lemma_reach_step,
    lemma_reach_trans, mutual, reach,
};
use vstd::prelude::*;

verus! {

/// The state of the walk, as the proofs see it.
pub struct GraphState {
    /// The successors of each node.
    pub adj: Seq<Seq<usize>>,
    /// The discovery index of each node; 0 where it has not been found yet.
    pub index: Seq<usize>,
    /// The number of the closed component that each node is in; 0 where its
    /// component is still open.
    pub comp: Seq<usize>,
    /// The nodes that have been found and whose component is still open,
    /// in the order in which they were found.
    pub stack: Seq<usize>,
    /// The last discovery index handed out.
    pub counter: int,
    /// The nodes that have not been found yet.
    pub white: Set<int>,
    /// The closed components, in the order in which they were closed.
    pub groups: Seq<Seq<usize>>,
}

pub open spec fn node(s: GraphState, v: int) -> bool {
    0 <= v < s.adj.len()
}

pub open spec fn visited(s: GraphState, v: int) -> bool {
    node(s, v) && s.index[v] != 0
}

pub open spec fn on_stack(s: GraphState, v: int) -> bool {
    node(s, v) && s.index[v] != 0 && s.comp[v] == 0
}

pub open spec fn closed(s: GraphState, v: int) -> bool {
    node(s, v) && s.comp[v] != 0
}

pub open spec fn in_stack(s: GraphState, v: int) -> bool {
    exists|i: int| 0 <= i < s.stack.len() && #[trigger] s.stack[i] == v
}

/// Some node on the walk's current path, found no later than `y`, can be
/// reached from `y`.
pub open spec fn anchored(s: GraphState, gray: Set<int>, y: int) -> bool {
    exists|x: int| #[trigger] gray.contains(x) && s.index[x] <= s.index[y] && reach(s.adj, y, x)
}

/// Some node with an open component has the discovery index `low` and can
/// be reached from `v`.
pub open spec fn low_witness(s: GraphState, v: int, low: int) -> bool {
    exists|y: int| #[trigger] on_stack(s, y) && s.index[y] == low && reach(s.adj, v, y)
}

#[verifier::opaque]
pub open spec fn shape_ok(s: GraphState) -> bool {
    &&& graph_ok(s.adj)
    &&& s.adj.len() <= usize::MAX
    &&& s.index.len() == s.adj.len()
    &&& s.comp.len() == s.adj.len()
    &&& s.white.finite()
    &&& s.white.len() + s.counter == s.adj.len()
    &&& 0 <= s.counter
    &&& forall|v: int| #[trigger] s.white.contains(v) <==> node(s, v) && s.index[v] == 0
    &&& forall|v: int| node(s, v) ==> #[trigger] s.index[v] <= s.counter
    &&& forall|v: int|
        node(s, v) && #[trigger] s.comp[v] != 0 ==> s.index[v] != 0 && s.comp[v] <= s.groups.len()
    &&& s.groups.len() + s.stack.len() <= s.counter
}

#[verifier::opaque]
pub open spec fn stack_ok(s: GraphState) -> bool {
    &&& forall|i: int| 0 <= i < s.stack.len() ==> on_stack(s, #[trigger] s.stack[i] as int)
    &&& forall|v: int| #[trigger] on_stack(s, v) ==> in_stack(s, v)
    &&& forall|i: int, j: int|
        0 <= i < j < s.stack.len() ==> s.index[#[trigger] s.stack[i] as int] < s.index[#[trigger] s.stack[j] as int]
}

#[verifier::opaque]
pub open spec fn gray_ok(s: GraphState, gray: Set<int>) -> bool {
    forall|v: int| #[trigger] gray.contains(v) ==> on_stack(s, v)
}

#[verifier::opaque]
pub open spec fn no_black_to_white(s: GraphState, gray: Set<int>) -> bool {
    forall|v: int, k: int|
        visited(s, v) && !gray.contains(v) && 0 <= k < s.adj[v].len() ==> s.index[#[trigger] s.adj[v][k] as int]
            != 0
}

#[verifier::opaque]
pub open spec fn gray_reaches_above(s: GraphState, gray: Set<int>) -> bool {
    forall|x: int, y: int|
        #[trigger] gray.contains(x) && #[trigger] on_stack(s, y) && s.index[x] <= s.index[y] ==> reach(
            s.adj,
            x,
            y,
        )
}

#[verifier::opaque]
pub open spec fn stack_reaches_gray(s: GraphState, gray: Set<int>) -> bool {
    forall|y: int| #[trigger] on_stack(s, y) ==> anchored(s, gray, y)
}

/// Each closed component is a class of nodes that reach one another, whole.
#[verifier::opaque]
pub open spec fn closed_are_components(s: GraphState) -> bool {
    forall|v: int, w: int|
        closed(s, v) && node(s, w) ==> (s.comp[w] == s.comp[v] <==> #[trigger] mutual(s.adj, v, w))
}

pub open spec fn group_ok(s: GraphState, c: int) -> bool {
    &&& s.groups[c].len() >= 1
    &&& forall|i: int|
        0 <= i < s.groups[c].len() ==> node(s, #[trigger] s.groups[c][i] as int) && s.comp[s.groups[c][i] as int]
            == c + 1
    &&& forall|i: int, j: int|
        0 <= i < j < s.groups[c].len() ==> #[trigger] s.groups[c][i] != #[trigger] s.groups[c][j]
}

pub open spec fn in_group(s: GraphState, c: int, v: int) -> bool {
    exists|i: int| 0 <= i < s.groups[c].len() && #[trigger] s.groups[c][i] == v
}

#[verifier::opaque]
pub open spec fn groups_ok(s: GraphState) -> bool {
    &&& forall|c: int| 0 <= c < s.groups.len() ==> #[trigger] group_ok(s, c)
    &&& forall|v: int| #[trigger] closed(s, v) ==> in_group(s, s.comp[v] - 1, v)
}

/// What holds of the state between any two steps of the walk; `gray` are
/// the nodes on the walk's current path.
pub open spec fn inv(s: GraphState, gray: Set<int>) -> bool {
    &&& shape_ok(s)
    &&& stack_ok(s)
    &&& gray_ok(s, gray)
    &&& no_black_to_white(s, gray)
    &&& gray_reaches_above(s, gray)
    &&& stack_reaches_gray(s, gray)
    &&& closed_are_components(s)
    &&& groups_ok(s)
}

/// What a stretch of the walk keeps: the graph, the stack below what it
/// adds, the index of what was found and the component of what was closed.
#[verifier::opaque]
pub open spec fn extends(pre: GraphState, post: GraphState) -> bool {
    &&& post.adj == pre.adj
    &&& pre.stack.len() <= post.stack.len()
    &&& forall|i: int| 0 <= i < pre.stack.len() ==> #[trigger] post.stack[i] == pre.stack[i]
    &&& forall|v: int| visited(pre, v) ==> #[trigger] post.index[v] == pre.index[v]
    &&& forall|v: int|
        node(pre, v) && !visited(pre, v) && #[trigger] post.index[v] != 0 ==> post.index[v] > pre.counter
    &&& forall|v: int| closed(pre, v) ==> #[trigger] post.comp[v] == pre.comp[v]
    &&& forall|v: int| on_stack(pre, v) ==> #[trigger] post.comp[v] == 0
    &&& pre.counter <= post.counter
    &&& post.white.len() <= pre.white.len()
    &&& pre.groups.len() <= post.groups.len()
}

/// What the visit of `v` leaves behind; `low` is the low link it found.
pub open spec fn visit_post(pre: GraphState, post: GraphState, gray: Set<int>, v: int, low: int) -> bool {
    &&& inv(post, gray)
    &&& extends(pre, post)
    &&& post.index[v] == pre.counter + 1
    &&& low <= post.index[v]
    &&& closed(post, v) ==> low == post.index[v]
    &&& closed(post, v) || low_witness(post, v, low)
    &&& fresh_edges_ok(pre, post, low)
}

/// No edge from what a stretch of the walk has put on the stack leads to a
/// node that was on the stack before with an index below `low`.
#[verifier::opaque]
pub open spec fn fresh_edges_ok(pre: GraphState, post: GraphState, low: int) -> bool {
    forall|a: int, j: int|
        on_stack(post, a) && post.index[a] > pre.counter && 0 <= j < post.adj[a].len() && on_stack(
            pre,
            #[trigger] post.adj[a][j] as int,
        ) ==> low <= post.index[post.adj[a][j] as int]
}

/// The first `k` successors of `u` have been found, and none of them has an
/// open component and an index below `low`.
#[verifier::opaque]
pub open spec fn scanned(cur: GraphState, u: int, k: int, low: int) -> bool {
    forall|j: int|
        0 <= j < k ==> visited(cur, #[trigger] cur.adj[u][j] as int) && (closed(cur, cur.adj[u][j] as int)
            || low <= cur.index[cur.adj[u][j] as int])
}

/// No edge from a node found after the one with the index `idx` leads to a
/// node with an open component, an index up to `idx` and below `low`.
#[verifier::opaque]
pub open spec fn above_ok(cur: GraphState, idx: int, low: int) -> bool {
    forall|a: int, j: int|
        on_stack(cur, a) && cur.index[a] > idx && 0 <= j < cur.adj[a].len() && on_stack(
            cur,
            #[trigger] cur.adj[a][j] as int,
        ) && cur.index[cur.adj[a][j] as int] <= idx ==> low <= cur.index[cur.adj[a][j] as int]
}

/// The state right after `v` has been found: numbered and put on the stack.
pub open spec fn pushed(pre: GraphState, v: int) -> GraphState {
    GraphState {
        adj: pre.adj,
        index: pre.index.update(v, (pre.counter + 1) as usize),
        comp: pre.comp,
        stack: pre.stack.push(v as usize),
        counter: pre.counter + 1,
        white: pre.white.remove(v),
        groups: pre.groups,
    }
}

/// What holds while the successors of `u` are gone through; `k` of them
/// are done, and `low` is the low link found so far.
pub open spec fn scanning(entry: GraphState, cur: GraphState, gray: Set<int>, u: int, k: int, low: int) -> bool {
    &&& inv(entry, gray)
    &&& node(entry, u)
    &&& entry.index[u] == 0
    &&& forall|x: int| #[trigger] gray.contains(x) ==> reach(entry.adj, x, u)
    &&& inv(cur, gray.insert(u))
    &&& extends(entry, cur)
    &&& cur.stack.len() > entry.stack.len()
    &&& cur.stack[entry.stack.len() as int] == u
    &&& cur.index[u] == entry.counter + 1
    &&& cur.comp[u] == 0
    &&& cur.white.len() < entry.white.len()
    &&& 0 <= k <= cur.adj[u].len()
    &&& low <= entry.counter + 1
    &&& low_witness(cur, u, low)
    &&& scanned(cur, u, k, low)
    &&& above_ok(cur, entry.counter + 1, low)
}


/// Two nodes with open components and one discovery index are one node.
pub proof fn lemma_unique_index(s: GraphState, a: int, b: int)
    requires
        stack_ok(s),
        on_stack(s, a),
        on_stack(s, b),
        s.index[a] == s.index[b],
    ensures
        a == b,
{
    reveal(stack_ok);
    assert(in_stack(s, a));
    assert(in_stack(s, b));
    let i = choose|i: int| 0 <= i < s.stack.len() && #[trigger] s.stack[i] == a;
    let j = choose|j: int| 0 <= j < s.stack.len() && #[trigger] s.stack[j] == b;
    if i < j {
        assert(s.index[s.stack[i] as int] < s.index[s.stack[j] as int]);
    } else if j < i {
        assert(s.index[s.stack[j] as int] < s.index[s.stack[i] as int]);
    }
}

/// The counts and the sets stay in step where a node is found.
proof fn lemma_push_shape(entry: GraphState, u: int)
    requires
        shape_ok(entry),
        node(entry, u),
        entry.index[u] == 0,
    ensures
        shape_ok(pushed(entry, u)),
        extends(entry, pushed(entry, u)),
        entry.counter + 1 <= usize::MAX,
        entry.comp[u] == 0,
        pushed(entry, u).white.len() < entry.white.len(),
{
    reveal(shape_ok);
    reveal(extends);
    let cur = pushed(entry, u);
    assert(entry.white.contains(u));
    vstd::set::axiom_set_remove_len(entry.white, u);
    assert(cur.index[u] == entry.counter + 1);
    assert forall|v: int| #[trigger] cur.white.contains(v) <==> node(cur, v) && cur.index[v] == 0 by {
        if v != u {
            assert(entry.white.contains(v) <==> node(entry, v) && entry.index[v] == 0);
        }
    }
}

/// The stack stays in order where a node is found: the node has the
/// highest index so far.
proof fn lemma_push_stack(entry: GraphState, u: int)
    requires
        shape_ok(entry),
        stack_ok(entry),
        node(entry, u),
        entry.index[u] == 0,
    ensures
        stack_ok(pushed(entry, u)),
{
    reveal(shape_ok);
    reveal(stack_ok);
    let cur = pushed(entry, u);
    vstd::set::axiom_set_remove_len(entry.white, u);
    assert(entry.white.contains(u));
    assert(cur.index[u] == entry.counter + 1);
    assert forall|i: int| 0 <= i < cur.stack.len() implies on_stack(cur, #[trigger] cur.stack[i] as int) by {
        if i < entry.stack.len() {
            assert(cur.stack[i] == entry.stack[i]);
            assert(on_stack(entry, entry.stack[i] as int));
        }
    }
    assert forall|v: int| #[trigger] on_stack(cur, v) implies in_stack(cur, v) by {
        if v == u {
            assert(cur.stack[entry.stack.len() as int] == v);
        } else {
            assert(on_stack(entry, v));
            assert(in_stack(entry, v));
            let i = choose|i: int| 0 <= i < entry.stack.len() && #[trigger] entry.stack[i] == v;
            assert(cur.stack[i] == v);
        }
    }
    assert forall|i: int, j: int| 0 <= i < j < cur.stack.len() implies cur.index[#[trigger] cur.stack[i] as int]
        < cur.index[#[trigger] cur.stack[j] as int] by {
        assert(cur.stack[i] == entry.stack[i]);
        assert(on_stack(entry, entry.stack[i] as int));
        assert(entry.index[entry.stack[i] as int] <= entry.counter);
        if j < entry.stack.len() {
            assert(cur.stack[j] == entry.stack[j]);
            assert(on_stack(entry, entry.stack[j] as int));
        }
    }
}

/// No node that is done gets a successor that has not been found where a
/// node is found.
proof fn lemma_push_colors(entry: GraphState, gray: Set<int>, u: int)
    requires
        shape_ok(entry),
        gray_ok(entry, gray),
        no_black_to_white(entry, gray),
        node(entry, u),
        entry.index[u] == 0,
        entry.comp[u] == 0,
        entry.counter + 1 <= usize::MAX,
    ensures
        gray_ok(pushed(entry, u), gray.insert(u)),
        no_black_to_white(pushed(entry, u), gray.insert(u)),
{
    reveal(shape_ok);
    reveal(gray_ok);
    reveal(no_black_to_white);
    let cur = pushed(entry, u);
    let g = gray.insert(u);
    assert(cur.index[u] == entry.counter + 1);
    assert forall|v: int| #[trigger] g.contains(v) implies on_stack(cur, v) by {
        if v != u {
            assert(gray.contains(v));
            assert(on_stack(entry, v));
        }
    }
    assert forall|v: int, k: int|
        visited(cur, v) && !g.contains(v) && 0 <= k < cur.adj[v].len() implies cur.index[#[trigger] cur.adj[v][k] as int]
        != 0 by {
        assert(visited(entry, v));
        assert(entry.adj[v][k] < entry.adj.len());
        assert(entry.index[entry.adj[v][k] as int] != 0);
    }
}

/// The node that is found is reached from the path, and it reaches
/// itself.
proof fn lemma_push_reach(entry: GraphState, gray: Set<int>, u: int)
    requires
        shape_ok(entry),
        gray_ok(entry, gray),
        gray_reaches_above(entry, gray),
        stack_reaches_gray(entry, gray),
        node(entry, u),
        entry.index[u] == 0,
        entry.comp[u] == 0,
        forall|x: int| #[trigger] gray.contains(x) ==> reach(entry.adj, x, u),
    ensures
        gray_reaches_above(pushed(entry, u), gray.insert(u)),
        stack_reaches_gray(pushed(entry, u), gray.insert(u)),
        low_witness(pushed(entry, u), u, entry.counter + 1),
{
    reveal(shape_ok);
    reveal(gray_ok);
    reveal(gray_reaches_above);
    reveal(stack_reaches_gray);
    let cur = pushed(entry, u);
    let g = gray.insert(u);
    vstd::set::axiom_set_remove_len(entry.white, u);
    assert(entry.white.contains(u));
    assert(cur.index[u] == entry.counter + 1);
    lemma_reach_refl(cur.adj, u);
    assert forall|x: int, y: int|
        #[trigger] g.contains(x) && #[trigger] on_stack(cur, y) && cur.index[x] <= cur.index[y] implies reach(
        cur.adj,
        x,
        y,
    ) by {
        if y == u {
            if x != u {
                assert(gray.contains(x));
            }
        } else {
            assert(on_stack(entry, y));
            assert(entry.index[y] <= entry.counter);
            if x != u {
                assert(gray.contains(x));
                assert(on_stack(entry, x));
            }
        }
    }
    assert forall|y: int| #[trigger] on_stack(cur, y) implies anchored(cur, g, y) by {
        if y == u {
            assert(g.contains(u) && cur.index[u] <= cur.index[y] && reach(cur.adj, y, u));
        } else {
            assert(on_stack(entry, y));
            assert(anchored(entry, gray, y));
            let x = choose|x: int| #[trigger]
                gray.contains(x) && entry.index[x] <= entry.index[y] && reach(entry.adj, y, x);
            assert(on_stack(entry, x));
            assert(g.contains(x) && cur.index[x] <= cur.index[y] && reach(cur.adj, y, x));
        }
    }
    assert(on_stack(cur, u) && cur.index[u] == entry.counter + 1 && reach(cur.adj, u, u));
}

/// The closed components are not touched where a node is found.
proof fn lemma_push_closed(entry: GraphState, u: int)
    requires
        closed_are_components(entry),
        groups_ok(entry),
        node(entry, u),
        entry.comp[u] == 0,
    ensures
        closed_are_components(pushed(entry, u)),
        groups_ok(pushed(entry, u)),
{
    reveal(closed_are_components);
    reveal(groups_ok);
    let cur = pushed(entry, u);
    assert forall|v: int, w: int| closed(cur, v) && node(cur, w) implies (cur.comp[w] == cur.comp[v]
        <==> #[trigger] mutual(cur.adj, v, w)) by {
        assert(closed(entry, v) && node(entry, w));
    }
    assert forall|c: int| 0 <= c < cur.groups.len() implies #[trigger] group_ok(cur, c) by {
        assert(group_ok(entry, c));
    }
    assert forall|v: int| #[trigger] closed(cur, v) implies in_group(cur, cur.comp[v] - 1, v) by {
        assert(closed(entry, v));
        let c = entry.comp[v] - 1;
        assert(in_group(entry, c, v));
        let i = choose|i: int| 0 <= i < entry.groups[c].len() && #[trigger] entry.groups[c][i] == v;
        assert(0 <= i < cur.groups[c].len() && cur.groups[c][i] == v);
    }
}

/// Where the walk finds a node, the invariant holds with the node on the
/// path, and the scan of its successors can start.
pub proof fn lemma_push(entry: GraphState, gray: Set<int>, u: int)
    requires
        inv(entry, gray),
        node(entry, u),
        entry.index[u] == 0,
        forall|x: int| #[trigger] gray.contains(x) ==> reach(entry.adj, x, u),
    ensures
        entry.counter + 1 <= usize::MAX,
        scanning(entry, pushed(entry, u), gray, u, 0, entry.counter + 1),
{
    let cur = pushed(entry, u);
    lemma_push_shape(entry, u);
    lemma_push_stack(entry, u);
    lemma_push_colors(entry, gray, u);
    lemma_push_reach(entry, gray, u);
    lemma_push_closed(entry, u);
    assert(scanned(cur, u, 0, entry.counter + 1)) by {
        reveal(scanned);
    }
    assert(above_ok(cur, entry.counter + 1, entry.counter + 1)) by {
        reveal(above_ok);
        reveal(shape_ok);
    }
    assert(cur.index[u] == entry.counter + 1 && cur.stack[entry.stack.len() as int] == u) by {
        reveal(shape_ok);
    }
}

/// `extends` goes on from one stretch of the walk to the next.
pub proof fn lemma_extends_trans(a: GraphState, b: GraphState, c: GraphState)
    requires
        extends(a, b),
        extends(b, c),
    ensures
        extends(a, c),
{
    reveal(extends);
    assert forall|i: int| 0 <= i < a.stack.len() implies #[trigger] c.stack[i] == a.stack[i] by {
        assert(b.stack[i] == a.stack[i]);
    }
    assert forall|v: int| visited(a, v) implies #[trigger] c.index[v] == a.index[v] by {
        assert(b.index[v] == a.index[v]);
        assert(visited(b, v));
    }
    assert forall|v: int| node(a, v) && !visited(a, v) && #[trigger] c.index[v] != 0 implies c.index[v]
        > a.counter by {
        if b.index[v] != 0 {
            assert(b.index[v] > a.counter);
            assert(visited(b, v));
        } else {
            assert(node(b, v) && !visited(b, v));
        }
    }
    assert forall|v: int| closed(a, v) implies #[trigger] c.comp[v] == a.comp[v] by {
        assert(b.comp[v] == a.comp[v]);
        assert(closed(b, v));
    }
    assert forall|v: int| on_stack(a, v) implies #[trigger] c.comp[v] == 0 by {
        assert(b.comp[v] == 0);
        assert(b.index[v] == a.index[v]);
        assert(on_stack(b, v));
    }
}

/// A node whose component is open after a stretch of the walk, with an
/// index that had been handed out before, was in that state before.
pub proof fn lemma_old_node(cur: GraphState, next: GraphState, y: int)
    requires
        extends(cur, next),
        on_stack(next, y),
        next.index[y] <= cur.counter,
    ensures
        on_stack(cur, y),
        cur.index[y] == next.index[y],
{
    reveal(extends);
    if !visited(cur, y) {
        assert(next.index[y] > cur.counter);
    }
    assert(next.index[y] == cur.index[y]);
    if cur.comp[y] != 0 {
        assert(closed(cur, y));
        assert(next.comp[y] == cur.comp[y]);
    }
}

/// A node whose component is open stays so over a stretch of the walk,
/// with its index.
pub proof fn lemma_stays_open(cur: GraphState, next: GraphState, y: int)
    requires
        extends(cur, next),
        on_stack(cur, y),
    ensures
        on_stack(next, y),
        next.index[y] == cur.index[y],
{
    reveal(extends);
    assert(next.index[y] == cur.index[y]);
    assert(next.comp[y] == 0);
}

/// What the visit of a successor needs holds where the scan meets a
/// successor that has not been found yet.
pub proof fn lemma_scan_call(entry: GraphState, cur: GraphState, gray: Set<int>, u: int, k: int, low: int)
    requires
        scanning(entry, cur, gray, u, k, low),
        k < cur.adj[u].len(),
    ensures
        node(cur, u),
        node(cur, cur.adj[u][k] as int),
        edge(cur.adj, u, cur.adj[u][k] as int),
        forall|x: int| #[trigger] gray.insert(u).contains(x) ==> reach(cur.adj, x, cur.adj[u][k] as int),
{
    reveal(extends);
    reveal(shape_ok);
    let w = cur.adj[u][k] as int;
    assert(edge(cur.adj, u, w));
    assert forall|x: int| #[trigger] gray.insert(u).contains(x) implies reach(cur.adj, x, w) by {
        if x == u {
            lemma_reach_edge(cur.adj, u, w);
        } else {
            assert(gray.contains(x));
            lemma_reach_step(cur.adj, x, u, w);
        }
    }
}

/// The scan goes on past a successor that had been found before.
pub proof fn lemma_scan_seen(entry: GraphState, cur: GraphState, gray: Set<int>, u: int, k: int, low: int)
    requires
        scanning(entry, cur, gray, u, k, low),
        k < cur.adj[u].len(),
        cur.index[cur.adj[u][k] as int] != 0,
    ensures
        scanning(
            entry,
            cur,
            gray,
            u,
            k + 1,
            if cur.comp[cur.adj[u][k] as int] == 0 && cur.index[cur.adj[u][k] as int] < low {
                cur.index[cur.adj[u][k] as int] as int
            } else {
                low
            },
        ),
{
    let w = cur.adj[u][k] as int;
    let low2 = if cur.comp[w] == 0 && cur.index[w] < low {
        cur.index[w] as int
    } else {
        low
    };
    lemma_scan_call(entry, cur, gray, u, k, low);
    if cur.comp[w] == 0 && cur.index[w] < low {
        lemma_reach_edge(cur.adj, u, w);
        assert(on_stack(cur, w) && cur.index[w] == low2 && reach(cur.adj, u, w));
    }
    assert(scanned(cur, u, k + 1, low2)) by {
        reveal(scanned);
        assert forall|j: int| 0 <= j < k + 1 implies visited(cur, #[trigger] cur.adj[u][j] as int) && (
        closed(cur, cur.adj[u][j] as int) || low2 <= cur.index[cur.adj[u][j] as int]) by {
            if j < k {
            }
        }
    }
    assert(above_ok(cur, entry.counter + 1, low2)) by {
        reveal(above_ok);
    }
}

/// After the visit of a successor the low link is still the index of a
/// node with an open component that is reached.
proof fn lemma_visited_witness(cur: GraphState, next: GraphState, g: Set<int>, u: int, w: int, low: int, r: int)
    requires
        shape_ok(cur),
        node(cur, u),
        cur.index[u] != 0,
        low <= cur.index[u],
        edge(cur.adj, u, w),
        low_witness(cur, u, low),
        visit_post(cur, next, g, w, r),
    ensures
        low_witness(next, u, if r < low { r } else { low }),
{
    let low2 = if r < low { r } else { low };
    assert(next.adj == cur.adj) by {
        reveal(extends);
    }
    assert(cur.index[u] <= cur.counter) by {
        reveal(shape_ok);
    }
    if r < low {
        assert(!closed(next, w));
        assert(low_witness(next, w, r));
        let y = choose|y: int| #[trigger] on_stack(next, y) && next.index[y] == r && reach(next.adj, w, y);
        lemma_reach_edge(cur.adj, u, w);
        lemma_reach_trans(cur.adj, u, w, y);
        assert(on_stack(next, y) && next.index[y] == low2 && reach(next.adj, u, y));
    } else {
        let y = choose|y: int| #[trigger] on_stack(cur, y) && cur.index[y] == low && reach(cur.adj, u, y);
        lemma_stays_open(cur, next, y);
        assert(on_stack(next, y) && next.index[y] == low2 && reach(next.adj, u, y));
    }
}

/// After the visit of a successor one more successor is done.
proof fn lemma_visited_scanned(cur: GraphState, next: GraphState, g: Set<int>, u: int, k: int, low: int, r: int)
    requires
        shape_ok(cur),
        node(cur, u),
        0 <= k < cur.adj[u].len(),
        scanned(cur, u, k, low),
        visit_post(cur, next, g, cur.adj[u][k] as int, r),
    ensures
        scanned(next, u, k + 1, if r < low { r } else { low }),
{
    reveal(scanned);
    reveal(extends);
    let low2 = if r < low { r } else { low };
    assert(0 <= cur.counter && graph_ok(cur.adj)) by {
        reveal(shape_ok);
    }
    assert forall|j: int| 0 <= j < k + 1 implies visited(next, #[trigger] next.adj[u][j] as int) && (closed(
        next,
        next.adj[u][j] as int,
    ) || low2 <= next.index[next.adj[u][j] as int]) by {
        let y = cur.adj[u][j] as int;
        assert(node(cur, y));
        if j < k {
            assert(visited(cur, y));
            assert(next.index[y] == cur.index[y]);
            if closed(cur, y) {
                assert(next.comp[y] == cur.comp[y]);
            }
        }
    }
}

/// After the visit of a successor no edge from above leads below the low
/// link.
proof fn lemma_visited_above(cur: GraphState, next: GraphState, g: Set<int>, w: int, idx: int, low: int, r: int)
    requires
        shape_ok(cur),
        idx <= cur.counter,
        above_ok(cur, idx, low),
        visit_post(cur, next, g, w, r),
    ensures
        above_ok(next, idx, if r < low { r } else { low }),
{
    let low2 = if r < low { r } else { low };
    assert(next.adj == cur.adj) by {
        reveal(extends);
    }
    reveal(above_ok);
    assert forall|a: int, j: int|
        on_stack(next, a) && next.index[a] > idx && 0 <= j < next.adj[a].len() && on_stack(
            next,
            #[trigger] next.adj[a][j] as int,
        ) && next.index[next.adj[a][j] as int] <= idx implies low2 <= next.index[next.adj[a][j] as int] by {
        let y = next.adj[a][j] as int;
        lemma_old_node(cur, next, y);
        if next.index[a] <= cur.counter {
            lemma_old_node(cur, next, a);
            assert(low <= cur.index[cur.adj[a][j] as int]);
        } else {
            reveal(fresh_edges_ok);
            assert(r <= next.index[next.adj[a][j] as int]);
        }
    }
}

/// The scan goes on after the visit of a successor.
pub proof fn lemma_scan_visited(
    entry: GraphState,
    cur: GraphState,
    next: GraphState,
    gray: Set<int>,
    u: int,
    k: int,
    low: int,
    r: int,
)
    requires
        scanning(entry, cur, gray, u, k, low),
        k < cur.adj[u].len(),
        cur.index[cur.adj[u][k] as int] == 0,
        visit_post(cur, next, gray.insert(u), cur.adj[u][k] as int, r),
    ensures
        scanning(entry, next, gray, u, k + 1, if r < low { r } else { low }),
{
    let w = cur.adj[u][k] as int;
    let g = gray.insert(u);
    let idx = entry.counter + 1;
    lemma_scan_call(entry, cur, gray, u, k, low);
    lemma_extends_trans(entry, cur, next);
    assert(on_stack(cur, u)) by {
        reveal(gray_ok);
        assert(g.contains(u));
    }
    lemma_stays_open(cur, next, u);
    assert(cur.index[u] <= cur.counter) by {
        reveal(shape_ok);
    }
    assert(next.stack.len() > entry.stack.len() && next.stack[entry.stack.len() as int] == u
        && next.white.len() < entry.white.len() && next.adj == cur.adj) by {
        reveal(extends);
    }
    lemma_visited_witness(cur, next, g, u, w, low, r);
    lemma_visited_scanned(cur, next, g, u, k, low, r);
    lemma_visited_above(cur, next, g, w, idx, low, r);
}

/// A node on the path above which `u` was found has an index from before
/// `u` was found, and its component is still open.
proof fn lemma_gray_below(entry: GraphState, cur: GraphState, gray: Set<int>, x: int)
    requires
        shape_ok(entry),
        gray_ok(entry, gray),
        extends(entry, cur),
        gray.contains(x),
    ensures
        on_stack(cur, x),
        cur.index[x] <= entry.counter,
{
    reveal(gray_ok);
    assert(on_stack(entry, x));
    lemma_stays_open(entry, cur, x);
    assert(entry.index[x] <= entry.counter) by {
        reveal(shape_ok);
    }
}

/// A node that is done with its successors can leave the path.
proof fn lemma_keep_colors(cur: GraphState, gray: Set<int>, u: int, low: int)
    requires
        node(cur, u),
        gray_ok(cur, gray.insert(u)),
        no_black_to_white(cur, gray.insert(u)),
        scanned(cur, u, cur.adj[u].len() as int, low),
    ensures
        gray_ok(cur, gray),
        no_black_to_white(cur, gray),
{
    reveal(gray_ok);
    reveal(no_black_to_white);
    reveal(scanned);
    let g = gray.insert(u);
    assert forall|v: int| #[trigger] gray.contains(v) implies on_stack(cur, v) by {
        assert(g.contains(v));
    }
    assert forall|v: int, k: int|
        visited(cur, v) && !gray.contains(v) && 0 <= k < cur.adj[v].len() implies cur.index[#[trigger] cur.adj[v][k] as int]
        != 0 by {
        if v == u {
            assert(visited(cur, cur.adj[u][k] as int));
        } else {
            assert(!g.contains(v));
        }
    }
}

/// A node that leads back to an earlier one hands its anchor on to what
/// reaches it.
proof fn lemma_keep_reach(cur: GraphState, gray: Set<int>, u: int, low: int)
    requires
        node(cur, u),
        gray_reaches_above(cur, gray.insert(u)),
        stack_reaches_gray(cur, gray.insert(u)),
        low_witness(cur, u, low),
        low < cur.index[u],
    ensures
        gray_reaches_above(cur, gray),
        stack_reaches_gray(cur, gray),
{
    reveal(gray_reaches_above);
    reveal(stack_reaches_gray);
    let g = gray.insert(u);
    assert forall|x: int, y: int|
        #[trigger] gray.contains(x) && #[trigger] on_stack(cur, y) && cur.index[x] <= cur.index[y] implies reach(
        cur.adj,
        x,
        y,
    ) by {
        assert(g.contains(x));
    }
    let y0 = choose|y: int| #[trigger] on_stack(cur, y) && cur.index[y] == low && reach(cur.adj, u, y);
    assert(anchored(cur, g, y0));
    let x0 = choose|x: int| #[trigger] g.contains(x) && cur.index[x] <= cur.index[y0] && reach(cur.adj, y0, x);
    assert(x0 != u);
    assert(gray.contains(x0));
    assert forall|y: int| #[trigger] on_stack(cur, y) implies anchored(cur, gray, y) by {
        assert(anchored(cur, g, y));
        let x = choose|x: int| #[trigger] g.contains(x) && cur.index[x] <= cur.index[y] && reach(cur.adj, y, x);
        if x == u {
            lemma_reach_trans(cur.adj, y, u, y0);
            lemma_reach_trans(cur.adj, y, y0, x0);
            assert(gray.contains(x0) && cur.index[x0] <= cur.index[y] && reach(cur.adj, y, x0));
        } else {
            assert(gray.contains(x) && cur.index[x] <= cur.index[y] && reach(cur.adj, y, x));
        }
    }
}

/// No edge from the node or from above it leads below its low link.
proof fn lemma_keep_fresh(entry: GraphState, cur: GraphState, u: int, low: int)
    requires
        shape_ok(entry),
        stack_ok(cur),
        extends(entry, cur),
        on_stack(cur, u),
        cur.index[u] == entry.counter + 1,
        scanned(cur, u, cur.adj[u].len() as int, low),
        above_ok(cur, entry.counter + 1, low),
    ensures
        fresh_edges_ok(entry, cur, low),
{
    reveal(fresh_edges_ok);
    assert forall|a: int, j: int|
        on_stack(cur, a) && cur.index[a] > entry.counter && 0 <= j < cur.adj[a].len() && on_stack(
            entry,
            #[trigger] cur.adj[a][j] as int,
        ) implies low <= cur.index[cur.adj[a][j] as int] by {
        let y = cur.adj[a][j] as int;
        lemma_stays_open(entry, cur, y);
        assert(entry.index[y] <= entry.counter) by {
            reveal(shape_ok);
        }
        if a == u {
            reveal(scanned);
            assert(visited(cur, cur.adj[u][j] as int));
        } else {
            if cur.index[a] == entry.counter + 1 {
                lemma_unique_index(cur, a, u);
            }
            reveal(above_ok);
        }
    }
}

/// The visit of a node that is no root ends with the node left on the
/// stack.
pub proof fn lemma_finish_keep(entry: GraphState, cur: GraphState, gray: Set<int>, u: int, low: int)
    requires
        scanning(entry, cur, gray, u, cur.adj[u].len() as int, low),
        low < entry.counter + 1,
    ensures
        visit_post(entry, cur, gray, u, low),
{
    assert(node(cur, u)) by {
        reveal(extends);
    }
    assert(on_stack(cur, u));
    lemma_keep_colors(cur, gray, u, low);
    lemma_keep_reach(cur, gray, u, low);
    lemma_keep_fresh(entry, cur, u, low);
}

/// The nodes of the component that the root `u` closes: those found no
/// earlier than `u` whose component is still open.
pub open spec fn closing(entry: GraphState, cur: GraphState) -> Set<int> {
    Set::new(|v: int| on_stack(cur, v) && cur.index[v] >= entry.counter + 1)
}

/// An edge that leaves the component of a root leads to a node whose
/// component is closed.
proof fn lemma_leaving_target(entry: GraphState, cur: GraphState, gray: Set<int>, u: int, a: int, j: int)
    requires
        scanning(entry, cur, gray, u, cur.adj[u].len() as int, entry.counter + 1),
        closing(entry, cur).contains(a),
        0 <= j < cur.adj[a].len(),
        !closing(entry, cur).contains(cur.adj[a][j] as int),
    ensures
        closed(cur, cur.adj[a][j] as int),
{
    let g = gray.insert(u);
    let idx = entry.counter + 1;
    let b = cur.adj[a][j] as int;
    assert(node(cur, b)) by {
        reveal(shape_ok);
    }
    if a == u {
        reveal(scanned);
        assert(visited(cur, cur.adj[u][j] as int));
    } else {
        if gray.contains(a) {
            lemma_gray_below(entry, cur, gray, a);
        }
        assert(!g.contains(a));
        assert(cur.index[cur.adj[a][j] as int] != 0) by {
            reveal(no_black_to_white);
        }
        if cur.index[a] == idx {
            lemma_unique_index(cur, a, u);
        }
        if on_stack(cur, b) {
            reveal(above_ok);
            assert(idx <= cur.index[cur.adj[a][j] as int]);
        }
    }
}

/// Whatever is reached from the component of a root and reaches the root
/// is in that component.
pub proof fn lemma_no_escape(entry: GraphState, cur: GraphState, gray: Set<int>, u: int, a: int, t: int)
    requires
        scanning(entry, cur, gray, u, cur.adj[u].len() as int, entry.counter + 1),
        closing(entry, cur).contains(a),
        reach(cur.adj, a, t),
        reach(cur.adj, t, u),
    ensures
        closing(entry, cur).contains(t),
{
    let g = gray.insert(u);
    let inside = closing(entry, cur);
    if !inside.contains(t) {
        assert(graph_ok(cur.adj)) by {
            reveal(shape_ok);
        }
        let (a2, b) = lemma_leaving_edge(cur.adj, inside, a, t);
        let j = choose|j: int| 0 <= j < cur.adj[a2].len() && #[trigger] cur.adj[a2][j] == b;
        lemma_leaving_target(entry, cur, gray, u, a2, j);
        assert(closed(cur, b));
        assert(g.contains(u));
        assert(reach(cur.adj, u, a2)) by {
            reveal(gray_reaches_above);
        }
        lemma_reach_step(cur.adj, u, a2, b);
        lemma_reach_trans(cur.adj, b, t, u);
        assert(mutual(cur.adj, b, u));
        assert(node(cur, u)) by {
            reveal(extends);
        }
        assert(cur.comp[u] == cur.comp[b]) by {
            reveal(closed_are_components);
        }
        assert(false);
    }
}

/// Every node of the component of a root reaches the root and is reached
/// from it.
pub proof fn lemma_reaches_root(entry: GraphState, cur: GraphState, gray: Set<int>, u: int, y: int)
    requires
        scanning(entry, cur, gray, u, cur.adj[u].len() as int, entry.counter + 1),
        closing(entry, cur).contains(y),
    ensures
        reach(cur.adj, y, u),
        reach(cur.adj, u, y),
{
    let g = gray.insert(u);
    assert(g.contains(u));
    assert(reach(cur.adj, u, y)) by {
        reveal(gray_reaches_above);
    }
    assert(anchored(cur, g, y)) by {
        reveal(stack_reaches_gray);
    }
    let x = choose|x: int| #[trigger] g.contains(x) && cur.index[x] <= cur.index[y] && reach(cur.adj, y, x);
    if x != u {
        assert(gray.contains(x));
        assert(cur.adj == entry.adj) by {
            reveal(extends);
        }
        lemma_no_escape(entry, cur, gray, u, y, x);
        lemma_gray_below(entry, cur, gray, x);
        assert(false);
    }
}

/// The node is on the stack, at the place `from` or above it.
pub open spec fn stacked_from(s: GraphState, from: int, v: int) -> bool {
    exists|i: int| from <= i < s.stack.len() && #[trigger] s.stack[i] == v
}

/// The components of `after` are those of `before`, but for the nodes on
/// the stack from the place `from` on, which are in the component `c`.
#[verifier::opaque]
pub open spec fn comp_popped(before: GraphState, after: Seq<usize>, from: int, c: int) -> bool {
    &&& after.len() == before.comp.len()
    &&& forall|v: int|
        node(before, v) ==> #[trigger] after[v] == (if stacked_from(before, from, v) {
            c as usize
        } else {
            before.comp[v]
        })
}

/// `fin` is `cur` after the root found at the entry of a visit has closed
/// its component: what stood on the stack from the root on has left it and
/// forms the newest group.
pub open spec fn closes(entry: GraphState, cur: GraphState, fin: GraphState) -> bool {
    &&& fin.adj == cur.adj
    &&& fin.index == cur.index
    &&& fin.counter == cur.counter
    &&& fin.white == cur.white
    &&& fin.stack == cur.stack.take(entry.stack.len() as int)
    &&& comp_popped(cur, fin.comp, entry.stack.len() as int, cur.groups.len() as int + 1)
    &&& fin.groups.len() == cur.groups.len() + 1
    &&& fin.groups.take(cur.groups.len() as int) == cur.groups
    &&& fin.groups.last().len() == cur.stack.len() - entry.stack.len()
    &&& forall|j: int|
        0 <= j < fin.groups.last().len() ==> #[trigger] fin.groups.last()[j] == cur.stack[cur.stack.len() - 1
            - j]
}

/// The nodes that a root closes are those that stand on the stack from the
/// root on.
proof fn lemma_close_positions(entry: GraphState, cur: GraphState, u: int, v: int)
    requires
        stack_ok(cur),
        on_stack(cur, u),
        cur.index[u] == entry.counter + 1,
        cur.stack.len() > entry.stack.len(),
        cur.stack[entry.stack.len() as int] == u,
    ensures
        closing(entry, cur).contains(v) <==> stacked_from(cur, entry.stack.len() as int, v),
{
    reveal(stack_ok);
    let s0 = entry.stack.len() as int;
    if closing(entry, cur).contains(v) {
        assert(in_stack(cur, v));
        let i = choose|i: int| 0 <= i < cur.stack.len() && #[trigger] cur.stack[i] == v;
        if i < s0 {
            assert(cur.index[cur.stack[i] as int] < cur.index[cur.stack[s0] as int]);
        }
        assert(s0 <= i < cur.stack.len() && cur.stack[i] == v);
    }
    if stacked_from(cur, s0, v) {
        let i = choose|i: int| s0 <= i < cur.stack.len() && #[trigger] cur.stack[i] == v;
        assert(on_stack(cur, cur.stack[i] as int));
        if s0 < i {
            assert(cur.index[cur.stack[s0] as int] < cur.index[cur.stack[i] as int]);
        }
    }
}

/// What `closes` says of the components, by the nodes that the root closes.
#[verifier::opaque]
pub open spec fn comp_closing(entry: GraphState, cur: GraphState, fin: GraphState) -> bool {
    &&& fin.comp.len() == cur.comp.len()
    &&& forall|v: int|
        node(cur, v) ==> #[trigger] fin.comp[v] == (if closing(entry, cur).contains(v) {
            (cur.groups.len() + 1) as usize
        } else {
            cur.comp[v]
        })
}

/// The components after the closing, by the nodes that the root closes.
proof fn lemma_close_comp(entry: GraphState, cur: GraphState, fin: GraphState, u: int)
    requires
        stack_ok(cur),
        on_stack(cur, u),
        cur.index[u] == entry.counter + 1,
        cur.stack.len() > entry.stack.len(),
        cur.stack[entry.stack.len() as int] == u,
        closes(entry, cur, fin),
    ensures
        comp_closing(entry, cur, fin),
{
    reveal(comp_popped);
    reveal(comp_closing);
    assert forall|v: int| node(cur, v) implies #[trigger] fin.comp[v] == (if closing(entry, cur).contains(v) {
        (cur.groups.len() + 1) as usize
    } else {
        cur.comp[v]
    }) by {
        lemma_close_positions(entry, cur, u, v);
    }
}

/// The counts and the sets stay in step where a component is closed.
proof fn lemma_close_shape(entry: GraphState, cur: GraphState, fin: GraphState)
    requires
        shape_ok(cur),
        cur.stack.len() > entry.stack.len(),
        closes(entry, cur, fin),
        comp_closing(entry, cur, fin),
    ensures
        shape_ok(fin),
{
    reveal(shape_ok);
    reveal(comp_closing);
    assert forall|v: int| node(fin, v) && #[trigger] fin.comp[v] != 0 implies fin.index[v] != 0 && fin.comp[v]
        <= fin.groups.len() by {
        if !closing(entry, cur).contains(v) {
            assert(cur.comp[v] != 0);
        }
    }
}

/// The stack below the root is what stays open.
proof fn lemma_close_stack(entry: GraphState, cur: GraphState, fin: GraphState, u: int)
    requires
        shape_ok(cur),
        stack_ok(cur),
        on_stack(cur, u),
        cur.index[u] == entry.counter + 1,
        cur.stack.len() > entry.stack.len(),
        cur.stack[entry.stack.len() as int] == u,
        closes(entry, cur, fin),
        comp_closing(entry, cur, fin),
    ensures
        stack_ok(fin),
        forall|v: int| on_stack(fin, v) <==> on_stack(cur, v) && !closing(entry, cur).contains(v),
{
    reveal(stack_ok);
    reveal(comp_closing);
    let s0 = entry.stack.len() as int;
    assert(cur.groups.len() + 1 <= usize::MAX) by {
        reveal(shape_ok);
    }
    assert forall|v: int| on_stack(fin, v) <==> on_stack(cur, v) && !closing(entry, cur).contains(v) by {
        if node(cur, v) {
            assert(fin.comp[v] == (if closing(entry, cur).contains(v) {
                (cur.groups.len() + 1) as usize
            } else {
                cur.comp[v]
            }));
        }
    }
    assert forall|i: int| 0 <= i < fin.stack.len() implies on_stack(fin, #[trigger] fin.stack[i] as int) by {
        assert(fin.stack[i] == cur.stack[i]);
        assert(on_stack(cur, cur.stack[i] as int));
        assert(cur.index[cur.stack[i] as int] < cur.index[cur.stack[s0] as int]);
    }
    assert forall|v: int| #[trigger] on_stack(fin, v) implies in_stack(fin, v) by {
        assert(on_stack(cur, v));
        assert(in_stack(cur, v));
        let i = choose|i: int| 0 <= i < cur.stack.len() && #[trigger] cur.stack[i] == v;
        lemma_close_positions(entry, cur, u, v);
        assert(i < s0);
        assert(fin.stack[i] == v);
    }
    assert forall|i: int, j: int| 0 <= i < j < fin.stack.len() implies fin.index[#[trigger] fin.stack[i] as int]
        < fin.index[#[trigger] fin.stack[j] as int] by {
        assert(fin.stack[i] == cur.stack[i]);
        assert(fin.stack[j] == cur.stack[j]);
    }
}

/// The root leaves the path with all its successors found.
proof fn lemma_close_colors(entry: GraphState, cur: GraphState, fin: GraphState, gray: Set<int>, u: int)
    requires
        shape_ok(entry),
        gray_ok(entry, gray),
        extends(entry, cur),
        node(cur, u),
        no_black_to_white(cur, gray.insert(u)),
        scanned(cur, u, cur.adj[u].len() as int, entry.counter + 1),
        closes(entry, cur, fin),
        forall|v: int| on_stack(fin, v) <==> on_stack(cur, v) && !closing(entry, cur).contains(v),
    ensures
        gray_ok(fin, gray),
        no_black_to_white(fin, gray),
{
    let g = gray.insert(u);
    assert forall|v: int| #[trigger] gray.contains(v) implies on_stack(fin, v) by {
        lemma_gray_below(entry, cur, gray, v);
    }
    assert(gray_ok(fin, gray)) by {
        reveal(gray_ok);
    }
    reveal(no_black_to_white);
    assert forall|v: int, k: int|
        visited(fin, v) && !gray.contains(v) && 0 <= k < fin.adj[v].len() implies fin.index[#[trigger] fin.adj[v][k] as int]
        != 0 by {
        if v == u {
            reveal(scanned);
            assert(visited(cur, cur.adj[u][k] as int));
        } else {
            assert(!g.contains(v));
            assert(visited(cur, v));
        }
    }
}

/// What stays on the stack is anchored below the root.
proof fn lemma_close_reach(entry: GraphState, cur: GraphState, fin: GraphState, gray: Set<int>, u: int)
    requires
        node(cur, u),
        cur.index[u] == entry.counter + 1,
        gray_reaches_above(cur, gray.insert(u)),
        stack_reaches_gray(cur, gray.insert(u)),
        closes(entry, cur, fin),
        forall|v: int| on_stack(fin, v) <==> on_stack(cur, v) && !closing(entry, cur).contains(v),
    ensures
        gray_reaches_above(fin, gray),
        stack_reaches_gray(fin, gray),
{
    reveal(gray_reaches_above);
    reveal(stack_reaches_gray);
    let g = gray.insert(u);
    assert forall|x: int, y: int|
        #[trigger] gray.contains(x) && #[trigger] on_stack(fin, y) && fin.index[x] <= fin.index[y] implies reach(
        fin.adj,
        x,
        y,
    ) by {
        assert(g.contains(x));
        assert(on_stack(cur, y));
    }
    assert forall|y: int| #[trigger] on_stack(fin, y) implies anchored(fin, gray, y) by {
        assert(on_stack(cur, y));
        assert(anchored(cur, g, y));
        let x = choose|x: int| #[trigger] g.contains(x) && cur.index[x] <= cur.index[y] && reach(cur.adj, y, x);
        assert(x != u);
        assert(gray.contains(x) && fin.index[x] <= fin.index[y] && reach(fin.adj, y, x));
    }
}

/// What the root closes is a class of nodes that reach one another,
/// whole; the components closed before stay what they were.
proof fn lemma_close_components(entry: GraphState, cur: GraphState, fin: GraphState, gray: Set<int>, u: int)
    requires
        scanning(entry, cur, gray, u, cur.adj[u].len() as int, entry.counter + 1),
        closes(entry, cur, fin),
        comp_closing(entry, cur, fin),
    ensures
        closed_are_components(fin),
{
    let inside = closing(entry, cur);
    let c = cur.groups.len() + 1;
    assert(c <= usize::MAX && graph_ok(cur.adj) && forall|v: int|
        node(cur, v) ==> #[trigger] cur.comp[v] <= cur.groups.len()) by {
        reveal(shape_ok);
    }
    assert(node(cur, u)) by {
        reveal(extends);
    }
    assert forall|v: int, w: int| closed(fin, v) && node(fin, w) implies (fin.comp[w] == fin.comp[v]
        <==> #[trigger] mutual(fin.adj, v, w)) by {
        assert(fin.comp[v] == (if inside.contains(v) {
            c as usize
        } else {
            cur.comp[v]
        }) && fin.comp[w] == (if inside.contains(w) {
            c as usize
        } else {
            cur.comp[w]
        })) by {
            reveal(comp_closing);
        }
        if inside.contains(v) {
            lemma_reaches_root(entry, cur, gray, u, v);
            if inside.contains(w) {
                lemma_reaches_root(entry, cur, gray, u, w);
                lemma_reach_trans(cur.adj, v, u, w);
                lemma_reach_trans(cur.adj, w, u, v);
            } else {
                if mutual(cur.adj, v, w) {
                    lemma_reach_trans(cur.adj, w, v, u);
                    lemma_no_escape(entry, cur, gray, u, v, w);
                }
            }
        } else {
            assert(closed(cur, v));
            assert(cur.comp[w] == cur.comp[v] <==> mutual(cur.adj, v, w)) by {
                reveal(closed_are_components);
            }
        }
    }
    reveal(closed_are_components);
}

/// The newest group lists what the root closes, each node once.
proof fn lemma_close_groups(entry: GraphState, cur: GraphState, fin: GraphState, u: int)
    requires
        shape_ok(cur),
        stack_ok(cur),
        groups_ok(cur),
        on_stack(cur, u),
        cur.index[u] == entry.counter + 1,
        cur.stack.len() > entry.stack.len(),
        cur.stack[entry.stack.len() as int] == u,
        closes(entry, cur, fin),
        comp_closing(entry, cur, fin),
    ensures
        groups_ok(fin),
{
    reveal(groups_ok);
    reveal(comp_closing);
    let inside = closing(entry, cur);
    let c = cur.groups.len() as int;
    let s0 = entry.stack.len() as int;
    let top = cur.stack.len() as int;
    assert(c + 1 <= usize::MAX) by {
        reveal(shape_ok);
    }
    assert forall|d: int| 0 <= d < fin.groups.len() implies #[trigger] group_ok(fin, d) by {
        if d < c {
            assert(fin.groups[d] == fin.groups.take(c)[d]);
            assert(group_ok(cur, d));
            assert forall|i: int| 0 <= i < fin.groups[d].len() implies node(fin, #[trigger] fin.groups[d][i] as int)
                && fin.comp[fin.groups[d][i] as int] == d + 1 by {
                assert(node(cur, cur.groups[d][i] as int));
            }
        } else {
            assert(fin.groups[d] == fin.groups.last());
            assert forall|i: int| 0 <= i < fin.groups[d].len() implies node(fin, #[trigger] fin.groups[d][i] as int)
                && fin.comp[fin.groups[d][i] as int] == d + 1 by {
                let v = cur.stack[top - 1 - i] as int;
                assert(fin.groups.last()[i] == cur.stack[top - 1 - i]);
                assert(on_stack(cur, v)) by {
                    reveal(stack_ok);
                }
                assert(s0 <= top - 1 - i < cur.stack.len() && cur.stack[top - 1 - i] == v);
                lemma_close_positions(entry, cur, u, v);
            }
            assert forall|i: int, j: int| 0 <= i < j < fin.groups[d].len() implies #[trigger] fin.groups[d][i]
                != #[trigger] fin.groups[d][j] by {
                assert(fin.groups.last()[i] == cur.stack[top - 1 - i]);
                assert(fin.groups.last()[j] == cur.stack[top - 1 - j]);
                assert(cur.index[cur.stack[top - 1 - j] as int] < cur.index[cur.stack[top - 1 - i] as int]) by {
                    reveal(stack_ok);
                }
            }
        }
    }
    assert forall|v: int| #[trigger] closed(fin, v) implies in_group(fin, fin.comp[v] - 1, v) by {
        if inside.contains(v) {
            lemma_close_positions(entry, cur, u, v);
            let i = choose|i: int| s0 <= i < cur.stack.len() && #[trigger] cur.stack[i] == v;
            let j = top - 1 - i;
            assert(fin.groups.last()[j] == cur.stack[top - 1 - j]);
            assert(fin.groups[c] == fin.groups.last());
            assert(0 <= j < fin.groups[c].len() && fin.groups[c][j] == v);
        } else {
            assert(closed(cur, v));
            let d = cur.comp[v] - 1;
            assert(in_group(cur, d, v));
            assert(cur.comp[v] <= cur.groups.len()) by {
                reveal(shape_ok);
            }
            assert(fin.groups[d] == fin.groups.take(c)[d]);
            let i = choose|i: int| 0 <= i < cur.groups[d].len() && #[trigger] cur.groups[d][i] == v;
            assert(0 <= i < fin.groups[d].len() && fin.groups[d][i] == v);
        }
    }
}

/// The closing keeps what was there at the entry of the visit.
proof fn lemma_close_extends(entry: GraphState, cur: GraphState, fin: GraphState)
    requires
        shape_ok(entry),
        extends(entry, cur),
        cur.stack.len() > entry.stack.len(),
        closes(entry, cur, fin),
        comp_closing(entry, cur, fin),
        forall|v: int| on_stack(fin, v) <==> on_stack(cur, v) && !closing(entry, cur).contains(v),
    ensures
        extends(entry, fin),
        fresh_edges_ok(entry, fin, entry.counter + 1),
{
    reveal(extends);
    reveal(comp_closing);
    let inside = closing(entry, cur);
    assert forall|v: int| node(entry, v) && entry.index[v] != 0 implies !inside.contains(v) by {
        reveal(shape_ok);
        assert(cur.index[v] == entry.index[v]);
        assert(entry.index[v] <= entry.counter);
    }
    assert forall|i: int| 0 <= i < entry.stack.len() implies #[trigger] fin.stack[i] == entry.stack[i] by {
        assert(cur.stack[i] == entry.stack[i]);
    }
    assert forall|v: int| closed(entry, v) implies #[trigger] fin.comp[v] == entry.comp[v] by {
        reveal(shape_ok);
        assert(cur.comp[v] == entry.comp[v]);
    }
    assert forall|v: int| on_stack(entry, v) implies #[trigger] fin.comp[v] == 0 by {
        assert(cur.comp[v] == 0);
    }
    assert(fresh_edges_ok(entry, fin, entry.counter + 1)) by {
        reveal(fresh_edges_ok);
    }
}

/// The visit of a root ends with its component closed.
pub proof fn lemma_finish_close(entry: GraphState, cur: GraphState, fin: GraphState, gray: Set<int>, u: int)
    requires
        scanning(entry, cur, gray, u, cur.adj[u].len() as int, entry.counter + 1),
        closes(entry, cur, fin),
    ensures
        visit_post(entry, fin, gray, u, entry.counter + 1),
        closed(fin, u),
{
    assert(node(cur, u)) by {
        reveal(extends);
    }
    assert(on_stack(cur, u));
    lemma_close_comp(entry, cur, fin, u);
    lemma_close_shape(entry, cur, fin);
    lemma_close_stack(entry, cur, fin, u);
    lemma_close_colors(entry, cur, fin, gray, u);
    lemma_close_reach(entry, cur, fin, gray, u);
    lemma_close_components(entry, cur, fin, gray, u);
    lemma_close_groups(entry, cur, fin, u);
    lemma_close_extends(entry, cur, fin);
    assert(closing(entry, cur).contains(u));
    assert(closed(fin, u)) by {
        reveal(comp_closing);
        reveal(shape_ok);
    }
}

/// The state before the walk: nothing found, nothing closed.
pub open spec fn initial(adj: Seq<Seq<usize>>) -> GraphState {
    GraphState {
        adj,
        index: Seq::new(adj.len(), |v: int| 0usize),
        comp: Seq::new(adj.len(), |v: int| 0usize),
        stack: Seq::empty(),
        counter: 0,
        white: Set::new(|v: int| 0 <= v < adj.len()),
        groups: Seq::empty(),
    }
}

/// The invariant holds before the walk.
pub proof fn lemma_initial(adj: Seq<Seq<usize>>)
    requires
        graph_ok(adj),
        adj.len() <= usize::MAX,
    ensures
        inv(initial(adj), Set::empty()),
{
    let s = initial(adj);
    let gray = Set::<int>::empty();
    assert(shape_ok(s)) by {
        reveal(shape_ok);
        vstd::set_lib::lemma_int_range(0, adj.len() as int);
        assert(s.white =~= vstd::set_lib::set_int_range(0, adj.len() as int));
    }
    assert(stack_ok(s)) by {
        reveal(stack_ok);
    }
    assert(gray_ok(s, gray)) by {
        reveal(gray_ok);
    }
    assert(no_black_to_white(s, gray)) by {
        reveal(no_black_to_white);
    }
    assert(gray_reaches_above(s, gray)) by {
        reveal(gray_reaches_above);
    }
    assert(stack_reaches_gray(s, gray)) by {
        reveal(stack_reaches_gray);
    }
    assert(closed_are_components(s)) by {
        reveal(closed_are_components);
    }
    assert(groups_ok(s)) by {
        reveal(groups_ok);
    }
}

/// The groups are the strongly connected components of the graph: every
/// node is in one of them, none is in one of them twice or in two of them,
/// and two nodes are in one group where each can be reached from the other,
/// and only there.
pub open spec fn components_of(adj: Seq<Seq<usize>>, groups: Seq<Seq<usize>>) -> bool {
    &&& forall|c: int, i: int|
        0 <= c < groups.len() && 0 <= i < groups[c].len() ==> (#[trigger] groups[c][i]) < adj.len()
    &&& forall|c: int| 0 <= c < groups.len() ==> (#[trigger] groups[c]).len() >= 1
    &&& forall|c: int, i: int, j: int|
        0 <= c < groups.len() && 0 <= i < j < groups[c].len() ==> #[trigger] groups[c][i] != #[trigger] groups[c][j]
    &&& forall|v: int| 0 <= v < adj.len() ==> #[trigger] grouped(groups, v)
    &&& forall|c: int, i: int, d: int, j: int|
        0 <= c < groups.len() && 0 <= i < groups[c].len() && 0 <= d < groups.len() && 0 <= j < groups[d].len()
            ==> (c == d <==> mutual(adj, #[trigger] groups[c][i] as int, #[trigger] groups[d][j] as int))
}

/// The node is in some group.
pub open spec fn grouped(groups: Seq<Seq<usize>>, v: int) -> bool {
    exists|c: int, i: int| 0 <= c < groups.len() && 0 <= i < groups[c].len() && #[trigger] groups[c][i] == v
}

/// Once every node has been found and the walk is back at its start, the
/// groups are the strongly connected components.
pub proof fn lemma_all_closed(s: GraphState)
    requires
        inv(s, Set::empty()),
        forall|v: int| node(s, v) ==> visited(s, v),
    ensures
        components_of(s.adj, s.groups),
{
    let gray = Set::<int>::empty();
    assert forall|v: int| node(s, v) implies closed(s, v) by {
        if s.comp[v] == 0 {
            assert(visited(s, v));
            assert(on_stack(s, v));
            assert(anchored(s, gray, v)) by {
                reveal(stack_reaches_gray);
            }
        }
    }
    reveal(groups_ok);
    assert forall|c: int, i: int| 0 <= c < s.groups.len() && 0 <= i < s.groups[c].len() implies (#[trigger] s.groups[c][i])
        < s.adj.len() by {
        assert(group_ok(s, c));
        assert(node(s, s.groups[c][i] as int));
    }
    assert forall|c: int| 0 <= c < s.groups.len() implies (#[trigger] s.groups[c]).len() >= 1 by {
        assert(group_ok(s, c));
    }
    assert forall|c: int, i: int, j: int|
        0 <= c < s.groups.len() && 0 <= i < j < s.groups[c].len() implies #[trigger] s.groups[c][i]
        != #[trigger] s.groups[c][j] by {
        assert(group_ok(s, c));
    }
    assert forall|v: int| 0 <= v < s.adj.len() implies #[trigger] grouped(s.groups, v) by {
        assert(closed(s, v));
        let c = s.comp[v] - 1;
        assert(in_group(s, c, v));
        assert(s.comp[v] <= s.groups.len()) by {
            reveal(shape_ok);
        }
        let i = choose|i: int| 0 <= i < s.groups[c].len() && #[trigger] s.groups[c][i] == v;
        assert(0 <= c < s.groups.len() && 0 <= i < s.groups[c].len() && s.groups[c][i] == v);
    }
    assert forall|c: int, i: int, d: int, j: int|
        0 <= c < s.groups.len() && 0 <= i < s.groups[c].len() && 0 <= d < s.groups.len() && 0 <= j
            < s.groups[d].len() implies (c == d <==> mutual(
        s.adj,
        #[trigger] s.groups[c][i] as int,
        #[trigger] s.groups[d][j] as int,
    )) by {
        assert(group_ok(s, c));
        assert(group_ok(s, d));
        let v = s.groups[c][i] as int;
        let w = s.groups[d][j] as int;
        assert(node(s, v) && s.comp[v] == c + 1);
        assert(node(s, w) && s.comp[w] == d + 1);
        assert(s.comp[w] == s.comp[v] <==> mutual(s.adj, v, w)) by {
            reveal(closed_are_components);
        }
    }
}

} // verus!
