//! The type reference graph and its strongly connected components.

use crate::code_gen::abi::type_dict::{has_name, lemma_position_of, position_of, TypeDict};
use crate::code_gen::abi::type_info::TypeInfoView;
use crate::code_gen::error::{GenError, GenErrorView};
use crate::code_gen::rust::reach::{edge, graph_ok, reach};
use crate::definitions::texts;
use crate::code_gen::rust::scc::{
    closes, comp_popped, components_of, extends, initial, inv, lemma_all_closed, lemma_finish_close,
    lemma_finish_keep, lemma_initial, lemma_push, lemma_scan_call, lemma_scan_seen,
    lemma_scan_visited, node, on_stack, pushed, scanning, shape_ok, stack_ok, stacked_from, visit_post,
    visited, GraphState,
};
use vstd::prelude::*;

verus! {

/// What the walk notes of a node: its discovery index, 0 before it is
/// found, and the lowest index that it is known to lead back to.
#[derive(Clone, Copy, Debug)]
pub struct NodeInfo {
    pub index: usize,
    pub low_link: usize,
}

impl NodeInfo {
    pub fn empty() -> (r: Self)
        ensures
            r.index == 0,
            r.low_link == 0,
    {
        Self { index: 0, low_link: 0 }
    }
}

/// The reference graph of a dictionary, with the state of a depth-first
/// walk over it. A node is the place of a type in the dictionary.
pub struct TypeGraph {
    /// The types that each type refers to.
    adjacency: Vec<Vec<usize>>,
    nodes: Vec<NodeInfo>,
    /// The number of the closed group that each node is in, 0 before.
    group_of: Vec<usize>,
    /// The traverse stack.
    stack: Vec<usize>,
    /// The groups of types that refer to one another, the single isolated
    /// ones among them.
    sub_graphs: Vec<Vec<usize>>,
    /// The last discovery index handed out.
    counter: usize,
    /// The nodes not found yet.
    white: Ghost<Set<int>>,
}

/// The first of the names that no type of the dictionary has.
pub open spec fn first_missing(entries: Seq<TypeInfoView>, names: Seq<Seq<char>>) -> Option<Seq<char>>
    decreases names.len(),
{
    if names.len() == 0 {
        None
    } else {
        match first_missing(entries, names.drop_last()) {
            Some(n) => Some(n),
            None => if has_name(entries, names.last()) {
                None
            } else {
                Some(names.last())
            },
        }
    }
}

/// The first reference of the first `n` types, in the order of the
/// dictionary and then of the references of a type, that names no type of
/// the dictionary.
pub open spec fn first_unresolved(entries: Seq<TypeInfoView>, n: nat) -> Option<Seq<char>>
    decreases n,
{
    if n == 0 || n > entries.len() {
        None
    } else {
        match first_unresolved(entries, (n - 1) as nat) {
            Some(x) => Some(x),
            None => first_missing(entries, entries[n - 1].referenced_types()),
        }
    }
}

/// The first reference in the dictionary that names no type of it.
pub open spec fn unresolved_reference(entries: Seq<TypeInfoView>) -> Option<Seq<char>> {
    first_unresolved(entries, entries.len())
}

/// The places, in the dictionary, of the types with the names.
pub open spec fn places_of(entries: Seq<TypeInfoView>, names: Seq<Seq<char>>) -> Seq<usize> {
    names.map_values(|n: Seq<char>| position_of(entries, n).unwrap() as usize)
}

/// The reference graph of a dictionary: a node for each type, at its place
/// in the dictionary, and an edge to each type that it refers to.
pub open spec fn reference_graph(entries: Seq<TypeInfoView>) -> Seq<Seq<usize>> {
    Seq::new(entries.len(), |i: int| places_of(entries, entries[i].referenced_types()))
}

/// Where no name is missing, every name is that of a type.
pub proof fn lemma_none_missing(entries: Seq<TypeInfoView>, names: Seq<Seq<char>>, k: int)
    requires
        first_missing(entries, names) is None,
        0 <= k < names.len(),
    ensures
        has_name(entries, names[k]),
    decreases names.len(),
{
    if k < names.len() - 1 {
        lemma_none_missing(entries, names.drop_last(), k);
    }
}

/// Where a name is missing among the first so many, the same name is the
/// first that is missing among all.
proof fn lemma_missing_stays(entries: Seq<TypeInfoView>, names: Seq<Seq<char>>, j: int, m: int)
    requires
        0 <= j <= m <= names.len(),
        first_missing(entries, names.take(j)) is Some,
    ensures
        first_missing(entries, names.take(m)) == first_missing(entries, names.take(j)),
    decreases m - j,
{
    if j < m {
        lemma_missing_stays(entries, names, j, m - 1);
        assert(names.take(m).drop_last() =~= names.take(m - 1));
    }
}

/// Where a reference is unresolved among the first so many types, the same
/// one is the first that is unresolved among all.
proof fn lemma_unresolved_stays(entries: Seq<TypeInfoView>, n: nat, m: nat)
    requires
        n <= m <= entries.len(),
        first_unresolved(entries, n) is Some,
    ensures
        first_unresolved(entries, m) == first_unresolved(entries, n),
    decreases m - n,
{
    if n < m {
        lemma_unresolved_stays(entries, n, (m - 1) as nat);
    }
}

/// Where no reference is unresolved, none is unresolved among the first
/// so many types.
pub proof fn lemma_all_resolved(entries: Seq<TypeInfoView>, n: nat, i: int, k: int)
    requires
        n <= entries.len(),
        first_unresolved(entries, n) is None,
        0 <= i < n,
        0 <= k < entries[i].referenced_types().len(),
    ensures
        has_name(entries, entries[i].referenced_types()[k]),
    decreases n,
{
    if i < n - 1 {
        lemma_all_resolved(entries, (n - 1) as nat, i, k);
    } else {
        lemma_none_missing(entries, entries[i].referenced_types(), k);
    }
}

/// The successors of each node, as sequences.
pub open spec fn adjacency_view(adjacency: Seq<Vec<usize>>) -> Seq<Seq<usize>> {
    adjacency.map_values(|v: Vec<usize>| v@)
}

impl TypeGraph {
    /// The state of the walk.
    pub closed spec fn state(&self) -> GraphState {
        GraphState {
            adj: adjacency_view(self.adjacency@),
            index: self.nodes@.map_values(|n: NodeInfo| n.index),
            comp: self.group_of@,
            stack: self.stack@,
            counter: self.counter as int,
            white: self.white@,
            groups: self.sub_graphs@.map_values(|g: Vec<usize>| g@),
        }
    }

    /// The reference graph of a dictionary, before any walk. It fails on
    /// the first reference that names no type of the dictionary.
    pub fn new(all_types: &TypeDict) -> (r: Result<Self, GenError>)
        ensures
            match r {
                Ok(g) => {
                    &&& unresolved_reference(all_types@) is None
                    &&& g.fresh()
                    &&& g.adjacency_list() == reference_graph(all_types@)
                    &&& graph_ok(reference_graph(all_types@))
                },
                Err(e) => {
                    &&& unresolved_reference(all_types@) is Some
                    &&& e@ == GenErrorView::UnknownType(unresolved_reference(all_types@).unwrap())
                },
            },
    {
        let ghost entries = all_types@;
        let n = all_types.len();
        let mut adjacency: Vec<Vec<usize>> = Vec::new();
        let mut i: usize = 0;
        while i < n
            invariant
                i <= n,
                n == entries.len(),
                entries == all_types@,
                adjacency.len() == i,
                first_unresolved(entries, i as nat) is None,
                forall|a: int| 0 <= a < i ==> (#[trigger] adjacency[a])@ == places_of(
                    entries,
                    entries[a].referenced_types(),
                ),
                forall|a: int, k: int|
                    0 <= a < i && 0 <= k < adjacency[a].len() ==> (#[trigger] adjacency[a][k]) < n,
            decreases n - i,
        {
            let names = all_types.entry(i).get_referrenced_types();
            let ghost refs = entries[i as int].referenced_types();
            let mut places: Vec<usize> = Vec::new();
            let mut k: usize = 0;
            assert(refs.take(0) =~= Seq::<Seq<char>>::empty());
            while k < names.len()
                invariant
                    k <= names.len(),
                    i < n,
                    n == entries.len(),
                    entries == all_types@,
                    refs == entries[i as int].referenced_types(),
                    texts(names@) == refs,
                    first_unresolved(entries, i as nat) is None,
                    first_missing(entries, refs.take(k as int)) is None,
                    places.len() == k,
                    forall|j: int| 0 <= j < k ==> #[trigger] places[j] == position_of(entries, refs[j]).unwrap(),
                    forall|j: int| 0 <= j < k ==> #[trigger] places[j] < n,
                decreases names.len() - k,
            {
                proof {
                    assert(refs.take(k + 1).drop_last() =~= refs.take(k as int));
                    assert(refs.take(k + 1).last() == refs[k as int]);
                    assert(refs[k as int] == names[k as int]@);
                    lemma_position_of(entries, refs[k as int]);
                }
                match all_types.index_of(names[k].as_str()) {
                    Some(place) => {
                        places.push(place);
                    },
                    None => {
                        proof {
                            lemma_missing_stays(entries, refs, k + 1, refs.len() as int);
                            assert(refs.take(refs.len() as int) =~= refs);
                            lemma_unresolved_stays(entries, (i + 1) as nat, entries.len());
                        }
                        return Err(GenError::UnknownType(names[k].clone()));
                    },
                }
                k = k + 1;
            }
            proof {
                assert(refs.take(k as int) =~= refs);
                assert(places@ =~= places_of(entries, refs));
            }
            adjacency.push(places);
            i = i + 1;
        }
        proof {
            assert(adjacency_view(adjacency@) =~= reference_graph(entries));
            assert(graph_ok(adjacency_view(adjacency@))) by {
                assert forall|a: int, k: int|
                    0 <= a < adjacency_view(adjacency@).len() && 0 <= k < adjacency_view(adjacency@)[a].len() implies (
                #[trigger] adjacency_view(adjacency@)[a][k]) < adjacency_view(adjacency@).len() by {
                    assert(adjacency[a][k] < n);
                }
            }
        }
        Ok(Self::with_adjacency(adjacency))
    }

    /// The successors of each node.
    pub closed spec fn adjacency_list(&self) -> Seq<Seq<usize>> {
        adjacency_view(self.adjacency@)
    }

    /// No walk has been made over the graph yet, and each of its edges
    /// leads to one of its nodes.
    pub closed spec fn fresh(&self) -> bool {
        self.state() == initial(self.state().adj) && graph_ok(self.state().adj)
    }

    /// Whether the node has an edge to itself.
    pub fn has_self_edge(&self, v: usize) -> (r: bool)
        ensures
            r == edge(self.adjacency_list(), v as int, v as int),
    {
        if v >= self.adjacency.len() {
            return false;
        }
        let successors = &self.adjacency[v];
        let mut k: usize = 0;
        while k < successors.len()
            invariant
                k <= successors.len(),
                v < self.adjacency.len(),
                successors@ == self.adjacency_list()[v as int],
                forall|j: int| 0 <= j < k ==> #[trigger] successors[j] != v,
            decreases successors.len() - k,
        {
            if successors[k] == v {
                assert(self.adjacency_list()[v as int][k as int] == v);
                return true;
            }
            k = k + 1;
        }
        false
    }

    /// The graph with the given successors, before any walk.
    fn with_adjacency(adjacency: Vec<Vec<usize>>) -> (r: Self)
        requires
            graph_ok(adjacency_view(adjacency@)),
        ensures
            r.state() == initial(adjacency_view(adjacency@)),
            r.adjacency_list() == adjacency_view(adjacency@),
            inv(r.state(), Set::empty()),
    {
        let n = adjacency.len();
        let mut nodes: Vec<NodeInfo> = Vec::new();
        let mut group_of: Vec<usize> = Vec::new();
        let mut i: usize = 0;
        while i < n
            invariant
                i <= n,
                nodes.len() == i,
                group_of.len() == i,
                forall|k: int| 0 <= k < i ==> (#[trigger] nodes[k]).index == 0,
                forall|k: int| 0 <= k < i ==> #[trigger] group_of[k] == 0,
            decreases n - i,
        {
            nodes.push(NodeInfo::empty());
            group_of.push(0);
            i = i + 1;
        }
        let ghost adj = adjacency_view(adjacency@);
        let r = TypeGraph {
            adjacency,
            nodes,
            group_of,
            stack: Vec::new(),
            sub_graphs: Vec::new(),
            counter: 0,
            white: Ghost(Set::new(|v: int| 0 <= v < adj.len())),
        };
        proof {
            let s = r.state();
            let t = initial(adj);
            assert(s.index =~= t.index);
            assert(s.comp =~= t.comp);
            assert(s.stack =~= t.stack);
            assert(s.groups =~= t.groups);
            assert(s.adj == t.adj);
            assert(s.white == t.white);
            lemma_initial(adj);
        }
        r
    }

    /// Visits the node `v` and all that can be reached from it and has not
    /// been found yet. Returns the lowest discovery index that `v` leads
    /// back to among the nodes whose group is still open; where that is the
    /// index of `v` itself, `v` is a root, and the stack is popped down to
    /// and including `v`, which closes a group.
    fn traverse(&mut self, v: usize, Ghost(gray): Ghost<Set<int>>) -> (low: usize)
        requires
            inv(old(self).state(), gray),
            node(old(self).state(), v as int),
            old(self).state().index[v as int] == 0,
            forall|x: int| #[trigger] gray.contains(x) ==> reach(old(self).state().adj, x, v as int),
        ensures
            visit_post(old(self).state(), final(self).state(), gray, v as int, low as int),
        decreases old(self).state().white.len(),
    {
        let ghost entry = self.state();
        proof {
            lemma_push(entry, gray, v as int);
            assert(self.nodes@.len() == entry.adj.len()) by {
                reveal(shape_ok);
            }
        }
        self.counter = self.counter + 1;
        let idx = self.counter;
        self.nodes.set(v, NodeInfo { index: idx, low_link: idx });
        self.stack.push(v);
        proof {
            self.white@ = self.white@.remove(v as int);
            let s = self.state();
            let t = pushed(entry, v as int);
            assert(s.index =~= t.index);
            assert(s.stack =~= t.stack);
            assert(s == t);
        }
        let mut low = idx;
        let mut k: usize = 0;
        let n_succ = self.adjacency[v].len();
        while k < n_succ
            invariant
                scanning(entry, self.state(), gray, v as int, k as int, low as int),
                n_succ == self.state().adj[v as int].len(),
                n_succ == self.adjacency[v as int].len(),
                v < self.adjacency.len(),
                idx == entry.counter + 1,
                entry == old(self).state(),
            decreases n_succ - k,
        {
            let w = self.adjacency[v][k];
            let ghost cur = self.state();
            proof {
                lemma_scan_call(entry, cur, gray, v as int, k as int, low as int);
                assert(cur.adj[v as int][k as int] == w);
                assert(self.nodes@.len() == cur.index.len());
                assert(self.group_of@.len() == cur.comp.len());
                assert(cur.index.len() == cur.adj.len() && cur.comp.len() == cur.adj.len()) by {
                    reveal(shape_ok);
                }
                assert(cur.index[w as int] == self.nodes[w as int].index);
            }
            if self.nodes[w].index == 0 {
                let r = self.traverse(w, Ghost(gray.insert(v as int)));
                proof {
                    lemma_scan_visited(
                        entry,
                        cur,
                        self.state(),
                        gray,
                        v as int,
                        k as int,
                        low as int,
                        r as int,
                    );
                    assert(self.state().adj == cur.adj) by {
                        reveal(extends);
                    }
                }
                if r < low {
                    low = r;
                }
            } else {
                proof {
                    lemma_scan_seen(entry, cur, gray, v as int, k as int, low as int);
                }
                if self.group_of[w] == 0 && self.nodes[w].index < low {
                    low = self.nodes[w].index;
                }
            }
            k = k + 1;
        }
        let ghost cur = self.state();
        proof {
            assert(cur.index.len() == cur.adj.len() && cur.comp.len() == cur.adj.len()) by {
                reveal(shape_ok);
            }
            assert(self.nodes@.len() == cur.index.len());
        }
        self.nodes.set(v, NodeInfo { index: idx, low_link: low });
        proof {
            assert(self.state().index =~= cur.index);
            assert(self.state() == cur);
        }
        let node_info = self.nodes[v];
        if node_info.index == node_info.low_link {
            self.close_group(v, Ghost(entry), Ghost(gray));
        } else {
            proof {
                lemma_finish_keep(entry, cur, gray, v as int, low as int);
            }
        }
        low
    }

    /// Pops the stack down to and including the root `v`; what is popped
    /// is a group.
    fn close_group(&mut self, v: usize, Ghost(entry): Ghost<GraphState>, Ghost(gray): Ghost<Set<int>>)
        requires
            scanning(
                entry,
                old(self).state(),
                gray,
                v as int,
                old(self).state().adj[v as int].len() as int,
                entry.counter + 1,
            ),
        ensures
            visit_post(entry, final(self).state(), gray, v as int, entry.counter + 1),
    {
        let ghost cur = self.state();
        let ghost s0 = entry.stack.len() as int;
        proof {
            reveal(shape_ok);
            reveal(comp_popped);
            assert(cur.groups.len() == self.sub_graphs.len());
        }
        let c = self.sub_graphs.len() + 1;
        let mut sub_graph: Vec<usize> = Vec::new();
        let mut done = false;
        while !done
            invariant
                scanning(entry, cur, gray, v as int, cur.adj[v as int].len() as int, entry.counter + 1),
                s0 == entry.stack.len(),
                c == cur.groups.len() + 1,
                self.state().adj == cur.adj,
                self.state().index == cur.index,
                self.state().counter == cur.counter,
                self.state().white == cur.white,
                self.state().groups == cur.groups,
                self.group_of.len() == cur.comp.len(),
                s0 <= self.stack.len() <= cur.stack.len(),
                done <==> self.stack.len() == s0,
                self.stack@ == cur.stack.take(self.stack.len() as int),
                comp_popped(cur, self.group_of@, self.stack.len() as int, c as int),
                sub_graph.len() == cur.stack.len() - self.stack.len(),
                forall|j: int|
                    0 <= j < sub_graph.len() ==> #[trigger] sub_graph[j] == cur.stack[cur.stack.len() - 1 - j],
            decreases self.stack.len() + (if done { 0int } else { 1int }),
        {
            let ghost before = self.group_of@;
            let ghost top = self.stack.len() as int;
            let w = self.stack.pop().unwrap();
            proof {
                reveal(stack_ok);
                reveal(shape_ok);
                assert(w == cur.stack[top - 1]);
                assert(on_stack(cur, cur.stack[top - 1] as int));
                assert(self.stack@ =~= cur.stack.take(top - 1));
            }
            self.group_of.set(w, c);
            sub_graph.push(w);
            proof {
                reveal(comp_popped);
                reveal(stack_ok);
                assert forall|x: int| node(cur, x) implies #[trigger] self.group_of@[x] == (if stacked_from(
                    cur,
                    top - 1,
                    x,
                ) {
                    c
                } else {
                    cur.comp[x]
                }) by {
                    if x == w {
                        assert(top - 1 <= top - 1 < cur.stack.len() && cur.stack[top - 1] == x);
                    } else {
                        if stacked_from(cur, top - 1, x) {
                            let i = choose|i: int| top - 1 <= i < cur.stack.len() && #[trigger] cur.stack[i] == x;
                            assert(top <= i < cur.stack.len() && cur.stack[i] == x);
                        }
                        if stacked_from(cur, top, x) {
                            let i = choose|i: int| top <= i < cur.stack.len() && #[trigger] cur.stack[i] == x;
                            assert(top - 1 <= i < cur.stack.len() && cur.stack[i] == x);
                        }
                        assert(self.group_of@[x] == before[x]);
                    }
                }
                if top - 1 > s0 {
                    assert(cur.index[cur.stack[s0] as int] < cur.index[cur.stack[top - 1] as int]);
                }
            }
            if w == v {
                done = true;
            }
        }
        self.sub_graphs.push(sub_graph);
        proof {
            let fin = self.state();
            assert(fin.groups.take(cur.groups.len() as int) =~= cur.groups);
            assert(fin.groups.last() == sub_graph@);
            assert(closes(entry, cur, fin));
            lemma_finish_close(entry, cur, fin, gray, v as int);
        }
    }

    /// The strongly connected components of the graph: the groups of types
    /// that refer to one another, the single isolated ones among them. The
    /// walk starts anew at every node that no earlier start has reached.
    pub fn group_cyclic_referenced_types(self) -> (r: Vec<Vec<usize>>)
        requires
            self.fresh(),
        ensures
            components_of(self.adjacency_list(), r@.map_values(|g: Vec<usize>| g@)),
    {
        let ghost adj = self.state().adj;
        let size = self.adjacency.len();
        proof {
            assert(adj.len() == size);
            lemma_initial(adj);
            reveal(shape_ok);
        }
        let mut graph = self;
        let n = size;
        let mut v: usize = 0;
        while v < n
            invariant
                v <= n,
                n == graph.nodes.len(),
                n == adj.len(),
                graph.state().adj == adj,
                inv(graph.state(), Set::empty()),
                forall|x: int| 0 <= x < v ==> visited(graph.state(), x),
            decreases n - v,
        {
            if graph.nodes[v].index == 0 {
                let ghost before = graph.state();
                graph.traverse(v, Ghost(Set::empty()));
                proof {
                    reveal(extends);
                    reveal(shape_ok);
                    assert forall|x: int| 0 <= x < v + 1 implies visited(graph.state(), x) by {
                        if x < v {
                            assert(visited(before, x));
                            assert(graph.state().index[x] == before.index[x]);
                        }
                    }
                }
            }
            v = v + 1;
        }
        proof {
            lemma_all_closed(graph.state());
        }
        graph.sub_graphs
    }
}

} // verus!
