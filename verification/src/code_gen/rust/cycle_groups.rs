//! The cyclic reference groups of a dictionary: which types lie on a common
//! cycle of references.

use crate::code_gen::abi::type_dict::TypeDict;
use crate::code_gen::error::{GenError, GenErrorView};
use crate::code_gen::rust::reach::{
    cyclic, edge, graph_ok, lemma_cyclic, lemma_reach_node, lemma_reach_refl, mutual,
};
use crate::code_gen::rust::scc::{components_of, grouped};
use crate::code_gen::rust::type_graph::{reference_graph, unresolved_reference, TypeGraph};
use vstd::prelude::*;

verus! {

/// A component is a cyclic group where it has more than one node, or one
/// node with an edge to itself.
pub open spec fn cyclic_group(adj: Seq<Seq<usize>>, group: Seq<usize>) -> bool {
    group.len() > 1 || edge(adj, group[0] as int, group[0] as int)
}

/// Some node has the id.
pub open spec fn id_in_use(table: Seq<Option<u64>>, id: u64) -> bool {
    exists|b: int| 0 <= b < table.len() && #[trigger] table[b] == Some(id)
}

/// The table gives each node of the graph the id of its cyclic group: two
/// nodes have one id where they lie on a common cycle, and only there; a
/// node that lies on no cycle has none. The ids are the numbers from 1 on,
/// without a gap.
pub open spec fn table_of(adj: Seq<Seq<usize>>, table: Seq<Option<u64>>) -> bool {
    &&& table.len() == adj.len()
    &&& forall|a: int| 0 <= a < table.len() ==> #[trigger] table[a] != Some(0u64)
    &&& forall|a: int|
        0 <= a < table.len() && (#[trigger] table[a]) is Some && table[a].unwrap() > 1 ==> id_in_use(
            table,
            (table[a].unwrap() - 1) as u64,
        )
    &&& forall|a: int, b: int|
        0 <= a < table.len() && 0 <= b < table.len() ==> ((table[a] is Some && table[a] == table[b])
            <==> #[trigger] cyclic(adj, a, b))
}

/// Some component has been given the id.
spec fn label_in_use(labels: Seq<Option<u64>>, id: u64) -> bool {
    exists|e: int| 0 <= e < labels.len() && #[trigger] labels[e] == Some(id)
}

/// The ids that the components have been given: one for each cyclic group
/// and no other, no two alike, from 1 up to the last one without a gap.
spec fn labels_ok(adj: Seq<Seq<usize>>, groups: Seq<Seq<usize>>, labels: Seq<Option<u64>>, last: int) -> bool {
    &&& labels.len() <= groups.len()
    &&& 0 <= last
    &&& forall|id: u64| 1 <= id <= last ==> #[trigger] label_in_use(labels, id)
    &&& forall|d: int| 0 <= d < labels.len() ==> (#[trigger] labels[d] is Some <==> cyclic_group(adj, groups[d]))
    &&& forall|d: int| 0 <= d < labels.len() && #[trigger] labels[d] is Some ==> 1 <= labels[d].unwrap() <= last
    &&& forall|d: int, e: int|
        0 <= d < e < labels.len() && #[trigger] labels[d] is Some && #[trigger] labels[e] is Some ==> labels[d]
            != labels[e]
}

/// Every node of the first components has the id of its component.
spec fn labelled(groups: Seq<Seq<usize>>, labels: Seq<Option<u64>>, table: Seq<Option<u64>>) -> bool {
    forall|d: int, i: int|
        0 <= d < labels.len() && 0 <= i < groups[d].len() ==> table[#[trigger] groups[d][i] as int] == labels[d]
}

/// A node is in one component only.
proof fn lemma_one_component(adj: Seq<Seq<usize>>, groups: Seq<Seq<usize>>, c: int, i: int, d: int, j: int)
    requires
        components_of(adj, groups),
        0 <= c < groups.len(),
        0 <= i < groups[c].len(),
        0 <= d < groups.len(),
        0 <= j < groups[d].len(),
        groups[c][i] == groups[d][j],
    ensures
        c == d,
        i == j,
{
    let v = groups[c][i] as int;
    assert(groups[c][i] < adj.len());
    lemma_reach_refl(adj, v);
    assert(mutual(adj, groups[c][i] as int, groups[d][j] as int));
    if i < j {
        assert(groups[c][i] != groups[c][j]);
    } else if j < i {
        assert(groups[c][j] != groups[c][i]);
    }
}

/// Once every component has its id, the table is that of the graph.
proof fn lemma_table(
    adj: Seq<Seq<usize>>,
    groups: Seq<Seq<usize>>,
    labels: Seq<Option<u64>>,
    table: Seq<Option<u64>>,
    last: int,
)
    requires
        graph_ok(adj),
        components_of(adj, groups),
        labels.len() == groups.len(),
        labels_ok(adj, groups, labels, last),
        labelled(groups, labels, table),
        table.len() == adj.len(),
    ensures
        table_of(adj, table),
{
    assert forall|a: int| 0 <= a < table.len() implies #[trigger] table[a] != Some(0u64) by {
        assert(grouped(groups, a));
        let (c, i) = choose|c: int, i: int|
            0 <= c < groups.len() && 0 <= i < groups[c].len() && #[trigger] groups[c][i] == a;
        assert(table[groups[c][i] as int] == labels[c]);
    }
    assert forall|a: int|
        0 <= a < table.len() && (#[trigger] table[a]) is Some && table[a].unwrap() > 1 implies id_in_use(
        table,
        (table[a].unwrap() - 1) as u64,
    ) by {
        assert(grouped(groups, a));
        let (c, i) = choose|c: int, i: int|
            0 <= c < groups.len() && 0 <= i < groups[c].len() && #[trigger] groups[c][i] == a;
        assert(table[groups[c][i] as int] == labels[c]);
        let id = (table[a].unwrap() - 1) as u64;
        assert(label_in_use(labels, id));
        let e = choose|e: int| 0 <= e < labels.len() && #[trigger] labels[e] == Some(id);
        assert(groups[e].len() >= 1);
        assert(groups[e][0] < adj.len());
        assert(table[groups[e][0] as int] == labels[e]);
    }
    assert forall|a: int, b: int| 0 <= a < table.len() && 0 <= b < table.len() implies ((table[a] is Some
        && table[a] == table[b]) <==> #[trigger] cyclic(adj, a, b)) by {
        assert(grouped(groups, a));
        assert(grouped(groups, b));
        let (ca, ia) = choose|c: int, i: int|
            0 <= c < groups.len() && 0 <= i < groups[c].len() && #[trigger] groups[c][i] == a;
        let (cb, ib) = choose|c: int, i: int|
            0 <= c < groups.len() && 0 <= i < groups[c].len() && #[trigger] groups[c][i] == b;
        assert(table[groups[ca][ia] as int] == labels[ca]);
        assert(table[groups[cb][ib] as int] == labels[cb]);
        assert(ca == cb <==> mutual(adj, groups[ca][ia] as int, groups[cb][ib] as int));
        lemma_cyclic(adj, a, b);
        let g = groups[ca];
        if table[a] is Some && table[a] == table[b] {
            assert(ca == cb);
            assert(cyclic_group(adj, g));
            if a == b && !edge(adj, a, a) {
                if g.len() > 1 {
                    let j = if ia == 0 { 1int } else { 0int };
                    let c = g[j] as int;
                    if ia < j {
                        assert(g[ia] != g[j]);
                    } else {
                        assert(g[j] != g[ia]);
                    }
                    assert(ca == ca <==> mutual(adj, groups[ca][ia] as int, groups[ca][j] as int));
                    assert(c != a && mutual(adj, a, c));
                } else {
                    assert(ia == 0);
                }
            }
        }
        if cyclic(adj, a, b) {
            assert(ca == cb);
            if a != b {
                assert(ia != ib);
            } else if edge(adj, a, a) {
                if g.len() == 1 {
                    assert(ia == 0);
                }
            } else {
                let c = choose|c: int| c != a && #[trigger] mutual(adj, a, c);
                lemma_reach_node(adj, a, c);
                assert(grouped(groups, c));
                let (cc, ic) = choose|d: int, i: int|
                    0 <= d < groups.len() && 0 <= i < groups[d].len() && #[trigger] groups[d][i] == c;
                assert(ca == cc <==> mutual(adj, groups[ca][ia] as int, groups[cc][ic] as int));
                assert(ia != ic);
            }
            assert(cyclic_group(adj, g));
        }
    }
}

/// The table of the cyclic reference groups of a dictionary: for each
/// type, at its place in the dictionary, the id of its group or none.
pub struct CycleGroups {
    ids: Vec<Option<u64>>,
}

impl View for CycleGroups {
    type V = Seq<Option<u64>>;

    closed spec fn view(&self) -> Seq<Option<u64>> {
        self.ids@
    }
}

impl CycleGroups {
    /// Gives every component that is a cyclic group a fresh id, each
    /// greater than the one before, starting at 1.
    fn assign(components: &Vec<Vec<usize>>, self_loops: &Vec<bool>, Ghost(adj): Ghost<Seq<Seq<usize>>>) -> (r:
        CycleGroups)
        requires
            graph_ok(adj),
            components_of(adj, components@.map_values(|g: Vec<usize>| g@)),
            self_loops.len() == adj.len(),
            forall|v: int| 0 <= v < adj.len() ==> #[trigger] self_loops[v] == edge(adj, v, v),
        ensures
            table_of(adj, r@),
    {
        let ghost groups = components@.map_values(|g: Vec<usize>| g@);
        let n = self_loops.len();
        let mut ids: Vec<Option<u64>> = Vec::new();
        let mut i: usize = 0;
        while i < n
            invariant
                i <= n,
                ids.len() == i,
            decreases n - i,
        {
            ids.push(None);
            i = i + 1;
        }
        let mut next_id: u64 = 0;
        let ghost mut labels: Seq<Option<u64>> = Seq::empty();
        let mut c: usize = 0;
        while c < components.len()
            invariant
                c <= components.len(),
                groups == components@.map_values(|g: Vec<usize>| g@),
                graph_ok(adj),
                components_of(adj, groups),
                n == adj.len(),
                self_loops.len() == n,
                forall|v: int| 0 <= v < adj.len() ==> #[trigger] self_loops[v] == edge(adj, v, v),
                ids.len() == n,
                next_id <= c,
                labels.len() == c,
                labels_ok(adj, groups, labels, next_id as int),
                labelled(groups, labels, ids@),
            decreases components.len() - c,
        {
            let group = &components[c];
            proof {
                assert(groups[c as int] == group@);
                assert(groups[c as int].len() >= 1);
                assert(groups[c as int][0] < adj.len());
            }
            let in_cycle = group.len() > 1 || self_loops[group[0]];
            let label: Option<u64> = if in_cycle {
                next_id = next_id + 1;
                Some(next_id)
            } else {
                None
            };
            let ghost before = labels;
            let ghost table = ids@;
            proof {
                labels = labels.push(label);
                assert(forall|d: int| 0 <= d < before.len() ==> labels[d] == before[d]);
                assert forall|id: u64| 1 <= id <= next_id implies #[trigger] label_in_use(labels, id) by {
                    if in_cycle && id == next_id {
                        assert(labels[c as int] == Some(id));
                    } else {
                        assert(label_in_use(before, id));
                        let e = choose|e: int| 0 <= e < before.len() && #[trigger] before[e] == Some(id);
                        assert(labels[e] == Some(id));
                    }
                }
            }
            let mut m: usize = 0;
            while m < group.len()
                invariant
                    m <= group.len(),
                    c < components.len(),
                    groups == components@.map_values(|g: Vec<usize>| g@),
                    groups[c as int] == group@,
                    components_of(adj, groups),
                    n == adj.len(),
                    ids.len() == n,
                    labels == before.push(label),
                    before.len() == c,
                    labelled(groups, before, ids@),
                    forall|j: int| 0 <= j < m ==> ids[#[trigger] group[j] as int] == label,
                decreases group.len() - m,
            {
                let member = group[m];
                proof {
                    assert(groups[c as int][m as int] < adj.len());
                }
                let ghost old_ids = ids@;
                ids.set(member, label);
                proof {
                    assert forall|d: int, i: int| 0 <= d < before.len() && 0 <= i < groups[d].len() implies ids@[#[trigger] groups[d][i] as int]
                        == before[d] by {
                        if groups[d][i] == member {
                            lemma_one_component(adj, groups, d, i, c as int, m as int);
                        }
                        assert(old_ids[groups[d][i] as int] == before[d]);
                    }
                    assert forall|j: int| 0 <= j < m + 1 implies ids[#[trigger] group[j] as int] == label by {
                        if j < m {
                            assert(old_ids[group[j] as int] == label);
                        }
                    }
                }
                m = m + 1;
            }
            proof {
                assert forall|d: int, i: int| 0 <= d < labels.len() && 0 <= i < groups[d].len() implies ids@[#[trigger] groups[d][i] as int]
                    == labels[d] by {
                    if d < c {
                        assert(ids@[groups[d][i] as int] == before[d]);
                    } else {
                        assert(ids[group[i] as int] == label);
                    }
                }
            }
            c = c + 1;
        }
        proof {
            lemma_table(adj, groups, labels, ids@, next_id as int);
        }
        CycleGroups { ids }
    }

    /// Finds the cyclic reference groups of a dictionary. It walks the
    /// reference graph depth first, closes its strongly connected
    /// components, and gives an id to each component that holds a cycle. It
    /// fails on the first reference that names no type of the dictionary.
    pub fn analyze(all_types: &TypeDict) -> (r: Result<CycleGroups, GenError>)
        ensures
            match r {
                Ok(g) => unresolved_reference(all_types@) is None && table_of(reference_graph(all_types@), g@),
                Err(e) => {
                    &&& unresolved_reference(all_types@) is Some
                    &&& e@ == GenErrorView::UnknownType(unresolved_reference(all_types@).unwrap())
                },
            },
    {
        let graph = match TypeGraph::new(all_types) {
            Ok(graph) => graph,
            Err(e) => {
                return Err(e);
            },
        };
        let ghost adj = reference_graph(all_types@);
        let n = all_types.len();
        let mut self_loops: Vec<bool> = Vec::new();
        let mut v: usize = 0;
        while v < n
            invariant
                v <= n,
                n == adj.len(),
                graph.adjacency_list() == adj,
                self_loops.len() == v,
                forall|x: int| 0 <= x < v ==> #[trigger] self_loops[x] == edge(adj, x, x),
            decreases n - v,
        {
            self_loops.push(graph.has_self_edge(v));
            v = v + 1;
        }
        let components = graph.group_cyclic_referenced_types();
        Ok(Self::assign(&components, &self_loops, Ghost(adj)))
    }

    /// The id of the cyclic group of the type at a place of the
    /// dictionary.
    pub fn group_id(&self, place: usize) -> (r: Option<u64>)
        ensures
            r == (if place < self@.len() {
                self@[place as int]
            } else {
                None
            }),
    {
        if place < self.ids.len() {
            self.ids[place]
        } else {
            None
        }
    }

    /// Whether the types at two places are in one cyclic group.
    pub fn same_group(&self, a: usize, b: usize) -> (r: bool)
        ensures
            r == (a < self@.len() && b < self@.len() && self@[a as int] is Some && self@[a as int]
                == self@[b as int]),
    {
        match (self.group_id(a), self.group_id(b)) {
            (Some(x), Some(y)) => x == y,
            _ => false,
        }
    }
}

} // verus!
