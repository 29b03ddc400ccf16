//! Conversion of a lattice snapshot into compressed sparse row (CSR)
//! adjacency graphs. The graphs are built and read through the `graph_builder`
//! crate; Verus sees their contents only through the `graph_edges` /
//! `directed_edges` abstractions that the trusted constructors and accessors
//! below maintain.

use vstd::prelude::*;

use graph_builder::Graph;
use graph_builder::GraphBuilder;
use graph_builder::UndirectedNeighbors;

use crate::indexing::col_of_index;
use crate::indexing::lemma_lin_index_of_coords;
use crate::indexing::row_of_index;
use crate::lattice::Lattice2D;

verus! {

/// An immutable undirected adjacency graph: node ids `0..node_count`, a
/// sorted neighbour list per node.
#[verifier::external_body]
pub struct UndirectedGraph {
    csr: graph_builder::UndirectedCsrGraph<usize, usize>,
}

/// The undirected edges stored in the graph, each as the pair
/// `(lower id, higher id)` it was inserted as.
pub uninterp spec fn graph_edges(g: UndirectedGraph) -> Set<(usize, usize)>;

/// The number of nodes the graph was built with.
pub uninterp spec fn graph_node_count(g: UndirectedGraph) -> int;

/// Whether the undirected graph connects `a` and `b`, in either orientation.
pub open spec fn graph_connects(g: UndirectedGraph, a: usize, b: usize) -> bool {
    graph_edges(g).contains((a, b)) || graph_edges(g).contains((b, a))
}

impl UndirectedGraph {
    /// Relies on `GraphBuilder::build` for `UndirectedCsrGraph`: node count
    /// from the node values (the payloads `0..node_count`, which nothing in
    /// this library reads back), every edge stored once in each endpoint's
    /// neighbour list, lists sorted by the `Sorted` layout.
    #[verifier::external_body]
    pub fn from_edges(edges: Vec<(usize, usize)>, node_count: usize) -> (g: Self)
        requires
            node_count >= 1,
            forall|i: int|
                0 <= i < edges@.len() ==> edges@[i].0 < edges@[i].1 && edges@[i].1 < node_count,
            forall|i: int, j: int| 0 <= i < j < edges@.len() ==> edges@[i] != edges@[j],
        ensures
            graph_node_count(g) == node_count as int,
            graph_edges(g).finite(),
            graph_edges(g).len() == edges@.len(),
            forall|e: (usize, usize)| graph_edges(g).contains(e) == edges@.contains(e),
    {
        let n = node_count;
        Self {
            csr: GraphBuilder::new()
                .csr_layout(graph_builder::CsrLayout::Sorted)
                .edges(edges)
                .node_values(0..n)
                .build(),
        }
    }

    /// Relies on `Graph::node_count`: the number of nodes.
    #[verifier::external_body]
    pub fn node_count(&self) -> (r: usize)
        ensures
            r as int == graph_node_count(*self),
    {
        self.csr.node_count()
    }

    /// Relies on `Graph::edge_count`: half the stored target entries, which
    /// is the number of undirected edges.
    #[verifier::external_body]
    pub fn edge_count(&self) -> (r: usize)
        ensures
            r as int == graph_edges(*self).len(),
    {
        self.csr.edge_count()
    }

    /// Relies on `UndirectedNeighbors::neighbors`: the node's neighbour
    /// list, strictly ascending, holding exactly the other ends of its
    /// edges.
    #[verifier::external_body]
    pub fn neighbors_list(&self, node: usize) -> (r: Vec<usize>)
        requires
            (node as int) < graph_node_count(*self),
        ensures
            forall|i: int, j: int| 0 <= i < j < r@.len() ==> r@[i] < r@[j],
            forall|m: usize| r@.contains(m) == graph_connects(*self, node, m),
    {
        self.csr.neighbors(node).copied().collect()
    }
}

/// An immutable directed adjacency graph.
#[verifier::external_body]
pub struct DirectedGraph {
    csr: graph_builder::DirectedCsrGraph<usize>,
}

/// The directed edges stored in the graph, as the ordered pairs they were
/// inserted as.
pub uninterp spec fn directed_edges(g: DirectedGraph) -> Set<(usize, usize)>;

impl DirectedGraph {
    /// Relies on `GraphBuilder::build` for `DirectedCsrGraph`: every edge
    /// stored once in its source's outgoing list. The builder takes one more
    /// than the highest node id as the node count, so ids at the very top of
    /// the address space are excluded.
    #[verifier::external_body]
    pub fn from_edges(edges: Vec<(usize, usize)>) -> (g: Self)
        requires
            forall|i: int|
                0 <= i < edges@.len() ==> edges@[i].0 < usize::MAX && edges@[i].1 < usize::MAX,
            forall|i: int, j: int| 0 <= i < j < edges@.len() ==> edges@[i] != edges@[j],
        ensures
            directed_edges(g).finite(),
            directed_edges(g).len() == edges@.len(),
            forall|e: (usize, usize)| directed_edges(g).contains(e) == edges@.contains(e),
    {
        Self {
            csr: GraphBuilder::new()
                .csr_layout(graph_builder::CsrLayout::Sorted)
                .edges(edges)
                .build(),
        }
    }

    /// Relies on `Graph::edge_count`: the number of stored directed edges.
    #[verifier::external_body]
    pub fn edge_count(&self) -> (r: usize)
        ensures
            r as int == directed_edges(*self).len(),
    {
        self.csr.edge_count()
    }
}

/// The coordinates a linear node id decodes to in a lattice.
pub open spec fn cell_of(l: Lattice2D, a: int) -> (usize, usize) {
    (
        (col_of_index(l.columns_spec() as int, a) as usize),
        (row_of_index(l.columns_spec() as int, a) as usize),
    )
}

/// Whether the lattice has an edge between the cells with linear ids `a` and
/// `b`, with `a` below `b`: the undirected edge set of the derived graph.
pub open spec fn index_edge(l: Lattice2D, a: int, b: int) -> bool {
    &&& 0 <= a < b < l.size_spec()
    &&& l.has_edge_spec(cell_of(l, a), cell_of(l, b))
}

/// Whether the graph's undirected edge set is exactly the lattice's: the
/// premise under which grid-distance reasoning applies to the graph's
/// routes.
pub open spec fn lattice_graph_of(g: UndirectedGraph, l: Lattice2D) -> bool {
    forall|e: (usize, usize)|
        graph_edges(g).contains(e) == index_edge(l, e.0 as int, e.1 as int)
}

/// Whether the lattice has an edge between the cells with linear ids `a` and
/// `b`, in either order: the directed edge set of the derived graph.
pub open spec fn index_edge_sym(l: Lattice2D, a: int, b: int) -> bool {
    &&& 0 <= a < l.size_spec()
    &&& 0 <= b < l.size_spec()
    &&& a != b
    &&& l.has_edge_spec(cell_of(l, a), cell_of(l, b))
}

impl Lattice2D {
    /// The sorted list of index pairs `(a, b)`, `a < b`, whose cells the
    /// lattice connects.
    fn edge_pairs(&self, directed: bool) -> (r: Vec<(usize, usize)>)
        requires
            self.wf(),
        ensures
            forall|i: int, j: int| 0 <= i < j < r@.len() ==> r@[i] != r@[j],
            forall|i: int|
                0 <= i < r@.len() ==> (r@[i].1 as int) < self.size_spec() && (r@[i].0 as int)
                    < self.size_spec(),
            !directed ==> forall|i: int| 0 <= i < r@.len() ==> r@[i].0 < r@[i].1,
            !directed ==> forall|e: (usize, usize)|
                r@.contains(e) == index_edge(*self, e.0 as int, e.1 as int),
            directed ==> forall|e: (usize, usize)|
                r@.contains(e) == index_edge_sym(*self, e.0 as int, e.1 as int),
    {
        let size = self.size();
        let mut out: Vec<(usize, usize)> = Vec::new();
        let mut a: usize = 0;
        while a < size
            invariant
                self.wf(),
                size as int == self.size_spec(),
                a <= size,
                forall|i: int, j: int|
                    0 <= i < j < out@.len() ==> lex_lt(out@[i], out@[j]),
                forall|i: int| 0 <= i < out@.len() ==> (out@[i].0 as int) < a,
                forall|i: int|
                    0 <= i < out@.len() ==> (out@[i].1 as int) < self.size_spec() && (out@[i].0
                        as int) < self.size_spec(),
                !directed ==> forall|i: int| 0 <= i < out@.len() ==> out@[i].0 < out@[i].1,
                !directed ==> forall|u: int, v: int|
                    0 <= u < a && 0 <= v < self.size_spec() ==> out@.contains(
                        ((u as usize), (v as usize)),
                    ) == index_edge(*self, u, v),
                directed ==> forall|u: int, v: int|
                    0 <= u < a && 0 <= v < self.size_spec() ==> out@.contains(
                        ((u as usize), (v as usize)),
                    ) == index_edge_sym(*self, u, v),
            decreases size - a,
        {
            proof {
                assert(self.columns_spec() > 0) by (nonlinear_arith)
                    requires (self.columns_spec() * self.rows_spec()) as int > a as int >= 0;
                lemma_lin_index_of_coords(
                    self.columns_spec() as int,
                    self.rows_spec() as int,
                    a as int,
                );
            }
            let va = self.to_vertex_coords(a);
            let mut b: usize = if directed {
                0
            } else {
                a + 1
            };
            while b < size
                invariant
                    self.wf(),
                    size as int == self.size_spec(),
                    a < size,
                    b <= size,
                    !directed ==> b >= a + 1,
                    va == cell_of(*self, a as int),
                    forall|i: int, j: int|
                        0 <= i < j < out@.len() ==> lex_lt(out@[i], out@[j]),
                    forall|i: int|
                        0 <= i < out@.len() ==> (out@[i].0 as int) < a || (out@[i].0 == a
                            && (out@[i].1 as int) < b),
                    forall|i: int|
                        0 <= i < out@.len() ==> (out@[i].1 as int) < self.size_spec() && (out@[i].0
                            as int) < self.size_spec(),
                    !directed ==> forall|i: int| 0 <= i < out@.len() ==> out@[i].0 < out@[i].1,
                    !directed ==> forall|u: int, v: int|
                        0 <= u < a && 0 <= v < self.size_spec() ==> out@.contains(
                            ((u as usize), (v as usize)),
                        ) == index_edge(*self, u, v),
                    !directed ==> forall|v: int|
                        0 <= v < b ==> out@.contains(((a as usize), (v as usize))) == index_edge(
                            *self,
                            a as int,
                            v,
                        ),
                    directed ==> forall|u: int, v: int|
                        0 <= u < a && 0 <= v < self.size_spec() ==> out@.contains(
                            ((u as usize), (v as usize)),
                        ) == index_edge_sym(*self, u, v),
                    directed ==> forall|v: int|
                        0 <= v < b ==> out@.contains(((a as usize), (v as usize)))
                            == index_edge_sym(*self, a as int, v),
                decreases size - b,
            {
                let ghost prev = out@;
                proof {
                    lemma_lin_index_of_coords(
                        self.columns_spec() as int,
                        self.rows_spec() as int,
                        b as int,
                    );
                }
                let vb = self.to_vertex_coords(b);
                let connect = if directed {
                    b != a && self.has_edge(va, vb)
                } else {
                    self.has_edge(va, vb)
                };
                if connect {
                    out.push((a, b));
                }
                proof {
                    if connect {
                        assert(out@ == prev.push((a, b)));
                        assert(out@[prev.len() as int] == ((a, b)));
                    }
                    assert forall|p: (usize, usize)| #![trigger out@.contains(p)]
                        out@.contains(p) == (prev.contains(p) || (connect && p == ((a, b)))) by {
                        if prev.contains(p) {
                            let t = choose|t: int| 0 <= t < prev.len() && prev[t] == p;
                            assert(out@[t] == p);
                        }
                        if out@.contains(p) {
                            let t = choose|t: int| 0 <= t < out@.len() && out@[t] == p;
                            if t < prev.len() {
                                assert(prev[t] == p);
                            } else {
                                assert(connect && out@[t] == ((a, b)));
                            }
                        }
                    }
                }
                b += 1;
            }
            a += 1;
        }
        proof {
            if !directed {
                assert forall|e: (usize, usize)| out@.contains(e) == index_edge(
                    *self,
                    e.0 as int,
                    e.1 as int,
                ) by {
                    if (e.0 as int) < self.size_spec() && (e.1 as int) < self.size_spec() {
                        assert(out@.contains(((e.0 as usize), (e.1 as usize))) == index_edge(
                            *self,
                            e.0 as int,
                            e.1 as int,
                        ));
                    } else {
                        if out@.contains(e) {
                            let t = choose|t: int| 0 <= t < out@.len() && out@[t] == e;
                        }
                    }
                }
            } else {
                assert forall|e: (usize, usize)| out@.contains(e) == index_edge_sym(
                    *self,
                    e.0 as int,
                    e.1 as int,
                ) by {
                    if (e.0 as int) < self.size_spec() && (e.1 as int) < self.size_spec() {
                        assert(out@.contains(((e.0 as usize), (e.1 as usize))) == index_edge_sym(
                            *self,
                            e.0 as int,
                            e.1 as int,
                        ));
                    } else {
                        if out@.contains(e) {
                            let t = choose|t: int| 0 <= t < out@.len() && out@[t] == e;
                        }
                    }
                }
            }
            assert forall|i: int, j: int| 0 <= i < j < out@.len() implies out@[i] != out@[j] by {
                assert(lex_lt(out@[i], out@[j]));
            }
        }
        out
    }

    /// Build the undirected CSR graph of this lattice snapshot: one node per
    /// grid cell, an edge for each pair of present, adjacent cells.
    pub fn to_undirected_graph(&self) -> (g: UndirectedGraph)
        requires
            self.wf(),
            self.size_spec() >= 1,
        ensures
            graph_node_count(g) == self.size_spec(),
            graph_edges(g).finite(),
            lattice_graph_of(g, *self),
    {
        let edges = self.edge_pairs(false);
        let size = self.size();
        UndirectedGraph::from_edges(edges, size)
    }

    /// Build the directed CSR graph of this lattice snapshot: for each pair
    /// of present, adjacent cells, an edge in both directions.
    pub fn to_directed_graph(&self) -> (g: DirectedGraph)
        requires
            self.wf(),
        ensures
            directed_edges(g).finite(),
            forall|e: (usize, usize)|
                directed_edges(g).contains(e) == index_edge_sym(*self, e.0 as int, e.1 as int),
    {
        let edges = self.edge_pairs(true);
        proof {
            crate::lattice::lemma_size_fits(*self);
        }
        DirectedGraph::from_edges(edges)
    }
}

/// Strict lexicographic order on index pairs.
pub open spec fn lex_lt(a: (usize, usize), b: (usize, usize)) -> bool {
    a.0 < b.0 || (a.0 == b.0 && a.1 < b.1)
}

} // verus!
