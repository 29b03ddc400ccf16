//! The A* shortest-path engine: best-first search over a CSR graph with a
//! pluggable distance heuristic, unit edge costs, and a tie-break that
//! prefers routes with fewer direction changes. Each invocation owns fresh
//! scratch state, so independent searches never interfere.

use vstd::prelude::*;

use crate::common::Orientation;
use crate::counting::count_true;
use crate::counting::lemma_count_true_pos;
use crate::counting::lemma_count_true_strict;
use crate::counting::lemma_count_true_update;
use crate::graph::cell_of;
use crate::graph::graph_connects;
use crate::graph::graph_edges;
use crate::graph::graph_node_count;
use crate::graph::index_edge;
use crate::graph::lattice_graph_of;
use crate::graph::UndirectedGraph;
use crate::indexing::lemma_coords_of_lin_index;
use crate::indexing::lemma_lin_index_bounds;
use crate::indexing::lin_index;
use crate::lattice::lemma_size_fits;
use crate::lattice::Lattice2D;
use crate::path::Net;
use crate::path::NodeType;
use crate::path::PathHeuristic;
use crate::path::PathNode;
use crate::tape::TapeItem;

verus! {

/// What a search invocation needs: the adjacency graph, the target node (if
/// any), and the lattice bounds that translate node ids to coordinates.
pub struct ShortestPathConfig {
    /// The adjacency graph to route over.
    pub graph: UndirectedGraph,
    /// The target node id; no target makes every search fail with an empty
    /// route.
    pub goal: Option<usize>,
    /// The `(columns, rows)` extent of the lattice the graph was built from.
    pub boundary: (usize, usize),
}

/// The A* engine. It carries only the distance heuristic; all per-search
/// state is created afresh inside `compute`.
pub struct Astar {
    distance_heuristic: PathHeuristic,
}

/// An open-queue entry: the node id it would close, the closed node it was
/// generated from, and the working path node.
#[derive(Copy, Clone)]
struct OpenEntry {
    idx: usize,
    parent: usize,
    node: PathNode,
}

/// The cells named by a tape, in order.
pub open spec fn tape_coords(t: Seq<TapeItem<(usize, usize), NodeType<Net>>>) -> Seq<
    (usize, usize),
> {
    Seq::new(
        t.len(),
        |i: int|
            match t[i] {
                TapeItem::Add(k, _, _) => k,
                TapeItem::Remove(k, _) => k,
                TapeItem::Move(_, k, _) => k,
            },
    )
}

/// The tape a route is emitted as: one `Add` per cell, tagged with net `0`
/// and the cell's position along the route as its cost.
pub open spec fn route_tape(route: Seq<(usize, usize)>) -> Seq<
    TapeItem<(usize, usize), NodeType<Net>>,
> {
    Seq::new(
        route.len(),
        |i: int| TapeItem::Add(route[i], NodeType::Route(0, i as usize), None),
    )
}

/// A valid route: at least one cell, all inside the boundary, no cell
/// repeated, starting at the source node, ending at the goal node, each
/// consecutive pair connected in the graph.
pub open spec fn route_ok(
    g: UndirectedGraph,
    boundary: (usize, usize),
    route: Seq<(usize, usize)>,
    source: usize,
    goal: usize,
) -> bool {
    let cols = boundary.0 as int;
    &&& route.len() >= 1
    &&& forall|i: int|
        0 <= i < route.len() ==> route[i].0 < boundary.0 && route[i].1 < boundary.1
    &&& forall|i: int, j: int| 0 <= i < j < route.len() ==> route[i] != route[j]
    &&& lin_index(cols, route[0].0 as int, route[0].1 as int) == source as int
    &&& lin_index(cols, route[route.len() - 1].0 as int, route[route.len() - 1].1 as int)
        == goal as int
    &&& forall|i: int|
        #![trigger route[i]]
        0 <= i < route.len() - 1 ==> graph_connects(
            g,
            (lin_index(cols, route[i].0 as int, route[i].1 as int) as usize),
            (lin_index(cols, route[i + 1].0 as int, route[i + 1].1 as int) as usize),
        )
}

/// Every closed node other than the source has a closed parent one step
/// cheaper and connected to it in the graph; the source has cost zero.
spec fn closed_inv(
    g: UndirectedGraph,
    src: usize,
    closed: Seq<bool>,
    parent: Seq<usize>,
    gv: Seq<usize>,
    tv: Seq<usize>,
    size: int,
) -> bool {
    forall|p: int|
        #![trigger closed[p]]
        0 <= p < size && closed[p] ==> {
            &&& gv[p] as int <= size
            &&& tv[p] <= gv[p]
            &&& (p == src ==> gv[p] == 0)
            &&& (p != src ==> {
                &&& (parent[p] as int) < size
                &&& closed[parent[p] as int]
                &&& gv[parent[p] as int] + 1 == gv[p]
                &&& graph_connects(g, parent[p], (p as usize))
            })
        }
}

/// An open entry names an in-grid node at its decoded coordinates, with a
/// start cost bounded by the closed count; it is either the seed at the
/// source or was generated from a closed parent connected to it.
spec fn entry_inv(
    g: UndirectedGraph,
    cols: usize,
    src: usize,
    closed: Seq<bool>,
    gv: Seq<usize>,
    cc: int,
    size: int,
    e: OpenEntry,
) -> bool {
    &&& (e.idx as int) < size
    &&& lin_index(cols as int, e.node.position.0 as int, e.node.position.1 as int) == e.idx as int
    &&& e.node.cost_from_start as int <= cc
    &&& e.node.orientation_cost <= e.node.cost_from_start
    &&& ((e.idx == src && e.parent == src && e.node.cost_from_start == 0) || (e.idx != src && (
    e.parent as int) < size && closed[e.parent as int] && gv[e.parent as int] + 1
        == e.node.cost_from_start && graph_connects(g, e.parent, e.idx)))
}

/// An entry for node `m` is waiting in the open queue.
spec fn open_has(open: Seq<OpenEntry>, m: usize) -> bool {
    exists|k: int| 0 <= k < open.len() && open[k].idx == m
}

/// Every in-range neighbour of a closed in-range node is itself closed or
/// waiting in the open queue: the search never abandons a reachable node.
spec fn frontier_inv(
    g: UndirectedGraph,
    size: int,
    closed: Seq<bool>,
    open: Seq<OpenEntry>,
) -> bool {
    forall|p: usize, m: usize|
        #![trigger graph_connects(g, p, m)]
        (p as int) < size && (p as int) < graph_node_count(g) && closed[p as int] && (m as int)
            < size && graph_connects(g, p, m) ==> closed[m as int] || open_has(open, m)
}

/// A path through the graph whose nodes all lie inside the grid and the
/// graph's node range.
pub open spec fn graph_path_within(
    g: UndirectedGraph,
    size: int,
    path: Seq<usize>,
    a: usize,
    b: usize,
) -> bool {
    &&& path.len() >= 1
    &&& path[0] == a
    &&& path[path.len() - 1] == b
    &&& forall|i: int|
        0 <= i < path.len() ==> (path[i] as int) < size && (path[i] as int) < graph_node_count(g)
    &&& forall|i: int|
        #![trigger path[i]]
        0 <= i < path.len() - 1 ==> graph_connects(g, path[i], path[i + 1])
}

/// A closed set that is closed under in-range adjacency and holds the start
/// of an in-range path holds its end too.
proof fn lemma_closed_under_adjacency(
    g: UndirectedGraph,
    size: int,
    closed: Seq<bool>,
    path: Seq<usize>,
    a: usize,
    b: usize,
)
    requires
        closed.len() == size,
        forall|p: usize, m: usize|
            #![trigger graph_connects(g, p, m)]
            (p as int) < size && (p as int) < graph_node_count(g) && closed[p as int] && (m as int)
                < size && graph_connects(g, p, m) ==> closed[m as int],
        graph_path_within(g, size, path, a, b),
        closed[a as int],
    ensures
        closed[b as int],
    decreases path.len(),
{
    if path.len() >= 2 {
        assert(graph_connects(g, path[0], path[1]));
        assert(closed[path[1] as int]);
        let suffix = path.subrange(1, path.len() as int);
        assert(graph_path_within(g, size, suffix, path[1], b)) by {
            assert forall|i: int| #![trigger suffix[i]] 0 <= i < suffix.len() - 1
                implies graph_connects(g, suffix[i], suffix[i + 1]) by {
                assert(suffix[i] == path[i + 1] && suffix[i + 1] == path[i + 2]);
            }
            assert(suffix[suffix.len() - 1] == path[path.len() - 1]);
        }
        lemma_closed_under_adjacency(g, size, closed, suffix, path[1], b);
    }
}

/// Pushing onto the open queue keeps every waiting node waiting.
proof fn lemma_open_has_push(open: Seq<OpenEntry>, x: OpenEntry, m: usize)
    ensures
        open_has(open, m) ==> open_has(open.push(x), m),
{
    if open_has(open, m) {
        let k = choose|k: int| 0 <= k < open.len() && open[k].idx == m;
        assert(open.push(x)[k].idx == m);
    }
}

/// A vector of `n` copies of a value.
fn filled<T: Copy>(value: T, n: usize) -> (r: Vec<T>)
    ensures
        r@.len() == n,
        forall|i: int| 0 <= i < n ==> r@[i] == value,
{
    let mut out: Vec<T> = Vec::new();
    let mut i: usize = 0;
    while i < n
        invariant
            i <= n,
            out@.len() == i,
            forall|j: int| 0 <= j < i ==> out@[j] == value,
        decreases n - i,
    {
        out.push(value);
        i += 1;
    }
    out
}

/// Remove and return an entry no other entry orders strictly before:
/// minimal total cost, with minimal turns among those.
fn pop_min(open: &mut Vec<OpenEntry>) -> (e: OpenEntry)
    requires
        old(open)@.len() > 0,
    ensures
        final (open)@.len() == old(open)@.len() - 1,
        old(open)@.contains(e),
        forall|k: int| 0 <= k < final (open)@.len() ==> old(open)@.contains(final (open)@[k]),
        forall|k: int| 0 <= k < old(open)@.len() ==> !old(open)@[k].node.lex_before(e.node),
        exists|j: int|
            0 <= j < old(open)@.len() && old(open)@[j] == e && (forall|k: int|
                0 <= k < old(open)@.len() && k != j ==> final (open)@.contains(old(open)@[k])),
{
    let mut best: usize = 0;
    let mut i: usize = 1;
    while i < open.len()
        invariant
            open@.len() > 0,
            best < i <= open@.len(),
            forall|k: int| 0 <= k < i ==> !open@[k].node.lex_before(open@[best as int].node),
        decreases open@.len() - i,
    {
        let better = open[i].node.cost_total < open[best].node.cost_total || (open[i].node.cost_total
            == open[best].node.cost_total && open[i].node.orientation_cost
            < open[best].node.orientation_cost);
        if better {
            best = i;
        }
        i += 1;
    }
    let ghost before = open@;
    let e = open.swap_remove(best);
    proof {
        assert(before.contains(e)) by {
            assert(before[best as int] == e);
        }
        assert forall|k: int| 0 <= k < open@.len() implies before.contains(open@[k]) by {
            if k == best {
                assert(open@[k] == before[before.len() - 1]);
            } else {
                assert(open@[k] == before[k]);
            }
        }
        assert(before[best as int] == e && (forall|k: int|
            0 <= k < before.len() && k != best ==> open@.contains(before[k]))) by {
            assert forall|k: int| 0 <= k < before.len() && k != best implies open@.contains(
                before[k],
            ) by {
                if k < before.len() - 1 {
                    assert(open@[k] == before[k]);
                } else {
                    assert((best as int) < before.len() - 1);
                    assert(open@[best as int] == before[k]);
                }
            }
        }
    }
    e
}

/// The Manhattan estimate between two in-bounds cells is below the grid
/// size.
proof fn lemma_manhattan_bound(cols: usize, rows: usize, a: (usize, usize), b: (usize, usize))
    requires
        a.0 < cols,
        a.1 < rows,
        b.0 < cols,
        b.1 < rows,
    ensures
        0 <= PathHeuristic::Manhattan.estimate_spec(a, b) <= cols * rows - 1,
{
    assert((cols - 1) + (rows - 1) <= cols * rows - 1) by (nonlinear_arith)
        requires cols >= 1 && rows >= 1;
}

impl Astar {
    /// The heuristic the engine expands with.
    pub closed spec fn heuristic_spec(&self) -> PathHeuristic {
        self.distance_heuristic
    }

    /// An engine that estimates distances with the Manhattan metric.
    pub fn new() -> (r: Self)
        ensures
            r.heuristic_spec() == PathHeuristic::Manhattan,
    {
        Self { distance_heuristic: PathHeuristic::Manhattan }
    }

    /// Walk the parent links back from the goal and return the route as
    /// coordinates from the source to the goal; position `i` of the route
    /// has start cost `i`.
    #[verifier::rlimit(100)]
    #[verifier::spinoff_prover]
    fn reconstruct_path(
        lattice: &Lattice2D,
        closed: &Vec<bool>,
        parent: &Vec<usize>,
        gv: &Vec<usize>,
        source: usize,
        goal: usize,
        Ghost(g): Ghost<UndirectedGraph>,
    ) -> (route: Vec<(usize, usize)>)
        requires
            lattice.wf(),
            lattice.size_spec() >= 1,
            closed@.len() == lattice.size_spec(),
            parent@.len() == lattice.size_spec(),
            gv@.len() == lattice.size_spec(),
            (source as int) < lattice.size_spec(),
            (goal as int) < lattice.size_spec(),
            closed@[goal as int],
            closed_inv_outer(g, source, closed@, parent@, gv@, lattice.size_spec()),
        ensures
            route@.len() == gv@[goal as int] + 1,
            forall|i: int|
                0 <= i < route@.len() ==> route@[i].0 < lattice.columns_spec() && route@[i].1
                    < lattice.rows_spec(),
            forall|i: int, j: int| 0 <= i < j < route@.len() ==> route@[i] != route@[j],
            lin_index(lattice.columns_spec() as int, route@[0].0 as int, route@[0].1 as int)
                == source as int,
            lin_index(
                lattice.columns_spec() as int,
                route@[route@.len() - 1].0 as int,
                route@[route@.len() - 1].1 as int,
            ) == goal as int,
            forall|i: int|
                #![trigger route@[i]]
                0 <= i < route@.len() - 1 ==> graph_connects(
                    g,
                    (lin_index(
                        lattice.columns_spec() as int,
                        route@[i].0 as int,
                        route@[i].1 as int,
                    ) as usize),
                    (lin_index(
                        lattice.columns_spec() as int,
                        route@[i + 1].0 as int,
                        route@[i + 1].1 as int,
                    ) as usize),
                ),
    {
        let size = lattice.size();
        let mut rev: Vec<usize> = Vec::new();
        let mut cur = goal;
        while cur != source
            invariant
                lattice.wf(),
                size as int == lattice.size_spec(),
                closed@.len() == size,
                parent@.len() == size,
                gv@.len() == size,
                (source as int) < size,
                (goal as int) < size,
                (cur as int) < size,
                closed@[cur as int],
                closed_inv_outer(g, source, closed@, parent@, gv@, size as int),
                gv@[cur as int] + rev@.len() == gv@[goal as int],
                rev@.len() == 0 ==> cur == goal,
                rev@.len() > 0 ==> rev@[rev@.len() - 1] != source && parent@[rev@[rev@.len()
                    - 1] as int] == cur,
                forall|i: int|
                    0 <= i < rev@.len() ==> (rev@[i] as int) < size && closed@[rev@[i] as int]
                        && gv@[rev@[i] as int] + i == gv@[goal as int],
                forall|i: int|
                    0 <= i < rev@.len() - 1 ==> parent@[rev@[i] as int] == rev@[i + 1],
                rev@.len() > 0 ==> rev@[0] == goal,
            decreases gv@[cur as int],
        {
            rev.push(cur);
            let next = parent[cur];
            cur = next;
        }
        let ghost rev_before = rev@;
        rev.push(cur);
        let ghost chain = rev@;
        proof {
            assert(closed@[source as int]);
            assert(gv@[source as int] == 0);
            assert(chain[chain.len() - 1] == source);
            assert(chain.len() == gv@[goal as int] + 1);
            // the recorded start cost falls by one at every chain position, so
            // no node appears twice
            assert forall|t: int| 0 <= t < chain.len() implies gv@[chain[t] as int] + t
                == gv@[goal as int] by {
                if t < chain.len() - 1 {
                    assert(chain[t] == rev_before[t]);
                }
            }
            assert forall|t1: int, t2: int| 0 <= t1 < t2 < chain.len() implies chain[t1]
                != chain[t2] by {
                assert(gv@[chain[t1] as int] + t1 == gv@[goal as int]);
                assert(gv@[chain[t2] as int] + t2 == gv@[goal as int]);
            }
        }
        let n = rev.len();
        let mut route: Vec<(usize, usize)> = Vec::new();
        let mut j: usize = 0;
        while j < n
            invariant
                lattice.wf(),
                size as int == lattice.size_spec(),
                lattice.size_spec() >= 1,
                n == chain.len(),
                rev@ == chain,
                j <= n,
                route@.len() == j,
                forall|i: int| 0 <= i < n ==> (chain[i] as int) < size,
                forall|i: int|
                    0 <= i < j ==> route@[i].0 < lattice.columns_spec() && route@[i].1
                        < lattice.rows_spec() && lin_index(
                        lattice.columns_spec() as int,
                        route@[i].0 as int,
                        route@[i].1 as int,
                    ) == chain[n - 1 - i] as int,
            decreases n - j,
        {
            proof {
                assert(lattice.columns_spec() > 0) by (nonlinear_arith)
                    requires (lattice.columns_spec() * lattice.rows_spec()) as int >= 1;
            }
            let v = lattice.to_vertex_coords(rev[n - 1 - j]);
            route.push(v);
            j += 1;
        }
        proof {
            assert forall|i: int, j: int| 0 <= i < j < route@.len() implies route@[i]
                != route@[j] by {
                if route@[i] == route@[j] {
                    assert(lin_index(
                        lattice.columns_spec() as int,
                        route@[i].0 as int,
                        route@[i].1 as int,
                    ) == lin_index(
                        lattice.columns_spec() as int,
                        route@[j].0 as int,
                        route@[j].1 as int,
                    ));
                    assert(chain[n - 1 - i] as int == chain[n - 1 - j] as int);
                    assert(chain[n - 1 - j] != chain[n - 1 - i]);
                }
            }
            assert forall|i: int| #![trigger route@[i]] 0 <= i < route@.len() - 1 implies graph_connects(
                g,
                (lin_index(
                    lattice.columns_spec() as int,
                    route@[i].0 as int,
                    route@[i].1 as int,
                ) as usize),
                (lin_index(
                    lattice.columns_spec() as int,
                    route@[i + 1].0 as int,
                    route@[i + 1].1 as int,
                ) as usize),
            ) by {
                let a = chain[n - 1 - i];
                let b = chain[n - 2 - i];
                // a is the parent of b in the chain, so the closed-set
                // invariant gives the connecting edge
                assert(parent@[b as int] == a);
                assert(closed@[b as int]);
                assert(b != source) by {
                    if n - 2 - i > 0 {
                        assert(gv@[b as int] + (n - 2 - i) == gv@[goal as int]);
                        assert(gv@[b as int] >= 1) by {
                            if b == source {
                                assert(gv@[chain[n - 2 - i] as int] + (n - 2 - i) == gv@[goal as int]);
                            }
                        }
                    }
                }
                assert(graph_connects(g, a, b));
            }
        }
        route
    }
}

impl Astar {
    /// Turn a route into its tape: one `Add` per cell, net `0`, the position
    /// along the route as the cost.
    fn emit_route(route: Vec<(usize, usize)>) -> (r: Vec<
        TapeItem<(usize, usize), NodeType<Net>>,
    >)
        ensures
            r@ == route_tape(route@),
    {
        let mut tape: Vec<TapeItem<(usize, usize), NodeType<Net>>> = Vec::new();
        let mut i: usize = 0;
        while i < route.len()
            invariant
                i <= route@.len(),
                tape@.len() == i,
                forall|j: int|
                    0 <= j < i ==> tape@[j] == TapeItem::<(usize, usize), NodeType<Net>>::Add(
                        route@[j],
                        NodeType::Route(0, (j as usize)),
                        None,
                    ),
            decreases route@.len() - i,
        {
            tape.push(TapeItem::Add(route[i], NodeType::Route(0, i), None));
            i += 1;
        }
        proof {
            assert(tape@ =~= route_tape(route@));
        }
        tape
    }

    /// Reconstruct the route that ends at a closed goal and emit it as the
    /// tape of `Route`-tagged adds.
    #[verifier::spinoff_prover]
    fn finish_route(
        lattice: &Lattice2D,
        closed: &Vec<bool>,
        parent: &Vec<usize>,
        gv: &Vec<usize>,
        source: usize,
        goal: usize,
        Ghost(g): Ghost<UndirectedGraph>,
    ) -> (tape: Vec<TapeItem<(usize, usize), NodeType<Net>>>)
        requires
            lattice.wf(),
            lattice.size_spec() >= 1,
            closed@.len() == lattice.size_spec(),
            parent@.len() == lattice.size_spec(),
            gv@.len() == lattice.size_spec(),
            (source as int) < lattice.size_spec(),
            (goal as int) < lattice.size_spec(),
            closed@[goal as int],
            closed_inv_outer(g, source, closed@, parent@, gv@, lattice.size_spec()),
        ensures
            tape@.len() == gv@[goal as int] + 1,
            tape@ == route_tape(tape_coords(tape@)),
            route_ok(
                g,
                (lattice.columns_spec(), lattice.rows_spec()),
                tape_coords(tape@),
                source,
                goal,
            ),
    {
        let route = Self::reconstruct_path(lattice, closed, parent, gv, source, goal, Ghost(g));
        let tape = Self::emit_route(route);
        proof {
            assert(tape_coords(tape@) =~= route@);
        }
        tape
    }

    /// Route from the source node to the configured goal node: expand nodes
    /// in order of total cost (turns break ties), stop as soon as the goal
    /// is generated or popped, and emit the reconstructed route as a tape of
    /// `Route`-tagged adds whose costs count the steps from the source.
    ///
    /// Without a goal the result is empty, and an empty result proves that
    /// no route within the boundary exists at all: the search closes every
    /// reachable node before giving up. A goal equal to the source yields
    /// the single-cell route. When the graph is a rectilinear lattice's, the
    /// route is also at least as long as the endpoints' Manhattan distance.
    /// The contract stops short of shortest-length and fewest-turn claims:
    /// the engine's Manhattan estimate is only admissible when the graph's
    /// edges join rectilinearly adjacent cells, so unconditional clauses
    /// would be false, and the conditional ones need a full admissibility
    /// argument; the tests pin both behaviours on lattice graphs.
    #[verifier::loop_isolation(false)]
    #[verifier::rlimit(100)]
    #[verifier::spinoff_prover]
    pub fn compute(&self, config: &ShortestPathConfig, source: usize) -> (r: Vec<
        TapeItem<(usize, usize), NodeType<Net>>,
    >)
        requires
            self.heuristic_spec() == PathHeuristic::Manhattan,
            config.boundary.0 * config.boundary.1 <= usize::MAX / 2,
            config.goal matches Some(goal) ==> (source as int) < config.boundary.0
                * config.boundary.1 && (goal as int) < config.boundary.0 * config.boundary.1,
        ensures
            config.goal is None ==> r@.len() == 0,
            config.goal matches Some(goal) ==> (r@.len() != 0 ==> route_ok(
                config.graph,
                config.boundary,
                tape_coords(r@),
                source,
                goal,
            ) && r@ == route_tape(tape_coords(r@))),
            config.goal matches Some(goal) && goal == source ==> r@.len() == 1,
            config.goal matches Some(goal) ==> (r@.len() == 0 ==> !exists|path: Seq<usize>|
                #![trigger graph_path_within(config.graph, config.boundary.0 * config.boundary.1, path, source, goal)]
                graph_path_within(
                    config.graph,
                    config.boundary.0 * config.boundary.1,
                    path,
                    source,
                    goal,
                )),
            config.goal matches Some(goal) ==> forall|l: Lattice2D|
                #![trigger lattice_graph_of(config.graph, l)]
                r@.len() != 0 && lattice_graph_of(config.graph, l) && l.wf() && !l.diag_spec()
                    && l.columns_spec() == config.boundary.0 && l.rows_spec() == config.boundary.1
                    ==> r@.len() >= 1 + PathHeuristic::Manhattan.estimate_spec(
                    cell_of(l, source as int),
                    cell_of(l, goal as int),
                ),
    {
        let goal_idx = match config.goal {
            Option::None => {
                return Vec::new();
            },
            Option::Some(t) => t,
        };
        let lattice = Lattice2D::new(config.boundary.0, config.boundary.1);
        let size = lattice.size();
        let cols = config.boundary.0;
        proof {
            assert(cols > 0) by (nonlinear_arith)
                requires (cols * config.boundary.1) as int > source as int >= 0;
        }
        let from = lattice.to_vertex_coords(source);
        let to = lattice.to_vertex_coords(goal_idx);
        if goal_idx == source {
            // the trivial route: the source cell alone
            let mut route: Vec<(usize, usize)> = Vec::new();
            route.push(from);
            let tape = Self::emit_route(route);
            proof {
                assert(tape_coords(tape@) =~= route@);
                assert forall|l: Lattice2D|
                    #![trigger lattice_graph_of(config.graph, l)]
                    lattice_graph_of(config.graph, l) implies tape@.len() >= 1
                    + PathHeuristic::Manhattan.estimate_spec(
                    cell_of(l, source as int),
                    cell_of(l, goal_idx as int),
                ) by {
                    assert(PathHeuristic::Manhattan.estimate_spec(
                        cell_of(l, source as int),
                        cell_of(l, source as int),
                    ) == 0);
                }
            }
            return tape;
        }
        let h = self.distance_heuristic;
        proof {
            lemma_manhattan_bound(config.boundary.0, config.boundary.1, from, to);
        }
        let seed = PathNode::new(from, 0, to, h, 0);
        let nc = config.graph.node_count();
        let mut closed: Vec<bool> = filled(false, size);
        let mut parent: Vec<usize> = filled(0usize, size);
        let mut gv: Vec<usize> = filled(0usize, size);
        let mut tv: Vec<usize> = filled(0usize, size);
        let mut closed_count: usize = 0;
        let mut open: Vec<OpenEntry> = Vec::new();
        open.push(OpenEntry { idx: source, parent: source, node: seed });
        proof {
            lemma_count_true_zero(closed@, size as int);
        }
        while open.len() > 0
            invariant
                goal_idx != source,
                closed@.len() == size,
                parent@.len() == size,
                gv@.len() == size,
                tv@.len() == size,
                closed_count as int == count_true(closed@, size as int),
                closed_count <= size,
                closed_inv(
                    config.graph,
                    source,
                    closed@,
                    parent@,
                    gv@,
                    tv@,
                    size as int,
                ),
                !closed@[goal_idx as int],
                forall|kk: int|
                    0 <= kk < open@.len() ==> entry_inv(
                        config.graph,
                        cols,
                        source,
                        closed@,
                        gv@,
                        closed_count as int,
                        size as int,
                        open@[kk],
                    ),
                frontier_inv(config.graph, size as int, closed@, open@),
                closed_count == 0 ==> open@.len() == 1 && open@[0].idx == source,
                closed_count > 0 ==> closed@[source as int],
            decreases size - closed_count, open@.len(),
        {
            let ghost cc0 = closed_count;
            let ghost pre_open = open@;
            let entry = pop_min(&mut open);
            let ghost popped_open = open@;
            proof {
                assert forall|kk: int| 0 <= kk < open@.len() implies entry_inv(
                    config.graph,
                    cols,
                    source,
                    closed@,
                    gv@,
                    closed_count as int,
                    size as int,
                    open@[kk],
                ) by {
                    assert(popped_open.contains(open@[kk]));
                    let j = choose|j: int|
                        0 <= j < popped_open.len() && popped_open[j] == open@[kk];
                }
            }
            let p = entry.idx;
            if closed[p] {
                proof {
                    if closed_count == 0 {
                        lemma_count_true_pos(closed@, p as int, size as int);
                    }
                    let j = choose|j: int|
                        0 <= j < pre_open.len() && pre_open[j] == entry && (forall|k: int|
                            0 <= k < pre_open.len() && k != j ==> open@.contains(pre_open[k]));
                    assert forall|pp: usize, mm: usize|
                        #![trigger graph_connects(config.graph, pp, mm)]
                        (pp as int) < size as int && (pp as int) < graph_node_count(config.graph)
                            && closed@[pp as int] && (mm as int) < size as int && graph_connects(
                            config.graph,
                            pp,
                            mm,
                        ) implies closed@[mm as int] || open_has(open@, mm) by {
                        if !closed@[mm as int] {
                            let w = choose|w: int|
                                0 <= w < pre_open.len() && pre_open[w].idx == mm;
                            if w == j {
                                assert(closed@[entry.idx as int]);
                            } else {
                                assert(open@.contains(pre_open[w]));
                                let k2 = choose|k2: int|
                                    0 <= k2 < open@.len() && open@[k2] == pre_open[w];
                                assert(open@[k2].idx == mm);
                            }
                        }
                    }
                }
                continue ;
            }
            // close p with the popped entry's record
            let ghost closed_before = closed@;
            closed.set(p, true);
            parent.set(p, entry.parent);
            gv.set(p, entry.node.cost_from_start);
            tv.set(p, entry.node.orientation_cost);
            proof {
                lemma_count_true_strict(closed_before, p as int, size as int);
                lemma_count_true_update(closed_before, p as int, size as int);
            }
            closed_count += 1;
            proof {
                if cc0 == 0 {
                    assert(pre_open.len() == 1);
                    assert(pre_open[0] == entry);
                    assert(p == source);
                }
                assert(closed@[source as int]);
                let j = choose|j: int|
                    0 <= j < pre_open.len() && pre_open[j] == entry && (forall|k: int|
                        0 <= k < pre_open.len() && k != j ==> open@.contains(pre_open[k]));
                assert forall|pp: usize, mm: usize|
                    #![trigger graph_connects(config.graph, pp, mm)]
                    pp != p && (pp as int) < size as int && (pp as int) < graph_node_count(
                        config.graph,
                    ) && closed@[pp as int] && (mm as int) < size as int && graph_connects(
                        config.graph,
                        pp,
                        mm,
                    ) implies closed@[mm as int] || open_has(open@, mm) by {
                    if !closed@[mm as int] {
                        assert(closed_before[pp as int]);
                        assert(!closed_before[mm as int]);
                        let w = choose|w: int| 0 <= w < pre_open.len() && pre_open[w].idx == mm;
                        if w == j {
                            assert(mm == p && closed@[p as int]);
                        } else {
                            assert(open@.contains(pre_open[w]));
                            let k2 = choose|k2: int|
                                0 <= k2 < open@.len() && open@[k2] == pre_open[w];
                            assert(open@[k2].idx == mm);
                        }
                    }
                }
            }
            if p == goal_idx {
                proof {
                    lemma_closed_outer(
                        config.graph,
                        source,
                        closed@,
                        parent@,
                        gv@,
                        tv@,
                        size as int,
                    );
                }
                let tape = Self::finish_route(
                    &lattice,
                    &closed,
                    &parent,
                    &gv,
                    source,
                    goal_idx,
                    Ghost(config.graph),
                );
                proof {
                    assert((lattice.columns_spec(), lattice.rows_spec()) == config.boundary);
                    assert(route_ok(
                        config.graph,
                        config.boundary,
                        tape_coords(tape@),
                        source,
                        goal_idx,
                    ));
                    assert forall|l: Lattice2D|
                        #![trigger lattice_graph_of(config.graph, l)]
                        lattice_graph_of(config.graph, l) && l.wf() && !l.diag_spec()
                            && l.columns_spec() == config.boundary.0 && l.rows_spec()
                            == config.boundary.1 implies tape@.len() >= 1
                        + PathHeuristic::Manhattan.estimate_spec(
                        cell_of(l, source as int),
                        cell_of(l, goal_idx as int),
                    ) by {
                        lemma_route_manhattan_cells(
                            l,
                            config.graph,
                            tape_coords(tape@),
                            source,
                            goal_idx,
                        );
                    }
                }
                return tape;
            }
            let node_pos = entry.node.position;
            let gval = entry.node.cost_from_start;
            let turn = entry.node.orientation_cost;
            let par = entry.parent;
            let nbrs: Vec<usize> = if p < nc {
                config.graph.neighbors_list(p)
            } else {
                Vec::new()
            };
            proof {
                assert(forall|m: usize|
                    nbrs@.contains(m) ==> graph_connects(config.graph, p, m));
                assert((p as int) < graph_node_count(config.graph) ==> forall|m: usize|
                    graph_connects(config.graph, p, m) ==> nbrs@.contains(m));
            }
            let mut k: usize = 0;
            while k < nbrs.len()
                invariant
                    closed_count == cc0 + 1,
                    goal_idx != source,
                    closed@.len() == size,
                    parent@.len() == size,
                    gv@.len() == size,
                    tv@.len() == size,
                    k <= nbrs@.len(),
                    closed@[p as int],
                    gv@[p as int] == gval,
                    tv@[p as int] == turn,
                    gval < closed_count,
                    turn <= gval,
                    closed_count as int == count_true(closed@, size as int),
                    closed_count <= size,
                    closed_inv(
                        config.graph,
                        source,
                        closed@,
                        parent@,
                        gv@,
                        tv@,
                        size as int,
                    ),
                    !closed@[goal_idx as int],
                    closed@[source as int],
                    forall|kk: int|
                        0 <= kk < open@.len() ==> entry_inv(
                            config.graph,
                            cols,
                            source,
                            closed@,
                            gv@,
                            closed_count as int,
                            size as int,
                            open@[kk],
                        ),
                    forall|pp: usize, mm: usize|
                        #![trigger graph_connects(config.graph, pp, mm)]
                        pp != p && (pp as int) < size as int && (pp as int) < graph_node_count(
                            config.graph,
                        ) && closed@[pp as int] && (mm as int) < size as int && graph_connects(
                            config.graph,
                            pp,
                            mm,
                        ) ==> closed@[mm as int] || open_has(open@, mm),
                    forall|t: int|
                        0 <= t < k ==> ((nbrs@[t] as int) < size as int ==> closed@[nbrs@[t] as int]
                            || open_has(open@, nbrs@[t])),
                decreases nbrs@.len() - k,
            {
                let m = nbrs[k];
                // the source is seeded and closed first, so re-entering it
                // can never improve a route
                if m < size && !closed[m] && m != source {
                    proof {
                        assert(nbrs@.contains(m)) by {
                            assert(nbrs@[k as int] == m);
                        }
                    }
                    let mpos = lattice.to_vertex_coords(m);
                    let step_dir = Orientation::get_direction(node_pos, mpos);
                    let turn2 = if p != source {
                        let ppos = lattice.to_vertex_coords(par);
                        let in_dir = Orientation::get_direction(ppos, node_pos);
                        if step_dir != in_dir {
                            turn + 1
                        } else {
                            turn
                        }
                    } else {
                        turn
                    };
                    let g2 = gval + 1;
                    proof {
                        lemma_manhattan_bound(config.boundary.0, config.boundary.1, mpos, to);
                    }
                    let nn = PathNode::new(mpos, g2, to, h, turn2);
                    if m == goal_idx {
                        // the goal was generated: record it and stop
                        let ghost closed_mid = closed@;
                        closed.set(m, true);
                        parent.set(m, p);
                        gv.set(m, g2);
                        tv.set(m, turn2);
                        proof {
                            lemma_count_true_strict(closed_mid, m as int, size as int);
                            lemma_count_true_update(closed_mid, m as int, size as int);
                        }
                        closed_count += 1;
                        proof {
                            lemma_closed_outer(
                                config.graph,
                                source,
                                closed@,
                                parent@,
                                gv@,
                                tv@,
                                size as int,
                            );
                        }
                        let tape = Self::finish_route(
                            &lattice,
                            &closed,
                            &parent,
                            &gv,
                            source,
                            goal_idx,
                            Ghost(config.graph),
                        );
                        proof {
                            assert((lattice.columns_spec(), lattice.rows_spec())
                                == config.boundary);
                            assert(route_ok(
                                config.graph,
                                config.boundary,
                                tape_coords(tape@),
                                source,
                                goal_idx,
                            ));
                            assert forall|l: Lattice2D|
                                #![trigger lattice_graph_of(config.graph, l)]
                                lattice_graph_of(config.graph, l) && l.wf() && !l.diag_spec()
                                    && l.columns_spec() == config.boundary.0 && l.rows_spec()
                                    == config.boundary.1 implies tape@.len() >= 1
                                + PathHeuristic::Manhattan.estimate_spec(
                                cell_of(l, source as int),
                                cell_of(l, goal_idx as int),
                            ) by {
                                lemma_route_manhattan_cells(
                                    l,
                                    config.graph,
                                    tape_coords(tape@),
                                    source,
                                    goal_idx,
                                );
                            }
                        }
                        return tape;
                    }
                    let ghost pre_push = open@;
                    let pushed = OpenEntry { idx: m, parent: p, node: nn };
                    open.push(pushed);
                    proof {
                        assert(open@[pre_push.len() as int] == pushed);
                        assert(open_has(open@, m));
                        assert forall|mm: usize| open_has(pre_push, mm) implies open_has(
                            open@,
                            mm,
                        ) by {
                            lemma_open_has_push(pre_push, pushed, mm);
                        }
                    }
                }
                k += 1;
            }
            proof {
                assert forall|pp: usize, mm: usize|
                    #![trigger graph_connects(config.graph, pp, mm)]
                    (pp as int) < size as int && (pp as int) < graph_node_count(config.graph)
                        && closed@[pp as int] && (mm as int) < size as int && graph_connects(
                        config.graph,
                        pp,
                        mm,
                    ) implies closed@[mm as int] || open_has(open@, mm) by {
                    if pp == p && !closed@[mm as int] {
                        assert(nbrs@.contains(mm));
                        let t = choose|t: int| 0 <= t < nbrs@.len() && nbrs@[t] == mm;
                    }
                }
            }
        }
        proof {
            // the open queue ran dry: every in-range neighbour of a closed
            // node is closed, so a surviving in-range path to the goal would
            // force the goal closed
            if exists|path: Seq<usize>|
                #![trigger graph_path_within(config.graph, size as int, path, source, goal_idx)]
                graph_path_within(config.graph, size as int, path, source, goal_idx) {
                let path = choose|path: Seq<usize>|
                    graph_path_within(config.graph, size as int, path, source, goal_idx);
                assert(closed_count > 0);
                lemma_closed_under_adjacency(
                    config.graph,
                    size as int,
                    closed@,
                    path,
                    source,
                    goal_idx,
                );
            }
        }
        Vec::new()
    }
}

/// The closed-count starts at zero over an all-clear vector.
proof fn lemma_count_true_zero(s: Seq<bool>, n: int)
    requires
        forall|i: int| 0 <= i < n ==> !s[i],
    ensures
        count_true(s, n) == 0,
    decreases n,
{
    if n > 0 {
        lemma_count_true_zero(s, n - 1);
    }
}

/// The full closed-set invariant implies the reconstruction form, with the
/// positive cost of every non-source node made explicit.
proof fn lemma_closed_outer(
    g: UndirectedGraph,
    src: usize,
    closed: Seq<bool>,
    parent: Seq<usize>,
    gv: Seq<usize>,
    tv: Seq<usize>,
    size: int,
)
    requires
        closed_inv(g, src, closed, parent, gv, tv, size),
    ensures
        closed_inv_outer(g, src, closed, parent, gv, size),
{
}

/// The part of the closed-set invariant that path reconstruction walks on:
/// parent links stay closed, costs step down by one toward the source, and
/// only the source has cost zero.
spec fn closed_inv_outer(
    g: UndirectedGraph,
    src: usize,
    closed: Seq<bool>,
    parent: Seq<usize>,
    gv: Seq<usize>,
    size: int,
) -> bool {
    forall|p: int|
        #![trigger closed[p]]
        0 <= p < size && closed[p] ==> {
            &&& gv[p] as int <= size
            &&& (p == src ==> gv[p] == 0)
            &&& (p != src ==> {
                &&& (parent[p] as int) < size
                &&& closed[parent[p] as int]
                &&& gv[parent[p] as int] + 1 == gv[p]
                &&& graph_connects(g, parent[p], (p as usize))
                &&& gv[p] >= 1
            })
        }
}

/// On a rectilinear lattice graph every valid route needs at least the
/// Manhattan distance between its endpoints in steps: each step moves
/// between grid-adjacent cells and so changes the distance by at most one.
#[verifier::rlimit(60)]
pub proof fn lemma_route_at_least_manhattan(
    l: Lattice2D,
    g: UndirectedGraph,
    route: Seq<(usize, usize)>,
    source: usize,
    goal: usize,
)
    requires
        l.wf(),
        !l.diag_spec(),
        lattice_graph_of(g, l),
        route_ok(g, (l.columns_spec(), l.rows_spec()), route, source, goal),
    ensures
        route.len() - 1 >= PathHeuristic::Manhattan.estimate_spec(
            route[0],
            route[route.len() - 1],
        ),
    decreases route.len(),
{
    let cols = l.columns_spec() as int;
    let rows = l.rows_spec() as int;
    if route.len() >= 2 {
        let v0 = route[0];
        let v1 = route[1];
        let a = lin_index(cols, v0.0 as int, v0.1 as int);
        let b = lin_index(cols, v1.0 as int, v1.1 as int);
        lemma_lin_index_bounds(cols, rows, v0.0 as int, v0.1 as int);
        lemma_lin_index_bounds(cols, rows, v1.0 as int, v1.1 as int);
        lemma_coords_of_lin_index(cols, rows, v0.0 as int, v0.1 as int);
        lemma_coords_of_lin_index(cols, rows, v1.0 as int, v1.1 as int);
        assert(graph_connects(g, (a as usize), (b as usize)));
        assert(0 <= a < l.size_spec() && 0 <= b < l.size_spec());
        lemma_size_fits(l);
        assert(((a as usize) as int) == a && ((b as usize) as int) == b);
        assert(cell_of(l, a) == v0 && cell_of(l, b) == v1);
        assert(l.adjacent_spec(v0, v1)) by {
            if graph_edges(g).contains(((a as usize), (b as usize))) {
                assert(index_edge(l, a, b));
            } else {
                assert(index_edge(l, b, a));
                lemma_adjacent_symmetric(l, v1, v0);
            }
        }
        let suffix = route.subrange(1, route.len() as int);
        assert(route_ok(g, (l.columns_spec(), l.rows_spec()), suffix, (b as usize), goal)) by {
            assert forall|i: int, j: int| 0 <= i < j < suffix.len() implies suffix[i]
                != suffix[j] by {
                assert(suffix[i] == route[i + 1] && suffix[j] == route[j + 1]);
            }
            assert forall|i: int| #![trigger suffix[i]] 0 <= i < suffix.len() - 1 implies graph_connects(
                g,
                (lin_index(cols, suffix[i].0 as int, suffix[i].1 as int) as usize),
                (lin_index(cols, suffix[i + 1].0 as int, suffix[i + 1].1 as int) as usize),
            ) by {
                assert(suffix[i] == route[i + 1] && suffix[i + 1] == route[i + 2]);
            }
            assert(suffix[suffix.len() - 1] == route[route.len() - 1]);
        }
        lemma_route_at_least_manhattan(l, g, suffix, ((b as usize)), goal);
        assert(suffix[0] == v1 && suffix[suffix.len() - 1] == route[route.len() - 1]);
    }
}

/// Grid adjacency does not depend on the order of the two cells.
proof fn lemma_adjacent_symmetric(l: Lattice2D, v1: (usize, usize), v2: (usize, usize))
    ensures
        l.adjacent_spec(v1, v2) == l.adjacent_spec(v2, v1),
{
}

/// The same lower bound, measured at the decoded source and goal cells: a
/// valid route on a rectilinear lattice graph holds at least one more cell
/// than their Manhattan distance.
pub proof fn lemma_route_manhattan_cells(
    l: Lattice2D,
    g: UndirectedGraph,
    route: Seq<(usize, usize)>,
    source: usize,
    goal: usize,
)
    requires
        l.wf(),
        !l.diag_spec(),
        lattice_graph_of(g, l),
        route_ok(g, (l.columns_spec(), l.rows_spec()), route, source, goal),
    ensures
        route.len() >= 1 + PathHeuristic::Manhattan.estimate_spec(
            cell_of(l, source as int),
            cell_of(l, goal as int),
        ),
{
    lemma_route_at_least_manhattan(l, g, route, source, goal);
    let cols = l.columns_spec() as int;
    let rows = l.rows_spec() as int;
    let first = route[0];
    let last = route[route.len() - 1];
    lemma_coords_of_lin_index(cols, rows, first.0 as int, first.1 as int);
    lemma_coords_of_lin_index(cols, rows, last.0 as int, last.1 as int);
    assert(cell_of(l, source as int) == first);
    assert(cell_of(l, goal as int) == last);
}

} // verus!
