//! The path-cost model of the search engine: distance heuristics and the
//! per-cell working node that carries path costs and the turn tie-break.

use vstd::prelude::*;
use core::cmp::Ordering;

use crate::lattice::abs_diff_int;

verus! {

/// The identity of a routed net.
pub type Net = usize;

/// A path cost, in unit steps.
pub type Cost = usize;

/// A distance estimate between two grid cells, used to bias the search
/// toward the target.
#[derive(Copy, Clone, Eq, PartialEq, Structural, Debug)]
pub enum PathHeuristic {
    Manhattan,
    /// Deliberately the squared straight-line distance, with no square root:
    /// a monotone proxy for the true Euclidean distance.
    Euclidean,
    /// Computed identically to `Chebyshev`: the larger coordinate distance.
    Octile,
    /// Computed identically to `Octile`: the larger coordinate distance.
    Chebyshev,
    /// A zero estimate, which reduces the search to uniform-cost order.
    Zero,
}

impl PathHeuristic {
    /// The value of the estimate, per variant.
    pub open spec fn estimate_spec(self, from: (usize, usize), to: (usize, usize)) -> int {
        let dc = abs_diff_int(from.0 as int, to.0 as int);
        let dr = abs_diff_int(from.1 as int, to.1 as int);
        match self {
            PathHeuristic::Manhattan => dc + dr,
            PathHeuristic::Euclidean => dc * dc + dr * dr,
            PathHeuristic::Octile => if dc >= dr {
                dc
            } else {
                dr
            },
            PathHeuristic::Chebyshev => if dc >= dr {
                dc
            } else {
                dr
            },
            PathHeuristic::Zero => 0,
        }
    }

    /// The estimated cost from one cell to another.
    pub fn cost_estimate(&self, from: (usize, usize), to: (usize, usize)) -> (r: usize)
        requires
            self.estimate_spec(from, to) <= usize::MAX,
        ensures
            r as int == self.estimate_spec(from, to),
    {
        let dc = if from.0 >= to.0 {
            from.0 - to.0
        } else {
            to.0 - from.0
        };
        let dr = if from.1 >= to.1 {
            from.1 - to.1
        } else {
            to.1 - from.1
        };
        match self {
            PathHeuristic::Manhattan => dc + dr,
            PathHeuristic::Euclidean => {
                proof {
                    assert(dc * dc <= dc * dc + dr * dr && dr * dr <= dc * dc + dr * dr)
                        by (nonlinear_arith);
                }
                dc * dc + dr * dr
            },
            PathHeuristic::Octile => if dc >= dr {
                dc
            } else {
                dr
            },
            PathHeuristic::Chebyshev => if dc >= dr {
                dc
            } else {
                dr
            },
            PathHeuristic::Zero => 0,
        }
    }
}

/// A search working node: a grid position with its path costs. Identity is
/// the position alone; the ordering is by total cost, then by accumulated
/// turns.
#[derive(Copy, Clone, Debug, Eq)]
pub struct PathNode {
    /// The cell this node stands for.
    pub position: (usize, usize),
    /// The exact cost of the best known path from the source (g).
    pub cost_from_start: usize,
    /// The heuristic estimate to the target (h); absent for a bare seed.
    pub cost_to_target: Option<usize>,
    /// The ordering key (f = g + h; 0 when h is absent).
    pub cost_total: usize,
    /// Direction changes accumulated along the best known path.
    pub orientation_cost: usize,
}

impl PathNode {
    /// A node with its estimate computed from the heuristic.
    pub fn new(
        from: (usize, usize),
        cost_from_start: usize,
        to: (usize, usize),
        distance_heuristic: PathHeuristic,
        orientation_cost: usize,
    ) -> (r: Self)
        requires
            cost_from_start + distance_heuristic.estimate_spec(from, to) <= usize::MAX,
        ensures
            r.position == from,
            r.cost_from_start == cost_from_start,
            r.cost_to_target == Some(
                (distance_heuristic.estimate_spec(from, to) as usize),
            ),
            r.cost_total as int == cost_from_start + distance_heuristic.estimate_spec(from, to),
            r.orientation_cost == orientation_cost,
    {
        let cost_to_target = distance_heuristic.cost_estimate(from, to);
        let cost_ord = cost_from_start + cost_to_target;
        Self {
            position: from,
            cost_from_start,
            cost_to_target: Some(cost_to_target),
            cost_total: cost_ord,
            orientation_cost,
        }
    }

    /// A bare seed node: zero costs, no estimate.
    pub fn base(from: (usize, usize)) -> (r: Self)
        ensures
            r.position == from,
            r.cost_from_start == 0,
            r.cost_to_target is None,
            r.cost_total == 0,
            r.orientation_cost == 0,
    {
        PathNode {
            position: from,
            cost_from_start: 0,
            cost_to_target: None,
            cost_total: 0,
            orientation_cost: 0,
        }
    }

    /// The same node with the start cost replaced.
    pub fn with_start_cost(self, cost_start: usize) -> (r: Self)
        ensures
            r == (PathNode { cost_from_start: cost_start, ..self }),
    {
        let mut node = self;
        node.cost_from_start = cost_start;
        node
    }

    /// The same node with the estimate to `to` recomputed and the total cost
    /// refreshed.
    pub fn with_cost_estimation(self, to: (usize, usize), distance_heuristic: PathHeuristic) -> (r:
        Self)
        requires
            self.cost_from_start + distance_heuristic.estimate_spec(self.position, to)
                <= usize::MAX,
        ensures
            r.position == self.position,
            r.cost_from_start == self.cost_from_start,
            r.cost_to_target == Some(
                (distance_heuristic.estimate_spec(self.position, to) as usize),
            ),
            r.cost_total as int == self.cost_from_start + distance_heuristic.estimate_spec(
                self.position,
                to,
            ),
            r.orientation_cost == self.orientation_cost,
    {
        let target_cost = distance_heuristic.cost_estimate(self.position, to);
        let mut node = self;
        node.cost_to_target = Some(target_cost);
        node.cost_total = node.cost_from_start + target_cost;
        node
    }

    /// The same node with the turn count replaced.
    pub fn with_orientation_cost(self, orientation_cost: usize) -> (r: Self)
        ensures
            r == (PathNode { orientation_cost, ..self }),
    {
        let mut node = self;
        node.orientation_cost = orientation_cost;
        node
    }

    /// Whether this node orders strictly before `other` in the expansion
    /// queue: lower total cost, or an equal total cost with fewer turns.
    pub open spec fn lex_before(self, other: PathNode) -> bool {
        self.cost_total < other.cost_total || (self.cost_total == other.cost_total
            && self.orientation_cost < other.orientation_cost)
    }
}

impl PartialEq for PathNode {
    /// Node identity is the grid position alone, independent of costs.
    fn eq(&self, other: &Self) -> (r: bool) {
        self.position.0 == other.position.0 && self.position.1 == other.position.1
    }
}

impl vstd::std_specs::cmp::PartialEqSpecImpl for PathNode {
    open spec fn obeys_eq_spec() -> bool {
        true
    }

    open spec fn eq_spec(&self, other: &PathNode) -> bool {
        self.position == other.position
    }
}

impl PartialOrd for PathNode {
    /// Queue order: total cost first, accumulated turns as the tie-break.
    fn partial_cmp(&self, other: &Self) -> (r: Option<Ordering>) {
        if self.cost_total < other.cost_total {
            Some(Ordering::Less)
        } else if self.cost_total > other.cost_total {
            Some(Ordering::Greater)
        } else if self.orientation_cost < other.orientation_cost {
            Some(Ordering::Less)
        } else if self.orientation_cost > other.orientation_cost {
            Some(Ordering::Greater)
        } else {
            Some(Ordering::Equal)
        }
    }
}

impl vstd::std_specs::cmp::PartialOrdSpecImpl for PathNode {
    open spec fn obeys_partial_cmp_spec() -> bool {
        true
    }

    open spec fn partial_cmp_spec(&self, other: &PathNode) -> Option<Ordering> {
        if self.cost_total < other.cost_total {
            Some(Ordering::Less)
        } else if self.cost_total > other.cost_total {
            Some(Ordering::Greater)
        } else if self.orientation_cost < other.orientation_cost {
            Some(Ordering::Less)
        } else if self.orientation_cost > other.orientation_cost {
            Some(Ordering::Greater)
        } else {
            Some(Ordering::Equal)
        }
    }
}

/// What a routed grid cell holds, as handed to the presentation layer.
#[derive(Copy, Clone, Debug)]
pub enum NodeType<Net> {
    Obstacle,
    Boundary,
    Start(Net),
    Target(Net),
    Unresolved(Cost),
    Resolved(Cost),
    Route(Net, Cost),
}

impl NodeType<Net> {
    /// The net the cell belongs to, for the variants that carry one.
    pub fn get_net(&self) -> (r: Option<&Net>)
        ensures
            match *self {
                NodeType::Start(n) => r == Some(&n),
                NodeType::Target(n) => r == Some(&n),
                NodeType::Route(n, _) => r == Some(&n),
                _ => r is None,
            },
    {
        match self {
            Self::Start(net) => Some(net),
            Self::Target(net) => Some(net),
            Self::Route(net, _) => Some(net),
            _ => None,
        }
    }

    /// The path cost the cell carries, for the variants that have one.
    pub fn get_cost(&self) -> (r: Option<&Cost>)
        ensures
            match *self {
                NodeType::Unresolved(c) => r == Some(&c),
                NodeType::Resolved(c) => r == Some(&c),
                NodeType::Route(_, c) => r == Some(&c),
                _ => r is None,
            },
    {
        match self {
            Self::Unresolved(cost) => Some(cost),
            Self::Resolved(cost) => Some(cost),
            Self::Route(_, cost) => Some(cost),
            _ => None,
        }
    }
}

} // verus!
