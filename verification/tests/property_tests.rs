use grid_graph::bits::BitVector;
use grid_graph::common::{Orientation, SignalDirection};
use grid_graph::lattice::Lattice2D;
use grid_graph::path::PathHeuristic;
use grid_graph::path::PathNode;
use grid_graph::{GridAction, GridIndex, GridState, PointKey};

#[test]
fn vertex_index_bijection_samples() {
    let lattice = Lattice2D::new(7, 4);
    for col in 0..7 {
        for row in 0..4 {
            let index = lattice.to_vertex_index(col, row);
            assert_eq!(lattice.to_vertex_coords(index), (col, row));
        }
    }
    for index in 0..28 {
        let (col, row) = lattice.to_vertex_coords(index);
        assert_eq!(lattice.to_vertex_index(col, row), index);
    }
}

#[test]
fn bitvec_round_trip_asymmetric() {
    // a non-square grid with a pattern that is not transpose-symmetric, so a
    // row/column-major mixup would be caught
    let mut lattice = Lattice2D::new(4, 3);
    let bits: Vec<bool> = vec![
        true, false, false, true, false, true, false, false, true, true, false, true,
    ];
    lattice.add_vertex_vector(BitVector::from_bools(&bits));
    assert_eq!(lattice.as_bitvec().to_bools(), bits);
}

#[test]
fn vector_length_mismatch_is_rejected() {
    let mut lattice = Lattice2D::new(4, 3);
    lattice.fill();
    let short: Vec<bool> = vec![true; 11];
    assert_eq!(lattice.add_vertex_vector(BitVector::from_bools(&short)), 0);
    assert_eq!(lattice.remove_vertex_vector(BitVector::from_bools(&short)), 0);
    assert!(lattice.is_full());
}

#[test]
fn rebalance_keeps_exclusions_at_most_half() {
    let mut lattice = Lattice2D::new(6, 6);
    let size = lattice.size();
    assert!(2 * lattice.stored_exclusions() <= size);
    lattice.fill();
    assert!(2 * lattice.stored_exclusions() <= size);
    for col in 0..6 {
        for row in 0..6 {
            lattice.remove_vertex((col, row));
            assert!(
                2 * lattice.stored_exclusions() <= size,
                "the stored set may never exceed half the grid"
            );
        }
    }
    for col in 0..6 {
        lattice.add_vertex_area((col, 0), (col, 5));
        assert!(2 * lattice.stored_exclusions() <= size);
    }
    lattice.remove_border();
    assert!(2 * lattice.stored_exclusions() <= size);
    lattice.resize(4, 9);
    assert!(2 * lattice.stored_exclusions() <= 36);
}

#[test]
fn rebalance_preserves_membership() {
    let mut dense = Lattice2D::new(4, 4);
    dense.fill();
    dense.remove_vertex((1, 1));
    let mut sparse = Lattice2D::new(4, 4);
    for col in 0..4 {
        for row in 0..4 {
            if (col, row) != (1, 1) {
                sparse.add_vertex((col, row));
            }
        }
    }
    // the two lattices reached the same present set along different edit
    // histories, whatever representation each holds internally
    assert!(dense.same_vertices(&sparse));
    dense.rebalance();
    assert!(dense.same_vertices(&sparse));
    for col in 0..4 {
        for row in 0..4 {
            assert_eq!(dense.has_vertex((col, row)), (col, row) != (1, 1));
        }
    }
}

#[test]
fn connectivity_is_symmetric() {
    let mut lattice = Lattice2D::new(4, 4).with_diagonal();
    lattice.fill();
    lattice.remove_vertex((2, 1));
    for a in 0..16 {
        for b in 0..16 {
            let va = lattice.to_vertex_coords(a);
            let vb = lattice.to_vertex_coords(b);
            assert_eq!(lattice.has_edge(va, vb), lattice.has_edge(vb, va));
        }
    }
}

#[test]
fn neighbours_match_has_edge() {
    let mut lattice = Lattice2D::new(4, 4).with_diagonal();
    lattice.fill();
    lattice.remove_vertex((2, 2));
    lattice.remove_vertex((0, 1));
    for a in 0..16 {
        let va = lattice.to_vertex_coords(a);
        let listed = lattice.neighbours(va);
        for b in 0..16 {
            let vb = lattice.to_vertex_coords(b);
            let expected = lattice.has_edge(va, vb) && lattice.has_vertex(va);
            assert_eq!(listed.contains(&vb), expected, "cells {va:?} and {vb:?}");
        }
    }
}

#[test]
fn neighbour_enumeration_order() {
    // left, top-left, bottom-left, right, top-right, bottom-right, top,
    // bottom
    let mut lattice = Lattice2D::new(3, 3).with_diagonal();
    lattice.fill();
    assert_eq!(
        lattice.neighbours((1, 1)),
        vec![(0, 1), (0, 0), (0, 2), (2, 1), (2, 0), (2, 2), (1, 0), (1, 2)]
    );
    lattice.disable_diagonal();
    assert_eq!(lattice.neighbours((1, 1)), vec![(0, 1), (2, 1), (1, 0), (1, 2)]);
    lattice.remove_vertex((1, 1));
    assert_eq!(lattice.neighbours((1, 1)), vec![]);
}

#[test]
fn csr_edge_counts_for_full_grids() {
    let mut rect = Lattice2D::new(5, 5);
    rect.fill();
    assert_eq!(rect.to_undirected_graph().edge_count(), 40);
    let mut oct = Lattice2D::new(5, 5).with_diagonal();
    oct.fill();
    // 40 rectilinear edges plus two diagonals in each of the 16 unit squares
    assert_eq!(oct.to_undirected_graph().edge_count(), 72);
    let mut small = Lattice2D::new(3, 3);
    small.fill();
    assert_eq!(small.to_undirected_graph().edge_count(), 12);
    assert_eq!(oct.to_directed_graph().edge_count(), 144);
    assert_eq!(rect.to_directed_graph().edge_count(), 80);
}

#[test]
fn out_of_bounds_edits_have_no_effect() {
    let mut lattice = Lattice2D::new(3, 3);
    assert!(!lattice.add_vertex((3, 0)));
    assert!(!lattice.add_vertex((0, 3)));
    assert!(!lattice.remove_vertex((5, 5)));
    assert_eq!(lattice.add_vertex_area((0, 0), (3, 3)), 0);
    assert_eq!(lattice.remove_vertex_area((4, 0), (4, 2)), 0);
    assert_eq!(lattice.add_vertex_perimeter((0, 0), (0, 3)), 0);
    assert_eq!(lattice.remove_vertex_perimeter((0, 0), (3, 0)), 0);
    assert!(lattice.is_empty());
}

#[test]
fn single_vertex_return_reports_stored_change() {
    let mut lattice = Lattice2D::new(3, 3);
    assert!(lattice.add_vertex((1, 1)));
    assert!(!lattice.add_vertex((1, 1)), "an already-present cell changes nothing");
    assert!(lattice.remove_vertex((1, 1)));
    assert!(!lattice.remove_vertex((1, 1)), "an already-absent cell changes nothing");
}

#[test]
fn area_and_perimeter_counts() {
    let mut lattice = Lattice2D::new(5, 5);
    assert_eq!(lattice.add_vertex_area((1, 1), (3, 3)), 9);
    assert_eq!(lattice.add_vertex_area((1, 1), (3, 3)), 0);
    assert_eq!(lattice.remove_vertex_area((2, 2), (3, 3)), 4);
    lattice.clear();
    assert_eq!(lattice.add_vertex_perimeter((1, 1), (3, 3)), 8);
    assert!(!lattice.has_vertex((2, 2)), "a perimeter edit leaves the interior alone");
    lattice.clear();
    assert_eq!(lattice.add_border(), 16);
    assert_eq!(lattice.remove_border(), 16);
    assert!(lattice.is_empty());
}

#[test]
fn clear_fill_invert_and_counts() {
    let mut lattice = Lattice2D::new(4, 3);
    assert!(!lattice.clear(), "clearing an empty lattice changes nothing");
    assert!(lattice.fill());
    assert!(lattice.is_full());
    assert_eq!(lattice.vertices_len(), 12);
    assert!(!lattice.fill());
    lattice.remove_vertex((0, 0));
    assert_eq!(lattice.vertices_len(), 11);
    lattice.invert();
    assert_eq!(lattice.vertices_len(), 1);
    assert!(lattice.has_vertex((0, 0)));
    assert!(lattice.clear());
    assert!(lattice.is_empty());
}

#[test]
fn resize_reports_truncation() {
    let mut lattice = Lattice2D::new(4, 4);
    lattice.add_vertex((3, 3));
    lattice.add_vertex((0, 0));
    assert!(lattice.resize(3, 3), "a present cell fell outside the new extent");
    assert!(lattice.has_vertex((0, 0)));
    assert!(!lattice.has_vertex((3, 3)));
    assert!(!lattice.resize(5, 5), "growing truncates nothing");
    assert!(!lattice.has_vertex((4, 4)), "grown cells start absent");
    let mut full = Lattice2D::new(3, 3);
    full.fill();
    assert!(!full.resize(4, 4));
    assert!(full.has_vertex((2, 2)));
    assert!(!full.has_vertex((3, 3)), "cells grown onto a dense lattice stay absent");
}

#[test]
fn is_area_obstructed_reports_presence() {
    let mut lattice = Lattice2D::new(5, 5);
    lattice.add_vertex((2, 3));
    assert!(lattice.is_area_obstructed((0, 0), (4, 4)));
    assert!(lattice.is_area_obstructed((2, 3), (2, 3)));
    assert!(!lattice.is_area_obstructed((0, 0), (4, 2)));
    assert!(!lattice.is_area_obstructed((3, 0), (4, 4)));
}

#[test]
fn heuristic_values() {
    let from = (1, 2);
    let to = (4, 6);
    assert_eq!(PathHeuristic::Manhattan.cost_estimate(from, to), 7);
    // deliberately the squared distance: no square root is taken
    assert_eq!(PathHeuristic::Euclidean.cost_estimate(from, to), 25);
    // both named metrics currently compute the larger coordinate distance
    assert_eq!(PathHeuristic::Octile.cost_estimate(from, to), 4);
    assert_eq!(PathHeuristic::Chebyshev.cost_estimate(from, to), 4);
    assert_eq!(PathHeuristic::Zero.cost_estimate(from, to), 0);
    assert_eq!(PathHeuristic::Manhattan.cost_estimate(to, from), 7);
    assert_eq!(PathHeuristic::Manhattan.cost_estimate(to, to), 0);
}

#[test]
fn path_node_builders_and_order() {
    let node = PathNode::new((0, 0), 3, (2, 2), PathHeuristic::Manhattan, 1);
    assert_eq!(node.position, (0, 0));
    assert_eq!(node.cost_from_start, 3);
    assert_eq!(node.cost_to_target, Some(4));
    assert_eq!(node.cost_total, 7);
    assert_eq!(node.orientation_cost, 1);

    let base = PathNode::base((1, 1));
    assert_eq!(base.cost_from_start, 0);
    assert_eq!(base.cost_to_target, None);
    assert_eq!(base.cost_total, 0);

    let built = PathNode::base((1, 1))
        .with_start_cost(2)
        .with_cost_estimation((1, 4), PathHeuristic::Manhattan)
        .with_orientation_cost(5);
    assert_eq!(built.cost_from_start, 2);
    assert_eq!(built.cost_to_target, Some(3));
    assert_eq!(built.cost_total, 5);
    assert_eq!(built.orientation_cost, 5);

    // identity is by position alone; order is by total cost, then turns
    let other = PathNode::new((0, 0), 9, (5, 5), PathHeuristic::Zero, 9);
    assert_eq!(node, other);
    let cheaper = PathNode::new((3, 3), 1, (2, 2), PathHeuristic::Zero, 0);
    assert!(cheaper < node);
    let same_cost_fewer_turns = PathNode::new((4, 4), 7, (4, 4), PathHeuristic::Zero, 0);
    assert!(same_cost_fewer_turns < node);
}

#[test]
fn orientation_direction() {
    assert_eq!(Orientation::get_direction((2, 3), (3, 3)), Orientation::Horizontal);
    assert_eq!(Orientation::get_direction((3, 3), (2, 3)), Orientation::Horizontal);
    assert_eq!(Orientation::get_direction((3, 3), (3, 4)), Orientation::Vertical);
    // a diagonal step counts as horizontal: the columns differ by one
    assert_eq!(Orientation::get_direction((0, 0), (1, 1)), Orientation::Horizontal);
    // a longer jump counts as vertical, whatever its direction
    assert_eq!(Orientation::get_direction((0, 0), (2, 0)), Orientation::Vertical);
}

#[test]
fn signal_direction_predicates() {
    assert!(SignalDirection::Input.is_input());
    assert!(!SignalDirection::Output.is_input());
    assert!(SignalDirection::Output.is_output());
    assert!(SignalDirection::Clock.is_clk());
    assert!(SignalDirection::Supply.is_power());
    assert!(SignalDirection::Ground.is_power());
    assert!(!SignalDirection::Unspecified.is_power());
}

#[test]
fn grid_index_neighbours() {
    let origin = GridIndex::new(4, 7);
    assert_eq!(origin.above(), GridIndex::new(3, 7));
    assert_eq!(origin.below(), GridIndex::new(5, 7));
    assert_eq!(origin.left(), GridIndex::new(4, 6));
    assert_eq!(origin.right(), GridIndex::new(4, 8));
    let rect = origin.neighbors_rectilinear();
    assert_eq!(
        rect,
        [
            GridIndex::new(3, 7),
            GridIndex::new(5, 7),
            GridIndex::new(4, 6),
            GridIndex::new(4, 8)
        ]
    );
    let diag = origin.neighbors_diagonal();
    assert_eq!(
        diag,
        [
            GridIndex::new(3, 6),
            GridIndex::new(3, 8),
            GridIndex::new(5, 6),
            GridIndex::new(5, 8)
        ]
    );
}

#[test]
fn grid_state_and_point_key() {
    assert_eq!(GridState::Running(GridAction::Add), GridState::Running(GridAction::Add));
    assert_ne!(GridState::Idle, GridState::Disabled);
    assert_eq!(PointKey::new(3, -4), PointKey { x: 3, y: -4 });
    assert_eq!(PointKey::default(), PointKey::new(0, 0));
}

#[test]
fn render_shows_every_connector_kind() {
    let mut lattice = Lattice2D::new(3, 3).with_diagonal();
    lattice.fill();
    let picture = lattice.render();
    assert!(picture.contains('-'), "right connector");
    assert!(picture.contains('|'), "down connector");
    assert!(picture.contains('x'), "crossing diagonals");
    let mut corner = Lattice2D::new(3, 3).with_diagonal();
    corner.add_vertex((0, 0));
    corner.add_vertex((1, 1));
    let down_right = corner.render();
    assert!(down_right.contains('\\'), "down-right connector");
    let mut anti = Lattice2D::new(3, 3).with_diagonal();
    anti.add_vertex((1, 0));
    anti.add_vertex((0, 1));
    let down_left = anti.render();
    assert!(down_left.contains('/'), "down-left connector");
}

#[test]
fn same_vertices_ignores_representation_and_bounds() {
    let mut a = Lattice2D::new(2, 3);
    let mut b = Lattice2D::new(3, 2);
    assert!(a.same_vertices(&b), "two empty lattices hold the same set");
    a.add_vertex((1, 1));
    assert!(!a.same_vertices(&b));
    b.add_vertex((1, 1));
    assert!(a.same_vertices(&b));
}

#[test]
fn vertices_lists_present_cells_in_canonical_order() {
    let mut lattice = Lattice2D::new(3, 3);
    lattice.add_vertex((2, 0));
    lattice.add_vertex((0, 2));
    lattice.add_vertex((1, 1));
    assert_eq!(lattice.vertices(), vec![(2, 0), (1, 1), (0, 2)]);
    assert_eq!(lattice.vertices().len(), lattice.vertices_len());
    lattice.fill();
    assert_eq!(lattice.vertices().len(), 9);
    lattice.clear();
    assert_eq!(lattice.vertices(), vec![]);
}

#[test]
fn area_and_perimeter_listings() {
    let lattice = Lattice2D::new(5, 5);
    assert_eq!(
        lattice.area((1, 1), (2, 3)),
        vec![(1, 1), (1, 2), (1, 3), (2, 1), (2, 2), (2, 3)]
    );
    assert_eq!(lattice.area((2, 2), (2, 2)), vec![(2, 2)]);
    assert_eq!(lattice.area((3, 3), (2, 2)), vec![]);
    assert_eq!(
        lattice.perimeter((1, 1), (3, 3)),
        vec![(1, 1), (1, 2), (1, 3), (2, 1), (2, 3), (3, 1), (3, 2), (3, 3)]
    );
    assert_eq!(lattice.perimeter((0, 0), (1, 1)), vec![(0, 0), (0, 1), (1, 0), (1, 1)]);
    assert_eq!(lattice.perimeter((4, 4), (4, 4)), vec![(4, 4)]);
}

#[test]
fn render_length_formula_on_a_wide_grid() {
    // wider than any hand-drawn grid: two text lines per row, each one row
    // digit plus 1200 cells of four index digits in seven bytes, plus the
    // line's own newline
    let lattice = Lattice2D::new(1200, 2);
    assert_eq!(lattice.render().len(), 2 + 4 * (1 + 1200 * 7 + 1));
}

#[test]
fn render_zero_extent() {
    let nothing = Lattice2D::new(0, 0);
    assert_eq!(nothing.render(), "\r\n");
    let no_rows = Lattice2D::new(3, 0);
    assert_eq!(no_rows.render(), "\r\n");
    // rows without columns still draw their headers on empty lines
    let no_cols = Lattice2D::new(0, 2);
    assert_eq!(no_cols.render(), "\r\n \n0\n \n1\n");
}
