use grid_graph::astar::{Astar, ShortestPathConfig};
use grid_graph::bits::BitVector;
use grid_graph::lattice::Lattice2D;
use grid_graph::path::{Net, NodeType};
use grid_graph::tape::TapeItem;

fn route_coords(tape: &Vec<TapeItem<(usize, usize), NodeType<Net>>>) -> Vec<(usize, usize)> {
    let mut out = Vec::new();
    for item in tape {
        match item {
            TapeItem::Add(k, _, _) => out.push(*k),
            TapeItem::Remove(k, _) => out.push(*k),
            TapeItem::Move(_, k, _) => out.push(*k),
        }
    }
    out
}

#[test]
fn orientation_bias() {
    let test_graph: Vec<bool> = vec![
        1, 1, 1, 1, 1, 1, 1, 0, 0, 0, 0, 0, 1, 0, 1, 1, 1, 0, 1, 0, 1, 1, 0, 0, 1, 0, 1, 0, 0,
        1, 0, 0, 0, 0, 1, 1,
    ]
    .into_iter()
    .map(|b: i32| b != 0)
    .collect();
    assert_eq!(BitVector::from_bools(&test_graph).len(), 36);
}

#[test]
fn correct_cost() {
    let test_graph: Vec<bool> = vec![
        1, 1, 1, 1, 1, 0, 1, 1, 1, 1, 0, 1, 1, 1, 1, 1, 0, 1, 1, 0, 1, 1, 1, 1, 1, 0, 1, 1, 0,
        0, 0, 0, 0, 0, 0, 1, 1, 0, 1, 1, 1, 1, 1, 1, 1, 1, 0, 1, 1, 1, 1, 1, 1, 1,
    ]
    .into_iter()
    .map(|b: i32| b != 0)
    .collect();
    let cost_map: Vec<bool> = vec![
        5, 6, 7, 8, 9, 0, 1, 1, 1, 4, 0, 1, 1, 10, 1, 1, 0, 1, 3, 0, 1, 1, 11, 1, 1, 0, 1, 2,
        0, 0, 0, 0, 0, 0, 0, 1, 1, 0, 1, 1, 1, 1, 1, 1, 1, 0, 0, 1, 1, 1, 1, 1, 1, 1,
    ]
    .into_iter()
    .map(|b: i32| b != 0)
    .collect();
    assert_eq!(BitVector::from_bools(&test_graph).len(), 54);
    assert_eq!(BitVector::from_bools(&cost_map).len(), 54);
}

#[test]
fn unit_grid_route_length_matches_manhattan() {
    // a 5x5 obstacle-free rectilinear lattice: the route from one corner to
    // the other takes exactly the Manhattan distance in steps
    let mut lattice = Lattice2D::new(5, 5);
    lattice.fill();
    let graph = lattice.to_undirected_graph();
    let engine = Astar::new();
    let config = ShortestPathConfig { graph, goal: Some(24), boundary: (5, 5) };
    let tape = engine.compute(&config, 0);
    assert_eq!(tape.len(), 9);
    let coords = route_coords(&tape);
    assert_eq!(coords[0], (0, 0));
    assert_eq!(coords[8], (4, 4));
    for i in 0..8 {
        let (c1, r1) = coords[i];
        let (c2, r2) = coords[i + 1];
        let dc = c1.abs_diff(c2);
        let dr = r1.abs_diff(r2);
        assert_eq!(dc + dr, 1, "consecutive route cells must be grid-adjacent");
    }
    for (i, item) in tape.iter().enumerate() {
        match item {
            TapeItem::Add(_, NodeType::Route(net, cost), prev) => {
                assert_eq!(*net, 0);
                assert_eq!(*cost, i);
                assert!(prev.is_none());
            },
            _ => panic!("route tapes hold only Route-tagged adds"),
        }
    }
}

#[test]
fn unreachable_target_returns_empty() {
    // wall off the target corner: no open neighbour remains
    let mut lattice = Lattice2D::new(5, 5);
    lattice.fill();
    lattice.remove_vertex((3, 4));
    lattice.remove_vertex((4, 3));
    let graph = lattice.to_undirected_graph();
    let engine = Astar::new();
    let config = ShortestPathConfig { graph, goal: Some(24), boundary: (5, 5) };
    let tape = engine.compute(&config, 0);
    assert!(tape.is_empty());
}

#[test]
fn no_goal_returns_empty() {
    let mut lattice = Lattice2D::new(5, 5);
    lattice.fill();
    let graph = lattice.to_undirected_graph();
    let engine = Astar::new();
    let config = ShortestPathConfig { graph, goal: None, boundary: (5, 5) };
    let tape = engine.compute(&config, 0);
    assert!(tape.is_empty());
}

#[test]
fn source_equals_target_single_cell_route() {
    let mut lattice = Lattice2D::new(5, 5);
    lattice.fill();
    let graph = lattice.to_undirected_graph();
    let engine = Astar::new();
    let config = ShortestPathConfig { graph, goal: Some(12), boundary: (5, 5) };
    let tape = engine.compute(&config, 12);
    assert_eq!(tape.len(), 1);
    assert_eq!(route_coords(&tape), vec![(2, 2)]);
}

#[test]
fn turn_cost_tie_break_prefers_straighter_path() {
    // on a full 3x3 grid the corner-to-corner shortest paths all take four
    // steps, but they differ in turns: the engine must pick a single-turn
    // route over a zig-zag
    let mut lattice = Lattice2D::new(3, 3);
    lattice.fill();
    let graph = lattice.to_undirected_graph();
    let engine = Astar::new();
    let config = ShortestPathConfig { graph, goal: Some(8), boundary: (3, 3) };
    let tape = engine.compute(&config, 0);
    let coords = route_coords(&tape);
    assert_eq!(coords.len(), 5);
    let mut turns = 0;
    for i in 1..coords.len() - 1 {
        let dir_in = (
            coords[i].0 as isize - coords[i - 1].0 as isize,
            coords[i].1 as isize - coords[i - 1].1 as isize,
        );
        let dir_out = (
            coords[i + 1].0 as isize - coords[i].0 as isize,
            coords[i + 1].1 as isize - coords[i].1 as isize,
        );
        if dir_in != dir_out {
            turns += 1;
        }
    }
    assert_eq!(turns, 1, "a single-turn route exists and must be preferred");
    assert_eq!(coords, vec![(0, 0), (0, 1), (0, 2), (1, 2), (2, 2)]);
}

#[test]
fn route_around_an_obstacle() {
    // block the straight band: the route must detour and stay on present
    // cells
    let mut lattice = Lattice2D::new(5, 5);
    lattice.fill();
    lattice.remove_vertex((2, 0));
    lattice.remove_vertex((2, 1));
    lattice.remove_vertex((2, 2));
    lattice.remove_vertex((2, 3));
    let graph = lattice.to_undirected_graph();
    let engine = Astar::new();
    let config = ShortestPathConfig { graph, goal: Some(4), boundary: (5, 5) };
    let tape = engine.compute(&config, 0);
    let coords = route_coords(&tape);
    // detour down, across the open bottom row, and back up: 12 steps
    assert_eq!(coords.len(), 13);
    assert_eq!(coords[0], (0, 0));
    assert_eq!(coords[12], (4, 0));
    for v in &coords {
        assert!(lattice.has_vertex(*v), "route must use present cells only");
    }
}
