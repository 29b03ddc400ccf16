use grid_graph::bits::BitVector;
use grid_graph::graph::UndirectedGraph;
use grid_graph::lattice::Lattice2D;

fn assert_same_graph(result: &UndirectedGraph, expected: &UndirectedGraph, size: usize) {
    for node in 0..size {
        let result_neighbours: Vec<usize> = result.neighbors_list(node);
        let expected_neighbours: Vec<usize> = expected.neighbors_list(node);
        assert_eq!(result_neighbours, expected_neighbours, "node: {node}");
    }
    assert_eq!(result.node_count(), expected.node_count());
    assert_eq!(result.edge_count(), expected.edge_count());
}

#[test]
fn to_vertex_index_3x3() {
    let lattice = Lattice2D::new(3, 3);
    let index_list = vec![0, 1, 2, 3, 4, 5, 6, 7, 8];
    let coord_list = vec![
        (0, 0),
        (1, 0),
        (2, 0),
        (0, 1),
        (1, 1),
        (2, 1),
        (0, 2),
        (1, 2),
        (2, 2),
    ];
    for ((col, row), expected_index) in coord_list.iter().zip(index_list.iter()) {
        let index = lattice.to_vertex_index(*col, *row);
        assert_eq!(index, *expected_index);
    }
}

#[test]
fn to_vertex_index_4x3() {
    let lattice = Lattice2D::new(4, 3);
    let index_list = vec![0, 1, 2, 3, 4, 5, 6, 7, 8, 9, 10, 11];
    let coord_list = vec![
        (0, 0),
        (1, 0),
        (2, 0),
        (3, 0),
        (0, 1),
        (1, 1),
        (2, 1),
        (3, 1),
        (0, 2),
        (1, 2),
        (2, 2),
        (3, 2),
    ];
    for ((col, row), expected_index) in coord_list.iter().zip(index_list.iter()) {
        let index = lattice.to_vertex_index(*col, *row);
        assert_eq!(index, *expected_index);
    }
}

#[test]
fn to_vertex_index_3x4() {
    let lattice = Lattice2D::new(3, 4);
    let index_list = vec![0, 1, 2, 3, 4, 5, 6, 7, 8, 9, 10, 11];
    let coord_list = vec![
        (0, 0),
        (1, 0),
        (2, 0),
        (0, 1),
        (1, 1),
        (2, 1),
        (0, 2),
        (1, 2),
        (2, 2),
        (0, 3),
        (1, 3),
        (2, 3),
    ];
    for ((col, row), expected_index) in coord_list.iter().zip(index_list.iter()) {
        let index = lattice.to_vertex_index(*col, *row);
        assert_eq!(index, *expected_index);
    }
}

#[test]
fn to_vertex_coords_3x3() {
    let lattice = Lattice2D::new(3, 3);
    let index_list = vec![0, 1, 2, 3, 4, 5, 6, 7, 8];
    let coord_list = vec![
        (0, 0),
        (1, 0),
        (2, 0),
        (0, 1),
        (1, 1),
        (2, 1),
        (0, 2),
        (1, 2),
        (2, 2),
    ];
    for (index, expected_coord) in index_list.iter().zip(coord_list.iter()) {
        let coord = lattice.to_vertex_coords(*index);
        assert_eq!(coord, *expected_coord);
    }
}

#[test]
fn to_vertex_coords_4x3() {
    let lattice = Lattice2D::new(4, 3);
    let index_list = vec![0, 1, 2, 3, 4, 5, 6, 7, 8, 9, 10, 11];
    let coord_list = vec![
        (0, 0),
        (1, 0),
        (2, 0),
        (3, 0),
        (0, 1),
        (1, 1),
        (2, 1),
        (3, 1),
        (0, 2),
        (1, 2),
        (2, 2),
        (3, 2),
    ];
    for (index, expected_coord) in index_list.iter().zip(coord_list.iter()) {
        let coord = lattice.to_vertex_coords(*index);
        assert_eq!(coord, *expected_coord);
    }
}

#[test]
fn to_vertex_coords_3x4() {
    let lattice = Lattice2D::new(3, 4);
    let index_list = vec![0, 1, 2, 3, 4, 5, 6, 7, 8, 9, 10, 11];
    let coord_list = vec![
        (0, 0),
        (1, 0),
        (2, 0),
        (0, 1),
        (1, 1),
        (2, 1),
        (0, 2),
        (1, 2),
        (2, 2),
        (0, 3),
        (1, 3),
        (2, 3),
    ];
    for (index, expected_coord) in index_list.iter().zip(coord_list.iter()) {
        let coord = lattice.to_vertex_coords(*index);
        assert_eq!(coord, *expected_coord);
    }
}

#[test]
fn display_grid_3x3() {
    let mut lattice = Lattice2D::new(3, 3).with_diagonal();
    lattice.fill();
    lattice.remove_vertex((1, 2));
    let expected_str = "\r\n   0   1   2 \n0 (0)-(1)-(2)\n   | x | x | \n1 (3)-(4)-(5)\n   | /   \\ | \n2 (6) (7) (8)\n";

    assert_eq!(lattice.render(), expected_str);
}

#[test]
fn display_grid_4x3() {
    let mut lattice = Lattice2D::new(4, 3).with_diagonal();
    lattice.fill();
    lattice.remove_vertex((1, 2));
    let expected_str = "\r\n   0    1    2    3  \n0 (0 )-(1 )-(2 )-(3 )\n   |  x |  x |  x |  \n1 (4 )-(5 )-(6 )-(7 )\n   |  /    \\ |  x |  \n2 (8 ) (9 ) (10)-(11)\n";

    assert_eq!(lattice.render(), expected_str);
}

#[test]
fn display_grid_3x4() {
    let mut lattice = Lattice2D::new(3, 4).with_diagonal();
    lattice.fill();
    lattice.remove_vertex((1, 2));
    let expected_str = "\r\n   0    1    2  \n0 (0 )-(1 )-(2 )\n   |  x |  x |  \n1 (3 )-(4 )-(5 )\n   |  /    \\ |  \n2 (6 ) (7 ) (8 )\n   |  \\    / |  \n3 (9 )-(10)-(11)\n";

    assert_eq!(lattice.render(), expected_str);
}

#[test]
fn rectilinear_neighbours() {
    let mut lattice = Lattice2D::new(5, 5);
    let size = lattice.size();
    lattice.clear();
    lattice.add_vertex((1, 1));
    lattice.add_vertex((2, 1));
    lattice.add_vertex((3, 1));
    lattice.add_vertex((1, 2));
    lattice.add_vertex((2, 2));
    lattice.add_vertex((3, 2));
    lattice.add_vertex((1, 3));
    lattice.add_vertex((2, 3));
    lattice.add_vertex((3, 3));

    let result_graph = lattice.to_undirected_graph();
    let expected_graph = UndirectedGraph::from_edges(
        vec![
            (6, 7),
            (6, 11),
            (7, 8),
            (7, 12),
            (8, 13),
            (11, 12),
            (11, 16),
            (12, 13),
            (12, 17),
            (13, 18),
            (16, 17),
            (17, 18),
        ],
        size,
    );
    assert_same_graph(&result_graph, &expected_graph, size);
}

#[test]
fn octilinear_neighbours() {
    let mut lattice = Lattice2D::new(5, 5).with_diagonal();
    let size = lattice.size();
    lattice.clear();
    lattice.add_vertex((1, 1));
    lattice.add_vertex((2, 1));
    lattice.add_vertex((3, 1));
    lattice.add_vertex((1, 2));
    lattice.add_vertex((2, 2));
    lattice.add_vertex((3, 2));
    lattice.add_vertex((1, 3));
    lattice.add_vertex((2, 3));
    lattice.add_vertex((3, 3));

    let result_graph = lattice.to_undirected_graph();
    let expected_graph = UndirectedGraph::from_edges(
        vec![
            (6, 7),
            (6, 11),
            (6, 12),
            (7, 8),
            (7, 12),
            (7, 11),
            (7, 13),
            (8, 12),
            (8, 13),
            (11, 12),
            (11, 16),
            (11, 17),
            (12, 13),
            (12, 16),
            (12, 17),
            (12, 18),
            (13, 17),
            (13, 18),
            (16, 17),
            (17, 18),
        ],
        size,
    );
    assert_same_graph(&result_graph, &expected_graph, size);
}

#[test]
fn fill() {
    let mut lattice = Lattice2D::new(5, 5);
    let size = lattice.size();
    lattice.fill();
    let result_graph = lattice.to_undirected_graph();
    let expected_graph = UndirectedGraph::from_edges(
        vec![
            (0, 1),
            (0, 5),
            (1, 2),
            (1, 6),
            (2, 3),
            (2, 7),
            (3, 4),
            (3, 8),
            (4, 9),
            (5, 6),
            (5, 10),
            (6, 7),
            (6, 11),
            (7, 8),
            (7, 12),
            (8, 9),
            (8, 13),
            (9, 14),
            (10, 11),
            (10, 15),
            (11, 12),
            (11, 16),
            (12, 13),
            (12, 17),
            (13, 14),
            (13, 18),
            (14, 19),
            (15, 16),
            (15, 20),
            (16, 17),
            (16, 21),
            (17, 18),
            (17, 22),
            (18, 19),
            (18, 23),
            (19, 24),
            (20, 21),
            (21, 22),
            (22, 23),
            (23, 24),
        ],
        size,
    );
    assert_eq!(result_graph.edge_count(), expected_graph.edge_count());
    assert_eq!(result_graph.node_count(), expected_graph.node_count());
    assert_same_graph(&result_graph, &expected_graph, size);
}

#[test]
fn empty() {
    let mut lattice = Lattice2D::new(5, 5);
    let size = lattice.size();
    lattice.clear();
    let result_graph = lattice.to_undirected_graph();
    let expected_graph = UndirectedGraph::from_edges(vec![], size);
    assert_eq!(result_graph.node_count(), expected_graph.node_count());
    assert_eq!(result_graph.edge_count(), expected_graph.edge_count());
}

#[test]
fn add_vertex_single() {
    let mut lattice = Lattice2D::new(5, 5);
    let size = lattice.size();
    lattice.clear();
    lattice.add_vertex((2, 2));
    let result_graph = lattice.to_undirected_graph();
    let expected_graph = UndirectedGraph::from_edges(vec![], size);
    assert_same_graph(&result_graph, &expected_graph, size);
}

#[test]
fn remove_vertex_single() {
    let mut lattice = Lattice2D::new(5, 5);
    let size = lattice.size();
    lattice.fill();
    lattice.remove_vertex((2, 2));
    let result_graph = lattice.to_undirected_graph();
    let expected_graph = UndirectedGraph::from_edges(
        vec![
            (0, 1),
            (0, 5),
            (1, 2),
            (1, 6),
            (2, 3),
            (2, 7),
            (3, 4),
            (3, 8),
            (4, 9),
            (5, 6),
            (5, 10),
            (6, 7),
            (6, 11),
            (7, 8),
            (8, 9),
            (8, 13),
            (9, 14),
            (10, 11),
            (10, 15),
            (11, 16),
            (13, 14),
            (13, 18),
            (14, 19),
            (15, 16),
            (15, 20),
            (16, 17),
            (16, 21),
            (17, 18),
            (17, 22),
            (18, 19),
            (18, 23),
            (19, 24),
            (20, 21),
            (21, 22),
            (22, 23),
            (23, 24),
        ],
        size,
    );
    assert_same_graph(&result_graph, &expected_graph, size);
}

#[test]
fn add_vertex_area() {
    let mut lattice = Lattice2D::new(5, 5);
    let size = lattice.size();
    lattice.clear();
    lattice.add_vertex_area((1, 1), (3, 3));
    let result_graph = lattice.to_undirected_graph();
    let expected_graph = UndirectedGraph::from_edges(
        vec![
            (6, 7),
            (6, 11),
            (7, 8),
            (7, 12),
            (8, 13),
            (11, 12),
            (11, 16),
            (12, 13),
            (12, 17),
            (13, 18),
            (16, 17),
            (17, 18),
        ],
        size,
    );
    assert_same_graph(&result_graph, &expected_graph, size);
}

#[test]
fn remove_vertex_area() {
    let mut lattice = Lattice2D::new(5, 5);
    let size = lattice.size();
    lattice.fill();
    lattice.remove_vertex_area((1, 1), (3, 3));
    let result_graph = lattice.to_undirected_graph();
    let expected_graph = UndirectedGraph::from_edges(
        vec![
            (0, 1),
            (0, 5),
            (1, 2),
            (2, 3),
            (3, 4),
            (4, 9),
            (5, 10),
            (9, 14),
            (10, 15),
            (14, 19),
            (15, 20),
            (19, 24),
            (20, 21),
            (21, 22),
            (22, 23),
            (23, 24),
        ],
        size,
    );
    assert_same_graph(&result_graph, &expected_graph, size);
}

#[test]
fn add_vertex_vector() {
    let mut lattice = Lattice2D::new(5, 5);
    let size = lattice.size();
    lattice.clear();
    let bits: Vec<bool> = vec![
        1, 1, 1, 1, 1, 1, 1, 1, 1, 0, 1, 1, 1, 0, 0, 1, 1, 0, 0, 0, 1, 0, 0, 0, 0,
    ]
    .into_iter()
    .map(|b: i32| b != 0)
    .collect();
    lattice.add_vertex_vector(BitVector::from_bools(&bits));
    let result_graph = lattice.to_undirected_graph();
    let expected_graph = UndirectedGraph::from_edges(
        vec![
            (0, 1),
            (0, 5),
            (1, 2),
            (1, 6),
            (2, 3),
            (2, 7),
            (3, 4),
            (3, 8),
            (5, 6),
            (5, 10),
            (6, 7),
            (6, 11),
            (7, 8),
            (7, 12),
            (10, 11),
            (10, 15),
            (11, 12),
            (11, 16),
            (15, 16),
            (15, 20),
        ],
        size,
    );
    assert_same_graph(&result_graph, &expected_graph, size);
}

#[test]
fn remove_vertex_vector() {
    let mut lattice = Lattice2D::new(5, 5);
    let size = lattice.size();
    lattice.fill();
    let bits: Vec<bool> = vec![
        1, 1, 1, 1, 1, 1, 1, 1, 1, 0, 1, 1, 1, 0, 0, 1, 1, 0, 0, 0, 1, 0, 0, 0, 0,
    ]
    .into_iter()
    .map(|b: i32| b != 0)
    .collect();
    lattice.remove_vertex_vector(BitVector::from_bools(&bits));
    let result_graph = lattice.to_undirected_graph();
    let expected_graph = UndirectedGraph::from_edges(
        vec![
            (9, 14),
            (13, 14),
            (13, 18),
            (14, 19),
            (17, 18),
            (17, 22),
            (18, 19),
            (18, 23),
            (19, 24),
            (21, 22),
            (22, 23),
            (23, 24),
        ],
        size,
    );
    assert_same_graph(&result_graph, &expected_graph, size);
}

#[test]
fn as_bitvec() {
    let mut lattice = Lattice2D::new(5, 5);
    lattice.clear();
    let bits: Vec<bool> = vec![
        1, 1, 1, 1, 1, 1, 1, 1, 1, 0, 1, 1, 1, 0, 0, 1, 1, 0, 0, 0, 1, 0, 0, 0, 0,
    ]
    .into_iter()
    .map(|b: i32| b != 0)
    .collect();
    let expected_bitvec = BitVector::from_bools(&bits);
    lattice.add_vertex_vector(BitVector::from_bools(&bits));
    let result_bitvec = lattice.as_bitvec();
    assert_eq!(expected_bitvec.to_bools(), result_bitvec.to_bools());
}

#[test]
fn add_border() {
    let mut lattice = Lattice2D::new(5, 5);
    let size = lattice.size();
    lattice.clear();
    lattice.add_border();
    let result_graph = lattice.to_undirected_graph();
    let expected_graph = UndirectedGraph::from_edges(
        vec![
            (0, 1),
            (0, 5),
            (1, 2),
            (2, 3),
            (3, 4),
            (4, 9),
            (5, 10),
            (9, 14),
            (10, 15),
            (14, 19),
            (15, 20),
            (19, 24),
            (20, 21),
            (21, 22),
            (22, 23),
            (23, 24),
        ],
        size,
    );
    assert_same_graph(&result_graph, &expected_graph, size);
}

#[test]
fn remove_border() {
    let mut lattice = Lattice2D::new(5, 5);
    let size = lattice.size();
    lattice.fill();
    lattice.remove_border();
    let result_graph = lattice.to_undirected_graph();
    let expected_graph = UndirectedGraph::from_edges(
        vec![
            (6, 7),
            (6, 11),
            (7, 8),
            (7, 12),
            (8, 13),
            (11, 12),
            (11, 16),
            (12, 13),
            (12, 17),
            (13, 18),
            (16, 17),
            (17, 18),
        ],
        size,
    );
    assert_same_graph(&result_graph, &expected_graph, size);
}
