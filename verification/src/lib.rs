//! A grid-based routing substrate: a compact rectangular lattice graph with
//! presence editing and automatic memory rebalancing, conversion into a
//! compressed sparse row (CSR) adjacency graph, and an A* shortest-path
//! engine with a turn-cost tie-break.

use vstd::prelude::*;

pub mod common;
pub mod counting;
pub mod indexing;
pub mod lattice;
pub mod bits;
pub mod graph;
pub mod render;
pub mod path;
pub mod tape;
pub mod astar;

verus! {

/// A signed cell address used by grid widgets; unlike lattice coordinates it
/// may step outside the grid.
#[derive(Debug, Clone, Copy, PartialEq, Eq, Structural, Hash)]
pub struct GridIndex {
    pub row: isize,
    pub col: isize,
}

impl GridIndex {
    pub fn new(row: isize, col: isize) -> (r: Self)
        ensures
            r.row == row,
            r.col == col,
    {
        Self { row, col }
    }

    pub fn above(self) -> (r: GridIndex)
        requires
            self.row > isize::MIN,
        ensures
            r.row == self.row - 1,
            r.col == self.col,
    {
        GridIndex { row: self.row - 1, col: self.col }
    }

    pub fn below(self) -> (r: GridIndex)
        requires
            self.row < isize::MAX,
        ensures
            r.row == self.row + 1,
            r.col == self.col,
    {
        GridIndex { row: self.row + 1, col: self.col }
    }

    pub fn left(self) -> (r: GridIndex)
        requires
            self.col > isize::MIN,
        ensures
            r.row == self.row,
            r.col == self.col - 1,
    {
        GridIndex { row: self.row, col: self.col - 1 }
    }

    pub fn right(self) -> (r: GridIndex)
        requires
            self.col < isize::MAX,
        ensures
            r.row == self.row,
            r.col == self.col + 1,
    {
        GridIndex { row: self.row, col: self.col + 1 }
    }

    /// The four cardinal neighbours, in the order above, below, left, right.
    pub fn neighbors_rectilinear(self) -> (r: [GridIndex; 4])
        requires
            isize::MIN < self.row < isize::MAX,
            isize::MIN < self.col < isize::MAX,
        ensures
            r[0].row == self.row - 1 && r[0].col == self.col,
            r[1].row == self.row + 1 && r[1].col == self.col,
            r[2].row == self.row && r[2].col == self.col - 1,
            r[3].row == self.row && r[3].col == self.col + 1,
    {
        let above = self.above();
        let below = self.below();
        let left = self.left();
        let right = self.right();
        [above, below, left, right]
    }

    /// The four diagonal neighbours, in the order above-left, above-right,
    /// below-left, below-right.
    pub fn neighbors_diagonal(self) -> (r: [GridIndex; 4])
        requires
            isize::MIN < self.row < isize::MAX,
            isize::MIN < self.col < isize::MAX,
        ensures
            r[0].row == self.row - 1 && r[0].col == self.col - 1,
            r[1].row == self.row - 1 && r[1].col == self.col + 1,
            r[2].row == self.row + 1 && r[2].col == self.col - 1,
            r[3].row == self.row + 1 && r[3].col == self.col + 1,
    {
        let above = self.above();
        let below = self.below();
        let above_left = above.left();
        let above_right = above.right();
        let below_left = below.left();
        let below_right = below.right();
        [above_left, above_right, below_left, below_right]
    }
}

/// What the interactive grid is currently doing.
#[derive(Clone, Copy, PartialEq, Eq, Structural, Debug)]
pub enum GridState {
    Idle,
    Running(GridAction),
    Disabled,
}

/// The kind of edit a grid interaction performs.
#[derive(Clone, Copy, PartialEq, Eq, Structural, Debug)]
pub enum GridAction {
    Dynamic,
    Add,
    Remove,
    Move,
}

/// An integer point key for canvas children.
#[derive(Debug, PartialEq, Eq, Structural, Hash, Clone, Copy)]
pub struct PointKey {
    /// The x coordinate.
    pub x: i32,
    /// The y coordinate.
    pub y: i32,
}

impl PointKey {
    pub fn new(x: i32, y: i32) -> (r: Self)
        ensures
            r.x == x,
            r.y == y,
    {
        Self { x, y }
    }
}

impl Default for PointKey {
    fn default() -> (r: Self)
        ensures
            r.x == 0,
            r.y == 0,
    {
        Self { x: 0, y: 0 }
    }
}

} // verus!
