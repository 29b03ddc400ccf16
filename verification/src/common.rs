//! Shared physical-design vocabulary: step orientations, compass directions,
//! and signal classification for netlist pins.

use vstd::prelude::*;

verus! {

/// The orientation of a single step between two grid cells, used by the
/// search engine to count direction changes along a route.
#[derive(Debug, Copy, Clone, PartialEq, Eq, Structural)]
pub enum Orientation {
    Vertical,
    Horizontal,
    Diag45,
    Diag135,
}

impl Orientation {
    /// The orientation of the step between two cells: horizontal when the
    /// columns differ by exactly one, vertical otherwise.
    pub open spec fn direction_spec(from: (usize, usize), to: (usize, usize)) -> Orientation {
        if from.0 == to.0 + 1 || to.0 == from.0 + 1 {
            Orientation::Horizontal
        } else {
            Orientation::Vertical
        }
    }

    pub fn get_direction(from: (usize, usize), to: (usize, usize)) -> (r: Self)
        ensures
            r == Self::direction_spec(from, to),
    {
        if (from.0 > to.0 && from.0 - to.0 == 1) || (to.0 > from.0 && to.0 - from.0 == 1) {
            Self::Horizontal
        } else {
            Self::Vertical
        }
    }
}

/// A compass direction.
pub enum Direction {
    North,
    South,
    East,
    West,
    NorthEast,
    NorthWest,
    SouthEast,
    SouthWest,
}

/// How a pin drives or receives a signal.
#[derive(PartialEq, Eq, Structural)]
pub enum SignalDirection {
    Unspecified,
    Input,
    Output,
    InOut,
    Clock,
    Supply,
    Ground,
}

impl SignalDirection {
    pub fn is_input(&self) -> (r: bool)
        ensures
            r == (*self == SignalDirection::Input),
    {
        *self == SignalDirection::Input
    }

    pub fn is_output(&self) -> (r: bool)
        ensures
            r == (*self == SignalDirection::Output),
    {
        *self == SignalDirection::Output
    }

    pub fn is_clk(&self) -> (r: bool)
        ensures
            r == (*self == SignalDirection::Clock),
    {
        *self == SignalDirection::Clock
    }

    pub fn is_power(&self) -> (r: bool)
        ensures
            r == (*self == SignalDirection::Supply || *self == SignalDirection::Ground),
    {
        match self {
            SignalDirection::Supply => true,
            SignalDirection::Ground => true,
            _ => false,
        }
    }
}

/// What a net is used for.
pub enum SignalUse {
    Clock,
    Ground,
    Power,
    Reset,
    Signal,
    Analog,
}

/// Access to the connectivity of a design, implemented by callers that hold
/// a netlist.
pub trait Netlist {
    fn port_direction(&self) -> SignalDirection;

    fn get_net_pins(&self, net: usize) -> Vec<usize>;
}

} // verus!
