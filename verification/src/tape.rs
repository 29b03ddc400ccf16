//! Replayable edit records: the engine's description of a discovered route,
//! one entry per grid mutation, consumable by an undo/redo or animation
//! layer.

use vstd::prelude::*;

verus! {

/// A single replayable grid mutation: an added value (with the value it
/// replaced, if any), a removal, or a move between two keys.
#[derive(Clone, Debug)]
pub enum TapeItem<K, V> {
    Add(K, V, Option<V>),
    Remove(K, V),
    Move(K, K, V),
}

} // verus!
