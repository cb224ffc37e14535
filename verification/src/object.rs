//! Game objects: uniquely identified, positioned, optionally pushable things
//! that live in exactly one layer of the grid.

use vstd::prelude::*;
use crate::delta::{Delta, DeltaFrame};

verus! {

/// A disjoint logical plane of the grid. Ordering across layers only matters
/// for draw order (Floor under Player under Solid).
#[derive(Clone, Copy, PartialEq, Eq, Structural, Debug)]
pub enum Layer {
    Solid,
    Player,
    Floor,
}

/// Number of distinct layers; the grid keeps one object stack per layer.
pub const NUMBER_OF_LAYERS: usize = 3;

/// The storage index of a layer, as an integer.
pub open spec fn layer_index_spec(layer: Layer) -> int {
    match layer {
        Layer::Floor => 0,
        Layer::Player => 1,
        Layer::Solid => 2,
    }
}

impl Layer {
    /// Treat `Layer` as an integer-valued enum for per-cell stack storage.
    pub fn index(layer: &Layer) -> (i: usize)
        ensures
            i == layer_index_spec(*layer),
            i < NUMBER_OF_LAYERS,
    {
        match layer {
            Layer::Floor => 0,
            Layer::Player => 1,
            Layer::Solid => 2,
        }
    }
}

/// The closed set of object kinds in play.
#[derive(Clone, Copy, PartialEq, Eq, Structural, Debug)]
pub enum ObjectKind {
    /// The single avatar the input collaborator steers.
    Player,
    /// A block: a pushable crate or an immovable wall.
    Block,
}

/// A thing that lives in the world map: uniquely identified, positioned,
/// optionally pushable, and belonging to exactly one layer.
#[derive(Clone, Copy, PartialEq, Eq, Structural, Debug)]
pub struct GameObject {
    pub id: usize,
    pub x: i32,
    pub y: i32,
    pub kind: ObjectKind,
    pub pushable: bool,
}

/// Allocates object identifiers: monotonically increasing, never reused,
/// never zero.
pub struct IdSource {
    next: usize,
}

impl IdSource {
    /// The identifier the source will hand out next.
    pub closed spec fn next_id(self) -> int {
        self.next as int
    }

    /// A fresh allocator whose first identifier is 1.
    pub fn new() -> (s: IdSource)
        ensures
            s.next_id() == 1,
    {
        IdSource { next: 1 }
    }
}

/// Hands out the next unused object identifier and advances the counter,
/// so that no two calls on one source ever return the same value.
pub fn new_id(source: &mut IdSource) -> (id: usize)
    requires
        1 <= old(source).next_id() < usize::MAX,
    ensures
        id == old(source).next_id(),
        final(source).next_id() == id + 1,
        id != 0,
{
    let id = source.next;
    source.next = source.next + 1;
    id
}

impl GameObject {
    /// A player avatar at the given position; pushable, in the Solid layer.
    pub fn new_player(x: i32, y: i32, source: &mut IdSource) -> (o: GameObject)
        requires
            1 <= old(source).next_id() < usize::MAX,
        ensures
            o.id == old(source).next_id(),
            final(source).next_id() == o.id + 1,
            o.id != 0,
            o.x == x && o.y == y,
            o.kind == ObjectKind::Player,
            o.pushable,
    {
        GameObject { id: new_id(source), x, y, kind: ObjectKind::Player, pushable: true }
    }

    /// A pushable crate at the given position, in the Solid layer.
    pub fn new_block(x: i32, y: i32, source: &mut IdSource) -> (o: GameObject)
        requires
            1 <= old(source).next_id() < usize::MAX,
        ensures
            o.id == old(source).next_id(),
            final(source).next_id() == o.id + 1,
            o.id != 0,
            o.x == x && o.y == y,
            o.kind == ObjectKind::Block,
            o.pushable,
    {
        GameObject { id: new_id(source), x, y, kind: ObjectKind::Block, pushable: true }
    }

    /// An immovable wall at the given position, in the Solid layer.
    pub fn new_wall(x: i32, y: i32, source: &mut IdSource) -> (o: GameObject)
        requires
            1 <= old(source).next_id() < usize::MAX,
        ensures
            o.id == old(source).next_id(),
            final(source).next_id() == o.id + 1,
            o.id != 0,
            o.x == x && o.y == y,
            o.kind == ObjectKind::Block,
            !o.pushable,
    {
        GameObject { id: new_id(source), x, y, kind: ObjectKind::Block, pushable: false }
    }

    /// Stable for the object's lifetime.
    pub fn get_id(&self) -> (id: usize)
        ensures
            id == self.id,
    {
        self.id
    }

    /// The object's current grid position.
    pub fn get_pos(&self) -> (pos: (i32, i32))
        ensures
            pos == (self.x, self.y),
    {
        (self.x, self.y)
    }

    /// The layer the object lives in; constant for its lifetime. Every kind
    /// currently in play lives in the Solid layer.
    pub fn get_layer(&self) -> (layer: Layer)
        ensures
            layer == Layer::Solid,
    {
        Layer::Solid
    }

    /// Whether the object may be displaced as a side effect of another object
    /// moving into its cell.
    pub fn pushable(&self) -> (p: bool)
        ensures
            p == self.pushable,
    {
        self.pushable
    }

    /// Applies the displacement to the object's position and appends a motion
    /// delta describing it to `frame`. No validation is performed here; that
    /// is the push-resolution algorithm's job.
    pub fn shift_pos(&mut self, d: (i32, i32), frame: &mut DeltaFrame)
        requires
            i32::MIN <= old(self).x + d.0 <= i32::MAX,
            i32::MIN <= old(self).y + d.1 <= i32::MAX,
        ensures
            *final(self) == (GameObject {
                x: (old(self).x + d.0) as i32,
                y: (old(self).y + d.1) as i32,
                ..*old(self)
            }),
            final(frame).deltas@ == old(frame).deltas@.push(Delta::Motion {
                id: old(self).id,
                x: (old(self).x + d.0) as i32,
                y: (old(self).y + d.1) as i32,
                layer: Layer::Solid,
                dx: d.0,
                dy: d.1,
            }),
    {
        self.x = self.x + d.0;
        self.y = self.y + d.1;
        frame.push(Delta::Motion {
            id: self.id,
            x: self.x,
            y: self.y,
            layer: self.get_layer(),
            dx: d.0,
            dy: d.1,
        });
    }

    /// Directly overwrites the position with no delta recorded; used only when
    /// relocating an object without semantic movement.
    pub fn set_pos(&mut self, pos: (i32, i32))
        ensures
            *final(self) == (GameObject { x: pos.0, y: pos.1, ..*old(self) }),
    {
        self.x = pos.0;
        self.y = pos.1;
    }
}

} // verus!
