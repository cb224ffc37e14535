//! One grid square: per layer, an ordered stack of the objects present there
//! ("top" is the most recently placed object).

use vstd::prelude::*;
use crate::object::{GameObject, Layer, layer_index_spec, NUMBER_OF_LAYERS};
use crate::delta::{Delta, DeltaFrame};
use crate::model::{first_match, has_id};

verus! {

/// One cell of the world map, owning one object stack per layer.
pub struct MapCell {
    layers: Vec<Vec<GameObject>>,
}

impl MapCell {
    /// The object stack of one layer, bottom first.
    pub closed spec fn layer_seq(self, l: int) -> Seq<GameObject> {
        self.layers@[l]@
    }

    /// Structural invariant: the cell keeps exactly one stack per layer.
    pub closed spec fn wf(self) -> bool {
        self.layers@.len() == NUMBER_OF_LAYERS
    }

    /// An empty cell.
    pub fn new() -> (c: MapCell)
        ensures
            c.wf(),
            forall|l: int| 0 <= l < NUMBER_OF_LAYERS ==> #[trigger] c.layer_seq(l).len() == 0,
    {
        let mut layers: Vec<Vec<GameObject>> = Vec::new();
        layers.push(Vec::new());
        layers.push(Vec::new());
        layers.push(Vec::new());
        MapCell { layers }
    }

    /// How many objects a layer's stack holds.
    pub fn layer_len(&self, layer: &Layer) -> (n: usize)
        requires
            self.wf(),
        ensures
            n == self.layer_seq(layer_index_spec(*layer)).len(),
    {
        let li = Layer::index(layer);
        self.layers[li].len()
    }

    /// Borrows the i-th object of a layer's stack, bottom first; rendering
    /// walks the stacks in this order, Floor under Player under Solid.
    pub fn get(&self, layer: &Layer, i: usize) -> (o: &GameObject)
        requires
            self.wf(),
            i < self.layer_seq(layer_index_spec(*layer)).len(),
        ensures
            *o == self.layer_seq(layer_index_spec(*layer))[i as int],
    {
        let li = Layer::index(layer);
        &self.layers[li][i]
    }

    /// Borrows the top object of a layer without removing it.
    pub fn view_top(&self, layer: &Layer) -> (r: Option<&GameObject>)
        requires
            self.wf(),
        ensures
            match r {
                Some(o) => self.layer_seq(layer_index_spec(*layer)).len() > 0 && *o
                    == self.layer_seq(layer_index_spec(*layer)).last(),
                None => self.layer_seq(layer_index_spec(*layer)).len() == 0,
            },
    {
        let li = Layer::index(layer);
        let n = self.layers[li].len();
        if n == 0 {
            None
        } else {
            Some(&self.layers[li][n - 1])
        }
    }

    /// Removes and returns the top object of a layer, if any.
    pub fn take(&mut self, layer: &Layer) -> (r: Option<GameObject>)
        requires
            old(self).wf(),
        ensures
            final(self).wf(),
            forall|l: int|
                0 <= l < NUMBER_OF_LAYERS && l != layer_index_spec(*layer)
                    ==> #[trigger] final(self).layer_seq(l) == old(self).layer_seq(l),
            ({
                let s = old(self).layer_seq(layer_index_spec(*layer));
                match r {
                    Some(o) => {
                        &&& s.len() > 0
                        &&& o == s.last()
                        &&& final(self).layer_seq(layer_index_spec(*layer)) == s.drop_last()
                    },
                    None => s.len() == 0 && final(self).layer_seq(layer_index_spec(*layer)) == s,
                }
            }),
    {
        let li = Layer::index(layer);
        let inner: &mut Vec<GameObject> = &mut self.layers[li];
        inner.pop()
    }

    /// Removes and returns the first object with the given id anywhere in the
    /// layer's stack, or nothing if the id is absent.
    pub fn take_id(&mut self, layer: &Layer, id: usize) -> (r: Option<GameObject>)
        requires
            old(self).wf(),
        ensures
            final(self).wf(),
            forall|l: int|
                0 <= l < NUMBER_OF_LAYERS && l != layer_index_spec(*layer)
                    ==> #[trigger] final(self).layer_seq(l) == old(self).layer_seq(l),
            ({
                let s = old(self).layer_seq(layer_index_spec(*layer));
                match r {
                    Some(o) => {
                        &&& has_id(s, id as int)
                        &&& o == s[first_match(s, id as int)]
                        &&& final(self).layer_seq(layer_index_spec(*layer)) == s.remove(
                            first_match(s, id as int),
                        )
                    },
                    None => !has_id(s, id as int) && *final(self) == *old(self),
                }
            }),
    {
        let li = Layer::index(layer);
        let ghost s = self.layers@[li as int]@;
        proof {
            crate::model::lemma_first_match(s, id as int);
        }
        let n = self.layers[li].len();
        let mut i: usize = 0;
        let mut found = false;
        while i < n && !found
            invariant
                0 <= i <= n,
                *self == *old(self),
                old(self).wf(),
                li == layer_index_spec(*layer),
                s == self.layers@[li as int]@,
                n == s.len(),
                !found ==> forall|j: int| 0 <= j < i ==> s[j].id != id,
                found ==> i < n && s[i as int].id == id && (forall|j: int|
                    0 <= j < i ==> s[j].id != id),
            decreases n - i + (if found { 0int } else { 1int }),
        {
            if self.layers[li][i].get_id() == id {
                found = true;
            } else {
                i = i + 1;
            }
        }
        if found {
            proof {
                assert(first_match(s, id as int) == i);
            }
            let inner: &mut Vec<GameObject> = &mut self.layers[li];
            Some(inner.remove(i))
        } else {
            None
        }
    }

    /// Removes the top object of a layer into a deletion delta appended to
    /// `frame`; reports whether anything was deleted.
    pub fn delete(&mut self, layer: &Layer, frame: &mut DeltaFrame) -> (r: bool)
        requires
            old(self).wf(),
        ensures
            final(self).wf(),
            forall|l: int|
                0 <= l < NUMBER_OF_LAYERS && l != layer_index_spec(*layer)
                    ==> #[trigger] final(self).layer_seq(l) == old(self).layer_seq(l),
            ({
                let s = old(self).layer_seq(layer_index_spec(*layer));
                if r {
                    &&& s.len() > 0
                    &&& final(self).layer_seq(layer_index_spec(*layer)) == s.drop_last()
                    &&& final(frame).deltas@ == old(frame).deltas@.push(
                        Delta::Deletion { object: s.last() },
                    )
                } else {
                    &&& s.len() == 0
                    &&& final(self).layer_seq(layer_index_spec(*layer)) == s
                    &&& *final(frame) == *old(frame)
                }
            }),
    {
        match self.take(layer) {
            Some(object) => {
                frame.push(Delta::Deletion { object });
                true
            },
            None => false,
        }
    }

    /// Removes the first object with the given id in the layer's stack into a
    /// deletion delta appended to `frame`; reports whether it was found.
    pub fn delete_id(&mut self, layer: &Layer, id: usize, frame: &mut DeltaFrame) -> (r: bool)
        requires
            old(self).wf(),
        ensures
            final(self).wf(),
            forall|l: int|
                0 <= l < NUMBER_OF_LAYERS && l != layer_index_spec(*layer)
                    ==> #[trigger] final(self).layer_seq(l) == old(self).layer_seq(l),
            ({
                let s = old(self).layer_seq(layer_index_spec(*layer));
                if r {
                    &&& has_id(s, id as int)
                    &&& final(self).layer_seq(layer_index_spec(*layer)) == s.remove(
                        first_match(s, id as int),
                    )
                    &&& final(frame).deltas@ == old(frame).deltas@.push(
                        Delta::Deletion { object: s[first_match(s, id as int)] },
                    )
                } else {
                    &&& !has_id(s, id as int)
                    &&& *final(self) == *old(self)
                    &&& *final(frame) == *old(frame)
                }
            }),
    {
        match self.take_id(layer, id) {
            Some(object) => {
                frame.push(Delta::Deletion { object });
                true
            },
            None => false,
        }
    }

    /// Places the object on top of its layer's stack and appends a creation
    /// delta describing it to `frame`.
    pub fn put(&mut self, object: GameObject, frame: &mut DeltaFrame)
        requires
            old(self).wf(),
        ensures
            final(self).wf(),
            forall|l: int|
                0 <= l < NUMBER_OF_LAYERS && l != layer_index_spec(Layer::Solid)
                    ==> #[trigger] final(self).layer_seq(l) == old(self).layer_seq(l),
            final(self).layer_seq(layer_index_spec(Layer::Solid)) == old(self).layer_seq(
                layer_index_spec(Layer::Solid),
            ).push(object),
            final(frame).deltas@ == old(frame).deltas@.push(
                Delta::Creation { id: object.id, pos: (object.x, object.y), layer: Layer::Solid },
            ),
    {
        frame.push(
            Delta::Creation {
                id: object.get_id(),
                pos: object.get_pos(),
                layer: object.get_layer(),
            },
        );
        self.put_quiet(object);
    }

    /// Places the object on top of its layer's stack with no delta recorded;
    /// used for initial world setup and for delta reversion.
    pub fn put_quiet(&mut self, object: GameObject)
        requires
            old(self).wf(),
        ensures
            final(self).wf(),
            forall|l: int|
                0 <= l < NUMBER_OF_LAYERS && l != layer_index_spec(Layer::Solid)
                    ==> #[trigger] final(self).layer_seq(l) == old(self).layer_seq(l),
            final(self).layer_seq(layer_index_spec(Layer::Solid)) == old(self).layer_seq(
                layer_index_spec(Layer::Solid),
            ).push(object),
    {
        let li = Layer::index(&object.get_layer());
        let inner: &mut Vec<GameObject> = &mut self.layers[li];
        inner.push(object);
    }
}

} // verus!
