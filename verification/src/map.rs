//! The layered world grid: width x height cells, exclusively owning every
//! object in play, with point- and id-addressed operations and a tracked
//! handle to the single player object.

use vstd::prelude::*;
use crate::object::{GameObject, Layer, layer_index_spec, NUMBER_OF_LAYERS};
use crate::delta::{Delta, DeltaFrame};
use crate::cell::MapCell;
use crate::model::{GridModel, gm_wf, inb, stk, set_stk, first_match, has_id};

verus! {

/// The grid model in which every stack is empty.
pub open spec fn empty_grid(
    width: int,
    height: int,
    player_id: int,
    player_x: int,
    player_y: int,
) -> GridModel {
    GridModel {
        width,
        height,
        player_id,
        player_x,
        player_y,
        cells: Map::new(
            |k: (int, int, int)| 0 <= k.0 < width && 0 <= k.1 < height && 0 <= k.2
                < NUMBER_OF_LAYERS,
            |k: (int, int, int)| Seq::<GameObject>::empty(),
        ),
    }
}

/// The full grid, exclusively owning every cell and, transitively, every
/// object currently in play.
pub struct WorldMap {
    width: i32,
    height: i32,
    map: Vec<Vec<MapCell>>,
    player_id: usize,
    player_x: i32,
    player_y: i32,
}

impl View for WorldMap {
    type V = GridModel;

    closed spec fn view(&self) -> GridModel {
        GridModel {
            width: self.width as int,
            height: self.height as int,
            player_id: self.player_id as int,
            player_x: self.player_x as int,
            player_y: self.player_y as int,
            cells: Map::new(
                |k: (int, int, int)| 0 <= k.0 < self.width && 0 <= k.1 < self.height && 0 <= k.2
                    < NUMBER_OF_LAYERS,
                |k: (int, int, int)| self.map@[k.0]@[k.1].layer_seq(k.2),
            ),
        }
    }
}

impl WorldMap {
    /// Structural invariant: the cell matrix matches the stated dimensions,
    /// every cell is well formed, and the model is well formed.
    pub closed spec fn wf(self) -> bool {
        &&& 1 <= self.width
        &&& 1 <= self.height
        &&& self.map@.len() == self.width as int
        &&& forall|x: int|
            0 <= x < self.width ==> #[trigger] self.map@[x]@.len() == self.height as int
        &&& forall|x: int, y: int|
            0 <= x < self.width && 0 <= y < self.height ==> (#[trigger] self.map@[x]@[y]).wf()
        &&& gm_wf(self@)
    }

    /// Well-formedness of the map carries over to its model.
    pub proof fn model_wf(&self)
        requires
            self.wf(),
        ensures
            gm_wf(self@),
    {
    }

    /// A grid of empty cells. The player object itself is placed by the
    /// caller with `put_quiet`; the map records its handle (id and starting
    /// position) for convenience lookups.
    #[verifier::loop_isolation(false)]
    pub fn new(width: i32, height: i32, player: &GameObject) -> (m: WorldMap)
        requires
            1 <= width,
            1 <= height,
        ensures
            m.wf(),
            m@ == empty_grid(
                width as int,
                height as int,
                player.id as int,
                player.x as int,
                player.y as int,
            ),
    {
        let mut map: Vec<Vec<MapCell>> = Vec::new();
        let mut i: usize = 0;
        while i < width as usize
            invariant
                0 <= i <= width as int,
                map@.len() == i,
                forall|x: int| 0 <= x < i ==> #[trigger] map@[x]@.len() == height as int,
                forall|x: int, y: int|
                    0 <= x < i && 0 <= y < height as int ==> (#[trigger] map@[x]@[y]).wf(),
                forall|x: int, y: int, l: int|
                    0 <= x < i && 0 <= y < height as int && 0 <= l < NUMBER_OF_LAYERS
                        ==> (#[trigger] map@[x]@[y].layer_seq(l)).len() == 0,
            decreases width as int - i,
        {
            let mut row: Vec<MapCell> = Vec::new();
            let mut j: usize = 0;
            while j < height as usize
                invariant
                    0 <= j <= height as int,
                    row@.len() == j,
                    forall|y: int| 0 <= y < j ==> (#[trigger] row@[y]).wf(),
                    forall|y: int, l: int|
                        0 <= y < j && 0 <= l < NUMBER_OF_LAYERS ==> (#[trigger] row@[y].layer_seq(
                            l,
                        )).len() == 0,
                decreases height as int - j,
            {
                row.push(MapCell::new());
                j = j + 1;
            }
            map.push(row);
            i = i + 1;
        }
        let m = WorldMap {
            width,
            height,
            map,
            player_id: player.get_id(),
            player_x: player.get_pos().0,
            player_y: player.get_pos().1,
        };
        proof {
            assert(m@.cells =~~= empty_grid(
                width as int,
                height as int,
                player.id as int,
                player.x as int,
                player.y as int,
            ).cells);
            assert(m@ =~= empty_grid(
                width as int,
                height as int,
                player.id as int,
                player.x as int,
                player.y as int,
            ));
            assert(m@.cells.dom() =~= Set::new(
                |k: (int, int, int)| inb(m@, k.0, k.1) && 0 <= k.2 < NUMBER_OF_LAYERS,
            ));
        }
        m
    }

    /// Re-points the tracked player handle; the grid's cells are untouched.
    pub(crate) fn set_player_cache(&mut self, x: i32, y: i32)
        requires
            old(self).wf(),
        ensures
            final(self).wf(),
            final(self)@ == (GridModel {
                player_x: x as int,
                player_y: y as int,
                ..old(self)@
            }),
    {
        self.player_x = x;
        self.player_y = y;
        proof {
            assert(self@.cells =~= old(self)@.cells);
            assert(self@ =~= (GridModel { player_x: x as int, player_y: y as int, ..old(self)@ }));
            assert(self@.cells.dom() =~= Set::new(
                |k: (int, int, int)| inb(self@, k.0, k.1) && 0 <= k.2 < NUMBER_OF_LAYERS,
            ));
            assert forall|x2: int, y2: int, l: int, i: int|
                inb(self@, x2, y2) && 0 <= l < NUMBER_OF_LAYERS && 0 <= i < stk(
                    self@,
                    x2,
                    y2,
                    l,
                ).len() implies #[trigger] stk(self@, x2, y2, l)[i].x == x2 && stk(
                self@,
                x2,
                y2,
                l,
            )[i].y == y2 && l == layer_index_spec(Layer::Solid) by {
                assert(stk(self@, x2, y2, l) == stk(old(self)@, x2, y2, l));
                assert(inb(old(self)@, x2, y2));
                assert(stk(old(self)@, x2, y2, l)[i].x == x2 && stk(old(self)@, x2, y2, l)[i].y
                    == y2 && l == layer_index_spec(Layer::Solid));
            }
        }
    }

    /// The bounds predicate: true iff (x, y) lies off the grid.
    pub fn invalid(&self, x: i32, y: i32) -> (r: bool)
        ensures
            r == !inb(self@, x as int, y as int),
    {
        x < 0 || x >= self.width || y < 0 || y >= self.height
    }

    /// The tracked player position.
    pub fn get_player_pos(&self) -> (pos: (i32, i32))
        ensures
            pos.0 == self@.player_x,
            pos.1 == self@.player_y,
    {
        (self.player_x, self.player_y)
    }

    /// The tracked player id.
    pub fn get_player_id(&self) -> (id: usize)
        ensures
            id == self@.player_id,
    {
        self.player_id
    }

    /// Borrows the cell at (x, y), or nothing when out of bounds.
    pub fn cell(&self, x: i32, y: i32) -> (r: Option<&MapCell>)
        requires
            self.wf(),
        ensures
            match r {
                Some(c) => {
                    &&& inb(self@, x as int, y as int)
                    &&& c.wf()
                    &&& forall|l: int|
                        0 <= l < NUMBER_OF_LAYERS ==> #[trigger] c.layer_seq(l) == stk(
                            self@,
                            x as int,
                            y as int,
                            l,
                        )
                },
                None => !inb(self@, x as int, y as int),
            },
    {
        if self.invalid(x, y) {
            None
        } else {
            Some(&self.map[x as usize][y as usize])
        }
    }

    /// Borrows the top object of a layer at (x, y) without removing it.
    /// Nothing can mean either "out of bounds" or "that layer is empty there".
    pub fn view_top(&self, x: i32, y: i32, layer: &Layer) -> (r: Option<&GameObject>)
        requires
            self.wf(),
        ensures
            ({
                let s = stk(self@, x as int, y as int, layer_index_spec(*layer));
                match r {
                    Some(o) => inb(self@, x as int, y as int) && s.len() > 0 && *o == s.last(),
                    None => !inb(self@, x as int, y as int) || s.len() == 0,
                }
            }),
    {
        match self.cell(x, y) {
            Some(c) => c.view_top(layer),
            None => None,
        }
    }

    /// After one cell's stacks changed (all other cells untouched and the
    /// non-cell fields kept), the new model is `set_stk` of the old one, and
    /// well-formedness follows when the new stacks respect position and layer.
    proof fn lemma_cell_update(self, g0: GridModel, x: int, y: int, l: int, s: Seq<GameObject>)
        requires
            gm_wf(g0),
            self.width as int == g0.width,
            self.height as int == g0.height,
            self.player_id as int == g0.player_id,
            self.player_x as int == g0.player_x,
            self.player_y as int == g0.player_y,
            self.map@.len() == g0.width,
            forall|x2: int| 0 <= x2 < g0.width ==> #[trigger] self.map@[x2]@.len() == g0.height,
            forall|x2: int, y2: int|
                0 <= x2 < g0.width && 0 <= y2 < g0.height ==> (#[trigger] self.map@[x2]@[y2]).wf(),
            0 <= l < NUMBER_OF_LAYERS,
            inb(g0, x, y),
            forall|k: (int, int, int)|
                (0 <= k.0 < g0.width && 0 <= k.1 < g0.height && 0 <= k.2 < NUMBER_OF_LAYERS && k
                    != (x, y, l)) ==> #[trigger] self.map@[k.0]@[k.1].layer_seq(k.2) == g0.cells[k],
            self.map@[x]@[y].layer_seq(l) == s,
            forall|i: int|
                0 <= i < s.len() ==> (#[trigger] s[i]).x as int == x && s[i].y as int == y && l
                    == layer_index_spec(Layer::Solid),
        ensures
            self@ == set_stk(g0, x, y, l, s),
            self.wf(),
    {
        assert(self@.cells =~= set_stk(g0, x, y, l, s).cells);
        assert(self@ =~= set_stk(g0, x, y, l, s));
        assert(self@.cells.dom() =~= Set::new(
            |k: (int, int, int)| inb(self@, k.0, k.1) && 0 <= k.2 < NUMBER_OF_LAYERS,
        ));
        assert forall|x2: int, y2: int, l2: int, i: int|
            inb(self@, x2, y2) && 0 <= l2 < NUMBER_OF_LAYERS && 0 <= i < stk(
                self@,
                x2,
                y2,
                l2,
            ).len() implies #[trigger] stk(self@, x2, y2, l2)[i].x == x2 && stk(
            self@,
            x2,
            y2,
            l2,
        )[i].y == y2 && l2 == layer_index_spec(Layer::Solid) by {
            if (x2, y2, l2) != (x, y, l) {
                assert(stk(self@, x2, y2, l2) == stk(g0, x2, y2, l2));
            }
        }
    }

    /// Removes and returns the top object of a layer at (x, y); nothing when
    /// out of bounds or when that layer is empty there.
    pub fn take(&mut self, x: i32, y: i32, layer: &Layer) -> (r: Option<GameObject>)
        requires
            old(self).wf(),
        ensures
            final(self).wf(),
            ({
                let l = layer_index_spec(*layer);
                let s = stk(old(self)@, x as int, y as int, l);
                match r {
                    Some(o) => {
                        &&& inb(old(self)@, x as int, y as int)
                        &&& s.len() > 0
                        &&& o == s.last()
                        &&& final(self)@ == set_stk(old(self)@, x as int, y as int, l, s.drop_last())
                    },
                    None => {
                        &&& (!inb(old(self)@, x as int, y as int) || s.len() == 0)
                        &&& final(self)@ == old(self)@
                    },
                }
            }),
    {
        if self.invalid(x, y) {
            return None;
        }
        let ghost g0 = self@;
        let ghost l = layer_index_spec(*layer);
        let c: &mut MapCell = &mut self.map[x as usize][y as usize];
        let r = c.take(layer);
        proof {
            if r is Some {
                let ns = stk(g0, x as int, y as int, l).drop_last();
                assert forall|i: int|
                    0 <= i < ns.len() implies (#[trigger] ns[i]).x as int == x as int && ns[i].y
                    as int == y as int && l == layer_index_spec(Layer::Solid) by {
                    crate::model::lemma_stack_objs(g0, x as int, y as int, l, i);
                }
                self.lemma_cell_update(g0, x as int, y as int, l, ns);
            } else {
                let ns = stk(g0, x as int, y as int, l);
                assert forall|i: int|
                    0 <= i < ns.len() implies (#[trigger] ns[i]).x as int == x as int && ns[i].y
                    as int == y as int && l == layer_index_spec(Layer::Solid) by {
                    crate::model::lemma_stack_objs(g0, x as int, y as int, l, i);
                }
                self.lemma_cell_update(g0, x as int, y as int, l, ns);
                assert(self@.cells =~= g0.cells);
                assert(self@ =~= g0);
            }
        }
        r
    }

    /// Removes and returns the object with the given id in the layer's stack
    /// at (x, y), searching the whole stack, not just its top.
    pub fn take_id(&mut self, x: i32, y: i32, layer: &Layer, id: usize) -> (r: Option<GameObject>)
        requires
            old(self).wf(),
        ensures
            final(self).wf(),
            ({
                let l = layer_index_spec(*layer);
                let s = stk(old(self)@, x as int, y as int, l);
                match r {
                    Some(o) => {
                        &&& inb(old(self)@, x as int, y as int)
                        &&& has_id(s, id as int)
                        &&& o == s[first_match(s, id as int)]
                        &&& final(self)@ == set_stk(
                            old(self)@,
                            x as int,
                            y as int,
                            l,
                            s.remove(first_match(s, id as int)),
                        )
                    },
                    None => {
                        &&& (!inb(old(self)@, x as int, y as int) || !has_id(s, id as int))
                        &&& final(self)@ == old(self)@
                    },
                }
            }),
    {
        if self.invalid(x, y) {
            return None;
        }
        let ghost g0 = self@;
        let ghost l = layer_index_spec(*layer);
        let ghost s = stk(g0, x as int, y as int, l);
        let c: &mut MapCell = &mut self.map[x as usize][y as usize];
        let r = c.take_id(layer, id);
        proof {
            if r is Some {
                crate::model::lemma_first_match(s, id as int);
                let f = first_match(s, id as int);
                s.remove_ensures(f);
                let ns = s.remove(f);
                assert forall|i: int|
                    0 <= i < ns.len() implies (#[trigger] ns[i]).x as int == x as int && ns[i].y
                    as int == y as int && l == layer_index_spec(Layer::Solid) by {
                    if i < f {
                        crate::model::lemma_stack_objs(g0, x as int, y as int, l, i);
                    } else {
                        crate::model::lemma_stack_objs(g0, x as int, y as int, l, i + 1);
                    }
                }
                self.lemma_cell_update(g0, x as int, y as int, l, ns);
            } else {
                assert forall|i: int|
                    0 <= i < s.len() implies (#[trigger] s[i]).x as int == x as int && s[i].y
                    as int == y as int && l == layer_index_spec(Layer::Solid) by {
                    crate::model::lemma_stack_objs(g0, x as int, y as int, l, i);
                }
                self.lemma_cell_update(g0, x as int, y as int, l, s);
                assert(self@.cells =~= g0.cells);
                assert(self@ =~= g0);
            }
        }
        r
    }

    /// Removes the top object of a layer at (x, y) into a deletion delta
    /// appended to `frame`; false when out of bounds or nothing was there.
    pub fn delete(&mut self, x: i32, y: i32, layer: &Layer, frame: &mut DeltaFrame) -> (r: bool)
        requires
            old(self).wf(),
        ensures
            final(self).wf(),
            ({
                let l = layer_index_spec(*layer);
                let s = stk(old(self)@, x as int, y as int, l);
                if r {
                    &&& inb(old(self)@, x as int, y as int)
                    &&& s.len() > 0
                    &&& final(self)@ == set_stk(old(self)@, x as int, y as int, l, s.drop_last())
                    &&& final(frame).deltas@ == old(frame).deltas@.push(
                        Delta::Deletion { object: s.last() },
                    )
                } else {
                    &&& (!inb(old(self)@, x as int, y as int) || s.len() == 0)
                    &&& final(self)@ == old(self)@
                    &&& *final(frame) == *old(frame)
                }
            }),
    {
        match self.take(x, y, layer) {
            Some(object) => {
                frame.push(Delta::Deletion { object });
                true
            },
            None => false,
        }
    }

    /// Removes the object with the given id at (x, y) into a deletion delta
    /// appended to `frame`; false when out of bounds or the id is absent.
    pub fn delete_id(
        &mut self,
        x: i32,
        y: i32,
        layer: &Layer,
        id: usize,
        frame: &mut DeltaFrame,
    ) -> (r: bool)
        requires
            old(self).wf(),
        ensures
            final(self).wf(),
            ({
                let l = layer_index_spec(*layer);
                let s = stk(old(self)@, x as int, y as int, l);
                if r {
                    &&& inb(old(self)@, x as int, y as int)
                    &&& has_id(s, id as int)
                    &&& final(self)@ == set_stk(
                        old(self)@,
                        x as int,
                        y as int,
                        l,
                        s.remove(first_match(s, id as int)),
                    )
                    &&& final(frame).deltas@ == old(frame).deltas@.push(
                        Delta::Deletion { object: s[first_match(s, id as int)] },
                    )
                } else {
                    &&& (!inb(old(self)@, x as int, y as int) || !has_id(s, id as int))
                    &&& final(self)@ == old(self)@
                    &&& *final(frame) == *old(frame)
                }
            }),
    {
        match self.take_id(x, y, layer, id) {
            Some(object) => {
                frame.push(Delta::Deletion { object });
                true
            },
            None => false,
        }
    }

    /// Places the object in the cell its position names, recording a creation
    /// delta. Placing out of bounds can never be legitimate, so it is ruled
    /// out by precondition rather than recovered from.
    pub fn put(&mut self, object: GameObject, frame: &mut DeltaFrame)
        requires
            old(self).wf(),
            inb(old(self)@, object.x as int, object.y as int),
        ensures
            final(self).wf(),
            final(self)@ == set_stk(
                old(self)@,
                object.x as int,
                object.y as int,
                layer_index_spec(Layer::Solid),
                stk(
                    old(self)@,
                    object.x as int,
                    object.y as int,
                    layer_index_spec(Layer::Solid),
                ).push(object),
            ),
            final(frame).deltas@ == old(frame).deltas@.push(
                Delta::Creation { id: object.id, pos: (object.x, object.y), layer: Layer::Solid },
            ),
    {
        frame.push(
            Delta::Creation {
                id: object.get_id(),
                pos: object.get_pos(),
                layer: object.get_layer(),
            },
        );
        self.put_quiet(object);
    }

    /// Places the object in the cell its position names, with no delta
    /// recorded; used for initial world setup and for delta reversion.
    pub fn put_quiet(&mut self, object: GameObject)
        requires
            old(self).wf(),
            inb(old(self)@, object.x as int, object.y as int),
        ensures
            final(self).wf(),
            final(self)@ == set_stk(
                old(self)@,
                object.x as int,
                object.y as int,
                layer_index_spec(Layer::Solid),
                stk(
                    old(self)@,
                    object.x as int,
                    object.y as int,
                    layer_index_spec(Layer::Solid),
                ).push(object),
            ),
    {
        let ghost g0 = self@;
        let (x, y) = object.get_pos();
        let c: &mut MapCell = &mut self.map[x as usize][y as usize];
        c.put_quiet(object);
        proof {
            let l = layer_index_spec(Layer::Solid);
            let ns = stk(g0, x as int, y as int, l).push(object);
            assert forall|i: int|
                0 <= i < ns.len() implies (#[trigger] ns[i]).x as int == x as int && ns[i].y
                as int == y as int && l == layer_index_spec(Layer::Solid) by {
                if i < ns.len() - 1 {
                    crate::model::lemma_stack_objs(g0, x as int, y as int, l, i);
                } else {
                    assert(ns[i] == object);
                }
            }
            self.lemma_cell_update(g0, x as int, y as int, l, ns);
        }
    }
}

} // verus!
