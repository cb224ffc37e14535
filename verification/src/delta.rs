//! Reversible records of single grid mutations (deltas), grouped into
//! per-tick frames, held in a bounded-depth undo stack.

use vstd::prelude::*;
use crate::object::{GameObject, Layer, layer_index_spec};
use crate::model::{
    stk,
    first_match,
    delta_undoable,
    undo_delta,
    undo_frame,
    frame_undoable,
    lemma_first_match,
    lemma_stack_objs,
};
use crate::map::WorldMap;

verus! {

/// An atomic, reversible record of one change made to the grid during a tick.
pub enum Delta {
    /// An object moved: its id, layer, resulting (post-move) position, and the
    /// displacement that produced it. Reverting re-applies the inverse
    /// displacement to the object found by id at its current position.
    Motion { id: usize, x: i32, y: i32, layer: Layer, dx: i32, dy: i32 },
    /// An object was removed from the grid; the record exclusively owns it.
    /// Reverting re-inserts it at its stored position.
    Deletion { object: GameObject },
    /// An object was created: its id, position and layer at creation time.
    /// Reverting removes whatever object currently tops that position/layer
    /// slot (by position and layer, not id).
    Creation { id: usize, pos: (i32, i32), layer: Layer },
}

impl Delta {
    /// Reverts this one recorded change against the grid: a motion re-applies
    /// the inverse displacement to the object found by id at its recorded
    /// position; a deletion re-inserts the owned object; a creation removes
    /// whatever object currently tops the recorded slot.
    pub fn revert(self, map: &mut WorldMap)
        requires
            old(map).wf(),
            delta_undoable(old(map)@, self),
        ensures
            final(map).wf(),
            final(map)@ == undo_delta(old(map)@, self),
    {
        let ghost d = self;
        let ghost g0 = map@;
        match self {
            Delta::Motion { id, x, y, layer, dx, dy } => {
                let ghost l = layer_index_spec(layer);
                proof {
                    map.model_wf();
                    lemma_first_match(stk(g0, x as int, y as int, l), id as int);
                    lemma_stack_objs(
                        g0,
                        x as int,
                        y as int,
                        l,
                        first_match(stk(g0, x as int, y as int, l), id as int),
                    );
                }
                // the inverse motion is logged into a frame that is dropped:
                // reverting a reversion is not supported or needed
                let mut redo = DeltaFrame::new();
                let got = map.take_id(x, y, &layer, id);
                let mut object = match got {
                    Some(o) => o,
                    None => {
                        proof {
                            assert(false);
                        }
                        vstd::pervasive::unreached()
                    },
                };
                object.shift_pos((-dx, -dy), &mut redo);
                let npos = object.get_pos();
                map.put_quiet(object);
                if id == map.get_player_id() {
                    map.set_player_cache(npos.0, npos.1);
                }
                proof {
                    assert(map@ =~= undo_delta(g0, d));
                }
            },
            Delta::Deletion { object } => {
                map.put_quiet(object);
                proof {
                    assert(map@ =~= undo_delta(g0, d));
                }
            },
            Delta::Creation { id, pos, layer } => {
                let taken = map.take(pos.0, pos.1, &layer);
                proof {
                    if taken is Some {
                        assert(map@ =~= undo_delta(g0, d));
                    } else {
                        assert(map@ =~= undo_delta(g0, d));
                    }
                }
            },
        }
    }
}

/// The ordered sequence of deltas produced during one logic tick.
pub struct DeltaFrame {
    pub deltas: Vec<Delta>,
}

impl DeltaFrame {
    /// An empty frame.
    pub fn new() -> (f: DeltaFrame)
        ensures
            f.deltas@ == Seq::<Delta>::empty(),
    {
        DeltaFrame { deltas: Vec::new() }
    }

    /// Appends one delta to the frame.
    pub fn push(&mut self, delta: Delta)
        ensures
            final(self).deltas@ == old(self).deltas@.push(delta),
    {
        self.deltas.push(delta);
    }

    /// A frame is trivial iff it records no change.
    pub fn trivial(&self) -> (t: bool)
        ensures
            t == (self.deltas@.len() == 0),
    {
        self.deltas.len() == 0
    }

    /// Reverts every delta of the frame against the grid, in the order they
    /// were recorded, consuming the frame.
    pub fn revert(self, map: &mut WorldMap)
        requires
            old(map).wf(),
            frame_undoable(old(map)@, self.deltas@),
        ensures
            final(map).wf(),
            final(map)@ == undo_frame(old(map)@, self.deltas@),
    {
        let mut rest = self.deltas;
        while rest.len() > 0
            invariant
                map.wf(),
                frame_undoable(map@, rest@),
                undo_frame(old(map)@, self.deltas@) == undo_frame(map@, rest@),
            decreases rest@.len(),
        {
            let ghost r0 = rest@;
            let d = rest.remove(0);
            proof {
                assert(rest@ =~= r0.drop_first());
            }
            d.revert(map);
        }
    }
}

/// A bounded-size, most-recent-first stack of delta frames. Pushing past
/// capacity discards the oldest frame; popping reverts and discards the
/// newest.
pub struct UndoStack {
    stack: std::collections::VecDeque<DeltaFrame>,
    max_depth: usize,
    size: usize,
}

impl UndoStack {
    /// The recorded frames, newest first, each as its delta sequence.
    pub closed spec fn frames(self) -> Seq<Seq<Delta>> {
        Seq::new(self.stack@.len(), |i: int| self.stack@[i].deltas@)
    }

    /// The fixed capacity the stack was created with.
    pub closed spec fn depth(self) -> int {
        self.max_depth as int
    }

    /// Structural invariant: the cached size matches the stack and never
    /// exceeds the capacity.
    pub closed spec fn wf(self) -> bool {
        &&& self.size == self.stack@.len()
        &&& self.stack@.len() <= self.max_depth
        &&& self.max_depth >= 1
    }

    /// An empty history with the given fixed capacity.
    pub fn new(max_depth: usize) -> (s: UndoStack)
        requires
            max_depth >= 1,
        ensures
            s.wf(),
            s.depth() == max_depth,
            s.frames() == Seq::<Seq<Delta>>::empty(),
    {
        let s = UndoStack {
            stack: std::collections::VecDeque::with_capacity(max_depth),
            max_depth,
            size: 0,
        };
        proof {
            assert(s.frames() =~= Seq::<Seq<Delta>>::empty());
        }
        s
    }

    /// Records a frame as the newest entry. Once the capacity is reached the
    /// oldest frame is discarded to make room, so that no more than
    /// `max_depth` frames are ever recoverable.
    pub fn push(&mut self, delta: DeltaFrame)
        requires
            old(self).wf(),
        ensures
            final(self).wf(),
            final(self).depth() == old(self).depth(),
            old(self).frames().len() < old(self).depth() ==> final(self).frames()
                == seq![delta.deltas@] + old(self).frames(),
            old(self).frames().len() == old(self).depth() ==> final(self).frames()
                == seq![delta.deltas@] + old(self).frames().drop_last(),
    {
        let ghost ds = delta.deltas@;
        if self.size == self.max_depth {
            self.stack.pop_back();
            self.stack.push_front(delta);
            proof {
                assert(self.frames() =~= seq![ds] + old(self).frames().drop_last());
            }
        } else {
            self.stack.push_front(delta);
            self.size = self.size + 1;
            proof {
                assert(self.frames() =~= seq![ds] + old(self).frames());
            }
        }
    }

    /// Reverts and discards the most recent frame against the grid; undoing
    /// with an empty history changes nothing at all.
    pub fn pop(&mut self, map: &mut WorldMap)
        requires
            old(self).wf(),
            old(map).wf(),
            old(self).frames().len() > 0 ==> frame_undoable(old(map)@, old(self).frames()[0]),
        ensures
            final(self).wf(),
            final(map).wf(),
            final(self).depth() == old(self).depth(),
            old(self).frames().len() == 0 ==> final(self).frames() == old(self).frames()
                && *final(map) == *old(map),
            old(self).frames().len() > 0 ==> final(self).frames() == old(self).frames().drop_first()
                && final(map)@ == undo_frame(old(map)@, old(self).frames()[0]),
    {
        if self.size > 0 {
            let f = match self.stack.pop_front() {
                Some(f) => f,
                None => {
                    proof {
                        assert(false);
                    }
                    vstd::pervasive::unreached()
                },
            };
            self.size = self.size - 1;
            proof {
                assert(self.frames() =~= old(self).frames().drop_first());
                assert(f.deltas@ == old(self).frames()[0]);
            }
            f.revert(map);
        }
    }
}

} // verus!
