//! The mathematical model of the world grid, and the meaning of reverting a
//! delta against it. Every contract of the grid and of the undo machinery is
//! stated over this model.

use vstd::prelude::*;
use crate::object::{GameObject, Layer, layer_index_spec, NUMBER_OF_LAYERS};
use crate::delta::Delta;

verus! {

/// The abstract state of a world map: its dimensions, the tracked player
/// handle, and for every in-bounds cell and layer the stack of objects
/// present there (index 0 is the bottom, the last index the top).
#[verifier::ext_equal]
pub struct GridModel {
    pub width: int,
    pub height: int,
    pub player_id: int,
    pub player_x: int,
    pub player_y: int,
    pub cells: Map<(int, int, int), Seq<GameObject>>,
}

/// Whether (x, y) lies on the grid.
pub open spec fn inb(g: GridModel, x: int, y: int) -> bool {
    0 <= x < g.width && 0 <= y < g.height
}

/// The object stack of one cell and layer.
pub open spec fn stk(g: GridModel, x: int, y: int, l: int) -> Seq<GameObject> {
    g.cells[(x, y, l)]
}

/// The model with one cell/layer stack replaced.
pub open spec fn set_stk(g: GridModel, x: int, y: int, l: int, s: Seq<GameObject>) -> GridModel {
    GridModel { cells: g.cells.insert((x, y, l), s), ..g }
}

/// Well-formedness of a grid model: positive dimensions that fit the machine,
/// a cell map keyed by exactly the in-bounds (x, y, layer) triples, and every
/// stored object positioned in the cell and layer that physically holds it.
pub open spec fn gm_wf(g: GridModel) -> bool {
    &&& 1 <= g.width <= i32::MAX
    &&& 1 <= g.height <= i32::MAX
    &&& g.cells.dom() == Set::new(
        |k: (int, int, int)| inb(g, k.0, k.1) && 0 <= k.2 < NUMBER_OF_LAYERS,
    )
    &&& forall|x: int, y: int, l: int, i: int|
        inb(g, x, y) && 0 <= l < NUMBER_OF_LAYERS && 0 <= i < stk(g, x, y, l).len()
            ==> #[trigger] stk(g, x, y, l)[i].x == x && stk(g, x, y, l)[i].y == y && l
            == layer_index_spec(Layer::Solid)
}

/// At most one Solid-layer object occupies any cell: the design does not
/// handle stacking collisions in the Solid layer.
pub open spec fn solid_flat(g: GridModel) -> bool {
    forall|x: int, y: int|
        inb(g, x, y) ==> #[trigger] stk(g, x, y, layer_index_spec(Layer::Solid)).len() <= 1
}

/// The Solid-layer stack of one cell.
pub open spec fn solid(g: GridModel, x: int, y: int) -> Seq<GameObject> {
    stk(g, x, y, layer_index_spec(Layer::Solid))
}

/// The tracked player handle points at an in-bounds cell whose Solid stack
/// holds the player object, and no other object anywhere carries the player's
/// id: ids are assigned uniquely, and there is exactly one player.
pub open spec fn player_unique(g: GridModel) -> bool {
    &&& inb(g, g.player_x, g.player_y)
    &&& has_id(solid(g, g.player_x, g.player_y), g.player_id)
    &&& forall|x: int, y: int, i: int|
        inb(g, x, y) && 0 <= i < solid(g, x, y).len() && (#[trigger] solid(g, x, y)[i]).id
            == g.player_id ==> x == g.player_x && y == g.player_y
}

/// In a well-formed model, every stored object is positioned in the cell and
/// layer that physically holds it.
pub proof fn lemma_stack_objs(g: GridModel, x: int, y: int, l: int, i: int)
    requires
        gm_wf(g),
        inb(g, x, y),
        0 <= l < NUMBER_OF_LAYERS,
        0 <= i < stk(g, x, y, l).len(),
    ensures
        stk(g, x, y, l)[i].x as int == x,
        stk(g, x, y, l)[i].y as int == y,
        l == layer_index_spec(Layer::Solid),
{
    assert(stk(g, x, y, l)[i].x == x && stk(g, x, y, l)[i].y == y && l == layer_index_spec(
        Layer::Solid,
    ));
}

/// Index of the first object with the given id in a stack, or -1 if absent.
pub open spec fn first_match(s: Seq<GameObject>, id: int) -> int
    decreases s.len(),
{
    if s.len() == 0 {
        -1
    } else if s[0].id == id {
        0
    } else if first_match(s.drop_first(), id) < 0 {
        -1
    } else {
        1 + first_match(s.drop_first(), id)
    }
}

/// Whether some object in the stack carries the given id.
pub open spec fn has_id(s: Seq<GameObject>, id: int) -> bool {
    first_match(s, id) >= 0
}

/// What `first_match` finds: the least index carrying the id, if any.
pub proof fn lemma_first_match(s: Seq<GameObject>, id: int)
    ensures
        has_id(s, id) <==> exists|i: int| 0 <= i < s.len() && s[i].id == id,
        has_id(s, id) ==> {
            let f = first_match(s, id);
            &&& 0 <= f < s.len()
            &&& s[f].id == id
            &&& forall|j: int| 0 <= j < f ==> s[j].id != id
        },
    decreases s.len(),
{
    if s.len() > 0 && s[0].id != id {
        lemma_first_match(s.drop_first(), id);
        if has_id(s.drop_first(), id) {
            let f = first_match(s.drop_first(), id);
            assert(s[1 + f] == s.drop_first()[f]);
            assert(forall|j: int| 1 <= j < 1 + f ==> s[j] == s.drop_first()[j - 1]);
        } else {
            assert(forall|i: int|
                1 <= i < s.len() ==> s[i] == s.drop_first()[i - 1]);
        }
    }
}

/// The same object relocated to the given position.
pub open spec fn at_pos(o: GameObject, x: int, y: int) -> GameObject {
    GameObject { x: x as i32, y: y as i32, ..o }
}

/// The model after the first object with the given id in the stack at
/// (x, y, l) is removed and re-inserted on top of the stack at
/// (x + dx, y + dy, l), with its position updated; the tracked player handle
/// follows when the id is the player's. If no such object is present the
/// model is unchanged.
pub open spec fn moved_model(g: GridModel, id: int, x: int, y: int, l: int, dx: int, dy: int)
    -> GridModel {
    let s = stk(g, x, y, l);
    if has_id(s, id) {
        let f = first_match(s, id);
        let o2 = at_pos(s[f], x + dx, y + dy);
        let g1 = set_stk(g, x, y, l, s.remove(f));
        let g2 = set_stk(g1, x + dx, y + dy, l, stk(g1, x + dx, y + dy, l).push(o2));
        GridModel {
            player_x: if id == g.player_id { x + dx } else { g.player_x },
            player_y: if id == g.player_id { y + dy } else { g.player_y },
            ..g2
        }
    } else {
        g
    }
}

/// When a delta can be reverted against a model without faulting: a motion's
/// subject must still be where the record says, and both ends of the inverse
/// displacement must be on the grid; a deletion's stored object must carry an
/// in-bounds position.
pub open spec fn delta_undoable(g: GridModel, d: Delta) -> bool {
    match d {
        Delta::Motion { id, x, y, layer, dx, dy } => {
            &&& inb(g, x as int, y as int)
            &&& has_id(stk(g, x as int, y as int, layer_index_spec(layer)), id as int)
            &&& inb(g, x - dx, y - dy)
            &&& i32::MIN < dx as int
            &&& i32::MIN < dy as int
        },
        Delta::Deletion { object } => inb(g, object.x as int, object.y as int),
        Delta::Creation { id, pos, layer } => true,
    }
}

/// The model after one delta is reverted: a motion re-applies the inverse
/// displacement to the object found by id at its recorded (post-move)
/// position; a deletion re-inserts the owned object at its stored position; a
/// creation removes whatever object currently tops the recorded
/// position/layer slot, if any.
pub open spec fn undo_delta(g: GridModel, d: Delta) -> GridModel {
    match d {
        Delta::Motion { id, x, y, layer, dx, dy } => moved_model(
            g,
            id as int,
            x as int,
            y as int,
            layer_index_spec(layer),
            -(dx as int),
            -(dy as int),
        ),
        Delta::Deletion { object } => {
            let l = layer_index_spec(Layer::Solid);
            set_stk(
                g,
                object.x as int,
                object.y as int,
                l,
                stk(g, object.x as int, object.y as int, l).push(object),
            )
        },
        Delta::Creation { id, pos, layer } => {
            let l = layer_index_spec(layer);
            if inb(g, pos.0 as int, pos.1 as int) && stk(g, pos.0 as int, pos.1 as int, l).len()
                > 0 {
                set_stk(
                    g,
                    pos.0 as int,
                    pos.1 as int,
                    l,
                    stk(g, pos.0 as int, pos.1 as int, l).drop_last(),
                )
            } else {
                g
            }
        },
    }
}

/// When a whole frame can be reverted, delta by delta in recorded order,
/// against the models that successively arise.
pub open spec fn frame_undoable(g: GridModel, ds: Seq<Delta>) -> bool
    decreases ds.len(),
{
    ds.len() == 0 || (delta_undoable(g, ds[0]) && frame_undoable(
        undo_delta(g, ds[0]),
        ds.drop_first(),
    ))
}

/// The model after a whole frame is reverted, delta by delta in recorded
/// order.
pub open spec fn undo_frame(g: GridModel, ds: Seq<Delta>) -> GridModel
    decreases ds.len(),
{
    if ds.len() == 0 {
        g
    } else {
        undo_frame(undo_delta(g, ds[0]), ds.drop_first())
    }
}

} // verus!
