//! The laws the engine obeys, proved once and for all: a blocked chain never
//! moves, and the frame a successful move records is an exact inverse — undone
//! delta by delta it restores the pre-move grid, and a run of moves is undone
//! by the same number of pops.

use vstd::prelude::*;
use crate::object::{GameObject, Layer, layer_index_spec, NUMBER_OF_LAYERS};
use crate::model::{
    GridModel,
    inb,
    stk,
    solid,
    at_pos,
    moved_model,
    first_match,
    undo_delta,
    undo_frame,
    frame_undoable,
    delta_undoable,
};
use crate::delta::Delta;
use crate::moves::{
    is_unit,
    chain_x,
    chain_y,
    chain_obj,
    shifted_chain_obj,
    chain_ok,
    push_pre,
    push_deltas,
    off_chain,
    mid_stack,
    mid_commit,
    lemma_chain_cells,
    lemma_chain_distinct,
};

verus! {

/// The Solid stack the k-th chain cell holds once the first j deltas of a
/// move's frame have been undone: objects before j are back home, the j-th
/// cell is in between, objects after j are still shifted.
pub open spec fn undo_stack_at(g0: GridModel, dx: int, dy: int, j: nat, k: nat) -> Seq<
    GameObject,
> {
    if k < j {
        solid(g0, chain_x(g0, dx, k), chain_y(g0, dy, k))
    } else if k == j {
        Seq::<GameObject>::empty()
    } else {
        seq![shifted_chain_obj(g0, dx, dy, (k - 1) as nat)]
    }
}

/// Pointwise description of the grid once the first j deltas of a move's
/// frame have been undone; j = 0 is the post-move grid, j = m + 1 the
/// pre-move grid.
pub open spec fn undo_mid(g0: GridModel, g: GridModel, dx: int, dy: int, m: nat, j: nat) -> bool {
    &&& g.width == g0.width
    &&& g.height == g0.height
    &&& g.player_id == g0.player_id
    &&& g.player_x == if j == 0 {
        chain_x(g0, dx, 1)
    } else {
        g0.player_x
    }
    &&& g.player_y == if j == 0 {
        chain_y(g0, dy, 1)
    } else {
        g0.player_y
    }
    &&& g.cells.dom() == g0.cells.dom()
    &&& forall|x: int, y: int, l: int|
        inb(g0, x, y) && 0 <= l < NUMBER_OF_LAYERS && l != layer_index_spec(Layer::Solid)
            ==> #[trigger] stk(g, x, y, l) == stk(g0, x, y, l)
    &&& forall|x: int, y: int|
        inb(g0, x, y) && off_chain(g0, dx, dy, (m + 1) as nat, x, y) ==> #[trigger] solid(g, x, y)
            == solid(g0, x, y)
    &&& forall|k: nat|
        k <= m + 1 ==> #[trigger] solid(g, chain_x(g0, dx, k), chain_y(g0, dy, k)) == undo_stack_at(
            g0,
            dx,
            dy,
            j,
            k,
        )
}

/// The grid a successful move leaves behind is the fully un-undone state.
pub proof fn lemma_mid_to_undo(g0: GridModel, g: GridModel, dx: int, dy: int, m: nat)
    requires
        push_pre(g0),
        is_unit(dx, dy),
        chain_ok(g0, dx, dy, m),
        mid_commit(g0, g, dx, dy, m, (m + 1) as nat),
    ensures
        undo_mid(g0, g, dx, dy, m, 0),
{
    assert forall|k: nat|
        k <= m + 1 implies #[trigger] solid(g, chain_x(g0, dx, k), chain_y(g0, dy, k))
            == undo_stack_at(g0, dx, dy, 0, k) by {
        assert(solid(g, chain_x(g0, dx, k), chain_y(g0, dy, k)) == mid_stack(
            g0,
            dx,
            dy,
            (m + 1) as nat,
            k,
        ));
        if k == m + 1 {
            assert(solid(g0, chain_x(g0, dx, k), chain_y(g0, dy, k)).len() == 0);
            assert(mid_stack(g0, dx, dy, (m + 1) as nat, k) =~= undo_stack_at(g0, dx, dy, 0, k));
        }
    }
}

/// Undoing the j-th delta of a move's frame takes the grid one step back
/// along the undone description.
#[verifier::rlimit(40)]
pub proof fn lemma_undo_step(g0: GridModel, g: GridModel, dx: int, dy: int, m: nat, j: nat)
    requires
        push_pre(g0),
        is_unit(dx, dy),
        chain_ok(g0, dx, dy, m),
        j <= m,
        undo_mid(g0, g, dx, dy, m, j),
    ensures
        delta_undoable(g, push_deltas(g0, dx, dy, m)[j as int]),
        undo_mid(g0, undo_delta(g, push_deltas(g0, dx, dy, m)[j as int]), dx, dy, m, (j + 1) as nat),
{
    lemma_chain_cells(g0, dx, dy, m);
    let l = layer_index_spec(Layer::Solid);
    let d = push_deltas(g0, dx, dy, m)[j as int];
    let o = chain_obj(g0, dx, dy, j);
    let cx = chain_x(g0, dx, j);
    let cy = chain_y(g0, dy, j);
    let nx = chain_x(g0, dx, (j + 1) as nat);
    let ny = chain_y(g0, dy, (j + 1) as nat);
    assert(d == Delta::Motion {
        id: o.id,
        x: nx as i32,
        y: ny as i32,
        layer: Layer::Solid,
        dx: dx as i32,
        dy: dy as i32,
    });
    assert(nx as i32 as int == nx && ny as i32 as int == ny);
    let s = solid(g, nx, ny);
    assert(s == undo_stack_at(g0, dx, dy, j, (j + 1) as nat));
    assert(s == seq![shifted_chain_obj(g0, dx, dy, j)]);
    assert(s[0].id == o.id);
    assert(first_match(s, o.id as int) == 0);
    assert(nx - dx == cx && ny - dy == cy);
    let gm = moved_model(g, o.id as int, nx, ny, l, -dx, -dy);
    assert(undo_delta(g, d) == gm);
    lemma_chain_distinct(g0, dx, dy, j, (j + 1) as nat);
    // the object returns exactly to its pre-move self
    assert(at_pos(s[0], cx, cy) == o);
    assert(solid(g, cx, cy) == undo_stack_at(g0, dx, dy, j, j));
    assert(stk(gm, cx, cy, l) =~= seq![o]);
    assert(seq![o] =~= solid(g0, cx, cy));
    // the tracked player follows exactly when the player's own delta is undone
    if j == 0 {
        assert(o.id == g0.player_id);
    } else {
        assert(o.id != g0.player_id);
    }
    assert(gm.cells.dom() =~= g0.cells.dom());
    assert forall|x: int, y: int, l2: int|
        inb(g0, x, y) && 0 <= l2 < NUMBER_OF_LAYERS && l2 != l implies #[trigger] stk(gm, x, y, l2)
            == stk(g0, x, y, l2) by {
        assert(stk(gm, x, y, l2) == stk(g, x, y, l2));
    }
    assert forall|x: int, y: int|
        inb(g0, x, y) && off_chain(g0, dx, dy, (m + 1) as nat, x, y) implies #[trigger] solid(
            gm,
            x,
            y,
        ) == solid(g0, x, y) by {
        assert(x != chain_x(g0, dx, j) || y != #[trigger] chain_y(g0, dy, j));
        assert(x != chain_x(g0, dx, (j + 1) as nat) || y != chain_y(g0, dy, (j + 1) as nat));
        assert(solid(gm, x, y) == solid(g, x, y));
    }
    assert forall|k: nat|
        k <= m + 1 implies #[trigger] solid(gm, chain_x(g0, dx, k), chain_y(g0, dy, k))
            == undo_stack_at(g0, dx, dy, (j + 1) as nat, k) by {
        let kx = chain_x(g0, dx, k);
        let ky = chain_y(g0, dy, k);
        if k == j {
            assert(solid(gm, kx, ky) =~= seq![o]);
            assert(undo_stack_at(g0, dx, dy, (j + 1) as nat, k) == solid(g0, kx, ky));
        } else if k == j + 1 {
            assert(solid(gm, kx, ky) =~= Seq::<GameObject>::empty());
        } else {
            lemma_chain_distinct(g0, dx, dy, k, j);
            lemma_chain_distinct(g0, dx, dy, k, (j + 1) as nat);
            assert(solid(gm, kx, ky) == solid(g, kx, ky));
            assert(undo_stack_at(g0, dx, dy, j, k) == undo_stack_at(g0, dx, dy, (j + 1) as nat, k));
        }
    }
}

/// Undoing the rest of a move's frame, from the j-th delta on, restores the
/// pre-move grid exactly.
pub proof fn lemma_unwind(g0: GridModel, g: GridModel, dx: int, dy: int, m: nat, j: nat)
    requires
        push_pre(g0),
        is_unit(dx, dy),
        chain_ok(g0, dx, dy, m),
        j <= m + 1,
        undo_mid(g0, g, dx, dy, m, j),
    ensures
        frame_undoable(g, push_deltas(g0, dx, dy, m).skip(j as int)),
        undo_frame(g, push_deltas(g0, dx, dy, m).skip(j as int)) == g0,
    decreases m + 1 - j,
{
    lemma_chain_cells(g0, dx, dy, m);
    let ds = push_deltas(g0, dx, dy, m).skip(j as int);
    if j == m + 1 {
        assert(ds.len() == 0);
        assert forall|k: (int, int, int)| g0.cells.dom().contains(k) implies g.cells[k]
            == g0.cells[k] by {
            let (x, y, l) = k;
            if l != layer_index_spec(Layer::Solid) {
                assert(stk(g, x, y, l) == stk(g0, x, y, l));
            } else if off_chain(g0, dx, dy, (m + 1) as nat, x, y) {
                assert(solid(g, x, y) == solid(g0, x, y));
            } else {
                let k2 = choose|k2: nat|
                    k2 <= m + 1 && x == chain_x(g0, dx, k2) && y == chain_y(g0, dy, k2);
                assert(solid(g, x, y) == undo_stack_at(g0, dx, dy, j, k2));
                if k2 == m + 1 {
                    assert(solid(g0, chain_x(g0, dx, k2), chain_y(g0, dy, k2)).len() == 0);
                    assert(solid(g, x, y) =~= solid(g0, x, y));
                }
            }
        }
        assert(g.cells =~= g0.cells);
        assert(g =~= g0);
    } else {
        lemma_undo_step(g0, g, dx, dy, m, j);
        let g2 = undo_delta(g, push_deltas(g0, dx, dy, m)[j as int]);
        lemma_unwind(g0, g2, dx, dy, m, (j + 1) as nat);
        assert(ds[0] == push_deltas(g0, dx, dy, m)[j as int]);
        assert(ds.drop_first() =~= push_deltas(g0, dx, dy, m).skip(j as int + 1));
    }
}

/// Undo inverse law, one move: the frame a successful move records, reverted
/// delta by delta in recorded order against the post-move grid, restores the
/// pre-move grid exactly — positions, ids and layers alike.
pub proof fn lemma_move_frame_inverse(g0: GridModel, g: GridModel, dx: int, dy: int, m: nat)
    requires
        push_pre(g0),
        is_unit(dx, dy),
        chain_ok(g0, dx, dy, m),
        mid_commit(g0, g, dx, dy, m, (m + 1) as nat),
    ensures
        frame_undoable(g, push_deltas(g0, dx, dy, m)),
        undo_frame(g, push_deltas(g0, dx, dy, m)) == g0,
{
    lemma_mid_to_undo(g0, g, dx, dy, m);
    lemma_unwind(g0, g, dx, dy, m, 0);
    assert(push_deltas(g0, dx, dy, m).skip(0) =~= push_deltas(g0, dx, dy, m));
}

/// The grid after a stack of frames, newest first, is undone one after the
/// other.
pub open spec fn undo_all(g: GridModel, frames: Seq<Seq<Delta>>) -> GridModel
    decreases frames.len(),
{
    if frames.len() == 0 {
        g
    } else {
        undo_all(undo_frame(g, frames[0]), frames.drop_first())
    }
}

/// Whether a stack of frames, newest first, can be undone one after the
/// other.
pub open spec fn all_undoable(g: GridModel, frames: Seq<Seq<Delta>>) -> bool
    decreases frames.len(),
{
    frames.len() == 0 || (frame_undoable(g, frames[0]) && all_undoable(
        undo_frame(g, frames[0]),
        frames.drop_first(),
    ))
}

/// Undo inverse law, any run: for states g_0 .. g_n where each recorded frame
/// i turns g_i into g_(i+1) and undoes back to g_i, undoing all n frames
/// newest-first from g_n restores g_0 exactly.
pub proof fn lemma_undo_inverse(states: Seq<GridModel>, frames: Seq<Seq<Delta>>)
    requires
        states.len() == frames.len() + 1,
        forall|i: int|
            0 <= i < frames.len() ==> frame_undoable(states[i + 1], #[trigger] frames[i])
                && undo_frame(states[i + 1], frames[i]) == states[i],
    ensures
        all_undoable(states.last(), frames.reverse()),
        undo_all(states.last(), frames.reverse()) == states[0],
    decreases frames.len(),
{
    if frames.len() > 0 {
        let n = frames.len() as int;
        assert(frames.reverse()[0] == frames[n - 1]);
        assert(undo_frame(states.last(), frames.reverse()[0]) == states[n - 1]);
        lemma_undo_inverse(states.drop_last(), frames.drop_last());
        assert(states.drop_last().last() == states[n - 1]);
        assert(frames.reverse().drop_first() =~= frames.drop_last().reverse());
        assert(states.drop_last()[0] == states[0]);
    }
}

} // verus!
