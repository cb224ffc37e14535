//! Push resolution: given a unit direction, the transitive closure of Solid
//! objects that must move together with the player, its legality, and the
//! atomic check-then-commit move.

use vstd::prelude::*;
use crate::object::{GameObject, Layer, layer_index_spec, NUMBER_OF_LAYERS};
use crate::model::{
    GridModel,
    gm_wf,
    inb,
    stk,
    solid,
    set_stk,
    solid_flat,
    player_unique,
    first_match,
    has_id,
    at_pos,
    moved_model,
    lemma_first_match,
    lemma_stack_objs,
};
use crate::delta::{Delta, DeltaFrame};
use crate::map::WorldMap;

verus! {

/// How many ticks a committed move blocks further input while its animation
/// plays.
pub const ANIMATION_LENGTH: u32 = 6;

/// How many ticks a consumed undo keeps further held-key undos waiting.
pub const UNDO_COOLDOWN_MAX: u32 = 6;

/// Whether the game is ready to receive new input: `Wait(n)` means n ticks of
/// animation are left before the next grid step may happen.
#[derive(Clone, Copy, PartialEq, Eq, Structural, Debug)]
pub enum AnimationState {
    Ready,
    Wait(u32),
}

/// One tick of the animation gate: waiting counts down tick by tick and then
/// returns to ready; this keeps the grid to at most one step per animation
/// window, decoupling simulation rate from frame rate.
pub fn anim_step(s: AnimationState) -> (r: AnimationState)
    ensures
        match s {
            AnimationState::Ready => r == AnimationState::Ready,
            AnimationState::Wait(n) => r == if n > 0 {
                AnimationState::Wait((n - 1) as u32)
            } else {
                AnimationState::Ready
            },
        },
{
    match s {
        AnimationState::Ready => AnimationState::Ready,
        AnimationState::Wait(n) => if n > 0 {
            AnimationState::Wait(n - 1)
        } else {
            AnimationState::Ready
        },
    }
}

/// The four unit directions a move may take.
pub open spec fn is_unit(dx: int, dy: int) -> bool {
    ||| (dx == 1 && dy == 0)
    ||| (dx == -1 && dy == 0)
    ||| (dx == 0 && dy == 1)
    ||| (dx == 0 && dy == -1)
}

/// x-coordinate of the k-th cell of the push chain: the player's cell for
/// k = 0, then one step in the direction per index.
pub open spec fn chain_x(g: GridModel, dx: int, k: nat) -> int
    decreases k,
{
    if k == 0 {
        g.player_x
    } else {
        chain_x(g, dx, (k - 1) as nat) + dx
    }
}

/// y-coordinate of the k-th cell of the push chain.
pub open spec fn chain_y(g: GridModel, dy: int, k: nat) -> int
    decreases k,
{
    if k == 0 {
        g.player_y
    } else {
        chain_y(g, dy, (k - 1) as nat) + dy
    }
}

/// The object occupying the k-th chain cell (the top of its Solid stack).
pub open spec fn chain_obj(g: GridModel, dx: int, dy: int, k: nat) -> GameObject {
    solid(g, chain_x(g, dx, k), chain_y(g, dy, k)).last()
}

/// The k-th chain object as it stands after the move: relocated one step.
pub open spec fn shifted_chain_obj(g: GridModel, dx: int, dy: int, k: nat) -> GameObject {
    at_pos(chain_obj(g, dx, dy, k), chain_x(g, dx, (k + 1) as nat), chain_y(g, dy, (k + 1) as nat))
}

/// The move is legal with a chain of exactly m pushed objects: the cells at
/// indices 1..=m hold pushable Solid objects, and the cell one past the chain
/// is on the grid and free of Solid objects.
pub open spec fn chain_ok(g: GridModel, dx: int, dy: int, m: nat) -> bool {
    &&& forall|k: nat|
        1 <= k <= m ==> inb(g, #[trigger] chain_x(g, dx, k), chain_y(g, dy, k)) && solid(
            g,
            chain_x(g, dx, k),
            chain_y(g, dy, k),
        ).len() > 0 && solid(g, chain_x(g, dx, k), chain_y(g, dy, k)).last().pushable
    &&& inb(g, chain_x(g, dx, (m + 1) as nat), chain_y(g, dy, (m + 1) as nat))
    &&& solid(g, chain_x(g, dx, (m + 1) as nat), chain_y(g, dy, (m + 1) as nat)).len() == 0
}

/// Whether the player can move in the given direction at all.
pub open spec fn move_legal(g: GridModel, dx: int, dy: int) -> bool {
    exists|m: nat| chain_ok(g, dx, dy, m)
}

/// What a caller must establish before asking for a move: a well-formed
/// model, at most one Solid object per cell, and a unique tracked player.
pub open spec fn push_pre(g: GridModel) -> bool {
    &&& gm_wf(g)
    &&& solid_flat(g)
    &&& player_unique(g)
}

/// The motion deltas a successful move with chain length m records, in commit
/// order: the player's first, then each pushed object's, each carrying the
/// object's id, its resulting position, and the displacement.
pub open spec fn push_deltas(g0: GridModel, dx: int, dy: int, m: nat) -> Seq<Delta> {
    Seq::new(
        (m + 1) as nat,
        |k: int|
            Delta::Motion {
                id: chain_obj(g0, dx, dy, k as nat).id,
                x: chain_x(g0, dx, (k + 1) as nat) as i32,
                y: chain_y(g0, dy, (k + 1) as nat) as i32,
                layer: Layer::Solid,
                dx: dx as i32,
                dy: dy as i32,
            },
    )
}

/// True when (x, y) is none of the chain cells with index at most hi.
pub open spec fn off_chain(g0: GridModel, dx: int, dy: int, hi: nat, x: int, y: int) -> bool {
    forall|k: nat| k <= hi ==> x != chain_x(g0, dx, k) || y != #[trigger] chain_y(g0, dy, k)
}

/// The Solid stack the k-th chain cell holds after the first n chain objects
/// have been committed (moved one step each), in terms of the pre-move model.
pub open spec fn mid_stack(g0: GridModel, dx: int, dy: int, n: nat, k: nat) -> Seq<GameObject> {
    if k < n {
        if k == 0 {
            Seq::<GameObject>::empty()
        } else {
            seq![shifted_chain_obj(g0, dx, dy, (k - 1) as nat)]
        }
    } else if k == n && n >= 1 {
        solid(g0, chain_x(g0, dx, k), chain_y(g0, dy, k)).push(
            shifted_chain_obj(g0, dx, dy, (n - 1) as nat),
        )
    } else {
        solid(g0, chain_x(g0, dx, k), chain_y(g0, dy, k))
    }
}

/// Pointwise description of the grid after the first n of the m + 1 chain
/// objects have been committed: chain cells hold `mid_stack`, every other
/// stack is untouched, and the tracked player has advanced one step as soon
/// as the first object (the player) moved. With n = m + 1 this describes the
/// grid a successful move leaves behind.
pub open spec fn mid_commit(
    g0: GridModel,
    g: GridModel,
    dx: int,
    dy: int,
    m: nat,
    n: nat,
) -> bool {
    &&& g.width == g0.width
    &&& g.height == g0.height
    &&& g.player_id == g0.player_id
    &&& g.player_x == if n == 0 {
        g0.player_x
    } else {
        chain_x(g0, dx, 1)
    }
    &&& g.player_y == if n == 0 {
        g0.player_y
    } else {
        chain_y(g0, dy, 1)
    }
    &&& g.cells.dom() == g0.cells.dom()
    &&& forall|x: int, y: int, l: int|
        inb(g0, x, y) && 0 <= l < NUMBER_OF_LAYERS && l != layer_index_spec(Layer::Solid)
            ==> #[trigger] stk(g, x, y, l) == stk(g0, x, y, l)
    &&& forall|x: int, y: int|
        inb(g0, x, y) && off_chain(g0, dx, dy, (m + 1) as nat, x, y) ==> #[trigger] solid(g, x, y)
            == solid(g0, x, y)
    &&& forall|k: nat|
        k <= m + 1 ==> #[trigger] solid(g, chain_x(g0, dx, k), chain_y(g0, dy, k)) == mid_stack(
            g0,
            dx,
            dy,
            n,
            k,
        )
}

/// Chain coordinates are affine in the index.
pub proof fn lemma_chain_affine(g: GridModel, dx: int, dy: int, k: nat)
    ensures
        chain_x(g, dx, k) == g.player_x + k * dx,
        chain_y(g, dy, k) == g.player_y + k * dy,
    decreases k,
{
    if k == 0 {
        assert(0 * dx == 0) by (nonlinear_arith);
        assert(0 * dy == 0) by (nonlinear_arith);
    } else {
        lemma_chain_affine(g, dx, dy, (k - 1) as nat);
        assert((k - 1) * dx + dx == k * dx) by (nonlinear_arith);
        assert((k - 1) * dy + dy == k * dy) by (nonlinear_arith);
    }
}

/// Along a unit direction, distinct chain indices name distinct cells.
pub proof fn lemma_chain_distinct(g: GridModel, dx: int, dy: int, i: nat, j: nat)
    requires
        is_unit(dx, dy),
        i != j,
    ensures
        chain_x(g, dx, i) != chain_x(g, dx, j) || chain_y(g, dy, i) != chain_y(g, dy, j),
{
    lemma_chain_affine(g, dx, dy, i);
    lemma_chain_affine(g, dx, dy, j);
    if dx != 0 {
        assert(i * dx != j * dx) by (nonlinear_arith)
            requires
                i != j,
                dx == 1 || dx == -1,
        ;
    } else {
        assert(i * dy != j * dy) by (nonlinear_arith)
            requires
                i != j,
                dy == 1 || dy == -1,
        ;
    }
}

/// What the chain cells of a legal move look like before it: the player's
/// cell holds exactly the player; each pushed cell holds exactly one pushable
/// object, positioned there, whose id is not the player's.
pub proof fn lemma_chain_cells(g: GridModel, dx: int, dy: int, m: nat)
    requires
        push_pre(g),
        is_unit(dx, dy),
        chain_ok(g, dx, dy, m),
    ensures
        forall|k: nat| k <= m + 1 ==> inb(g, #[trigger] chain_x(g, dx, k), chain_y(g, dy, k)),
        forall|k: nat|
            k <= m ==> (#[trigger] solid(g, chain_x(g, dx, k), chain_y(g, dy, k))).len() == 1,
        chain_obj(g, dx, dy, 0).id == g.player_id,
        forall|k: nat|
            1 <= k <= m ==> (#[trigger] chain_obj(g, dx, dy, k)).id != g.player_id,
        forall|k: nat|
            k <= m ==> (#[trigger] chain_obj(g, dx, dy, k)).x as int == chain_x(g, dx, k)
                && chain_obj(g, dx, dy, k).y as int == chain_y(g, dy, k),
{
    let s0 = solid(g, chain_x(g, dx, 0), chain_y(g, dy, 0));
    lemma_first_match(s0, g.player_id);
    assert(s0.len() == 1);
    assert(s0[first_match(s0, g.player_id)].id == g.player_id);
    assert(chain_obj(g, dx, dy, 0).id == g.player_id);
    assert forall|k: nat|
        1 <= k <= m implies (#[trigger] chain_obj(g, dx, dy, k)).id != g.player_id by {
        let cx = chain_x(g, dx, k);
        let cy = chain_y(g, dy, k);
        lemma_chain_distinct(g, dx, dy, k, 0);
        if chain_obj(g, dx, dy, k).id == g.player_id {
            let s = solid(g, cx, cy);
            assert(s[s.len() - 1].id == g.player_id);
            assert(cx == g.player_x && cy == g.player_y);
        }
    }
    assert forall|k: nat|
        k <= m implies (#[trigger] chain_obj(g, dx, dy, k)).x as int == chain_x(g, dx, k)
            && chain_obj(g, dx, dy, k).y as int == chain_y(g, dy, k) by {
        let cx = chain_x(g, dx, k);
        let cy = chain_y(g, dy, k);
        let s = solid(g, cx, cy);
        lemma_stack_objs(g, cx, cy, layer_index_spec(Layer::Solid), s.len() - 1);
    }
}

/// The first `len - 1` cells ahead of the player all hold pushable Solid
/// objects.
pub open spec fn chain_prefix(g: GridModel, dx: int, dy: int, len: int) -> bool {
    forall|j: int|
        1 <= j < len ==> inb(g, chain_x(g, dx, j as nat), chain_y(g, dy, j as nat)) && (
        #[trigger] solid(g, chain_x(g, dx, j as nat), chain_y(g, dy, j as nat))).len() > 0 && solid(
            g,
            chain_x(g, dx, j as nat),
            chain_y(g, dy, j as nat),
        ).last().pushable
}

/// A chain of pushable objects that runs off the grid blocks the move, no
/// matter how long it is.
pub proof fn lemma_blocked_edge(g: GridModel, dx: int, dy: int, k: nat)
    requires
        chain_prefix(g, dx, dy, k + 1 as int),
        !inb(g, chain_x(g, dx, (k + 1) as nat), chain_y(g, dy, (k + 1) as nat)),
    ensures
        !move_legal(g, dx, dy),
{
    assert forall|m2: nat| !chain_ok(g, dx, dy, m2) by {
        if chain_ok(g, dx, dy, m2) {
            if m2 < k {
                assert(solid(
                    g,
                    chain_x(g, dx, (m2 + 1) as nat),
                    chain_y(g, dy, (m2 + 1) as nat),
                ).len() == 0);
                assert(false);
            } else if m2 == k {
                assert(inb(g, chain_x(g, dx, (k + 1) as nat), chain_y(g, dy, (k + 1) as nat)));
                assert(false);
            } else {
                assert(inb(g, chain_x(g, dx, (k + 1) as nat), chain_y(g, dy, (k + 1) as nat)));
                assert(false);
            }
        }
    }
}

/// A chain of pushable objects that runs into an unpushable object (a wall)
/// blocks the move, no matter how long it is.
pub proof fn lemma_blocked_wall(g: GridModel, dx: int, dy: int, k: nat)
    requires
        chain_prefix(g, dx, dy, k + 1 as int),
        inb(g, chain_x(g, dx, (k + 1) as nat), chain_y(g, dy, (k + 1) as nat)),
        solid(g, chain_x(g, dx, (k + 1) as nat), chain_y(g, dy, (k + 1) as nat)).len() > 0,
        !solid(g, chain_x(g, dx, (k + 1) as nat), chain_y(g, dy, (k + 1) as nat)).last().pushable,
    ensures
        !move_legal(g, dx, dy),
{
    assert forall|m2: nat| !chain_ok(g, dx, dy, m2) by {
        if chain_ok(g, dx, dy, m2) {
            if m2 < k {
                assert(solid(
                    g,
                    chain_x(g, dx, (m2 + 1) as nat),
                    chain_y(g, dy, (m2 + 1) as nat),
                ).len() == 0);
                assert(false);
            } else if m2 == k {
                assert(solid(
                    g,
                    chain_x(g, dx, (k + 1) as nat),
                    chain_y(g, dy, (k + 1) as nat),
                ).len() == 0);
                assert(false);
            } else {
                assert(solid(
                    g,
                    chain_x(g, dx, (k + 1) as nat),
                    chain_y(g, dy, (k + 1) as nat),
                ).last().pushable);
                assert(false);
            }
        }
    }
}

/// A chain of pushable objects followed by open grid space moves: the move is
/// legal with exactly that chain, and the whole chain moves as one unit (the
/// shape of the committed grid is fixed by `mid_commit`).
pub proof fn lemma_chain_open_moves(g: GridModel, dx: int, dy: int, k: nat)
    requires
        chain_prefix(g, dx, dy, k + 1 as int),
        inb(g, chain_x(g, dx, (k + 1) as nat), chain_y(g, dy, (k + 1) as nat)),
        solid(g, chain_x(g, dx, (k + 1) as nat), chain_y(g, dy, (k + 1) as nat)).len() == 0,
    ensures
        chain_ok(g, dx, dy, k),
        move_legal(g, dx, dy),
{
    assert forall|k2: nat|
        1 <= k2 <= k implies inb(g, #[trigger] chain_x(g, dx, k2), chain_y(g, dy, k2)) && solid(
        g,
        chain_x(g, dx, k2),
        chain_y(g, dy, k2),
    ).len() > 0 && solid(g, chain_x(g, dx, k2), chain_y(g, dy, k2)).last().pushable by {
        let j: int = k2 as int;
        assert(inb(g, chain_x(g, dx, j as nat), chain_y(g, dy, j as nat)) && solid(
            g,
            chain_x(g, dx, j as nat),
            chain_y(g, dy, j as nat),
        ).len() > 0 && solid(g, chain_x(g, dx, j as nat), chain_y(g, dy, j as nat)).last().pushable);
    }
    assert(chain_ok(g, dx, dy, k));
}

/// Committing the n-th chain object: it sits first in its cell's Solid stack,
/// and relocating it by the move's displacement takes the grid from the
/// n-committed description to the (n+1)-committed one.
#[verifier::rlimit(40)]
pub proof fn lemma_commit_step(g0: GridModel, g: GridModel, dx: int, dy: int, m: nat, n: nat)
    requires
        push_pre(g0),
        is_unit(dx, dy),
        chain_ok(g0, dx, dy, m),
        n <= m,
        mid_commit(g0, g, dx, dy, m, n),
    ensures
        ({
            let cx = chain_x(g0, dx, n);
            let cy = chain_y(g0, dy, n);
            let o = chain_obj(g0, dx, dy, n);
            let s = solid(g, cx, cy);
            &&& s.len() > 0
            &&& s[0] == o
            &&& has_id(s, o.id as int)
            &&& first_match(s, o.id as int) == 0
            &&& mid_commit(
                g0,
                moved_model(g, o.id as int, cx, cy, layer_index_spec(Layer::Solid), dx, dy),
                dx,
                dy,
                m,
                (n + 1) as nat,
            )
        }),
{
    lemma_chain_cells(g0, dx, dy, m);
    let l = layer_index_spec(Layer::Solid);
    let cx = chain_x(g0, dx, n);
    let cy = chain_y(g0, dy, n);
    let nx = chain_x(g0, dx, (n + 1) as nat);
    let ny = chain_y(g0, dy, (n + 1) as nat);
    let o = chain_obj(g0, dx, dy, n);
    let s = solid(g, cx, cy);
    assert(solid(g, cx, cy) == mid_stack(g0, dx, dy, n, n));
    if n == 0 {
        assert(s == solid(g0, cx, cy));
        assert(s.len() == 1);
        assert(s[0] == o);
    } else {
        assert(s == solid(g0, cx, cy).push(shifted_chain_obj(g0, dx, dy, (n - 1) as nat)));
        assert(solid(g0, cx, cy).len() == 1);
        assert(s[0] == solid(g0, cx, cy)[0]);
        assert(s[0] == o);
    }
    assert(first_match(s, o.id as int) == 0);
    lemma_chain_distinct(g0, dx, dy, n, (n + 1) as nat);
    let gm = moved_model(g, o.id as int, cx, cy, l, dx, dy);
    let g1 = set_stk(g, cx, cy, l, s.remove(0));
    assert(stk(g1, nx, ny, l) == solid(g, nx, ny));
    assert(solid(g, nx, ny) == mid_stack(g0, dx, dy, n, (n + 1) as nat));
    assert(mid_stack(g0, dx, dy, n, (n + 1) as nat) == solid(g0, nx, ny));
    assert(at_pos(s[0], cx + dx, cy + dy) == shifted_chain_obj(g0, dx, dy, n));
    assert(gm.cells == g1.cells.insert(
        (nx, ny, l),
        solid(g, nx, ny).push(shifted_chain_obj(g0, dx, dy, n)),
    ));
    // the tracked player advances exactly when the player itself (index 0) moves
    if n == 0 {
        assert(o.id == g0.player_id && o.id == g.player_id);
        assert(gm.player_x == cx + dx && gm.player_y == cy + dy);
        assert(gm.player_x == chain_x(g0, dx, 1) && gm.player_y == chain_y(g0, dy, 1));
    } else {
        assert(o.id != g0.player_id);
        assert(gm.player_x == chain_x(g0, dx, 1) && gm.player_y == chain_y(g0, dy, 1));
    }
    assert(gm.cells.dom() =~= g0.cells.dom());
    // layers other than Solid are untouched
    assert forall|x: int, y: int, l2: int|
        inb(g0, x, y) && 0 <= l2 < NUMBER_OF_LAYERS && l2 != l implies #[trigger] stk(gm, x, y, l2)
            == stk(g0, x, y, l2) by {
        assert(stk(gm, x, y, l2) == stk(g, x, y, l2));
    }
    // cells off the chain are untouched
    assert forall|x: int, y: int|
        inb(g0, x, y) && off_chain(g0, dx, dy, (m + 1) as nat, x, y) implies #[trigger] solid(
            gm,
            x,
            y,
        ) == solid(g0, x, y) by {
        assert(x != chain_x(g0, dx, n) || y != #[trigger] chain_y(g0, dy, n));
        assert(x != chain_x(g0, dx, (n + 1) as nat) || y != chain_y(g0, dy, (n + 1) as nat));
        assert(solid(gm, x, y) == solid(g, x, y));
    }
    // the chain cells now match the (n+1)-committed description
    assert forall|k: nat|
        k <= m + 1 implies #[trigger] solid(gm, chain_x(g0, dx, k), chain_y(g0, dy, k))
            == mid_stack(g0, dx, dy, (n + 1) as nat, k) by {
        let kx = chain_x(g0, dx, k);
        let ky = chain_y(g0, dy, k);
        if k == n {
            assert(solid(gm, kx, ky) == s.remove(0));
            if n == 0 {
                assert(s.remove(0) =~= mid_stack(g0, dx, dy, (n + 1) as nat, k));
            } else {
                assert(s.remove(0) =~= seq![shifted_chain_obj(g0, dx, dy, (n - 1) as nat)]);
            }
        } else if k == n + 1 {
            assert(solid(gm, kx, ky) == solid(g, nx, ny).push(shifted_chain_obj(g0, dx, dy, n)));
            assert(mid_stack(g0, dx, dy, (n + 1) as nat, k) == solid(g0, kx, ky).push(
                shifted_chain_obj(g0, dx, dy, n),
            ));
        } else {
            lemma_chain_distinct(g0, dx, dy, k, n);
            lemma_chain_distinct(g0, dx, dy, k, (n + 1) as nat);
            assert(solid(gm, kx, ky) == solid(g, kx, ky));
            assert(solid(g, kx, ky) == mid_stack(g0, dx, dy, n, k));
            assert(mid_stack(g0, dx, dy, n, k) == mid_stack(g0, dx, dy, (n + 1) as nat, k));
        }
    }
}

/// The grid a successful move leaves behind satisfies the same preconditions
/// a move needs: one Solid object per cell at most, and a unique player, now
/// one step along the direction.
pub proof fn lemma_final_state(g0: GridModel, g: GridModel, dx: int, dy: int, m: nat)
    requires
        push_pre(g0),
        is_unit(dx, dy),
        chain_ok(g0, dx, dy, m),
        gm_wf(g),
        mid_commit(g0, g, dx, dy, m, (m + 1) as nat),
    ensures
        push_pre(g),
        g.player_x == chain_x(g0, dx, 1),
        g.player_y == chain_y(g0, dy, 1),
{
    lemma_chain_cells(g0, dx, dy, m);
    let l = layer_index_spec(Layer::Solid);
    assert forall|x: int, y: int| inb(g, x, y) implies (#[trigger] stk(g, x, y, l)).len()
        <= 1 by {
        if off_chain(g0, dx, dy, (m + 1) as nat, x, y) {
            assert(solid(g, x, y) == solid(g0, x, y));
        } else {
            let k = choose|k: nat|
                k <= m + 1 && x == chain_x(g0, dx, k) && y == chain_y(g0, dy, k);
            assert(solid(g, x, y) == mid_stack(g0, dx, dy, (m + 1) as nat, k));
            if k == m + 1 {
                assert(solid(g0, chain_x(g0, dx, k), chain_y(g0, dy, k)).len() == 0);
            }
        }
    }
    // the player is now the sole occupant of the cell one step along
    assert(solid(g, chain_x(g0, dx, 1), chain_y(g0, dy, 1)) == mid_stack(
        g0,
        dx,
        dy,
        (m + 1) as nat,
        1,
    ));
    if m == 0 {
        assert(mid_stack(g0, dx, dy, (m + 1) as nat, 1) == solid(g0, chain_x(g0, dx, 1), chain_y(g0, dy, 1)).push(
            shifted_chain_obj(g0, dx, dy, 0),
        ));
    }
    assert(solid(g, g.player_x, g.player_y).len() == 1);
    assert(solid(g, g.player_x, g.player_y)[0] == shifted_chain_obj(g0, dx, dy, 0));
    assert(shifted_chain_obj(g0, dx, dy, 0).id == g.player_id);
    assert(has_id(solid(g, g.player_x, g.player_y), g.player_id));
    assert forall|x: int, y: int, i: int|
        inb(g, x, y) && 0 <= i < solid(g, x, y).len() && (#[trigger] solid(g, x, y)[i]).id
            == g.player_id implies x == g.player_x && y == g.player_y by {
        if off_chain(g0, dx, dy, (m + 1) as nat, x, y) {
            assert(solid(g, x, y) == solid(g0, x, y));
            assert(x == g0.player_x && y == g0.player_y);
            assert(x != chain_x(g0, dx, 0) || y != #[trigger] chain_y(g0, dy, 0));
            assert(false);
        } else {
            let k = choose|k: nat|
                k <= m + 1 && x == chain_x(g0, dx, k) && y == chain_y(g0, dy, k);
            assert(solid(g, x, y) == mid_stack(g0, dx, dy, (m + 1) as nat, k));
            if k == 0 {
                assert(false);
            } else if k == m + 1 {
                assert(solid(g0, chain_x(g0, dx, k), chain_y(g0, dy, k)).len() == 0);
                assert(solid(g, x, y) =~= seq![shifted_chain_obj(g0, dx, dy, m)]);
                assert(solid(g, x, y)[i] == shifted_chain_obj(g0, dx, dy, m));
                if m != 0 {
                    assert(chain_obj(g0, dx, dy, m).id != g0.player_id);
                    assert(false);
                }
                // otherwise k == 1: the occupant is the player, in its new cell
            } else {
                assert(solid(g, x, y) == seq![shifted_chain_obj(g0, dx, dy, (k - 1) as nat)]);
                assert(solid(g, x, y)[i] == shifted_chain_obj(g0, dx, dy, (k - 1) as nat));
                if k != 1 {
                    assert(chain_obj(g0, dx, dy, (k - 1) as nat).id != g0.player_id);
                    assert(false);
                }
            }
        }
    }
}

impl WorldMap {
    /// Push resolution: decides whether the player, and everything it
    /// transitively pushes, can move one step in the given unit direction,
    /// and if so commits the whole displacement atomically, recording one
    /// motion delta per moved object into `delta`. On failure (the chain runs
    /// into a wall or off the grid) nothing at all is mutated.
    #[verifier::loop_isolation(false)]
    #[verifier::rlimit(100)]
    pub fn move_solid(&mut self, dir: (i32, i32), delta: &mut DeltaFrame) -> (r: bool)
        requires
            old(self).wf(),
            push_pre(old(self)@),
            is_unit(dir.0 as int, dir.1 as int),
        ensures
            final(self).wf(),
            r == move_legal(old(self)@, dir.0 as int, dir.1 as int),
            !r ==> *final(self) == *old(self) && *final(delta) == *old(delta),
            r ==> push_pre(final(self)@),
            r ==> exists|m: nat|
                {
                    &&& chain_ok(old(self)@, dir.0 as int, dir.1 as int, m)
                    &&& #[trigger] mid_commit(
                        old(self)@,
                        final(self)@,
                        dir.0 as int,
                        dir.1 as int,
                        m,
                        (m + 1) as nat,
                    )
                    &&& final(delta).deltas@ == old(delta).deltas@ + push_deltas(
                        old(self)@,
                        dir.0 as int,
                        dir.1 as int,
                        m,
                    )
                },
    {
        let (dx, dy) = dir;
        let ghost g0 = self@;
        let ghost dxi = dx as int;
        let ghost dyi = dy as int;
        let layer = Layer::Solid;
        let (px, py) = self.get_player_pos();
        let pid = self.get_player_id();
        let mut ids: Vec<usize> = Vec::new();
        ids.push(pid);
        let mut cx = px;
        let mut cy = py;
        // Breadth-first closure over the Solid layer: along a unit direction
        // the closure is the run of consecutive pushable objects ahead of the
        // player, so one walk finds every object that would have to move.
        let mut searching = true;
        while searching
            invariant
                !searching ==> chain_ok(g0, dxi, dyi, (ids@.len() - 1) as nat),
                ids@.len() >= 1,
                cx as int == chain_x(g0, dxi, (ids@.len() - 1) as nat),
                cy as int == chain_y(g0, dyi, (ids@.len() - 1) as nat),
                inb(g0, cx as int, cy as int),
                ids@[0] == g0.player_id,
                chain_prefix(g0, dxi, dyi, ids@.len() as int),
                forall|j: int|
                    1 <= j < ids@.len() ==> #[trigger] ids@[j] == solid(
                        g0,
                        chain_x(g0, dxi, j as nat),
                        chain_y(g0, dyi, j as nat),
                    ).last().id,
            decreases (if dxi == 1 {
                g0.width - cx as int
            } else if dxi == -1 {
                cx as int + 1
            } else if dyi == 1 {
                g0.height - cy as int
            } else {
                cy as int + 1
            }) + (if searching {
                1int
            } else {
                0int
            }),
        {
            let ghost k = (ids@.len() - 1) as nat;
            let nx = cx + dx;
            let ny = cy + dy;
            proof {
                assert(nx as int == chain_x(g0, dxi, (k + 1) as nat));
                assert(ny as int == chain_y(g0, dyi, (k + 1) as nat));
            }
            if self.invalid(nx, ny) {
                proof {
                    lemma_blocked_edge(g0, dxi, dyi, k);
                }
                return false;
            }
            match self.view_top(nx, ny, &layer) {
                Some(o) => {
                    if o.pushable() {
                        let oid = o.get_id();
                        ids.push(oid);
                        cx = nx;
                        cy = ny;
                    } else {
                        proof {
                            lemma_blocked_wall(g0, dxi, dyi, k);
                        }
                        return false;
                    }
                },
                None => {
                    proof {
                        assert(solid(g0, nx as int, ny as int).len() == 0);
                        assert forall|k2: nat|
                            1 <= k2 <= k implies inb(
                            g0,
                            #[trigger] chain_x(g0, dxi, k2),
                            chain_y(g0, dyi, k2),
                        ) && solid(g0, chain_x(g0, dxi, k2), chain_y(g0, dyi, k2)).len() > 0
                            && solid(g0, chain_x(g0, dxi, k2), chain_y(g0, dyi, k2)).last().pushable by {
                            let j: int = k2 as int;
                            assert(inb(g0, chain_x(g0, dxi, j as nat), chain_y(g0, dyi, j as nat))
                                && solid(
                                g0,
                                chain_x(g0, dxi, j as nat),
                                chain_y(g0, dyi, j as nat),
                            ).len() > 0 && solid(
                                g0,
                                chain_x(g0, dxi, j as nat),
                                chain_y(g0, dyi, j as nat),
                            ).last().pushable);
                        }
                        assert(chain_ok(g0, dxi, dyi, k));
                    }
                    searching = false;
                },
            }
        }
        // The closure is complete and the cell past it is free: the move is
        // legal. Commit: relocate every chain object, nearest (the player)
        // first, recording one motion delta each.
        let ghost m = (ids@.len() - 1) as nat;
        self.commit_chain(&ids, px, py, dx, dy, delta, Ghost(g0));
        proof {
            self.model_wf();
            lemma_final_state(g0, self@, dxi, dyi, m);
        }
        true
    }

    /// The commit half of push resolution: every chain object is relocated
    /// one step, nearest (the player) first, and one motion delta per object
    /// is appended to `delta`. Only called once legality is established.
    #[verifier::loop_isolation(false)]
    #[verifier::rlimit(100)]
    fn commit_chain(
        &mut self,
        ids: &Vec<usize>,
        px: i32,
        py: i32,
        dx: i32,
        dy: i32,
        delta: &mut DeltaFrame,
        Ghost(g0): Ghost<GridModel>,
    )
        requires
            old(self).wf(),
            old(self)@ == g0,
            push_pre(g0),
            is_unit(dx as int, dy as int),
            ids@.len() >= 1,
            chain_ok(g0, dx as int, dy as int, (ids@.len() - 1) as nat),
            px as int == g0.player_x,
            py as int == g0.player_y,
            ids@[0] == g0.player_id,
            forall|j: int|
                1 <= j < ids@.len() ==> #[trigger] ids@[j] == solid(
                    g0,
                    chain_x(g0, dx as int, j as nat),
                    chain_y(g0, dy as int, j as nat),
                ).last().id,
        ensures
            final(self).wf(),
            mid_commit(
                g0,
                final(self)@,
                dx as int,
                dy as int,
                (ids@.len() - 1) as nat,
                ids@.len() as nat,
            ),
            final(delta).deltas@ == old(delta).deltas@ + push_deltas(
                g0,
                dx as int,
                dy as int,
                (ids@.len() - 1) as nat,
            ),
    {
        let ghost dxi = dx as int;
        let ghost dyi = dy as int;
        let ghost m = (ids@.len() - 1) as nat;
        let layer = Layer::Solid;
        let pid = self.get_player_id();
        proof {
            lemma_chain_cells(g0, dxi, dyi, m);
            assert(mid_commit(g0, self@, dxi, dyi, m, 0));
        }
        let n_ids = ids.len();
        let mut j: usize = 0;
        let mut mx = px;
        let mut my = py;
        while j < n_ids
            invariant
                0 <= j <= n_ids,
                n_ids == ids@.len(),
                mx as int == chain_x(g0, dxi, j as nat),
                my as int == chain_y(g0, dyi, j as nat),
                self.wf(),
                mid_commit(g0, self@, dxi, dyi, m, j as nat),
                delta.deltas@ == old(delta).deltas@ + push_deltas(g0, dxi, dyi, m).take(j as int),
            decreases n_ids - j,
        {
            proof {
                if j > 0 {
                    assert(ids@[j as int] == chain_obj(g0, dxi, dyi, j as nat).id);
                }
            }
            let id_j = ids[j];
            self.commit_one(id_j, pid, mx, my, dx, dy, delta, Ghost(g0), Ghost(m), Ghost(j as nat));
            proof {
                assert(delta.deltas@ =~= old(delta).deltas@ + push_deltas(g0, dxi, dyi, m).take(
                    j as int + 1,
                ));
            }
            mx = mx + dx;
            my = my + dy;
            j = j + 1;
        }
        proof {
            assert(push_deltas(g0, dxi, dyi, m).take(n_ids as int) =~= push_deltas(
                g0,
                dxi,
                dyi,
                m,
            ));
        }
    }

    /// Relocates one chain object by the move's displacement, appending its
    /// motion delta, and keeps the tracked player handle in step.
    #[verifier::rlimit(100)]
    fn commit_one(
        &mut self,
        id_j: usize,
        pid: usize,
        mx: i32,
        my: i32,
        dx: i32,
        dy: i32,
        delta: &mut DeltaFrame,
        Ghost(g0): Ghost<GridModel>,
        Ghost(m): Ghost<nat>,
        Ghost(j): Ghost<nat>,
    )
        requires
            old(self).wf(),
            push_pre(g0),
            is_unit(dx as int, dy as int),
            chain_ok(g0, dx as int, dy as int, m),
            j <= m,
            mid_commit(g0, old(self)@, dx as int, dy as int, m, j),
            id_j == chain_obj(g0, dx as int, dy as int, j).id,
            pid as int == g0.player_id,
            mx as int == chain_x(g0, dx as int, j),
            my as int == chain_y(g0, dy as int, j),
        ensures
            final(self).wf(),
            mid_commit(g0, final(self)@, dx as int, dy as int, m, (j + 1) as nat),
            final(delta).deltas@ == old(delta).deltas@.push(
                push_deltas(g0, dx as int, dy as int, m)[j as int],
            ),
    {
        let ghost dxi = dx as int;
        let ghost dyi = dy as int;
        let layer = Layer::Solid;
        proof {
            lemma_chain_cells(g0, dxi, dyi, m);
            lemma_commit_step(g0, self@, dxi, dyi, m, j);
        }
        let ghost gj = self@;
        let ghost o_spec = chain_obj(g0, dxi, dyi, j);
        let got = self.take_id(mx, my, &layer, id_j);
        let mut obj = match got {
            Some(o) => o,
            None => {
                proof {
                    assert(false);
                }
                vstd::pervasive::unreached()
            },
        };
        proof {
            assert(obj == o_spec);
            assert(obj.x as int == chain_x(g0, dxi, j));
            assert(obj.y as int == chain_y(g0, dyi, j));
            assert(inb(g0, chain_x(g0, dxi, (j + 1) as nat), chain_y(g0, dyi, (j + 1) as nat)));
        }
        obj.shift_pos((dx, dy), delta);
        self.put_quiet(obj);
        if id_j == pid {
            self.set_player_cache(mx + dx, my + dy);
        }
        proof {
            let l = layer_index_spec(Layer::Solid);
            assert(self@.cells =~= moved_model(
                gj,
                o_spec.id as int,
                mx as int,
                my as int,
                l,
                dxi,
                dyi,
            ).cells);
            assert(self@ =~= moved_model(gj, o_spec.id as int, mx as int, my as int, l, dxi, dyi));
            assert(mid_commit(g0, self@, dxi, dyi, m, (j + 1) as nat));
            assert(push_deltas(g0, dxi, dyi, m)[j as int] == Delta::Motion {
                id: o_spec.id,
                x: chain_x(g0, dxi, (j + 1) as nat) as i32,
                y: chain_y(g0, dyi, (j + 1) as nat) as i32,
                layer: Layer::Solid,
                dx,
                dy,
            });
            assert(delta.deltas@ == old(delta).deltas@.push(
                push_deltas(g0, dxi, dyi, m)[j as int],
            ));
        }
    }
}

} // verus!
