use sokoban_core::object::{GameObject, IdSource, Layer, new_id};
use sokoban_core::map::WorldMap;
use sokoban_core::delta::{DeltaFrame, UndoStack};
use sokoban_core::moves::{anim_step, AnimationState};

const RIGHT: (i32, i32) = (1, 0);
const LEFT: (i32, i32) = (-1, 0);
const DOWN: (i32, i32) = (0, 1);
const UP: (i32, i32) = (0, -1);

/// The standard world: a 10 x 10 grid, the player at (3, 3), a wall at
/// (5, 5), a pushable block at (8, 4).
fn standard_world() -> WorldMap {
    let mut ids = IdSource::new();
    let player = GameObject::new_player(3, 3, &mut ids);
    let mut map = WorldMap::new(10, 10, &player);
    map.put_quiet(player);
    map.put_quiet(GameObject::new_wall(5, 5, &mut ids));
    map.put_quiet(GameObject::new_block(8, 4, &mut ids));
    map
}

fn solid_at(map: &WorldMap, x: i32, y: i32) -> Option<GameObject> {
    map.view_top(x, y, &Layer::Solid).copied()
}

#[test]
fn ids_are_monotonic_and_nonzero() {
    let mut ids = IdSource::new();
    let a = new_id(&mut ids);
    let b = new_id(&mut ids);
    let c = new_id(&mut ids);
    assert_ne!(a, 0);
    assert_eq!(b, a + 1);
    assert_eq!(c, b + 1);
}

#[test]
fn layer_indices() {
    assert_eq!(Layer::index(&Layer::Floor), 0);
    assert_eq!(Layer::index(&Layer::Player), 1);
    assert_eq!(Layer::index(&Layer::Solid), 2);
}

#[test]
fn constructors_set_attributes() {
    let mut ids = IdSource::new();
    let p = GameObject::new_player(2, 7, &mut ids);
    let b = GameObject::new_block(1, 1, &mut ids);
    let w = GameObject::new_wall(0, 0, &mut ids);
    assert_eq!(p.get_pos(), (2, 7));
    assert!(p.pushable());
    assert!(b.pushable());
    assert!(!w.pushable());
    assert_eq!(p.get_layer(), Layer::Solid);
    assert_eq!(b.get_layer(), Layer::Solid);
    assert_ne!(p.get_id(), b.get_id());
    assert_ne!(b.get_id(), w.get_id());
}

#[test]
fn walk_right_through_open_row() {
    let mut map = standard_world();
    let mut stack = UndoStack::new(1000);
    for step in 1..=4 {
        let mut frame = DeltaFrame::new();
        assert!(map.move_solid(RIGHT, &mut frame));
        assert_eq!(map.get_player_pos(), (3 + step, 3));
        assert!(!frame.trivial());
        stack.push(frame);
    }
    assert_eq!(map.get_player_pos(), (7, 3));
    // the wall at (5, 5) is never touched since its row differs
    let wall = solid_at(&map, 5, 5).unwrap();
    assert!(!wall.pushable);
    // the row ahead is still open, so a further step is legal too
    let mut frame = DeltaFrame::new();
    assert!(map.move_solid(RIGHT, &mut frame));
    assert_eq!(map.get_player_pos(), (8, 3));
}

#[test]
fn push_block_and_fail_at_edge() {
    let mut ids = IdSource::new();
    let player = GameObject::new_player(7, 4, &mut ids);
    let mut map = WorldMap::new(10, 10, &player);
    map.put_quiet(player);
    map.put_quiet(GameObject::new_wall(5, 5, &mut ids));
    let block = GameObject::new_block(8, 4, &mut ids);
    let block_id = block.get_id();
    map.put_quiet(block);

    // with open space at (9, 4) the push succeeds as one unit
    let mut frame = DeltaFrame::new();
    assert!(map.move_solid(RIGHT, &mut frame));
    assert_eq!(map.get_player_pos(), (8, 4));
    let moved = solid_at(&map, 9, 4).unwrap();
    assert_eq!(moved.get_id(), block_id);
    assert!(solid_at(&map, 7, 4).is_none());

    // pushing once more would send the block to (10, 4): out of bounds, and
    // neither object moves
    let mut frame2 = DeltaFrame::new();
    assert!(!map.move_solid(RIGHT, &mut frame2));
    assert!(frame2.trivial());
    assert_eq!(map.get_player_pos(), (8, 4));
    assert_eq!(solid_at(&map, 9, 4).unwrap().get_id(), block_id);
}

#[test]
fn undo_restores_push() {
    let mut ids = IdSource::new();
    let player = GameObject::new_player(7, 4, &mut ids);
    let mut map = WorldMap::new(10, 10, &player);
    map.put_quiet(player);
    let block = GameObject::new_block(8, 4, &mut ids);
    let block_id = block.get_id();
    map.put_quiet(block);

    let mut stack = UndoStack::new(1000);
    let mut frame = DeltaFrame::new();
    assert!(map.move_solid(RIGHT, &mut frame));
    assert!(!frame.trivial());
    stack.push(frame);

    stack.pop(&mut map);
    assert_eq!(map.get_player_pos(), (7, 4));
    assert_eq!(solid_at(&map, 8, 4).unwrap().get_id(), block_id);
    assert!(solid_at(&map, 9, 4).is_none());
}

#[test]
fn wall_always_blocks() {
    let mut ids = IdSource::new();
    let player = GameObject::new_player(5, 4, &mut ids);
    let mut map = WorldMap::new(10, 10, &player);
    let player_id = player.get_id();
    map.put_quiet(player);
    map.put_quiet(GameObject::new_wall(5, 5, &mut ids));
    for _ in 0..3 {
        let mut frame = DeltaFrame::new();
        assert!(!map.move_solid(DOWN, &mut frame));
        assert!(frame.trivial());
        assert_eq!(map.get_player_pos(), (5, 4));
        assert_eq!(solid_at(&map, 5, 4).unwrap().get_id(), player_id);
        assert!(!solid_at(&map, 5, 5).unwrap().pushable);
    }
}

#[test]
fn chain_blocked_by_wall_never_moves() {
    let mut ids = IdSource::new();
    let player = GameObject::new_player(1, 1, &mut ids);
    let mut map = WorldMap::new(10, 10, &player);
    map.put_quiet(player);
    map.put_quiet(GameObject::new_block(2, 1, &mut ids));
    map.put_quiet(GameObject::new_block(3, 1, &mut ids));
    map.put_quiet(GameObject::new_wall(4, 1, &mut ids));
    let mut frame = DeltaFrame::new();
    assert!(!map.move_solid(RIGHT, &mut frame));
    assert_eq!(map.get_player_pos(), (1, 1));
    assert!(solid_at(&map, 2, 1).unwrap().pushable);
    assert!(solid_at(&map, 3, 1).unwrap().pushable);
    assert!(!solid_at(&map, 4, 1).unwrap().pushable);
}

#[test]
fn chain_blocked_by_edge_never_moves() {
    let mut ids = IdSource::new();
    let player = GameObject::new_player(7, 2, &mut ids);
    let mut map = WorldMap::new(10, 10, &player);
    map.put_quiet(player);
    map.put_quiet(GameObject::new_block(8, 2, &mut ids));
    map.put_quiet(GameObject::new_block(9, 2, &mut ids));
    let mut frame = DeltaFrame::new();
    assert!(!map.move_solid(RIGHT, &mut frame));
    assert!(frame.trivial());
    assert_eq!(map.get_player_pos(), (7, 2));
}

#[test]
fn chain_with_open_space_moves_as_one_unit() {
    let mut ids = IdSource::new();
    let player = GameObject::new_player(1, 1, &mut ids);
    let mut map = WorldMap::new(10, 10, &player);
    map.put_quiet(player);
    let b1 = GameObject::new_block(2, 1, &mut ids);
    let b2 = GameObject::new_block(3, 1, &mut ids);
    let (id1, id2) = (b1.get_id(), b2.get_id());
    map.put_quiet(b1);
    map.put_quiet(b2);
    let mut frame = DeltaFrame::new();
    assert!(map.move_solid(RIGHT, &mut frame));
    assert_eq!(map.get_player_pos(), (2, 1));
    assert_eq!(solid_at(&map, 3, 1).unwrap().get_id(), id1);
    assert_eq!(solid_at(&map, 4, 1).unwrap().get_id(), id2);
    assert!(solid_at(&map, 1, 1).is_none());
    // one delta per moved object landed in the single frame
    assert_eq!(frame.deltas.len(), 3);
    // one undo reverts the whole multi-object push at once
    let mut stack = UndoStack::new(1000);
    stack.push(frame);
    stack.pop(&mut map);
    assert_eq!(map.get_player_pos(), (1, 1));
    assert_eq!(solid_at(&map, 2, 1).unwrap().get_id(), id1);
    assert_eq!(solid_at(&map, 3, 1).unwrap().get_id(), id2);
    assert!(solid_at(&map, 4, 1).is_none());
}

#[test]
fn moves_in_all_four_directions() {
    let mut ids = IdSource::new();
    let player = GameObject::new_player(4, 4, &mut ids);
    let mut map = WorldMap::new(10, 10, &player);
    map.put_quiet(player);
    let mut frame = DeltaFrame::new();
    assert!(map.move_solid(UP, &mut frame));
    assert_eq!(map.get_player_pos(), (4, 3));
    assert!(map.move_solid(LEFT, &mut frame));
    assert_eq!(map.get_player_pos(), (3, 3));
    assert!(map.move_solid(DOWN, &mut frame));
    assert_eq!(map.get_player_pos(), (3, 4));
    assert!(map.move_solid(RIGHT, &mut frame));
    assert_eq!(map.get_player_pos(), (4, 4));
}

#[test]
fn undo_run_restores_initial_state() {
    let mut map = standard_world();
    let mut stack = UndoStack::new(1000);
    let dirs = [RIGHT, RIGHT, DOWN, LEFT];
    for d in dirs {
        let mut frame = DeltaFrame::new();
        assert!(map.move_solid(d, &mut frame));
        assert!(!frame.trivial());
        stack.push(frame);
    }
    for _ in dirs {
        stack.pop(&mut map);
    }
    assert_eq!(map.get_player_pos(), (3, 3));
    assert_eq!(solid_at(&map, 3, 3).map(|o| o.get_id()), Some(map.get_player_id()));
    assert!(solid_at(&map, 8, 4).unwrap().pushable);
    assert!(!solid_at(&map, 5, 5).unwrap().pushable);
}

#[test]
fn undo_on_empty_stack_is_a_no_op() {
    let mut map = standard_world();
    let mut stack = UndoStack::new(1000);
    stack.pop(&mut map);
    assert_eq!(map.get_player_pos(), (3, 3));
    assert_eq!(solid_at(&map, 3, 3).map(|o| o.get_id()), Some(map.get_player_id()));
    assert!(solid_at(&map, 8, 4).is_some());
    assert!(solid_at(&map, 5, 5).is_some());
}

#[test]
fn bounded_history_forgets_the_oldest_frame() {
    let mut ids = IdSource::new();
    let player = GameObject::new_player(1, 1, &mut ids);
    let mut map = WorldMap::new(10, 10, &player);
    map.put_quiet(player);
    let mut stack = UndoStack::new(2);
    for step in 1..=3 {
        let mut frame = DeltaFrame::new();
        assert!(map.move_solid(RIGHT, &mut frame));
        assert_eq!(map.get_player_pos(), (1 + step, 1));
        stack.push(frame);
    }
    // only two frames are recoverable: the first move is beyond the horizon
    stack.pop(&mut map);
    assert_eq!(map.get_player_pos(), (3, 1));
    stack.pop(&mut map);
    assert_eq!(map.get_player_pos(), (2, 1));
    stack.pop(&mut map);
    assert_eq!(map.get_player_pos(), (2, 1));
}

#[test]
fn creation_delta_reverts_by_removing() {
    let mut ids = IdSource::new();
    let player = GameObject::new_player(1, 1, &mut ids);
    let mut map = WorldMap::new(10, 10, &player);
    map.put_quiet(player);
    let mut stack = UndoStack::new(10);
    let mut frame = DeltaFrame::new();
    map.put(GameObject::new_block(6, 6, &mut ids), &mut frame);
    assert!(solid_at(&map, 6, 6).is_some());
    assert!(!frame.trivial());
    stack.push(frame);
    stack.pop(&mut map);
    assert!(solid_at(&map, 6, 6).is_none());
}

#[test]
fn deletion_delta_reverts_by_reinserting() {
    let mut ids = IdSource::new();
    let player = GameObject::new_player(1, 1, &mut ids);
    let mut map = WorldMap::new(10, 10, &player);
    map.put_quiet(player);
    let block = GameObject::new_block(6, 6, &mut ids);
    let block_id = block.get_id();
    map.put_quiet(block);
    let mut stack = UndoStack::new(10);
    let mut frame = DeltaFrame::new();
    assert!(map.delete(6, 6, &Layer::Solid, &mut frame));
    assert!(solid_at(&map, 6, 6).is_none());
    stack.push(frame);
    stack.pop(&mut map);
    assert_eq!(solid_at(&map, 6, 6).map(|o| o.get_id()), Some(block_id));
}

#[test]
fn id_addressed_cell_operations() {
    let mut ids = IdSource::new();
    let player = GameObject::new_player(1, 1, &mut ids);
    let mut map = WorldMap::new(10, 10, &player);
    map.put_quiet(player);
    let block = GameObject::new_block(4, 4, &mut ids);
    let block_id = block.get_id();
    map.put_quiet(block);
    // absent ids and empty cells yield nothing
    assert!(map.take_id(4, 4, &Layer::Solid, block_id + 100).is_none());
    assert!(map.take(2, 2, &Layer::Solid).is_none());
    assert!(map.take(40, 2, &Layer::Solid).is_none());
    // the id-addressed take finds the block and removes it
    let taken = map.take_id(4, 4, &Layer::Solid, block_id).unwrap();
    assert_eq!(taken.get_pos(), (4, 4));
    assert!(solid_at(&map, 4, 4).is_none());
    map.put_quiet(taken);
    let mut frame = DeltaFrame::new();
    assert!(map.delete_id(4, 4, &Layer::Solid, block_id, &mut frame));
    assert!(solid_at(&map, 4, 4).is_none());
    assert!(!map.delete_id(4, 4, &Layer::Solid, block_id, &mut frame));
}

#[test]
fn out_of_bounds_queries_are_absent() {
    let map = standard_world();
    assert!(map.invalid(-1, 0));
    assert!(map.invalid(0, -1));
    assert!(map.invalid(10, 0));
    assert!(map.invalid(0, 10));
    assert!(!map.invalid(9, 9));
    assert!(map.view_top(-1, 3, &Layer::Solid).is_none());
    assert!(map.cell(10, 10).is_none());
    assert!(map.cell(0, 0).is_some());
}

#[test]
fn set_pos_and_shift_pos() {
    let mut ids = IdSource::new();
    let mut b = GameObject::new_block(2, 3, &mut ids);
    b.set_pos((5, 6));
    assert_eq!(b.get_pos(), (5, 6));
    let mut frame = DeltaFrame::new();
    b.shift_pos((1, -1), &mut frame);
    assert_eq!(b.get_pos(), (6, 5));
    assert_eq!(frame.deltas.len(), 1);
    assert!(!frame.trivial());
}

#[test]
fn animation_gate_counts_down() {
    let mut s = AnimationState::Wait(2);
    s = anim_step(s);
    assert_eq!(s, AnimationState::Wait(1));
    s = anim_step(s);
    assert_eq!(s, AnimationState::Wait(0));
    s = anim_step(s);
    assert_eq!(s, AnimationState::Ready);
    assert_eq!(anim_step(AnimationState::Ready), AnimationState::Ready);
}
