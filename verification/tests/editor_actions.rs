use bevy_map::ids::Uuid;
use bevy_map::layer::{Layer, LayerData};
use bevy_map::level::Level;
use bevy_map::shortcuts::{
    handle_keyboard_shortcuts, EditorViewMode, PendingAction, ShortcutKeys, ShortcutState,
};
use bevy_map::tile_move::{capture_tile_selection_for_move, finalize_tile_move, MovedTile};

fn no_keys() -> ShortcutKeys {
    ShortcutKeys {
        ctrl: false,
        shift: false,
        z: false,
        y: false,
        c: false,
        x: false,
        v: false,
        a: false,
        s: false,
        o: false,
        n: false,
        l: false,
        w: false,
        delete: false,
        backspace: false,
        escape: false,
    }
}

fn idle_state() -> ShortcutState {
    ShortcutState {
        pending_action: None,
        has_tile_selection: true,
        pending_delete_selection: false,
        is_moving: false,
        pending_cancel_move: false,
        is_pasting: false,
        view_mode: EditorViewMode::Level,
        paint_flip_x: false,
        paint_flip_y: false,
    }
}

#[test]
fn ctrl_shortcuts_request_actions() {
    let cases = [
        (ShortcutKeys { ctrl: true, z: true, ..no_keys() }, Some(PendingAction::Undo)),
        (ShortcutKeys { ctrl: true, shift: true, z: true, ..no_keys() }, Some(PendingAction::Redo)),
        (ShortcutKeys { ctrl: true, y: true, ..no_keys() }, Some(PendingAction::Redo)),
        (ShortcutKeys { ctrl: true, c: true, ..no_keys() }, Some(PendingAction::Copy)),
        (ShortcutKeys { ctrl: true, x: true, ..no_keys() }, Some(PendingAction::Cut)),
        (ShortcutKeys { ctrl: true, v: true, ..no_keys() }, Some(PendingAction::Paste)),
        (ShortcutKeys { ctrl: true, a: true, ..no_keys() }, Some(PendingAction::SelectAll)),
        (ShortcutKeys { ctrl: true, s: true, ..no_keys() }, Some(PendingAction::Save)),
        (
            ShortcutKeys { ctrl: true, shift: true, s: true, ..no_keys() },
            Some(PendingAction::CreateStampFromSelection),
        ),
        (ShortcutKeys { ctrl: true, o: true, ..no_keys() }, Some(PendingAction::Open)),
        (ShortcutKeys { ctrl: true, n: true, ..no_keys() }, Some(PendingAction::New)),
        (ShortcutKeys { z: true, ..no_keys() }, None),
    ];
    for (keys, expected) in cases {
        let mut state = idle_state();
        handle_keyboard_shortcuts(&keys, &mut state);
        assert_eq!(state.pending_action, expected);
    }
}

#[test]
fn escape_cancels_move_then_paste_then_selection() {
    let esc = ShortcutKeys { escape: true, ..no_keys() };
    let mut moving = ShortcutState { is_moving: true, is_pasting: true, ..idle_state() };
    handle_keyboard_shortcuts(&esc, &mut moving);
    assert!(moving.pending_cancel_move);
    assert!(moving.is_pasting);
    assert!(moving.has_tile_selection);

    let mut pasting = ShortcutState { is_pasting: true, ..idle_state() };
    handle_keyboard_shortcuts(&esc, &mut pasting);
    assert!(!pasting.is_pasting);
    assert!(pasting.has_tile_selection);

    let mut selecting = idle_state();
    handle_keyboard_shortcuts(&esc, &mut selecting);
    assert!(!selecting.has_tile_selection);
}

#[test]
fn delete_and_view_and_flip_keys() {
    let mut state = idle_state();
    handle_keyboard_shortcuts(&ShortcutKeys { delete: true, ..no_keys() }, &mut state);
    assert!(state.pending_delete_selection);
    let mut empty = ShortcutState { has_tile_selection: false, ..idle_state() };
    handle_keyboard_shortcuts(&ShortcutKeys { backspace: true, ..no_keys() }, &mut empty);
    assert!(!empty.pending_delete_selection);

    let mut state = idle_state();
    handle_keyboard_shortcuts(&ShortcutKeys { w: true, ..no_keys() }, &mut state);
    assert_eq!(state.view_mode, EditorViewMode::World);
    handle_keyboard_shortcuts(&ShortcutKeys { w: true, ..no_keys() }, &mut state);
    assert_eq!(state.view_mode, EditorViewMode::Level);
    handle_keyboard_shortcuts(&ShortcutKeys { w: true, l: true, ..no_keys() }, &mut state);
    assert_eq!(state.view_mode, EditorViewMode::Level);

    handle_keyboard_shortcuts(&ShortcutKeys { x: true, y: true, ..no_keys() }, &mut state);
    assert!(state.paint_flip_x && state.paint_flip_y);
    handle_keyboard_shortcuts(&ShortcutKeys { x: true, ..no_keys() }, &mut state);
    assert!(!state.paint_flip_x && state.paint_flip_y);
    // With Ctrl held, X cuts and does not flip.
    handle_keyboard_shortcuts(&ShortcutKeys { ctrl: true, x: true, ..no_keys() }, &mut state);
    assert!(!state.paint_flip_x);
    assert_eq!(state.pending_action, Some(PendingAction::Cut));
}

fn tile_level(width: u32, height: u32) -> Level {
    let mut level = Level::new("Test".to_string(), width, height);
    level.add_layer(Layer::new_tile_layer("Ground".to_string(), Uuid::from_u128(1), width, height));
    level
}

fn cells(level: &Level) -> Vec<Option<u32>> {
    match &level.layers[0].data {
        LayerData::Tiles { tiles, .. } => tiles.clone(),
        LayerData::Objects { .. } => panic!("expected a tile layer"),
    }
}

#[test]
fn move_tiles_by_an_offset() {
    let mut level = tile_level(4, 2);
    level.set_tile(0, 0, 0, Some(1));
    level.set_tile(0, 1, 0, Some(2));
    level.set_tile(0, 3, 1, Some(9));
    let captured = capture_tile_selection_for_move(&level, 0, &vec![(0, 0), (1, 0)]).unwrap();
    assert_eq!(captured.len(), 2);
    assert_eq!((captured[0].x, captured[0].y, captured[0].tile), (0, 0, Some(1)));
    assert_eq!((captured[1].x, captured[1].y, captured[1].tile), (1, 0, Some(2)));

    let result = finalize_tile_move(&mut level, 0, &captured, (1, 1)).unwrap();
    assert_eq!(
        cells(&level),
        vec![None, None, None, None, None, Some(1), Some(2), Some(9)]
    );
    assert_eq!(result.selection, vec![(1, 1), (2, 1)]);
    let mut undo: Vec<(u32, u32, Option<u32>, Option<u32>)> =
        result.undo.iter().map(|c| (c.x, c.y, c.old_tile, c.new_tile)).collect();
    undo.sort();
    assert_eq!(
        undo,
        vec![
            (0, 0, None, Some(1)),
            (1, 0, None, Some(2)),
            (1, 1, Some(1), None),
            (2, 1, Some(2), None),
        ]
    );
}

#[test]
fn move_tiles_overlapping_and_off_the_edge() {
    let mut level = tile_level(3, 1);
    level.set_tile(0, 0, 0, Some(1));
    level.set_tile(0, 1, 0, Some(2));
    level.set_tile(0, 2, 0, Some(3));
    let captured = vec![
        MovedTile { x: 1, y: 0, tile: Some(2) },
        MovedTile { x: 2, y: 0, tile: Some(3) },
    ];
    let result = finalize_tile_move(&mut level, 0, &captured, (1, 0)).unwrap();
    // (1,0) is cleared and (2,0) takes tile 2; tile 3 falls off the level.
    assert_eq!(cells(&level), vec![Some(1), None, Some(2)]);
    assert_eq!(result.selection, vec![(2, 0)]);
    let mut undo: Vec<(u32, u32, Option<u32>, Option<u32>)> =
        result.undo.iter().map(|c| (c.x, c.y, c.old_tile, c.new_tile)).collect();
    undo.sort();
    assert_eq!(undo, vec![(1, 0, None, Some(2)), (2, 0, Some(2), Some(3))]);
    // A zero offset changes nothing.
    assert!(finalize_tile_move(&mut level, 0, &captured, (0, 0)).is_none());
    assert_eq!(cells(&level), vec![Some(1), None, Some(2)]);
}

#[test]
fn capture_needs_a_tile_layer() {
    let mut level = tile_level(2, 2);
    level.add_layer(Layer::new_object_layer("Objects".to_string()));
    assert!(capture_tile_selection_for_move(&level, 1, &vec![(0, 0)]).is_none());
    assert!(capture_tile_selection_for_move(&level, 7, &vec![(0, 0)]).is_none());
}
