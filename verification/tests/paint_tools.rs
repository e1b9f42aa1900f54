use bevy_map::ids::Uuid;
use bevy_map::layer::{Layer, LayerData};
use bevy_map::level::{EntityInstance, Level};
use bevy_map::paint::{
    base_cell_of, choose_paint_tile, erase_tile, paint_tile, paint_tile_choice, PaintStrokeTracker,
};
use bevy_map::tile::{tile_with_flips, OCCUPIED_CELL};
use bevy_map::tileset::Tileset;
use bevy_map::tools::{
    bresenham_line, capture_tile_region, capture_tile_region_bounds, fill_area, fill_rectangle,
    get_layer_tileset_id, layer_has_tiles, place_entity,
};

fn tile_level(width: u32, height: u32, tileset: Uuid) -> Level {
    let mut level = Level::new("Test".to_string(), width, height);
    level.add_layer(Layer::new_tile_layer("Ground".to_string(), tileset, width, height));
    level
}

fn cells(level: &Level) -> Vec<Option<u32>> {
    match &level.layers[0].data {
        LayerData::Tiles { tiles, .. } => tiles.clone(),
        LayerData::Objects { .. } => panic!("expected a tile layer"),
    }
}

fn occupied(level: &Level) -> Vec<(usize, usize)> {
    match &level.layers[0].data {
        LayerData::Tiles { occupied_cells, .. } => {
            let mut v: Vec<(usize, usize)> = occupied_cells.iter().map(|(k, v)| (*k, *v)).collect();
            v.sort();
            v
        }
        LayerData::Objects { .. } => panic!("expected a tile layer"),
    }
}

fn project_tileset(id: u128) -> Tileset {
    let mut t = Tileset::new("Tiles".to_string(), "tiles.png".to_string(), 16, 4, 4);
    t.id = Uuid::from_u128(id);
    t
}

#[test]
fn bresenham_line_examples() {
    assert_eq!(bresenham_line(0, 0, 3, 1), vec![(0, 0), (1, 0), (2, 1), (3, 1)]);
    assert_eq!(bresenham_line(2, 2, 0, 0), vec![(2, 2), (1, 1), (0, 0)]);
    assert_eq!(bresenham_line(5, -1, 5, -1), vec![(5, -1)]);
    let line = bresenham_line(-3, 4, 6, -2);
    assert_eq!(line.first(), Some(&(-3, 4)));
    assert_eq!(line.last(), Some(&(6, -2)));
    for w in line.windows(2) {
        assert!((w[1].0 - w[0].0).abs() <= 1 && (w[1].1 - w[0].1).abs() <= 1);
    }
}

#[test]
fn capture_regions_keep_cells_inside_the_grid() {
    let tiles = vec![Some(1), None, Some(3), Some(4), Some(5), None];
    // 3 wide, 2 high
    let snap = capture_tile_region(&tiles, 3, 2, 0, 0, 1);
    assert_eq!(
        snap,
        vec![((0, 0), Some(1)), ((1, 0), None), ((0, 1), Some(4)), ((1, 1), Some(5))]
    );
    let snap = capture_tile_region_bounds(&tiles, 3, 2, 1, 1, 5, 5);
    assert_eq!(snap, vec![((1, 1), Some(5)), ((2, 1), None)]);
}

#[test]
fn fill_rectangle_fills_the_clamped_rectangle() {
    let ts = Uuid::from_u128(7);
    let mut level = tile_level(4, 3, Uuid::from_u128(1));
    assert!(fill_rectangle(&mut level, 0, 1, 1, -2, -5, Some(9), Some(ts)));
    let c = cells(&level);
    for y in 0..3u32 {
        for x in 0..4u32 {
            let expect = if x <= 1 && y <= 1 { Some(9) } else { None };
            assert_eq!(c[(y * 4 + x) as usize], expect);
        }
    }
    assert_eq!(get_layer_tileset_id(&level.layers[0]), Some(ts));
}

#[test]
fn fill_rectangle_refuses_another_tileset_and_clears_without_tile() {
    let a = Uuid::from_u128(1);
    let b = Uuid::from_u128(2);
    let mut level = tile_level(3, 3, a);
    level.set_tile(0, 1, 1, Some(4));
    assert!(!fill_rectangle(&mut level, 0, 0, 0, 2, 2, Some(5), Some(b)));
    assert_eq!(cells(&level)[4], Some(4));
    // Clearing needs no tileset and works on any tile layer.
    assert!(fill_rectangle(&mut level, 0, 0, 0, 2, 2, None, Some(b)));
    assert!(cells(&level).iter().all(|c| c.is_none()));
    assert_eq!(get_layer_tileset_id(&level.layers[0]), Some(a));
    // Not a tile layer.
    level.add_layer(Layer::new_object_layer("Objects".to_string()));
    assert!(!fill_rectangle(&mut level, 1, 0, 0, 1, 1, Some(1), Some(a)));
}

#[test]
fn fill_area_floods_the_connected_region() {
    let ts = Uuid::from_u128(3);
    let mut level = tile_level(4, 4, ts);
    // A wall in column 2.
    for y in 0..4 {
        level.set_tile(0, 2, y, Some(1));
    }
    assert!(fill_area(&mut level, 0, 0, 3, 5, ts));
    let c = cells(&level);
    for y in 0..4u32 {
        for x in 0..4u32 {
            let expect = match x {
                0 | 1 => Some(5),
                2 => Some(1),
                _ => None,
            };
            assert_eq!(c[(y * 4 + x) as usize], expect, "cell ({}, {})", x, y);
        }
    }
    // The start now holds the tile, so the same fill does nothing.
    assert!(!fill_area(&mut level, 0, 0, 3, 5, ts));
    // Outside the level.
    assert!(!fill_area(&mut level, 0, 4, 0, 6, ts));
    assert!(!fill_area(&mut level, 0, -1, 0, 6, ts));
}

#[test]
fn fill_area_replaces_only_the_target_tile() {
    let ts = Uuid::from_u128(3);
    let mut level = tile_level(3, 1, ts);
    level.set_tile(0, 0, 0, Some(2));
    level.set_tile(0, 1, 0, Some(2));
    level.set_tile(0, 2, 0, Some(3));
    assert!(fill_area(&mut level, 0, 1, 0, 8, ts));
    assert_eq!(cells(&level), vec![Some(8), Some(8), Some(3)]);
    // Another tileset is refused.
    assert!(!fill_area(&mut level, 0, 2, 0, 8, Uuid::from_u128(99)));
}

#[test]
fn layer_tile_queries() {
    let ts = Uuid::from_u128(3);
    let mut level = tile_level(2, 2, ts);
    assert!(!layer_has_tiles(&level.layers[0]));
    level.set_tile(0, 1, 1, Some(0));
    assert!(layer_has_tiles(&level.layers[0]));
    let objects = Layer::new_object_layer("Objects".to_string());
    assert!(!layer_has_tiles(&objects));
    assert_eq!(get_layer_tileset_id(&objects), None);
}

#[test]
fn place_entity_needs_an_object_layer() {
    let mut level = tile_level(2, 2, Uuid::from_u128(1));
    level.add_layer(Layer::new_object_layer("Objects".to_string()));
    let entity = EntityInstance::new("NPC".to_string(), [0, 0]);
    let id = entity.id;
    assert!(!place_entity(&mut level, 0, entity));
    assert!(level.entities.is_empty());
    let entity = EntityInstance::new("NPC".to_string(), [0, 0]);
    let id2 = entity.id;
    assert!(place_entity(&mut level, 1, entity));
    assert_ne!(id, id2);
    assert_eq!(level.entities.len(), 1);
    assert_eq!(level.entities[0].id, id2);
    match &level.layers[1].data {
        LayerData::Objects { entities } => assert_eq!(entities, &vec![id2]),
        LayerData::Tiles { .. } => panic!("expected an object layer"),
    }
    assert!(!place_entity(&mut level, 5, EntityInstance::new("X".to_string(), [0, 0])));
}

#[test]
fn paint_single_cell_tile() {
    let ts = Uuid::from_u128(10);
    let tilesets = vec![project_tileset(10)];
    let level_id = Uuid::from_u128(500);
    let mut level = tile_level(3, 3, ts);
    let mut stroke = PaintStrokeTracker::new();
    let mut last = None;
    let updates = paint_tile(
        &mut level, level_id, 0, 1, 1, 4, true, false, ts, &tilesets, (1, 1), &mut stroke, &mut last,
    );
    let tile = tile_with_flips(4, true, false);
    assert_eq!(tile, 4 | 0x8000_0000);
    assert_eq!(updates, Some(vec![(1, 1, Some(tile))]));
    assert_eq!(cells(&level)[4], Some(tile));
    assert_eq!(last, Some((1, 1)));
    assert!(stroke.active);
    assert_eq!(stroke.level_id, Some(level_id));
    assert_eq!(stroke.layer_idx, Some(0));
    assert_eq!(stroke.description, "Paint Tiles");
    assert_eq!(stroke.changes.len(), 1);
    assert_eq!(
        (stroke.changes[0].x, stroke.changes[0].y, stroke.changes[0].old_tile, stroke.changes[0].new_tile),
        (1, 1, None, Some(tile))
    );
    // The same cell is not painted twice in a row.
    let again = paint_tile(
        &mut level, level_id, 0, 1, 1, 5, false, false, ts, &tilesets, (1, 1), &mut stroke, &mut last,
    );
    assert_eq!(again, None);
    assert_eq!(cells(&level)[4], Some(tile));
    // Painting the cell again in the same stroke keeps its first tile.
    last = None;
    paint_tile(&mut level, level_id, 0, 1, 1, 5, false, false, ts, &tilesets, (1, 1), &mut stroke, &mut last);
    assert_eq!(stroke.changes.len(), 1);
    assert_eq!(stroke.changes[0].old_tile, None);
    assert_eq!(stroke.changes[0].new_tile, Some(5));
    // Outside the level.
    assert_eq!(
        paint_tile(&mut level, level_id, 0, 3, 0, 5, false, false, ts, &tilesets, (1, 1), &mut stroke, &mut last),
        None
    );
}

#[test]
fn paint_multi_cell_tile_marks_the_footprint() {
    let ts = Uuid::from_u128(10);
    let tilesets = vec![project_tileset(10)];
    let mut level = tile_level(3, 3, ts);
    let mut stroke = PaintStrokeTracker::new();
    let mut last = None;
    let updates = paint_tile(
        &mut level, Uuid::from_u128(1), 0, 0, 0, 2, false, false, ts, &tilesets, (2, 2), &mut stroke,
        &mut last,
    )
    .unwrap();
    assert_eq!(
        updates,
        vec![
            (0, 0, Some(2)),
            (1, 0, Some(OCCUPIED_CELL)),
            (0, 1, Some(OCCUPIED_CELL)),
            (1, 1, Some(OCCUPIED_CELL)),
        ]
    );
    let c = cells(&level);
    assert_eq!(c[0], Some(2));
    assert_eq!(c[1], Some(OCCUPIED_CELL));
    assert_eq!(c[3], Some(OCCUPIED_CELL));
    assert_eq!(c[4], Some(OCCUPIED_CELL));
    assert_eq!(c[2], None);
    assert_eq!(occupied(&level), vec![(1, 0), (3, 0), (4, 0)]);
    assert_eq!(stroke.changes.len(), 4);
    // A footprint that does not fit is refused.
    last = None;
    assert_eq!(
        paint_tile(
            &mut level, Uuid::from_u128(1), 0, 2, 2, 2, false, false, ts, &tilesets, (2, 2),
            &mut stroke, &mut last,
        ),
        None
    );
}

#[test]
fn paint_respects_the_layer_tileset() {
    let a = Uuid::from_u128(10);
    let b = Uuid::from_u128(11);
    let tilesets = vec![project_tileset(10), project_tileset(11)];
    let mut level = tile_level(2, 2, a);
    level.set_tile(0, 0, 0, Some(1));
    let mut stroke = PaintStrokeTracker::new();
    let mut last = None;
    // Tiles of another tileset of the project: refused.
    assert_eq!(
        paint_tile(&mut level, Uuid::from_u128(1), 0, 1, 1, 3, false, false, b, &tilesets, (1, 1), &mut stroke, &mut last),
        None
    );
    assert!(!stroke.active);
    // Tiles of a tileset that is no longer in the project: the layer is cleared first.
    let only_b = vec![project_tileset(11)];
    assert!(paint_tile(&mut level, Uuid::from_u128(1), 0, 1, 1, 3, false, false, b, &only_b, (1, 1), &mut stroke, &mut last).is_some());
    assert_eq!(cells(&level), vec![None, None, None, Some(3)]);
    assert_eq!(get_layer_tileset_id(&level.layers[0]), Some(b));
}

#[test]
fn erase_single_and_multi_cell_tiles() {
    let ts = Uuid::from_u128(10);
    let tilesets = vec![project_tileset(10)];
    let mut level = tile_level(3, 3, ts);
    let mut stroke = PaintStrokeTracker::new();
    let mut last = None;
    paint_tile(&mut level, Uuid::from_u128(1), 0, 0, 0, 2, false, false, ts, &tilesets, (2, 2), &mut stroke, &mut last);
    level.set_tile(0, 2, 2, Some(6));
    assert_eq!(base_cell_of(&level, 0, 1, 1), (0, 0));
    assert_eq!(base_cell_of(&level, 0, 2, 2), (2, 2));

    let mut erase_stroke = PaintStrokeTracker::new();
    let mut last = None;
    let updates = erase_tile(&mut level, Uuid::from_u128(1), 0, 1, 1, (2, 2), &mut erase_stroke, &mut last);
    assert_eq!(updates, Some(vec![(0, 0), (1, 0), (0, 1), (1, 1)]));
    let c = cells(&level);
    assert_eq!(&c[..8], &[None, None, None, None, None, None, None, None]);
    assert_eq!(c[8], Some(6));
    assert!(occupied(&level).is_empty());
    assert_eq!(erase_stroke.description, "Erase Tiles");
    assert_eq!(erase_stroke.changes.len(), 4);

    let updates = erase_tile(&mut level, Uuid::from_u128(1), 0, 2, 2, (1, 1), &mut erase_stroke, &mut last);
    assert_eq!(updates, Some(vec![(2, 2)]));
    assert_eq!(cells(&level)[8], None);
    assert_eq!(last, Some((2, 2)));
    // Same cell again, and outside the level.
    assert_eq!(erase_tile(&mut level, Uuid::from_u128(1), 0, 2, 2, (1, 1), &mut erase_stroke, &mut last), None);
    assert_eq!(erase_tile(&mut level, Uuid::from_u128(1), 0, 0, 9, (1, 1), &mut erase_stroke, &mut last), None);
}

#[test]
fn finished_stroke_gives_its_undo() {
    let ts = Uuid::from_u128(10);
    let tilesets = vec![project_tileset(10)];
    let mut level = tile_level(2, 1, ts);
    let mut stroke = PaintStrokeTracker::new();
    let mut last = None;
    paint_tile(&mut level, Uuid::from_u128(9), 0, 0, 0, 3, false, false, ts, &tilesets, (1, 1), &mut stroke, &mut last);
    paint_tile(&mut level, Uuid::from_u128(9), 0, 1, 0, 3, false, false, ts, &tilesets, (1, 1), &mut stroke, &mut last);
    // Still painting: nothing yet.
    assert!(stroke.finish(true, false).is_none());
    assert!(stroke.finish(false, true).is_none());
    assert!(stroke.active);
    let undo = stroke.finish(false, false).unwrap();
    assert_eq!(undo.level_id, Uuid::from_u128(9));
    assert_eq!(undo.layer_idx, 0);
    assert_eq!(undo.description, "Paint Tiles");
    let mut restore: Vec<(u32, u32, Option<u32>, Option<u32>)> =
        undo.changes.iter().map(|c| (c.x, c.y, c.old_tile, c.new_tile)).collect();
    restore.sort();
    assert_eq!(restore, vec![(0, 0, Some(3), None), (1, 0, Some(3), None)]);
    assert!(!stroke.active);
    assert!(stroke.changes.is_empty());
    assert!(stroke.level_id.is_none());
    // No stroke in progress.
    assert!(stroke.finish(false, false).is_none());
}

#[test]
fn paint_tile_choice_and_random_choice() {
    assert_eq!(paint_tile_choice(true, &vec![5, 6], Some(1), 1), Some(6));
    assert_eq!(paint_tile_choice(false, &vec![5, 6], Some(1), 1), Some(1));
    assert_eq!(paint_tile_choice(true, &vec![], None, 0), None);
    for _ in 0..20 {
        let t = choose_paint_tile(true, &vec![7, 8, 9], None).unwrap();
        assert!([7, 8, 9].contains(&t));
    }
    assert_eq!(choose_paint_tile(false, &vec![7], Some(2)), Some(2));
}
