use bevy_map::entity_config::{InputProfile, PhysicsBodyType};
use bevy_map::ids::Uuid;
use bevy_map::layer::{Layer, LayerData, LayerType};
use bevy_map::level::{EntityInstance, Level};
use bevy_map::project::{MapProject, MapProjectBuilder};
use bevy_map::tileset::Tileset;
use bevy_map::world::{ConnectionDirection, LevelConnection, WorldConfig, WorldLayout};

#[test]
fn test_physics_body_type() {
    assert_eq!(PhysicsBodyType::Dynamic.display_name(), "Dynamic");
    assert_eq!(PhysicsBodyType::all().len(), 3);
}

#[test]
fn test_input_profile() {
    assert_eq!(InputProfile::Platformer.display_name(), "Platformer");
    assert_eq!(InputProfile::all_builtin().len(), 4);
}

#[test]
fn test_new_tile_layer() {
    let tileset_id = Uuid::new_v4();
    let layer = Layer::new_tile_layer("Ground".to_string(), tileset_id, 10, 10);

    assert_eq!(layer.name, "Ground");
    assert!(layer.visible);
    assert_eq!(layer.layer_type(), LayerType::Tiles);

    if let LayerData::Tiles {
        tiles,
        occupied_cells,
        ..
    } = &layer.data
    {
        assert_eq!(tiles.len(), 100);
        assert!(tiles.iter().all(|t| t.is_none()));
        assert!(occupied_cells.is_empty());
    } else {
        panic!("Expected tile layer");
    }
}

#[test]
fn test_new_object_layer() {
    let layer = Layer::new_object_layer("Entities".to_string());

    assert_eq!(layer.name, "Entities");
    assert!(layer.visible);
    assert_eq!(layer.layer_type(), LayerType::Objects);
}

#[test]
fn test_new_level() {
    let level = Level::new("Test Level".to_string(), 10, 10);
    assert_eq!(level.name, "Test Level");
    assert_eq!(level.width, 10);
    assert_eq!(level.height, 10);
    assert!(level.layers.is_empty());
    assert!(level.entities.is_empty());
}

#[test]
fn test_tile_operations() {
    let mut level = Level::new("Test".to_string(), 10, 10);
    let tileset_id = Uuid::new_v4();
    level.add_layer(Layer::new_tile_layer(
        "Ground".to_string(),
        tileset_id,
        10,
        10,
    ));

    // Initially empty
    assert_eq!(level.get_tile(0, 5, 5), None);

    // Set a tile
    level.set_tile(0, 5, 5, Some(42));
    assert_eq!(level.get_tile(0, 5, 5), Some(42));

    // Clear a tile
    level.set_tile(0, 5, 5, None);
    assert_eq!(level.get_tile(0, 5, 5), None);
}

#[test]
fn test_entity_operations() {
    let mut level = Level::new("Test".to_string(), 10, 10);
    let entity = EntityInstance::new("NPC".to_string(), [100.0f32.to_bits(), 100.0f32.to_bits()]);
    let entity_id = entity.id;

    level.add_entity(entity);
    assert!(level.get_entity(entity_id).is_some());

    let removed = level.remove_entity(entity_id);
    assert!(removed.is_some());
    assert!(level.get_entity(entity_id).is_none());
}

#[test]
fn test_map_project_creation() {
    let mut level = Level::new("Test".to_string(), 10, 10);
    let tileset = Tileset::new("Ground".to_string(), "tiles.png".to_string(), 32, 10, 10);
    let tileset_id = tileset.id;

    level.add_layer(Layer::new_tile_layer(
        "Ground".to_string(),
        tileset_id,
        10,
        10,
    ));

    let project = MapProject::new(level, vec![tileset]);

    assert_eq!(project.version, 1);
    assert!(project.get_tileset(tileset_id).is_some());
    assert!(project.validate().is_ok());
}

#[test]
fn test_used_tileset_ids() {
    let mut level = Level::new("Test".to_string(), 10, 10);
    let tileset1 = Tileset::new("Ground".to_string(), "ground.png".to_string(), 32, 10, 10);
    let tileset2 = Tileset::new("Objects".to_string(), "objects.png".to_string(), 32, 8, 8);

    level.add_layer(Layer::new_tile_layer(
        "Ground".to_string(),
        tileset1.id,
        10,
        10,
    ));
    level.add_layer(Layer::new_tile_layer(
        "Objects".to_string(),
        tileset2.id,
        10,
        10,
    ));

    let project = MapProject::new(level, vec![tileset1.clone(), tileset2.clone()]);
    let used_ids = project.used_tileset_ids();

    assert_eq!(used_ids.len(), 2);
    assert!(used_ids.contains(&tileset1.id));
    assert!(used_ids.contains(&tileset2.id));
}

#[test]
fn test_image_paths() {
    let mut level = Level::new("Test".to_string(), 10, 10);
    let tileset = Tileset::new(
        "Ground".to_string(),
        "tiles/ground.png".to_string(),
        32,
        10,
        10,
    );
    let tileset_id = tileset.id;

    level.add_layer(Layer::new_tile_layer(
        "Ground".to_string(),
        tileset_id,
        10,
        10,
    ));

    let project = MapProject::new(level, vec![tileset]);
    let paths = project.image_paths();

    assert_eq!(paths.len(), 1);
    assert_eq!(paths[0].2, "tiles/ground.png");
}

#[test]
fn test_validation_fails_missing_tileset() {
    let mut level = Level::new("Test".to_string(), 10, 10);
    let missing_tileset_id = Uuid::new_v4();

    level.add_layer(Layer::new_tile_layer(
        "Ground".to_string(),
        missing_tileset_id,
        10,
        10,
    ));

    let project = MapProject::new(level, vec![]);
    assert!(project.validate().is_err());
}

#[test]
fn test_builder_pattern() {
    let level = Level::new("Test".to_string(), 10, 10);
    let tileset = Tileset::new("Ground".to_string(), "tiles.png".to_string(), 32, 10, 10);

    let project = MapProjectBuilder::new()
        .level(level)
        .tileset(tileset)
        .build()
        .unwrap();

    assert_eq!(project.level.name, "Test");
    assert_eq!(project.tilesets.len(), 1);
}

#[test]
fn test_world_layout_display_names() {
    assert_eq!(WorldLayout::Free.display_name(), "Free");
    assert_eq!(WorldLayout::GridVania.display_name(), "Grid-vania");
}

#[test]
fn test_world_config_default() {
    let config = WorldConfig::default();
    assert_eq!(config.layout, WorldLayout::Free);
    assert_eq!(config.grid_width, 256);
    assert_eq!(config.grid_height, 256);
    assert!(config.connections.is_empty());
}

#[test]
fn test_level_connection() {
    let level_a = Uuid::new_v4();
    let level_b = Uuid::new_v4();

    let connection = LevelConnection::new(
        level_a,
        ConnectionDirection::East,
        level_b,
        ConnectionDirection::West,
    );
    assert_eq!(connection.from_level, level_a);
    assert_eq!(connection.from_direction, ConnectionDirection::East);
    assert_eq!(connection.to_level, level_b);
    assert_eq!(connection.to_direction, ConnectionDirection::West);
}

#[test]
fn test_connection_auto_direction() {
    let level_a = Uuid::new_v4();
    let level_b = Uuid::new_v4();

    let connection = LevelConnection::auto_direction(level_a, ConnectionDirection::East, level_b);
    assert_eq!(connection.from_direction, ConnectionDirection::East);
    assert_eq!(connection.to_direction, ConnectionDirection::West);
}

#[test]
fn test_connection_management() {
    let mut config = WorldConfig::default();
    let level_a = Uuid::new_v4();
    let level_b = Uuid::new_v4();

    let connection = LevelConnection::auto_direction(level_a, ConnectionDirection::East, level_b);
    let connection_id = connection.id;

    config.add_connection(connection);
    assert_eq!(config.connections.len(), 1);

    let from_a = config.connections_from(level_a);
    assert_eq!(from_a.len(), 1);

    config.remove_connection(connection_id);
    assert!(config.connections.is_empty());
}
