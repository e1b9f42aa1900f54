use bevy_map::asset_browser::{AssetBrowserState, FileEntry};
use bevy_map::asset_paths::{path_after_assets, texture_asset_paths, tileset_asset_paths};
use bevy_map::build_output::{build_log_file_name, cargo_run_args, check_project_present, LaunchError, LaunchOptions};
use bevy_map::cli::{create_outcome, create_project_args, install_args, install_outcome, version_from_output, BevyCliError};
use bevy_map::editor_project::{name_from_stem, Project};
use bevy_map::entity_config::{ColliderConfig, EntityTypeConfig, InputConfig, InputProfile, PhysicsConfig, SpriteConfig};
use bevy_map::ids::Uuid;
use bevy_map::inspector::{InspectorResult, Selection};
use bevy_map::layer::Layer;
use bevy_map::level::{EntityInstance, Level};
use bevy_map::paint::PaintStrokeTracker;
use bevy_map::project::{EditorProject, MapProject};
use bevy_map::schema::Schema;
use bevy_map::tileset::{Tileset, TilesetImage};
use bevy_map::tools::{get_tile_size, is_tile_layer};
use bevy_map::data_store::DataInstance;
use bevy_map::world::{parse_hex_color, ConnectionDirection, LevelConnection, WorldConfig, WorldLayout, WorldViewResult};

fn tileset(id: u128, name: &str, paths: &[&str], single: Option<&str>) -> Tileset {
    Tileset {
        id: Uuid::from_u128(id),
        name: name.to_string(),
        tile_size: 16,
        columns: 4,
        rows: 4,
        images: paths
            .iter()
            .enumerate()
            .map(|(i, p)| TilesetImage { id: Uuid::from_u128(100 + i as u128), path: p.to_string(), columns: 4, rows: 4 })
            .collect(),
        path: single.map(|s| s.to_string()),
    }
}

fn custom_config() -> EntityTypeConfig {
    let mut physics = PhysicsConfig::default();
    physics.collider = ColliderConfig::new_capsule(14.0f32.to_bits(), 24.0f32.to_bits());
    let mut input = InputConfig::platformer();
    input.profile = InputProfile::Custom { name: "boss".to_string() };
    let sprite = SpriteConfig::with_sprite_sheet(Uuid::from_u128(77)).with_animation("idle").with_scale(2.0f32.to_bits());
    EntityTypeConfig { physics: Some(physics), input: Some(input), sprite: Some(sprite) }
}

#[test]
fn project_entity_type_configs() {
    let mut project = Project::new(Schema::default());
    assert!(project.get_entity_type_config("Player").is_none());
    project.set_entity_type_config("Player", custom_config());
    assert!(project.is_dirty());
    assert!(project.get_entity_type_config("Player").map(|c| c.has_any()).unwrap_or(false));
    project.set_entity_type_config("Player", EntityTypeConfig::new());
    assert_eq!(project.entity_type_configs.len(), 1);
    assert!(!project.get_entity_type_config("Player").unwrap().has_any());
    {
        let c = project.ensure_entity_type_config("Enemy");
        assert!(!c.has_any());
        c.input = Some(InputConfig::top_down());
    }
    assert_eq!(project.entity_type_configs.len(), 2);
    assert!(project.get_entity_type_config("Enemy").unwrap().input.is_some());
    assert!(project.ensure_entity_type_config("Enemy").input.is_some());
    if let Some(c) = project.get_entity_type_config_mut("Player") {
        c.sprite = Some(SpriteConfig::default());
    }
    assert!(project.get_entity_type_config("Player").unwrap().sprite.is_some());
    assert!(project.get_entity_type_config_mut("Ghost").is_none());
    assert!(project.remove_entity_type_config("Player").is_some());
    assert!(project.remove_entity_type_config("Player").is_none());
    assert_eq!(project.entity_type_configs.len(), 1);
    assert_eq!(project.entity_type_configs[0].0, "Enemy");
}

#[test]
fn project_name_from_path_or_schema() {
    let mut schema = Schema::default();
    schema.project.name = "Schema Name".to_string();
    let mut project = Project::new(schema);
    assert_eq!(project.name(), "Schema Name");
    project.path = Some("/maps/forest.map.json".to_string());
    assert_eq!(project.name(), "forest.map");
    assert_eq!(name_from_stem(None, &"x".to_string()), "x");
    assert_eq!(name_from_stem(Some("y".to_string()), &"x".to_string()), "y");
}

#[test]
fn tile_layer_lookup_through_the_project() {
    let mut project = Project::new(Schema::default());
    let mut level = Level::new("L".to_string(), 2, 2);
    level.add_layer(Layer::new_tile_layer("T".to_string(), Uuid::from_u128(1), 2, 2));
    level.add_layer(Layer::new_object_layer("O".to_string()));
    let id = level.id;
    project.add_level(level);
    assert!(is_tile_layer(&project, id, 0));
    assert!(!is_tile_layer(&project, id, 1));
    assert!(!is_tile_layer(&project, id, 2));
    assert!(!is_tile_layer(&project, Uuid::from_u128(3), 0));
}

#[test]
fn editor_project_to_map_project() {
    let empty = EditorProject { version: 2, tilesets: vec![], levels: vec![], entity_type_configs: vec![] };
    assert!(empty.first_level().is_none());
    assert!(empty.to_map_project().is_none());

    let mut first = Level::new("First".to_string(), 3, 2);
    first.add_layer(Layer::new_tile_layer("Ground".to_string(), Uuid::from_u128(1), 3, 2));
    first.set_tile(0, 2, 1, Some(5));
    first.add_entity(EntityInstance::new("Npc".to_string(), [0, 0]));
    first.bg_color = Some("#101010".to_string());
    let second = Level::new("Second".to_string(), 1, 1);
    let project = EditorProject {
        version: 3,
        tilesets: vec![
            tileset(1, "old", &["a.png"], None),
            tileset(2, "other", &[], Some("b.png")),
            tileset(1, "new", &["c.png", "d.png"], None),
        ],
        levels: vec![first, second],
        entity_type_configs: vec![("Boss".to_string(), custom_config())],
    };
    assert_eq!(project.first_level().map(|l| l.name.clone()), Some("First".to_string()));
    assert_eq!(project.tileset_by_id(Uuid::from_u128(1)).map(|t| t.name.clone()), Some("old".to_string()));
    assert!(project.tileset_by_id(Uuid::from_u128(9)).is_none());
    assert!(project.get_entity_type_config("Boss").is_some());
    assert!(project.get_entity_type_config("Hero").is_none());

    let map: MapProject = project.to_map_project().expect("the project has a level");
    assert_eq!(map.version, 3);
    assert_eq!(map.level.id, project.levels[0].id);
    assert_eq!(map.level.name, "First");
    assert_eq!(map.level.get_tile(0, 2, 1), Some(5));
    assert_eq!(map.level.entities.len(), 1);
    assert_eq!(map.level.bg_color.as_deref(), Some("#101010"));
    assert_eq!(map.tilesets.len(), 2);
    assert_eq!(map.get_tileset(Uuid::from_u128(1)).map(|t| t.name.clone()), Some("new".to_string()));
    assert_eq!(map.get_tileset(Uuid::from_u128(1)).map(|t| t.images.len()), Some(2));
    assert_eq!(map.get_tileset(Uuid::from_u128(2)).and_then(|t| t.path.clone()), Some("b.png".to_string()));
    let boss = map.get_entity_type_config("Boss").expect("configs are copied");
    match &boss.input {
        Some(i) => assert_eq!(i.profile, InputProfile::Custom { name: "boss".to_string() }),
        None => panic!("input is copied"),
    }
    assert_eq!(boss.sprite.as_ref().and_then(|s| s.default_animation.clone()), Some("idle".to_string()));
    assert!(MapProject::new(Level::new("x".to_string(), 1, 1), vec![]).get_entity_type_config("Boss").is_none());
}

#[test]
fn command_arguments() {
    assert_eq!(
        install_args(),
        vec!["install", "--git", "https://github.com/TheBevyFlock/bevy_cli", "--tag", "cli-v0.1.0-alpha.2", "--locked", "bevy_cli"]
    );
    match create_project_args("my_game") {
        Ok(args) => assert_eq!(
            args,
            vec![
                "new",
                "my_game",
                "--template",
                "https://github.com/jbuehler23/bevy_map_editor_template",
                "--",
                "--define",
                "author=",
                "--define",
                "description=A game created with bevy_map_editor",
            ]
        ),
        Err(_) => panic!("a valid name is accepted"),
    }
    assert!(matches!(create_project_args("My Game"), Err(BevyCliError::InvalidProjectName(n)) if n == "My Game"));
    assert!(install_outcome(true, String::new()).is_ok());
    assert!(matches!(install_outcome(false, "boom".to_string()), Err(BevyCliError::InstallFailed(m)) if m == "boom"));
    assert!(create_outcome(true, "warning".to_string()).is_ok());
    assert!(matches!(create_outcome(false, "bad".to_string()), Err(BevyCliError::CreateFailed(m)) if m == "bad"));
    assert_eq!(version_from_output(true, "  bevy 0.1.0\n"), Some("bevy 0.1.0".to_string()));
    assert_eq!(version_from_output(false, "bevy 0.1.0"), None);

    let mut options = LaunchOptions { project_path: "/game".to_string(), release: false, hot_reload: false };
    assert_eq!(cargo_run_args(&options), vec!["run"]);
    options.release = true;
    options.hot_reload = true;
    assert_eq!(cargo_run_args(&options), vec!["run", "--release", "--features", "hot_reload"]);
    options.release = false;
    assert_eq!(cargo_run_args(&options), vec!["run", "--features", "hot_reload"]);
    assert!(check_project_present(&options, true, true).is_ok());
    assert!(matches!(check_project_present(&options, true, false), Err(LaunchError::ProjectNotFound(p)) if p == "/game"));
    assert!(matches!(check_project_present(&options, false, true), Err(LaunchError::ProjectNotFound(_))));
    assert_eq!(build_log_file_name(1_700_000_000), "bevy_map_editor_build_1700000000.log");
    assert_eq!(build_log_file_name(0), "bevy_map_editor_build_0.log");
}

#[test]
fn asset_sync_paths() {
    assert_eq!(path_after_assets("/home/me/proj/assets/tiles/a.png"), Some("tiles/a.png".to_string()));
    assert_eq!(path_after_assets("C:\\proj\\assets\\tiles\\a.png"), Some("tiles\\a.png".to_string()));
    assert_eq!(path_after_assets("x/assets\\y/assets/z.png"), Some("z.png".to_string()));
    assert_eq!(path_after_assets("tiles/a.png"), None);
    let tilesets = vec![tileset(1, "a", &["one.png", "two.png"], Some("legacy.png")), tileset(2, "b", &[], Some("b.png"))];
    assert_eq!(tileset_asset_paths(&tilesets), vec!["one.png", "two.png", "legacy.png", "b.png"]);
}

#[test]
fn browser_listing_cache() {
    let mut state = AssetBrowserState::new("/a".to_string());
    assert!(state.cached_listing().is_none());
    let entry = FileEntry {
        path: "/a/x.png".to_string(),
        name: "x.png".to_string(),
        name_lower: "x.png".to_string(),
        is_dir: false,
        extension: Some("png".to_string()),
        size: 1,
    };
    state.cache_listing(vec![entry]);
    assert_eq!(state.cached_listing().map(|v| v.len()), Some(1));
    state.navigate_to("/a/b".to_string(), true);
    assert!(state.cached_listing().is_none());
    state.cache_listing(vec![]);
    assert_eq!(state.cached_listing().map(|v| v.len()), Some(0));
    state.current_path = "/elsewhere".to_string();
    assert!(state.cached_listing().is_none());
}

#[test]
fn results_start_empty() {
    let w = WorldViewResult::default();
    assert!(w.open_level.is_none() && w.delete_level.is_none() && w.create_level.is_none());
    let i = InspectorResult::default();
    assert!(i.delete_entity.is_none() && i.create_instance_for_array.is_none());
    assert_eq!(Selection::default(), Selection::Nothing);
}

#[test]
fn removing_an_added_connection_restores_the_world() {
    let mut world = WorldConfig::new(WorldLayout::Free);
    let a = Uuid::from_u128(1);
    let b = Uuid::from_u128(2);
    world.add_connection(LevelConnection::new(a, ConnectionDirection::East, b, ConnectionDirection::West));
    let c = LevelConnection::auto_direction(b, ConnectionDirection::North, a);
    assert_eq!(c.to_direction, ConnectionDirection::South);
    world.add_connection(c);
    assert_eq!(world.connections_for(a).len(), 2);
    assert_eq!(world.remove_connection(c.id), Some(c));
    assert_eq!(world.connections.len(), 1);
    assert_eq!(world.connections_from(a).len(), 1);
    assert!(world.remove_connection(c.id).is_none());
}

#[test]
fn undo_batch_swaps_tiles_of_a_stroke() {
    let mut stroke = PaintStrokeTracker::new();
    stroke.begin(Uuid::from_u128(1), 0, "Paint");
    stroke.record(1, 1, None, Some(4));
    stroke.record(2, 1, Some(3), Some(4));
    stroke.record(1, 1, Some(4), Some(6));
    let undo = stroke.finish(false, false).expect("the stroke changed cells");
    assert_eq!(undo.changes.len(), 2);
    let c0 = undo.changes[0];
    assert_eq!((c0.x, c0.y, c0.old_tile, c0.new_tile), (1, 1, Some(6), None));
    let c1 = undo.changes[1];
    assert_eq!((c1.x, c1.y, c1.old_tile, c1.new_tile), (2, 1, Some(4), Some(3)));
    assert!(!stroke.active);
}

#[test]
fn hex_colors() {
    assert_eq!(parse_hex_color("#3C3C50"), Some((0x3c, 0x3c, 0x50)));
    assert_eq!(parse_hex_color("ff0080"), Some((255, 0, 128)));
    assert_eq!(parse_hex_color("##aBcDeF"), Some((0xab, 0xcd, 0xef)));
    assert_eq!(parse_hex_color("#+f+f+f"), Some((15, 15, 15)));
    assert_eq!(parse_hex_color("#12345"), None);
    assert_eq!(parse_hex_color("#1234567"), None);
    assert_eq!(parse_hex_color("#12345g"), None);
    assert_eq!(parse_hex_color("#-1-1-1"), None);
    assert_eq!(parse_hex_color("ééé"), None);
    assert_eq!(parse_hex_color(""), None);
}

#[test]
fn viewport_tile_size() {
    let mut project = Project::new(Schema::default());
    let mut big = tileset(1, "big", &["a.png"], None);
    big.tile_size = 48;
    let mut small = tileset(2, "small", &["b.png"], None);
    small.tile_size = 8;
    project.add_tileset(big);
    project.add_tileset(small);
    let mut level = Level::new("L".to_string(), 2, 2);
    level.add_layer(Layer::new_tile_layer("T".to_string(), Uuid::from_u128(1), 2, 2));
    level.add_layer(Layer::new_object_layer("O".to_string()));
    let id = level.id;
    project.add_level(level);
    assert_eq!(get_tile_size(&project, Some(id), Some(0), Some(Uuid::from_u128(2))), 48);
    assert_eq!(get_tile_size(&project, Some(id), Some(1), Some(Uuid::from_u128(2))), 8);
    assert_eq!(get_tile_size(&project, Some(id), None, None), 32);
    assert_eq!(get_tile_size(&project, None, Some(0), Some(Uuid::from_u128(9))), 32);
}

#[test]
fn data_instances_edited_in_place() {
    let mut project = Project::new(Schema::default());
    let inst = DataInstance::new("Item".to_string());
    let id = inst.id;
    project.add_data_instance(inst);
    project.dirty = false;
    assert!(project.get_data_instance_mut(Uuid::from_u128(1)).is_none());
    assert!(!project.dirty);
    if let Some(i) = project.get_data_instance_mut(id) {
        i.data_type = "Weapon".to_string();
    }
    assert!(project.dirty);
    assert_eq!(project.get_data_instance(id).map(|i| i.data_type.clone()), Some("Weapon".to_string()));
}

#[test]
fn texture_paths_are_relative_to_assets() {
    let mut level = Level::new("L".to_string(), 2, 2);
    level.add_layer(Layer::new_tile_layer("T".to_string(), Uuid::from_u128(7), 2, 2));
    let project = MapProject::new(
        level,
        vec![tileset(7, "t", &["C:\\game\\assets\\tiles\\a.png", "assets/tiles/b.png"], None)],
    );
    let paths = texture_asset_paths(&project);
    assert_eq!(
        paths,
        vec![
            (Uuid::from_u128(7), 0, "tiles/a.png".to_string()),
            (Uuid::from_u128(7), 1, "tiles/b.png".to_string()),
        ]
    );
}
