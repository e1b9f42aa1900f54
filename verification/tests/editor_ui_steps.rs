use bevy_map::build_output::{cancelled_output, process_exit_output, BuildOutput};
use bevy_map::data_store::DataInstance;
use bevy_map::editor_project::Project;
use bevy_map::ids::Uuid;
use bevy_map::inspector::Selection;
use bevy_map::layer::{Layer, LayerData};
use bevy_map::level::{EntityInstance, Level};
use bevy_map::schema::{PropType, PropertyDef, Schema, TypeDef};
use bevy_map::tileset::Tileset;
use bevy_map::ui_actions::{
    add_object_layer, add_tile_layer, begin_rename, delete_entity_everywhere, delete_layer,
    duplicate_entity, duplicate_layer, move_layer_down_selecting, move_layer_up_selecting,
    new_data_instance, rename_data_instance, rename_layer, rename_level, rename_tileset,
    toggle_data_instance_selection, toggle_entity_selection, RenamingItem,
};
use bevy_map::value::{Property, Value};
use bevy_map::viewport::{viewport_step, EditorTool, PointerInput, ToolAction, ToolMode, ViewportState};

fn id(n: u128) -> Uuid {
    Uuid::from_u128(n)
}

fn input(tile: (i32, i32)) -> PointerInput {
    PointerInput {
        tile,
        pointer_captured: false,
        pan_pressed: false,
        left_just_pressed: false,
        left_pressed: false,
        left_just_released: false,
        shift: false,
        blocked: false,
        hits_selected_entity: false,
        hits_tile_selection: false,
        entity_hit: None,
        terrain_mode: false,
        has_selected_tile: true,
    }
}

fn objects(layer: &Layer) -> Vec<Uuid> {
    match &layer.data {
        LayerData::Objects { entities } => entities.clone(),
        LayerData::Tiles { .. } => panic!("not an object layer"),
    }
}

#[test]
fn toggling_data_instances() {
    let s = toggle_data_instance_selection(&Selection::Nothing, id(1));
    assert_eq!(s, Selection::DataInstance(id(1)));
    let s = toggle_data_instance_selection(&s, id(2));
    assert_eq!(s, Selection::MultipleDataInstances(vec![id(1), id(2)]));
    let s = toggle_data_instance_selection(&s, id(3));
    assert_eq!(s, Selection::MultipleDataInstances(vec![id(1), id(2), id(3)]));
    let s = toggle_data_instance_selection(&s, id(2));
    assert_eq!(s, Selection::MultipleDataInstances(vec![id(1), id(3)]));
    let s = toggle_data_instance_selection(&s, id(1));
    assert_eq!(s, Selection::DataInstance(id(3)));
    assert_eq!(toggle_data_instance_selection(&s, id(3)), Selection::Nothing);
    assert_eq!(
        toggle_data_instance_selection(&Selection::MultipleDataInstances(vec![id(4)]), id(4)),
        Selection::Nothing
    );
    assert_eq!(toggle_data_instance_selection(&Selection::Level(id(9)), id(5)), Selection::DataInstance(id(5)));
}

#[test]
fn toggling_entities() {
    let s = toggle_entity_selection(&Selection::Nothing, id(1), id(10));
    assert_eq!(s, Selection::Entity(id(1), id(10)));
    let s = toggle_entity_selection(&s, id(1), id(11));
    assert_eq!(s, Selection::MultipleEntities(vec![(id(1), id(10)), (id(1), id(11))]));
    let s = toggle_entity_selection(&s, id(1), id(10));
    assert_eq!(s, Selection::Entity(id(1), id(11)));
    assert_eq!(toggle_entity_selection(&s, id(1), id(11)), Selection::Nothing);
}

#[test]
fn entities_deleted_and_duplicated() {
    let mut level = Level::new("L".to_string(), 2, 2);
    let a = EntityInstance::new("Npc".to_string(), [16.0f32.to_bits(), 8.0f32.to_bits()]);
    let b = EntityInstance::new("Door".to_string(), [48.0f32.to_bits(), 8.0f32.to_bits()]);
    let (aid, bid) = (a.id, b.id);
    level.add_entity(a);
    level.add_entity(b);
    level.add_layer(Layer::new_tile_layer("T".to_string(), id(1), 2, 2));
    let mut o1 = Layer::new_object_layer("O1".to_string());
    o1.data = LayerData::Objects { entities: vec![aid, bid, aid] };
    let mut o2 = Layer::new_object_layer("O2".to_string());
    o2.data = LayerData::Objects { entities: vec![bid] };
    level.add_layer(o1);
    level.add_layer(o2);

    let new_id = duplicate_entity(&mut level, bid).expect("the entity exists");
    assert_eq!(level.entities.len(), 3);
    assert_eq!(level.entities[2].id, new_id);
    assert_eq!(level.entities[2].entity_type, "Door");
    assert_eq!(objects(&level.layers[1]), vec![aid, bid, aid, new_id]);
    assert_eq!(objects(&level.layers[2]), vec![bid]);
    assert!(duplicate_entity(&mut level, id(77)).is_none());

    delete_entity_everywhere(&mut level, aid);
    assert_eq!(level.entities.len(), 2);
    assert!(level.get_entity(aid).is_none());
    assert_eq!(objects(&level.layers[1]), vec![bid, new_id]);
    assert_eq!(level.layers.len(), 3);
}

#[test]
fn layer_operations_keep_the_selection() {
    let mut level = Level::new("L".to_string(), 2, 3);
    assert_eq!(add_tile_layer(&mut level, None).unwrap_err(), "Cannot create tile layer: No tilesets available. Create a tileset first.");
    assert_eq!(add_tile_layer(&mut level, Some(id(5))), Ok(0));
    assert_eq!(level.layers[0].name, "Tile Layer 1");
    assert_eq!(add_object_layer(&mut level), 1);
    assert_eq!(level.layers[1].name, "Object Layer 2");
    assert_eq!(duplicate_layer(&mut level, 0), Some(1));
    assert_eq!(level.layers[1].name, "Tile Layer 1 (Copy)");
    assert_eq!(level.layers.len(), 3);
    assert_eq!(duplicate_layer(&mut level, 7), None);
    assert_eq!(move_layer_up_selecting(&mut level, 2, Some(2)), Some(1));
    assert_eq!(level.layers[1].name, "Object Layer 2");
    assert_eq!(move_layer_down_selecting(&mut level, 0, Some(1)), Some(0));
    assert_eq!(level.layers[0].name, "Object Layer 2");
    assert_eq!(move_layer_up_selecting(&mut level, 0, Some(0)), Some(0));
    assert_eq!(delete_layer(&mut level, 2, Some(2)), Some(1));
    assert_eq!(level.layers.len(), 2);
    assert_eq!(delete_layer(&mut level, 0, Some(0)), Some(0));
    assert_eq!(delete_layer(&mut level, 0, Some(0)), None);
    assert_eq!(delete_layer(&mut level, 0, Some(3)), Some(3));
}

#[test]
fn new_instances_start_with_defaults() {
    let mut schema = Schema::default();
    let mut td = TypeDef::default();
    let def = |name: &str, t: PropType| PropertyDef {
        name: name.to_string(),
        prop_type: t,
        required: false,
        default: None,
        min: None,
        max: None,
        show_if: None,
        enum_type: None,
        ref_type: None,
        item_type: None,
        embedded_type: None,
    };
    td.properties.push(def("hp", PropType::Int));
    td.properties.push(def("name", PropType::String));
    let mut twice = def("hp", PropType::Bool);
    twice.default = Some(Value::Bool(true));
    td.properties.push(twice);
    schema.data_types.push(("Monster".to_string(), td));
    let inst = new_data_instance(&schema, "Monster").expect("the type exists");
    assert_eq!(inst.data_type, "Monster");
    assert_eq!(inst.properties.len(), 2);
    assert_eq!(inst.properties[0].name, "hp");
    assert!(matches!(inst.properties[0].value, Value::Bool(true)));
    assert!(matches!(&inst.properties[1].value, Value::String(s) if s.is_empty()));
    assert!(new_data_instance(&schema, "Nothing").is_none());
}

#[test]
fn renaming_items() {
    let mut project = Project::new(Schema::default());
    let mut inst = DataInstance::new("Item".to_string());
    inst.properties.push(Property { name: "name".to_string(), value: Value::String("Sword".to_string()) });
    let iid = inst.id;
    project.add_data_instance(inst);
    let other = DataInstance::new("Item".to_string());
    let oid = other.id;
    project.add_data_instance(other);
    let mut level = Level::new("Cave".to_string(), 1, 1);
    level.add_layer(Layer::new_object_layer("Things".to_string()));
    let lid = level.id;
    project.add_level(level);
    project.tilesets.push(Tileset::new("Rocks".to_string(), "r.png".to_string(), 16, 2, 2));
    let tid = project.tilesets[0].id;
    project.rebuild_indices();

    assert_eq!(begin_rename(&project, &RenamingItem::DataInstance(iid)), Some("Sword".to_string()));
    assert_eq!(begin_rename(&project, &RenamingItem::DataInstance(oid)), Some(String::new()));
    assert_eq!(begin_rename(&project, &RenamingItem::Level(lid)), Some("Cave".to_string()));
    assert_eq!(begin_rename(&project, &RenamingItem::Layer(lid, 0)), Some("Things".to_string()));
    assert_eq!(begin_rename(&project, &RenamingItem::Layer(lid, 1)), None);
    assert_eq!(begin_rename(&project, &RenamingItem::Tileset(tid)), Some("Rocks".to_string()));
    assert_eq!(begin_rename(&project, &RenamingItem::Level(id(3))), None);

    rename_data_instance(&mut project, oid, "Shield".to_string());
    rename_level(&mut project, lid, "Grotto".to_string());
    rename_layer(&mut project, lid, 0, "Stuff".to_string());
    rename_tileset(&mut project, tid, "Stones".to_string());
    assert_eq!(begin_rename(&project, &RenamingItem::DataInstance(oid)), Some("Shield".to_string()));
    assert_eq!(begin_rename(&project, &RenamingItem::Level(lid)), Some("Grotto".to_string()));
    assert_eq!(begin_rename(&project, &RenamingItem::Layer(lid, 0)), Some("Stuff".to_string()));
    assert_eq!(project.tilesets[0].name, "Stones");
    assert!(project.is_dirty());
}

#[test]
fn all_active_types_include_embedded() {
    let all = PropType::all_active();
    assert_eq!(all.len(), 12);
    assert!(all.contains(&PropType::Embedded));
    assert!(!all.contains(&PropType::Sprite));
}

#[test]
fn project_name_from_a_plain_file_name() {
    let mut project = Project::new(Schema::default());
    project.path = Some("dungeon".to_string());
    assert_eq!(project.name(), "dungeon");
}

#[test]
fn build_end_messages() {
    assert_eq!(process_exit_output(true, Some(0)), BuildOutput::GameExited(Some(0)));
    assert_eq!(
        process_exit_output(false, Some(101)),
        BuildOutput::BuildFailed(format!("Process exited with code: {:?}", Some(101)))
    );
    assert_eq!(
        process_exit_output(false, Some(-3)),
        BuildOutput::BuildFailed(format!("Process exited with code: {:?}", Some(-3)))
    );
    assert_eq!(
        process_exit_output(false, None),
        BuildOutput::BuildFailed(format!("Process exited with code: {:?}", None::<i32>))
    );
    assert_eq!(cancelled_output(), BuildOutput::BuildFailed("Build cancelled".to_string()));
}

#[test]
fn viewport_press_release_and_drag() {
    let s = ViewportState::default();
    // marquee with the select tool
    let mut ev = input((2, 3));
    ev.left_just_pressed = true;
    ev.left_pressed = true;
    let (s, acts) = viewport_step(s, EditorTool::Select, ToolMode::Point, ev);
    assert_eq!(acts[0], ToolAction::StartMarquee(2, 3));
    assert!(s.is_drawing_rect);
    let mut ev = input((-1, 5));
    ev.left_just_released = true;
    let (s, acts) = viewport_step(s, EditorTool::Select, ToolMode::Point, ev);
    assert_eq!(acts[0], ToolAction::SelectRect(0, 3, 2, 5));
    assert!(!s.is_drawing_rect);
    assert_eq!(acts.last(), Some(&ToolAction::StopPainting));

    // clicking the selected entity starts a move and ends the frame
    let mut ev = input((0, 0));
    ev.left_just_pressed = true;
    ev.left_pressed = true;
    ev.hits_selected_entity = true;
    let (s, acts) = viewport_step(s, EditorTool::Select, ToolMode::Point, ev);
    assert_eq!(acts, vec![ToolAction::StartEntityMove]);
    assert!(s.is_moving);
    let mut ev = input((1, 0));
    ev.left_pressed = true;
    let (s, acts) = viewport_step(s, EditorTool::Select, ToolMode::Point, ev);
    assert_eq!(acts, vec![ToolAction::DragMove, ToolAction::HideBrushPreview]);
    let mut ev = input((1, 0));
    ev.left_just_released = true;
    let (s, acts) = viewport_step(s, EditorTool::Select, ToolMode::Point, ev);
    assert_eq!(acts, vec![ToolAction::FinalizeMove, ToolAction::HideBrushPreview, ToolAction::StopPainting]);
    assert!(!s.is_moving);
}

#[test]
fn viewport_painting_lines_and_rectangles() {
    let s = ViewportState::default();
    let mut ev = input((1, 1));
    ev.left_just_pressed = true;
    ev.left_pressed = true;
    let (s, acts) = viewport_step(s, EditorTool::Paint, ToolMode::Point, ev);
    assert_eq!(acts, vec![ToolAction::ShowBrushPreview(1, 1), ToolAction::Paint]);
    assert_eq!(s.line_brush_anchor, Some((1, 1)));
    let (s, _) = viewport_step(s, EditorTool::Paint, ToolMode::Point, input((1, 1)));
    let mut ev = input((4, 2));
    ev.left_just_pressed = true;
    ev.left_pressed = true;
    ev.shift = true;
    let (s, acts) = viewport_step(s, EditorTool::Paint, ToolMode::Point, ev);
    assert_eq!(acts, vec![ToolAction::ShowBrushPreview(4, 2), ToolAction::PaintLine(1, 1, 4, 2)]);
    assert_eq!(s.line_brush_anchor, Some((4, 2)));

    // rectangle mode for the erase tool
    let mut ev = input((3, 3));
    ev.left_just_pressed = true;
    ev.left_pressed = true;
    let (s, acts) = viewport_step(s, EditorTool::Erase, ToolMode::Rectangle, ev);
    assert!(s.is_drawing_rect);
    assert_eq!(acts, vec![ToolAction::HideBrushPreview]);
    let mut ev = input((0, 5));
    ev.left_just_released = true;
    let (s, acts) = viewport_step(s, EditorTool::Erase, ToolMode::Rectangle, ev);
    assert_eq!(acts[0], ToolAction::FillRect(3, 3, 0, 5));
    assert!(!s.is_drawing_rect);

    // the interface holding the pointer blocks the viewport
    let mut ev = input((0, 0));
    ev.pointer_captured = true;
    ev.pan_pressed = true;
    let (s, acts) = viewport_step(s, EditorTool::Paint, ToolMode::Point, ev);
    assert_eq!(acts, vec![ToolAction::PointerBlocked]);
    assert!(!s.is_panning);

    // entity and fill tools act on press; panning blocks them
    let mut ev = input((0, 0));
    ev.left_just_pressed = true;
    let (_, acts) = viewport_step(s, EditorTool::Entity, ToolMode::Point, ev);
    assert_eq!(acts[0], ToolAction::PlaceEntity);
    let (_, acts) = viewport_step(s, EditorTool::Fill, ToolMode::Point, ev);
    assert_eq!(acts[0], ToolAction::FillArea);
    ev.pan_pressed = true;
    let (s2, acts) = viewport_step(s, EditorTool::Fill, ToolMode::Point, ev);
    assert!(s2.is_panning);
    assert!(!acts.contains(&ToolAction::FillArea));
}
