//! What the property inspector shows and what it asks the editor to do.

use vstd::prelude::*;
use crate::ids::Uuid;

verus! {

/// Currently selected item for the inspector
#[derive(Debug, Clone, PartialEq, Eq)]
pub enum Selection {
    /// Nothing is selected
    Nothing,
    Level(Uuid),
    /// A layer: level id and layer index
    Layer(Uuid, usize),
    /// An entity: level id and entity id
    Entity(Uuid, Uuid),
    Tileset(Uuid),
    /// A data type, by name
    DataType(String),
    DataInstance(Uuid),
    /// A sprite sheet asset, by id
    SpriteSheet(Uuid),
    /// A dialogue asset, by id
    Dialogue(String),
    /// Several data instances
    MultipleDataInstances(Vec<Uuid>),
    /// Several entities, as (level id, entity id)
    MultipleEntities(Vec<(Uuid, Uuid)>),
}

impl Default for Selection {
    fn default() -> (r: Self)
        ensures
            r is Nothing,
    {
        Selection::Nothing
    }
}

/// Result from rendering the inspector
#[derive(Debug, Clone)]
pub struct InspectorResult {
    pub delete_data_instance: Option<Uuid>,
    /// An entity to delete: level id and entity id
    pub delete_entity: Option<(Uuid, Uuid)>,
    pub open_sprite_editor: Option<(String, Uuid)>,
    pub open_dialogue_editor: Option<(String, Uuid)>,
    /// Edit sprite sheet animations (opens Animation Editor)
    pub edit_sprite_sheet: Option<Uuid>,
    /// Edit sprite sheet grid settings (opens SpriteSheet Editor)
    pub edit_sprite_sheet_settings: Option<Uuid>,
    pub edit_dialogue: Option<String>,
    /// Create a new data instance and add its ID to an array property:
    /// (type name, target instance id, property name)
    pub create_instance_for_array: Option<(String, Uuid, String)>,
}

impl Default for InspectorResult {
    fn default() -> (r: Self)
        ensures
            r.delete_data_instance is None,
            r.delete_entity is None,
            r.open_sprite_editor is None,
            r.open_dialogue_editor is None,
            r.edit_sprite_sheet is None,
            r.edit_sprite_sheet_settings is None,
            r.edit_dialogue is None,
            r.create_instance_for_array is None,
    {
        InspectorResult {
            delete_data_instance: None,
            delete_entity: None,
            open_sprite_editor: None,
            open_dialogue_editor: None,
            edit_sprite_sheet: None,
            edit_sprite_sheet_settings: None,
            edit_dialogue: None,
            create_instance_for_array: None,
        }
    }
}

} // verus!
