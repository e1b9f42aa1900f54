# bevy_map

A tile map data model and the decision logic of a tile map editor, written in
Verus: the functions in `src/` carry `requires`/`ensures` contracts that
Verus proves, over spec functions and views of the data.

## Layout

- `src/` — the verified library
  - data model: `tile` (tile index and flip bits), `layer`, `level`,
    `tileset`, `world` (layouts, level connections, colors), `project`
    (map projects and the editor's export format), `entity_config`,
    `schema`, `value`, `data_store`, `ids` (UUIDs)
  - editor logic: `editor_project` (the editor's project with its id
    indices), `tools` (lines, rectangle and flood fills, region capture),
    `flood`, `paint` (painting, erasing, stroke undo), `tile_move`,
    `shortcuts`, `layout` (world arrangement), `asset_browser` (history,
    filtering, sorting, size formatting), `properties`, `inspector`,
    `viewport` (the pointer state machine of the level view, over tile
    coordinates), `ui_actions` (tree view and inspector requests: selection
    toggling, entity, level, layer and tileset edits, renaming, new data
    instances and entities with their schema defaults)
  - tool support: `build_output` (cargo output parsing), `cli` (project
    creation commands), `asset_paths`, `errors`, `text` (string helpers)
  - laws relating several operations are public proof functions named
    `law_*`
- `tests/` — executable tests of the library
- `app/` — the command line front end: file system, processes, threads,
  JSON conversion and floating point, around the library's calls

The random parts (UUIDs, random tile choice) and the lowercase mapping of
text come from the `uuid` and `fastrand` crates and std through small
trusted wrappers whose contracts state only what those crates document.
