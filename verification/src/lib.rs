//! Tile map data model and editor logic for 2D tile-based levels.
//!
//! The crate holds the level data model (tiles, layers, levels, worlds,
//! map projects) and the pure decision logic of the map editor
//! (project bookkeeping, paint tools, asset browsing, build output parsing),
//! each with a machine-checked contract.

pub mod tile;
pub mod text;
pub mod ids;
pub mod layer;
pub mod level;
pub mod world;
pub mod entity_config;
pub mod schema;
pub mod build_output;
pub mod cli;
pub mod tileset;
pub mod project;
pub mod editor_project;
pub mod layout;
pub mod asset_browser;
pub mod tools;
pub mod flood;
pub mod paint;
pub mod shortcuts;
pub mod tile_move;
pub mod value;
pub mod properties;
pub mod data_store;
pub mod errors;
pub mod asset_paths;
pub mod inspector;
pub mod viewport;
pub mod ui_actions;
