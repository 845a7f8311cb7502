//! Verified core of a layered tilemap editor: the flat layered tile grid,
//! cell edits with undo/redo, selections, the tileset library and the
//! decisions behind the editor's menus and palette.

pub mod tile;
pub mod arith;
pub mod tilemap;
pub mod undo;
pub mod edit;
pub mod text;
pub mod palette;
pub mod paths;
pub mod library;
pub mod hash;
pub mod editor;
pub mod selection;
pub mod menus;
pub mod entities;
pub mod input;
pub mod render;
pub mod layers;
