//! Verified core of a previewer and editor for Nintendo UI layouts (BFLYT) and the
//! SARC archives that hold them.

pub mod magic;
pub mod compression;
pub mod archive;
pub mod labels;
pub mod sarc_walk;
pub mod scan;
pub mod scan_laws;
pub mod glyph_atlas;
pub mod atlas_laws;
pub mod game_config;
pub mod anim_groups;
pub mod timeline;
pub mod frames;
pub mod ui_state;
pub mod keybinds;
pub mod tabs;
pub mod batches;
pub mod material;
pub mod visibility;
pub mod text;
pub mod pane_tree;
pub mod edit_history;
pub mod tree_laws;
