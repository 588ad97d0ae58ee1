//! Data model and editing rules for a tabbed editor of game data files.
//!
//! Each collection (globals, header entries, items, NPCs, prefixes, tiles,
//! walls) is a list of plain records that is read from and written to a JSON
//! array. The records are decoded from and encoded to the [`json::Json`]
//! value tree; the text form of that tree is the application's business.
//!
//! - [`json`]: the value tree, member lookup, and decode errors with paths.
//! - [`numtext`], [`choice`], [`color`]: fields edited as one line of text.
//! - [`tiles`], [`tile_codec`], [`tile_tree`]: tile definitions with their
//!   trees of variants, their JSON form, and the edit path into the tree.
//! - [`dialogs`]: the yes/no question that a removal waits on.
//! - [`table`] and the plain collections built on it.
pub mod json;
pub mod numtext;
pub mod choice;
pub mod color;
pub mod dialogs;
pub mod tiles;
pub mod tile_codec;
pub mod tile_tree;
pub mod table;
pub mod globals;
pub mod header;
pub mod items;
pub mod npcs;
pub mod prefixes;
pub mod walls;
