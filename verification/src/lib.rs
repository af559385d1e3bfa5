//! A to-do list with a bitmap-font glyph atlas: the item model, its save-file format,
//! keyboard editing and the atlas layout, each with its contract.

pub mod atlas;
pub mod clock;
pub mod font;
pub mod snapshot;
pub mod text;
pub mod todos;
pub mod widgets;
