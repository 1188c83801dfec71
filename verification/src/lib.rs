//! Rusthia: map decoding and game rules of a cursor-hover rhythm game.
//!
//! The `map` module decodes the map formats (`.sspm` binary v1/v2, the
//! `.phxm` zip archive, and the legacy `.txt` note list) into a `MapData`.
//! The `game` module holds the scoring rules and the record book.
//! The `ui` module holds the small text and grade rules that the screens use.

pub mod game;
pub mod map;
pub mod numtext;
pub mod ui;
