//! Text and grade rules of the screens.

pub mod hud;
pub mod results;
pub mod settings;
