//! Map data: byte reading, the map formats and the decoded map.

pub mod error;
pub mod reader;
pub mod text;
pub mod types;
pub mod notes;
pub mod parser;
pub mod sspm;
pub mod ssmap;
pub mod phxm;
