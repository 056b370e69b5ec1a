//! File-system examination library: entry walking, command record building,
//! output rendering rules and the csvdb column schema.

pub mod text;
pub mod path;
pub mod entry;
pub mod glob;
pub mod walk;
pub mod schema;
pub mod commands;
pub mod render;
pub mod time;

pub use entry::EntryInfo;
pub use walk::{MemWalkProvider, WalkProvider};
