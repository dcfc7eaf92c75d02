//! The search sources. Each provider's query and activation decisions live
//! here; indexing the filesystem and running programs happen around the library.

pub mod apps;
pub mod websearch;
pub mod date;
pub mod calc;
pub mod notes;
pub mod omarchy;
pub mod plugins;
