//! A local store for an ordered list of todos, with a key-value side store
//! for preferences and a one-time import of legacy records.

pub mod sources;
pub mod text;
pub mod todo;
pub mod store;
pub mod meta;
pub mod database;
pub mod prefs;
pub mod autostart;
