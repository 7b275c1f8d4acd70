//! Locating and creating dated diary entries under a diary root directory.
pub mod date;
pub mod path;
pub mod config;
pub mod root;
pub mod entry;
pub mod locate;
