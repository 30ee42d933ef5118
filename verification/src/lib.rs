//! A terminal file-transfer core: a transfer engine that walks a source tree,
//! streams bytes through provider capabilities, tracks dual-level progress,
//! reacts to cooperative cancellation, and cleans up incomplete artifacts.

pub mod components;
pub mod error;
pub mod fs;
pub mod layout;
pub mod memfs;
pub mod progress;
pub mod provider;
pub mod serialization;
pub mod session;
pub mod ui;
