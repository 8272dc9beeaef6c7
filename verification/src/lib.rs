//! Mouzi: a rules engine that sorts files into folders.
//!
//! The verified part of the organizer: rule matching, destination
//! templates, the stored form of rules, the debounce queue and ignore
//! window of the folder watcher, and the small decisions of the commands.

pub mod clock;
pub mod commands;
pub mod compiled;
pub mod laws;
pub mod model;
pub mod pattern;
pub mod rules;
pub mod text;
pub mod watcher;
