//! Keymap ingestion for an on-screen keyboard-shortcut visualizer.
//!
//! The crate turns a desktop environment's native shortcut-export text into a
//! normalized, query-able model: a [`keymap::KeyMap`] of categorized actions,
//! each action holding one or more canonical key combinations.

pub mod context;
pub mod display;
pub mod key_event;
pub mod keymap;
pub mod parser;
pub mod shortcut;
pub mod text;
