//! Dialogue selection, template rendering and sequence tracking for characters.
pub mod model;
pub mod outside;
pub mod template;
pub mod language;
pub mod dialogue;
pub mod state;
pub mod sequence;
