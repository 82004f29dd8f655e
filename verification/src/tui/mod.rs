//! The interactive view of the rolls.
pub mod app;
pub mod keymap;
pub mod output;
pub mod rolls;
pub mod style;
pub mod view;
