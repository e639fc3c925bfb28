//! State of the interactive dependency editor.
pub mod app;
pub mod grid;
pub mod keys;
pub mod view;
