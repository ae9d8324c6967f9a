//! The verified core of a terminal viewer for the diff between a working tree and a branch.

pub mod app;
pub mod app_key_laws;
pub mod app_laws;
pub mod app_model;
pub mod diff;
pub mod diff_laws;
pub mod editor;
pub mod editor_key_laws;
pub mod editor_laws;
pub mod editor_model;
pub mod git;
pub mod git_laws;
pub mod highlight;
pub mod key;
pub mod layout;
pub mod pty;
pub mod render;
pub mod render_laws;
pub mod screen_laws;
pub mod style;
pub mod text;
pub mod text_laws;
pub mod theme;
pub mod tree;
pub mod tree_laws;
pub mod ui;
pub mod view_laws;
pub mod watch;
