//! Terminal front-end core for an interactive `git grep`: a column-exact
//! styled text buffer with row diffing, and a cursor model that walks a
//! file/line result tree.

pub mod width;
pub mod text;
pub mod terminal;
pub mod canvas;
pub mod git;
pub mod parse;
pub mod nav;
pub mod app;
pub mod action;
pub mod widget_search_result;
pub mod widget_command_editor;
pub mod widget_legend;
