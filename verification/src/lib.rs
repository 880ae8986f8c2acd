//! The logic of a tabbed graphical shell: the terminal state, its commands,
//! the rows its panels show and the colours of its output.

pub mod ansi;
pub mod command_laws;
pub mod commands;
pub mod display;
pub mod filter;
pub mod gui;
pub mod laws;
pub mod navigation;
pub mod output_laws;
pub mod panel_laws;
pub mod path;
pub mod path_laws;
pub mod place_laws;
pub mod remote;
pub mod remote_laws;
pub mod save_data;
pub mod save_laws;
pub mod search_laws;
pub mod state;
pub mod tabs;
pub mod text;
pub mod text_laws;
pub mod timestamp;
pub mod types;
pub mod view_laws;
