//! Line-level history navigation for files tracked in Git: the file tree,
//! the line mapping between two versions of a file, the command language of
//! the scripted front end, the state machines behind the three panels, the
//! walk over a file's history, and the text that the panels show.

pub mod text;
pub mod command;
pub mod tree;
pub mod app;
pub mod test_config;
pub mod executor;
pub mod line_mapping;
pub mod navigator;
pub mod listing;
pub mod search;
pub mod positioning;
pub mod tasks;
pub mod events;
pub mod test_runner;
pub mod building;
pub mod screenshot;
pub mod history;
pub mod display;
pub mod config;
pub mod cli;
