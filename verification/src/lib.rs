//! Matroska files, and the tracks in them.

pub mod app;
pub mod cli;
pub mod cli_laws;
pub mod ebml;
pub mod edit;
pub mod mkv;
pub mod scan;
pub mod text;
pub mod text_laws;
pub mod ui;
