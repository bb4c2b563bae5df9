//! What is on the screen: areas, and the texts in them with their tones.

pub mod areas;
pub mod details;
pub mod help;
pub mod help_laws;
pub mod labels;
pub mod laws;
pub mod lists;
pub mod name_laws;
pub mod styled;

pub use labels::{codec_label, fmt_duration, plain_line};
