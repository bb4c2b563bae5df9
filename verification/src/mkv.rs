//! Matroska file model: locate the Segment, its top level children and the
//! Tracks element, and present track entries in a form the interface can
//! render.

pub mod child;
pub mod file;
pub mod language;
pub mod language_laws;
pub mod lazy;
pub mod listed;
pub mod local;
pub mod open;
pub mod open_laws;
pub mod reread;
pub mod source;
pub mod track;
pub mod track_laws;
pub mod valid;
pub mod walk;

pub use child::{Scan, TopChild};
pub use file::{FileInfo, FilePath, MkvFile, Timestamp};
pub use language::language_name;
pub use track::{flag_insert_position, AudioInfo, Flag, Track, VideoInfo};
