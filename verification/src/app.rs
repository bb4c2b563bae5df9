//! Application state and the edits the interface can apply.

pub mod edit_laws;
pub mod edits;
pub mod key_effects;
pub mod key_laws;
pub mod keys;
pub mod laws;
pub mod list_laws;
pub mod model;
pub mod save_laws;
pub mod saving;
pub mod select;
pub mod status_laws;

pub use edits::TrackEdit;
pub use keys::{Key, Request};
pub use model::{file_label, App, FileEntry, Focus, InputState, InputTarget};
pub use saving::Saved;
