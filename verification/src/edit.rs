//! Writing edited Tracks back to disk.
//!
//! Two strategies:
//!
//! * **In place** - the new Tracks element fits in the space the old one
//!   occupies plus any Void padding that follows it. Nothing else in the file
//!   moves, so a single short write is enough. This is the common case.
//! * **Rewrite** - the Tracks element grew beyond the available space, so the
//!   whole file is written anew with everything after Tracks shifted. Positions
//!   recorded in SeekHead, Cues and Cluster/Position are corrected.

pub mod apply;
pub mod bytes_of;
pub mod in_place;
pub mod index_laws;
pub mod landing;
pub mod layout;
pub mod load;
pub mod names;
pub mod piece;
pub mod plan_laws;
pub mod position_laws;
pub mod refused;
pub mod region;
pub mod remap;
pub mod rewritten;
pub mod room_laws;
pub mod round_trip;
pub mod save;
pub mod stands;

pub use apply::{plan_save, save};
pub use region::build_region;
pub use save::{check_unchanged, SaveAction, SaveMode, SavePlan, SaveReport, SaveTask};
