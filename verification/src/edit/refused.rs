//! What a save refuses to do.

use vstd::prelude::*;

#[allow(unused_imports)]
use crate::ebml::node::payload;
#[allow(unused_imports)]
use crate::edit::apply::saved;
#[allow(unused_imports)]
use crate::edit::in_place::room_end;
#[allow(unused_imports)]
use crate::edit::region::region_of;
use crate::edit::save::SaveMode;
#[allow(unused_imports)]
use crate::edit::save::{blocked_text, save_outcome};
use crate::mkv::child::TopChild;
use crate::mkv::file::Timestamp;
#[allow(unused_imports)]
use crate::mkv::file::MkvModel;
#[allow(unused_imports)]
use crate::mkv::open::all_children;
#[allow(unused_imports)]
use crate::mkv::source::file_source;

verus! {

/// A file that changed on disk after it was read is refused rather than written
/// with stale offsets.
pub proof fn law_changed_file_is_refused(m: MkvModel, file: Seq<u8>, modified: Option<Timestamp>)
    requires
        file.len() != m.file_len || modified != m.modified,
    ensures
        saved(m, file, modified) == Err::<(Seq<u8>, SaveMode, Seq<char>), Seq<char>>(
            "the file changed on disk since it was read; press u to reload it"@,
        ),
{
}

/// A file whose children cannot all be found, as one with clusters of unknown
/// size, can still be edited in place but is never rewritten: where Tracks does
/// not fit in its room, the save fails and says why.
pub proof fn law_blocked_file_is_not_rewritten(
    m: MkvModel,
    file: Seq<u8>,
    modified: Option<Timestamp>,
    why: Seq<char>,
)
    requires
        all_children(file_source(file), m) == Err::<Seq<TopChild>, Seq<char>>(why),
        file.len() == m.file_len,
        modified == m.modified,
    ensures
        saved(m, file, modified) matches Ok((_, mode, _)) ==> mode == SaveMode::InPlace,
        region_of(
            payload(m.tracks),
            (room_end(file_source(file), m) - m.top[m.tracks_idx as int].start) as nat,
        ) is None ==> saved(m, file, modified) == Err::<(Seq<u8>, SaveMode, Seq<char>), Seq<char>>(
            blocked_text(why),
        ),
{
    assert(save_outcome(file_source(file), m) matches Ok(plan) ==> plan.mode == SaveMode::InPlace);
}

} // verus!
