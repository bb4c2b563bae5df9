//! What a save gives back when the file is read again.

use vstd::prelude::*;

use crate::ebml::id;
#[allow(unused_imports)]
use crate::ebml::laws::readable;
#[allow(unused_imports)]
use crate::ebml::node::{payload, Node};
use crate::ebml::vint::MAX_SIZE;
#[allow(unused_imports)]
use crate::edit::apply::saved;
#[allow(unused_imports)]
use crate::edit::in_place::{law_in_place_save_reads_back, with_tracks};
#[allow(unused_imports)]
use crate::edit::region::lemma_slack_end;
#[allow(unused_imports)]
use crate::edit::rewritten::{law_rewrite_reads_back, rewrite_done};
use crate::edit::save::SaveMode;
use crate::mkv::file::Timestamp;
#[allow(unused_imports)]
use crate::mkv::file::{MkvModel, PathModel};
#[allow(unused_imports)]
use crate::mkv::open::open_outcome;
use crate::mkv::open::MAX_TRACKS_SIZE;
#[allow(unused_imports)]
use crate::mkv::reread::{all_unplaced, law_tracks_read_the_same};
#[allow(unused_imports)]
use crate::mkv::source::file_source;
#[allow(unused_imports)]
use crate::mkv::track::tracks_in;
#[allow(unused_imports)]
use crate::mkv::valid::law_opened_is_valid;
#[allow(unused_imports)]
use crate::mkv::walk::lemma_tiles_within;

verus! {

/// A file was opened as `m`, its tracks were set to `tracks`, and saving it gave
/// `new`. No size in it is larger than an element can have.
pub open spec fn save_done(
    file: Seq<u8>,
    path: PathModel,
    modified: Option<Timestamp>,
    m: MkvModel,
    tracks: Node,
    new: Seq<u8>,
    mode: SaveMode,
) -> bool {
    &&& file.len() + 8 <= MAX_SIZE
    &&& new.len() <= MAX_SIZE
    &&& open_outcome(file_source(file), path, file.len() as u64, modified) == Ok::<MkvModel, Seq<char>>(m)
    &&& tracks is Master
    &&& tracks.id() == id::TRACKS
    &&& readable(tracks)
    &&& payload(tracks).len() <= MAX_TRACKS_SIZE
    &&& saved(with_tracks(m, tracks), file, modified) matches Ok((bytes, how, _)) && bytes == new && how == mode
}

/// What was edited is what is there: whichever way a file was saved, it opens
/// again, its tracks say what they were set to say, and what it says of the
/// file as a whole is as it was.
pub proof fn law_saved_tracks_are_read_again(
    file: Seq<u8>,
    path: PathModel,
    modified: Option<Timestamp>,
    later: Option<Timestamp>,
    m: MkvModel,
    tracks: Node,
    new: Seq<u8>,
    mode: SaveMode,
)
    requires
        save_done(file, path, modified, m, tracks, new, mode),
    ensures
        open_outcome(file_source(new), path, new.len() as u64, later) matches Ok(after) && {
            &&& all_unplaced(tracks_in(after.tracks)) == all_unplaced(tracks_in(tracks))
            &&& after.info == m.info
            &&& after.path == m.path
            &&& after.segment_start == m.segment_start
            &&& after.modified == later
        },
{
    law_tracks_read_the_same(tracks);
    match mode {
        SaveMode::InPlace => {
            law_opened_is_valid(file_source(file), path, file.len() as u64, modified);
            let tc = m.top[m.tracks_idx as int];
            lemma_tiles_within(m.top, m.segment_data_start, m.segment_end, m.tracks_idx as int);
            lemma_slack_end(file_source(file), tc.end_at() as u64, m.segment_end);
            law_in_place_save_reads_back(file, path, modified, later, m, tracks);
        },
        SaveMode::Rewrite => {
            reveal(rewrite_done);
            law_rewrite_reads_back(file, path, modified, later, m, tracks, new);
        },
    }
}

} // verus!
