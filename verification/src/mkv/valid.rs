//! What holds of every file that was opened.

use vstd::prelude::*;

use crate::ebml::id;
use crate::ebml::vint::UNKNOWN;
#[allow(unused_imports)]
use crate::ebml::laws::{lemma_parsed_readable, readable};
use crate::mkv::file::Timestamp;
#[allow(unused_imports)]
use crate::mkv::file::{MkvModel, PathModel};
use crate::mkv::open::MAX_TRACKS_SIZE;
#[allow(unused_imports)]
use crate::mkv::open::{child_index, lemma_child_index, open_outcome, segment_from, spot_of};
use crate::mkv::source::MAX_FILE_LEN;
#[allow(unused_imports)]
use crate::mkv::source::{header_at, lemma_header_at, Source};
#[allow(unused_imports)]
use crate::mkv::walk::{lemma_walked, tiled_end, tiles, walked};

verus! {

impl MkvModel {
    /// The Segment lies within the file, its children stand one after the other
    /// in it, and the Tracks element is one of them.
    pub open spec fn valid(self) -> bool {
        &&& self.file_len <= MAX_FILE_LEN
        &&& self.segment_start < self.file_len
        &&& self.segment_start + 2 <= self.segment_data_start <= self.segment_start + 12
        &&& self.segment_end <= self.file_len
        &&& tiles(self.top, self.segment_data_start, self.segment_end)
        &&& self.scan is Complete ==> tiled_end(self.top, self.segment_data_start) == (
        if self.segment_data_start <= self.segment_end {
            self.segment_end
        } else {
            self.segment_data_start
        })
        &&& self.tracks_idx < self.top.len()
        &&& self.top[self.tracks_idx as int].id == id::TRACKS
        &&& self.top[self.tracks_idx as int].size <= MAX_TRACKS_SIZE
        &&& self.tracks is Master
        &&& self.tracks.id() == id::TRACKS
    }
}

/// Where the Segment was found, there is the header of one.
pub proof fn lemma_segment_from(src: Source, pos: u64, file_len: u64)
    ensures
        match segment_from(src, pos, file_len) {
            Ok((start, size, header_len)) => {
                &&& pos <= start
                &&& start + 4 < file_len
                &&& header_at(src, start) == Ok::<(u64, u64, u64), Seq<char>>(
                    (id::SEGMENT, size, header_len),
                )
                &&& 2 <= header_len <= 12
            },
            Err(_) => true,
        },
    decreases file_len - pos,
{
    if pos + 4 < file_len {
        lemma_header_at(src, pos);
        if let Ok((id, size, header_len)) = header_at(src, pos) {
            if (id == id::EBML_HEAD || id == id::VOID) && size != UNKNOWN && pos + header_len + size
                < file_len {
                lemma_segment_from(src, (pos + header_len + size) as u64, file_len);
            }
        }
    }
}

/// A file that was opened is valid, and its tracks can be written and read
/// back.
pub proof fn law_opened_is_valid(
    src: Source,
    path: PathModel,
    file_len: u64,
    modified: Option<Timestamp>,
)
    requires
        file_len <= MAX_FILE_LEN,
    ensures
        match open_outcome(src, path, file_len, modified) {
            Ok(m) => m.valid() && readable(m.tracks) && m.path == path && m.file_len == file_len
                && m.modified == modified,
            Err(_) => true,
        },
{
    lemma_segment_from(src, 0, file_len);
    if let Ok(segment) = segment_from(src, 0, file_len) {
        let spot = spot_of(segment, file_len);
        lemma_walked(src, spot.data_start, spot.end, true, false);
        let (top, scan) = walked(src, spot.data_start, spot.end, true, false);
        lemma_child_index(top, id::TRACKS, 0);
        let i = child_index(top, id::TRACKS, 0);
        if i < top.len() {
            if let Ok(buf) = src(top[i].data_at() as u64, top[i].size) {
                lemma_parsed_readable(buf);
            }
        }
    }
}

} // verus!
