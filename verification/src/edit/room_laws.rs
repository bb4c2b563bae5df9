//! Where a save writes, and when it writes in place.

use vstd::prelude::*;

#[allow(unused_imports)]
use crate::ebml::node::{payload, Node};
use crate::ebml::vint::UNKNOWN;
#[allow(unused_imports)]
use crate::ebml::vint::{lemma_size_fits, lemma_size_marker_table, lemma_size_size, size_marker, size_size, MAX_SIZE};
#[allow(unused_imports)]
use crate::edit::apply::{lemma_rewrite_replaces, saved};
#[allow(unused_imports)]
use crate::edit::in_place::room_end;
#[allow(unused_imports)]
use crate::edit::index_laws::{lemma_settled_tidy, tidy, tidy_all};
#[allow(unused_imports)]
use crate::edit::region::{lemma_slack_end, region_of, slack_end, tracks_extent};
#[allow(unused_imports)]
use crate::edit::round_trip::save_done;
use crate::edit::save::SaveMode;
#[allow(unused_imports)]
use crate::edit::save::{in_place_text, rewrite_text};
use crate::mkv::file::Timestamp;
#[allow(unused_imports)]
use crate::mkv::file::{MkvModel, PathModel};
#[allow(unused_imports)]
use crate::mkv::source::{file_source, header_at, lemma_header_at, Source};
#[allow(unused_imports)]
use crate::text::decimal;

verus! {

// ---------------------------------------------------------------------------
// The room
// ---------------------------------------------------------------------------

/// Whether there is nothing but padding from `from` to `to`: whole Void elements
/// one behind the other.
pub open spec fn padding_only(src: Source, from: int, to: int) -> bool
    decreases to - from,
{
    from == to || (0 <= from < to && from <= u64::MAX && match header_at(src, from as u64) {
        Ok((id, size, header_len)) => {
            &&& id == 0xEC
            &&& size != UNKNOWN
            &&& 0 < header_len
            &&& from + header_len + size <= to
            &&& padding_only(src, from + header_len + size, to)
        },
        Err(_) => false,
    })
}

/// Whether a whole Void element stands at `at` and ends within `limit`.
pub open spec fn padding_at(src: Source, at: u64, limit: u64) -> bool {
    &&& at < limit
    &&& header_at(src, at) matches Ok((id, size, header_len)) && id == 0xEC && size != UNKNOWN && at + header_len + size
        <= limit
}

proof fn lemma_padding(src: Source, pos: u64, limit: u64)
    requires
        pos <= limit,
    ensures
        padding_only(src, pos as int, slack_end(src, pos, limit) as int),
        !padding_at(src, slack_end(src, pos, limit), limit),
    decreases limit - pos,
{
    if pos < limit {
        lemma_header_at(src, pos);
        if let Ok((id, size, header_len)) = header_at(src, pos) {
            if id == 0xEC && size != UNKNOWN && pos + header_len + size <= limit {
                let next = (pos + header_len + size) as u64;
                lemma_padding(src, next, limit);
                lemma_slack_end(src, next, limit);
            }
        }
    }
}

/// The room that a save in place may write over is the Tracks element and the
/// padding right behind it, all of it and nothing else: it ends where the last
/// Void of the run does, and within the Segment.
pub proof fn law_room_is_tracks_and_padding(src: Source, m: MkvModel)
    requires
        m.tracks_idx < m.top.len(),
        m.top[m.tracks_idx as int].end_at() <= m.segment_end,
    ensures
        ({
            let end = m.top[m.tracks_idx as int].end_at();
            &&& end <= room_end(src, m) <= m.segment_end
            &&& padding_only(src, end, room_end(src, m) as int)
            &&& !padding_at(src, room_end(src, m), m.segment_end)
        }),
{
    let end = m.top[m.tracks_idx as int].end_at() as u64;
    lemma_slack_end(src, end, m.segment_end);
    lemma_padding(src, end, m.segment_end);
}

/// Whether an element with that payload fills a room, alone or with a Void behind
/// it, its size stored in one to eight bytes. A Void takes two bytes at least.
pub open spec fn fills(len: int, width: nat, room: int) -> bool {
    &&& 1 <= width <= 8
    &&& len <= size_marker(width) - 2
    &&& 4 + width + len == room || 4 + width + len + 2 <= room
}

proof fn lemma_region_iff(payload: Seq<u8>, avail: nat)
    requires
        payload.len() <= MAX_SIZE,
    ensures
        region_of(payload, avail) is Some <==> exists|width: nat| #[trigger] fills(payload.len() as int, width, avail as int),
{
    let len = payload.len() as u64;
    let w = size_size(len) as nat;
    lemma_size_size(len);
    if region_of(payload, avail) is Some {
        if avail - tracks_extent(payload.len()) == 1 {
            lemma_size_fits(len, w + 1);
            assert(fills(len as int, w + 1, avail as int));
        } else {
            assert(fills(len as int, w, avail as int));
        }
    }
    if exists|width: nat| #[trigger] fills(payload.len() as int, width, avail as int) {
        let width = choose|width: nat| #[trigger] fills(payload.len() as int, width, avail as int);
        assert(w <= width) by {
            if width < w {
                assert(len > size_marker(width) - 2);
            }
        }
    }
}

/// A file is saved in place exactly where its Tracks element fits in the room, and
/// what is reported is how long its payload is and how much padding is left.
pub proof fn law_saved_in_place_where_it_fits(m: MkvModel, file: Seq<u8>, modified: Option<Timestamp>)
    requires
        m.file_len == file.len(),
        m.modified == modified,
        payload(m.tracks).len() <= MAX_SIZE,
        m.tracks_idx < m.top.len(),
        m.top[m.tracks_idx as int].end_at() <= m.segment_end <= file.len(),
    ensures
        ({
            let room = room_end(file_source(file), m) - m.top[m.tracks_idx as int].start;
            let len = payload(m.tracks).len() as int;
            let fit = exists|width: nat| #[trigger] fills(len, width, room);
            &&& fit ==> (saved(m, file, modified) matches Ok((_, mode, _)) && mode == SaveMode::InPlace)
            &&& !fit ==> (saved(m, file, modified) matches Ok((_, mode, _)) ==> mode == SaveMode::Rewrite)
        }),
{
    let src = file_source(file);
    let end = m.top[m.tracks_idx as int].end_at() as u64;
    lemma_slack_end(src, end, m.segment_end);
    let avail = (room_end(src, m) - m.top[m.tracks_idx as int].start) as nat;
    lemma_region_iff(payload(m.tracks), avail);
    lemma_rewrite_replaces(src, m);
}

/// What is reported of a save in place: how long the payload of Tracks is, and how
/// much padding is left behind the element, whose size takes as few bytes as hold
/// it.
pub proof fn law_report_of_a_save_in_place(len: nat, width: nat, room: nat)
    requires
        1 <= width <= 8,
        len <= size_marker(width) - 2,
        width == 1 || len > size_marker((width - 1) as nat) - 2,
        4 + width + len <= room,
    ensures
        in_place_text(len, room) == "saved in place ("@ + decimal(len) + " bytes of Tracks, "@ + decimal(
            (room - 4 - width - len) as nat,
        ) + " padding)"@,
{
    lemma_size_marker_table();
    assert(width == 1 || width == 2 || width == 3 || width == 4 || width == 5 || width == 6 || width == 7 || width == 8);
    lemma_size_size(len as u64);
    let w = size_size(len as u64) as nat;
    assert(w == 1 || w == 2 || w == 3 || w == 4 || w == 5 || w == 6 || w == 7 || w == 8);
    assert(w == width) by {
        if width < w {
            assert(len > size_marker(width) - 2);
        }
    }
}

/// What is reported of a rewrite: by how much Tracks grew, with a sign where it
/// shrank, and how long the file was that was copied.
pub proof fn law_report_of_a_rewrite(m: MkvModel, grew: int, name: Seq<char>)
    requires
        m.path.name == Some(name),
    ensures
        rewrite_text(m, grew) == "rewrote "@ + name + " (Tracks grew by "@ + (if grew < 0 {
            "-"@ + decimal((-grew) as nat)
        } else {
            decimal(grew as nat)
        }) + " bytes, "@ + decimal(m.file_len as nat) + " bytes copied)"@,
{
    reveal_strlit("-");
    assert("-"@ =~= seq!['-']);
}

// ---------------------------------------------------------------------------
// What is written
// ---------------------------------------------------------------------------

/// Every element of Tracks that was to be saved, understood or not, is there when
/// the file is read again, at any depth and in its place; only padding is gone and
/// checksums are made anew.
pub proof fn law_every_element_is_read_again(
    file: Seq<u8>,
    path: PathModel,
    modified: Option<Timestamp>,
    later: Option<Timestamp>,
    m: MkvModel,
    tracks: Node,
    new: Seq<u8>,
    mode: SaveMode,
)
    requires
        save_done(file, path, modified, m, tracks, new, mode),
    ensures
        crate::mkv::open::open_outcome(file_source(new), path, new.len() as u64, later) matches Ok(after) && {
            &&& after.tracks.id() == 0x1654_AE6B
            &&& tidy_all(after.tracks.children()) == tidy_all(tracks.children())
        },
{
    lemma_settled_tidy(tracks);
    assert(tidy(crate::ebml::laws::settled(tracks)).children() == tidy_all(
        crate::ebml::laws::settled(tracks).children(),
    ));
    assert(tidy(tracks).children() == tidy_all(tracks.children()));
    match mode {
        SaveMode::InPlace => {
            crate::mkv::valid::law_opened_is_valid(file_source(file), path, file.len() as u64, modified);
            let tc = m.top[m.tracks_idx as int];
            crate::mkv::walk::lemma_tiles_within(m.top, m.segment_data_start, m.segment_end, m.tracks_idx as int);
            lemma_slack_end(file_source(file), tc.end_at() as u64, m.segment_end);
            crate::edit::in_place::law_in_place_save_reads_back(file, path, modified, later, m, tracks);
        },
        SaveMode::Rewrite => {
            reveal(crate::edit::rewritten::rewrite_done);
            crate::edit::rewritten::law_rewrite_reads_back(file, path, modified, later, m, tracks, new);
        },
    }
}

} // verus!
