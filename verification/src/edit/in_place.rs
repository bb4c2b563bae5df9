//! What a save in place leaves in the file.

use vstd::prelude::*;

use crate::ebml::id;
use crate::ebml::vint::{MAX_SIZE, UNKNOWN};
#[allow(unused_imports)]
use crate::ebml::laws::{law_tree_reads_back, readable, settled};
#[allow(unused_imports)]
use crate::ebml::node::{payload, Node};
#[allow(unused_imports)]
use crate::ebml::vint::{
    id_bytes, lemma_id_bytes_len, lemma_size_bytes_len, lemma_size_size, size_bytes, size_size_from,
    lemma_size_marker_table,
};
#[allow(unused_imports)]
use crate::ebml::void::{lemma_void_len, void_bytes, void_size_width};
#[allow(unused_imports)]
use crate::edit::apply::{lemma_rewrite_replaces, patched, saved};
#[allow(unused_imports)]
use crate::edit::region::{lemma_region_len, lemma_slack_end, region_of, region_width, slack_end};
use crate::edit::save::SaveMode;
use crate::mkv::child::TopChild;
#[allow(unused_imports)]
use crate::mkv::child::ScanModel;
use crate::mkv::file::Timestamp;
#[allow(unused_imports)]
use crate::mkv::file::{MkvModel, PathModel};
use crate::mkv::open::MAX_TRACKS_SIZE;
#[allow(unused_imports)]
use crate::mkv::local::{
    lemma_child_index_split, lemma_header_written, lemma_segment_stays, lemma_walk_agrees, lemma_walk_prefix,
    same_before, same_from,
};
#[allow(unused_imports)]
use crate::mkv::open::{child_index, info_from, lemma_child_index, open_outcome, segment_from, spot_of};
use crate::mkv::source::MAX_FILE_LEN;
#[allow(unused_imports)]
use crate::mkv::source::{clipped, file_source, header_at, lemma_header_at, Source};
#[allow(unused_imports)]
use crate::mkv::valid::{law_opened_is_valid, lemma_segment_from};
#[allow(unused_imports)]
use crate::mkv::walk::{child_at, lemma_child_at, lemma_tiles_order, lemma_tiles_within, lemma_walked, walked};

#[allow(unused_imports)]
use crate::edit::rewritten::lemma_opens_as;

verus! {

/// How many Void elements stand in a run from `pos` on.
pub open spec fn slack_count(src: Source, pos: u64, limit: u64) -> nat
    decreases limit - pos,
{
    if pos >= limit {
        0
    } else {
        match header_at(src, pos) {
            Ok((id, size, header_len)) => if id == id::VOID && size != UNKNOWN && pos + header_len + size
                <= limit {
                proof {
                    lemma_header_at(src, pos);
                }
                1 + slack_count(src, (pos + header_len + size) as u64, limit)
            } else {
                0
            },
            Err(_) => 0,
        }
    }
}

/// A walk goes through a run of Void elements and on at its end.
proof fn lemma_walk_slack(src: Source, pos: u64, end: u64, stop: bool)
    requires
        pos <= end,
    ensures
        ({
            let n = slack_count(src, pos, end) as int;
            let at = slack_end(src, pos, end);
            let (top, scan) = walked(src, pos, end, stop, true);
            &&& n <= top.len()
            &&& walked(src, at, end, stop, true) == (top.skip(n), scan)
            &&& forall|k: int| 0 <= k < n ==> (#[trigger] top[k]).id == id::VOID
        }),
    decreases end - pos,
{
    let (top, scan) = walked(src, pos, end, stop, true);
    let n = slack_count(src, pos, end) as int;
    assert(top.skip(0) =~= top);
    if pos < end {
        lemma_child_at(src, pos, end);
        if let Ok((id, size, header_len)) = header_at(src, pos) {
            if id == id::VOID && size != UNKNOWN && pos + header_len + size <= end {
                let next = (pos + header_len + size) as u64;
                let child = child_at(src, pos, end)->Ok_0;
                lemma_walk_slack(src, next, end, stop);
                let (rest, rest_scan) = walked(src, next, end, stop, true);
                assert(top =~= seq![child] + rest);
                assert(top.skip(n) =~= rest.skip(n - 1));
                assert forall|k: int| 0 <= k < n implies (#[trigger] top[k]).id == id::VOID by {
                    if k > 0 {
                        assert(top[k] == rest[k - 1]);
                    }
                }
            }
        }
    }
}

/// The children that a region holds: Tracks, and padding where there is some.
pub open spec fn region_children(start: u64, len: nat, avail: nat) -> Seq<TopChild> {
    let w = region_width(len, avail);
    let used = 4 + w + len;
    let tracks = TopChild {
        id: id::TRACKS,
        start,
        header_len: (4 + w) as u64,
        size: len as u64,
    };
    if used == avail {
        seq![tracks]
    } else {
        let vw = void_size_width((avail - used) as nat);
        seq![
            tracks,
            TopChild {
                id: id::VOID,
                start: (start + used) as u64,
                header_len: (1 + vw) as u64,
                size: (avail - used - 1 - vw) as u64,
            },
        ]
    }
}

/// A walk finds a region's children and goes on behind it.
proof fn lemma_walk_region(
    file: Seq<u8>,
    start: u64,
    end: u64,
    stop: bool,
    body: Seq<u8>,
    avail: nat,
)
    requires
        body.len() <= MAX_SIZE,
        region_of(body, avail) is Some,
        start + avail <= end <= file.len() <= MAX_FILE_LEN,
        avail <= MAX_SIZE,
        file.subrange(start as int, start + avail) == region_of(body, avail)->0,
    ensures
        ({
            let (rest, scan) = walked(file_source(file), (start + avail) as u64, end, stop, true);
            let kids = region_children(start, body.len(), avail);
            &&& walked(file_source(file), start, end, stop, false) == (kids + rest, scan)
            &&& kids[0].data_at() == start + 4 + region_width(body.len(), avail)
            &&& file.subrange(kids[0].data_at(), kids[0].end_at()) == body
            &&& kids[0].end_at() <= start + avail
        }),
{
    let src = file_source(file);
    let region = region_of(body, avail)->0;
    let n = body.len() as u64;
    let w = region_width(body.len(), avail);
    let used = 4 + w + body.len();
    let kids = region_children(start, body.len(), avail);
    let (rest, scan) = walked(src, (start + avail) as u64, end, stop, true);
    lemma_size_size(n);
    lemma_id_bytes_len(id::TRACKS);
    lemma_size_bytes_len(n, w);
    lemma_region_len(body, avail);
    assert(used <= avail);
    let cut = file.subrange(start as int, start + avail);
    assert(file.subrange(start as int, start + 4 + w) =~= cut.subrange(0, (4 + w) as int));
    assert(region.subrange(0, (4 + w) as int) =~= id_bytes(id::TRACKS) + size_bytes(n, w));
    lemma_header_written(file, start, id::TRACKS, n, w);
    assert(file.subrange(start + 4 + w, start + used) =~= cut.subrange((4 + w) as int, used as int));
    assert(region.subrange((4 + w) as int, used as int) =~= body);
    assert(child_at(src, start, end) == Ok::<TopChild, Seq<char>>(kids[0]));
    if used == avail {
        assert(kids + rest =~= seq![kids[0]] + rest);
    } else {
        let pad = (avail - used) as nat;
        let vw = void_size_width(pad);
        let vs = (pad - 1 - vw) as u64;
        let at = (start + used) as u64;
        lemma_void_len(pad);
        lemma_size_size(vs);
        reveal_with_fuel(size_size_from, 9);
        lemma_size_marker_table();
        lemma_size_bytes_len(vs, vw);
        lemma_id_bytes_len(id::VOID);
        lemma_void_front(pad);
        assert(file.subrange(at as int, at + 1 + vw) =~= cut.subrange(
            used as int,
            (used + 1 + vw) as int,
        ));
        assert(region.subrange(used as int, (used + 1 + vw) as int) =~= void_bytes(pad).subrange(
            0,
            (1 + vw) as int,
        ));
        lemma_header_written(file, at, id::VOID, vs, vw);
        assert(child_at(src, at, end) == Ok::<TopChild, Seq<char>>(kids[1]));
        let (mid, mid_scan) = walked(src, at, end, stop, true);
        assert(mid =~= seq![kids[1]] + rest);
        assert(kids + rest =~= seq![kids[0]] + mid);
    }
}

/// The front of a Void element.
proof fn lemma_void_front(total: nat)
    requires
        2 <= total,
    ensures
        void_bytes(total).subrange(0, (1 + void_size_width(total)) as int) == id_bytes(id::VOID)
            + size_bytes((total - 1 - void_size_width(total)) as u64, void_size_width(total)),
{
    let w = void_size_width(total);
    lemma_size_bytes_len((total - 1 - w) as u64, w);
    lemma_id_bytes_len(id::VOID);
    reveal_with_fuel(crate::ebml::bytes::be_bytes, 2);
    assert(id_bytes(id::VOID) =~= seq![0xECu8]);
    assert(void_bytes(total).subrange(0, (1 + w) as int) =~= id_bytes(id::VOID) + size_bytes(
        (total - 1 - w) as u64,
        w,
    ));
}

/// No child of the list has the ID.
proof fn lemma_no_child(top: Seq<TopChild>, id: u64)
    requires
        forall|k: int| 0 <= k < top.len() ==> (#[trigger] top[k]).id != id,
    ensures
        child_index(top, id, 0) == top.len(),
{
    lemma_child_index(top, id, 0);
    let i = child_index(top, id, 0);
    if i < top.len() {
        assert(top[i].id != id);
    }
}

/// What the Info element says stays the same where its child and its bytes do:
/// the first children stay, those between are neither before nor after the
/// change an Info element, and the last stay.
proof fn lemma_info_stays(
    a: Seq<u8>,
    b: Seq<u8>,
    first: Seq<TopChild>,
    old: Seq<TopChild>,
    new: Seq<TopChild>,
    last: Seq<TopChild>,
)
    requires
        forall|k: int| 0 <= k < old.len() ==> (#[trigger] old[k]).id != id::INFO,
        forall|k: int| 0 <= k < new.len() ==> (#[trigger] new[k]).id != id::INFO,
        forall|k: int|
            0 <= k < first.len() ==> clipped(a, (#[trigger] first[k]).data_at() as u64 as int, first[k].size as int)
                == clipped(b, first[k].data_at() as u64 as int, first[k].size as int),
        forall|k: int|
            0 <= k < last.len() ==> clipped(a, (#[trigger] last[k]).data_at() as u64 as int, last[k].size as int)
                == clipped(b, last[k].data_at() as u64 as int, last[k].size as int),
    ensures
        info_from(file_source(b), first + (new + last)) == info_from(
            file_source(a),
            first + (old + last),
        ),
{
    lemma_no_child(old, id::INFO);
    lemma_no_child(new, id::INFO);
    lemma_child_index_split(first, old + last, id::INFO);
    lemma_child_index_split(first, new + last, id::INFO);
    lemma_child_index_split(old, last, id::INFO);
    lemma_child_index_split(new, last, id::INFO);
    lemma_child_index(first, id::INFO, 0);
    lemma_child_index(last, id::INFO, 0);
    let i = child_index(first, id::INFO, 0);
    let j = child_index(last, id::INFO, 0);
    if i < first.len() {
        assert((first + (new + last))[i] == first[i]);
        assert((first + (old + last))[i] == first[i]);
    } else if j < last.len() {
        assert((first + (new + last))[first.len() + (new.len() + j)] == last[j]);
        assert((first + (old + last))[first.len() + (old.len() + j)] == last[j]);
    }
}

/// The opened file with other tracks.
pub open spec fn with_tracks(m: MkvModel, tracks: Node) -> MkvModel {
    MkvModel { tracks, ..m }
}

/// The end of the padding behind the Tracks element of an opened file.
pub open spec fn room_end(src: Source, m: MkvModel) -> u64 {
    slack_end(src, m.top[m.tracks_idx as int].end_at() as u64, m.segment_end)
}

/// What is opened after a save in place: Tracks and padding where Tracks and
/// padding stood, and the tracks as they were set.
pub open spec fn after_in_place(
    src: Source,
    m: MkvModel,
    tracks: Node,
    modified: Option<Timestamp>,
) -> MkvModel {
    let i = m.tracks_idx as int;
    let tc = m.top[i];
    let avail = (room_end(src, m) - tc.start) as nat;
    let gone = 1 + slack_count(src, tc.end_at() as u64, m.segment_end);
    MkvModel {
        modified,
        top: m.top.take(i) + (region_children(tc.start, payload(tracks).len(), avail) + m.top.skip(
            i + gone,
        )),
        tracks: Node::branch(id::TRACKS, settled(tracks).children()),
        ..m
    }
}

/// A save in place touches no byte outside the room of Tracks and the padding
/// behind it, and the file that it leaves opens with the tracks as they were
/// set and everything else as it was.
pub proof fn law_in_place_save_reads_back(
    file: Seq<u8>,
    path: PathModel,
    modified: Option<Timestamp>,
    later: Option<Timestamp>,
    m: MkvModel,
    tracks: Node,
)
    requires
        file.len() <= MAX_FILE_LEN,
        open_outcome(file_source(file), path, file.len() as u64, modified) == Ok::<
            MkvModel,
            Seq<char>,
        >(m),
        tracks is Master,
        tracks.id() == id::TRACKS,
        readable(tracks),
        payload(tracks).len() <= MAX_TRACKS_SIZE,
        saved(with_tracks(m, tracks), file, modified) matches Ok((_, mode, _)) && mode
            == SaveMode::InPlace,
        room_end(file_source(file), m) - m.top[m.tracks_idx as int].start <= MAX_SIZE,
    ensures
        ({
            let new = (saved(with_tracks(m, tracks), file, modified)->Ok_0).0;
            &&& new.len() == file.len()
            &&& same_before(file, new, m.top[m.tracks_idx as int].start as int)
            &&& same_from(file, new, room_end(file_source(file), m) as int)
            &&& open_outcome(file_source(new), path, new.len() as u64, later) == Ok::<
                MkvModel,
                Seq<char>,
            >(after_in_place(file_source(file), m, tracks, later))
        }),
{
    let src = file_source(file);
    let len = file.len() as u64;
    let body = payload(tracks);
    lemma_opened_parts(file, path, modified, m);
    let segment = segment_from(src, 0, len)->Ok_0;
    let i = m.tracks_idx as int;
    let at = m.top[i].start;
    let avail = (room_end(src, m) - at) as nat;
    lemma_saved_in_place(file, modified, m, tracks);
    let region = region_of(body, avail)->0;
    let new = patched(file, at as int, region);
    lemma_patched(file, at as int, region);
    lemma_in_place_walk(file, new, m.segment_data_start, m.segment_end, m.top, m.scan, i, body, avail);
    lemma_segment_stays(file, new, 0, at as int);
    law_tree_reads_back(tracks);
    let after = after_in_place(src, m, tracks, later);
    lemma_opens_as(new, path, later, segment, after.top, m.scan, settled(tracks).children());
}

/// What an opened file is made of.
proof fn lemma_opened_parts(file: Seq<u8>, path: PathModel, modified: Option<Timestamp>, m: MkvModel)
    requires
        file.len() <= MAX_FILE_LEN,
        open_outcome(file_source(file), path, file.len() as u64, modified) == Ok::<MkvModel, Seq<char>>(m),
    ensures
        ({
            let src = file_source(file);
            let len = file.len() as u64;
            let spot = spot_of(segment_from(src, 0, len)->Ok_0, len);
            &&& segment_from(src, 0, len) is Ok
            &&& m.valid() && m.path == path && m.file_len == len && m.modified == modified
            &&& m.segment_start == spot.start && m.segment_data_start == spot.data_start && m.segment_end == spot.end
            &&& walked(src, spot.data_start, spot.end, true, false) == (m.top, m.scan)
            &&& m.tracks_idx == child_index(m.top, id::TRACKS, 0)
            &&& m.tracks_idx < m.top.len()
            &&& m.info == info_from(src, m.top)
            &&& m.top[m.tracks_idx as int].end_at() <= m.segment_end <= file.len()
            &&& ({
                let (start, size, header_len) = segment_from(src, 0, len)->Ok_0;
                m.segment_data_start == start + header_len
            })
        }),
{
    let src = file_source(file);
    let len = file.len() as u64;
    law_opened_is_valid(src, path, len, modified);
    lemma_segment_from(src, 0, len);
    lemma_child_index(m.top, id::TRACKS, 0);
    assert(m.top[m.tracks_idx as int].end_at() <= m.segment_end);
}

/// What a save in place writes.
proof fn lemma_saved_in_place(file: Seq<u8>, modified: Option<Timestamp>, m: MkvModel, tracks: Node)
    requires
        m.valid(),
        m.file_len == file.len() <= MAX_FILE_LEN,
        m.tracks_idx < m.top.len(),
        m.top[m.tracks_idx as int].end_at() <= m.segment_end <= file.len(),
        saved(with_tracks(m, tracks), file, modified) matches Ok((_, mode, _)) && mode == SaveMode::InPlace,
    ensures
        ({
            let src = file_source(file);
            let at = m.top[m.tracks_idx as int].start;
            let avail = (room_end(src, m) - at) as nat;
            &&& at <= room_end(src, m) <= m.segment_end
            &&& region_of(payload(tracks), avail) is Some
            &&& (region_of(payload(tracks), avail)->0).len() == avail
            &&& (saved(with_tracks(m, tracks), file, modified)->Ok_0).0 == patched(
                file,
                at as int,
                region_of(payload(tracks), avail)->0,
            )
        }),
{
    let src = file_source(file);
    let tc = m.top[m.tracks_idx as int];
    lemma_slack_end(src, tc.end_at() as u64, m.segment_end);
    lemma_rewrite_replaces(src, with_tracks(m, tracks));
    let avail = (room_end(src, m) - tc.start) as nat;
    assert(region_of(payload(tracks), avail) is Some);
    lemma_region_len(payload(tracks), avail);
}

/// What writing over a part of a file leaves.
proof fn lemma_patched(file: Seq<u8>, at: int, bytes: Seq<u8>)
    requires
        0 <= at,
        at + bytes.len() <= file.len(),
    ensures
        patched(file, at, bytes).len() == file.len(),
        same_before(file, patched(file, at, bytes), at),
        same_from(file, patched(file, at, bytes), at + bytes.len()),
        patched(file, at, bytes).subrange(at, at + bytes.len()) == bytes,
{
    assert(patched(file, at, bytes).subrange(at, at + bytes.len()) =~= bytes);
}

/// The children of a file, cut where Tracks and the padding behind it end.
proof fn lemma_old_split(src: Source, end: u64, top: Seq<TopChild>, scan: ScanModel, i: int)
    requires
        0 <= i < top.len(),
        top[i].id == id::TRACKS,
        top[i].end_at() <= end,
        walked(src, top[i].start, end, true, false) == (top.skip(i), scan),
    ensures
        ({
            let tend = top[i].end_at() as u64;
            let n = slack_count(src, tend, end) as int;
            let rest = top.skip(i + 1 + n);
            let old = top.subrange(i, i + 1 + n);
            &&& i + 1 + n <= top.len()
            &&& walked(src, slack_end(src, tend, end), end, true, true) == (rest, scan)
            &&& top == top.take(i) + (old + rest)
            &&& forall|k: int| 0 <= k < old.len() ==> (#[trigger] old[k]).id != id::INFO
        }),
{
    let tc = top[i];
    let at = tc.start;
    let tend = tc.end_at() as u64;
    let n = slack_count(src, tend, end) as int;
    lemma_child_at(src, at, end);
    let (behind, behind_scan) = walked(src, tend, end, true, true);
    assert(top.skip(i)[0] == tc);
    assert(child_at(src, at, end) == Ok::<TopChild, Seq<char>>(tc));
    assert(top.skip(i) == seq![tc] + behind);
    lemma_walk_slack(src, tend, end, true);
    let rest = top.skip(i + 1 + n);
    let old = top.subrange(i, i + 1 + n);
    assert(rest =~= behind.skip(n)) by {
        assert(top.skip(i).skip(1 + n) =~= rest);
        assert((seq![tc] + behind).skip(1 + n) =~= behind.skip(n));
    }
    assert(top =~= top.take(i) + (old + rest));
    assert forall|k: int| 0 <= k < old.len() implies (#[trigger] old[k]).id != id::INFO by {
        assert(old[k] == top.skip(i)[k]);
        if k > 0 {
            assert(old[k] == behind[k - 1]);
        }
    }
}

/// What opening finds once Tracks has been written over in place.
proof fn lemma_in_place_walk(
    file: Seq<u8>,
    new: Seq<u8>,
    base: u64,
    end: u64,
    top: Seq<TopChild>,
    scan: ScanModel,
    i: int,
    body: Seq<u8>,
    avail: nat,
)
    requires
        end <= file.len() <= MAX_FILE_LEN,
        body.len() <= MAX_SIZE,
        avail <= MAX_SIZE,
        walked(file_source(file), base, end, true, false) == (top, scan),
        i == child_index(top, id::TRACKS, 0),
        0 <= i < top.len(),
        region_of(body, avail) is Some,
        top[i].start + avail == slack_end(file_source(file), top[i].end_at() as u64, end),
        new.len() == file.len(),
        same_before(file, new, top[i].start as int),
        same_from(file, new, top[i].start + avail),
        new.subrange(top[i].start as int, top[i].start + avail) == region_of(body, avail)->0,
    ensures
        ({
            let src = file_source(file);
            let n = slack_count(src, top[i].end_at() as u64, end) as int;
            let kids = region_children(top[i].start, body.len(), avail);
            let top2 = top.take(i) + (kids + top.skip(i + (1 + n)));
            &&& base <= top[i].start
            &&& walked(file_source(new), base, end, true, false) == (top2, scan)
            &&& child_index(top2, id::TRACKS, 0) == i
            &&& top2[i] == kids[0]
            &&& kids[0].size == body.len()
            &&& clipped(new, kids[0].data_at() as u64 as int, kids[0].size as int) == body
            &&& info_from(file_source(new), top2) == info_from(src, top)
        }),
{
    let src = file_source(file);
    lemma_walked(src, base, end, true, false);
    lemma_child_index(top, id::TRACKS, 0);
    let tc = top[i];
    let at = tc.start;
    let tend = tc.end_at() as u64;
    assert(tc.end_at() <= end);
    lemma_slack_end(src, tend, end);
    let slack = slack_end(src, tend, end);
    lemma_walk_prefix(file, new, base, end, true, top, scan, i);
    lemma_old_split(src, end, top, scan, i);
    let n = slack_count(src, tend, end) as int;
    let rest = top.skip(i + 1 + n);
    lemma_walk_agrees(file, new, slack, end, true, true);
    lemma_walk_region(new, at, end, true, body, avail);
    let kids = region_children(at, body.len(), avail);
    let top2 = top.take(i) + (kids + rest);
    assert(walked(file_source(new), base, end, true, false) == (top2, scan));
    assert forall|k: int| 0 <= k < top.take(i).len() implies (#[trigger] top.take(i)[k]).id
        != id::TRACKS by {
        assert(top[k].id != id::TRACKS);
    }
    lemma_no_child(top.take(i), id::TRACKS);
    lemma_child_index_split(top.take(i), kids + rest, id::TRACKS);
    assert((kids + rest)[0] == kids[0]);
    assert(child_index(kids + rest, id::TRACKS, 0) == 0);
    assert(top2[i] == kids[0]);
    assert(clipped(new, kids[0].data_at(), kids[0].size as int) =~= body);
    lemma_in_place_info(file, new, base, end, top, scan, i, kids, slack);
}

/// What the Info element says stays the same once Tracks has been written over
/// in place.
proof fn lemma_in_place_info(
    file: Seq<u8>,
    new: Seq<u8>,
    base: u64,
    end: u64,
    top: Seq<TopChild>,
    scan: ScanModel,
    i: int,
    kids: Seq<TopChild>,
    slack: u64,
)
    requires
        end <= file.len() <= MAX_FILE_LEN,
        walked(file_source(file), base, end, true, false) == (top, scan),
        walked(file_source(file), top[i].start, end, true, false) == (top.skip(i), scan),
        0 <= i < top.len(),
        top[i].id == id::TRACKS,
        slack == slack_end(file_source(file), top[i].end_at() as u64, end),
        same_before(file, new, top[i].start as int),
        same_from(file, new, slack as int),
        forall|k: int| 0 <= k < kids.len() ==> (#[trigger] kids[k]).id != id::INFO,
    ensures
        info_from(
            file_source(new),
            top.take(i) + (kids + top.skip(
                i + 1 + slack_count(file_source(file), top[i].end_at() as u64, end),
            )),
        ) == info_from(file_source(file), top),
{
    let src = file_source(file);
    lemma_walked(src, base, end, true, false);
    assert(top[i].end_at() <= end);
    lemma_old_split(src, end, top, scan, i);
    let n = slack_count(src, top[i].end_at() as u64, end) as int;
    let first = top.take(i);
    let old = top.subrange(i, i + 1 + n);
    let rest = top.skip(i + 1 + n);
    lemma_walked(src, slack, end, true, true);
    assert forall|k: int| 0 <= k < first.len() implies clipped(
        file,
        (#[trigger] first[k]).data_at() as u64 as int,
        first[k].size as int,
    ) == clipped(new, first[k].data_at() as u64 as int, first[k].size as int) by {
        lemma_tiles_order(top, base, end, k, i);
        assert(first[k] == top[k]);
        assert(clipped(file, first[k].data_at(), first[k].size as int) =~= clipped(
            new,
            first[k].data_at(),
            first[k].size as int,
        ));
    }
    assert forall|k: int| 0 <= k < rest.len() implies clipped(
        file,
        (#[trigger] rest[k]).data_at() as u64 as int,
        rest[k].size as int,
    ) == clipped(new, rest[k].data_at() as u64 as int, rest[k].size as int) by {
        lemma_tiles_within(rest, slack, end, k);
        assert(clipped(file, rest[k].data_at(), rest[k].size as int) =~= clipped(
            new,
            rest[k].data_at(),
            rest[k].size as int,
        ));
    }
    lemma_info_stays(file, new, first, old, kids, rest);
}

} // verus!
