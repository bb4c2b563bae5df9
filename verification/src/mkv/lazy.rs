//! How much of a file opening it depends on.

use vstd::prelude::*;

use crate::ebml::id;
use crate::mkv::file::Timestamp;
#[allow(unused_imports)]
use crate::mkv::file::{MkvModel, PathModel};
#[allow(unused_imports)]
use crate::mkv::local::{lemma_header_moved, lemma_header_whole, lemma_segment_stays, same_before};
#[allow(unused_imports)]
use crate::mkv::open::{child_index, info_from, lemma_child_index, open_outcome};
use crate::mkv::source::MAX_FILE_LEN;
#[allow(unused_imports)]
use crate::mkv::source::{clipped, file_source};
#[allow(unused_imports)]
use crate::mkv::valid::{law_opened_is_valid, lemma_segment_from};
#[allow(unused_imports)]
use crate::mkv::walk::{child_at, lemma_child_at, lemma_tiles_order, lemma_tiles_within, lemma_walked, walked};

verus! {

/// A walk that stopped at a cluster depends on nothing past the header of that
/// cluster.
proof fn lemma_walk_stopped(a: Seq<u8>, b: Seq<u8>, pos: u64, end: u64, seen: bool)
    requires
        walked(file_source(a), pos, end, true, seen).1 is StoppedAtClusters,
        same_before(a, b, walked(file_source(a), pos, end, true, seen).0.last().data_at()),
    ensures
        walked(file_source(b), pos, end, true, seen) == walked(
            file_source(a),
            pos,
            end,
            true,
            seen,
        ),
        walked(file_source(a), pos, end, true, seen).0.last().id == id::CLUSTER,
        pos <= walked(file_source(a), pos, end, true, seen).0.last().start,
    decreases end - pos,
{
    let sa = file_source(a);
    let (top, scan) = walked(sa, pos, end, true, seen);
    lemma_walked(sa, pos, end, true, seen);
    lemma_child_at(sa, pos, end);
    let child = child_at(sa, pos, end)->Ok_0;
    let now_seen = seen || child.id == id::TRACKS;
    let h = child.header_len;
    lemma_header_whole(a, pos);
    if now_seen && child.id == id::CLUSTER {
        assert(top.last() == child);
        assert(a.subrange(pos as int, pos + h) =~= b.subrange(pos as int, pos + h));
        lemma_header_moved(a, b, pos, pos);
    } else {
        let next = child.end_at() as u64;
        let (rest, _) = walked(sa, next, end, true, now_seen);
        lemma_walked(sa, next, end, true, now_seen);
        assert(top == seq![child] + rest);
        assert(top.last() == rest.last());
        lemma_walk_stopped(a, b, next, end, now_seen);
        assert(a.subrange(pos as int, pos + h) =~= b.subrange(pos as int, pos + h));
        lemma_header_moved(a, b, pos, pos);
    }
}

/// Opening a file reads nothing past the header of the first cluster behind
/// Tracks: whatever else the file holds there, it opens as the same.
pub proof fn law_open_stops_at_the_first_cluster(
    a: Seq<u8>,
    b: Seq<u8>,
    path: PathModel,
    modified: Option<Timestamp>,
    m: MkvModel,
)
    requires
        a.len() == b.len() <= MAX_FILE_LEN,
        open_outcome(file_source(a), path, a.len() as u64, modified) == Ok::<MkvModel, Seq<char>>(m),
        m.scan is StoppedAtClusters,
        same_before(a, b, m.top.last().data_at()),
    ensures
        open_outcome(file_source(b), path, b.len() as u64, modified) == Ok::<MkvModel, Seq<char>>(m),
{
    let sa = file_source(a);
    let sb = file_source(b);
    let len = a.len() as u64;
    law_opened_is_valid(sa, path, len, modified);
    let base = m.segment_data_start;
    let end = m.segment_end;
    assert(walked(sa, base, end, true, false) == (m.top, m.scan));
    lemma_walked(sa, base, end, true, false);
    lemma_walk_stopped(a, b, base, end, false);
    let last = m.top.len() - 1;
    lemma_tiles_within(m.top, base, end, last);
    lemma_segment_from(sa, 0, len);
    lemma_segment_stays(a, b, 0, m.top.last().data_at());
    assert forall|k: int| 0 <= k < m.top.len() && (#[trigger] m.top[k]).id != id::CLUSTER implies clipped(
        a,
        m.top[k].data_at() as u64 as int,
        m.top[k].size as int,
    ) == clipped(b, m.top[k].data_at() as u64 as int, m.top[k].size as int) by {
        lemma_tiles_order(m.top, base, end, k, last);
        assert(clipped(a, m.top[k].data_at(), m.top[k].size as int) =~= clipped(
            b,
            m.top[k].data_at(),
            m.top[k].size as int,
        ));
    }
    lemma_child_index(m.top, id::INFO, 0);
    lemma_child_index(m.top, id::TRACKS, 0);
    let t = m.tracks_idx as int;
    assert(m.top[t].id == id::TRACKS);
    let i = child_index(m.top, id::INFO, 0);
    if i < m.top.len() {
        assert(m.top[i].id == id::INFO);
    }
    assert(info_from(sb, m.top) == info_from(sa, m.top));
}

} // verus!
