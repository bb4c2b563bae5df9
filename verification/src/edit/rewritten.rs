//! What a rewrite leaves in the file.

use vstd::prelude::*;

use crate::ebml::id;
use crate::ebml::vint::MAX_SIZE;
#[allow(unused_imports)]
use crate::ebml::laws::{law_tree_reads_back, lemma_parsed_readable, readable, settled};
#[allow(unused_imports)]
use crate::ebml::node::{element_bytes, encoded, parsed, payload, Node};
#[allow(unused_imports)]
use crate::ebml::vint::{lemma_id_bytes_len, lemma_size_bytes_len, lemma_size_size};
#[allow(unused_imports)]
use crate::edit::apply::{all_within_file, applied, saved};
#[allow(unused_imports)]
use crate::edit::bytes_of::lemma_new_file_bytes;
use crate::edit::layout::MAX_ROUNDS;
#[allow(unused_imports)]
use crate::edit::layout::{
    child_pieces_of, extents, law_layout_is_a_fixed_point, lemma_sum_take, lens_of, moves_of, round_of,
    settled_layout, starts_of, sum, PlanModel,
};
#[allow(unused_imports)]
use crate::edit::load::{lemma_cluster_plan, plan_of, plans_from};
#[allow(unused_imports)]
use crate::edit::piece::{laid_out, PieceModel};
#[allow(unused_imports)]
use crate::edit::remap::{cues_moved, seek_head_moved, MovesModel};
use crate::edit::save::SaveMode;
#[allow(unused_imports)]
use crate::edit::save::{new_file, rewrite_found, rewrite_outcome, segment_header, start_index};
#[allow(unused_imports)]
use crate::edit::in_place::with_tracks;
#[allow(unused_imports)]
use crate::edit::stands::{
    cluster_corrected, is_element, lemma_child_is_element, lemma_cluster_corrected, lemma_copied_bytes,
    lemma_cues_moved_readable, lemma_element_bytes_is, lemma_element_stands, lemma_laid_out_one,
    lemma_seek_head_moved_readable, lemma_sized_bytes_is,
};
use crate::mkv::child::TopChild;
#[allow(unused_imports)]
use crate::mkv::child::ScanModel;
use crate::mkv::file::Timestamp;
#[allow(unused_imports)]
use crate::mkv::file::{MkvModel, PathModel};
#[allow(unused_imports)]
use crate::mkv::listed::{
    lemma_reach, lemma_reach_by_id, lemma_walk_finds, lemma_walk_found, lemma_walk_goes_on, lemma_walk_stops, reach,
};
#[allow(unused_imports)]
use crate::mkv::local::{lemma_header_moved, lemma_header_whole, lemma_header_written, same_before};
use crate::mkv::open::MAX_TRACKS_SIZE;
#[allow(unused_imports)]
use crate::mkv::open::{
    all_children, child_index, info_from, lemma_child_index, open_outcome, segment_from, spot_of,
};
use crate::mkv::source::MAX_FILE_LEN;
#[allow(unused_imports)]
use crate::mkv::source::{clipped, file_source, header_at, lemma_header_at, Source};
#[allow(unused_imports)]
use crate::mkv::valid::{law_opened_is_valid, lemma_segment_from};
#[allow(unused_imports)]
use crate::mkv::walk::{
    child_at, lemma_child_at, lemma_tiles_order, lemma_tiles_within, lemma_walked, tiled_end, tiles, walked,
};

verus! {

/// The children of an opened file are the first of all its children.
pub proof fn lemma_all_children(
    src: Source,
    path: PathModel,
    file_len: u64,
    modified: Option<Timestamp>,
    m: MkvModel,
    top: Seq<TopChild>,
)
    requires
        file_len <= MAX_FILE_LEN,
        open_outcome(src, path, file_len, modified) == Ok::<MkvModel, Seq<char>>(m),
        all_children(src, m) == Ok::<Seq<TopChild>, Seq<char>>(top),
    ensures
        walked(src, m.segment_data_start, m.segment_end, false, false) == (top, ScanModel::Complete),
        m.top == top.take(reach(top, true, false).0),
        m.scan == reach(top, true, false).1,
        tiles(top, m.segment_data_start, m.segment_end),
        tiled_end(top, m.segment_data_start) == m.segment_end,
        child_index(top, id::TRACKS, 0) == m.tracks_idx,
        m.tracks_idx < reach(top, true, false).0 <= top.len(),
        start_index(top, m.top[m.tracks_idx as int].start, 0) == m.tracks_idx,
{
    law_opened_is_valid(src, path, file_len, modified);
    let base = m.segment_data_start;
    let end = m.segment_end;
    assert(walked(src, base, end, true, false) == (m.top, m.scan));
    lemma_walked(src, base, end, false, false);
    if m.scan is Complete {
        lemma_walk_goes_on(src, base, end, false);
    }
    lemma_walk_stops(src, base, end, false);
    let n = reach(top, true, false).0;
    lemma_reach(top, true, false);
    lemma_child_index(top, id::TRACKS, 0);
    lemma_child_index(m.top, id::TRACKS, 0);
    let i = m.tracks_idx as int;
    let j = child_index(top, id::TRACKS, 0);
    assert(top[i] == m.top[i]);
    if j < i {
        assert(m.top[j] == top[j]);
    }
    assert(j == i);
    lemma_start_index(top, base, end, i);
    lemma_tiles_within(top, base, end, 0);
}

/// No two children start at the same place.
proof fn lemma_start_index(top: Seq<TopChild>, pos: u64, end: u64, i: int)
    requires
        tiles(top, pos, end),
        0 <= i < top.len(),
    ensures
        start_index(top, top[i].start, 0) == i,
{
    lemma_start_index_from(top, pos, end, i, 0);
}

proof fn lemma_start_index_from(top: Seq<TopChild>, pos: u64, end: u64, i: int, from: int)
    requires
        tiles(top, pos, end),
        0 <= from <= i < top.len(),
    ensures
        start_index(top, top[i].start, from) == i,
    decreases i - from,
{
    if from < i {
        lemma_tiles_order(top, pos, end, from, i);
        lemma_start_index_from(top, pos, end, i, from + 1);
    }
}

/// Each plan is the one for its child.
pub proof fn lemma_plans(
    src: Source,
    top: Seq<TopChild>,
    tracks_idx: int,
    new_tracks: Seq<u8>,
    from: int,
    plans: Seq<PlanModel>,
)
    requires
        0 <= from <= top.len(),
        plans_from(src, top, tracks_idx, new_tracks, from) == Ok::<Seq<PlanModel>, Seq<char>>(plans),
    ensures
        plans.len() == top.len() - from,
        forall|k: int|
            0 <= k < plans.len() ==> plan_of(src, top[from + k], from + k == tracks_idx, new_tracks)
                == Ok::<PlanModel, Seq<char>>(#[trigger] plans[k]),
    decreases top.len() - from,
{
    if from < top.len() {
        let first = plan_of(src, top[from], from == tracks_idx, new_tracks)->Ok_0;
        let rest = plans_from(src, top, tracks_idx, new_tracks, from + 1)->Ok_0;
        lemma_plans(src, top, tracks_idx, new_tracks, from + 1, rest);
        assert(plans =~= seq![first] + rest);
        assert forall|k: int| 0 <= k < plans.len() implies plan_of(
            src,
            top[from + k],
            from + k == tracks_idx,
            new_tracks,
        ) == Ok::<PlanModel, Seq<char>>(#[trigger] plans[k]) by {
            if k > 0 {
                assert(plans[k] == rest[k - 1]);
                assert(top[from + 1 + (k - 1)] == top[from + k]);
            }
        }
    }
}

/// How long the header at the front of the bytes is.
pub open spec fn head_len(bytes: Seq<u8>) -> u64 {
    (header_at(file_source(bytes), 0)->Ok_0).2
}

/// A tree that is made into an element is one, and is read back.
proof fn lemma_encoded_is(n: Node)
    requires
        n is Master,
        readable(n),
        encoded(n).len() <= MAX_SIZE,
    ensures
        is_element(encoded(n), n.id(), head_len(encoded(n))),
        parsed(encoded(n).skip(head_len(encoded(n)) as int)) == Ok::<Seq<Node>, Seq<char>>(
            settled(n).children(),
        ),
{
    let body = payload(n);
    assert(body.len() <= encoded(n).len());
    lemma_sized_bytes_is(n.id(), n.width(), body);
    law_tree_reads_back(n);
}

/// What a child comes to in a rewritten file: an element with the ID that it
/// had.
#[verifier::opaque]
pub open spec fn child_kept(
    file: Seq<u8>,
    c: TopChild,
    plan: PlanModel,
    mv: MovesModel,
    new_rel: u64,
    bytes: Seq<u8>,
) -> bool {
    let h = head_len(bytes) as int;
    &&& is_element(bytes, c.id, head_len(bytes))
    &&& match plan {
        PlanModel::Copy => bytes == file.subrange(c.start as int, c.end_at()),
        PlanModel::Tracks(b) => bytes == b,
        PlanModel::SeekHead(n) => parsed(bytes.skip(h)) == Ok::<Seq<Node>, Seq<char>>(
            settled(seek_head_moved(n, mv)).children(),
        ),
        PlanModel::Cues(n) => parsed(bytes.skip(h)) == Ok::<Seq<Node>, Seq<char>>(
            settled(cues_moved(n, mv)).children(),
        ),
        PlanModel::Cluster { slot: None } => bytes == file.subrange(c.start as int, c.end_at()),
        PlanModel::Cluster { slot: Some(slot) } => cluster_corrected(
            bytes,
            file.subrange(c.data_at(), c.end_at()),
            c,
            slot,
            new_rel,
        ),
    }
}

/// Each child of a rewritten file is kept.
proof fn lemma_child_kept(
    file: Seq<u8>,
    end: u64,
    c: TopChild,
    is_tracks: bool,
    body: Seq<u8>,
    plan: PlanModel,
    mv: MovesModel,
    new_rel: u64,
)
    requires
        end <= file.len(),
        file.len() + 8 <= MAX_SIZE,
        child_at(file_source(file), c.start, end) == Ok::<TopChild, Seq<char>>(c),
        is_tracks ==> c.id == id::TRACKS,
        body.len() <= MAX_SIZE,
        plan_of(file_source(file), c, is_tracks, element_bytes(id::TRACKS, body)) == Ok::<
            PlanModel,
            Seq<char>,
        >(plan),
        laid_out(child_pieces_of(c, plan, mv, new_rel), file).len() <= MAX_SIZE,
    ensures
        child_kept(
            file,
            c,
            plan,
            mv,
            new_rel,
            laid_out(child_pieces_of(c, plan, mv, new_rel), file),
        ),
{
    reveal(child_kept);
    let src = file_source(file);
    lemma_child_at(src, c.start, end);
    if c.id == id::CLUSTER && !is_tracks {
        lemma_cluster_plan(file, c, element_bytes(id::TRACKS, body), 0);
    }
    match plan {
        PlanModel::Copy => {
            lemma_copied_bytes(c, file);
            lemma_child_is_element(file, c, end);
        },
        PlanModel::Tracks(b) => {
            lemma_laid_out_one(PieceModel::Bytes(b), file);
            lemma_element_bytes_is(id::TRACKS, body);
        },
        PlanModel::SeekHead(n) => {
            let buf = clipped(file, c.data_at() as u64 as int, c.size as int);
            lemma_parsed_readable(buf);
            assert(readable(n));
            lemma_seek_head_moved_readable(n, mv);
            lemma_laid_out_one(PieceModel::Bytes(encoded(seek_head_moved(n, mv))), file);
            lemma_encoded_is(seek_head_moved(n, mv));
        },
        PlanModel::Cues(n) => {
            let buf = clipped(file, c.data_at() as u64 as int, c.size as int);
            lemma_parsed_readable(buf);
            assert(readable(n));
            lemma_cues_moved_readable(n, mv);
            lemma_laid_out_one(PieceModel::Bytes(encoded(cues_moved(n, mv))), file);
            lemma_encoded_is(cues_moved(n, mv));
        },
        PlanModel::Cluster { slot } => {
            match slot {
                None => {
                    lemma_copied_bytes(c, file);
                    lemma_child_is_element(file, c, end);
                },
                Some(slot) => {
                    lemma_cluster_corrected(c, slot, new_rel, file, end);
                },
            }
        },
    }
}

// ---------------------------------------------------------------------------
// The whole file
// ---------------------------------------------------------------------------

/// A file was opened, its tracks were set to `tracks`, and saving it wrote it
/// anew as `new`. No size in it is larger than an element can have.
#[verifier::opaque]
pub open spec fn rewrite_done(
    file: Seq<u8>,
    path: PathModel,
    modified: Option<Timestamp>,
    m: MkvModel,
    tracks: Node,
    new: Seq<u8>,
) -> bool {
    &&& file.len() + 8 <= MAX_SIZE
    &&& new.len() <= MAX_SIZE
    &&& open_outcome(file_source(file), path, file.len() as u64, modified) == Ok::<
        MkvModel,
        Seq<char>,
    >(m)
    &&& tracks is Master
    &&& tracks.id() == id::TRACKS
    &&& readable(tracks)
    &&& payload(tracks).len() <= MAX_TRACKS_SIZE
    &&& saved(with_tracks(m, tracks), file, modified) matches Ok((bytes, mode, _)) && bytes == new
        && mode == SaveMode::Rewrite
}

/// All children of the old file.
pub open spec fn old_children(file: Seq<u8>, m: MkvModel) -> Seq<TopChild> {
    all_children(file_source(file), m)->Ok_0
}

/// What became of each of them.
pub open spec fn rewrite_plans(file: Seq<u8>, m: MkvModel, tracks: Node) -> Seq<PlanModel> {
    plans_from(
        file_source(file),
        old_children(file, m),
        m.tracks_idx as int,
        element_bytes(id::TRACKS, payload(tracks)),
        0,
    )->Ok_0
}

/// The layout that was settled: how long each child is, and its pieces.
pub open spec fn rewrite_layout(file: Seq<u8>, m: MkvModel, tracks: Node) -> (
    Seq<u64>,
    Seq<Seq<PieceModel>>,
) {
    let top = old_children(file, m);
    let new_tracks = element_bytes(id::TRACKS, payload(tracks));
    settled_layout(
        top,
        rewrite_plans(file, m, tracks),
        m.segment_data_start,
        extents(top).update(m.tracks_idx as int, new_tracks.len() as u64),
        MAX_ROUNDS as nat,
    )->0
}

/// How the children moved.
pub open spec fn rewrite_moves(file: Seq<u8>, m: MkvModel, tracks: Node) -> MovesModel {
    moves_of(old_children(file, m), m.segment_data_start, rewrite_layout(file, m, tracks).0)
}

/// Where each child starts, counted from the start of the Segment's payload.
pub open spec fn new_places(file: Seq<u8>, m: MkvModel, tracks: Node) -> Seq<u64> {
    starts_of(rewrite_layout(file, m, tracks).0)
}

/// Where the Segment of the new file ends: before what stood behind it.
pub open spec fn new_end(file: Seq<u8>, m: MkvModel, new: Seq<u8>) -> u64 {
    (new.len() - (file.len() - m.segment_end)) as u64
}

/// The bytes of a child in the new file.
pub open spec fn new_bytes(file: Seq<u8>, m: MkvModel, tracks: Node, i: int) -> Seq<u8> {
    laid_out(rewrite_layout(file, m, tracks).1[i], file)
}

/// A child in the new file.
pub open spec fn new_child(file: Seq<u8>, m: MkvModel, tracks: Node, i: int) -> TopChild {
    let bytes = new_bytes(file, m, tracks, i);
    TopChild {
        id: old_children(file, m)[i].id,
        start: (m.segment_start + 12 + new_places(file, m, tracks)[i]) as u64,
        header_len: head_len(bytes),
        size: (bytes.len() - head_len(bytes)) as u64,
    }
}

/// All children of the new file.
pub open spec fn new_children(file: Seq<u8>, m: MkvModel, tracks: Node) -> Seq<TopChild> {
    Seq::new(old_children(file, m).len(), |i: int| new_child(file, m, tracks, i))
}

/// What was known of the file when it was written anew.
pub proof fn lemma_rewrite_opened(
    file: Seq<u8>,
    path: PathModel,
    modified: Option<Timestamp>,
    m: MkvModel,
    tracks: Node,
    new: Seq<u8>,
)
    requires
        rewrite_done(file, path, modified, m, tracks, new),
    ensures
        ({
            let src = file_source(file);
            let top = old_children(file, m);
            &&& file.len() + 8 <= MAX_SIZE
            &&& new.len() <= MAX_SIZE
            &&& tracks is Master && tracks.id() == id::TRACKS && readable(tracks)
            &&& payload(tracks).len() <= MAX_TRACKS_SIZE
            &&& m.valid() && m.file_len == file.len() && m.path == path
            &&& m.info == info_from(src, m.top)
            &&& segment_from(src, 0, file.len() as u64) is Ok
            &&& (segment_from(src, 0, file.len() as u64)->Ok_0).0 == m.segment_start
            &&& all_children(src, m) == Ok::<Seq<TopChild>, Seq<char>>(top)
            &&& walked(src, m.segment_data_start, m.segment_end, false, false) == (top, ScanModel::Complete)
            &&& m.top == top.take(reach(top, true, false).0)
            &&& m.scan == reach(top, true, false).1
            &&& tiles(top, m.segment_data_start, m.segment_end)
            &&& child_index(top, id::TRACKS, 0) == m.tracks_idx
            &&& m.tracks_idx < reach(top, true, false).0 <= top.len()
            &&& start_index(top, m.top[m.tracks_idx as int].start, 0) == m.tracks_idx
        }),
{
    reveal(rewrite_done);
    let src = file_source(file);
    let e = with_tracks(m, tracks);
    assert(all_children(src, e) == all_children(src, m));
    assert(rewrite_outcome(src, e) is Ok);
    law_opened_is_valid(src, path, file.len() as u64, modified);
    lemma_all_children(src, path, file.len() as u64, modified, m, old_children(file, m));
}

/// What was laid out when the file was written anew.
pub proof fn lemma_rewrite_done(
    file: Seq<u8>,
    path: PathModel,
    modified: Option<Timestamp>,
    m: MkvModel,
    tracks: Node,
    new: Seq<u8>,
)
    requires
        rewrite_done(file, path, modified, m, tracks, new),
    ensures
        ({
            let src = file_source(file);
            let top = old_children(file, m);
            let plans = rewrite_plans(file, m, tracks);
            let (lens, children) = rewrite_layout(file, m, tracks);
            &&& plans_from(
                src,
                top,
                m.tracks_idx as int,
                element_bytes(id::TRACKS, payload(tracks)),
                0,
            ) == Ok::<Seq<PlanModel>, Seq<char>>(plans)
            &&& new == laid_out(new_file(m, lens, children), file)
            &&& all_within_file(new_file(m, lens, children), file.len())
            &&& children == round_of(top, plans, m.segment_data_start, lens)
            &&& lens == lens_of(children)
            &&& crate::edit::layout::all_fit(children)
            &&& sum(lens) <= MAX_FILE_LEN
        }),
{
    lemma_rewrite_opened(file, path, modified, m, tracks, new);
    let src = file_source(file);
    let e = with_tracks(m, tracks);
    let top = old_children(file, m);
    assert(rewrite_found(src, e, top) matches Ok(plan) && applied(plan.action, file) == Ok::<
        Seq<u8>,
        Seq<char>,
    >(new)) by {
        reveal(rewrite_done);
        assert(all_children(src, e) == all_children(src, m));
    }
    let new_tracks = element_bytes(id::TRACKS, payload(tracks));
    let plans = rewrite_plans(file, m, tracks);
    let lens0 = extents(top).update(m.tracks_idx as int, new_tracks.len() as u64);
    law_layout_is_a_fixed_point(top, plans, m.segment_data_start, lens0, MAX_ROUNDS as nat);
    let (lens, children) = rewrite_layout(file, m, tracks);
    assert(new_file(e, lens, children) == new_file(m, lens, children));
}

/// Where everything stands in the new file.
pub proof fn lemma_rewrite_bytes(
    file: Seq<u8>,
    path: PathModel,
    modified: Option<Timestamp>,
    m: MkvModel,
    tracks: Node,
    new: Seq<u8>,
)
    requires
        rewrite_done(file, path, modified, m, tracks, new),
    ensures
        ({
            let lens = rewrite_layout(file, m, tracks).0;
            let base = m.segment_start + 12;
            let end = new_end(file, m, new);
            &&& lens.len() == old_children(file, m).len()
            &&& base + sum(lens) == end <= new.len()
            &&& new.take(m.segment_start as int) == file.take(m.segment_start as int)
            &&& new.subrange(m.segment_start as int, base) == segment_header(sum(lens) as u64)
            &&& new.skip(end as int) == file.skip(m.segment_end as int)
            &&& forall|i: int|
                0 <= i < lens.len() ==> {
                    &&& new_bytes(file, m, tracks, i).len() == #[trigger] lens[i]
                    &&& new_places(file, m, tracks)[i] + lens[i] <= sum(lens)
                    &&& new.subrange(
                        base + new_places(file, m, tracks)[i],
                        base + new_places(file, m, tracks)[i] + lens[i],
                    ) == new_bytes(file, m, tracks, i)
                }
        }),
{
    lemma_rewrite_opened(file, path, modified, m, tracks, new);
    lemma_rewrite_done(file, path, modified, m, tracks, new);
    let (lens, children) = rewrite_layout(file, m, tracks);
    let base = m.segment_start + 12;
    lemma_new_file_bytes(m, lens, children, file);
    assert forall|i: int| 0 <= i < lens.len() implies {
        &&& new_bytes(file, m, tracks, i).len() == #[trigger] lens[i]
        &&& new_places(file, m, tracks)[i] + lens[i] <= sum(lens)
        &&& new.subrange(
            base + new_places(file, m, tracks)[i],
            base + new_places(file, m, tracks)[i] + lens[i],
        ) == new_bytes(file, m, tracks, i)
    } by {
        lemma_sum_take(lens, i);
        assert(laid_out(children[i], file).len() == lens[i]);
    }
}

/// The children of a rewritten file stand one after the other and fill its
/// Segment. Each has the ID that it had. Those that hold no positions are as they
/// were, byte for byte; the others hold the positions that their targets have
/// now. What stood before the Segment and behind it still does.
pub proof fn law_rewrite_keeps_every_child(
    file: Seq<u8>,
    path: PathModel,
    modified: Option<Timestamp>,
    m: MkvModel,
    tracks: Node,
    new: Seq<u8>,
)
    requires
        rewrite_done(file, path, modified, m, tracks, new),
    ensures
        ({
            let old = old_children(file, m);
            let kids = new_children(file, m, tracks);
            let base = (m.segment_start + 12) as u64;
            let end = new_end(file, m, new);
            &&& same_before(file, new, m.segment_start as int)
            &&& header_at(file_source(new), m.segment_start) == Ok::<(u64, u64, u64), Seq<char>>(
                (id::SEGMENT, (end - base) as u64, 12),
            )
            &&& base <= end <= new.len()
            &&& new.skip(end as int) == file.skip(m.segment_end as int)
            &&& tiles(kids, base, end)
            &&& tiled_end(kids, base) == end
            &&& walked(file_source(new), base, end, false, false) == (kids, ScanModel::Complete)
            &&& forall|i: int|
                0 <= i < kids.len() ==> {
                    &&& (#[trigger] kids[i]).id == old[i].id
                    &&& kids[i].start == base + new_places(file, m, tracks)[i]
                    &&& child_at(file_source(new), kids[i].start, end) == Ok::<TopChild, Seq<char>>(
                        kids[i],
                    )
                    &&& new.subrange(kids[i].start as int, kids[i].end_at()) == new_bytes(
                        file,
                        m,
                        tracks,
                        i,
                    )
                    &&& child_kept(
                        file,
                        old[i],
                        rewrite_plans(file, m, tracks)[i],
                        rewrite_moves(file, m, tracks),
                        new_places(file, m, tracks)[i],
                        new_bytes(file, m, tracks, i),
                    )
                }
        }),
{
    let src2 = file_source(new);
    let old = old_children(file, m);
    let lens = rewrite_layout(file, m, tracks).0;
    let kids = new_children(file, m, tracks);
    let base = (m.segment_start + 12) as u64;
    let end = new_end(file, m, new);
    let places = new_places(file, m, tracks);
    lemma_rewrite_opened(file, path, modified, m, tracks, new);
    lemma_rewrite_bytes(file, path, modified, m, tracks, new);
    lemma_segment_kept(file, new, m.segment_start, sum(lens) as u64);
    assert forall|i: int| 0 <= i < kids.len() implies {
        &&& (#[trigger] kids[i]).id == old[i].id
        &&& kids[i].start == base + places[i]
        &&& kids[i].end_at() == base + places[i] + lens[i]
        &&& 2 <= kids[i].header_len <= 12
        &&& kids[i].size <= MAX_SIZE
        &&& kids[i].end_at() <= end
        &&& child_at(src2, kids[i].start, end) == Ok::<TopChild, Seq<char>>(kids[i])
        &&& new.subrange(kids[i].start as int, kids[i].end_at()) == new_bytes(file, m, tracks, i)
        &&& child_kept(
            file,
            old[i],
            rewrite_plans(file, m, tracks)[i],
            rewrite_moves(file, m, tracks),
            places[i],
            new_bytes(file, m, tracks, i),
        )
    } by {
        lemma_new_child(file, path, modified, m, tracks, new, i);
    }
    lemma_kids_tile(kids, base, end, lens);
    lemma_walk_finds(src2, base, end, false, false, kids);
    lemma_reach(kids, false, false);
    assert(kids.take(kids.len() as int) =~= kids);
}

/// What stood before the Segment still does, and the Segment has its new header.
proof fn lemma_segment_kept(file: Seq<u8>, new: Seq<u8>, start: u64, total: u64)
    requires
        start <= file.len(),
        start + 12 <= new.len() <= MAX_SIZE,
        total <= MAX_SIZE,
        new.take(start as int) == file.take(start as int),
        new.subrange(start as int, start + 12) == segment_header(total),
    ensures
        same_before(file, new, start as int),
        header_at(file_source(new), start) == Ok::<(u64, u64, u64), Seq<char>>((id::SEGMENT, total, 12)),
{
    assert forall|k: int| 0 <= k < start implies file[k] == new[k] by {
        assert(file[k] == file.take(start as int)[k]);
        assert(new[k] == new.take(start as int)[k]);
    }
    lemma_size_size(total);
    lemma_id_bytes_len(id::SEGMENT);
    lemma_size_bytes_len(total, 8);
    lemma_header_written(new, start, id::SEGMENT, total, 8);
}

/// Children that start where the ones before them end stand one after the
/// other.
proof fn lemma_kids_tile(kids: Seq<TopChild>, base: u64, end: u64, lens: Seq<u64>)
    requires
        kids.len() == lens.len(),
        base + sum(lens) == end,
        forall|i: int|
            0 <= i < kids.len() ==> {
                &&& (#[trigger] kids[i]).start == base + starts_of(lens)[i]
                &&& kids[i].end_at() == base + starts_of(lens)[i] + lens[i]
                &&& 2 <= kids[i].header_len <= 12
                &&& kids[i].size <= MAX_SIZE
                &&& kids[i].end_at() <= end
            },
    ensures
        tiles(kids, base, end),
        tiled_end(kids, base) == end,
{
    assert forall|i: int, j: int| 0 <= i && j == i + 1 && j < kids.len() implies (#[trigger] kids[j]).start
        == (#[trigger] kids[i]).end_at() by {
        lemma_sum_take(lens, i);
    }
    assert(lens.take(0) =~= Seq::<u64>::empty());
    if kids.len() > 0 {
        let n = kids.len() - 1;
        lemma_sum_take(lens, n);
        assert(lens.take(n + 1) =~= lens);
        assert(kids[n].end_at() == end);
    }
}

/// One child of a rewritten file.
pub proof fn lemma_new_child(
    file: Seq<u8>,
    path: PathModel,
    modified: Option<Timestamp>,
    m: MkvModel,
    tracks: Node,
    new: Seq<u8>,
    i: int,
)
    requires
        rewrite_done(file, path, modified, m, tracks, new),
        0 <= i < old_children(file, m).len(),
    ensures
        ({
            let old = old_children(file, m);
            let kid = new_child(file, m, tracks, i);
            let base = (m.segment_start + 12) as u64;
            let end = new_end(file, m, new);
            let at = new_places(file, m, tracks)[i];
            let lens = rewrite_layout(file, m, tracks).0;
            &&& kid.start == base + at
            &&& kid.end_at() == base + at + lens[i]
            &&& 2 <= kid.header_len <= 12
            &&& kid.size <= MAX_SIZE
            &&& kid.end_at() <= end <= new.len()
            &&& child_at(file_source(new), kid.start, end) == Ok::<TopChild, Seq<char>>(kid)
            &&& new.subrange(kid.start as int, kid.end_at()) == new_bytes(file, m, tracks, i)
            &&& child_kept(
                file,
                old[i],
                rewrite_plans(file, m, tracks)[i],
                rewrite_moves(file, m, tracks),
                at,
                new_bytes(file, m, tracks, i),
            )
        }),
{
    let src = file_source(file);
    let old = old_children(file, m);
    let plans = rewrite_plans(file, m, tracks);
    let (lens, children) = rewrite_layout(file, m, tracks);
    let base = (m.segment_start + 12) as u64;
    let places = new_places(file, m, tracks);
    let body = payload(tracks);
    lemma_rewrite_opened(file, path, modified, m, tracks, new);
    lemma_rewrite_done(file, path, modified, m, tracks, new);
    lemma_rewrite_bytes(file, path, modified, m, tracks, new);
    lemma_plans(src, old, m.tracks_idx as int, element_bytes(id::TRACKS, body), 0, plans);
    lemma_walk_found(src, m.segment_data_start, m.segment_end, false, false, i);
    lemma_child_index(old, id::TRACKS, 0);
    let bytes = new_bytes(file, m, tracks, i);
    assert(children[i] == child_pieces_of(
        old[i],
        plans[i],
        rewrite_moves(file, m, tracks),
        places[i],
    ));
    assert(bytes.len() == lens[i]);
    lemma_child_kept(
        file,
        m.segment_end,
        old[i],
        i == m.tracks_idx,
        body,
        plans[i],
        rewrite_moves(file, m, tracks),
        places[i],
    );
    let at = (base + places[i]) as u64;
    lemma_kept_stands(
        file,
        old[i],
        plans[i],
        rewrite_moves(file, m, tracks),
        places[i],
        bytes,
        new,
        at,
        new_end(file, m, new),
    );
}

/// A child that is kept is found where its bytes stand.
proof fn lemma_kept_stands(
    file: Seq<u8>,
    c: TopChild,
    plan: PlanModel,
    mv: MovesModel,
    new_rel: u64,
    bytes: Seq<u8>,
    new: Seq<u8>,
    at: u64,
    end: u64,
)
    requires
        child_kept(file, c, plan, mv, new_rel, bytes),
        at + bytes.len() <= end <= new.len() <= MAX_SIZE,
        new.subrange(at as int, at + bytes.len()) == bytes,
    ensures
        2 <= head_len(bytes) <= 12,
        head_len(bytes) <= bytes.len(),
        child_at(file_source(new), at, end) == Ok::<TopChild, Seq<char>>(
            TopChild {
                id: c.id,
                start: at,
                header_len: head_len(bytes),
                size: (bytes.len() - head_len(bytes)) as u64,
            },
        ),
{
    reveal(child_kept);
    lemma_header_at(file_source(bytes), 0);
    lemma_element_stands(bytes, c.id, head_len(bytes), new, at);
}

/// The Segment is found where it was, with the header that stands there now.
proof fn lemma_segment_replaced(
    a: Seq<u8>,
    b: Seq<u8>,
    pos: u64,
    size: u64,
    header_len: u64,
)
    requires
        a.len() <= MAX_FILE_LEN,
        b.len() <= MAX_FILE_LEN,
        segment_from(file_source(a), pos, a.len() as u64) is Ok,
        ({
            let start = (segment_from(file_source(a), pos, a.len() as u64)->Ok_0).0;
            &&& same_before(a, b, start as int)
            &&& start + 4 < b.len()
            &&& header_at(file_source(b), start) == Ok::<(u64, u64, u64), Seq<char>>(
                (id::SEGMENT, size, header_len),
            )
        }),
    ensures
        segment_from(file_source(b), pos, b.len() as u64) == Ok::<(u64, u64, u64), Seq<char>>(
            ((segment_from(file_source(a), pos, a.len() as u64)->Ok_0).0, size, header_len),
        ),
    decreases a.len() - pos,
{
    let sa = file_source(a);
    let len = a.len() as u64;
    lemma_segment_from(sa, pos, len);
    let start = (segment_from(sa, pos, len)->Ok_0).0;
    let (id, s, h) = header_at(sa, pos)->Ok_0;
    lemma_header_at(sa, pos);
    lemma_header_whole(a, pos);
    if id == id::EBML_HEAD || id == id::VOID {
        let next = (pos + h + s) as u64;
        lemma_segment_from(sa, next, len);
        assert(a.subrange(pos as int, pos + h) =~= b.subrange(pos as int, pos + h));
        lemma_header_moved(a, b, pos, pos);
        lemma_segment_replaced(a, b, next, size, header_len);
    }
}

/// What is opened after a rewrite: the tracks as they were set, the children
/// where they stand now, and the rest as it was.
pub open spec fn after_rewrite(
    file: Seq<u8>,
    m: MkvModel,
    tracks: Node,
    new: Seq<u8>,
    modified: Option<Timestamp>,
) -> MkvModel {
    MkvModel {
        file_len: new.len() as u64,
        modified,
        segment_data_start: (m.segment_start + 12) as u64,
        segment_end: new_end(file, m, new),
        top: new_children(file, m, tracks).take(m.top.len() as int),
        tracks: Node::branch(id::TRACKS, settled(tracks).children()),
        ..m
    }
}

/// The file that a rewrite leaves opens with the tracks as they were set and
/// everything else as it was, and can be walked to its end.
pub proof fn law_rewrite_reads_back(
    file: Seq<u8>,
    path: PathModel,
    modified: Option<Timestamp>,
    later: Option<Timestamp>,
    m: MkvModel,
    tracks: Node,
    new: Seq<u8>,
)
    requires
        rewrite_done(file, path, modified, m, tracks, new),
    ensures
        ({
            let after = after_rewrite(file, m, tracks, new, later);
            &&& open_outcome(file_source(new), path, new.len() as u64, later) == Ok::<
                MkvModel,
                Seq<char>,
            >(after)
            &&& all_children(file_source(new), after) == Ok::<Seq<TopChild>, Seq<char>>(
                new_children(file, m, tracks),
            )
        }),
{
    let src2 = file_source(new);
    let new_len = new.len() as u64;
    let end = new_end(file, m, new);
    let base = (m.segment_start + 12) as u64;
    let kids = new_children(file, m, tracks);
    let top = kids.take(m.top.len() as int);
    let i = m.tracks_idx as int;
    lemma_rewrite_opened(file, path, modified, m, tracks, new);
    law_rewrite_keeps_every_child(file, path, modified, m, tracks, new);
    lemma_segment_replaced(file, new, 0, (end - base) as u64, 12);
    lemma_rewritten_walk(file, path, modified, m, tracks, new);
    lemma_tracks_kept(file, path, modified, m, tracks, new);
    law_tree_reads_back(tracks);
    assert(top[i] == kids[i]);
    lemma_opens_as(
        new,
        path,
        later,
        (m.segment_start, (end - base) as u64, 12u64),
        top,
        m.scan,
        settled(tracks).children(),
    );
}

/// What opening a file comes to, from what is found in it.
pub proof fn lemma_opens_as(
    file: Seq<u8>,
    path: PathModel,
    modified: Option<Timestamp>,
    segment: (u64, u64, u64),
    top: Seq<TopChild>,
    scan: ScanModel,
    children: Seq<Node>,
)
    requires
        ({
            let src = file_source(file);
            let len = file.len() as u64;
            let spot = spot_of(segment, len);
            let i = child_index(top, id::TRACKS, 0);
            &&& segment_from(src, 0, len) == Ok::<(u64, u64, u64), Seq<char>>(segment)
            &&& walked(src, spot.data_start, spot.end, true, false) == (top, scan)
            &&& 0 <= i < top.len()
            &&& top[i].size <= MAX_TRACKS_SIZE
            &&& parsed(clipped(file, top[i].data_at() as u64 as int, top[i].size as int)) == Ok::<
                Seq<Node>,
                Seq<char>,
            >(children)
        }),
    ensures
        ({
            let src = file_source(file);
            let len = file.len() as u64;
            let spot = spot_of(segment, len);
            open_outcome(src, path, len, modified) == Ok::<MkvModel, Seq<char>>(
                MkvModel {
                    path,
                    file_len: len,
                    modified,
                    segment_start: spot.start,
                    segment_data_start: spot.data_start,
                    segment_end: spot.end,
                    top,
                    scan,
                    tracks_idx: child_index(top, id::TRACKS, 0) as nat,
                    tracks: Node::branch(id::TRACKS, children),
                    info: info_from(src, top),
                },
            )
        }),
{
}

/// Children with the same IDs have the first with an ID at the same place.
proof fn lemma_same_index(a: Seq<TopChild>, b: Seq<TopChild>, id: u64)
    requires
        a.len() == b.len(),
        forall|k: int| 0 <= k < a.len() ==> (#[trigger] a[k]).id == b[k].id,
    ensures
        child_index(a, id, 0) == child_index(b, id, 0),
{
    lemma_child_index(a, id, 0);
    lemma_child_index(b, id, 0);
    let i = child_index(a, id, 0);
    let j = child_index(b, id, 0);
    if i < j {
        assert(a[i].id == b[i].id);
    }
    if j < i {
        assert(a[j].id == b[j].id);
    }
}

/// The Tracks element of a rewritten file holds the tracks.
proof fn lemma_tracks_kept(
    file: Seq<u8>,
    path: PathModel,
    modified: Option<Timestamp>,
    m: MkvModel,
    tracks: Node,
    new: Seq<u8>,
)
    requires
        rewrite_done(file, path, modified, m, tracks, new),
    ensures
        ({
            let kid = new_children(file, m, tracks)[m.tracks_idx as int];
            &&& kid.size == payload(tracks).len()
            &&& clipped(new, kid.data_at() as u64 as int, kid.size as int) == payload(tracks)
        }),
{
    let src = file_source(file);
    let old = old_children(file, m);
    let i = m.tracks_idx as int;
    let body = payload(tracks);
    let kid = new_child(file, m, tracks, i);
    let bytes = new_bytes(file, m, tracks, i);
    lemma_rewrite_done(file, path, modified, m, tracks, new);
    lemma_rewrite_opened(file, path, modified, m, tracks, new);
    lemma_new_child(file, path, modified, m, tracks, new, i);
    lemma_plans(
        src,
        old,
        i,
        element_bytes(id::TRACKS, body),
        0,
        rewrite_plans(file, m, tracks),
    );
    assert(bytes == element_bytes(id::TRACKS, body)) by {
        reveal(child_kept);
    }
    lemma_element_bytes_is(id::TRACKS, body);
    lemma_payload_of(new, kid, bytes);
    assert(new_children(file, m, tracks)[i] == kid);
}

/// The payload of an element is what follows its header.
pub proof fn lemma_payload_of(file: Seq<u8>, c: TopChild, bytes: Seq<u8>)
    requires
        c.end_at() <= file.len() <= MAX_FILE_LEN,
        file.subrange(c.start as int, c.end_at()) == bytes,
    ensures
        c.size == bytes.len() - c.header_len,
        clipped(file, c.data_at() as u64 as int, c.size as int) == bytes.skip(c.header_len as int),
{
    assert(clipped(file, c.data_at(), c.size as int) =~= bytes.skip(c.header_len as int));
}

/// A child that holds no positions holds what it did.
proof fn lemma_copied_kept(
    file: Seq<u8>,
    path: PathModel,
    modified: Option<Timestamp>,
    m: MkvModel,
    tracks: Node,
    new: Seq<u8>,
    k: int,
)
    requires
        rewrite_done(file, path, modified, m, tracks, new),
        0 <= k < old_children(file, m).len(),
        old_children(file, m)[k].id == id::INFO,
    ensures
        ({
            let c = old_children(file, m)[k];
            let kid = new_children(file, m, tracks)[k];
            &&& kid.size == c.size
            &&& clipped(new, kid.data_at() as u64 as int, kid.size as int) == clipped(
                file,
                c.data_at() as u64 as int,
                c.size as int,
            )
        }),
{
    let src = file_source(file);
    let old = old_children(file, m);
    let c = old[k];
    let kid = new_children(file, m, tracks)[k];
    lemma_new_child(file, path, modified, m, tracks, new, k);
    lemma_rewrite_done(file, path, modified, m, tracks, new);
    lemma_rewrite_opened(file, path, modified, m, tracks, new);
    lemma_child_index(old, id::TRACKS, 0);
    lemma_plans(
        src,
        old,
        m.tracks_idx as int,
        element_bytes(id::TRACKS, payload(tracks)),
        0,
        rewrite_plans(file, m, tracks),
    );
    let bytes = new_bytes(file, m, tracks, k);
    assert(rewrite_plans(file, m, tracks)[k] is Copy);
    lemma_walk_found(src, m.segment_data_start, m.segment_end, false, false, k);
    lemma_child_is_element(file, c, m.segment_end);
    lemma_child_at(src, c.start, m.segment_end);
    assert(bytes == file.subrange(c.start as int, c.end_at())) by {
        reveal(child_kept);
    }
    assert(kid == new_child(file, m, tracks, k));
    lemma_payload_of(file, c, bytes);
    lemma_payload_of(new, kid, bytes);
}

/// What a file says of itself is read from its first Info element.
proof fn lemma_info_same(a: Seq<u8>, b: Seq<u8>, ta: Seq<TopChild>, tb: Seq<TopChild>)
    requires
        ta.len() == tb.len(),
        forall|k: int| 0 <= k < ta.len() ==> (#[trigger] ta[k]).id == tb[k].id,
        forall|k: int|
            0 <= k < ta.len() && (#[trigger] ta[k]).id == id::INFO ==> {
                &&& tb[k].size == ta[k].size
                &&& clipped(b, tb[k].data_at() as u64 as int, tb[k].size as int) == clipped(
                    a,
                    ta[k].data_at() as u64 as int,
                    ta[k].size as int,
                )
            },
    ensures
        info_from(file_source(b), tb) == info_from(file_source(a), ta),
{
    lemma_same_index(ta, tb, id::INFO);
    lemma_child_index(ta, id::INFO, 0);
    let k = child_index(ta, id::INFO, 0);
    if k < ta.len() {
        assert(ta[k].id == id::INFO);
    }
}

/// The walk that opens a rewritten file reaches as far as it did in the old.
proof fn lemma_rewritten_walk(
    file: Seq<u8>,
    path: PathModel,
    modified: Option<Timestamp>,
    m: MkvModel,
    tracks: Node,
    new: Seq<u8>,
)
    requires
        rewrite_done(file, path, modified, m, tracks, new),
    ensures
        ({
            let kids = new_children(file, m, tracks);
            let top = kids.take(m.top.len() as int);
            &&& m.top.len() <= kids.len()
            &&& walked(
                file_source(new),
                (m.segment_start + 12) as u64,
                new_end(file, m, new),
                true,
                false,
            ) == (top, m.scan)
            &&& m.scan is Complete ==> top == kids
            &&& !(m.scan is Blocked)
            &&& child_index(top, id::TRACKS, 0) == m.tracks_idx
            &&& m.tracks_idx < top.len()
            &&& info_from(file_source(new), top) == info_from(file_source(file), m.top)
        }),
{
    let src = file_source(file);
    let src2 = file_source(new);
    let end = new_end(file, m, new);
    let base = (m.segment_start + 12) as u64;
    let old = old_children(file, m);
    let kids = new_children(file, m, tracks);
    law_rewrite_keeps_every_child(file, path, modified, m, tracks, new);
    lemma_rewrite_done(file, path, modified, m, tracks, new);
    lemma_rewrite_opened(file, path, modified, m, tracks, new);
    let n = reach(old, true, false).0;
    lemma_walk_finds(src2, base, end, true, false, kids);
    assert forall|k: int| 0 <= k < old.len() implies (#[trigger] old[k]).id == kids[k].id by {
        assert(kids[k].id == old[k].id);
    }
    lemma_reach_by_id(old, kids, true, false);
    lemma_reach(old, true, false);
    let top = kids.take(n);
    assert(n == m.top.len());
    if m.scan is Complete {
        assert(top =~= kids);
    }
    assert forall|k: int| 0 <= k < m.top.len() implies (#[trigger] m.top[k]).id == top[k].id by {
        assert(old[k].id == kids[k].id);
    }
    lemma_same_index(m.top, top, id::TRACKS);
    lemma_child_index(m.top, id::TRACKS, 0);
    lemma_child_index(old, id::TRACKS, 0);
    assert(child_index(m.top, id::TRACKS, 0) == m.tracks_idx);
    assert forall|k: int| 0 <= k < m.top.len() && (#[trigger] m.top[k]).id == id::INFO implies {
        &&& top[k].size == m.top[k].size
        &&& clipped(new, top[k].data_at() as u64 as int, top[k].size as int) == clipped(
            file,
            m.top[k].data_at() as u64 as int,
            m.top[k].size as int,
        )
    } by {
        assert(m.top[k] == old[k]);
        lemma_copied_kept(file, path, modified, m, tracks, new, k);
    }
    lemma_info_same(file, new, m.top, top);
}

/// A position that pointed into a child points to the same place in that child
/// in the new file.
pub proof fn law_positions_follow_their_targets(
    file: Seq<u8>,
    path: PathModel,
    modified: Option<Timestamp>,
    m: MkvModel,
    tracks: Node,
    new: Seq<u8>,
    j: int,
    p: u64,
)
    requires
        rewrite_done(file, path, modified, m, tracks, new),
        0 <= j < old_children(file, m).len(),
        old_children(file, m)[j].start <= m.segment_data_start + p < old_children(file, m)[j].end_at(),
    ensures
        m.segment_start + 12 + rewrite_moves(file, m, tracks).place(p) == new_children(
            file,
            m,
            tracks,
        )[j].start + (m.segment_data_start + p - old_children(file, m)[j].start),
{
    let src = file_source(file);
    let old = old_children(file, m);
    let mv = rewrite_moves(file, m, tracks);
    let lens = rewrite_layout(file, m, tracks).0;
    law_rewrite_keeps_every_child(file, path, modified, m, tracks, new);
    lemma_rewrite_done(file, path, modified, m, tracks, new);
    lemma_rewrite_opened(file, path, modified, m, tracks, new);
    lemma_tiles_within(old, m.segment_data_start, m.segment_end, j);
    lemma_holder(old, m, mv, p, j, 0);
    lemma_sum_take(lens, j);
    assert(new_children(file, m, tracks)[j].id == old[j].id);
}

/// A position lies in one child only.
proof fn lemma_holder(
    old: Seq<TopChild>,
    m: MkvModel,
    mv: MovesModel,
    p: u64,
    j: int,
    from: int,
)
    requires
        tiles(old, m.segment_data_start, m.segment_end),
        mv.old_rel == crate::edit::layout::old_places(old, m.segment_data_start),
        mv.old_len == extents(old),
        0 <= from <= j < old.len(),
        old[j].start <= m.segment_data_start + p < old[j].end_at(),
    ensures
        mv.holder(p, from) == j,
    decreases j - from,
{
    lemma_tiles_within(old, m.segment_data_start, m.segment_end, from);
    if from < j {
        lemma_tiles_order(old, m.segment_data_start, m.segment_end, from, j);
        lemma_holder(old, m, mv, p, j, from + 1);
    }
}

} // verus!
