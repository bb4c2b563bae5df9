//! Where the positions that a rewritten file holds land.

use vstd::prelude::*;

use crate::ebml::id;
#[allow(unused_imports)]
use crate::ebml::bytes::be;
#[allow(unused_imports)]
use crate::ebml::laws::{settled, settled_all, settled_children};
#[allow(unused_imports)]
use crate::ebml::node::{element_bytes, left_out, parsed, payload, Node};
#[allow(unused_imports)]
use crate::ebml::value::{law_uint_reads_back, uint_data, uint_of};
#[allow(unused_imports)]
use crate::edit::layout::PlanModel;
#[allow(unused_imports)]
use crate::edit::load::{lemma_cluster_plan, plan_of};
#[allow(unused_imports)]
use crate::edit::piece::slot_from;
#[allow(unused_imports)]
use crate::edit::remap::{
    cue_moved, cues_moved, leaf_moved, leaves_moved, seek_head_moved, seek_moved, track_positions_moved, MovesModel,
};
#[allow(unused_imports)]
use crate::edit::rewritten::{
    child_kept, head_len, law_positions_follow_their_targets, law_rewrite_keeps_every_child, lemma_new_child,
    lemma_plans, lemma_rewrite_done, lemma_rewrite_opened, new_bytes, new_children, new_places, old_children,
    rewrite_done, rewrite_moves, rewrite_plans,
};
use crate::mkv::child::TopChild;
use crate::mkv::file::Timestamp;
#[allow(unused_imports)]
use crate::mkv::file::{MkvModel, PathModel};
#[allow(unused_imports)]
use crate::mkv::source::{clipped, file_source};
#[allow(unused_imports)]
use crate::mkv::walk::lemma_tiles_within;

verus! {

/// The payload of a child.
pub open spec fn body_of(file: Seq<u8>, c: TopChild) -> Seq<u8> {
    file.subrange(c.data_at(), c.end_at())
}

/// Whether the payload of a cluster records the position, in a Position element
/// before its blocks.
pub open spec fn records(body: Seq<u8>, p: u64) -> bool {
    slot_from(body, 0) matches Some(at) && be(
        body.subrange(at.off + at.header_len, at.off + at.header_len + at.size),
    ) == p
}

/// Whether an element with that ID says the position.
pub open spec fn says(e: Node, leaf: u64, p: u64) -> bool {
    e.id() == leaf && uint_of(e.bytes()) == p
}

/// Whether elements hold a position in an element with that ID.
pub open spec fn holds_position(nodes: Seq<Node>, leaf: u64, p: u64) -> bool {
    exists|k: int| 0 <= k < nodes.len() && says(#[trigger] nodes[k], leaf, p)
}

/// Whether an element has that ID and those bytes.
pub open spec fn is_leaf(e: Node, leaf: u64, bytes: Seq<u8>) -> bool {
    e.id() == leaf && e.bytes() == bytes
}

/// Whether elements hold those bytes in an element with that ID.
pub open spec fn holds_bytes(nodes: Seq<Node>, leaf: u64, bytes: Seq<u8>) -> bool {
    exists|k: int| 0 <= k < nodes.len() && is_leaf(#[trigger] nodes[k], leaf, bytes)
}

/// Whether an element of a SeekHead is an entry that says the position.
pub open spec fn seek_of(e: Node, p: u64) -> bool {
    e.id() == id::SEEK && holds_position(e.children(), id::SEEK_POSITION, p)
}

/// Whether a SeekHead with these elements says the position, in any entry.
pub open spec fn sought(entries: Seq<Node>, p: u64) -> bool {
    exists|k: int| 0 <= k < entries.len() && seek_of(#[trigger] entries[k], p)
}

/// Whether a child stands at the position, counted from `base`.
pub open spec fn lands(children: Seq<TopChild>, base: int, p: u64) -> bool {
    exists|j: int| 0 <= j < children.len() && (#[trigger] children[j]).start == base + p
}

/// Whether an element of a SeekHead is an entry that says of the element of that
/// name that it stands at the position.
pub open spec fn seek_entry(e: Node, name: Seq<u8>, p: u64) -> bool {
    &&& seek_of(e, p)
    &&& holds_bytes(e.children(), id::SEEK_ID, name)
}

/// Whether a SeekHead with these elements has such an entry.
pub open spec fn seeks(entries: Seq<Node>, name: Seq<u8>, p: u64) -> bool {
    exists|k: int| 0 <= k < entries.len() && seek_entry(#[trigger] entries[k], name, p)
}

/// Whether an element of a cue point says of a cluster that it stands at the
/// position.
pub open spec fn cue_track(e: Node, p: u64) -> bool {
    &&& e.id() == id::CUE_TRACK_POSITIONS
    &&& holds_position(e.children(), id::CUE_CLUSTER_POSITION, p)
}

/// Whether an element of a Cues element is a cue point that says so.
pub open spec fn cue_point(e: Node, p: u64) -> bool {
    &&& e.id() == id::CUE_POINT
    &&& exists|t: int| 0 <= t < e.children().len() && cue_track(#[trigger] e.children()[t], p)
}

/// Whether a Cues element with these elements has such a cue point.
pub open spec fn cued(points: Seq<Node>, p: u64) -> bool {
    exists|k: int| 0 <= k < points.len() && cue_point(#[trigger] points[k], p)
}

/// A node that is not left out is read back.
proof fn lemma_settled_keeps(nodes: Seq<Node>, k: int)
    requires
        0 <= k < nodes.len(),
        !left_out(nodes[k]),
    ensures
        settled_children(nodes).contains(settled(nodes[k])),
        settled_all(nodes).contains(settled(nodes[k])),
    decreases nodes.len(),
{
    let all = settled_all(nodes);
    if k == nodes.len() - 1 {
        assert(all.last() == settled(nodes[k]));
        assert(all[all.len() - 1] == settled(nodes[k]));
    } else {
        let front = nodes.drop_last();
        lemma_settled_keeps(front, k);
        let i = choose|i: int| 0 <= i < settled_all(front).len() && settled_all(front)[i] == settled(front[k]);
        assert(all[i] == settled(nodes[k]));
    }
    let i = choose|i: int| 0 <= i < all.len() && all[i] == settled(nodes[k]);
    let children = settled_children(nodes);
    let shift = children.len() - all.len();
    assert(children[i + shift] == all[i]);
}

/// What is read back, but for a checksum, comes from a node that was not left
/// out.
proof fn lemma_settled_from(nodes: Seq<Node>, i: int) -> (k: int)
    requires
        0 <= i < settled_children(nodes).len(),
        settled_children(nodes)[i].id() != id::CRC32,
    ensures
        0 <= k < nodes.len(),
        settled_children(nodes)[i] == settled(nodes[k]),
{
    let shift = settled_children(nodes).len() - settled_all(nodes).len();
    assert(settled_children(nodes)[i] == settled_all(nodes)[i - shift]);
    lemma_settled_all_from(nodes, i - shift)
}

proof fn lemma_settled_all_from(nodes: Seq<Node>, i: int) -> (k: int)
    requires
        0 <= i < settled_all(nodes).len(),
    ensures
        0 <= k < nodes.len(),
        settled_all(nodes)[i] == settled(nodes[k]),
    decreases nodes.len(),
{
    let front = nodes.drop_last();
    if i < settled_all(front).len() {
        lemma_settled_all_from(front, i)
    } else {
        nodes.len() - 1
    }
}

/// An element without a place among the leaves is read back as it was.
proof fn lemma_leaf_kept(nodes: Seq<Node>, leaf: u64, mv: MovesModel, other: u64, bytes: Seq<u8>)
    requires
        holds_bytes(nodes, other, bytes),
        other != leaf,
        other != id::CRC32 && other != id::VOID,
    ensures
        holds_bytes(settled_children(nodes.map_values(|e: Node| leaf_moved(e, leaf, mv))), other, bytes),
{
    let moved = nodes.map_values(|e: Node| leaf_moved(e, leaf, mv));
    let k = choose|k: int| 0 <= k < nodes.len() && is_leaf(#[trigger] nodes[k], other, bytes);
    assert(moved[k] == nodes[k]);
    lemma_settled_keeps(moved, k);
    let after = settled_children(moved);
    let i = choose|i: int| 0 <= i < after.len() && after[i] == settled(moved[k]);
    assert(is_leaf(after[i], other, bytes));
}

/// A position is read back moved.
proof fn lemma_position_moved(nodes: Seq<Node>, leaf: u64, mv: MovesModel, p: u64)
    requires
        holds_position(nodes, leaf, p),
        leaf != id::CRC32 && leaf != id::VOID,
    ensures
        holds_position(settled_children(nodes.map_values(|e: Node| leaf_moved(e, leaf, mv))), leaf, mv.place(p)),
{
    let moved = nodes.map_values(|e: Node| leaf_moved(e, leaf, mv));
    let k = choose|k: int| 0 <= k < nodes.len() && says(#[trigger] nodes[k], leaf, p);
    assert(moved[k] == Node::leaf(leaf, uint_data(mv.place(p))));
    lemma_settled_keeps(moved, k);
    law_uint_reads_back(mv.place(p));
    let after = settled_children(moved);
    let i = choose|i: int| 0 <= i < after.len() && after[i] == settled(moved[k]);
    assert(says(after[i], leaf, mv.place(p)));
}

/// A position that is read back was one that has been moved.
proof fn lemma_position_from(nodes: Seq<Node>, leaf: u64, mv: MovesModel, q: u64) -> (p: u64)
    requires
        holds_position(settled_children(nodes.map_values(|e: Node| leaf_moved(e, leaf, mv))), leaf, q),
        leaf != id::CRC32 && leaf != id::VOID,
    ensures
        holds_position(nodes, leaf, p),
        q == mv.place(p),
{
    let moved = nodes.map_values(|e: Node| leaf_moved(e, leaf, mv));
    let after = settled_children(moved);
    let i = choose|i: int| 0 <= i < after.len() && says(#[trigger] after[i], leaf, q);
    let k = lemma_settled_from(moved, i);
    assert(moved[k] == leaf_moved(nodes[k], leaf, mv));
    let p = uint_of(nodes[k].bytes());
    law_uint_reads_back(mv.place(p));
    assert(says(nodes[k], leaf, p));
    p
}

/// A position in a SeekHead that is read back was one that has been moved.
proof fn lemma_sought_from(n: Node, mv: MovesModel, q: u64) -> (p: u64)
    requires
        n is Master,
        sought(settled(seek_head_moved(n, mv)).children(), q),
    ensures
        sought(n.children(), p),
        q == mv.place(p),
{
    let entries = n.children();
    let moved = entries.map_values(|e: Node| seek_moved(e, mv));
    let after = settled(seek_head_moved(n, mv)).children();
    assert(after == settled_children(moved));
    let i = choose|i: int| 0 <= i < after.len() && seek_of(#[trigger] after[i], q);
    let k = lemma_settled_from(moved, i);
    let e = entries[k];
    assert(moved[k] == seek_moved(e, mv));
    assert(e.id() == id::SEEK);
    assert(e is Master);
    let p = lemma_position_from(e.children(), id::SEEK_POSITION, mv, q);
    assert(seek_of(entries[k], p));
    p
}

/// A position in a Cues element that is read back was one that has been moved.
proof fn lemma_cued_from(n: Node, mv: MovesModel, q: u64) -> (p: u64)
    requires
        n is Master,
        cued(settled(cues_moved(n, mv)).children(), q),
    ensures
        cued(n.children(), p),
        q == mv.place(p),
{
    let points = n.children();
    let moved = points.map_values(|e: Node| cue_moved(e, mv));
    let after = settled(cues_moved(n, mv)).children();
    assert(after == settled_children(moved));
    let i = choose|i: int| 0 <= i < after.len() && cue_point(#[trigger] after[i], q);
    let k = lemma_settled_from(moved, i);
    let e = points[k];
    assert(moved[k] == cue_moved(e, mv));
    assert(e.id() == id::CUE_POINT);
    assert(e is Master);
    let inner = e.children().map_values(|t: Node| track_positions_moved(t, mv));
    assert(after[i].children() == settled_children(inner));
    let u = choose|u: int| 0 <= u < after[i].children().len() && cue_track(#[trigger] after[i].children()[u], q);
    let t = lemma_settled_from(inner, u);
    let track = e.children()[t];
    assert(inner[t] == track_positions_moved(track, mv));
    assert(track.id() == id::CUE_TRACK_POSITIONS);
    assert(track is Master);
    let p = lemma_position_from(track.children(), id::CUE_CLUSTER_POSITION, mv, q);
    assert(cue_track(e.children()[t], p));
    assert(cue_point(points[k], p));
    p
}

/// An entry of a SeekHead is read back with its position moved.
proof fn lemma_seeks_moved(n: Node, mv: MovesModel, name: Seq<u8>, p: u64)
    requires
        n is Master,
        seeks(n.children(), name, p),
    ensures
        seeks(settled(seek_head_moved(n, mv)).children(), name, mv.place(p)),
{
    let entries = n.children();
    let k = choose|k: int| 0 <= k < entries.len() && seek_entry(#[trigger] entries[k], name, p);
    let e = entries[k];
    let moved = entries.map_values(|e: Node| seek_moved(e, mv));
    assert(moved[k] == leaves_moved(e, id::SEEK_POSITION, mv));
    lemma_leaf_kept(e.children(), id::SEEK_POSITION, mv, id::SEEK_ID, name);
    lemma_position_moved(e.children(), id::SEEK_POSITION, mv, p);
    assert(seek_entry(settled(moved[k]), name, mv.place(p)));
    lemma_settled_keeps(moved, k);
    let after = settled(seek_head_moved(n, mv)).children();
    assert(after == settled_children(moved));
    let i = choose|i: int| 0 <= i < after.len() && after[i] == settled(moved[k]);
    assert(seek_entry(after[i], name, mv.place(p)));
}

/// A cue point is read back with its position moved.
proof fn lemma_cued_moved(n: Node, mv: MovesModel, p: u64)
    requires
        n is Master,
        cued(n.children(), p),
    ensures
        cued(settled(cues_moved(n, mv)).children(), mv.place(p)),
{
    let points = n.children();
    let k = choose|k: int| 0 <= k < points.len() && cue_point(#[trigger] points[k], p);
    let e = points[k];
    let t = choose|t: int| 0 <= t < e.children().len() && cue_track(#[trigger] e.children()[t], p);
    let track = e.children()[t];
    let moved = points.map_values(|e: Node| cue_moved(e, mv));
    let inner = e.children().map_values(|t: Node| track_positions_moved(t, mv));
    assert(moved[k] == e.with_children(inner));
    assert(inner[t] == leaves_moved(track, id::CUE_CLUSTER_POSITION, mv));
    lemma_position_moved(track.children(), id::CUE_CLUSTER_POSITION, mv, p);
    assert(cue_track(settled(inner[t]), mv.place(p)));
    lemma_settled_keeps(inner, t);
    let point = settled(moved[k]);
    assert(point.children() == settled_children(inner));
    let u = choose|u: int| 0 <= u < point.children().len() && point.children()[u] == settled(inner[t]);
    assert(cue_track(point.children()[u], mv.place(p)));
    assert(cue_point(point, mv.place(p)));
    lemma_settled_keeps(moved, k);
    let after = settled(cues_moved(n, mv)).children();
    assert(after == settled_children(moved));
    let i = choose|i: int| 0 <= i < after.len() && after[i] == point;
    assert(cue_point(after[i], mv.place(p)));
}

/// What a child was planned to become.
pub proof fn lemma_child_plan(
    file: Seq<u8>,
    path: PathModel,
    modified: Option<Timestamp>,
    m: MkvModel,
    tracks: Node,
    new: Seq<u8>,
    i: int,
)
    requires
        rewrite_done(file, path, modified, m, tracks, new),
        0 <= i < old_children(file, m).len(),
        old_children(file, m)[i].id != id::TRACKS,
    ensures
        ({
            let c = old_children(file, m)[i];
            &&& plan_of(file_source(file), c, false, element_bytes(id::TRACKS, payload(tracks))) == Ok::<
                PlanModel,
                Seq<char>,
            >(rewrite_plans(file, m, tracks)[i])
            &&& c.end_at() <= file.len() <= u64::MAX
            &&& clipped(file, c.data_at(), c.size as int) == body_of(file, c)
        }),
{
    let src = file_source(file);
    let old = old_children(file, m);
    lemma_rewrite_done(file, path, modified, m, tracks, new);
    lemma_rewrite_opened(file, path, modified, m, tracks, new);
    lemma_tiles_within(old, m.segment_data_start, m.segment_end, i);
    lemma_plans(
        src,
        old,
        m.tracks_idx as int,
        element_bytes(id::TRACKS, payload(tracks)),
        0,
        rewrite_plans(file, m, tracks),
    );
    assert(clipped(file, old[i].data_at(), old[i].size as int) =~= body_of(file, old[i]));
}

/// What stands in the new file for a child.
pub proof fn lemma_child_body(
    file: Seq<u8>,
    path: PathModel,
    modified: Option<Timestamp>,
    m: MkvModel,
    tracks: Node,
    new: Seq<u8>,
    i: int,
)
    requires
        rewrite_done(file, path, modified, m, tracks, new),
        0 <= i < old_children(file, m).len(),
    ensures
        ({
            let c = old_children(file, m)[i];
            let kid = new_children(file, m, tracks)[i];
            let bytes = new_bytes(file, m, tracks, i);
            &&& body_of(new, kid) == bytes.skip(head_len(bytes) as int)
            &&& kid.id == c.id
            &&& kid.start == m.segment_start + 12 + new_places(file, m, tracks)[i]
            &&& child_kept(
                file,
                c,
                rewrite_plans(file, m, tracks)[i],
                rewrite_moves(file, m, tracks),
                new_places(file, m, tracks)[i],
                bytes,
            )
        }),
{
    let kid = new_children(file, m, tracks)[i];
    let bytes = new_bytes(file, m, tracks, i);
    lemma_rewrite_opened(file, path, modified, m, tracks, new);
    lemma_new_child(file, path, modified, m, tracks, new, i);
    assert(new.subrange(kid.start as int, kid.end_at()) == bytes);
    assert(body_of(new, kid) =~= bytes.skip(head_len(bytes) as int));
}

/// A position that was that of a child is that of the child in the new file.
pub proof fn lemma_target(
    file: Seq<u8>,
    path: PathModel,
    modified: Option<Timestamp>,
    m: MkvModel,
    tracks: Node,
    new: Seq<u8>,
    j: int,
    p: u64,
)
    requires
        rewrite_done(file, path, modified, m, tracks, new),
        0 <= j < old_children(file, m).len(),
        m.segment_data_start + p == old_children(file, m)[j].start,
    ensures
        ({
            let kid = new_children(file, m, tracks)[j];
            &&& m.segment_start + 12 + rewrite_moves(file, m, tracks).place(p) == kid.start
            &&& kid.id == old_children(file, m)[j].id
        }),
{
    let src = file_source(file);
    let old = old_children(file, m);
    law_rewrite_keeps_every_child(file, path, modified, m, tracks, new);
    lemma_rewrite_done(file, path, modified, m, tracks, new);
    lemma_rewrite_opened(file, path, modified, m, tracks, new);
    lemma_tiles_within(old, m.segment_data_start, m.segment_end, j);
    law_positions_follow_their_targets(file, path, modified, m, tracks, new, j, p);
    assert(new_children(file, m, tracks)[j].id == old[j].id);
}

/// What a SeekHead or Cues element comes to.
pub proof fn lemma_index_kept(
    file: Seq<u8>,
    c: TopChild,
    new_tracks: Seq<u8>,
    nodes: Seq<Node>,
    plan: PlanModel,
    mv: MovesModel,
    new_rel: u64,
    bytes: Seq<u8>,
)
    requires
        c.id == id::SEEK_HEAD || c.id == id::CUES,
        c.data_at() <= u64::MAX,
        plan_of(file_source(file), c, false, new_tracks) == Ok::<PlanModel, Seq<char>>(plan),
        clipped(file, c.data_at(), c.size as int) == body_of(file, c),
        parsed(body_of(file, c)) == Ok::<Seq<Node>, Seq<char>>(nodes),
        child_kept(file, c, plan, mv, new_rel, bytes),
    ensures
        parsed(bytes.skip(head_len(bytes) as int)) == Ok::<Seq<Node>, Seq<char>>(
            if c.id == id::SEEK_HEAD {
                settled(seek_head_moved(Node::branch(c.id, nodes), mv)).children()
            } else {
                settled(cues_moved(Node::branch(c.id, nodes), mv)).children()
            },
        ),
{
    reveal(child_kept);
}

/// What a cluster with a Position element comes to.
proof fn lemma_cluster_kept(
    file: Seq<u8>,
    c: TopChild,
    new_tracks: Seq<u8>,
    plan: PlanModel,
    mv: MovesModel,
    new_rel: u64,
    bytes: Seq<u8>,
)
    requires
        c.id == id::CLUSTER,
        c.end_at() <= file.len() <= u64::MAX,
        plan_of(file_source(file), c, false, new_tracks) == Ok::<PlanModel, Seq<char>>(plan),
        slot_from(body_of(file, c), 0) is Some,
        child_kept(file, c, plan, mv, new_rel, bytes),
    ensures
        records(bytes.skip(head_len(bytes) as int), new_rel),
{
    lemma_cluster_plan(file, c, new_tracks, 0);
    let slot = slot_from(body_of(file, c), 0)->0;
    assert(plan == (PlanModel::Cluster { slot: Some(slot) }));
    reveal(child_kept);
}

/// A SeekHead entry that named an element and said where it stands still does
/// after a rewrite: the SeekHead of the new file, as it is read back, holds an
/// entry of that name with the position that the element has now.
pub proof fn law_seek_entries_land(
    file: Seq<u8>,
    path: PathModel,
    modified: Option<Timestamp>,
    m: MkvModel,
    tracks: Node,
    new: Seq<u8>,
    i: int,
    j: int,
    entries: Seq<Node>,
    name: Seq<u8>,
    p: u64,
)
    requires
        rewrite_done(file, path, modified, m, tracks, new),
        0 <= i < old_children(file, m).len(),
        old_children(file, m)[i].id == id::SEEK_HEAD,
        parsed(body_of(file, old_children(file, m)[i])) == Ok::<Seq<Node>, Seq<char>>(entries),
        seeks(entries, name, p),
        0 <= j < old_children(file, m).len(),
        m.segment_data_start + p == old_children(file, m)[j].start,
    ensures
        ({
            let kids = new_children(file, m, tracks);
            let q = (kids[j].start - (m.segment_start + 12)) as u64;
            &&& m.segment_start + 12 + q == kids[j].start
            &&& kids[j].id == old_children(file, m)[j].id
            &&& parsed(body_of(new, kids[i])) matches Ok(after) && seeks(after, name, q)
        }),
{
    let c = old_children(file, m)[i];
    let mv = rewrite_moves(file, m, tracks);
    lemma_target(file, path, modified, m, tracks, new, j, p);
    lemma_child_plan(file, path, modified, m, tracks, new, i);
    lemma_child_body(file, path, modified, m, tracks, new, i);
    lemma_index_kept(
        file,
        c,
        element_bytes(id::TRACKS, payload(tracks)),
        entries,
        rewrite_plans(file, m, tracks)[i],
        mv,
        new_places(file, m, tracks)[i],
        new_bytes(file, m, tracks, i),
    );
    let n = Node::branch(c.id, entries);
    lemma_seeks_moved(n, mv, name, p);
}

/// A cue that said where a cluster stands still does after a rewrite.
pub proof fn law_cues_land(
    file: Seq<u8>,
    path: PathModel,
    modified: Option<Timestamp>,
    m: MkvModel,
    tracks: Node,
    new: Seq<u8>,
    i: int,
    j: int,
    points: Seq<Node>,
    p: u64,
)
    requires
        rewrite_done(file, path, modified, m, tracks, new),
        0 <= i < old_children(file, m).len(),
        old_children(file, m)[i].id == id::CUES,
        parsed(body_of(file, old_children(file, m)[i])) == Ok::<Seq<Node>, Seq<char>>(points),
        cued(points, p),
        0 <= j < old_children(file, m).len(),
        m.segment_data_start + p == old_children(file, m)[j].start,
    ensures
        ({
            let kids = new_children(file, m, tracks);
            let q = (kids[j].start - (m.segment_start + 12)) as u64;
            &&& m.segment_start + 12 + q == kids[j].start
            &&& kids[j].id == old_children(file, m)[j].id
            &&& parsed(body_of(new, kids[i])) matches Ok(after) && cued(after, q)
        }),
{
    let c = old_children(file, m)[i];
    let mv = rewrite_moves(file, m, tracks);
    lemma_target(file, path, modified, m, tracks, new, j, p);
    lemma_child_plan(file, path, modified, m, tracks, new, i);
    lemma_child_body(file, path, modified, m, tracks, new, i);
    lemma_index_kept(
        file,
        c,
        element_bytes(id::TRACKS, payload(tracks)),
        points,
        rewrite_plans(file, m, tracks)[i],
        mv,
        new_places(file, m, tracks)[i],
        new_bytes(file, m, tracks, i),
    );
    let n = Node::branch(c.id, points);
    lemma_cued_moved(n, mv, p);
}

/// Where every position in a SeekHead was that of a child, every position in the
/// SeekHead of the new file is that of a child there.
pub proof fn law_every_seek_position_lands(
    file: Seq<u8>,
    path: PathModel,
    modified: Option<Timestamp>,
    m: MkvModel,
    tracks: Node,
    new: Seq<u8>,
    i: int,
    entries: Seq<Node>,
)
    requires
        rewrite_done(file, path, modified, m, tracks, new),
        0 <= i < old_children(file, m).len(),
        old_children(file, m)[i].id == id::SEEK_HEAD,
        parsed(body_of(file, old_children(file, m)[i])) == Ok::<Seq<Node>, Seq<char>>(entries),
        forall|p: u64| #[trigger]
            sought(entries, p) ==> lands(old_children(file, m), m.segment_data_start as int, p),
    ensures
        ({
            let kids = new_children(file, m, tracks);
            parsed(body_of(new, kids[i])) matches Ok(after) && forall|q: u64| #[trigger]
                sought(after, q) ==> lands(kids, m.segment_start + 12, q)
        }),
{
    let c = old_children(file, m)[i];
    let mv = rewrite_moves(file, m, tracks);
    let old = old_children(file, m);
    let kids = new_children(file, m, tracks);
    lemma_child_plan(file, path, modified, m, tracks, new, i);
    lemma_child_body(file, path, modified, m, tracks, new, i);
    lemma_index_kept(
        file,
        c,
        element_bytes(id::TRACKS, payload(tracks)),
        entries,
        rewrite_plans(file, m, tracks)[i],
        mv,
        new_places(file, m, tracks)[i],
        new_bytes(file, m, tracks, i),
    );
    let n = Node::branch(c.id, entries);
    let after = parsed(body_of(new, kids[i]))->Ok_0;
    assert forall|q: u64| #[trigger] sought(after, q) implies lands(kids, m.segment_start + 12, q) by {
        let p = lemma_sought_from(n, mv, q);
        assert(sought(entries, p));
        let j = choose|j: int| 0 <= j < old.len() && (#[trigger] old[j]).start == m.segment_data_start + p;
        lemma_target(file, path, modified, m, tracks, new, j, p);
        assert(kids[j].start == m.segment_start + 12 + q);
    }
}

/// Where every cluster position in a Cues element was that of a child, every one
/// in the Cues element of the new file is that of a child there.
pub proof fn law_every_cue_position_lands(
    file: Seq<u8>,
    path: PathModel,
    modified: Option<Timestamp>,
    m: MkvModel,
    tracks: Node,
    new: Seq<u8>,
    i: int,
    points: Seq<Node>,
)
    requires
        rewrite_done(file, path, modified, m, tracks, new),
        0 <= i < old_children(file, m).len(),
        old_children(file, m)[i].id == id::CUES,
        parsed(body_of(file, old_children(file, m)[i])) == Ok::<Seq<Node>, Seq<char>>(points),
        forall|p: u64| #[trigger]
            cued(points, p) ==> lands(old_children(file, m), m.segment_data_start as int, p),
    ensures
        ({
            let kids = new_children(file, m, tracks);
            parsed(body_of(new, kids[i])) matches Ok(after) && forall|q: u64| #[trigger]
                cued(after, q) ==> lands(kids, m.segment_start + 12, q)
        }),
{
    let c = old_children(file, m)[i];
    let mv = rewrite_moves(file, m, tracks);
    let old = old_children(file, m);
    let kids = new_children(file, m, tracks);
    lemma_child_plan(file, path, modified, m, tracks, new, i);
    lemma_child_body(file, path, modified, m, tracks, new, i);
    lemma_index_kept(
        file,
        c,
        element_bytes(id::TRACKS, payload(tracks)),
        points,
        rewrite_plans(file, m, tracks)[i],
        mv,
        new_places(file, m, tracks)[i],
        new_bytes(file, m, tracks, i),
    );
    let n = Node::branch(c.id, points);
    let after = parsed(body_of(new, kids[i]))->Ok_0;
    assert forall|q: u64| #[trigger] cued(after, q) implies lands(kids, m.segment_start + 12, q) by {
        let p = lemma_cued_from(n, mv, q);
        assert(cued(points, p));
        let j = choose|j: int| 0 <= j < old.len() && (#[trigger] old[j]).start == m.segment_data_start + p;
        lemma_target(file, path, modified, m, tracks, new, j, p);
        assert(kids[j].start == m.segment_start + 12 + q);
    }
}

/// A cluster that recorded a position records after a rewrite the position that
/// it has now, wherever in its payload the Position element stands.
pub proof fn law_cluster_records_its_position(
    file: Seq<u8>,
    path: PathModel,
    modified: Option<Timestamp>,
    m: MkvModel,
    tracks: Node,
    new: Seq<u8>,
    i: int,
)
    requires
        rewrite_done(file, path, modified, m, tracks, new),
        0 <= i < old_children(file, m).len(),
        old_children(file, m)[i].id == id::CLUSTER,
        slot_from(body_of(file, old_children(file, m)[i]), 0) is Some,
    ensures
        ({
            let kid = new_children(file, m, tracks)[i];
            &&& kid.id == id::CLUSTER
            &&& m.segment_start + 12 <= kid.start
            &&& records(body_of(new, kid), (kid.start - (m.segment_start + 12)) as u64)
        }),
{
    lemma_child_plan(file, path, modified, m, tracks, new, i);
    lemma_child_body(file, path, modified, m, tracks, new, i);
    lemma_cluster_kept(
        file,
        old_children(file, m)[i],
        element_bytes(id::TRACKS, payload(tracks)),
        rewrite_plans(file, m, tracks)[i],
        rewrite_moves(file, m, tracks),
        new_places(file, m, tracks)[i],
        new_bytes(file, m, tracks, i),
    );
}

} // verus!
