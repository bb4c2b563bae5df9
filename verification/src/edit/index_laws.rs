//! What a rewrite leaves of each child of the Segment.

use vstd::prelude::*;

use crate::ebml::id;
#[allow(unused_imports)]
use crate::ebml::laws::{settled, settled_all, settled_children};
#[allow(unused_imports)]
use crate::ebml::node::{element_bytes, has_checksum, left_out, parsed, payload, Node};
#[allow(unused_imports)]
use crate::ebml::value::{law_uint_reads_back, uint_of};
#[allow(unused_imports)]
use crate::edit::landing::{body_of, lemma_child_body, lemma_child_plan, lemma_index_kept};
#[allow(unused_imports)]
use crate::edit::layout::PlanModel;
#[allow(unused_imports)]
use crate::edit::load::lemma_cluster_plan;
#[allow(unused_imports)]
use crate::edit::piece::slot_from;
#[allow(unused_imports)]
use crate::edit::remap::{
    cue_moved, cues_moved, leaf_moved, leaves_moved, seek_head_moved, seek_moved, track_positions_moved, MovesModel,
};
#[allow(unused_imports)]
use crate::edit::rewritten::{
    child_kept, head_len, law_positions_follow_their_targets, lemma_new_child, lemma_rewrite_opened, new_bytes,
    new_children, new_places, old_children, rewrite_done, rewrite_moves, rewrite_plans,
};
#[allow(unused_imports)]
use crate::edit::stands::{is_element, lemma_child_is_element};
#[allow(unused_imports)]
use crate::mkv::child::TopChild;
use crate::mkv::file::Timestamp;
#[allow(unused_imports)]
use crate::mkv::file::{MkvModel, PathModel};
#[allow(unused_imports)]
use crate::mkv::source::file_source;
#[allow(unused_imports)]
use crate::mkv::listed::lemma_walk_found;

verus! {

// ---------------------------------------------------------------------------
// Trees that are the same
// ---------------------------------------------------------------------------

/// The elements that are neither padding nor a checksum, in order.
pub open spec fn solid(nodes: Seq<Node>) -> Seq<Node> {
    nodes.filter(|n: Node| n.id() != 0xEC && n.id() != 0xBF)
}

/// What an element says: its ID and its bytes or children, at any depth, but for
/// padding and checksums among these.
pub open spec fn tidy(n: Node) -> Node
    decreases n, 1nat,
{
    match n {
        Node::Master { id, children, .. } => Node::Master { id, width: 0, children: tidy_all(children) },
        Node::Data { id, bytes, .. } => Node::Data { id, width: 0, bytes },
    }
}

/// What each element says that is neither padding nor a checksum.
pub open spec fn tidy_all(nodes: Seq<Node>) -> Seq<Node>
    decreases nodes, 0nat,
{
    if nodes.len() == 0 {
        Seq::empty()
    } else if nodes.last().id() == 0xEC || nodes.last().id() == 0xBF {
        tidy_all(nodes.drop_last())
    } else {
        tidy_all(nodes.drop_last()).push(tidy(nodes.last()))
    }
}

/// Whether two lists have as many elements, but for padding and checksums, and
/// each is related to the one in its place.
pub open spec fn matched(a: Seq<Node>, b: Seq<Node>, related: spec_fn(Node, Node) -> bool) -> bool {
    &&& solid(a).len() == solid(b).len()
    &&& forall|k: int| 0 <= k < solid(a).len() ==> related(solid(a)[k], #[trigger] solid(b)[k])
}

/// What is written and read back says the same.
pub proof fn lemma_settled_tidy(n: Node)
    ensures
        tidy(settled(n)) == tidy(n),
    decreases n, 1nat,
{
    if let Node::Master { id, width, children } = n {
        lemma_settled_all_tidy(children);
        let all = settled_all(children);
        if has_checksum(children) {
            let first = crate::ebml::laws::checksum_of(crate::ebml::node::encoded_all(children));
            lemma_tidy_behind(first, all);
        }
    }
}

proof fn lemma_settled_all_tidy(nodes: Seq<Node>)
    ensures
        tidy_all(settled_all(nodes)) == tidy_all(nodes),
    decreases nodes, 0nat,
{
    if nodes.len() > 0 {
        lemma_settled_all_tidy(nodes.drop_last());
        if !left_out(nodes.last()) {
            lemma_settled_tidy(nodes.last());
            let all = settled_all(nodes);
            assert(all.drop_last() =~= settled_all(nodes.drop_last()));
            assert(all.last() == settled(nodes.last()));
        }
    }
}

/// A checksum in front adds nothing.
proof fn lemma_tidy_behind(first: Node, rest: Seq<Node>)
    requires
        first.id() == 0xBF,
    ensures
        tidy_all(seq![first] + rest) == tidy_all(rest),
    decreases rest.len(),
{
    let all = seq![first] + rest;
    if rest.len() == 0 {
        assert(all.drop_last() =~= Seq::<Node>::empty());
        reveal_with_fuel(tidy_all, 2);
    } else {
        lemma_tidy_behind(first, rest.drop_last());
        assert(all.drop_last() =~= seq![first] + rest.drop_last());
        assert(all.last() == rest.last());
    }
}

/// What is read back of elements is each of them, read back.
proof fn lemma_solid_settled(nodes: Seq<Node>)
    ensures
        solid(settled_children(nodes)).len() == solid(nodes).len(),
        forall|k: int|
            0 <= k < solid(nodes).len() ==> #[trigger] solid(settled_children(nodes))[k] == settled(solid(nodes)[k]),
{
    lemma_solid_settled_all(nodes);
    if has_checksum(nodes) {
        let first = crate::ebml::laws::checksum_of(crate::ebml::node::encoded_all(nodes));
        lemma_solid_behind(first, settled_all(nodes));
    }
}

proof fn lemma_solid_settled_all(nodes: Seq<Node>)
    ensures
        solid(settled_all(nodes)).len() == solid(nodes).len(),
        forall|k: int|
            0 <= k < solid(nodes).len() ==> #[trigger] solid(settled_all(nodes))[k] == settled(solid(nodes)[k]),
    decreases nodes.len(),
{
    reveal(Seq::filter);
    if nodes.len() > 0 {
        lemma_solid_settled_all(nodes.drop_last());
        if !left_out(nodes.last()) {
            let all = settled_all(nodes);
            assert(all.drop_last() =~= settled_all(nodes.drop_last()));
            assert(all.last() == settled(nodes.last()));
            assert(all.last().id() == nodes.last().id());
        }
    }
}

proof fn lemma_solid_behind(first: Node, rest: Seq<Node>)
    requires
        first.id() == 0xBF,
    ensures
        solid(seq![first] + rest) == solid(rest),
    decreases rest.len(),
{
    reveal(Seq::filter);
    let all = seq![first] + rest;
    if rest.len() == 0 {
        assert(all.drop_last() =~= Seq::<Node>::empty());
        assert(all.last() == first);
        assert(solid(Seq::<Node>::empty()) =~= Seq::<Node>::empty());
        assert(rest =~= Seq::<Node>::empty());
    } else {
        lemma_solid_behind(first, rest.drop_last());
        assert(all.drop_last() =~= seq![first] + rest.drop_last());
        assert(all.last() == rest.last());
    }
}

/// Changing elements without changing their IDs.
proof fn lemma_solid_mapped(nodes: Seq<Node>, change: spec_fn(Node) -> Node)
    requires
        forall|n: Node| (#[trigger] change(n)).id() == n.id(),
    ensures
        solid(nodes.map_values(change)).len() == solid(nodes).len(),
        forall|k: int|
            0 <= k < solid(nodes).len() ==> #[trigger] solid(nodes.map_values(change))[k] == change(solid(nodes)[k]),
    decreases nodes.len(),
{
    reveal(Seq::filter);
    let all = nodes.map_values(change);
    if nodes.len() > 0 {
        lemma_solid_mapped(nodes.drop_last(), change);
        assert(all.drop_last() =~= nodes.drop_last().map_values(change));
        assert(all.last() == change(nodes.last()));
    }
}

// ---------------------------------------------------------------------------
// Positions
// ---------------------------------------------------------------------------

/// Whether the position `q` in the new file is the place that `p` was in the old
/// one: the same place in the same child.
pub open spec fn follows(
    old: Seq<TopChild>,
    old_base: int,
    kids: Seq<TopChild>,
    new_base: int,
    p: u64,
    q: u64,
) -> bool {
    forall|j: int|
        0 <= j < old.len() && (#[trigger] old[j]).start <= old_base + p < old[j].end_at() ==> new_base + q
            == kids[j].start + (old_base + p - old[j].start)
}

/// Whether an element is as it was, or says a position that followed its target.
pub open spec fn leaf_same(x: Node, y: Node, leaf: u64, moved: spec_fn(u64, u64) -> bool) -> bool {
    if x.id() == leaf {
        y.id() == leaf && moved(uint_of(x.bytes()), uint_of(y.bytes()))
    } else {
        tidy(y) == tidy(x)
    }
}

/// Whether an element of a SeekHead is as it was, but for the position of an
/// entry.
pub open spec fn seek_same(x: Node, y: Node, moved: spec_fn(u64, u64) -> bool) -> bool {
    if x.id() == id::SEEK {
        &&& y.id() == id::SEEK
        &&& matched(x.children(), y.children(), |l: Node, r: Node| leaf_same(l, r, id::SEEK_POSITION, moved))
    } else {
        tidy(y) == tidy(x)
    }
}

/// Whether an element of a cue point is as it was, but for the position of a
/// cluster.
pub open spec fn cue_track_same(x: Node, y: Node, moved: spec_fn(u64, u64) -> bool) -> bool {
    if x.id() == id::CUE_TRACK_POSITIONS {
        &&& y.id() == id::CUE_TRACK_POSITIONS
        &&& matched(x.children(), y.children(), |l: Node, r: Node| leaf_same(l, r, id::CUE_CLUSTER_POSITION, moved))
    } else {
        tidy(y) == tidy(x)
    }
}

/// Whether an element of a Cues element is as it was, but for the positions of
/// clusters in a cue point.
pub open spec fn cue_same(x: Node, y: Node, moved: spec_fn(u64, u64) -> bool) -> bool {
    if x.id() == id::CUE_POINT {
        &&& y.id() == id::CUE_POINT
        &&& matched(x.children(), y.children(), |l: Node, r: Node| cue_track_same(l, r, moved))
    } else {
        tidy(y) == tidy(x)
    }
}

proof fn lemma_leaves_same(x: Node, leaf: u64, mv: MovesModel, moved: spec_fn(u64, u64) -> bool)
    requires
        x is Master,
        leaf != id::CRC32 && leaf != id::VOID,
        forall|p: u64| moved(p, #[trigger] mv.place(p)),
    ensures
        matched(
            x.children(),
            settled(leaves_moved(x, leaf, mv)).children(),
            |l: Node, r: Node| leaf_same(l, r, leaf, moved),
        ),
{
    let change = |e: Node| leaf_moved(e, leaf, mv);
    let mid = x.children().map_values(change);
    assert(leaves_moved(x, leaf, mv) == x.with_children(mid));
    lemma_solid_mapped(x.children(), change);
    lemma_solid_settled(mid);
    let a = solid(x.children());
    let b = solid(settled_children(mid));
    assert forall|k: int| 0 <= k < a.len() implies leaf_same(a[k], #[trigger] b[k], leaf, moved) by {
        assert(b[k] == settled(solid(mid)[k]));
        assert(solid(mid)[k] == leaf_moved(a[k], leaf, mv));
        if a[k].id() == leaf {
            let p = uint_of(a[k].bytes());
            law_uint_reads_back(mv.place(p));
            assert(moved(p, mv.place(p)));
        } else {
            lemma_settled_tidy(a[k]);
        }
    }
}

proof fn lemma_seek_head_same(n: Node, mv: MovesModel, moved: spec_fn(u64, u64) -> bool)
    requires
        n is Master,
        forall|p: u64| moved(p, #[trigger] mv.place(p)),
    ensures
        matched(
            n.children(),
            settled(seek_head_moved(n, mv)).children(),
            |l: Node, r: Node| seek_same(l, r, moved),
        ),
{
    let change = |e: Node| seek_moved(e, mv);
    let mid = n.children().map_values(change);
    lemma_solid_mapped(n.children(), change);
    lemma_solid_settled(mid);
    let a = solid(n.children());
    let b = solid(settled_children(mid));
    assert forall|k: int| 0 <= k < a.len() implies seek_same(a[k], #[trigger] b[k], moved) by {
        assert(b[k] == settled(solid(mid)[k]));
        assert(solid(mid)[k] == seek_moved(a[k], mv));
        if a[k].id() == id::SEEK {
            if a[k] is Master {
                lemma_leaves_same(a[k], id::SEEK_POSITION, mv, moved);
            } else {
                reveal(Seq::filter);
                assert(b[k].children() =~= a[k].children());
                assert(a[k].children() =~= Seq::<Node>::empty());
            }
        } else {
            lemma_settled_tidy(a[k]);
        }
    }
}

proof fn lemma_cue_point_same(x: Node, mv: MovesModel, moved: spec_fn(u64, u64) -> bool)
    requires
        x is Master,
        x.id() == id::CUE_POINT,
        forall|p: u64| moved(p, #[trigger] mv.place(p)),
    ensures
        matched(
            x.children(),
            settled(cue_moved(x, mv)).children(),
            |l: Node, r: Node| cue_track_same(l, r, moved),
        ),
{
    let change = |t: Node| track_positions_moved(t, mv);
    let mid = x.children().map_values(change);
    lemma_solid_mapped(x.children(), change);
    lemma_solid_settled(mid);
    let a = solid(x.children());
    let b = solid(settled_children(mid));
    assert forall|k: int| 0 <= k < a.len() implies cue_track_same(a[k], #[trigger] b[k], moved) by {
        assert(b[k] == settled(solid(mid)[k]));
        assert(solid(mid)[k] == track_positions_moved(a[k], mv));
        if a[k].id() == id::CUE_TRACK_POSITIONS {
            if a[k] is Master {
                lemma_leaves_same(a[k], id::CUE_CLUSTER_POSITION, mv, moved);
            } else {
                reveal(Seq::filter);
                assert(b[k].children() =~= a[k].children());
                assert(a[k].children() =~= Seq::<Node>::empty());
            }
        } else {
            lemma_settled_tidy(a[k]);
        }
    }
}

proof fn lemma_cues_same(n: Node, mv: MovesModel, moved: spec_fn(u64, u64) -> bool)
    requires
        n is Master,
        forall|p: u64| moved(p, #[trigger] mv.place(p)),
    ensures
        matched(n.children(), settled(cues_moved(n, mv)).children(), |l: Node, r: Node| cue_same(l, r, moved)),
{
    let change = |e: Node| cue_moved(e, mv);
    let mid = n.children().map_values(change);
    lemma_solid_mapped(n.children(), change);
    lemma_solid_settled(mid);
    let a = solid(n.children());
    let b = solid(settled_children(mid));
    assert forall|k: int| 0 <= k < a.len() implies cue_same(a[k], #[trigger] b[k], moved) by {
        assert(b[k] == settled(solid(mid)[k]));
        assert(solid(mid)[k] == cue_moved(a[k], mv));
        if a[k].id() == id::CUE_POINT {
            if a[k] is Master {
                lemma_cue_point_same(a[k], mv, moved);
            } else {
                reveal(Seq::filter);
                assert(b[k].children() =~= a[k].children());
                assert(a[k].children() =~= Seq::<Node>::empty());
            }
        } else {
            lemma_settled_tidy(a[k]);
        }
    }
}

/// How positions move in a rewrite.
pub open spec fn rewrite_follows(file: Seq<u8>, m: MkvModel, tracks: Node) -> spec_fn(u64, u64) -> bool {
    |p: u64, q: u64|
        follows(
            old_children(file, m),
            m.segment_data_start as int,
            new_children(file, m, tracks),
            m.segment_start + 12,
            p,
            q,
        )
}

proof fn lemma_rewrite_follows(
    file: Seq<u8>,
    path: PathModel,
    modified: Option<Timestamp>,
    m: MkvModel,
    tracks: Node,
    new: Seq<u8>,
)
    requires
        rewrite_done(file, path, modified, m, tracks, new),
    ensures
        forall|p: u64| rewrite_follows(file, m, tracks)(p, #[trigger] rewrite_moves(file, m, tracks).place(p)),
{
    let old = old_children(file, m);
    let kids = new_children(file, m, tracks);
    let mv = rewrite_moves(file, m, tracks);
    assert forall|p: u64| rewrite_follows(file, m, tracks)(p, #[trigger] mv.place(p)) by {
        assert forall|j: int|
            0 <= j < old.len() && (#[trigger] old[j]).start <= m.segment_data_start + p < old[j].end_at() implies
            m.segment_start + 12 + mv.place(p) == kids[j].start + (m.segment_data_start + p - old[j].start) by {
            law_positions_follow_their_targets(file, path, modified, m, tracks, new, j, p);
        }
    }
}

/// After a rewrite a SeekHead has the entries that it had, in their order, and
/// each of them all that it said, its name above all. Only its positions differ,
/// and each says the place in the new file that it said in the old one.
pub proof fn law_seek_head_keeps_all_but_positions(
    file: Seq<u8>,
    path: PathModel,
    modified: Option<Timestamp>,
    m: MkvModel,
    tracks: Node,
    new: Seq<u8>,
    i: int,
    entries: Seq<Node>,
)
    requires
        rewrite_done(file, path, modified, m, tracks, new),
        0 <= i < old_children(file, m).len(),
        old_children(file, m)[i].id == id::SEEK_HEAD,
        parsed(body_of(file, old_children(file, m)[i])) == Ok::<Seq<Node>, Seq<char>>(entries),
    ensures
        parsed(body_of(new, new_children(file, m, tracks)[i])) matches Ok(after) && matched(
            entries,
            after,
            |x: Node, y: Node| seek_same(x, y, rewrite_follows(file, m, tracks)),
        ),
{
    let c = old_children(file, m)[i];
    let mv = rewrite_moves(file, m, tracks);
    lemma_rewrite_follows(file, path, modified, m, tracks, new);
    lemma_child_plan(file, path, modified, m, tracks, new, i);
    lemma_child_body(file, path, modified, m, tracks, new, i);
    lemma_index_kept(
        file,
        c,
        element_bytes(id::TRACKS, payload(tracks)),
        entries,
        rewrite_plans(file, m, tracks)[i],
        mv,
        new_places(file, m, tracks)[i],
        new_bytes(file, m, tracks, i),
    );
    lemma_seek_head_same(Node::branch(c.id, entries), mv, rewrite_follows(file, m, tracks));
}

/// After a rewrite a Cues element has the cue points that it had, in their order,
/// and each of them all that it said: its time, its track and the rest. Only the
/// positions of clusters differ, and each says the place in the new file that it
/// said in the old one; so every time stays with the cluster that it named.
pub proof fn law_cues_keep_all_but_positions(
    file: Seq<u8>,
    path: PathModel,
    modified: Option<Timestamp>,
    m: MkvModel,
    tracks: Node,
    new: Seq<u8>,
    i: int,
    points: Seq<Node>,
)
    requires
        rewrite_done(file, path, modified, m, tracks, new),
        0 <= i < old_children(file, m).len(),
        old_children(file, m)[i].id == id::CUES,
        parsed(body_of(file, old_children(file, m)[i])) == Ok::<Seq<Node>, Seq<char>>(points),
    ensures
        parsed(body_of(new, new_children(file, m, tracks)[i])) matches Ok(after) && matched(
            points,
            after,
            |x: Node, y: Node| cue_same(x, y, rewrite_follows(file, m, tracks)),
        ),
{
    let c = old_children(file, m)[i];
    let mv = rewrite_moves(file, m, tracks);
    lemma_rewrite_follows(file, path, modified, m, tracks, new);
    lemma_child_plan(file, path, modified, m, tracks, new, i);
    lemma_child_body(file, path, modified, m, tracks, new, i);
    lemma_index_kept(
        file,
        c,
        element_bytes(id::TRACKS, payload(tracks)),
        points,
        rewrite_plans(file, m, tracks)[i],
        mv,
        new_places(file, m, tracks)[i],
        new_bytes(file, m, tracks, i),
    );
    lemma_cues_same(Node::branch(c.id, points), mv, rewrite_follows(file, m, tracks));
}

// ---------------------------------------------------------------------------
// The other children
// ---------------------------------------------------------------------------

/// After a rewrite every child that is not Tracks and holds no positions is there
/// byte for byte, whatever it is.
pub proof fn law_other_children_are_copied(
    file: Seq<u8>,
    path: PathModel,
    modified: Option<Timestamp>,
    m: MkvModel,
    tracks: Node,
    new: Seq<u8>,
    i: int,
)
    requires
        rewrite_done(file, path, modified, m, tracks, new),
        0 <= i < old_children(file, m).len(),
        old_children(file, m)[i].id != id::TRACKS,
        old_children(file, m)[i].id != id::SEEK_HEAD,
        old_children(file, m)[i].id != id::CUES,
        old_children(file, m)[i].id != id::CLUSTER,
    ensures
        ({
            let c = old_children(file, m)[i];
            let kid = new_children(file, m, tracks)[i];
            &&& kid.id == c.id
            &&& new.subrange(kid.start as int, kid.end_at()) == file.subrange(c.start as int, c.end_at())
        }),
{
    lemma_child_plan(file, path, modified, m, tracks, new, i);
    lemma_new_child(file, path, modified, m, tracks, new, i);
    lemma_child_body(file, path, modified, m, tracks, new, i);
    let c = old_children(file, m)[i];
    assert(rewrite_plans(file, m, tracks)[i] == PlanModel::Copy);
    reveal(child_kept);
}

/// After a rewrite a cluster holds what it held, byte for byte, before its
/// Position element and behind it; one without a Position element is there byte
/// for byte.
pub proof fn law_clusters_keep_all_but_their_position(
    file: Seq<u8>,
    path: PathModel,
    modified: Option<Timestamp>,
    m: MkvModel,
    tracks: Node,
    new: Seq<u8>,
    i: int,
)
    requires
        rewrite_done(file, path, modified, m, tracks, new),
        0 <= i < old_children(file, m).len(),
        old_children(file, m)[i].id == id::CLUSTER,
    ensures
        ({
            let old = body_of(file, old_children(file, m)[i]);
            let body = body_of(new, new_children(file, m, tracks)[i]);
            match slot_from(old, 0) {
                None => body == old,
                Some(slot) => {
                    &&& slot_from(body, 0) matches Some(at) && {
                        &&& at.off == slot.off
                        &&& body.take(at.off as int) == old.take(slot.off as int)
                        &&& body.skip(at.off + at.header_len + at.size) == old.skip(
                            slot.off + slot.header_len + slot.size,
                        )
                    }
                },
            }
        }),
{
    let c = old_children(file, m)[i];
    let new_tracks = element_bytes(id::TRACKS, payload(tracks));
    lemma_child_plan(file, path, modified, m, tracks, new, i);
    lemma_child_body(file, path, modified, m, tracks, new, i);
    lemma_cluster_plan(file, c, new_tracks, 0);
    lemma_rewrite_opened(file, path, modified, m, tracks, new);
    lemma_walk_found(file_source(file), m.segment_data_start, m.segment_end, false, false, i);
    lemma_child_is_element(file, c, m.segment_end);
    lemma_cluster_kept_whole(
        file,
        c,
        rewrite_plans(file, m, tracks)[i],
        rewrite_moves(file, m, tracks),
        new_places(file, m, tracks)[i],
        new_bytes(file, m, tracks, i),
    );
}

proof fn lemma_cluster_kept_whole(
    file: Seq<u8>,
    c: TopChild,
    plan: PlanModel,
    mv: MovesModel,
    new_rel: u64,
    bytes: Seq<u8>,
)
    requires
        c.id == id::CLUSTER,
        c.end_at() <= file.len() <= u64::MAX,
        is_element(file.subrange(c.start as int, c.end_at()), c.id, c.header_len),
        plan == (PlanModel::Cluster { slot: slot_from(body_of(file, c), 0) }),
        child_kept(file, c, plan, mv, new_rel, bytes),
    ensures
        ({
            let old = body_of(file, c);
            let body = bytes.skip(head_len(bytes) as int);
            match slot_from(old, 0) {
                None => body == old,
                Some(slot) => {
                    &&& slot_from(body, 0) matches Some(at) && {
                        &&& at.off == slot.off
                        &&& body.take(at.off as int) == old.take(slot.off as int)
                        &&& body.skip(at.off + at.header_len + at.size) == old.skip(
                            slot.off + slot.header_len + slot.size,
                        )
                    }
                },
            }
        }),
{
    reveal(child_kept);
    if slot_from(body_of(file, c), 0) is None {
        assert(bytes == file.subrange(c.start as int, c.end_at()));
        assert(bytes.skip(head_len(bytes) as int) =~= body_of(file, c));
    }
}

} // verus!
