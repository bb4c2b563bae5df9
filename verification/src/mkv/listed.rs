//! Walks of children that are known.

use vstd::prelude::*;

use crate::ebml::id;
use crate::mkv::child::TopChild;
#[allow(unused_imports)]
use crate::mkv::child::ScanModel;
#[allow(unused_imports)]
use crate::mkv::open::{child_index, lemma_child_index};
#[allow(unused_imports)]
use crate::mkv::source::Source;
#[allow(unused_imports)]
use crate::mkv::walk::{child_at, lemma_child_at, tiled_end, tiles, walked};

verus! {

/// How many of the children a walk of them finds, and how it ends.
pub open spec fn reach(kids: Seq<TopChild>, stop: bool, seen: bool) -> (int, ScanModel)
    decreases kids.len(),
{
    if kids.len() == 0 {
        (0, ScanModel::Complete)
    } else {
        let now_seen = seen || kids[0].id == id::TRACKS;
        if stop && now_seen && kids[0].id == id::CLUSTER {
            (1, ScanModel::StoppedAtClusters)
        } else {
            let (n, scan) = reach(kids.drop_first(), stop, now_seen);
            (n + 1, scan)
        }
    }
}

/// A walk that does not stop reaches all children; one that does reaches the
/// first Tracks element among them.
pub proof fn lemma_reach(kids: Seq<TopChild>, stop: bool, seen: bool)
    ensures
        0 <= reach(kids, stop, seen).0 <= kids.len(),
        !stop ==> reach(kids, stop, seen) == (kids.len() as int, ScanModel::Complete),
        !(reach(kids, stop, seen).1 is Blocked),
        reach(kids, stop, seen).1 is Complete ==> reach(kids, stop, seen).0 == kids.len(),
        !seen && child_index(kids, id::TRACKS, 0) < kids.len() ==> child_index(kids, id::TRACKS, 0)
            < reach(kids, stop, seen).0,
    decreases kids.len(),
{
    if kids.len() > 0 {
        let now_seen = seen || kids[0].id == id::TRACKS;
        if !(stop && now_seen && kids[0].id == id::CLUSTER) {
            lemma_reach(kids.drop_first(), stop, now_seen);
            if kids[0].id != id::TRACKS {
                lemma_child_index_first(kids, id::TRACKS);
            }
        }
    }
}

/// The first child with an ID, when the first child of all is another.
pub proof fn lemma_child_index_first(kids: Seq<TopChild>, id: u64)
    requires
        kids.len() > 0,
        kids[0].id != id,
    ensures
        child_index(kids, id, 0) == 1 + child_index(kids.drop_first(), id, 0),
{
    let rest = kids.drop_first();
    lemma_child_index(kids, id, 0);
    lemma_child_index(rest, id, 0);
    let i = child_index(kids, id, 0);
    let j = child_index(rest, id, 0);
    if i < j + 1 {
        assert(rest[i - 1] == kids[i]);
    }
    if j + 1 < i {
        assert(rest[j] == kids[j + 1]);
    }
}

/// How far a walk reaches depends on the IDs alone.
pub proof fn lemma_reach_by_id(a: Seq<TopChild>, b: Seq<TopChild>, stop: bool, seen: bool)
    requires
        a.len() == b.len(),
        forall|i: int| 0 <= i < a.len() ==> (#[trigger] a[i]).id == b[i].id,
    ensures
        reach(a, stop, seen) == reach(b, stop, seen),
    decreases a.len(),
{
    if a.len() > 0 {
        let now_seen = seen || a[0].id == id::TRACKS;
        assert(a[0].id == b[0].id);
        assert forall|i: int| 0 <= i < a.drop_first().len() implies (#[trigger] a.drop_first()[i]).id
            == b.drop_first()[i].id by {
            assert(a[i + 1].id == b[i + 1].id);
        }
        lemma_reach_by_id(a.drop_first(), b.drop_first(), stop, now_seen);
    }
}

/// Children that stand one after the other up to the end are what a walk finds,
/// as far as it goes.
pub proof fn lemma_walk_finds(
    src: Source,
    pos: u64,
    end: u64,
    stop: bool,
    seen: bool,
    kids: Seq<TopChild>,
)
    requires
        tiles(kids, pos, end),
        tiled_end(kids, pos) == end,
        forall|i: int|
            0 <= i < kids.len() ==> child_at(src, (#[trigger] kids[i]).start, end) == Ok::<
                TopChild,
                Seq<char>,
            >(kids[i]),
    ensures
        walked(src, pos, end, stop, seen) == (
            kids.take(reach(kids, stop, seen).0),
            reach(kids, stop, seen).1,
        ),
    decreases kids.len(),
{
    lemma_reach(kids, stop, seen);
    if kids.len() == 0 {
        assert(kids.take(0) =~= Seq::<TopChild>::empty());
    } else {
        let first = kids[0];
        assert(first.start == pos);
        assert(child_at(src, kids[0].start, end) == Ok::<TopChild, Seq<char>>(kids[0]));
        lemma_child_at(src, pos, end);
        let now_seen = seen || first.id == id::TRACKS;
        let rest = kids.drop_first();
        if stop && now_seen && first.id == id::CLUSTER {
            assert(kids.take(1) =~= seq![first]);
        } else {
            let next = first.end_at() as u64;
            assert(tiles(rest, next, end)) by {
                if rest.len() > 0 {
                    assert(kids[1].start == kids[0].end_at());
                }
                assert forall|i: int, j: int| 0 <= i && j == i + 1 && j < rest.len() implies (
                #[trigger] rest[j]).start == (#[trigger] rest[i]).end_at() by {
                    assert(rest[j] == kids[j + 1]);
                    assert(rest[i] == kids[i + 1]);
                }
            }
            assert forall|i: int| 0 <= i < rest.len() implies child_at(
                src,
                (#[trigger] rest[i]).start,
                end,
            ) == Ok::<TopChild, Seq<char>>(rest[i]) by {
                assert(rest[i] == kids[i + 1]);
            }
            if rest.len() > 0 {
                assert(rest.last() == kids.last());
            }
            lemma_walk_finds(src, next, end, stop, now_seen, rest);
            lemma_reach(rest, stop, now_seen);
            let n = reach(rest, stop, now_seen).0;
            assert(kids.take(n + 1) =~= seq![first] + rest.take(n));
        }
    }
}

/// Each child that a walk finds is there.
pub proof fn lemma_walk_found(src: Source, pos: u64, end: u64, stop: bool, seen: bool, i: int)
    requires
        0 <= i < walked(src, pos, end, stop, seen).0.len(),
    ensures
        child_at(src, walked(src, pos, end, stop, seen).0[i].start, end) == Ok::<
            TopChild,
            Seq<char>,
        >(walked(src, pos, end, stop, seen).0[i]),
    decreases i,
{
    lemma_child_at(src, pos, end);
    if i > 0 {
        let child = child_at(src, pos, end)->Ok_0;
        let now_seen = seen || child.id == id::TRACKS;
        let next = child.end_at() as u64;
        lemma_walk_found(src, next, end, stop, now_seen, i - 1);
        assert(walked(src, pos, end, stop, seen).0[i] == walked(src, next, end, stop, now_seen).0[i
            - 1]);
    }
}

/// A walk that stops at clusters finds the first of the children that a
/// complete walk finds.
pub proof fn lemma_walk_stops(src: Source, pos: u64, end: u64, seen: bool)
    requires
        walked(src, pos, end, false, seen).1 is Complete,
    ensures
        walked(src, pos, end, true, seen) == (
            walked(src, pos, end, false, seen).0.take(
                reach(walked(src, pos, end, false, seen).0, true, seen).0,
            ),
            reach(walked(src, pos, end, false, seen).0, true, seen).1,
        ),
    decreases end - pos,
{
    let (all, scan) = walked(src, pos, end, false, seen);
    lemma_reach(all, true, seen);
    if pos >= end {
        assert(all.take(0) =~= Seq::<TopChild>::empty());
    } else {
        lemma_child_at(src, pos, end);
        let child = child_at(src, pos, end)->Ok_0;
        let now_seen = seen || child.id == id::TRACKS;
        let next = child.end_at() as u64;
        let (rest, _) = walked(src, next, end, false, now_seen);
        assert(all =~= seq![child] + rest);
        assert(all.drop_first() =~= rest);
        if child.id == id::CLUSTER && now_seen {
            assert(all.take(1) =~= seq![child]);
        } else {
            lemma_walk_stops(src, next, end, now_seen);
            lemma_reach(rest, true, now_seen);
            let n = reach(rest, true, now_seen).0;
            assert(all.take(n + 1) =~= seq![child] + rest.take(n));
        }
    }
}

/// A complete walk finds what a walk that stops at clusters finds, and where
/// that one is complete it finds no more.
pub proof fn lemma_walk_goes_on(src: Source, pos: u64, end: u64, seen: bool)
    requires
        walked(src, pos, end, true, seen).1 is Complete,
    ensures
        walked(src, pos, end, false, seen) == walked(src, pos, end, true, seen),
    decreases end - pos,
{
    if pos < end {
        lemma_child_at(src, pos, end);
        let child = child_at(src, pos, end)->Ok_0;
        let now_seen = seen || child.id == id::TRACKS;
        lemma_walk_goes_on(src, child.end_at() as u64, end, now_seen);
    }
}

} // verus!
