//! Walking the direct children of the Segment.

use vstd::prelude::*;
use vstd::string::*;

use crate::ebml::id;
use crate::ebml::vint::{MAX_SIZE, UNKNOWN};
use crate::mkv::child::{Scan, TopChild};
use crate::mkv::source::{read_header, read_image, HEADER_WINDOW, MAX_FILE_LEN};
#[allow(unused_imports)]
use crate::mkv::child::ScanModel;
#[allow(unused_imports)]
use crate::mkv::source::{answer, file_source, header_at, lemma_header_at, Source};
use crate::text::{push_decimal, push_hex};
#[allow(unused_imports)]
use crate::text::{decimal, hex};

verus! {

/// Why a walk ends at an element whose size is not known.
pub open spec fn unknown_size_text(id: u64, pos: u64) -> Seq<char> {
    "element "@ + hex(id as nat) + " at "@ + decimal(pos as nat) + " has an unknown size"@
}

/// Why a walk ends at an element that is longer than what is left.
pub open spec fn past_segment_text(id: u64, pos: u64) -> Seq<char> {
    "element "@ + hex(id as nat) + " at "@ + decimal(pos as nat) + " runs past the Segment"@
}

/// One step of the walk: the child at `pos`, or how the walk ends there.
pub open spec fn child_at(src: Source, pos: u64, end: u64) -> Result<TopChild, Seq<char>> {
    match header_at(src, pos) {
        Err(e) => Err(e),
        Ok((id, size, header_len)) => if size == UNKNOWN {
            Err(unknown_size_text(id, pos))
        } else if pos + header_len + size > end {
            Err(past_segment_text(id, pos))
        } else {
            Ok(TopChild { id, start: pos, header_len, size })
        },
    }
}

/// The direct children of the Segment from `pos` to `end`, and how far they
/// could be followed. With `stop` the walk ends at the first Cluster once Tracks
/// has been seen, which `seen` says it has before `pos`.
pub open spec fn walked(src: Source, pos: u64, end: u64, stop: bool, seen: bool) -> (
    Seq<TopChild>,
    ScanModel,
)
    decreases end - pos,
{
    if pos >= end {
        (Seq::empty(), ScanModel::Complete)
    } else {
        match child_at(src, pos, end) {
            Err(e) => (Seq::empty(), ScanModel::Blocked(e)),
            Ok(child) => {
                let now_seen = seen || child.id == id::TRACKS;
                if stop && now_seen && child.id == id::CLUSTER {
                    (seq![child], ScanModel::StoppedAtClusters)
                } else {
                    proof {
                        lemma_child_at(src, pos, end);
                    }
                    let (rest, scan) = walked(src, child.end_at() as u64, end, stop, now_seen);
                    (seq![child] + rest, scan)
                }
            },
        }
    }
}

/// A child lies where it was found and within the Segment.
pub proof fn lemma_child_at(src: Source, pos: u64, end: u64)
    ensures
        match child_at(src, pos, end) {
            Ok(c) => {
                &&& c.start == pos
                &&& 2 <= c.header_len <= 12
                &&& c.size <= MAX_SIZE
                &&& pos < c.end_at() <= end
            },
            Err(_) => true,
        },
{
    lemma_header_at(src, pos);
}

/// Whether the children stand one after the other from `pos` on, none past
/// `end`.
pub open spec fn tiles(top: Seq<TopChild>, pos: u64, end: u64) -> bool {
    &&& top.len() > 0 ==> top[0].start == pos
    &&& forall|i: int|
        0 <= i < top.len() ==> {
            &&& (#[trigger] top[i]).end_at() <= end
            &&& 2 <= top[i].header_len <= 12
            &&& top[i].size <= MAX_SIZE
        }
    &&& forall|i: int, j: int|
        0 <= i && j == i + 1 && j < top.len() ==> (#[trigger] top[j]).start == (
        #[trigger] top[i]).end_at()
}

/// Where children that stand one after the other from `pos` on end.
pub open spec fn tiled_end(top: Seq<TopChild>, pos: u64) -> int {
    if top.len() == 0 {
        pos as int
    } else {
        top.last().end_at()
    }
}

/// Children that stand one after the other start no earlier than the first.
pub proof fn lemma_tiles_within(top: Seq<TopChild>, pos: u64, end: u64, i: int)
    requires
        tiles(top, pos, end),
        0 <= i < top.len(),
    ensures
        pos <= top[i].start,
        top[i].end_at() <= end,
    decreases i,
{
    if i > 0 {
        lemma_tiles_within(top, pos, end, i - 1);
        assert(top[i].start == top[i - 1].end_at());
    }
}

/// Children that stand one after the other do not overlap.
pub proof fn lemma_tiles_order(top: Seq<TopChild>, pos: u64, end: u64, i: int, j: int)
    requires
        tiles(top, pos, end),
        0 <= i < j < top.len(),
    ensures
        top[i].end_at() <= top[j].start,
    decreases j - i,
{
    assert(top[j].start == top[j - 1].end_at());
    if i < j - 1 {
        lemma_tiles_order(top, pos, end, i, j - 1);
    }
}

/// A walk finds children that stand one after the other. It is complete only
/// where they fill the Segment, and stops early only where it was told to.
pub proof fn lemma_walked(src: Source, pos: u64, end: u64, stop: bool, seen: bool)
    ensures
        tiles(walked(src, pos, end, stop, seen).0, pos, end),
        walked(src, pos, end, stop, seen).1 is Complete ==> tiled_end(
            walked(src, pos, end, stop, seen).0,
            pos,
        ) == (if pos <= end {
            end
        } else {
            pos
        }),
        walked(src, pos, end, stop, seen).1 is StoppedAtClusters ==> stop,
        walked(src, pos, end, stop, seen).1 is StoppedAtClusters ==> walked(
            src,
            pos,
            end,
            stop,
            seen,
        ).0.len() > 0,
    decreases end - pos,
{
    lemma_child_at(src, pos, end);
    if pos < end {
        if let Ok(child) = child_at(src, pos, end) {
            let now_seen = seen || child.id == id::TRACKS;
            if !(stop && now_seen && child.id == id::CLUSTER) {
                let next = child.end_at() as u64;
                lemma_walked(src, next, end, stop, now_seen);
                let (rest, scan) = walked(src, next, end, stop, now_seen);
                let all = seq![child] + rest;
                assert forall|i: int| 0 <= i < all.len() implies {
                    &&& (#[trigger] all[i]).end_at() <= end
                    &&& 2 <= all[i].header_len <= 12
                    &&& all[i].size <= MAX_SIZE
                } by {
                    if i > 0 {
                        assert(all[i] == rest[i - 1]);
                    }
                }
                assert forall|i: int, j: int| 0 <= i && j == i + 1 && j < all.len() implies (
                #[trigger] all[j]).start == (#[trigger] all[i]).end_at() by {
                    assert(all[j] == rest[j - 1]);
                    if i > 0 {
                        assert(all[i] == rest[i - 1]);
                    }
                }
                if rest.len() > 0 {
                    assert(all.last() == rest.last());
                }
            }
        }
    }
}

/// A walk of the Segment's children in progress.
///
/// With `stop_at_clusters` the walk ends at the first Cluster once Tracks has
/// been seen. That is everything the track list needs, and it keeps opening a
/// file down to a handful of reads however long the film is; the full walk
/// costs one read per cluster and is only needed to rewrite the file.
#[derive(Debug)]
pub struct SegmentWalk {
    pub from: u64,
    pub pos: u64,
    pub end: u64,
    pub stop_at_clusters: bool,
    pub seen_tracks: bool,
    pub top: Vec<TopChild>,
    /// How the walk ended, once it has.
    pub ended: Option<Scan>,
}

impl SegmentWalk {
    pub open spec fn wf(self) -> bool {
        &&& self.end <= MAX_FILE_LEN
        &&& self.ended is None ==> self.pos < self.end
        &&& self.from <= self.pos
        &&& forall|i: int|
            0 <= i < self.top@.len() ==> self.from <= (#[trigger] self.top@[i]).start
                && self.top@[i].end_at() <= self.end
    }

    /// What the walk comes to if the source is `src`.
    pub open spec fn outcome(self, src: Source) -> (Seq<TopChild>, ScanModel) {
        match self.ended {
            Some(scan) => (self.top@, scan@),
            None => {
                let (rest, scan) = walked(
                    src,
                    self.pos,
                    self.end,
                    self.stop_at_clusters,
                    self.seen_tracks,
                );
                (self.top@ + rest, scan)
            },
        }
    }

    /// How much is left to walk.
    pub open spec fn left(self) -> nat {
        match self.ended {
            Some(_) => 0,
            None => (self.end - self.pos) as nat,
        }
    }

    pub fn new(from: u64, end: u64, stop_at_clusters: bool) -> (w: SegmentWalk)
        requires
            end <= MAX_FILE_LEN,
        ensures
            w.wf(),
            w.from == from,
            w.end == end,
            w.ended is None ==> w.left() == end - from,
            forall|src: Source|
                #[trigger] w.outcome(src) == walked(src, from, end, stop_at_clusters, false),
    {
        let top: Vec<TopChild> = Vec::new();
        let ended = if from < end {
            None
        } else {
            Some(Scan::Complete)
        };
        let w = SegmentWalk { from, pos: from, end, stop_at_clusters, seen_tracks: false, top, ended };
        assert forall|src: Source| #[trigger]
            w.outcome(src) == walked(src, from, end, stop_at_clusters, false) by {
            let (rest, scan) = walked(src, from, end, stop_at_clusters, false);
            assert(w.top@ + rest =~= rest);
            assert(from >= end ==> rest =~= w.top@);
        }
        w
    }

    /// What a walk that has ended came to.
    pub fn finish(self) -> (r: (Vec<TopChild>, Scan))
        requires
            self.ended is Some,
        ensures
            r.0@ == self.top@,
            r.1@ == self.ended->0@,
    {
        (self.top, self.ended.unwrap())
    }

    /// Takes the answer to the read of the header at `pos`.
    pub fn supply(&mut self, reply: &Result<Vec<u8>, String>)
        requires
            old(self).wf(),
            old(self).ended is None,
        ensures
            final(self).wf(),
            final(self).left() < old(self).left(),
            final(self).end == old(self).end,
            final(self).from == old(self).from,
            forall|src: Source|
                #![trigger final(self).outcome(src)]
                src(old(self).pos, HEADER_WINDOW) == answer(*reply) ==> final(self).outcome(src) == old(
                    self,
                ).outcome(src),
    {
        let ghost before = *self;
        let pos: u64 = self.pos;
        match read_header(reply, pos) {
            Err(e) => {
                self.ended = Some(Scan::Blocked(e));
                proof {
                    lemma_ended(before, *self, answer(*reply), e@);
                }
            },
            Ok((eid, size, header_len)) => {
                if size == UNKNOWN {
                    // Streamed clusters have no length. Editing in place still
                    // works, but the file cannot be rewritten.
                    let mut e = "element ".to_owned();
                    push_hex(&mut e, eid);
                    e.append(" at ");
                    push_decimal(&mut e, pos);
                    e.append(" has an unknown size");
                    self.ended = Some(Scan::Blocked(e));
                    proof {
                        lemma_ended(before, *self, answer(*reply), e@);
                    }
                } else {
                    let child = TopChild { id: eid, start: pos, header_len, size };
                    let child_end: u64 = child.end();
                    if child_end > self.end {
                        let mut e = "element ".to_owned();
                        push_hex(&mut e, eid);
                        e.append(" at ");
                        push_decimal(&mut e, pos);
                        e.append(" runs past the Segment");
                        self.ended = Some(Scan::Blocked(e));
                        proof {
                            lemma_ended(before, *self, answer(*reply), e@);
                        }
                    } else {
                        self.pos = child_end;
                        self.top.push(child);
                        self.seen_tracks = self.seen_tracks || eid == id::TRACKS;
                        if self.stop_at_clusters && self.seen_tracks && eid == id::CLUSTER {
                            self.ended = Some(Scan::StoppedAtClusters);
                        } else if child_end >= self.end {
                            self.ended = Some(Scan::Complete);
                        }
                        proof {
                            lemma_stepped(before, *self, answer(*reply), child);
                        }
                    }
                }
            },
        }
    }
}

/// Walks the direct children of the Segment in an image of the file.
pub fn walk_segment(image: &[u8], from: u64, end: u64, stop_at_clusters: bool) -> (r: (
    Vec<TopChild>,
    Scan,
))
    requires
        end <= MAX_FILE_LEN,
    ensures
        (r.0@, r.1@) == walked(file_source(image@), from, end, stop_at_clusters, false),
{
    let ghost src = file_source(image@);
    let mut walk = SegmentWalk::new(from, end, stop_at_clusters);
    while walk.ended.is_none()
        invariant
            walk.wf(),
            walk.outcome(src) == walked(src, from, end, stop_at_clusters, false),
            src == file_source(image@),
        decreases walk.left(),
    {
        let reply: Result<Vec<u8>, String> = Ok(read_image(image, walk.pos, HEADER_WINDOW));
        let ghost before = walk;
        walk.supply(&reply);
        assert(walk.outcome(src) == before.outcome(src)) by {
            assert(src(before.pos, HEADER_WINDOW) == answer(reply));
        }
    }
    walk.finish()
}

/// A walk that ends with a reason has come to what it would.
proof fn lemma_ended(
    before: SegmentWalk,
    now: SegmentWalk,
    reply: Result<Seq<u8>, Seq<char>>,
    why: Seq<char>,
)
    requires
        before.wf(),
        before.ended is None,
        now.top == before.top,
        now.ended is Some,
        now.ended->0@ == ScanModel::Blocked(why),
        forall|src: Source| #![trigger src(before.pos, HEADER_WINDOW)]
            src(before.pos, HEADER_WINDOW) == reply ==> child_at(src, before.pos, before.end) == Err::<
                TopChild,
                Seq<char>,
            >(why),
    ensures
        forall|src: Source|
            #![trigger now.outcome(src)]
            src(before.pos, HEADER_WINDOW) == reply ==> now.outcome(src) == before.outcome(src),
{
    assert forall|src: Source|
        #![trigger now.outcome(src)]
        src(before.pos, HEADER_WINDOW) == reply implies now.outcome(src) == before.outcome(src) by {
        assert(child_at(src, before.pos, before.end) == Err::<TopChild, Seq<char>>(why));
        assert(before.top@ + Seq::<TopChild>::empty() =~= before.top@);
    }
}

/// A walk that takes one more child comes to what it would.
proof fn lemma_stepped(
    before: SegmentWalk,
    now: SegmentWalk,
    reply: Result<Seq<u8>, Seq<char>>,
    child: TopChild,
)
    requires
        before.wf(),
        before.ended is None,
        now.top@ == before.top@.push(child),
        now.pos == child.end_at(),
        before.pos < child.end_at() <= before.end,
        now.end == before.end,
        now.stop_at_clusters == before.stop_at_clusters,
        now.seen_tracks == (before.seen_tracks || child.id == id::TRACKS),
        match now.ended {
            Some(scan) => {
                ||| scan is StoppedAtClusters && now.stop_at_clusters && now.seen_tracks && child.id
                    == id::CLUSTER
                ||| scan is Complete && now.pos == now.end && !(now.stop_at_clusters && now.seen_tracks
                    && child.id == id::CLUSTER)
            },
            None => now.pos < now.end && !(now.stop_at_clusters && now.seen_tracks && child.id
                == id::CLUSTER),
        },
        forall|src: Source| #![trigger src(before.pos, HEADER_WINDOW)]
            src(before.pos, HEADER_WINDOW) == reply ==> child_at(src, before.pos, before.end) == Ok::<
                TopChild,
                Seq<char>,
            >(child),
    ensures
        forall|src: Source|
            #![trigger now.outcome(src)]
            src(before.pos, HEADER_WINDOW) == reply ==> now.outcome(src) == before.outcome(src),
{
    assert forall|src: Source|
        #![trigger now.outcome(src)]
        src(before.pos, HEADER_WINDOW) == reply implies now.outcome(src) == before.outcome(src) by {
        assert(child_at(src, before.pos, before.end) == Ok::<TopChild, Seq<char>>(child));
        let (rest, scan) = walked(src, now.pos, now.end, now.stop_at_clusters, now.seen_tracks);
        let stopped = now.stop_at_clusters && now.seen_tracks && child.id == id::CLUSTER;
        if stopped {
            assert(before.top@ + seq![child] =~= now.top@);
        } else {
            assert(before.top@ + (seq![child] + rest) =~= now.top@ + rest);
            assert(now.pos == now.end ==> now.top@ + rest =~= now.top@);
        }
    }
}

} // verus!
