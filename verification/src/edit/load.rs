//! What a rewrite needs to know of each child of the Segment.

use vstd::prelude::*;
use vstd::string::*;

use crate::ebml::element::Element;
use crate::ebml::id;
use crate::ebml::tree::{copy_bytes, parse_children};
#[allow(unused_imports)]
use crate::ebml::node::{parsed, Node};
#[allow(unused_imports)]
use crate::ebml::vint::{
    id_at, lemma_id_at_canonical, lemma_id_at_local, lemma_size_at_bound, lemma_size_at_local, size_at,
};
use crate::edit::layout::ChildPlan;
#[allow(unused_imports)]
use crate::edit::layout::{plan_fits, PlanModel};
use crate::edit::piece::{step_to_slot, SlotStep};
#[allow(unused_imports)]
use crate::edit::piece::{lemma_slot_step, slot_fits, slot_from, slot_step};
use crate::mkv::child::TopChild;
use crate::mkv::source::HEADER_WINDOW;
#[allow(unused_imports)]
use crate::mkv::source::{answer, clipped, file_source, Source};
use crate::text::push_hex;
#[allow(unused_imports)]
use crate::text::hex;

verus! {

/// The largest SeekHead or Cues payload that is rewritten.
pub const MAX_INDEX_SIZE: u64 = 128 * 1024 * 1024;

/// How much is read of a cluster for the element header at `from` in its
/// payload.
pub open spec fn header_room(c: TopChild, from: u64) -> u64 {
    if c.size - from < HEADER_WINDOW {
        (c.size - from) as u64
    } else {
        HEADER_WINDOW
    }
}

/// The read that the plan for a child needs, where it needs one. A cluster is
/// searched for its Position element header by header, and has been up to
/// `from`.
pub open spec fn plan_read(c: TopChild, is_tracks: bool, from: u64) -> Option<(u64, u64)> {
    if is_tracks {
        None
    } else if c.id == id::SEEK_HEAD || c.id == id::CUES {
        if c.size > MAX_INDEX_SIZE {
            None
        } else {
            Some((c.data_at() as u64, c.size))
        }
    } else if c.id == id::CLUSTER && from < c.size {
        Some(((c.data_at() + from) as u64, header_room(c, from)))
    } else {
        None
    }
}

/// The plan for a SeekHead or Cues element, from the answer to the read of its
/// payload.
pub open spec fn index_plan(id: u64, reply: Result<Seq<u8>, Seq<char>>) -> Result<
    PlanModel,
    Seq<char>,
> {
    match reply {
        Err(e) => Err(e),
        Ok(buf) => match parsed(buf) {
            Err(e) => Err("parsing "@ + hex(id as nat) + ": "@ + e),
            Ok(children) => if id == id::SEEK_HEAD {
                Ok(PlanModel::SeekHead(Node::branch(id, children)))
            } else {
                Ok(PlanModel::Cues(Node::branch(id, children)))
            },
        },
    }
}

/// What the answer to a read leads to.
#[derive(Debug)]
pub enum PlanStep {
    /// The plan is made.
    Made(ChildPlan),
    /// The search of the cluster goes on here in its payload.
    Search(u64),
}

/// The model of [`PlanStep`].
pub enum StepModel {
    Made(PlanModel),
    Search(u64),
}

impl View for PlanStep {
    type V = StepModel;

    open spec fn view(&self) -> StepModel {
        match *self {
            PlanStep::Made(p) => StepModel::Made(p@),
            PlanStep::Search(next) => StepModel::Search(next),
        }
    }
}

/// What the element header at `from` in a cluster's payload leads to. A Position
/// element that claims more than the cluster holds would have it copied past its
/// end.
pub open spec fn cluster_step(c: TopChild, from: u64, reply: Result<Seq<u8>, Seq<char>>) -> Result<
    StepModel,
    Seq<char>,
> {
    match reply {
        Err(e) => Err(e),
        Ok(buf) => match slot_step(buf, 0, from as int, c.size as int) {
            SlotStep::Found(slot) => if slot_fits(c, slot) {
                Ok(StepModel::Made(PlanModel::Cluster { slot: Some(slot) }))
            } else {
                Err("unexpected end of file while copying"@)
            },
            SlotStep::Absent => Ok(StepModel::Made(PlanModel::Cluster { slot: None })),
            SlotStep::Next(next) => Ok(StepModel::Search(next)),
        },
    }
}

/// What the answer to the read that the plan for a child needs leads to.
pub open spec fn plan_given(c: TopChild, from: u64, reply: Result<Seq<u8>, Seq<char>>) -> Result<
    StepModel,
    Seq<char>,
> {
    if c.id == id::CLUSTER {
        cluster_step(c, from, reply)
    } else {
        match index_plan(c.id, reply) {
            Ok(plan) => Ok(StepModel::Made(plan)),
            Err(e) => Err(e),
        }
    }
}

/// The search of a cluster goes forward, and not out of it.
pub proof fn lemma_plan_given(c: TopChild, from: u64, reply: Result<Seq<u8>, Seq<char>>)
    ensures
        match plan_given(c, from, reply) {
            Ok(StepModel::Search(next)) => c.id == id::CLUSTER && from < next < c.size,
            Ok(StepModel::Made(plan)) => plan_fits(c, plan),
            Err(_) => true,
        },
{
    if let Ok(buf) = reply {
        lemma_slot_step(buf, 0, from as int, c.size as int);
    }
}

/// The plan for a child that needs no read.
pub open spec fn plan_unread(c: TopChild, is_tracks: bool, new_tracks: Seq<u8>) -> Result<PlanModel, Seq<char>> {
    if is_tracks {
        Ok(PlanModel::Tracks(new_tracks))
    } else if c.id == id::SEEK_HEAD || c.id == id::CUES {
        Err(hex(c.id as nat) + " element is too large to rewrite"@)
    } else if c.id == id::CLUSTER {
        Ok(PlanModel::Cluster { slot: None })
    } else {
        Ok(PlanModel::Copy)
    }
}

/// The plan for a child, where a cluster has been searched up to `from`.
pub open spec fn plan_on(src: Source, c: TopChild, is_tracks: bool, new_tracks: Seq<u8>, from: u64) -> Result<
    PlanModel,
    Seq<char>,
>
    decreases c.size - from,
{
    match plan_read(c, is_tracks, from) {
        Some((pos, len)) => match plan_given(c, from, src(pos, len)) {
            Err(e) => Err(e),
            Ok(StepModel::Made(plan)) => Ok(plan),
            Ok(StepModel::Search(next)) => {
                proof {
                    lemma_plan_given(c, from, src(pos, len));
                }
                plan_on(src, c, is_tracks, new_tracks, next)
            },
        },
        None => plan_unread(c, is_tracks, new_tracks),
    }
}

/// The plan for a child.
pub open spec fn plan_of(src: Source, c: TopChild, is_tracks: bool, new_tracks: Seq<u8>) -> Result<
    PlanModel,
    Seq<char>,
> {
    plan_on(src, c, is_tracks, new_tracks, 0)
}

/// The plans for the children from `i` on, or the first reason why there is
/// none. The child at `tracks_idx` is replaced by `new_tracks`.
pub open spec fn plans_from(
    src: Source,
    top: Seq<TopChild>,
    tracks_idx: int,
    new_tracks: Seq<u8>,
    i: int,
) -> Result<Seq<PlanModel>, Seq<char>>
    decreases top.len() - i,
{
    if i >= top.len() {
        Ok(Seq::empty())
    } else {
        match plan_of(src, top[i], i == tracks_idx, new_tracks) {
            Err(e) => Err(e),
            Ok(plan) => match plans_from(src, top, tracks_idx, new_tracks, i + 1) {
                Err(e) => Err(e),
                Ok(rest) => Ok(seq![plan] + rest),
            },
        }
    }
}

/// The model of a result.
pub open spec fn plan_view(r: Result<ChildPlan, String>) -> Result<PlanModel, Seq<char>> {
    match r {
        Ok(p) => Ok(p@),
        Err(e) => Err(e@),
    }
}

/// The model of a result.
pub open spec fn step_view(r: Result<PlanStep, String>) -> Result<StepModel, Seq<char>> {
    match r {
        Ok(p) => Ok(p@),
        Err(e) => Err(e@),
    }
}

/// Whether a plan for the child needs a read, and which.
pub fn read_for(c: &TopChild, is_tracks: bool, from: u64) -> (r: Option<(u64, u64)>)
    requires
        c.end_at() <= u64::MAX,
    ensures
        r == plan_read(*c, is_tracks, from),
{
    if is_tracks {
        None
    } else if c.id == id::SEEK_HEAD || c.id == id::CUES {
        if c.size > MAX_INDEX_SIZE {
            None
        } else {
            Some((c.data_start(), c.size))
        }
    } else if c.id == id::CLUSTER && from < c.size {
        let left: u64 = c.size - from;
        let len: u64 = if left < HEADER_WINDOW {
            left
        } else {
            HEADER_WINDOW
        };
        Some((c.data_start() + from, len))
    } else {
        None
    }
}

/// The plan for a child that needs no read.
pub fn plan_without_read(c: &TopChild, is_tracks: bool, new_tracks: &Vec<u8>) -> (r: Result<
    ChildPlan,
    String,
>)
    ensures
        plan_view(r) == plan_unread(*c, is_tracks, new_tracks@),
        r is Ok ==> plan_fits(*c, r->Ok_0@),
{
    if is_tracks {
        Ok(ChildPlan::Tracks(copy_bytes(new_tracks)))
    } else if c.id == id::SEEK_HEAD || c.id == id::CUES {
        let mut e = String::new();
        push_hex(&mut e, c.id);
        e.append(" element is too large to rewrite");
        assert(e@ =~= hex(c.id as nat) + " element is too large to rewrite"@);
        Err(e)
    } else if c.id == id::CLUSTER {
        Ok(ChildPlan::Cluster { slot: None })
    } else {
        Ok(ChildPlan::Copy)
    }
}

/// What the answer to the read that the plan for a child needs leads to.
pub fn plan_with_read(c: &TopChild, from: u64, reply: Result<Vec<u8>, String>) -> (r: Result<PlanStep, String>)
    requires
        c.id == id::CLUSTER ==> from <= c.size,
    ensures
        step_view(r) == plan_given(*c, from, answer(reply)),
        r matches Ok(PlanStep::Made(plan)) ==> plan_fits(*c, plan@),
        r matches Ok(PlanStep::Search(next)) ==> c.id == id::CLUSTER && from < next < c.size,
{
    proof {
        lemma_plan_given(*c, from, answer(reply));
    }
    match reply {
        Err(e) => Err(e),
        Ok(buf) => {
            if c.id == id::CLUSTER {
                proof {
                    lemma_slot_step(buf@, 0, from as int, c.size as int);
                }
                match step_to_slot(&buf, 0, from, c.size) {
                    SlotStep::Found(s) => {
                        // The claimed end may lie far outside the cluster.
                        if s.off > c.size || s.header_len > c.size - s.off || s.size > c.size - s.off
                            - s.header_len {
                            Err("unexpected end of file while copying".to_owned())
                        } else {
                            Ok(PlanStep::Made(ChildPlan::Cluster { slot: Some(s) }))
                        }
                    },
                    SlotStep::Absent => Ok(PlanStep::Made(ChildPlan::Cluster { slot: None })),
                    SlotStep::Next(next) => Ok(PlanStep::Search(next)),
                }
            } else {
                match parse_children(&buf) {
                    Err(e) => {
                        let mut why = "parsing ".to_owned();
                        push_hex(&mut why, c.id);
                        why.append(": ");
                        why.append(&e);
                        Err(why)
                    },
                    Ok(children) => {
                        let el = Element::master(c.id, children);
                        if c.id == id::SEEK_HEAD {
                            Ok(PlanStep::Made(ChildPlan::SeekHead(el)))
                        } else {
                            Ok(PlanStep::Made(ChildPlan::Cues(el)))
                        }
                    },
                }
            }
        },
    }
}

/// An element header is the same in a payload and in the bytes that are read for
/// it.
proof fn lemma_step_read(body: Seq<u8>, from: int, buf: Seq<u8>)
    requires
        0 <= from < body.len() <= u64::MAX,
        buf == body.subrange(
            from,
            if body.len() - from < HEADER_WINDOW {
                body.len() as int
            } else {
                from + HEADER_WINDOW
            },
        ),
    ensures
        slot_step(buf, 0, from, body.len() as int) == slot_step(body, from, from, body.len() as int),
{
    lemma_id_at_canonical(body, from);
    lemma_id_at_canonical(buf, 0);
    if let Some((eid, il)) = id_at(body, from) {
        assert(buf.subrange(0, il as int) =~= body.subrange(from, from + il));
        lemma_id_at_local(body, buf, from, 0);
    }
    if let Some((eid, il)) = id_at(buf, 0) {
        assert(buf.subrange(0, il as int) =~= body.subrange(from, from + il));
        lemma_id_at_local(buf, body, 0, from);
        lemma_size_at_bound(body, from + il);
        lemma_size_at_bound(buf, il as int);
        if let Some((size, sl)) = size_at(body, from + il) {
            assert(buf.subrange(il as int, il + sl) =~= body.subrange(from + il, from + il + sl));
            lemma_size_at_local(body, buf, from + il, il as int);
        }
        if let Some((size, sl)) = size_at(buf, il as int) {
            assert(buf.subrange(il as int, il + sl) =~= body.subrange(from + il, from + il + sl));
            lemma_size_at_local(buf, body, il as int, from + il);
        }
    }
}

/// The plan for a cluster of a file is made from the Position element in its
/// payload, wherever it stands before the blocks.
pub proof fn lemma_cluster_plan(file: Seq<u8>, c: TopChild, new_tracks: Seq<u8>, from: u64)
    requires
        c.id == id::CLUSTER,
        c.end_at() <= file.len() <= u64::MAX,
    ensures
        plan_on(file_source(file), c, false, new_tracks, from) == (match slot_from(
            file.subrange(c.data_at(), c.end_at()),
            from as int,
        ) {
            Some(slot) => if slot_fits(c, slot) {
                Ok::<PlanModel, Seq<char>>(PlanModel::Cluster { slot: Some(slot) })
            } else {
                Err("unexpected end of file while copying"@)
            },
            None => Ok(PlanModel::Cluster { slot: None }),
        }),
    decreases c.size - from,
{
    let body = file.subrange(c.data_at(), c.end_at());
    if from < c.size {
        let (pos, len) = plan_read(c, false, from)->0;
        let buf = clipped(file, pos as int, len as int);
        assert(buf =~= body.subrange(from as int, from + len));
        lemma_step_read(body, from as int, buf);
        lemma_slot_step(buf, 0, from as int, c.size as int);
        if let SlotStep::Next(next) = slot_step(buf, 0, from as int, c.size as int) {
            lemma_cluster_plan(file, c, new_tracks, next);
        }
    }
}

} // verus!
