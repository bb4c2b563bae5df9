//! What holds of the plan for each child of the Segment in a rewrite.

use vstd::prelude::*;

#[allow(unused_imports)]
use crate::ebml::node::{parsed, Node};
#[allow(unused_imports)]
use crate::edit::layout::PlanModel;
#[allow(unused_imports)]
use crate::edit::load::{lemma_plan_given, plan_given, plan_of, plan_on, plan_read, StepModel};
#[allow(unused_imports)]
use crate::mkv::child::TopChild;
use crate::mkv::source::MAX_FILE_LEN;
#[allow(unused_imports)]
use crate::mkv::source::{clipped, file_source};

verus! {

/// The Tracks element is written anew. An index of no more than 128 MiB is taken
/// apart, to have its positions moved, and stops the rewrite where it cannot be; one
/// that is larger stops it. A cluster is searched for its position. Anything else
/// is copied.
pub proof fn law_plan_for_each_child(file: Seq<u8>, c: TopChild, tracks: Seq<u8>)
    requires
        c.end_at() <= file.len() <= MAX_FILE_LEN,
    ensures
        plan_of(file_source(file), c, true, tracks) == Ok::<PlanModel, Seq<char>>(PlanModel::Tracks(tracks)),
        c.id == 0x114D_9B74 || c.id == 0x1C53_BB6B ==> {
            let plan = plan_of(file_source(file), c, false, tracks);
            let read = parsed(file.subrange(c.data_at(), c.end_at()));
            &&& plan is Ok <==> c.size <= 128 * 1024 * 1024 && read is Ok
            &&& plan matches Ok(p) ==> p == (if c.id == 0x114D_9B74 {
                PlanModel::SeekHead(Node::branch(c.id, read->Ok_0))
            } else {
                PlanModel::Cues(Node::branch(c.id, read->Ok_0))
            })
        },
        c.id == 0x1F43_B675 ==> (plan_of(file_source(file), c, false, tracks) matches Ok(p) ==> p is Cluster),
        c.id != 0x114D_9B74 && c.id != 0x1C53_BB6B && c.id != 0x1F43_B675 ==> plan_of(
            file_source(file),
            c,
            false,
            tracks,
        ) == Ok::<PlanModel, Seq<char>>(PlanModel::Copy),
{
    let src = file_source(file);
    assert(clipped(file, c.data_at() as u64 as int, c.size as int) =~= file.subrange(c.data_at(), c.end_at()));
    if c.id == 0x1F43_B675 {
        lemma_cluster_is_cluster(file, c, tracks, 0);
    }
}

proof fn lemma_cluster_is_cluster(file: Seq<u8>, c: TopChild, tracks: Seq<u8>, from: u64)
    requires
        c.id == 0x1F43_B675,
        from <= c.size,
    ensures
        plan_on(file_source(file), c, false, tracks, from) matches Ok(p) ==> p is Cluster,
    decreases c.size - from,
{
    let src = file_source(file);
    if let Some((pos, len)) = plan_read(c, false, from) {
        lemma_plan_given(c, from, src(pos, len));
        if let Ok(StepModel::Search(next)) = plan_given(c, from, src(pos, len)) {
            lemma_cluster_is_cluster(file, c, tracks, next);
        }
    }
}

} // verus!
