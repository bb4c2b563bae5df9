//! Saving a file: what is read for it, and what is to be written.

use vstd::prelude::*;
use vstd::string::*;

use crate::ebml::id;
use crate::ebml::vint::{id_len, size_len, write_id, write_size, write_size_with_len};
#[allow(unused_imports)]
use crate::ebml::node::{element_bytes, payload};
#[allow(unused_imports)]
use crate::ebml::vint::{id_bytes, lemma_size_size, size_bytes};
use crate::edit::layout::{settle, ChildPlan, MAX_ROUNDS};
#[allow(unused_imports)]
use crate::edit::layout::{
    extents, law_layout_is_a_fixed_point, layout_models, layout_ready, lemma_sum_take, plan_fits,
    plan_models, settled_layout, sum, PlanModel,
};
use crate::edit::load::{plan_with_read, plan_without_read, read_for, PlanStep};
#[allow(unused_imports)]
use crate::edit::load::{plan_of, plan_on, plan_read, plans_from};
use crate::edit::piece::Piece;
#[allow(unused_imports)]
use crate::edit::piece::{piece_models, PieceModel};
use crate::edit::region::{build_region, tracks_payload, SlackWalk};
#[allow(unused_imports)]
use crate::edit::region::{region_of, slack_end, tracks_extent};
use crate::mkv::child::{Scan, TopChild};
#[allow(unused_imports)]
use crate::mkv::child::ScanModel;
use crate::mkv::file::{copy_children, MkvFile, Timestamp};
#[allow(unused_imports)]
use crate::mkv::file::MkvModel;
#[allow(unused_imports)]
use crate::mkv::open::all_children;
use crate::mkv::source::{HEADER_WINDOW, MAX_FILE_LEN};
#[allow(unused_imports)]
use crate::mkv::source::{answer, Source};
use crate::mkv::walk::SegmentWalk;
#[allow(unused_imports)]
use crate::mkv::walk::lemma_tiles_within;
use crate::text::push_decimal;
#[allow(unused_imports)]
use crate::text::{decimal, signed_decimal};

verus! {

#[derive(Clone, Copy, Debug, PartialEq, Eq, Structural)]
pub enum SaveMode {
    InPlace,
    Rewrite,
}

#[derive(Debug)]
pub struct SaveReport {
    pub mode: SaveMode,
    pub message: String,
}

/// What is to be written.
#[derive(Debug)]
pub enum SaveAction {
    /// Write the bytes over what stands at `at`.
    Patch { at: u64, bytes: Vec<u8> },
    /// Replace the file by these pieces, one after the other.
    Replace { pieces: Vec<Piece> },
}

/// A save that is ready to be carried out, and what is reported of it.
#[derive(Debug)]
pub struct SavePlan {
    pub action: SaveAction,
    pub report: SaveReport,
}

/// The model of [`SaveAction`].
pub enum ActionModel {
    Patch { at: u64, bytes: Seq<u8> },
    Replace { pieces: Seq<PieceModel> },
}

/// The model of [`SavePlan`].
pub struct SaveModel {
    pub action: ActionModel,
    pub mode: SaveMode,
    pub message: Seq<char>,
}

impl View for SaveAction {
    type V = ActionModel;

    open spec fn view(&self) -> ActionModel {
        match *self {
            SaveAction::Patch { at, bytes } => ActionModel::Patch { at, bytes: bytes@ },
            SaveAction::Replace { pieces } => ActionModel::Replace { pieces: piece_models(pieces@) },
        }
    }
}

impl View for SavePlan {
    type V = SaveModel;

    open spec fn view(&self) -> SaveModel {
        SaveModel {
            action: self.action@,
            mode: self.report.mode,
            message: self.report.message@,
        }
    }
}

/// The model of a result.
pub open spec fn save_view(r: Result<SavePlan, String>) -> Result<SaveModel, Seq<char>> {
    match r {
        Ok(p) => Ok(p@),
        Err(e) => Err(e@),
    }
}

// ---------------------------------------------------------------------------
// What a save comes to
// ---------------------------------------------------------------------------

/// What is reported of a save in place.
pub open spec fn in_place_text(len: nat, avail: nat) -> Seq<char> {
    let used = tracks_extent(len);
    "saved in place ("@ + decimal(len) + " bytes of Tracks, "@ + decimal(
        if avail >= used {
            (avail - used) as nat
        } else {
            0
        },
    ) + " padding)"@
}

/// What is reported of a rewrite.
pub open spec fn rewrite_text(m: MkvModel, grew: int) -> Seq<char> {
    "rewrote "@ + (match m.path.name {
        Some(name) => name,
        None => Seq::empty(),
    }) + " (Tracks grew by "@ + signed_decimal(grew) + " bytes, "@ + decimal(m.file_len as nat)
        + " bytes copied)"@
}

/// The index of the first child from `from` on that starts at `start`, or the
/// number of children.
pub open spec fn start_index(top: Seq<TopChild>, start: u64, from: int) -> int
    decreases top.len() - from,
{
    if from >= top.len() || top[from].start == start {
        from
    } else {
        start_index(top, start, from + 1)
    }
}

/// The pieces of each child one after the other.
pub open spec fn flat(s: Seq<Seq<PieceModel>>) -> Seq<PieceModel>
    decreases s.len(),
{
    if s.len() == 0 {
        Seq::empty()
    } else {
        flat(s.drop_last()) + s.last()
    }
}

/// The header of a Segment with that payload length.
pub open spec fn segment_header(total: u64) -> Seq<u8> {
    id_bytes(id::SEGMENT) + size_bytes(total, 8)
}

/// What stands behind the Segment.
pub open spec fn behind_segment(m: MkvModel) -> PieceModel {
    PieceModel::Copy { off: m.segment_end, len: (m.file_len - m.segment_end) as u64 }
}

/// A rewritten file: what stood before the Segment, its new header, the
/// children, and what stood behind it.
pub open spec fn new_file(m: MkvModel, lens: Seq<u64>, children: Seq<Seq<PieceModel>>) -> Seq<PieceModel> {
    (seq![
        PieceModel::Copy { off: 0, len: m.segment_start },
        PieceModel::Bytes(segment_header(sum(lens) as u64)),
    ] + flat(children)).push(behind_segment(m))
}

/// What a rewrite comes to once the children and the plans for them are known.
pub open spec fn rewrite_planned(
    m: MkvModel,
    top: Seq<TopChild>,
    tracks_idx: int,
    new_tracks: Seq<u8>,
    plans: Seq<PlanModel>,
) -> Result<SaveModel, Seq<char>> {
    let lens = extents(top).update(tracks_idx, new_tracks.len() as u64);
    match settled_layout(top, plans, m.segment_data_start, lens, MAX_ROUNDS as nat) {
        None => Err("could not settle the new file layout"@),
        Some((settled, children)) => Ok(
            SaveModel {
                action: ActionModel::Replace {
                    pieces: new_file(m, settled, children),
                },
                mode: SaveMode::Rewrite,
                message: rewrite_text(m, new_tracks.len() - top[tracks_idx].extent()),
            },
        ),
    }
}

/// What a rewrite comes to once the children are known.
pub open spec fn rewrite_found(src: Source, m: MkvModel, top: Seq<TopChild>) -> Result<
    SaveModel,
    Seq<char>,
> {
    let tracks_idx = start_index(top, m.top[m.tracks_idx as int].start, 0);
    if tracks_idx >= top.len() {
        Err("the Tracks element moved while the file was being read"@)
    } else {
        let new_tracks = element_bytes(id::TRACKS, payload(m.tracks));
        match plans_from(src, top, tracks_idx, new_tracks, 0) {
            Err(e) => Err(e),
            Ok(plans) => rewrite_planned(m, top, tracks_idx, new_tracks, plans),
        }
    }
}

/// Why a file whose children could not all be found is not rewritten.
pub open spec fn blocked_text(why: Seq<char>) -> Seq<char> {
    "the Tracks element needs more room, but this file cannot be rewritten safely: "@ + why
}

/// What a rewrite comes to.
pub open spec fn rewrite_outcome(src: Source, m: MkvModel) -> Result<SaveModel, Seq<char>> {
    match all_children(src, m) {
        Err(why) => Err(blocked_text(why)),
        Ok(top) => rewrite_found(src, m, top),
    }
}

/// What a save comes to once the end of the padding behind Tracks is known: it
/// is done in place where the element fits there.
pub open spec fn save_within(src: Source, m: MkvModel, slack: u64) -> Result<SaveModel, Seq<char>> {
    let start = m.top[m.tracks_idx as int].start;
    let body = payload(m.tracks);
    let avail = (slack - start) as nat;
    match region_of(body, avail) {
        Some(bytes) => Ok(
            SaveModel {
                action: ActionModel::Patch { at: start, bytes },
                mode: SaveMode::InPlace,
                message: in_place_text(body.len(), avail),
            },
        ),
        None => rewrite_outcome(src, m),
    }
}

/// What a save comes to.
pub open spec fn save_outcome(src: Source, m: MkvModel) -> Result<SaveModel, Seq<char>> {
    let slack = slack_end(src, m.top[m.tracks_idx as int].end_at() as u64, m.segment_end);
    save_within(src, m, slack)
}

/// Refuses to write when the file no longer looks like the one that was read,
/// because every offset we hold would be wrong.
pub fn check_unchanged(mkv: &MkvFile, file_len: u64, modified: Option<Timestamp>) -> (r: Result<
    (),
    String,
>)
    ensures
        r is Ok <==> file_len == mkv@.file_len && modified == mkv@.modified,
        r matches Err(e) ==> e@
            == "the file changed on disk since it was read; press u to reload it"@,
{
    let same_time = match (modified, mkv.modified) {
        (None, None) => true,
        (Some(a), Some(b)) => a == b,
        _ => false,
    };
    if file_len != mkv.file_len || !same_time {
        return Err("the file changed on disk since it was read; press u to reload it".to_owned());
    }
    Ok(())
}

// ---------------------------------------------------------------------------
// Saving step by step
// ---------------------------------------------------------------------------

/// How far a save has come.
#[derive(Debug)]
pub enum SaveStage {
    /// Looking for the end of the padding behind Tracks.
    Slack(SlackWalk),
    /// Opening a file only walks as far as the clusters, so this is where the
    /// rest of the Segment gets located.
    Scan(SegmentWalk),
    /// Reading what is needed of each child.
    Load {
        top: Vec<TopChild>,
        tracks_idx: usize,
        new_tracks: Vec<u8>,
        plans: Vec<ChildPlan>,
        /// How far the next child has been searched, where it is a cluster.
        searched: u64,
    },
    Done(Result<SavePlan, String>),
}

/// A file that is being saved. It says which bytes it needs next, and takes
/// them.
#[derive(Debug)]
pub struct SaveTask<'a> {
    pub mkv: &'a MkvFile,
    pub stage: SaveStage,
}

/// What a rewrite comes to once the first plans are there.
pub open spec fn rewrite_from(
    src: Source,
    m: MkvModel,
    top: Seq<TopChild>,
    tracks_idx: int,
    new_tracks: Seq<u8>,
    plans: Seq<PlanModel>,
) -> Result<SaveModel, Seq<char>> {
    match plans_from(src, top, tracks_idx, new_tracks, plans.len() as int) {
        Err(e) => Err(e),
        Ok(rest) => rewrite_planned(m, top, tracks_idx, new_tracks, plans + rest),
    }
}

/// What a rewrite comes to once the first plans are there and the next child has
/// been searched up to `from`.
pub open spec fn rewrite_searched(
    src: Source,
    m: MkvModel,
    top: Seq<TopChild>,
    tracks_idx: int,
    new_tracks: Seq<u8>,
    plans: Seq<PlanModel>,
    from: u64,
) -> Result<SaveModel, Seq<char>> {
    match plan_on(src, top[plans.len() as int], plans.len() == tracks_idx, new_tracks, from) {
        Err(e) => Err(e),
        Ok(plan) => rewrite_from(src, m, top, tracks_idx, new_tracks, plans.push(plan)),
    }
}

/// Whether the children lie within the Segment, and what is planned for the
/// first of them can be done.
pub open spec fn load_ready(
    m: MkvModel,
    top: Seq<TopChild>,
    tracks_idx: int,
    plans: Seq<PlanModel>,
) -> bool {
    &&& 0 <= tracks_idx < top.len()
    &&& plans.len() <= top.len()
    &&& forall|i: int|
        0 <= i < top.len() ==> m.segment_data_start <= (#[trigger] top[i]).start && top[i].end_at()
            <= m.segment_end
    &&& forall|i: int| 0 <= i < plans.len() ==> plan_fits(top[i], #[trigger] plans[i])
}

impl<'a> SaveTask<'a> {
    pub open spec fn wf(self) -> bool {
        let m = self.mkv@;
        &&& m.valid()
        &&& m.file_len <= usize::MAX
        &&& match self.stage {
            SaveStage::Slack(walk) => {
                &&& walk.wf()
                &&& !walk.ended
                &&& walk.limit == m.segment_end
                &&& walk.pos >= m.top[m.tracks_idx as int].end_at()
            },
            SaveStage::Scan(walk) => {
                &&& walk.wf()
                &&& walk.ended is None
                &&& walk.from == m.segment_data_start
                &&& walk.end == m.segment_end
            },
            SaveStage::Load { top, tracks_idx, new_tracks, plans, searched } => {
                &&& load_ready(m, top@, tracks_idx as int, plan_models(plans@))
                &&& plans@.len() < top@.len()
                &&& plan_read(top@[plans@.len() as int], plans@.len() == tracks_idx, searched) is Some
            },
            SaveStage::Done(_) => true,
        }
    }

    /// What the save comes to if the source is `src`.
    pub open spec fn outcome(self, src: Source) -> Result<SaveModel, Seq<char>> {
        let m = self.mkv@;
        match self.stage {
            SaveStage::Slack(walk) => save_within(src, m, walk.outcome(src)),
            SaveStage::Scan(walk) => scanned(src, m, walk.outcome(src)),
            SaveStage::Load { top, tracks_idx, new_tracks, plans, searched } => rewrite_searched(
                src,
                m,
                top@,
                tracks_idx as int,
                new_tracks@,
                plan_models(plans@),
                searched,
            ),
            SaveStage::Done(r) => save_view(r),
        }
    }

    /// How many kinds of read may still follow.
    pub open spec fn phase(self) -> nat {
        match self.stage {
            SaveStage::Slack(_) => 3,
            SaveStage::Scan(_) => 2,
            SaveStage::Load { .. } => 1,
            SaveStage::Done(_) => 0,
        }
    }

    /// A bound on the reads that are left in this phase.
    pub open spec fn left(self) -> nat {
        match self.stage {
            SaveStage::Slack(walk) => walk.left(),
            SaveStage::Scan(walk) => walk.left(),
            SaveStage::Load { top, plans, .. } => (top@.len() - plans@.len()) as nat,
            SaveStage::Done(_) => 0,
        }
    }

    /// How much of the child that is being searched is left.
    pub open spec fn left_in_child(self) -> nat {
        match self.stage {
            SaveStage::Load { top, plans, searched, .. } => if searched < top@[plans@.len() as int].size {
                (top@[plans@.len() as int].size - searched) as nat
            } else {
                0
            },
            _ => 0,
        }
    }

    /// Whether less is left to read than before.
    pub open spec fn nearer(self, before: SaveTask<'a>) -> bool {
        ||| self.phase() < before.phase()
        ||| self.phase() == before.phase() && self.left() < before.left()
        ||| self.phase() == before.phase() && self.left() == before.left() && self.left_in_child()
            < before.left_in_child()
    }

    /// The read that the task needs next: position and length.
    pub open spec fn wanted(self) -> Option<(u64, u64)> {
        match self.stage {
            SaveStage::Slack(walk) => Some((walk.pos, HEADER_WINDOW)),
            SaveStage::Scan(walk) => Some((walk.pos, HEADER_WINDOW)),
            SaveStage::Load { top, tracks_idx, plans, searched, .. } => plan_read(
                top@[plans@.len() as int],
                plans@.len() == tracks_idx,
                searched,
            ),
            SaveStage::Done(_) => None,
        }
    }

    /// Starts saving a file.
    pub fn new(mkv: &'a MkvFile) -> (t: SaveTask<'a>)
        requires
            mkv@.valid(),
            mkv@.file_len <= usize::MAX,
        ensures
            t.wf(),
            t.mkv@ == mkv@,
            forall|src: Source| #[trigger] t.outcome(src) == save_outcome(src, mkv@),
    {
        let tc = mkv.tracks_child();
        assert(mkv@.top[mkv@.tracks_idx as int].end_at() <= mkv@.segment_end);
        on_slack(mkv, SlackWalk::new(tc.end(), mkv.segment_end))
    }

    /// The read that is needed next, as position and length. None once it is
    /// known what is to be written, or why nothing is.
    pub fn wants(&self) -> (r: Option<(u64, u64)>)
        requires
            self.wf(),
        ensures
            r == self.wanted(),
    {
        match &self.stage {
            SaveStage::Slack(walk) => Some((walk.pos, HEADER_WINDOW)),
            SaveStage::Scan(walk) => Some((walk.pos, HEADER_WINDOW)),
            SaveStage::Load { top, tracks_idx, plans, searched, .. } => {
                let i: usize = plans.len();
                assert(top@[i as int].end_at() <= MAX_FILE_LEN);
                read_for(&top[i], i == *tracks_idx, *searched)
            },
            SaveStage::Done(_) => None,
        }
    }

    /// Takes the answer to the read that was asked for.
    pub fn supply(self, reply: Result<Vec<u8>, String>) -> (t: SaveTask<'a>)
        requires
            self.wf(),
            self.wanted() is Some,
        ensures
            t.wf(),
            t.mkv@ == self.mkv@,
            t.nearer(self),
            forall|src: Source|
                #![trigger t.outcome(src)]
                src((self.wanted()->0).0, (self.wanted()->0).1) == answer(reply) ==> t.outcome(src)
                    == self.outcome(src),
    {
        let SaveTask { mkv, stage } = self;
        match stage {
            SaveStage::Slack(walk) => {
                let mut walk = walk;
                walk.supply(&reply);
                on_slack(mkv, walk)
            },
            SaveStage::Scan(walk) => {
                let mut walk = walk;
                walk.supply(&reply);
                on_scan(mkv, walk)
            },
            SaveStage::Load { top, tracks_idx, new_tracks, plans, searched } => {
                let i: usize = plans.len();
                let ghost before = plan_models(plans@);
                match plan_with_read(&top[i], searched, reply) {
                    Err(e) => SaveTask { mkv, stage: SaveStage::Done(Err(e)) },
                    Ok(PlanStep::Search(next)) => {
                        let stage = SaveStage::Load { top, tracks_idx, new_tracks, plans, searched: next };
                        SaveTask { mkv, stage }
                    },
                    Ok(PlanStep::Made(plan)) => {
                        let mut plans = plans;
                        plans.push(plan);
                        proof {
                            assert(plan_models(plans@) =~= before.push(plan@));
                        }
                        load_on(mkv, top, tracks_idx, new_tracks, plans)
                    },
                }
            },
            SaveStage::Done(r) => SaveTask { mkv, stage: SaveStage::Done(r) },
        }
    }

    /// What the save came to.
    pub fn finish(self) -> (r: Result<SavePlan, String>)
        requires
            self.stage is Done,
        ensures
            r == self.stage->Done_0,
    {
        match self.stage {
            SaveStage::Done(r) => r,
            _ => Err(String::new()),
        }
    }
}

/// What a rewrite comes to once the children have been walked.
pub open spec fn scanned(src: Source, m: MkvModel, walk: (Seq<TopChild>, ScanModel)) -> Result<
    SaveModel,
    Seq<char>,
> {
    match walk.1 {
        ScanModel::Blocked(why) => Err(blocked_text(why)),
        _ => rewrite_found(src, m, walk.0),
    }
}

/// One more plan is one less to come.
proof fn lemma_rewrite_step(
    src: Source,
    m: MkvModel,
    top: Seq<TopChild>,
    tracks_idx: int,
    new_tracks: Seq<u8>,
    plans: Seq<PlanModel>,
    plan: PlanModel,
)
    requires
        plans.len() < top.len(),
        plan_of(src, top[plans.len() as int], plans.len() == tracks_idx, new_tracks) == Ok::<
            PlanModel,
            Seq<char>,
        >(plan),
    ensures
        rewrite_from(src, m, top, tracks_idx, new_tracks, plans) == rewrite_from(
            src,
            m,
            top,
            tracks_idx,
            new_tracks,
            plans.push(plan),
        ),
{
    if let Ok(rest) = plans_from(src, top, tracks_idx, new_tracks, (plans.len() + 1) as int) {
        assert(plans + (seq![plan] + rest) =~= plans.push(plan) + rest);
    }
}

/// A child that has not been searched is planned as it is.
proof fn lemma_search_starts(
    src: Source,
    m: MkvModel,
    top: Seq<TopChild>,
    tracks_idx: int,
    new_tracks: Seq<u8>,
    plans: Seq<PlanModel>,
)
    requires
        plans.len() < top.len(),
    ensures
        rewrite_searched(src, m, top, tracks_idx, new_tracks, plans, 0) == rewrite_from(
            src,
            m,
            top,
            tracks_idx,
            new_tracks,
            plans,
        ),
{
    if let Ok(plan) = plan_of(src, top[plans.len() as int], plans.len() == tracks_idx, new_tracks) {
        lemma_rewrite_step(src, m, top, tracks_idx, new_tracks, plans, plan);
    }
}

/// The next stage with the search for the end of the padding as it is.
fn on_slack<'a>(mkv: &'a MkvFile, walk: SlackWalk) -> (t: SaveTask<'a>)
    requires
        mkv@.valid(),
        mkv@.file_len <= usize::MAX,
        walk.wf(),
        walk.limit == mkv@.segment_end,
        walk.pos >= mkv@.top[mkv@.tracks_idx as int].end_at(),
    ensures
        t.wf(),
        t.mkv@ == mkv@,
        t.phase() <= 3,
        t.phase() == 3 ==> t.left() == walk.left(),
        forall|src: Source| #[trigger]
            t.outcome(src) == save_within(src, mkv@, walk.outcome(src)),
{
    if !walk.ended {
        return SaveTask { mkv, stage: SaveStage::Slack(walk) };
    }
    let start: u64 = mkv.tracks_child().start;
    let payload = tracks_payload(&mkv.tracks);
    let avail: usize = (walk.pos - start) as usize;
    match build_region(&payload, avail) {
        Some(region) => {
            let len: usize = payload.len();
            let head: usize = id_len(id::TRACKS) + size_len(len as u64);
            // The element was found to fit, so what it needs is at most what
            // there is.
            let pad: usize = avail - len - head;
            let mut message = "saved in place (".to_owned();
            push_decimal(&mut message, len as u64);
            message.append(" bytes of Tracks, ");
            push_decimal(&mut message, pad as u64);
            message.append(" padding)");
            assert(message@ =~= in_place_text(payload@.len(), avail as nat));
            let plan = SavePlan {
                action: SaveAction::Patch { at: start, bytes: region },
                report: SaveReport { mode: SaveMode::InPlace, message },
            };
            SaveTask { mkv, stage: SaveStage::Done(Ok(plan)) }
        },
        None => {
            if let Scan::Complete = mkv.scan {
                proof {
                    assert forall|i: int| 0 <= i < mkv@.top.len() implies mkv@.segment_data_start <= (
                    #[trigger] mkv@.top[i]).start && mkv@.top[i].end_at() <= mkv@.segment_end by {
                        lemma_tiles_within(mkv@.top, mkv@.segment_data_start, mkv@.segment_end, i);
                    }
                }
                on_children(mkv, copy_children(&mkv.top))
            } else {
                on_scan(
                    mkv,
                    SegmentWalk::new(mkv.segment_data_start, mkv.segment_end, false),
                )
            }
        },
    }
}

/// The next stage with the walk of the Segment's children as it is.
fn on_scan<'a>(mkv: &'a MkvFile, walk: SegmentWalk) -> (t: SaveTask<'a>)
    requires
        mkv@.valid(),
        mkv@.file_len <= usize::MAX,
        walk.wf(),
        walk.from == mkv@.segment_data_start,
        walk.end == mkv@.segment_end,
    ensures
        t.wf(),
        t.mkv@ == mkv@,
        t.phase() <= 2,
        t.phase() == 2 ==> t.left() == walk.left(),
        forall|src: Source| #[trigger] t.outcome(src) == scanned(src, mkv@, walk.outcome(src)),
{
    if walk.ended.is_none() {
        return SaveTask { mkv, stage: SaveStage::Scan(walk) };
    }
    let (top, scan) = walk.finish();
    match scan {
        Scan::Blocked(why) => {
            let mut e =
                "the Tracks element needs more room, but this file cannot be rewritten safely: ".to_owned();
            e.append(&why);
            SaveTask { mkv, stage: SaveStage::Done(Err(e)) }
        },
        _ => on_children(mkv, top),
    }
}

/// The index of the first child that starts at `start`, or the number of
/// children.
fn start_position(top: &Vec<TopChild>, start: u64) -> (r: usize)
    ensures
        r == start_index(top@, start, 0),
        r <= top@.len(),
{
    let mut i: usize = 0;
    while i < top.len() && top[i].start != start
        invariant
            i <= top@.len(),
            start_index(top@, start, i as int) == start_index(top@, start, 0),
        decreases top@.len() - i,
    {
        i += 1;
    }
    i
}

/// The next stage once all children are known.
fn on_children<'a>(mkv: &'a MkvFile, top: Vec<TopChild>) -> (t: SaveTask<'a>)
    requires
        mkv@.valid(),
        mkv@.file_len <= usize::MAX,
        forall|i: int|
            0 <= i < top@.len() ==> mkv@.segment_data_start <= (#[trigger] top@[i]).start
                && top@[i].end_at() <= mkv@.segment_end,
    ensures
        t.wf(),
        t.mkv@ == mkv@,
        t.phase() <= 1,
        forall|src: Source| #[trigger] t.outcome(src) == rewrite_found(src, mkv@, top@),
{
    let tracks_idx: usize = start_position(&top, mkv.tracks_child().start);
    if tracks_idx >= top.len() {
        let e = "the Tracks element moved while the file was being read".to_owned();
        return SaveTask { mkv, stage: SaveStage::Done(Err(e)) };
    }
    let mut payload = tracks_payload(&mkv.tracks);
    let mut new_tracks: Vec<u8> = Vec::new();
    write_id(&mut new_tracks, id::TRACKS);
    write_size(&mut new_tracks, payload.len() as u64);
    new_tracks.append(&mut payload);
    proof {
        assert(new_tracks@ =~= element_bytes(id::TRACKS, crate::ebml::node::payload(mkv@.tracks)));
        let none = Seq::<PlanModel>::empty();
        assert forall|src: Source|
            #![trigger rewrite_from(src, mkv@, top@, tracks_idx as int, new_tracks@, none)]
            rewrite_from(src, mkv@, top@, tracks_idx as int, new_tracks@, none) == rewrite_found(
                src,
                mkv@,
                top@,
            ) by {
            if let Ok(plans) = plans_from(src, top@, tracks_idx as int, new_tracks@, 0) {
                assert(none + plans =~= plans);
            }
        }
    }
    let plans: Vec<ChildPlan> = Vec::new();
    assert(plan_models(plans@) =~= Seq::<PlanModel>::empty());
    load_on(mkv, top, tracks_idx, new_tracks, plans)
}

/// The next stage with the first plans made: makes those that need no read.
fn load_on<'a>(
    mkv: &'a MkvFile,
    top: Vec<TopChild>,
    tracks_idx: usize,
    new_tracks: Vec<u8>,
    plans: Vec<ChildPlan>,
) -> (t: SaveTask<'a>)
    requires
        mkv@.valid(),
        mkv@.file_len <= usize::MAX,
        load_ready(mkv@, top@, tracks_idx as int, plan_models(plans@)),
    ensures
        t.wf(),
        t.mkv@ == mkv@,
        t.phase() <= 1,
        t.phase() == 1 ==> t.left() <= top@.len() - plans@.len(),
        forall|src: Source| #[trigger]
            t.outcome(src) == rewrite_from(
                src,
                mkv@,
                top@,
                tracks_idx as int,
                new_tracks@,
                plan_models(plans@),
            ),
{
    match plan_ahead(mkv, &top, tracks_idx, &new_tracks, plans) {
        Err(e) => SaveTask { mkv, stage: SaveStage::Done(Err(e)) },
        Ok(plans) => {
            if plans.len() < top.len() {
                proof {
                    assert forall|src: Source| #[trigger]
                        rewrite_searched(
                            src,
                            mkv@,
                            top@,
                            tracks_idx as int,
                            new_tracks@,
                            plan_models(plans@),
                            0,
                        ) == rewrite_from(src, mkv@, top@, tracks_idx as int, new_tracks@, plan_models(plans@)) by {
                        lemma_search_starts(
                            src,
                            mkv@,
                            top@,
                            tracks_idx as int,
                            new_tracks@,
                            plan_models(plans@),
                        );
                    }
                }
                let stage = SaveStage::Load { top, tracks_idx, new_tracks, plans, searched: 0 };
                SaveTask { mkv, stage }
            } else {
                plan_rewrite(mkv, top, tracks_idx, new_tracks, plans)
            }
        },
    }
}

/// Makes the plans that need no read, up to the first child that needs one.
fn plan_ahead(
    mkv: &MkvFile,
    top: &Vec<TopChild>,
    tracks_idx: usize,
    new_tracks: &Vec<u8>,
    plans: Vec<ChildPlan>,
) -> (r: Result<Vec<ChildPlan>, String>)
    requires
        mkv@.valid(),
        load_ready(mkv@, top@, tracks_idx as int, plan_models(plans@)),
    ensures
        match r {
            Ok(more) => {
                &&& load_ready(mkv@, top@, tracks_idx as int, plan_models(more@))
                &&& more@.len() >= plans@.len()
                &&& more@.len() < top@.len() ==> plan_read(
                    top@[more@.len() as int],
                    more@.len() == tracks_idx,
                    0,
                ) is Some
                &&& forall|src: Source| #[trigger]
                    rewrite_from(
                        src,
                        mkv@,
                        top@,
                        tracks_idx as int,
                        new_tracks@,
                        plan_models(more@),
                    ) == rewrite_from(
                        src,
                        mkv@,
                        top@,
                        tracks_idx as int,
                        new_tracks@,
                        plan_models(plans@),
                    )
            },
            Err(e) => forall|src: Source| #[trigger]
                rewrite_from(
                    src,
                    mkv@,
                    top@,
                    tracks_idx as int,
                    new_tracks@,
                    plan_models(plans@),
                ) == Err::<SaveModel, Seq<char>>(e@),
        },
{
    let ghost first = plan_models(plans@);
    let mut made = plans;
    while made.len() < top.len()
        invariant
            mkv@.valid(),
            load_ready(mkv@, top@, tracks_idx as int, plan_models(made@)),
            first == plan_models(plans@),
            made@.len() >= first.len(),
            forall|src: Source| #[trigger]
                rewrite_from(src, mkv@, top@, tracks_idx as int, new_tracks@, first)
                    == rewrite_from(
                    src,
                    mkv@,
                    top@,
                    tracks_idx as int,
                    new_tracks@,
                    plan_models(made@),
                ),
        ensures
            made@.len() < top@.len() ==> plan_read(
                top@[made@.len() as int],
                made@.len() == tracks_idx,
                0,
            ) is Some,
        decreases top@.len() - made@.len(),
    {
        let i: usize = made.len();
        assert(top@[i as int].end_at() <= MAX_FILE_LEN);
        if read_for(&top[i], i == tracks_idx, 0).is_some() {
            break ;
        }
        let ghost before = plan_models(made@);
        match plan_without_read(&top[i], i == tracks_idx, new_tracks) {
            Err(e) => {
                proof {
                    assert forall|src: Source| #[trigger]
                        rewrite_from(src, mkv@, top@, tracks_idx as int, new_tracks@, first) == Err::<
                            SaveModel,
                            Seq<char>,
                        >(e@) by {
                        assert(plan_of(src, top@[i as int], i == tracks_idx, new_tracks@) == Err::<
                            PlanModel,
                            Seq<char>,
                        >(e@));
                        assert(rewrite_from(
                            src,
                            mkv@,
                            top@,
                            tracks_idx as int,
                            new_tracks@,
                            before,
                        ) == Err::<SaveModel, Seq<char>>(e@));
                    }
                }
                return Err(e);
            },
            Ok(plan) => {
                made.push(plan);
                proof {
                    assert(plan_models(made@) =~= before.push(plan@));
                    assert forall|src: Source| #[trigger]
                        rewrite_from(src, mkv@, top@, tracks_idx as int, new_tracks@, first)
                            == rewrite_from(
                            src,
                            mkv@,
                            top@,
                            tracks_idx as int,
                            new_tracks@,
                            plan_models(made@),
                        ) by {
                        assert(plan_of(src, top@[i as int], i == tracks_idx, new_tracks@) == Ok::<
                            PlanModel,
                            Seq<char>,
                        >(plan@));
                        lemma_rewrite_step(
                            src,
                            mkv@,
                            top@,
                            tracks_idx as int,
                            new_tracks@,
                            before,
                            plan@,
                        );
                    }
                }
            },
        }
    }
    Ok(made)
}


/// What is reported of a rewrite.
fn rewrite_message(mkv: &MkvFile, new_len: u64, old_len: u64) -> (r: String)
    ensures
        r@ == rewrite_text(mkv@, new_len - old_len),
{
    let mut out = "rewrote ".to_owned();
    match &mkv.path.name {
        Some(name) => {
            out.append(name);
        },
        None => {},
    }
    out.append(" (Tracks grew by ");
    if new_len < old_len {
        out.push('-');
        push_decimal(&mut out, old_len - new_len);
    } else {
        push_decimal(&mut out, new_len - old_len);
    }
    out.append(" bytes, ");
    push_decimal(&mut out, mkv.file_len);
    out.append(" bytes copied)");
    assert(out@ =~= rewrite_text(mkv@, new_len - old_len));
    out
}

/// The sum of some lengths.
fn add_up(lens: &Vec<u64>) -> (r: u64)
    requires
        sum(lens@) <= MAX_FILE_LEN,
    ensures
        r == sum(lens@),
{
    let mut acc: u64 = 0;
    let mut i: usize = 0;
    while i < lens.len()
        invariant
            i <= lens@.len(),
            sum(lens@) <= MAX_FILE_LEN,
            acc == sum(lens@.take(i as int)),
        decreases lens@.len() - i,
    {
        proof {
            lemma_sum_take(lens@, i as int);
        }
        acc = acc + lens[i];
        i += 1;
    }
    assert(lens@.take(i as int) =~= lens@);
    acc
}

/// The pieces of the new file one after the other.
fn collect_pieces(mkv: &MkvFile, lens: &Vec<u64>, children: Vec<Vec<Piece>>) -> (r: Vec<Piece>)
    requires
        mkv@.valid(),
        sum(lens@) <= MAX_FILE_LEN,
    ensures
        piece_models(r@) == new_file(mkv@, lens@, layout_models(children@)),
{
    let ghost all = layout_models(children@);
    let mut header: Vec<u8> = Vec::new();
    write_id(&mut header, id::SEGMENT);
    let total: u64 = add_up(lens);
    proof {
        lemma_size_size(total);
    }
    write_size_with_len(&mut header, total, 8);
    assert(header@ =~= segment_header(total));
    let mut out: Vec<Piece> = Vec::new();
    out.push(Piece::Copy { off: 0, len: mkv.segment_start });
    out.push(Piece::Bytes(header));
    let ghost front = piece_models(out@);
    let mut children = children;
    let n: usize = children.len();
    let mut i: usize = 0;
    proof {
        assert(front =~= front + flat(all.take(0)));
    }
    while i < n
        invariant
            i <= n,
            n == children@.len(),
            n == all.len(),
            forall|k: int| i <= k < n ==> piece_models((#[trigger] children@[k])@) == all[k],
            piece_models(out@) == front + flat(all.take(i as int)),
        decreases n - i,
    {
        let ghost had = out@;
        let ghost more = children@[i as int]@;
        out.append(&mut children[i]);
        proof {
            assert(piece_models(out@) =~= piece_models(had) + piece_models(more));
            assert(all.take(i + 1).drop_last() =~= all.take(i as int));
            assert(all.take(i + 1).last() == all[i as int]);
            assert(front + flat(all.take(i as int)) + all[i as int] =~= front + flat(all.take(i + 1)));
        }
        i += 1;
    }
    assert(all.take(i as int) =~= all);
    let ghost had = piece_models(out@);
    let behind = Piece::Copy { off: mkv.segment_end, len: mkv.file_len - mkv.segment_end };
    out.push(behind);
    assert(piece_models(out@) =~= had.push(behind@));
    assert(piece_models(out@) =~= new_file(mkv@, lens@, all));
    out
}

/// Lays out the new file.
fn plan_rewrite<'a>(
    mkv: &'a MkvFile,
    top: Vec<TopChild>,
    tracks_idx: usize,
    new_tracks: Vec<u8>,
    plans: Vec<ChildPlan>,
) -> (t: SaveTask<'a>)
    requires
        mkv@.valid(),
        mkv@.file_len <= usize::MAX,
        load_ready(mkv@, top@, tracks_idx as int, plan_models(plans@)),
        plans@.len() == top@.len(),
    ensures
        t.wf(),
        t.mkv@ == mkv@,
        t.stage is Done,
        save_view(t.stage->Done_0) == rewrite_planned(
            mkv@,
            top@,
            tracks_idx as int,
            new_tracks@,
            plan_models(plans@),
        ),
        forall|src: Source| #[trigger]
            t.outcome(src) == rewrite_from(
                src,
                mkv@,
                top@,
                tracks_idx as int,
                new_tracks@,
                plan_models(plans@),
            ),
{
    let ghost pm = plan_models(plans@);
    proof {
        assert(pm + Seq::<PlanModel>::empty() =~= pm);
    }
    let mut lens: Vec<u64> = Vec::new();
    let mut i: usize = 0;
    while i < top.len()
        invariant
            i <= top@.len(),
            forall|k: int| 0 <= k < top@.len() ==> (#[trigger] top@[k]).end_at() <= MAX_FILE_LEN,
            lens@ == extents(top@).take(i as int),
        decreases top@.len() - i,
    {
        assert(top@[i as int].end_at() <= MAX_FILE_LEN);
        lens.push(top[i].total_len());
        i += 1;
        assert(lens@ =~= extents(top@).take(i as int));
    }
    lens.set(tracks_idx, new_tracks.len() as u64);
    assert(lens@ =~= extents(top@).update(tracks_idx as int, new_tracks@.len() as u64));
    assert(layout_ready(top@, pm, mkv@.segment_data_start)) by {
        assert forall|i: int| 0 <= i < top@.len() implies {
            &&& mkv@.segment_data_start <= (#[trigger] top@[i]).start
            &&& top@[i].end_at() <= MAX_FILE_LEN
            &&& top@[i].size <= usize::MAX
            &&& plan_fits(top@[i], pm[i])
        } by {
            assert(top@[i].end_at() <= mkv@.segment_end);
        }
    }
    match settle(&top, &plans, mkv.segment_data_start, lens) {
        None => {
            let e = "could not settle the new file layout".to_owned();
            SaveTask { mkv, stage: SaveStage::Done(Err(e)) }
        },
        Some((settled, children)) => {
            proof {
                law_layout_is_a_fixed_point(
                    top@,
                    pm,
                    mkv@.segment_data_start,
                    extents(top@).update(tracks_idx as int, new_tracks@.len() as u64),
                    MAX_ROUNDS as nat,
                );
            }
            let pieces = collect_pieces(mkv, &settled, children);
            let message = rewrite_message(mkv, new_tracks.len() as u64, top[tracks_idx].total_len());
            let plan = SavePlan {
                action: SaveAction::Replace { pieces },
                report: SaveReport { mode: SaveMode::Rewrite, message },
            };
            SaveTask { mkv, stage: SaveStage::Done(Ok(plan)) }
        },
    }
}

} // verus!
