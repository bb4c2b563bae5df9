//! Solving the layout of a rewritten file.
//!
//! Sizes feed back into the positions they encode, so the layout is iterated to
//! a fixed point. Two rounds are enough in practice.

use vstd::prelude::*;

use crate::ebml::element::Element;
use crate::ebml::tree::copy_bytes;
#[allow(unused_imports)]
use crate::ebml::node::{encoded, Node};
use crate::edit::piece::{cluster_pieces, pieces_len, Piece, PositionSlot};
#[allow(unused_imports)]
use crate::edit::piece::{cluster_pieces_of, lemma_total_len_push, piece_models, slot_fits, total_len, PieceModel};
use crate::edit::remap::{remap_cues, remap_seek_head, Moves};
#[allow(unused_imports)]
use crate::edit::remap::{cues_moved, seek_head_moved, MovesModel};
use crate::mkv::child::TopChild;
use crate::mkv::source::MAX_FILE_LEN;

verus! {

/// How often the layout is worked out anew before it is given up.
pub const MAX_ROUNDS: u32 = 8;

/// What becomes of a child of the Segment.
#[derive(Debug)]
pub enum ChildPlan {
    Copy,
    Tracks(Vec<u8>),
    SeekHead(Element),
    Cues(Element),
    Cluster { slot: Option<PositionSlot> },
}

/// The model of [`ChildPlan`].
pub enum PlanModel {
    Copy,
    Tracks(Seq<u8>),
    SeekHead(Node),
    Cues(Node),
    Cluster { slot: Option<PositionSlot> },
}

impl View for ChildPlan {
    type V = PlanModel;

    open spec fn view(&self) -> PlanModel {
        match *self {
            ChildPlan::Copy => PlanModel::Copy,
            ChildPlan::Tracks(b) => PlanModel::Tracks(b@),
            ChildPlan::SeekHead(e) => PlanModel::SeekHead(e@),
            ChildPlan::Cues(e) => PlanModel::Cues(e@),
            ChildPlan::Cluster { slot } => PlanModel::Cluster { slot },
        }
    }
}

/// The models of plans in order.
pub open spec fn plan_models(s: Seq<ChildPlan>) -> Seq<PlanModel> {
    s.map_values(|p: ChildPlan| p@)
}

/// Whether the plan is one for the child.
pub open spec fn plan_fits(c: TopChild, plan: PlanModel) -> bool {
    match plan {
        PlanModel::Cluster { slot: Some(slot) } => slot_fits(c, slot),
        _ => true,
    }
}

/// The sum of some lengths.
pub open spec fn sum(lens: Seq<u64>) -> nat
    decreases lens.len(),
{
    if lens.len() == 0 {
        0
    } else {
        sum(lens.drop_last()) + lens.last() as nat
    }
}

pub proof fn lemma_sum_take(lens: Seq<u64>, i: int)
    requires
        0 <= i < lens.len(),
    ensures
        sum(lens.take(i + 1)) == sum(lens.take(i)) + lens[i],
        sum(lens.take(i)) + lens[i] <= sum(lens),
    decreases lens.len(),
{
    assert(lens.take(i + 1).drop_last() =~= lens.take(i));
    if i == lens.len() - 1 {
        assert(lens.take(i + 1) =~= lens);
    } else {
        lemma_sum_take(lens.drop_last(), i);
        assert(lens.drop_last().take(i) =~= lens.take(i));
        assert(lens.drop_last()[i] == lens[i]);
    }
}

/// Where each of some elements starts when they stand one after the other.
pub open spec fn starts_of(lens: Seq<u64>) -> Seq<u64> {
    Seq::new(lens.len(), |i: int| sum(lens.take(i)) as u64)
}

/// Where each child stood, relative to the start of the Segment's payload.
pub open spec fn old_places(top: Seq<TopChild>, base: u64) -> Seq<u64> {
    Seq::new(top.len(), |i: int| (top[i].start - base) as u64)
}

/// How long each child was.
pub open spec fn extents(top: Seq<TopChild>) -> Seq<u64> {
    Seq::new(top.len(), |i: int| top[i].extent() as u64)
}

/// How children move when their lengths become `lens`.
pub open spec fn moves_of(top: Seq<TopChild>, base: u64, lens: Seq<u64>) -> MovesModel {
    MovesModel {
        old_rel: old_places(top, base),
        old_len: extents(top),
        starts: starts_of(lens),
        new_len: lens,
    }
}

/// The whole child as it is.
pub open spec fn copied(c: TopChild) -> Seq<PieceModel> {
    seq![PieceModel::Copy { off: c.start, len: c.extent() as u64 }]
}

/// What a child is made of in the new layout.
pub open spec fn child_pieces_of(
    c: TopChild,
    plan: PlanModel,
    m: MovesModel,
    new_rel: u64,
) -> Seq<PieceModel> {
    match plan {
        PlanModel::Copy => copied(c),
        PlanModel::Tracks(b) => seq![PieceModel::Bytes(b)],
        PlanModel::SeekHead(n) => seq![PieceModel::Bytes(encoded(seek_head_moved(n, m)))],
        PlanModel::Cues(n) => seq![PieceModel::Bytes(encoded(cues_moved(n, m)))],
        PlanModel::Cluster { slot } => match slot {
            None => copied(c),
            Some(slot) => cluster_pieces_of(c, slot, new_rel),
        },
    }
}

/// What the children are made of when their lengths are `lens`.
pub open spec fn round_of(
    top: Seq<TopChild>,
    plans: Seq<PlanModel>,
    base: u64,
    lens: Seq<u64>,
) -> Seq<Seq<PieceModel>> {
    Seq::new(
        top.len(),
        |i: int|
            child_pieces_of(top[i], plans[i], moves_of(top, base, lens), starts_of(lens)[i]),
    )
}

/// How long children are that are made of these pieces.
pub open spec fn lens_of(pieces: Seq<Seq<PieceModel>>) -> Seq<u64> {
    Seq::new(pieces.len(), |i: int| total_len(pieces[i]) as u64)
}

/// Whether each child's length can be told.
pub open spec fn all_fit(pieces: Seq<Seq<PieceModel>>) -> bool {
    forall|i: int| 0 <= i < pieces.len() ==> total_len(#[trigger] pieces[i]) <= u64::MAX
}

/// The layout that the lengths settle to: the lengths that the children have
/// when laid out by just these lengths, and what they are made of. None where
/// the rounds do not get there, or the whole would be longer than a file can be.
#[verifier::opaque]
pub open spec fn settled_layout(
    top: Seq<TopChild>,
    plans: Seq<PlanModel>,
    base: u64,
    lens: Seq<u64>,
    rounds: nat,
) -> Option<(Seq<u64>, Seq<Seq<PieceModel>>)>
    decreases rounds,
{
    if rounds == 0 || sum(lens) > MAX_FILE_LEN {
        None
    } else {
        let pieces = round_of(top, plans, base, lens);
        let next = lens_of(pieces);
        if !all_fit(pieces) {
            None
        } else if next == lens {
            Some((lens, pieces))
        } else {
            settled_layout(top, plans, base, next, (rounds - 1) as nat)
        }
    }
}

/// One round of settling a layout.
proof fn lemma_settle_round(
    top: Seq<TopChild>,
    plans: Seq<PlanModel>,
    base: u64,
    lens: Seq<u64>,
    rounds: nat,
    pieces: Seq<Seq<PieceModel>>,
)
    requires
        pieces == round_of(top, plans, base, lens),
        all_fit(pieces),
    ensures
        rounds > 0 && sum(lens) <= MAX_FILE_LEN && lens_of(pieces) == lens ==> settled_layout(
            top,
            plans,
            base,
            lens,
            rounds,
        ) == Some((lens, pieces)),
        rounds > 0 && sum(lens) <= MAX_FILE_LEN && lens_of(pieces) != lens ==> settled_layout(
            top,
            plans,
            base,
            lens,
            rounds,
        ) == settled_layout(top, plans, base, lens_of(pieces), (rounds - 1) as nat),
{
    reveal(settled_layout);
}

/// No layout comes of no rounds, or of lengths that no file can have.
proof fn lemma_settle_none(
    top: Seq<TopChild>,
    plans: Seq<PlanModel>,
    base: u64,
    lens: Seq<u64>,
    rounds: nat,
)
    requires
        rounds == 0 || sum(lens) > MAX_FILE_LEN,
    ensures
        settled_layout(top, plans, base, lens, rounds) is None,
{
    reveal(settled_layout);
}

/// A layout that was settled is a fixed point.
pub proof fn law_layout_is_a_fixed_point(
    top: Seq<TopChild>,
    plans: Seq<PlanModel>,
    base: u64,
    lens: Seq<u64>,
    rounds: nat,
)
    ensures
        match settled_layout(top, plans, base, lens, rounds) {
            Some((settled, pieces)) => {
                &&& pieces == round_of(top, plans, base, settled)
                &&& lens_of(pieces) == settled
                &&& all_fit(pieces)
                &&& sum(settled) <= MAX_FILE_LEN
            },
            None => true,
        },
    decreases rounds,
{
    reveal(settled_layout);
    if rounds > 0 && sum(lens) <= MAX_FILE_LEN {
        let next = lens_of(round_of(top, plans, base, lens));
        if next != lens && all_fit(round_of(top, plans, base, lens)) {
            law_layout_is_a_fixed_point(top, plans, base, next, (rounds - 1) as nat);
        }
    }
}

/// Whether the children and their plans can be laid out.
pub open spec fn layout_ready(top: Seq<TopChild>, plans: Seq<PlanModel>, base: u64) -> bool {
    &&& plans.len() == top.len()
    &&& forall|i: int|
        0 <= i < top.len() ==> {
            &&& base <= (#[trigger] top[i]).start
            &&& top[i].end_at() <= MAX_FILE_LEN
            &&& top[i].size <= usize::MAX
            &&& plan_fits(top[i], plans[i])
        }
}

/// Where each of some elements starts when they stand one after the other.
/// None where the whole is longer than a file can be.
fn lay_starts(lens: &Vec<u64>) -> (r: Option<Vec<u64>>)
    ensures
        match r {
            Some(starts) => starts@ == starts_of(lens@) && sum(lens@) <= MAX_FILE_LEN,
            None => sum(lens@) > MAX_FILE_LEN,
        },
{
    let mut starts: Vec<u64> = Vec::new();
    let mut acc: u64 = 0;
    let mut i: usize = 0;
    while i < lens.len()
        invariant
            i <= lens@.len(),
            starts@ == starts_of(lens@).take(i as int),
            acc == sum(lens@.take(i as int)),
            acc <= MAX_FILE_LEN,
        decreases lens@.len() - i,
    {
        proof {
            lemma_sum_take(lens@, i as int);
        }
        if lens[i] > MAX_FILE_LEN - acc {
            return None;
        }
        starts.push(acc);
        acc = acc + lens[i];
        i += 1;
        assert(starts@ =~= starts_of(lens@).take(i as int));
    }
    assert(lens@.take(i as int) =~= lens@);
    assert(starts_of(lens@).take(i as int) =~= starts_of(lens@));
    Some(starts)
}

/// What a child is made of in the new layout.
fn child_pieces(c: &TopChild, plan: &ChildPlan, m: &Moves, new_rel: u64) -> (r: Vec<Piece>)
    requires
        m@.wf(),
        c.end_at() <= MAX_FILE_LEN,
        c.size <= usize::MAX,
        plan_fits(*c, plan@),
    ensures
        piece_models(r@) == child_pieces_of(*c, plan@, m@, new_rel),
        total_len(piece_models(r@)) <= u64::MAX,
{
    let piece = match plan {
        ChildPlan::Copy => Piece::Copy { off: c.start, len: c.total_len() },
        ChildPlan::Tracks(b) => Piece::Bytes(copy_bytes(b)),
        ChildPlan::SeekHead(el) => Piece::Bytes(remap_seek_head(el, m).to_bytes()),
        ChildPlan::Cues(el) => Piece::Bytes(remap_cues(el, m).to_bytes()),
        ChildPlan::Cluster { slot } => match slot {
            None => Piece::Copy { off: c.start, len: c.total_len() },
            Some(slot) => {
                return cluster_pieces(c, slot, new_rel);
            },
        },
    };
    let mut out: Vec<Piece> = Vec::new();
    out.push(piece);
    proof {
        let none = Seq::<PieceModel>::empty();
        assert(piece_models(out@) =~= none.push(piece@));
        assert(piece_models(out@) =~= child_pieces_of(*c, plan@, m@, new_rel));
        lemma_total_len_push(none, piece@);
        assert(piece is Bytes ==> piece->Bytes_0.len() == piece->Bytes_0@.len());
    }
    out
}

/// The models of the pieces of each child.
pub open spec fn layout_models(s: Seq<Vec<Piece>>) -> Seq<Seq<PieceModel>> {
    s.map_values(|v: Vec<Piece>| piece_models(v@))
}

/// What the children are made of when their lengths are those in `m`, and how
/// long they are then.
fn lay_round(top: &Vec<TopChild>, plans: &Vec<ChildPlan>, base: Ghost<u64>, m: &Moves) -> (r: (
    Vec<Vec<Piece>>,
    Vec<u64>,
))
    requires
        layout_ready(top@, plan_models(plans@), base@),
        m@ == moves_of(top@, base@, m@.new_len),
        m@.new_len.len() == top@.len(),
        m@.wf(),
    ensures
        layout_models(r.0@) == round_of(top@, plan_models(plans@), base@, m@.new_len),
        r.1@ == lens_of(layout_models(r.0@)),
        all_fit(layout_models(r.0@)),
{
    let ghost pm = plan_models(plans@);
    let ghost want = round_of(top@, pm, base@, m@.new_len);
    let mut pieces: Vec<Vec<Piece>> = Vec::new();
    let mut lens: Vec<u64> = Vec::new();
    let mut i: usize = 0;
    while i < top.len()
        invariant
            i <= top@.len(),
            pm == plan_models(plans@),
            want == round_of(top@, pm, base@, m@.new_len),
            layout_ready(top@, pm, base@),
            m@ == moves_of(top@, base@, m@.new_len),
            m@.new_len.len() == top@.len(),
            m@.wf(),
            pieces@.len() == i,
            lens@.len() == i,
            forall|k: int|
                0 <= k < i ==> piece_models((#[trigger] pieces@[k])@) == want[k] && lens@[k]
                    == total_len(want[k]) && total_len(want[k]) <= u64::MAX,
        decreases top@.len() - i,
    {
        assert(plan_fits(top@[i as int], pm[i as int]));
        assert(pm[i as int] == plans@[i as int]@);
        let p = child_pieces(&top[i], &plans[i], m, m.starts[i]);
        lens.push(pieces_len(&p));
        pieces.push(p);
        i += 1;
    }
    assert(layout_models(pieces@) =~= want);
    assert(lens@ =~= lens_of(layout_models(pieces@)));
    (pieces, lens)
}

/// Whether two lists of lengths are the same.
fn same_lens(a: &Vec<u64>, b: &Vec<u64>) -> (r: bool)
    ensures
        r == (a@ == b@),
{
    if a.len() != b.len() {
        return false;
    }
    let mut i: usize = 0;
    while i < a.len()
        invariant
            i <= a@.len(),
            a@.len() == b@.len(),
            forall|k: int| 0 <= k < i ==> a@[k] == b@[k],
        decreases a@.len() - i,
    {
        if a[i] != b[i] {
            return false;
        }
        i += 1;
    }
    assert(a@ =~= b@);
    true
}

/// Children keep within reach however they move.
proof fn lemma_moves_wf(top: Seq<TopChild>, plans: Seq<PlanModel>, base: u64, lens: Seq<u64>)
    requires
        layout_ready(top, plans, base),
        lens.len() == top.len(),
        sum(lens) <= MAX_FILE_LEN,
    ensures
        moves_of(top, base, lens).wf(),
{
    let m = moves_of(top, base, lens);
    assert forall|i: int| 0 <= i < m.old_rel.len() implies (#[trigger] m.old_rel[i]) + m.old_len[i]
        <= u64::MAX by {
        assert(top[i].end_at() <= MAX_FILE_LEN);
    }
    assert forall|i: int| 0 <= i < m.old_rel.len() implies (#[trigger] m.starts[i]) + m.old_len[i]
        <= u64::MAX by {
        lemma_sum_take(lens, i);
        assert(top[i].end_at() <= MAX_FILE_LEN);
    }
    assert forall|i: int| 0 <= i < m.old_rel.len() implies (#[trigger] m.starts[i]) + m.new_len[i]
        <= u64::MAX by {
        lemma_sum_take(lens, i);
    }
}

/// Solves the layout, starting from the lengths `lens`.
pub fn settle(top: &Vec<TopChild>, plans: &Vec<ChildPlan>, base: u64, lens: Vec<u64>) -> (r: Option<
    (Vec<u64>, Vec<Vec<Piece>>),
>)
    requires
        layout_ready(top@, plan_models(plans@), base),
        lens@.len() == top@.len(),
    ensures
        match r {
            Some((settled, pieces)) => settled_layout(
                top@,
                plan_models(plans@),
                base,
                lens@,
                MAX_ROUNDS as nat,
            ) == Some((settled@, layout_models(pieces@))),
            None => settled_layout(top@, plan_models(plans@), base, lens@, MAX_ROUNDS as nat) is None,
        },
{
    let ghost pm = plan_models(plans@);
    let ghost want = settled_layout(top@, pm, base, lens@, MAX_ROUNDS as nat);
    let mut old_rel: Vec<u64> = Vec::new();
    let mut old_len: Vec<u64> = Vec::new();
    let mut i: usize = 0;
    while i < top.len()
        invariant
            i <= top@.len(),
            layout_ready(top@, pm, base),
            old_rel@ == old_places(top@, base).take(i as int),
            old_len@ == extents(top@).take(i as int),
        decreases top@.len() - i,
    {
        assert(top@[i as int].end_at() <= MAX_FILE_LEN);
        old_rel.push(top[i].start - base);
        old_len.push(top[i].total_len());
        i += 1;
        assert(old_rel@ =~= old_places(top@, base).take(i as int));
        assert(old_len@ =~= extents(top@).take(i as int));
    }
    assert(old_rel@ =~= old_places(top@, base));
    assert(old_len@ =~= extents(top@));
    let mut moves = Moves { old_rel, old_len, starts: Vec::new(), new_len: lens };
    let mut round: u32 = 0;
    while round < MAX_ROUNDS
        invariant
            round <= MAX_ROUNDS,
            pm == plan_models(plans@),
            layout_ready(top@, pm, base),
            moves@.old_rel == old_places(top@, base),
            moves@.old_len == extents(top@),
            moves@.new_len.len() == top@.len(),
            settled_layout(top@, pm, base, moves@.new_len, (MAX_ROUNDS - round) as nat) == want,
            want == settled_layout(top@, pm, base, lens@, MAX_ROUNDS as nat),
        decreases MAX_ROUNDS - round,
    {
        match lay_starts(&moves.new_len) {
            None => {
                proof {
                    lemma_settle_none(
                        top@,
                        pm,
                        base,
                        moves@.new_len,
                        (MAX_ROUNDS - round) as nat,
                    );
                }
                return None;
            },
            Some(starts) => {
                moves.starts = starts;
            },
        }
        proof {
            assert(moves@ == moves_of(top@, base, moves@.new_len));
            lemma_moves_wf(top@, pm, base, moves@.new_len);
        }
        let (pieces, sizes) = lay_round(top, plans, Ghost(base), &moves);
        proof {
            lemma_settle_round(
                top@,
                pm,
                base,
                moves@.new_len,
                (MAX_ROUNDS - round) as nat,
                layout_models(pieces@),
            );
        }
        if same_lens(&sizes, &moves.new_len) {
            return Some((sizes, pieces));
        }
        moves.new_len = sizes;
        round += 1;
    }
    proof {
        lemma_settle_none(top@, pm, base, moves@.new_len, 0);
    }
    None
}

} // verus!
