//! Carrying out a save on an image of the file.

use vstd::prelude::*;
use vstd::string::*;

use crate::ebml::tree::copy_bytes;
#[allow(unused_imports)]
use crate::ebml::node::payload;
use crate::edit::piece::Piece;
#[allow(unused_imports)]
use crate::edit::piece::{laid_out, piece_models, PieceModel};
#[allow(unused_imports)]
use crate::edit::region::{lemma_region_len, lemma_slack_end, region_of, slack_end};
use crate::edit::save::{check_unchanged, SaveAction, SaveMode, SavePlan, SaveReport, SaveTask};
#[allow(unused_imports)]
use crate::edit::save::{rewrite_outcome, save_outcome, save_view, ActionModel};
use crate::mkv::file::{MkvFile, Timestamp};
#[allow(unused_imports)]
use crate::mkv::file::MkvModel;
use crate::mkv::source::read_image;
#[allow(unused_imports)]
use crate::mkv::source::{answer, file_source, Source};

verus! {

/// The file with `bytes` over what stands at `at`.
pub open spec fn patched(file: Seq<u8>, at: int, bytes: Seq<u8>) -> Seq<u8> {
    file.take(at) + bytes + file.skip(at + bytes.len())
}

/// Whether a piece only copies what the file holds.
pub open spec fn within_file(p: PieceModel, len: nat) -> bool {
    match p {
        PieceModel::Copy { off, len: n } => n == 0 || off + n <= len,
        PieceModel::Bytes(_) => true,
    }
}

/// Whether the pieces only copy what the file holds.
pub open spec fn all_within_file(pieces: Seq<PieceModel>, len: nat) -> bool {
    forall|i: int| 0 <= i < pieces.len() ==> within_file(#[trigger] pieces[i], len)
}

/// The file once the action has been carried out.
pub open spec fn applied(action: ActionModel, file: Seq<u8>) -> Result<Seq<u8>, Seq<char>> {
    match action {
        ActionModel::Patch { at, bytes } => Ok(patched(file, at as int, bytes)),
        ActionModel::Replace { pieces } => if all_within_file(pieces, file.len()) {
            Ok(laid_out(pieces, file))
        } else {
            Err("unexpected end of file while copying"@)
        },
    }
}

impl SaveAction {
    /// The file once the action has been carried out.
    pub fn apply(&self, image: &[u8]) -> (r: Result<Vec<u8>, String>)
        requires
            self@ matches ActionModel::Patch { at, bytes } ==> at + bytes.len() <= image@.len(),
        ensures
            match r {
                Ok(out) => applied(self@, image@) == Ok::<Seq<u8>, Seq<char>>(out@),
                Err(e) => applied(self@, image@) == Err::<Seq<u8>, Seq<char>>(e@),
            },
    {
        match self {
            SaveAction::Patch { at, bytes } => {
                let n: usize = image.len();
                let from: usize = *at as usize;
                let mut out = copy_bytes(vstd::slice::slice_subrange(image, 0, from));
                let mut middle = copy_bytes(bytes);
                out.append(&mut middle);
                let mut tail = copy_bytes(
                    vstd::slice::slice_subrange(image, from + bytes.len(), n),
                );
                out.append(&mut tail);
                assert(out@ =~= patched(image@, *at as int, bytes@));
                Ok(out)
            },
            SaveAction::Replace { pieces } => lay_out(pieces, image),
        }
    }
}

/// Copies and writes the pieces one after the other.
fn lay_out(pieces: &Vec<Piece>, image: &[u8]) -> (r: Result<Vec<u8>, String>)
    ensures
        match r {
            Ok(out) => all_within_file(piece_models(pieces@), image@.len()) && out@ == laid_out(
                piece_models(pieces@),
                image@,
            ),
            Err(e) => !all_within_file(piece_models(pieces@), image@.len()) && e@
                == "unexpected end of file while copying"@,
        },
{
    let ghost all = piece_models(pieces@);
    let mut out: Vec<u8> = Vec::new();
    let mut i: usize = 0;
    while i < pieces.len()
        invariant
            i <= pieces@.len(),
            all == piece_models(pieces@),
            forall|k: int| 0 <= k < i ==> within_file(#[trigger] all[k], image@.len()),
            out@ == laid_out(all.take(i as int), image@),
        decreases pieces@.len() - i,
    {
        proof {
            assert(all.take(i + 1).drop_last() =~= all.take(i as int));
            assert(all.take(i + 1).last() == pieces@[i as int]@);
            assert(all[i as int] == pieces@[i as int]@);
        }
        let mut bytes = match &pieces[i] {
            Piece::Copy { off, len } => {
                let bytes = read_image(image, *off, *len);
                if (bytes.len() as u64) < *len {
                    assert(!within_file(all[i as int], image@.len()));
                    return Err("unexpected end of file while copying".to_owned());
                }
                bytes
            },
            Piece::Bytes(b) => copy_bytes(b),
        };
        out.append(&mut bytes);
        i += 1;
    }
    assert(all.take(i as int) =~= all);
    Ok(out)
}

/// What saving a file comes to: the new bytes, how they came about, and what is
/// reported.
pub open spec fn saved(m: MkvModel, file: Seq<u8>, modified: Option<Timestamp>) -> Result<
    (Seq<u8>, SaveMode, Seq<char>),
    Seq<char>,
> {
    if file.len() != m.file_len || modified != m.modified {
        Err("the file changed on disk since it was read; press u to reload it"@)
    } else {
        match save_outcome(file_source(file), m) {
            Err(e) => Err(e),
            Ok(plan) => match applied(plan.action, file) {
                Err(e) => Err(e),
                Ok(bytes) => Ok((bytes, plan.mode, plan.message)),
            },
        }
    }
}

/// Works out from an image of the file what is to be written.
pub fn plan_save(mkv: &MkvFile, image: &[u8]) -> (r: Result<SavePlan, String>)
    requires
        mkv@.valid(),
        mkv@.file_len <= usize::MAX,
    ensures
        save_view(r) == save_outcome(file_source(image@), mkv@),
{
    let ghost src = file_source(image@);
    let ghost want = save_outcome(src, mkv@);
    let mut task = SaveTask::new(mkv);
    assert(task.outcome(src) == want);
    loop
        invariant
            task.wf(),
            src == file_source(image@),
            task.outcome(src) == want,
        ensures
            task.stage is Done,
        decreases task.phase(), task.left(), task.left_in_child(),
    {
        match task.wants() {
            None => {
                break ;
            },
            Some((pos, len)) => {
                let reply: Result<Vec<u8>, String> = Ok(read_image(image, pos, len));
                assert(src(pos, len) == answer(reply));
                let ghost before = task;
                task = task.supply(reply);
                assert(task.outcome(src) == before.outcome(src));
            },
        }
    }
    task.finish()
}

/// Saves a file whose bytes are `image`: the new bytes, and what is reported.
/// Refuses an image that is not the one that was read.
pub fn save(mkv: &MkvFile, image: &[u8], modified: Option<Timestamp>) -> (r: Result<
    (Vec<u8>, SaveReport),
    String,
>)
    requires
        mkv@.valid(),
    ensures
        match r {
            Ok((bytes, report)) => saved(mkv@, image@, modified) == Ok::<
                (Seq<u8>, SaveMode, Seq<char>),
                Seq<char>,
            >((bytes@, report.mode, report.message@)),
            Err(e) => saved(mkv@, image@, modified) == Err::<(Seq<u8>, SaveMode, Seq<char>), Seq<char>>(
                e@,
            ),
        },
{
    match check_unchanged(mkv, image.len() as u64, modified) {
        Err(e) => {
            return Err(e);
        },
        Ok(()) => {},
    }
    match plan_save(mkv, image) {
        Err(e) => Err(e),
        Ok(plan) => {
            proof {
                lemma_patch_within(file_source(image@), mkv@);
            }
            let SavePlan { action, report } = plan;
            match action.apply(image) {
                Err(e) => Err(e),
                Ok(bytes) => Ok((bytes, report)),
            }
        },
    }
}

/// A rewrite replaces the whole file.
pub proof fn lemma_rewrite_replaces(src: Source, m: MkvModel)
    ensures
        match rewrite_outcome(src, m) {
            Ok(plan) => plan.action is Replace && plan.mode == SaveMode::Rewrite,
            Err(_) => true,
        },
{
}

/// What is written in place lies within the Segment.
pub proof fn lemma_patch_within(src: Source, m: MkvModel)
    requires
        m.valid(),
    ensures
        match save_outcome(src, m) {
            Ok(plan) => plan.action matches ActionModel::Patch { at, bytes } ==> at + bytes.len()
                <= m.segment_end,
            Err(_) => true,
        },
{
    let tc = m.top[m.tracks_idx as int];
    assert(tc.end_at() <= m.segment_end);
    lemma_slack_end(src, tc.end_at() as u64, m.segment_end);
    let slack = slack_end(src, tc.end_at() as u64, m.segment_end);
    let body = payload(m.tracks);
    let avail = (slack - tc.start) as nat;
    if region_of(body, avail) is Some {
        lemma_region_len(body, avail);
    } else {
        lemma_rewrite_replaces(src, m);
    }
}

} // verus!
