//! Saving and discarding changes.

use vstd::prelude::*;
use vstd::string::*;

use crate::app::model::{file_label, App};
#[allow(unused_imports)]
use crate::app::model::{entry_valid, name_of, AppModel, EntryModel};
use crate::edit::save::{SaveMode, SaveReport};
use crate::mkv::file::MkvFile;
#[allow(unused_imports)]
use crate::mkv::file::MkvModel;
#[allow(unused_imports)]
use crate::mkv::open::opened_view;
use crate::text::push_decimal;
#[allow(unused_imports)]
use crate::text::decimal;

verus! {

/// A save that was carried out, and what came of opening the file again.
#[derive(Debug)]
pub struct Saved {
    pub report: SaveReport,
    pub reopened: Result<MkvFile, String>,
}

/// The model of [`Saved`].
pub struct SavedModel {
    pub mode: SaveMode,
    pub message: Seq<char>,
    pub reopened: Result<MkvModel, Seq<char>>,
}

impl View for Saved {
    type V = SavedModel;

    open spec fn view(&self) -> SavedModel {
        SavedModel {
            mode: self.report.mode,
            message: self.report.message@,
            reopened: opened_view(self.reopened),
        }
    }
}

/// The model of what came of a save.
pub open spec fn outcome_view(r: Result<Saved, String>) -> Result<SavedModel, Seq<char>> {
    match r {
        Ok(s) => Ok(s@),
        Err(e) => Err(e@),
    }
}

/// The models of what came of saves.
pub open spec fn outcome_views(s: Seq<(usize, Result<Saved, String>)>) -> Seq<
    (usize, Result<SavedModel, Seq<char>>),
> {
    s.map_values(|o: (usize, Result<Saved, String>)| (o.0, outcome_view(o.1)))
}

impl EntryModel {
    /// The entry with its file loaded again and nothing to save.
    pub open spec fn reloaded(self, reopened: Result<MkvModel, Seq<char>>) -> EntryModel {
        EntryModel { loaded: Some(reopened), dirty: false, ..self }
    }
}

impl AppModel {
    /// The file that saving the current file would save.
    pub open spec fn to_save(self) -> Option<usize> {
        if self.dirty_here() && self.current() is Some {
            Some(self.file_sel)
        } else {
            None
        }
    }

    /// The state once saving the current file was asked for.
    pub open spec fn save_asked(self) -> AppModel {
        if self.dirty_here() {
            self
        } else {
            self.with_status("no changes to save"@, false)
        }
    }

    /// The state once the current file was saved, or was not.
    pub open spec fn save_finished(self, outcome: Result<SavedModel, Seq<char>>) -> AppModel {
        match self.current() {
            None => self,
            Some(m) => match outcome {
                Ok(s) => self.with_entry(
                    self.file_sel as int,
                    self.files[self.file_sel as int].reloaded(s.reopened),
                ).with_status(
                    name_of(m.path) + ": "@ + s.message + (if s.mode == SaveMode::Rewrite {
                        " (file rewritten)"@
                    } else {
                        Seq::empty()
                    }),
                    false,
                ),
                Err(e) => self.with_status(name_of(m.path) + ": "@ + e, true),
            },
        }
    }

    /// Those of the first `n` files that have changes and could be loaded.
    pub open spec fn savable(self, n: int) -> Seq<usize>
        decreases n,
    {
        if n <= 0 {
            Seq::empty()
        } else if self.files[n - 1].dirty && self.files[n - 1].file() is Some {
            self.savable(n - 1).push((n - 1) as usize)
        } else {
            self.savable(n - 1)
        }
    }

    /// The files that saving every changed file would save; none at all where
    /// no file has changes.
    pub open spec fn all_to_save(self) -> Option<Seq<usize>> {
        if self.dirty_files() == 0 {
            None
        } else {
            Some(self.savable(self.files.len() as int))
        }
    }

    /// The state once saving every changed file was asked for.
    pub open spec fn save_all_asked(self) -> AppModel {
        if self.dirty_files() == 0 {
            self.with_status("no changes to save"@, false)
        } else {
            self
        }
    }

    /// The state with the files of the first `n` saves loaded again.
    pub open spec fn saves_done(
        self,
        outcomes: Seq<(usize, Result<SavedModel, Seq<char>>)>,
        n: int,
    ) -> AppModel
        decreases n,
    {
        if n <= 0 {
            self
        } else {
            let before = self.saves_done(outcomes, n - 1);
            let (i, outcome) = outcomes[n - 1];
            match outcome {
                Ok(s) => before.with_entry(i as int, before.files[i as int].reloaded(s.reopened)),
                Err(_) => before,
            }
        }
    }

    /// How many of the first `n` saves went well.
    pub open spec fn went_well(
        outcomes: Seq<(usize, Result<SavedModel, Seq<char>>)>,
        n: int,
    ) -> nat
        decreases n,
    {
        if n <= 0 {
            0
        } else {
            AppModel::went_well(outcomes, n - 1) + if outcomes[n - 1].1 is Ok {
                1nat
            } else {
                0nat
            }
        }
    }

    /// Why those of the first `n` saves that failed did.
    pub open spec fn failures(
        self,
        outcomes: Seq<(usize, Result<SavedModel, Seq<char>>)>,
        n: int,
    ) -> Seq<Seq<char>>
        decreases n,
    {
        if n <= 0 {
            Seq::empty()
        } else {
            let (i, outcome) = outcomes[n - 1];
            match outcome {
                Ok(_) => self.failures(outcomes, n - 1),
                Err(e) => self.failures(outcomes, n - 1).push(
                    self.files[i as int].label() + ": "@ + e,
                ),
            }
        }
    }

    /// The state once every changed file was saved, or was not.
    pub open spec fn save_all_finished(
        self,
        outcomes: Seq<(usize, Result<SavedModel, Seq<char>>)>,
    ) -> AppModel {
        let n = outcomes.len() as int;
        let saved = AppModel::went_well(outcomes, n);
        let failed = self.failures(outcomes, n);
        let next = self.saves_done(outcomes, n);
        if failed.len() == 0 {
            next.with_status("saved "@ + decimal(saved) + " file(s)"@, false)
        } else {
            next.with_status(
                "saved "@ + decimal(saved) + ", failed "@ + decimal(failed.len()) + ": "@
                    + failed[0],
                true,
            )
        }
    }

    /// The state once everything that could be saved before quitting was: done
    /// where nothing is left to save, else back to work.
    pub open spec fn quit_decided(self) -> AppModel {
        if self.dirty_files() == 0 {
            AppModel { should_quit: true, ..self }
        } else {
            AppModel { confirm_quit: false, ..self }
        }
    }

    /// The file that discarding the changes would load again.
    pub open spec fn to_revert(self) -> Option<usize> {
        if self.dirty_here() {
            Some(self.file_sel)
        } else {
            None
        }
    }

    /// The state once discarding the changes was asked for.
    pub open spec fn revert_asked(self) -> AppModel {
        if self.dirty_here() {
            self
        } else {
            self.with_status("no changes to revert"@, false)
        }
    }

    /// The state once the current file was loaded again.
    pub open spec fn reverted(self, reopened: Result<MkvModel, Seq<char>>) -> AppModel {
        let next = if self.file_sel < self.files.len() {
            self.with_entry(
                self.file_sel as int,
                self.files[self.file_sel as int].reloaded(reopened),
            )
        } else {
            self
        };
        next.clamped().with_status("reloaded from disk, changes discarded"@, false)
    }
}

/// A valid file in one entry keeps every file valid.
proof fn lemma_with_entry_valid(app: AppModel, i: int, e: EntryModel)
    requires
        app.files_valid(),
        entry_valid(e),
        0 <= i < app.files.len(),
    ensures
        app.with_entry(i, e).files_valid(),
{
    let next = app.with_entry(i, e);
    assert forall|k: int| 0 <= k < next.files.len() implies entry_valid(#[trigger] next.files[k]) by {
        if k != i {
            assert(entry_valid(app.files[k]));
        }
    }
}

impl App {
    /// Puts a file that was loaded again into its row.
    fn reload(&mut self, i: usize, reopened: Result<MkvFile, String>)
        requires
            i < old(self)@.files.len(),
        ensures
            final(self)@ == old(self)@.with_entry(
                i as int,
                old(self)@.files[i as int].reloaded(opened_view(reopened)),
            ),
            old(self)@.files_valid() && (reopened is Ok ==> reopened->Ok_0@.valid()) ==> final(self)@.files_valid(),
    {
        let ghost before = self@;
        assert(before.files[i as int] == self.files@[i as int]@);
        let ghost e = before.files[i as int].reloaded(opened_view(reopened));
        self.files[i].loaded = Some(reopened);
        self.files[i].dirty = false;
        assert(self@.files =~= before.with_entry(i as int, e).files);
        proof {
            if before.files_valid() && entry_valid(e) {
                lemma_with_entry_valid(before, i as int, e);
            }
        }
    }

    /// Asks for the current file to be saved. Returns its index where there is
    /// something to save; what came of it goes to [`App::finish_save`].
    pub fn save_current(&mut self) -> (r: Option<usize>)
        ensures
            r == old(self)@.to_save(),
            final(self)@ == old(self)@.save_asked(),
    {
        if !self.is_dirty() {
            self.info("no changes to save".to_owned());
            return None;
        }
        match self.current() {
            Some(_) => Some(self.file_sel),
            None => None,
        }
    }

    /// Takes what came of saving the current file.
    pub fn finish_save(&mut self, outcome: Result<Saved, String>)
        ensures
            final(self)@ == old(self)@.save_finished(outcome_view(outcome)),
            old(self)@.files_valid() && (outcome matches Ok(s) ==> (s.reopened matches Ok(m)
                ==> m@.valid())) ==> final(self)@.files_valid(),
    {
        let mut msg = match self.current() {
            Some(m) => file_label(&m.path),
            None => {
                return ;
            },
        };
        msg.append(": ");
        match outcome {
            Ok(s) => {
                msg.append(&s.report.message);
                if s.report.mode == SaveMode::Rewrite {
                    msg.append(" (file rewritten)");
                }
                assert(s.report.mode != SaveMode::Rewrite ==> msg@ + Seq::<char>::empty() =~= msg@);
                let i: usize = self.file_sel;
                self.reload(i, s.reopened);
                self.info(msg);
            },
            Err(e) => {
                msg.append(&e);
                self.error(msg);
            },
        }
    }

    /// Asks for every changed file to be saved. Returns the files to save, or
    /// None where no file has changes; what came of each goes to
    /// [`App::finish_save_all`].
    pub fn save_all(&mut self) -> (r: Option<Vec<usize>>)
        ensures
            match r {
                Some(v) => old(self)@.all_to_save() == Some(v@),
                None => old(self)@.all_to_save() is None,
            },
            final(self)@ == old(self)@.save_all_asked(),
            r matches Some(v) ==> forall|k: int| 0 <= k < v@.len() ==> #[trigger] v@[k] < old(self)@.files.len(),
    {
        if self.dirty_count() == 0 {
            self.info("no changes to save".to_owned());
            return None;
        }
        let mut out: Vec<usize> = Vec::new();
        let mut i: usize = 0;
        while i < self.files.len()
            invariant
                i <= self.files@.len(),
                out@ == self@.savable(i as int),
                forall|k: int| 0 <= k < out@.len() ==> #[trigger] out@[k] < i,
            decreases self.files@.len() - i,
        {
            assert(self@.files[i as int] == self.files@[i as int]@);
            if self.files[i].dirty {
                if let Some(Ok(_)) = &self.files[i].loaded {
                    out.push(i);
                }
            }
            i += 1;
        }
        Some(out)
    }

    /// Takes what came of saving every changed file.
    pub fn finish_save_all(&mut self, outcomes: Vec<(usize, Result<Saved, String>)>)
        requires
            forall|k: int| 0 <= k < outcomes@.len() ==> (#[trigger] outcomes@[k]).0 < old(self)@.files.len(),
        ensures
            final(self)@ == old(self)@.save_all_finished(outcome_views(outcomes@)),
            old(self)@.files_valid() && (forall|k: int|
                0 <= k < outcomes@.len() ==> outcome_valid((#[trigger] outcomes@[k]).1)) ==> final(self)@.files_valid(),
    {
        let ghost before = self@;
        let ghost all = outcomes@;
        let ghost views = outcome_views(all);
        let ghost good = before.files_valid() && (forall|k: int|
            0 <= k < all.len() ==> outcome_valid((#[trigger] all[k]).1));
        let n: usize = outcomes.len();
        let mut left = outcomes;
        let mut rest: Vec<(usize, Result<Saved, String>)> = Vec::new();
        // Turned round, so that they come off the end in order.
        while left.len() > 0
            invariant
                left@.len() + rest@.len() == all.len(),
                left@ == all.take(left@.len() as int),
                forall|k: int|
                    0 <= k < rest@.len() ==> (#[trigger] rest@[k]) == all[all.len() - 1 - k],
            decreases left@.len(),
        {
            let ghost m = left@.len() as int;
            let o = left.pop().unwrap();
            assert(o == all[m - 1]);
            rest.push(o);
            assert(left@ =~= all.take(m - 1));
        }
        let mut saved: usize = 0;
        let mut failed: usize = 0;
        let mut first_failure = String::new();
        let mut i: usize = 0;
        while i < n
            invariant
                i <= n,
                n == all.len(),
                rest@.len() == n - i,
                views == outcome_views(all),
                forall|k: int| 0 <= k < rest@.len() ==> (#[trigger] rest@[k]) == all[n - 1 - k],
                forall|k: int| 0 <= k < all.len() ==> (#[trigger] all[k]).0 < before.files.len(),
                self@ == before.saves_done(views, i as int),
                self@.files.len() == before.files.len(),
                forall|k: int|
                    0 <= k < before.files.len() ==> (#[trigger] self@.files[k]).path == before.files[k].path,
                saved == AppModel::went_well(views, i as int),
                failed == before.failures(views, i as int).len(),
                failed > 0 ==> first_failure@ == before.failures(views, i as int)[0],
                saved + failed <= i,
                good ==> self@.files_valid(),
                good ==> (forall|k: int| 0 <= k < all.len() ==> outcome_valid((#[trigger] all[k]).1)),
            decreases n - i,
        {
            let (at, outcome) = rest.pop().unwrap();
            assert((at, outcome) == all[i as int]);
            assert(views[i as int] == (at, outcome_view(outcome)));
            assert(all[i as int].0 < before.files.len());
            assert(self@.files[at as int].path == before.files[at as int].path);
            assert(self@.files[at as int] == self.files@[at as int]@);
            match outcome {
                Ok(s) => {
                    saved += 1;
                    self.reload(at, s.reopened);
                },
                Err(e) => {
                    if failed == 0 {
                        first_failure = self.files[at].label();
                        first_failure.append(": ");
                        first_failure.append(&e);
                    }
                    failed += 1;
                },
            }
            i += 1;
        }
        let mut msg = "saved ".to_owned();
        push_decimal(&mut msg, saved as u64);
        if failed == 0 {
            msg.append(" file(s)");
            self.info(msg);
        } else {
            msg.append(", failed ");
            push_decimal(&mut msg, failed as u64);
            msg.append(": ");
            msg.append(&first_failure);
            self.error(msg);
        }
    }

    /// Quits where nothing is left to save, else goes back to work.
    pub fn finish_quit(&mut self)
        ensures
            final(self)@ == old(self)@.quit_decided(),
    {
        if self.dirty_count() == 0 {
            self.should_quit = true;
        } else {
            self.confirm_quit = false;
        }
    }

    /// Asks for the changes to the current file to be discarded. Returns its
    /// index where there are any; what came of opening it again goes to
    /// [`App::finish_revert`].
    pub fn revert_current(&mut self) -> (r: Option<usize>)
        ensures
            r == old(self)@.to_revert(),
            final(self)@ == old(self)@.revert_asked(),
    {
        if !self.is_dirty() {
            self.info("no changes to revert".to_owned());
            return None;
        }
        Some(self.file_sel)
    }

    /// Takes what came of opening the current file again.
    pub fn finish_revert(&mut self, reopened: Result<MkvFile, String>)
        ensures
            final(self)@ == old(self)@.reverted(opened_view(reopened)),
            old(self)@.files_valid() && (reopened is Ok ==> reopened->Ok_0@.valid()) ==> final(self)@.files_valid(),
    {
        let i: usize = self.file_sel;
        if i < self.files.len() {
            self.reload(i, reopened);
        }
        self.clamp_track();
        self.info("reloaded from disk, changes discarded".to_owned());
    }
}

/// Whether a file that was loaded again is valid.
pub open spec fn outcome_valid(r: Result<Saved, String>) -> bool {
    match r {
        Ok(s) => match s.reopened {
            Ok(m) => m@.valid(),
            Err(_) => true,
        },
        Err(_) => true,
    }
}

} // verus!
