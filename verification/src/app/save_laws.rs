//! What holds of saving, of discarding changes and of quitting.

use vstd::prelude::*;

#[allow(unused_imports)]
use crate::app::model::{AppModel, EntryModel};
use crate::app::saving::SavedModel;
use crate::edit::save::SaveMode;
#[allow(unused_imports)]
use crate::mkv::file::MkvModel;
#[allow(unused_imports)]
use crate::text::decimal;

verus! {

/// Whether the file at `i` has changes that are not saved and was opened.
pub open spec fn changed_and_open(app: AppModel, i: int) -> bool {
    &&& 0 <= i < app.files.len()
    &&& app.files[i].dirty
    &&& app.files[i].loaded matches Some(r) && r is Ok
}

/// Whether no file has changes that are not saved.
pub open spec fn all_saved(app: AppModel) -> bool {
    forall|i: int| 0 <= i < app.files.len() ==> !(#[trigger] app.files[i]).dirty
}

/// Whether `next` shows the same files as `app`, but for the one at `i`.
pub open spec fn same_files_but(app: AppModel, next: AppModel, i: int) -> bool {
    &&& next.files.len() == app.files.len()
    &&& forall|k: int| 0 <= k < app.files.len() && k != i ==> #[trigger] next.files[k] == app.files[k]
}

/// Whether a file was loaded again: it is what was read, under the path that it
/// had, with nothing to save.
pub open spec fn loaded_anew(before: EntryModel, after: EntryModel, read: Result<MkvModel, Seq<char>>) -> bool {
    &&& after.path == before.path
    &&& after.loaded == Some(read)
    &&& !after.dirty
}

/// The count of changed files is zero exactly where none is changed.
proof fn lemma_dirty_among(app: AppModel, n: int)
    requires
        0 <= n <= app.files.len(),
    ensures
        (app.dirty_among(n) == 0) == (forall|i: int| 0 <= i < n ==> !(#[trigger] app.files[i]).dirty),
        app.dirty_among(n) == app.files.take(n).filter(|e: EntryModel| e.dirty).len(),
    decreases n,
{
    reveal(Seq::filter);
    if n > 0 {
        lemma_dirty_among(app, n - 1);
        assert(app.files.take(n).drop_last() =~= app.files.take(n - 1));
        assert(app.files.take(n).last() == app.files[n - 1]);
    }
}

/// The number of changed files is how many of them are.
pub proof fn law_changed_files_are_counted(app: AppModel)
    ensures
        app.dirty_files() == app.files.filter(|e: EntryModel| e.dirty).len(),
        app.dirty_files() == 0 <==> all_saved(app),
{
    lemma_dirty_among(app, app.files.len() as int);
    assert(app.files.take(app.files.len() as int) =~= app.files);
}

proof fn lemma_savable(app: AppModel, n: int)
    requires
        0 <= n <= app.files.len(),
        app.files.len() <= usize::MAX,
    ensures
        forall|k: int| 0 <= k < app.savable(n).len() ==> (#[trigger] app.savable(n)[k]) < n,
        forall|a: int, b: int|
            0 <= a < b < app.savable(n).len() ==> #[trigger] app.savable(n)[a] < #[trigger] app.savable(n)[b],
        forall|i: usize| #[trigger] app.savable(n).contains(i) <==> i < n && changed_and_open(app, i as int),
    decreases n,
{
    if n > 0 {
        lemma_savable(app, n - 1);
        let front = app.savable(n - 1);
        let all = app.savable(n);
        assert forall|i: usize| #[trigger] all.contains(i) <==> i < n && changed_and_open(app, i as int) by {
            if all.contains(i) {
                let k = choose|k: int| 0 <= k < all.len() && all[k] == i;
                if k < front.len() {
                    assert(front[k] == i);
                    assert(front.contains(i));
                }
            }
            if i < n && changed_and_open(app, i as int) {
                if i < n - 1 {
                    assert(front.contains(i));
                    let k = choose|k: int| 0 <= k < front.len() && front[k] == i;
                    assert(all[k] == i);
                } else {
                    assert(all[all.len() - 1] == i);
                }
            }
        }
    }
}

/// Saving everything asks for exactly those files that have changes and were
/// opened, each once and in the order of the list; so no file without changes is
/// written. It asks for nothing at all where no file has changes.
pub proof fn law_save_all_takes_the_changed_files(app: AppModel)
    requires
        app.files.len() <= usize::MAX,
    ensures
        app.all_to_save() is None <==> all_saved(app),
        app.all_to_save() matches Some(files) ==> {
            &&& forall|i: usize| #[trigger] files.contains(i) <==> changed_and_open(app, i as int)
            &&& forall|a: int, b: int| 0 <= a < b < files.len() ==> #[trigger] files[a] < #[trigger] files[b]
        },
        app.save_all_asked().files == app.files,
{
    law_changed_files_are_counted(app);
    lemma_savable(app, app.files.len() as int);
}

/// Saving asks for the selected file, where it has changes and was opened, and
/// for no other.
pub proof fn law_save_takes_the_selected_file(app: AppModel)
    ensures
        app.to_save() is Some <==> changed_and_open(app, app.file_sel as int),
        app.to_save() matches Some(i) ==> i == app.file_sel,
        app.save_asked().files == app.files,
        !(app.file_sel < app.files.len() && app.files[app.file_sel as int].dirty) ==> app.save_asked().status
            == "no changes to save"@,
{
}

/// A save that went well leaves the file as it was read again, with nothing to
/// save, and every other file and the selection as they were. The status line
/// says whether the file was rewritten.
pub proof fn law_saved_file_is_clean(app: AppModel, saved: SavedModel)
    requires
        app.file_sel < app.files.len(),
        app.files[app.file_sel as int].loaded matches Some(r) && r is Ok,
    ensures
        ({
            let next = app.save_finished(Ok::<SavedModel, Seq<char>>(saved));
            let i = app.file_sel as int;
            let m = app.files[i].loaded->0->Ok_0;
            let said = (match m.path.name {
                Some(name) => name,
                None => Seq::empty(),
            }) + ": "@ + saved.message;
            &&& same_files_but(app, next, i)
            &&& loaded_anew(app.files[i], next.files[i], saved.reopened)
            &&& next.file_sel == app.file_sel && next.track_sel == app.track_sel
            &&& !next.status_error
            &&& saved.mode == SaveMode::InPlace ==> next.status == said
            &&& saved.mode == SaveMode::Rewrite ==> next.status == said + " (file rewritten)"@
        }),
{
    let next = app.save_finished(Ok::<SavedModel, Seq<char>>(saved));
    let m = app.files[app.file_sel as int].loaded->0->Ok_0;
    let said = (match m.path.name {
        Some(name) => name,
        None => Seq::empty(),
    }) + ": "@ + saved.message;
    assert(app.current() == Some(m));
    if saved.mode == SaveMode::InPlace {
        assert(next.status =~= said);
    }
}

/// Whether no file is named by two results.
pub open spec fn once_each(outcomes: Seq<(usize, Result<SavedModel, Seq<char>>)>) -> bool {
    forall|a: int, b: int| 0 <= a < b < outcomes.len() ==> (#[trigger] outcomes[a]).0 != (#[trigger] outcomes[b]).0
}

/// Whether one of the first `n` results is for the file at `i`.
pub open spec fn told_of(outcomes: Seq<(usize, Result<SavedModel, Seq<char>>)>, n: int, i: int) -> bool {
    exists|k: int| 0 <= k < n && (#[trigger] outcomes[k]).0 == i
}

proof fn lemma_saves_done(app: AppModel, outcomes: Seq<(usize, Result<SavedModel, Seq<char>>)>, n: int)
    requires
        0 <= n <= outcomes.len(),
        once_each(outcomes),
        forall|k: int| 0 <= k < outcomes.len() ==> (#[trigger] outcomes[k]).0 < app.files.len(),
    ensures
        ({
            let next = app.saves_done(outcomes, n);
            &&& next.files.len() == app.files.len()
            &&& next == (AppModel { files: next.files, ..app })
            &&& forall|k: int|
                0 <= k < n ==> match (#[trigger] outcomes[k]).1 {
                    Ok(s) => loaded_anew(
                        app.files[outcomes[k].0 as int],
                        next.files[outcomes[k].0 as int],
                        s.reopened,
                    ),
                    Err(_) => next.files[outcomes[k].0 as int] == app.files[outcomes[k].0 as int],
                }
            &&& forall|i: int|
                0 <= i < app.files.len() && !told_of(outcomes, n, i) ==> #[trigger] next.files[i] == app.files[i]
        }),
    decreases n,
{
    if n > 0 {
        lemma_saves_done(app, outcomes, n - 1);
        let before = app.saves_done(outcomes, n - 1);
        let next = app.saves_done(outcomes, n);
        let j = outcomes[n - 1].0 as int;
        assert(!told_of(outcomes, n - 1, j)) by {
            if told_of(outcomes, n - 1, j) {
                let k = choose|k: int| 0 <= k < n - 1 && (#[trigger] outcomes[k]).0 == j;
                assert(outcomes[k].0 != outcomes[n - 1].0);
            }
        }
        assert(before.files[j] == app.files[j]);
        assert forall|k: int| 0 <= k < n implies match (#[trigger] outcomes[k]).1 {
            Ok(s) => loaded_anew(app.files[outcomes[k].0 as int], next.files[outcomes[k].0 as int], s.reopened),
            Err(_) => next.files[outcomes[k].0 as int] == app.files[outcomes[k].0 as int],
        } by {
            if k < n - 1 {
                assert(outcomes[k].0 != outcomes[n - 1].0);
                assert(next.files[outcomes[k].0 as int] == before.files[outcomes[k].0 as int]);
            }
        }
        assert forall|i: int|
            0 <= i < app.files.len() && !told_of(outcomes, n, i) implies #[trigger] next.files[i] == app.files[i] by {
            assert(outcomes[n - 1].0 == j);
            assert(i != j);
            if told_of(outcomes, n - 1, i) {
                let k = choose|k: int| 0 <= k < n - 1 && (#[trigger] outcomes[k]).0 == i;
                assert(told_of(outcomes, n, i));
            }
            assert(before.files[i] == app.files[i]);
        }
    }
}

proof fn lemma_outcomes_counted(app: AppModel, outcomes: Seq<(usize, Result<SavedModel, Seq<char>>)>, n: int)
    requires
        0 <= n <= outcomes.len(),
    ensures
        AppModel::went_well(outcomes, n) == outcomes.take(n).filter(
            |o: (usize, Result<SavedModel, Seq<char>>)| o.1 is Ok,
        ).len(),
        AppModel::went_well(outcomes, n) + app.failures(outcomes, n).len() == n,
        (app.failures(outcomes, n).len() == 0) == (forall|k: int| 0 <= k < n ==> (#[trigger] outcomes[k]).1 is Ok),
        app.failures(outcomes, n).len() > 0 ==> exists|k: int| #[trigger]
            first_failure(app, outcomes, n, k, app.failures(outcomes, n)[0]),
    decreases n,
{
    reveal(Seq::filter);
    if n > 0 {
        lemma_outcomes_counted(app, outcomes, n - 1);
        assert(outcomes.take(n).drop_last() =~= outcomes.take(n - 1));
        assert(outcomes.take(n).last() == outcomes[n - 1]);
        let front = app.failures(outcomes, n - 1);
        let all = app.failures(outcomes, n);
        if front.len() > 0 {
            let k = choose|k: int| #[trigger] first_failure(app, outcomes, n - 1, k, front[0]);
            assert(all[0] == front[0]);
            assert(first_failure(app, outcomes, n, k, all[0]));
        } else if all.len() > 0 {
            assert(first_failure(app, outcomes, n, n - 1, all[0]));
        }
    }
}

/// Whether the result at `k` is the first of `n` that failed, and the text names
/// the file and says why.
pub open spec fn first_failure(
    app: AppModel,
    outcomes: Seq<(usize, Result<SavedModel, Seq<char>>)>,
    n: int,
    k: int,
    text: Seq<char>,
) -> bool {
    &&& 0 <= k < n
    &&& outcomes[k].1 is Err
    &&& forall|j: int| 0 <= j < k ==> (#[trigger] outcomes[j]).1 is Ok
    &&& text == (match app.files[outcomes[k].0 as int].path.name {
        Some(name) => name,
        None => app.files[outcomes[k].0 as int].path.shown,
    }) + ": "@ + outcomes[k].1->Err_0
}

/// After everything was saved, each file whose save went well is as it was read
/// again, with nothing to save. Each whose save failed, and each that was not
/// saved, is as it was. The status line counts those that went well, and where
/// some failed those too, and names the first of them.
pub proof fn law_save_all_settles_each_file(app: AppModel, outcomes: Seq<(usize, Result<SavedModel, Seq<char>>)>)
    requires
        once_each(outcomes),
        forall|k: int| 0 <= k < outcomes.len() ==> (#[trigger] outcomes[k]).0 < app.files.len(),
    ensures
        ({
            let next = app.save_all_finished(outcomes);
            let n = outcomes.len() as int;
            let well = outcomes.filter(|o: (usize, Result<SavedModel, Seq<char>>)| o.1 is Ok).len();
            &&& next.files.len() == app.files.len()
            &&& next.file_sel == app.file_sel && next.track_sel == app.track_sel
            &&& forall|k: int|
                0 <= k < n ==> match (#[trigger] outcomes[k]).1 {
                    Ok(s) => loaded_anew(
                        app.files[outcomes[k].0 as int],
                        next.files[outcomes[k].0 as int],
                        s.reopened,
                    ),
                    Err(_) => next.files[outcomes[k].0 as int] == app.files[outcomes[k].0 as int],
                }
            &&& forall|i: int|
                0 <= i < app.files.len() && !told_of(outcomes, n, i) ==> #[trigger] next.files[i] == app.files[i]
            &&& next.status_error <==> exists|k: int| 0 <= k < n && (#[trigger] outcomes[k]).1 is Err
            &&& !next.status_error ==> next.status == "saved "@ + decimal(n as nat) + " file(s)"@
            &&& next.status_error ==> exists|k: int, why: Seq<char>| #[trigger]
                first_failure(app, outcomes, n, k, why) && next.status == "saved "@ + decimal(well) + ", failed "@
                    + decimal((n - well) as nat) + ": "@ + why
        }),
{
    let n = outcomes.len() as int;
    let next = app.save_all_finished(outcomes);
    lemma_saves_done(app, outcomes, n);
    lemma_outcomes_counted(app, outcomes, n);
    assert(outcomes.take(n) =~= outcomes);
    let failed = app.failures(outcomes, n);
    assert(next.files == app.saves_done(outcomes, n).files);
    if failed.len() == 0 {
        assert forall|k: int| 0 <= k < n implies !((#[trigger] outcomes[k]).1 is Err) by {
        }
    } else {
        let k = choose|k: int| #[trigger] first_failure(app, outcomes, n, k, failed[0]);
        assert(outcomes[k].1 is Err);
        assert(first_failure(app, outcomes, n, k, failed[0]));
    }
}

/// Discarding changes loads the selected file again and no other, and only where
/// it has changes; the file is then as it was read, with nothing to save, and the
/// selected track is one that there is.
pub proof fn law_discarding_reads_the_file_again(app: AppModel, read: Result<MkvModel, Seq<char>>)
    ensures
        app.to_revert() is Some <==> app.file_sel < app.files.len() && app.files[app.file_sel as int].dirty,
        app.to_revert() matches Some(i) ==> i == app.file_sel,
        app.revert_asked().files == app.files,
        app.file_sel < app.files.len() ==> {
            let next = app.reverted(read);
            &&& same_files_but(app, next, app.file_sel as int)
            &&& loaded_anew(app.files[app.file_sel as int], next.files[app.file_sel as int], read)
            &&& next.file_sel == app.file_sel
            &&& next.tracks().len() > 0 ==> next.track_sel < next.tracks().len()
            &&& app.track_sel < next.tracks().len() ==> next.track_sel == app.track_sel
            &&& next.status == "reloaded from disk, changes discarded"@ && !next.status_error
        },
        !(app.file_sel < app.files.len() && app.files[app.file_sel as int].dirty) ==> app.revert_asked().status
            == "no changes to revert"@,
{
    if app.file_sel < app.files.len() {
        let next = app.reverted(read);
        assert(next.current() == next.files[app.file_sel as int].file());
    }
}

/// After a save of everything on the way out, the program ends where nothing is
/// left to save, and else goes on; either way no file is touched.
pub proof fn law_quitting_waits_for_what_is_not_saved(app: AppModel)
    requires
        !app.should_quit,
    ensures
        app.quit_decided().should_quit <==> all_saved(app),
        !app.quit_decided().should_quit ==> !app.quit_decided().confirm_quit,
        app.quit_decided().files == app.files,
        app.quit_asked().should_quit <==> all_saved(app),
        !all_saved(app) ==> app.quit_asked().confirm_quit,
        app.quit_asked().files == app.files,
{
    law_changed_files_are_counted(app);
}

} // verus!
