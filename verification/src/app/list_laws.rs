//! What holds of the list of files while it is read.

use vstd::prelude::*;

#[allow(unused_imports)]
use crate::app::model::AppModel;
use crate::app::model::Focus;
#[allow(unused_imports)]
use crate::app::select::fresh_app;
#[allow(unused_imports)]
use crate::mkv::file::{MkvModel, PathModel};
#[allow(unused_imports)]
use crate::scan::{workers_for, Scanner};

verus! {

/// At the start the list has every file that was given, in its order, none of them
/// read and none changed. The first is selected and the keys go to its tracks. The
/// list is read in the background only where that was asked for and there is more
/// than one file.
pub proof fn law_start(paths: Seq<PathModel>, backup: bool, background: bool)
    requires
        paths.len() <= usize::MAX,
    ensures
        ({
            let app = fresh_app(paths, backup, background);
            &&& app.files.len() == paths.len()
            &&& forall|i: int|
                0 <= i < paths.len() ==> (#[trigger] app.files[i]).path == paths[i] && app.files[i].loaded is None
                    && !app.files[i].dirty
            &&& app.file_sel == 0 && app.track_sel == 0
            &&& app.focus == Focus::Tracks
            &&& app.backup == backup
            &&& !app.should_quit && !app.confirm_quit && !app.show_help && app.input is None
            &&& app.status.len() == 0
            &&& app.scanner is Some <==> background && paths.len() > 1
            &&& app.scanner matches Some(s) ==> s.done == 0 && s.total == paths.len()
        }),
{
}

/// Whether the result at `k` is the first of `n` for the row `i`.
pub open spec fn first_for(results: Seq<(usize, Result<MkvModel, Seq<char>>)>, n: int, i: int, k: int) -> bool {
    &&& 0 <= k < n
    &&& results[k].0 == i
    &&& forall|j: int| 0 <= j < k ==> (#[trigger] results[j]).0 != i
}

proof fn lemma_row(app: AppModel, results: Seq<(usize, Result<MkvModel, Seq<char>>)>, n: int, i: int)
    requires
        0 <= n <= results.len(),
        0 <= i < app.files.len(),
    ensures
        ({
            let next = app.all_arrived(results, n);
            &&& next.files.len() == app.files.len()
            &&& next == (AppModel { files: next.files, ..app })
            &&& next.files[i].path == app.files[i].path && next.files[i].dirty == app.files[i].dirty
            &&& app.files[i].loaded is Some ==> next.files[i] == app.files[i]
            &&& app.files[i].loaded is None && (forall|k: int| 0 <= k < n ==> (#[trigger] results[k]).0 != i)
                ==> next.files[i] == app.files[i]
            &&& app.files[i].loaded is None ==> forall|k: int| #[trigger]
                first_for(results, n, i, k) ==> next.files[i].loaded == Some(results[k].1)
        }),
    decreases n,
{
    if n > 0 {
        lemma_row(app, results, n - 1, i);
        let before = app.all_arrived(results, n - 1);
        let next = app.all_arrived(results, n);
        if app.files[i].loaded is None {
            assert forall|k: int| #[trigger] first_for(results, n, i, k) implies next.files[i].loaded == Some(
                results[k].1,
            ) by {
                if k < n - 1 {
                    assert(first_for(results, n - 1, i, k));
                } else {
                    assert(forall|j: int| 0 <= j < n - 1 ==> (#[trigger] results[j]).0 != i);
                }
            }
        }
    }
}

/// A result of the background reading goes to its own row, where it was not read
/// yet; the first that comes is kept. No other row changes, and nothing else does
/// but the count, which is dropped once every file has come or no more will.
pub proof fn law_results_go_to_their_rows(
    app: AppModel,
    results: Seq<(usize, Result<MkvModel, Seq<char>>)>,
    finished: bool,
    s: Scanner,
    i: int,
)
    requires
        app.scanner == Some(s),
        s.done + results.len() <= usize::MAX,
        0 <= i < app.files.len(),
    ensures
        ({
            let next = app.scan_polled(results, finished);
            let n = results.len() as int;
            &&& next.files.len() == app.files.len()
            &&& next == (AppModel { files: next.files, scanner: next.scanner, ..app })
            &&& next.files[i].path == app.files[i].path && next.files[i].dirty == app.files[i].dirty
            &&& app.files[i].loaded is Some ==> next.files[i] == app.files[i]
            &&& app.files[i].loaded is None && (forall|k: int| 0 <= k < n ==> (#[trigger] results[k]).0 != i)
                ==> next.files[i] == app.files[i]
            &&& app.files[i].loaded is None ==> forall|k: int| #[trigger]
                first_for(results, n, i, k) ==> next.files[i].loaded == Some(results[k].1)
            &&& next.scanner is Some <==> !finished && s.done + n < s.total
            &&& next.scanner matches Some(t) ==> t.done == s.done + n && t.total == s.total
        }),
{
    lemma_row(app, results, results.len() as int, i);
}

/// The selected file is asked for exactly where it was not read yet. Once it was,
/// it is in its row, no other row has changed, and the selected track is one that
/// there is.
pub proof fn law_selected_file_is_loaded(app: AppModel, read: Result<MkvModel, Seq<char>>)
    ensures
        app.unloaded() is Some <==> app.file_sel < app.files.len() && app.files[app.file_sel as int].loaded is None,
        app.unloaded() matches Some(i) ==> i == app.file_sel,
        app.unloaded() is Some ==> {
            let next = app.seen_to(Some(read));
            let i = app.file_sel as int;
            &&& next.files.len() == app.files.len()
            &&& next.files[i].loaded == Some(read)
            &&& next.files[i].path == app.files[i].path && next.files[i].dirty == app.files[i].dirty
            &&& forall|k: int| 0 <= k < app.files.len() && k != i ==> #[trigger] next.files[k] == app.files[k]
            &&& next.file_sel == app.file_sel
            &&& next.tracks().len() > 0 ==> next.track_sel < next.tracks().len()
            &&& app.track_sel < next.tracks().len() ==> next.track_sel == app.track_sel
        },
{
    if app.unloaded() is Some {
        let next = app.seen_to(Some(read));
        assert(next.current() == next.files[app.file_sel as int].file());
    }
}

/// There is one reader at least, and never more than eight, than can run at once
/// or than there are files; and there are as many as that allows.
pub proof fn law_readers(available: usize, total: usize)
    ensures
        1 <= workers_for(available, total) <= 8,
        available >= 1 ==> workers_for(available, total) <= available,
        total >= 1 ==> workers_for(available, total) <= total,
        workers_for(available, total) == 1 || workers_for(available, total) == 8 || workers_for(available, total)
            == available || workers_for(available, total) == total,
        available >= 8 && total >= 8 ==> workers_for(available, total) == 8,
        1 <= available < 8 && total >= available ==> workers_for(available, total) == available,
        1 <= total < 8 && available >= total ==> workers_for(available, total) == total,
{
}

} // verus!
