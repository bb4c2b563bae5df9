//! What holds of the keys, of saves and of the background scan.

use vstd::prelude::*;

use crate::app::keys::Key;
#[allow(unused_imports)]
use crate::app::model::AppModel;
#[allow(unused_imports)]
use crate::app::saving::SavedModel;
#[allow(unused_imports)]
use crate::mkv::file::MkvModel;

verus! {

/// Nothing is written until a save is asked for: only `s` and `S` lead to one.
pub proof fn law_only_saving_keys_write(app: AppModel, key: Key, ctrl: bool)
    requires
        key != Key::Char('s'),
        key != Key::Char('S'),
    ensures
        !(app.key_handled(key, ctrl).1 is Save),
        !(app.key_handled(key, ctrl).1 is SaveAll),
{
}

/// Quitting with changes unsaved asks first: no key of the lists but Ctrl-C
/// quits while a file has unsaved changes.
pub proof fn law_quitting_asks_first(app: AppModel, key: Key, ctrl: bool)
    requires
        app.input is None,
        !app.confirm_quit,
        !app.should_quit,
        app.dirty_files() > 0,
        !(ctrl && key == Key::Char('c')),
    ensures
        !app.key_handled(key, ctrl).0.should_quit,
        !app.show_help && (key == Key::Esc || key == Key::Char('q')) ==> app.key_handled(key, ctrl).0.confirm_quit,
{
}

/// A save that fails changes no file: what was edited is still there and still
/// to be saved.
pub proof fn law_failed_save_keeps_the_changes(app: AppModel, why: Seq<char>)
    ensures
        app.save_finished(Err::<SavedModel, Seq<char>>(why)).files == app.files,
        app.current() is Some ==> app.save_finished(Err::<SavedModel, Seq<char>>(why)).status_error,
{
}

/// Every file of the list for which a result arrived is loaded, whatever came
/// for the others.
pub proof fn law_scan_loads_what_arrives(
    app: AppModel,
    results: Seq<(usize, Result<MkvModel, Seq<char>>)>,
    finished: bool,
    k: int,
)
    requires
        app.scanner is Some,
        0 <= k < results.len(),
        results[k].0 < app.files.len(),
    ensures
        app.scan_polled(results, finished).files[results[k].0 as int].loaded is Some,
{
    lemma_arrived(app, results, k, results.len() as int);
}

proof fn lemma_arrived(
    app: AppModel,
    results: Seq<(usize, Result<MkvModel, Seq<char>>)>,
    k: int,
    n: int,
)
    requires
        0 <= k < n <= results.len(),
        results[k].0 < app.files.len(),
    ensures
        app.all_arrived(results, n).files.len() == app.files.len(),
        app.all_arrived(results, n).files[results[k].0 as int].loaded is Some,
    decreases n,
{
    lemma_same_count(app, results, n - 1);
    if k < n - 1 {
        lemma_arrived(app, results, k, n - 1);
    }
}

proof fn lemma_same_count(app: AppModel, results: Seq<(usize, Result<MkvModel, Seq<char>>)>, n: int)
    ensures
        app.all_arrived(results, n).files.len() == app.files.len(),
    decreases n,
{
    if n > 0 {
        lemma_same_count(app, results, n - 1);
    }
}

} // verus!
