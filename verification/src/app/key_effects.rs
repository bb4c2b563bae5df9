//! What each key does, in terms of what is then on the screen and in the files.

use vstd::prelude::*;

#[allow(unused_imports)]
use crate::app::edit_laws::{
    entries, law_clearing_default_changes_one_flag, law_making_default_changes_one_flag, law_toggling_changes_one_flag,
    only_entry_differs, only_tracks_differ,
};
#[allow(unused_imports)]
use crate::app::edits::flag_state;
use crate::app::keys::Key;
#[allow(unused_imports)]
use crate::app::keys::RequestModel;
#[allow(unused_imports)]
use crate::app::model::{AppModel, InputModel};
use crate::app::model::{Focus, InputTarget};
#[allow(unused_imports)]
use crate::app::save_laws::{
    all_saved, changed_and_open, law_changed_files_are_counted, law_save_all_takes_the_changed_files,
};
#[allow(unused_imports)]
use crate::ebml::laws::readable;

verus! {

/// Whether keys go to the lists: no text is being entered, no question is asked
/// and no help is shown.
pub open spec fn at_lists(app: AppModel) -> bool {
    app.input is None && !app.confirm_quit && !app.show_help
}

/// A place moved by one within `n` places, and not past its ends.
pub open spec fn next_place(sel: int, n: int) -> int {
    if sel + 1 < n {
        sel + 1
    } else {
        sel
    }
}

/// The place before, or the first.
pub open spec fn place_before(sel: int) -> int {
    if sel > 0 {
        sel - 1
    } else {
        sel
    }
}

// ---------------------------------------------------------------------------
// Moving
// ---------------------------------------------------------------------------

/// In the list of tracks the arrows and `j` and `k` move the selection by one
/// track and not past the ends, and Home and End to the first and the last.
/// Nothing else changes, and nothing is read or written.
pub proof fn law_moving_among_tracks(app: AppModel, ctrl: bool)
    requires
        at_lists(app),
        app.focus == Focus::Tracks,
        app.track_sel < app.tracks().len() <= 0x3FFF_FFFF,
    ensures
        ({
            let n = app.tracks().len() as int;
            let sel = app.track_sel as int;
            let down = (AppModel { track_sel: next_place(sel, n) as usize, ..app }, RequestModel::Nothing);
            let up = (AppModel { track_sel: place_before(sel) as usize, ..app }, RequestModel::Nothing);
            &&& app.key_handled(Key::Down, ctrl) == down
            &&& app.key_handled(Key::Char('j'), ctrl) == down
            &&& app.key_handled(Key::Up, ctrl) == up
            &&& app.key_handled(Key::Char('k'), ctrl) == up
            &&& app.key_handled(Key::Home, ctrl) == (AppModel { track_sel: 0, ..app }, RequestModel::Nothing)
            &&& app.key_handled(Key::End, ctrl) == (
                AppModel { track_sel: (n - 1) as usize, ..app },
                RequestModel::Nothing,
            )
        }),
{
    let n = app.tracks().len() as int;
    let sel = app.track_sel as int;
    assert(app.key_handled(Key::Down, ctrl).0 =~= AppModel { track_sel: next_place(sel, n) as usize, ..app });
    assert(app.key_handled(Key::Up, ctrl).0 =~= AppModel { track_sel: place_before(sel) as usize, ..app });
}

/// Whether another file was selected: the first of its tracks with it, and
/// nothing else changed. It is asked for exactly where it was not read yet.
pub open spec fn file_selected(app: AppModel, done: (AppModel, RequestModel), to: int) -> bool {
    if to == app.file_sel {
        done == (app, RequestModel::Nothing)
    } else {
        &&& done.0 == (AppModel { file_sel: to as usize, track_sel: 0, ..app })
        &&& done.1 is Load <==> app.files[to].loaded is None
        &&& done.1 is Load || done.1 is Nothing
    }
}

/// In the list of files the same keys move among the files; `[` and `]` and the
/// page keys do so wherever the keys go.
pub proof fn law_moving_among_files(app: AppModel, ctrl: bool)
    requires
        at_lists(app),
        app.file_sel < app.files.len() <= 0x3FFF_FFFF,
    ensures
        ({
            let n = app.files.len() as int;
            let sel = app.file_sel as int;
            &&& file_selected(app, app.key_handled(Key::Char(']'), ctrl), next_place(sel, n))
            &&& file_selected(app, app.key_handled(Key::PageDown, ctrl), next_place(sel, n))
            &&& file_selected(app, app.key_handled(Key::Char('['), ctrl), place_before(sel))
            &&& file_selected(app, app.key_handled(Key::PageUp, ctrl), place_before(sel))
            &&& app.focus == Focus::Files ==> {
                &&& file_selected(app, app.key_handled(Key::Down, ctrl), next_place(sel, n))
                &&& file_selected(app, app.key_handled(Key::Char('j'), ctrl), next_place(sel, n))
                &&& file_selected(app, app.key_handled(Key::Up, ctrl), place_before(sel))
                &&& file_selected(app, app.key_handled(Key::Char('k'), ctrl), place_before(sel))
                &&& file_selected(app, app.key_handled(Key::Home, ctrl), 0)
                &&& file_selected(app, app.key_handled(Key::End, ctrl), n - 1)
            }
        }),
{
    let n = app.files.len() as int;
    let sel = app.file_sel as int;
    lemma_file_moved(app, 1, next_place(sel, n));
    lemma_file_moved(app, -1, place_before(sel));
    lemma_file_moved(app, crate::app::keys::TO_FIRST as int, 0);
    lemma_file_moved(app, crate::app::keys::TO_LAST as int, n - 1);
}

proof fn lemma_file_moved(app: AppModel, delta: int, to: int)
    requires
        app.file_sel < app.files.len() <= usize::MAX,
        to == AppModel::moved(app.file_sel, delta, app.files.len()),
    ensures
        file_selected(app, (app.file_moved(delta), crate::app::keys::load_request(app, app.file_moved(delta))), to),
{
    if to != app.file_sel {
        let next = AppModel { file_sel: to as usize, track_sel: 0, ..app };
        assert(app.file_moved(delta) =~= next.clamped());
        assert(next.clamped() =~= next);
    }
}

/// Tab moves the keys to the other list and back, and changes nothing else.
pub proof fn law_tab_changes_the_list(app: AppModel, ctrl: bool)
    requires
        at_lists(app),
    ensures
        ({
            let other = if app.focus == Focus::Files {
                Focus::Tracks
            } else {
                Focus::Files
            };
            let next = app.key_handled(Key::Tab, ctrl).0;
            &&& next == (AppModel { focus: other, ..app })
            &&& app.key_handled(Key::BackTab, ctrl).0 == next
            &&& next.key_handled(Key::Tab, ctrl).0 == app
            &&& app.key_handled(Key::Tab, ctrl).1 is Nothing
        }),
{
    let next = app.key_handled(Key::Tab, ctrl).0;
    assert(next.key_handled(Key::Tab, ctrl).0 =~= app);
}

/// `?` and F1 show the help; any key closes it and does nothing else.
pub proof fn law_help_is_shown_and_closed(app: AppModel, key: Key, ctrl: bool)
    requires
        at_lists(app),
    ensures
        ({
            let shown = AppModel { show_help: true, ..app };
            &&& app.key_handled(Key::F1, ctrl) == (shown, RequestModel::Nothing)
            &&& app.key_handled(Key::Char('?'), ctrl) == (shown, RequestModel::Nothing)
            &&& shown.key_handled(key, ctrl) == (app, RequestModel::Nothing)
        }),
{
    let shown = AppModel { show_help: true, ..app };
    assert(shown.key_handled(key, ctrl).0 =~= app);
}

// ---------------------------------------------------------------------------
// Editing
// ---------------------------------------------------------------------------

/// Whether a flag of the selected track was turned over, and nothing else.
pub open spec fn turned_over(app: AppModel, done: (AppModel, RequestModel), flag: u64, default: bool) -> bool {
    let t = (app.selected()->0).index as int;
    let on = match entries(app)[t].uint(flag) {
        Some(v) => v != 0,
        None => default,
    };
    &&& done.1 is Nothing
    &&& only_entry_differs(app, done.0, t, flag, flag)
    &&& entries(done.0)[t].uint(flag) == Some(
        if on {
            0u64
        } else {
            1u64
        },
    )
}

proof fn lemma_flag_key(app: AppModel, flag: u64)
    requires
        app.selected() is Some,
        readable(app.current()->0.tracks),
        flag_state(app.selected()->0, flag) is Some,
    ensures
        turned_over(
            app,
            (app.toggled(flag), RequestModel::Nothing),
            flag,
            (flag_state(app.selected()->0, flag)->0).1,
        ),
{
    law_toggling_changes_one_flag(app, flag);
}

/// Each flag has its letter, which turns it over in the selected track and
/// changes nothing else.
pub proof fn law_letters_turn_over_their_flags(app: AppModel)
    requires
        at_lists(app),
        app.selected() is Some,
        readable(app.current()->0.tracks),
    ensures
        turned_over(app, app.key_handled(Key::Char('f'), false), 0x55AA, false),
        turned_over(app, app.key_handled(Key::Char('e'), false), 0xB9, true),
        turned_over(app, app.key_handled(Key::Char('h'), false), 0x55AB, false),
        turned_over(app, app.key_handled(Key::Char('v'), false), 0x55AC, false),
        turned_over(app, app.key_handled(Key::Char('t'), false), 0x55AD, false),
        turned_over(app, app.key_handled(Key::Char('o'), false), 0x55AE, false),
        turned_over(app, app.key_handled(Key::Char('c'), false), 0x55AF, false),
{
    lemma_flag_key(app, 0x55AA);
    lemma_flag_key(app, 0xB9);
    lemma_flag_key(app, 0x55AB);
    lemma_flag_key(app, 0x55AC);
    lemma_flag_key(app, 0x55AD);
    lemma_flag_key(app, 0x55AE);
    lemma_flag_key(app, 0x55AF);
}

/// `d` makes the selected track the only default of its type, and `D` clears its
/// default flag; no other flag and no other field changes.
pub proof fn law_letters_for_the_default(app: AppModel, ctrl: bool)
    requires
        at_lists(app),
        app.selected() is Some,
        readable(app.current()->0.tracks),
    ensures
        ({
            let made = app.key_handled(Key::Char('d'), ctrl);
            let cleared = app.key_handled(Key::Char('D'), ctrl);
            let t = app.selected()->0;
            &&& made.1 is Nothing && cleared.1 is Nothing
            &&& only_tracks_differ(app, made.0)
            &&& forall|k: int|
                0 <= k < entries(app).len() ==> crate::app::edit_laws::differs_in(
                    entries(app)[k],
                    #[trigger] entries(made.0)[k],
                    0x88,
                    0x88,
                )
            &&& entries(made.0)[t.index as int].uint(0x88) is None || entries(made.0)[t.index as int].uint(0x88) == Some(
                1u64,
            )
            &&& forall|k: int|
                0 <= k < entries(app).len() && k != t.index && entries(app)[k].id() == 0xAE && entries(app)[k].uint(
                    0x83,
                ) == Some(t.ttype) ==> (#[trigger] entries(made.0)[k]).uint(0x88) == Some(0u64)
            &&& only_entry_differs(app, cleared.0, t.index as int, 0x88, 0x88)
            &&& entries(cleared.0)[t.index as int].uint(0x88) == Some(0u64)
        }),
{
    law_making_default_changes_one_flag(app);
    law_clearing_default_changes_one_flag(app);
    crate::app::edits::lemma_selected(app);
    let made = app.key_handled(Key::Char('d'), ctrl).0;
    assert(made == app.made_default());
    let t = app.selected()->0;
    let e = entries(made)[t.index as int];
    crate::ebml::node::lemma_first_with(entries(app)[t.index as int].children(), 0x88, 0);
}

/// Only the letters of the edits, and Enter behind a text, change a file in the
/// list; every other key leaves all of them as they are. No key changes what is
/// kept of each file before it is written, nor how far the list has been read.
pub proof fn law_only_edits_change_files(app: AppModel, key: Key, ctrl: bool)
    ensures
        ({
            let next = app.key_handled(key, ctrl).0;
            let edits = at_lists(app) && (key == Key::Char('d') || key == Key::Char('D') || key == Key::Char('f') || key
                == Key::Char('e') || key == Key::Char('h') || key == Key::Char('v') || key == Key::Char('t') || key
                == Key::Char('o') || key == Key::Char('c'));
            let enters = app.input is Some && key == Key::Enter;
            &&& !edits && !enters ==> next.files == app.files
            &&& next.backup == app.backup
            &&& next.scanner == app.scanner
        }),
{
    if app.input is Some {
        lemma_committed_settings(app);
    } else if at_lists(app) && !(ctrl && key == Key::Char('c')) {
        lemma_list_key_settings(app, key);
    }
}

/// Whether what is kept of each file before it is written, and how far the list
/// has been read, are the same.
pub open spec fn same_settings(app: AppModel, next: AppModel) -> bool {
    next.backup == app.backup && next.scanner == app.scanner
}

proof fn lemma_committed_settings(app: AppModel)
    ensures
        same_settings(app, app.input_committed()),
{
}

proof fn lemma_moved_settings(app: AppModel, delta: int)
    ensures
        same_settings(app, app.file_moved(delta)),
        app.file_moved(delta).files == app.files,
        same_settings(app, app.focus_moved(delta).0),
        app.focus_moved(delta).0.files == app.files,
{
}

proof fn lemma_edit_settings(app: AppModel, flag: u64)
    ensures
        same_settings(app, app.made_default()),
        same_settings(app, app.cleared_default()),
        same_settings(app, app.toggled(flag)),
{
}

proof fn lemma_list_char_settings(app: AppModel, c: char)
    ensures
        same_settings(app, app.list_char(c).0),
        c != 'd' && c != 'D' && c != 'f' && c != 'e' && c != 'h' && c != 'v' && c != 't' && c != 'o' && c != 'c'
            ==> app.list_char(c).0.files == app.files,
{
    lemma_moved_settings(app, 1);
    lemma_moved_settings(app, -1);
    if let Some(flag) = crate::app::keys::flag_for(c) {
        lemma_edit_settings(app, flag);
    }
    lemma_edit_settings(app, 0);
}

proof fn lemma_list_key_settings(app: AppModel, key: Key)
    ensures
        same_settings(app, app.list_key(key).0),
        (forall|c: char|
            key == Key::Char(c) ==> c != 'd' && c != 'D' && c != 'f' && c != 'e' && c != 'h' && c != 'v' && c != 't' && c
                != 'o' && c != 'c') ==> app.list_key(key).0.files == app.files,
{
    lemma_moved_settings(app, 1);
    lemma_moved_settings(app, -1);
    lemma_moved_settings(app, crate::app::keys::TO_FIRST as int);
    lemma_moved_settings(app, crate::app::keys::TO_LAST as int);
    if let Key::Char(c) = key {
        lemma_list_char_settings(app, c);
    }
}

// ---------------------------------------------------------------------------
// Entering a text
// ---------------------------------------------------------------------------

/// `n` and `l` begin the entry of a name and of a language, with what the
/// selected track has for it; nothing else changes.
pub proof fn law_letters_begin_a_text(app: AppModel, ctrl: bool)
    requires
        at_lists(app),
        app.selected() is Some,
    ensures
        ({
            let t = app.selected()->0;
            let name = app.key_handled(Key::Char('n'), ctrl).0;
            let language = app.key_handled(Key::Char('l'), ctrl).0;
            &&& name == (AppModel { input: name.input, ..app })
            &&& name.input matches Some(i) && i.target == InputTarget::Name && (match t.name {
                Some(n) => i.value == n,
                None => i.value.len() == 0,
            })
            &&& language == (AppModel { input: language.input, ..app })
            &&& language.input matches Some(i) && i.target == InputTarget::Language && i.value == t.language
        }),
{
}

/// While a text is being entered, each character goes to its end, Backspace takes
/// the last one off, and Esc gives it up; none of them changes a file, and no key
/// quits or saves.
pub proof fn law_typing(app: AppModel, input: InputModel, key: Key, c: char, ctrl: bool)
    requires
        app.input == Some(input),
    ensures
        app.key_handled(key, ctrl).1 is Nothing,
        app.key_handled(key, ctrl).0.should_quit == app.should_quit,
        ({
            let typed = app.key_handled(Key::Char(c), ctrl).0;
            &&& typed == (AppModel { input: typed.input, ..app })
            &&& typed.input matches Some(i) && i.target == input.target && i.prompt == input.prompt && i.value
                == input.value + seq![c]
            &&& typed.key_handled(Key::Backspace, ctrl).0 == app
        }),
        input.value.len() == 0 ==> app.key_handled(Key::Backspace, ctrl).0 == app,
        ({
            let given_up = app.key_handled(Key::Esc, ctrl).0;
            &&& given_up == (AppModel { input: None, status: given_up.status, status_error: false, ..app })
            &&& given_up.status == "cancelled"@
        }),
        app.key_handled(Key::Enter, ctrl).0.input is None,
        key == Key::Tab || key == Key::BackTab || key == Key::Up || key == Key::Down || key == Key::Home || key == Key::End
            || key == Key::PageUp || key == Key::PageDown || key == Key::F1 || key == Key::Other ==> app.key_handled(
            key,
            ctrl,
        ).0 == app,
{
    let typed = app.key_handled(Key::Char(c), ctrl).0;
    assert(input.value.push(c) =~= input.value + seq![c]);
    assert(input.value.push(c).drop_last() =~= input.value);
    assert(typed.key_handled(Key::Backspace, ctrl).0 =~= app);
    if input.value.len() == 0 {
        assert(app.key_handled(Key::Backspace, ctrl).0 =~= app);
    }
}

// ---------------------------------------------------------------------------
// Saving and quitting
// ---------------------------------------------------------------------------

/// `s` asks for the selected file to be saved exactly where it has changes, `S`
/// for all that have, and `u` for the selected one to be read again exactly where
/// it has changes. None of them changes a file in the list.
pub proof fn law_letters_for_saving(app: AppModel, ctrl: bool)
    requires
        at_lists(app),
        app.files.len() <= usize::MAX,
    ensures
        ({
            let s = app.key_handled(Key::Char('s'), ctrl);
            let all = app.key_handled(Key::Char('S'), ctrl);
            let u = app.key_handled(Key::Char('u'), ctrl);
            let changed = app.file_sel < app.files.len() && app.files[app.file_sel as int].dirty;
            &&& s.0.files == app.files && all.0.files == app.files && u.0.files == app.files
            &&& changed_and_open(app, app.file_sel as int) ==> s.1 == RequestModel::Save(app.file_sel)
            &&& !changed_and_open(app, app.file_sel as int) ==> s.1 is Nothing
            &&& changed ==> u.1 == RequestModel::Reload(app.file_sel)
            &&& !changed ==> u.1 is Nothing && s.0.status == "no changes to save"@ && u.0.status
                == "no changes to revert"@
            &&& all_saved(app) ==> all.1 is Nothing && all.0.status == "no changes to save"@
            &&& !all_saved(app) ==> (all.1 matches RequestModel::SaveAll { files, quit } && !quit && forall|i: usize|
                #[trigger] files.contains(i) <==> changed_and_open(app, i as int))
        }),
{
    law_save_all_takes_the_changed_files(app);
    law_changed_files_are_counted(app);
}

/// `q`, Esc and Ctrl-C end the program where nothing is left to save. With changes
/// unsaved `q` and Esc ask first; then `q` and `y` quit all the same, `n` and Esc
/// go back, `s` asks for every changed file to be saved before the end, and any
/// other key does nothing. No file in the list changes.
pub proof fn law_quitting(app: AppModel, other: Key, ctrl: bool)
    requires
        at_lists(app),
        !app.should_quit,
        app.files.len() <= usize::MAX,
        other != Key::Esc,
        forall|c: char| other == Key::Char(c) ==> c != 's' && c != 'S' && c != 'q' && c != 'y' && c != 'n',
    ensures
        ({
            let ended = AppModel { should_quit: true, ..app };
            let asked = AppModel { confirm_quit: true, ..app };
            &&& app.key_handled(Key::Char('c'), true).0 == ended
            &&& all_saved(app) ==> app.key_handled(Key::Char('q'), ctrl).0 == ended && app.key_handled(Key::Esc, ctrl).0
                == ended
            &&& !all_saved(app) ==> app.key_handled(Key::Char('q'), ctrl).0 == asked && app.key_handled(
                Key::Esc,
                ctrl,
            ).0 == asked
            &&& asked.key_handled(Key::Char('q'), ctrl).0 == (AppModel { should_quit: true, ..asked })
            &&& asked.key_handled(Key::Char('y'), ctrl).0 == (AppModel { should_quit: true, ..asked })
            &&& asked.key_handled(Key::Char('n'), ctrl).0 == app && asked.key_handled(Key::Esc, ctrl).0 == app
            &&& asked.key_handled(other, ctrl) == (asked, RequestModel::Nothing)
            &&& !all_saved(app) ==> ({
                let saving = asked.key_handled(Key::Char('s'), ctrl);
                &&& saving == asked.key_handled(Key::Char('S'), ctrl)
                &&& saving.0 == asked
                &&& saving.1 matches RequestModel::SaveAll { files, quit } && quit && forall|i: usize| #[trigger]
                    files.contains(i) <==> changed_and_open(app, i as int)
            })
        }),
{
    let asked = AppModel { confirm_quit: true, ..app };
    law_changed_files_are_counted(app);
    law_changed_files_are_counted(asked);
    law_save_all_takes_the_changed_files(asked);
    assert(all_saved(asked) == all_saved(app));
    assert(asked.key_handled(Key::Char('n'), ctrl).0 =~= app);
    assert(asked.key_handled(Key::Esc, ctrl).0 =~= app);
    if !all_saved(app) {
        if let RequestModel::SaveAll { files, quit } = asked.key_handled(Key::Char('s'), ctrl).1 {
            assert forall|i: usize| #[trigger] files.contains(i) <==> changed_and_open(app, i as int) by {
                assert(changed_and_open(asked, i as int) == changed_and_open(app, i as int));
            }
        }
    }
}

} // verus!
