//! What holds of the edits.

use vstd::prelude::*;

#[allow(unused_imports)]
use crate::app::edits::{
    child_replaced, default_made, flag_state, flag_written, language_written, lemma_selected, name_written, TrackEdit,
};
#[allow(unused_imports)]
use crate::app::model::AppModel;
use crate::ebml::id;
#[allow(unused_imports)]
use crate::ebml::field_laws::{
    law_remove_field, law_set_field, law_set_string_reads_back, law_set_uint_reads_back,
    lemma_remove_field_readable, lemma_set_field_readable,
};
#[allow(unused_imports)]
use crate::ebml::laws::{lemma_all_readable, lemma_all_readable_index, readable};
#[allow(unused_imports)]
use crate::ebml::node::{holds_children, Node};
#[allow(unused_imports)]
use crate::ebml::value::uint_data;
#[allow(unused_imports)]
use crate::ebml::vint::canonical_id;
#[allow(unused_imports)]
use crate::mkv::file::MkvModel;
#[allow(unused_imports)]
use crate::mkv::track::{flag_of, insert_position, lemma_tracks_from, not_empty, track_of, tracks_from, Flag};

verus! {

// ---------------------------------------------------------------------------
// One entry
// ---------------------------------------------------------------------------

/// Setting a flag to its default adds nothing to an entry that does not have it.
pub proof fn law_default_adds_nothing(e: Node, flag: u64, default: bool)
    requires
        !e.has(flag),
    ensures
        flag_written(e, flag, default, default) == e,
{
}

/// A flag that was set is read back. Away from the default it is always
/// written out, and every other field of the entry is found as before.
pub proof fn law_flag_reads_back(e: Node, flag: u64, value: bool, default: bool)
    requires
        e is Master,
    ensures
        flag_of(flag_written(e, flag, value, default), flag, default).value == value,
        value != default ==> flag_of(flag_written(e, flag, value, default), flag, default).explicit,
        forall|other: u64|
            other != flag ==> #[trigger] flag_written(e, flag, value, default).find(other) == e.find(other),
        flag_written(e, flag, value, default).id() == e.id(),
        flag_written(e, flag, value, default) is Master,
{
    let v: u64 = if value {
        1
    } else {
        0
    };
    law_set_field(e, flag, uint_data(v), insert_position(e) as nat);
    law_set_uint_reads_back(e, flag, v, insert_position(e) as nat);
}

/// A name that was set is read back, unless it holds the character U+0000; an
/// empty one is gone. Every other field is found as before.
pub proof fn law_name_reads_back(e: Node, name: Seq<char>)
    requires
        e is Master,
        !name.contains('\0'),
    ensures
        not_empty(name_written(e, name).text(id::TRACK_NAME)) == not_empty(Some(name)),
        forall|other: u64|
            other != id::TRACK_NAME ==> #[trigger] name_written(e, name).find(other) == e.find(other),
        name_written(e, name).id() == e.id(),
        name_written(e, name) is Master,
{
    if name.len() == 0 {
        law_remove_field(e, id::TRACK_NAME);
    } else {
        let bytes = vstd::utf8::encode_utf8(name);
        law_set_field(e, id::TRACK_NAME, bytes, insert_position(e) as nat);
        law_set_string_reads_back(e, id::TRACK_NAME, name, insert_position(e) as nat);
    }
}

/// A language that was set is read back, unless it holds the character U+0000,
/// and no BCP-47 tag is left to override it. Every other field is found as
/// before.
pub proof fn law_language_reads_back(e: Node, language: Seq<char>)
    requires
        e is Master,
        !language.contains('\0'),
    ensures
        language_written(e, language).text(id::LANGUAGE) == Some(language),
        language_written(e, language).find(id::LANGUAGE_BCP47) is None,
        forall|other: u64|
            other != id::LANGUAGE && other != id::LANGUAGE_BCP47 ==> #[trigger] language_written(
                e,
                language,
            ).find(other) == e.find(other),
        language_written(e, language).id() == e.id(),
        language_written(e, language) is Master,
{
    let bytes = vstd::utf8::encode_utf8(language);
    let at = insert_position(e) as nat;
    let mid = e.with_data(id::LANGUAGE, bytes, at);
    law_set_field(e, id::LANGUAGE, bytes, at);
    law_set_string_reads_back(e, id::LANGUAGE, language, at);
    law_remove_field(mid, id::LANGUAGE_BCP47);
    assert forall|other: u64| other != id::LANGUAGE && other != id::LANGUAGE_BCP47 implies #[trigger] language_written(
        e,
        language,
    ).find(other) == e.find(other) by {
        assert(mid.find(other) == e.find(other));
    }
}

/// Whether an edit is one of those that the interface offers.
pub open spec fn offered(edit: TrackEdit) -> bool {
    match edit {
        TrackEdit::Flag { flag, .. } => canonical_id(flag) && !holds_children(flag),
        _ => true,
    }
}

/// An edited entry can still be written and read back.
pub proof fn law_edited_entry_is_readable(e: Node, edit: TrackEdit)
    requires
        readable(e),
        offered(edit),
    ensures
        readable(edit.done_to(e)),
{
    let at = insert_position(e) as nat;
    match edit {
        TrackEdit::Flag { flag, value, default } => {
            let v: u64 = if value {
                1
            } else {
                0
            };
            lemma_set_field_readable(e, flag, uint_data(v), at);
        },
        TrackEdit::Name(name) => {
            lemma_set_field_readable(e, id::TRACK_NAME, vstd::utf8::encode_utf8(name@), at);
            lemma_remove_field_readable(e, id::TRACK_NAME);
        },
        TrackEdit::Language(language) => {
            let bytes = vstd::utf8::encode_utf8(language@);
            lemma_set_field_readable(e, id::LANGUAGE, bytes, at);
            lemma_remove_field_readable(e.with_data(id::LANGUAGE, bytes, at), id::LANGUAGE_BCP47);
        },
    }
}

/// An entry of tracks that can be read back is a master.
proof fn lemma_entry_is_master(tracks: Node, i: int)
    requires
        readable(tracks),
        0 <= i < tracks.children().len(),
        tracks.children()[i].id() == id::TRACK_ENTRY,
    ensures
        tracks.children()[i] is Master,
        readable(tracks.children()[i]),
{
    lemma_all_readable_index(tracks.children(), i);
}

// ---------------------------------------------------------------------------
// The list of tracks
// ---------------------------------------------------------------------------

/// Where entries stay entries, the list of tracks keeps its length and order,
/// and each track is that of its entry.
proof fn lemma_tracks_replaced(a: Seq<Node>, b: Seq<Node>, from: int)
    requires
        a.len() == b.len(),
        0 <= from <= a.len(),
        forall|k: int| 0 <= k < a.len() ==> (#[trigger] a[k]).id() == b[k].id(),
    ensures
        tracks_from(a, from).len() == tracks_from(b, from).len(),
        forall|k: int|
            0 <= k < tracks_from(a, from).len() ==> {
                let t = #[trigger] tracks_from(b, from)[k];
                &&& t.index == tracks_from(a, from)[k].index
                &&& from <= t.index < b.len()
                &&& t == track_of(t.index, b[t.index as int])
            },
    decreases a.len() - from,
{
    lemma_tracks_from(b, from);
    if from < a.len() {
        lemma_tracks_replaced(a, b, from + 1);
        assert(a[from].id() == b[from].id());
        let ra = tracks_from(a, from + 1);
        let rb = tracks_from(b, from + 1);
        assert forall|k: int| 0 <= k < tracks_from(a, from).len() implies (
        #[trigger] tracks_from(b, from)[k]).index == tracks_from(a, from)[k].index by {
            if a[from].id() == id::TRACK_ENTRY {
                if k > 0 {
                    assert(tracks_from(b, from)[k] == rb[k - 1]);
                    assert(tracks_from(a, from)[k] == ra[k - 1]);
                }
            } else {
                assert(tracks_from(b, from)[k] == rb[k]);
                assert(tracks_from(a, from)[k] == ra[k]);
            }
        }
    }
}

/// An edit of the selected track leaves every other track, every other file and
/// the selection as they are, marks the file as changed, and puts the edited
/// entry in the place of the old.
pub proof fn law_edit_changes_one_track(app: AppModel, edit: TrackEdit)
    requires
        app.selected() is Some,
        app.file_sel < app.files.len(),
        edit.done_to(
            app.current()->0.tracks.children()[(app.selected()->0).index as int],
        ).id() == id::TRACK_ENTRY,
        app.current()->0.tracks is Master,
    ensures
        ({
            let t = app.selected()->0;
            let e = app.current()->0.tracks.children()[t.index as int];
            let next = app.edited(edit);
            &&& next.dirty_here()
            &&& next.file_sel == app.file_sel
            &&& next.track_sel == app.track_sel
            &&& next.files.len() == app.files.len()
            &&& next.tracks().len() == app.tracks().len()
            &&& next.selected() == Some(track_of(t.index, edit.done_to(e)))
            &&& forall|k: int|
                0 <= k < app.tracks().len() && k != app.track_sel ==> #[trigger] next.tracks()[k]
                    == app.tracks()[k]
            &&& forall|i: int|
                0 <= i < app.files.len() && i != app.file_sel ==> #[trigger] next.files[i] == app.files[i]
        }),
{
    lemma_selected(app);
    let t = app.selected()->0;
    let tracks = app.current()->0.tracks;
    let nodes = tracks.children();
    let e = nodes[t.index as int];
    let next = app.edited(edit);
    let b = nodes.update(t.index as int, edit.done_to(e));
    assert(next.current()->0.tracks.children() == b);
    lemma_tracks_from(nodes, 0);
    lemma_tracks_replaced(nodes, b, 0);
    assert(next.tracks() == tracks_from(b, 0));
    assert(next.tracks()[app.track_sel as int].index == t.index);
    assert forall|k: int| 0 <= k < app.tracks().len() && k != app.track_sel implies #[trigger] next.tracks()[k]
        == app.tracks()[k] by {
        lemma_tracks_distinct(nodes, 0, k, app.track_sel as int);
        let a = app.tracks()[k];
        assert(next.tracks()[k].index == a.index);
        assert(a == track_of(a.index, nodes[a.index as int]));
        assert(b[a.index as int] == nodes[a.index as int]);
    }
}

/// Two tracks of the list are different entries.
proof fn lemma_tracks_distinct(nodes: Seq<Node>, from: int, i: int, j: int)
    requires
        0 <= from <= nodes.len(),
        0 <= i < tracks_from(nodes, from).len(),
        0 <= j < tracks_from(nodes, from).len(),
        i != j,
    ensures
        tracks_from(nodes, from)[i].index != tracks_from(nodes, from)[j].index,
    decreases nodes.len() - from,
{
    if from < nodes.len() {
        lemma_tracks_from(nodes, from + 1);
        let rest = tracks_from(nodes, from + 1);
        let all = tracks_from(nodes, from);
        if nodes[from].id() == id::TRACK_ENTRY {
            if i > 0 && j > 0 {
                lemma_tracks_distinct(nodes, from + 1, i - 1, j - 1);
                assert(all[i] == rest[i - 1]);
                assert(all[j] == rest[j - 1]);
            } else if i > 0 {
                assert(all[i] == rest[i - 1]);
            } else {
                assert(all[j] == rest[j - 1]);
            }
        } else {
            lemma_tracks_distinct(nodes, from + 1, i, j);
        }
    }
}

/// The entry of the selected track.
pub open spec fn selected_entry(app: AppModel) -> Node {
    app.current()->0.tracks.children()[(app.selected()->0).index as int]
}

/// Whether `next` is `app` but for one flag of the selected track, which is
/// written out in its entry, the mark of the file, and what the status line says:
/// the selection, every other file, every other track and every other field of
/// the entry are as they were.
pub open spec fn differs_in_flag(app: AppModel, next: AppModel, flag: u64, default: bool) -> bool {
    &&& next.dirty_here()
    &&& next.file_sel == app.file_sel
    &&& next.track_sel == app.track_sel
    &&& next.files.len() == app.files.len()
    &&& forall|i: int|
        0 <= i < app.files.len() && i != app.file_sel ==> #[trigger] next.files[i] == app.files[i]
    &&& next.tracks().len() == app.tracks().len()
    &&& forall|k: int|
        0 <= k < app.tracks().len() && k != app.track_sel ==> #[trigger] next.tracks()[k] == app.tracks()[k]
    &&& next.selected() is Some
    &&& next.selected()->0 == track_of((app.selected()->0).index, selected_entry(next))
    &&& flag_of(selected_entry(next), flag, default).explicit
    &&& forall|other: u64|
        other != flag ==> #[trigger] selected_entry(next).find(other) == selected_entry(app).find(other)
}

/// A flag that is turned over twice has the value that it had. It is then
/// written out, the file is marked as changed, and nothing else differs.
pub proof fn law_toggle_twice_restores(app: AppModel, flag: u64)
    requires
        app.selected() is Some,
        readable(app.current()->0.tracks),
        flag_state(app.selected()->0, flag) is Some,
    ensures
        ({
            let (cur, default, label) = flag_state(app.selected()->0, flag)->0;
            let once = app.toggled(flag);
            let twice = once.toggled(flag);
            &&& differs_in_flag(app, once, flag, default)
            &&& flag_state(once.selected()->0, flag) == Some((!cur, default, label))
            &&& differs_in_flag(app, twice, flag, default)
            &&& flag_state(twice.selected()->0, flag) == Some((cur, default, label))
        }),
{
    lemma_toggled(app, flag);
    let once = app.toggled(flag);
    lemma_toggled(once, flag);
    let twice = once.toggled(flag);
    assert forall|other: u64| other != flag implies #[trigger] selected_entry(twice).find(other) == selected_entry(
        app,
    ).find(other) by {
        assert(selected_entry(twice).find(other) == selected_entry(once).find(other));
    }
    assert forall|k: int| 0 <= k < app.tracks().len() && k != app.track_sel implies #[trigger] twice.tracks()[k]
        == app.tracks()[k] by {
        assert(once.tracks()[k] == app.tracks()[k]);
    }
    assert forall|i: int| 0 <= i < app.files.len() && i != app.file_sel implies #[trigger] twice.files[i]
        == app.files[i] by {
        assert(once.files[i] == app.files[i]);
    }
}

/// What a flag of a track says is what its entry says, before and after.
pub proof fn lemma_flag_state(index: nat, e: Node, next: Node, flag: u64)
    requires
        flag_state(track_of(index, e), flag) is Some,
    ensures
        ({
            let (cur, default, label) = flag_state(track_of(index, e), flag)->0;
            &&& cur == flag_of(e, flag, default).value
            &&& canonical_id(flag) && !holds_children(flag)
            &&& flag_state(track_of(index, next), flag) == Some(
                (flag_of(next, flag, default).value, default, label),
            )
        }),
{
}

/// What turning a flag over to `value` does to an entry.
proof fn lemma_flag_turned(e: Node, flag: u64, value: bool, default: bool)
    requires
        e is Master,
        value != flag_of(e, flag, default).value,
    ensures
        flag_of(flag_written(e, flag, value, default), flag, default) == (Flag { value, explicit: true }),
        forall|other: u64|
            other != flag ==> #[trigger] flag_written(e, flag, value, default).find(other) == e.find(other),
        flag_written(e, flag, value, default).id() == e.id(),
{
    let v: u64 = if value {
        1
    } else {
        0
    };
    law_flag_reads_back(e, flag, value, default);
    law_set_uint_reads_back(e, flag, v, insert_position(e) as nat);
}

/// What turning a flag over does.
proof fn lemma_toggled(app: AppModel, flag: u64)
    requires
        app.selected() is Some,
        readable(app.current()->0.tracks),
        flag_state(app.selected()->0, flag) is Some,
    ensures
        ({
            let next = app.toggled(flag);
            let (cur, default, label) = flag_state(app.selected()->0, flag)->0;
            &&& differs_in_flag(app, next, flag, default)
            &&& readable(next.current()->0.tracks)
            &&& flag_state(next.selected()->0, flag) == Some((!cur, default, label))
        }),
{
    lemma_selected(app);
    let t = app.selected()->0;
    let tracks = app.current()->0.tracks;
    let e = tracks.children()[t.index as int];
    lemma_entry_is_master(tracks, t.index as int);
    let (cur, default, label) = flag_state(t, flag)->0;
    let value = !cur;
    let edit = TrackEdit::Flag { flag, value, default };
    lemma_flag_state(t.index, e, edit.done_to(e), flag);
    lemma_flag_turned(e, flag, value, default);
    lemma_turned(app, edit);
    let next = app.toggled(flag);
    let after = app.edited(edit);
    assert(next.files == after.files && next.file_sel == after.file_sel && next.track_sel == after.track_sel);
    assert(next.current() == after.current());
    assert(next.tracks() == after.tracks());
    assert(next.selected() == after.selected());
    assert(selected_entry(next) == edit.done_to(e));
    assert(selected_entry(app) == e);
    assert(differs_in_flag(app, next, flag, default));
}

/// What an edit of the selected track does to the state.
proof fn lemma_turned(app: AppModel, edit: TrackEdit)
    requires
        app.selected() is Some,
        app.file_sel < app.files.len(),
        readable(app.current()->0.tracks),
        offered(edit),
        edit.done_to(selected_entry(app)).id() == id::TRACK_ENTRY,
        0 <= (app.selected()->0).index < app.current()->0.tracks.children().len(),
        app.current()->0.tracks is Master,
        readable(selected_entry(app)),
    ensures
        ({
            let t = app.selected()->0;
            let next = app.edited(edit);
            &&& next.dirty_here()
            &&& next.file_sel == app.file_sel
            &&& next.track_sel == app.track_sel
            &&& next.files.len() == app.files.len()
            &&& next.tracks().len() == app.tracks().len()
            &&& next.selected() == Some(track_of(t.index, edit.done_to(selected_entry(app))))
            &&& selected_entry(next) == edit.done_to(selected_entry(app))
            &&& readable(next.current()->0.tracks)
            &&& forall|k: int|
                0 <= k < app.tracks().len() && k != app.track_sel ==> #[trigger] next.tracks()[k]
                    == app.tracks()[k]
            &&& forall|i: int|
                0 <= i < app.files.len() && i != app.file_sel ==> #[trigger] next.files[i] == app.files[i]
        }),
{
    let t = app.selected()->0;
    let tracks = app.current()->0.tracks;
    let e = selected_entry(app);
    law_edit_changes_one_track(app, edit);
    law_edited_entry_is_readable(e, edit);
    lemma_child_replaced_readable(tracks, t.index as int, edit.done_to(e));
    let next = app.edited(edit);
    assert(next.current()->0.tracks == child_replaced(tracks, t.index as int, edit.done_to(e)));
    assert(track_of(t.index, edit.done_to(e)).index == t.index);
}

/// Tracks with a readable entry put in are readable.
pub proof fn lemma_child_replaced_readable(tracks: Node, i: int, e: Node)
    requires
        readable(tracks),
        readable(e),
        0 <= i < tracks.children().len(),
    ensures
        readable(child_replaced(tracks, i, e)),
{
    let nodes = tracks.children();
    let b = nodes.update(i, e);
    assert forall|k: int| 0 <= k < b.len() implies readable(#[trigger] b[k]) by {
        if k != i {
            lemma_all_readable_index(nodes, k);
        }
    }
    lemma_all_readable(b);
}

/// Once a track has been made the default, it is the only one of its type that
/// is, and tracks of other types are as they were.
pub proof fn law_one_default_of_a_type(app: AppModel)
    requires
        app.selected() is Some,
        readable(app.current()->0.tracks),
    ensures
        ({
            let t = app.selected()->0;
            let next = app.made_default();
            &&& next.tracks().len() == app.tracks().len()
            &&& next.track_sel == app.track_sel
            &&& forall|k: int|
                0 <= k < app.tracks().len() ==> {
                    let old = app.tracks()[k];
                    let new = #[trigger] next.tracks()[k];
                    &&& new.index == old.index
                    &&& new.ttype == old.ttype
                    &&& old.ttype == t.ttype ==> new.default.value == (k == app.track_sel)
                    &&& old.ttype != t.ttype ==> new == old
                }
        }),
{
    lemma_selected(app);
    let t = app.selected()->0;
    let tracks = app.current()->0.tracks;
    let nodes = tracks.children();
    let b = default_made(nodes, t.ttype, t.index as int);
    let next = app.made_default();
    assert(next.current()->0.tracks.children() == b);
    assert forall|k: int| 0 <= k < nodes.len() implies (#[trigger] nodes[k]).id() == b[k].id() by {
        if nodes[k].id() == id::TRACK_ENTRY {
            lemma_entry_is_master(tracks, k);
            law_flag_reads_back(nodes[k], id::FLAG_DEFAULT, k == t.index, true);
        }
    }
    lemma_tracks_from(nodes, 0);
    lemma_tracks_replaced(nodes, b, 0);
    assert(next.tracks() == tracks_from(b, 0));
    assert forall|k: int| 0 <= k < app.tracks().len() implies {
        let old = app.tracks()[k];
        let new = #[trigger] next.tracks()[k];
        &&& new.index == old.index
        &&& new.ttype == old.ttype
        &&& old.ttype == t.ttype ==> new.default.value == (k == app.track_sel)
        &&& old.ttype != t.ttype ==> new == old
    } by {
        let old = app.tracks()[k];
        let new = next.tracks()[k];
        let i = old.index as int;
        assert(new.index == old.index);
        assert(old == track_of(old.index, nodes[i]));
        assert(new == track_of(new.index, b[i]));
        lemma_entry_is_master(tracks, i);
        law_flag_reads_back(nodes[i], id::FLAG_DEFAULT, i == t.index, true);
        if k != app.track_sel {
            lemma_tracks_distinct(nodes, 0, k, app.track_sel as int);
        }
        if old.ttype == t.ttype {
            let w = flag_written(nodes[i], id::FLAG_DEFAULT, i == t.index, true);
            assert(w.find(id::TRACK_TYPE) == nodes[i].find(id::TRACK_TYPE));
        }
    }
}

/// A result that arrives late never overwrites a file that is loaded already,
/// and so never one with unsaved edits.
pub proof fn law_scan_never_overwrites(
    app: AppModel,
    results: Seq<(usize, Result<MkvModel, Seq<char>>)>,
    finished: bool,
)
    ensures
        app.scan_polled(results, finished).files.len() == app.files.len(),
        forall|i: int|
            0 <= i < app.files.len() && (app.files[i].loaded is Some || app.scanner is None)
                ==> #[trigger] app.scan_polled(results, finished).files[i] == app.files[i],
        app.scan_polled(results, finished).file_sel == app.file_sel,
        app.scan_polled(results, finished).track_sel == app.track_sel,
{
    lemma_arrivals(app, results, results.len() as int);
}

proof fn lemma_arrivals(
    app: AppModel,
    results: Seq<(usize, Result<MkvModel, Seq<char>>)>,
    n: int,
)
    ensures
        app.all_arrived(results, n).files.len() == app.files.len(),
        app.all_arrived(results, n).file_sel == app.file_sel,
        app.all_arrived(results, n).track_sel == app.track_sel,
        forall|i: int|
            0 <= i < app.files.len() && app.files[i].loaded is Some ==> #[trigger] app.all_arrived(
                results,
                n,
            ).files[i] == app.files[i],
    decreases n,
{
    if n > 0 {
        lemma_arrivals(app, results, n - 1);
        assert forall|i: int| 0 <= i < app.files.len() && app.files[i].loaded is Some implies #[trigger] app.all_arrived(
            results,
            n,
        ).files[i] == app.files[i] by {
            assert(app.all_arrived(results, n - 1).files[i] == app.files[i]);
        }
    }
}

} // verus!
