//! What each edit changes, and that it changes nothing else.

use vstd::prelude::*;

#[allow(unused_imports)]
use crate::app::edits::{
    child_replaced, default_made, flag_state, flag_written, language_written, lemma_selected, name_written,
};
#[allow(unused_imports)]
use crate::app::laws::lemma_flag_state;
use crate::app::model::InputTarget;
#[allow(unused_imports)]
use crate::app::model::AppModel;
#[allow(unused_imports)]
use crate::app::save_laws::same_files_but;
use crate::ebml::id;
#[allow(unused_imports)]
use crate::ebml::field_laws::{law_set_field, law_set_uint_reads_back};
#[allow(unused_imports)]
use crate::ebml::laws::{lemma_all_readable_index, readable};
#[allow(unused_imports)]
use crate::ebml::node::{lemma_first_with, Node};
#[allow(unused_imports)]
use crate::ebml::value::uint_data;
#[allow(unused_imports)]
use crate::mkv::file::MkvModel;
#[allow(unused_imports)]
use crate::mkv::track::{flag_of, insert_position};
#[allow(unused_imports)]
use crate::text::trimmed;

verus! {

// ---------------------------------------------------------------------------
// One entry
// ---------------------------------------------------------------------------

/// The children that have neither of two IDs, in order.
pub open spec fn others(n: Node, f: u64, g: u64) -> Seq<Node> {
    n.children().filter(|c: Node| c.id() != f && c.id() != g)
}

/// Whether two elements differ in children with those IDs alone: all the others
/// are the same, in the same order.
pub open spec fn differs_in(before: Node, after: Node, f: u64, g: u64) -> bool {
    &&& after.id() == before.id()
    &&& after.width() == before.width()
    &&& after is Master <==> before is Master
    &&& others(after, f, g) == others(before, f, g)
}

proof fn lemma_filter_append(a: Seq<Node>, b: Seq<Node>, f: u64, g: u64)
    ensures
        (a + b).filter(|c: Node| c.id() != f && c.id() != g) == a.filter(|c: Node| c.id() != f && c.id() != g)
            + b.filter(|c: Node| c.id() != f && c.id() != g),
    decreases b.len(),
{
    reveal(Seq::filter);
    let keep = |c: Node| c.id() != f && c.id() != g;
    if b.len() == 0 {
        assert(a + b =~= a);
        assert(a.filter(keep) + b.filter(keep) =~= a.filter(keep));
    } else {
        lemma_filter_append(a, b.drop_last(), f, g);
        assert((a + b).drop_last() =~= a + b.drop_last());
        assert((a + b).last() == b.last());
        assert((a + b).filter(keep) =~= a.filter(keep) + b.filter(keep));
    }
}

proof fn lemma_filter_one(c: Node, f: u64, g: u64)
    requires
        c.id() == f || c.id() == g,
    ensures
        seq![c].filter(|c: Node| c.id() != f && c.id() != g) == Seq::<Node>::empty(),
{
    reveal_with_fuel(Seq::filter, 2);
    assert(seq![c].drop_last() =~= Seq::<Node>::empty());
    assert(seq![c].last() == c);
}

/// Setting a field leaves the children with other IDs.
proof fn lemma_set_leaves_others(n: Node, id: u64, bytes: Seq<u8>, at: nat, f: u64, g: u64)
    requires
        id == f || id == g,
    ensures
        differs_in(n, n.with_data(id, bytes, at), f, g),
{
    let nodes = n.children();
    let leaf = Node::leaf(id, bytes);
    let keep = |c: Node| c.id() != f && c.id() != g;
    lemma_first_with(nodes, id, 0);
    if n is Master {
        let here = if n.has(id) {
            n.position(id)
        } else if at <= nodes.len() {
            at as int
        } else {
            nodes.len() as int
        };
        let next = if n.has(id) {
            here + 1
        } else {
            here
        };
        let after = n.with_data(id, bytes, at).children();
        let front = nodes.take(here);
        let back = nodes.skip(next);
        assert(after =~= front + seq![leaf] + back);
        lemma_filter_append(front, seq![leaf], f, g);
        lemma_filter_append(front + seq![leaf], back, f, g);
        lemma_filter_one(leaf, f, g);
        assert(after.filter(keep) =~= front.filter(keep) + back.filter(keep));
        let middle = nodes.subrange(here, next);
        assert(nodes =~= front + middle + back);
        lemma_filter_append(front, middle, f, g);
        lemma_filter_append(front + middle, back, f, g);
        if n.has(id) {
            assert(middle =~= seq![nodes[here]]);
            lemma_filter_one(nodes[here], f, g);
        } else {
            reveal(Seq::filter);
            assert(middle =~= Seq::<Node>::empty());
        }
        assert(middle.filter(keep) =~= Seq::<Node>::empty());
        assert(nodes.filter(keep) =~= front.filter(keep) + back.filter(keep));
    }
}

proof fn lemma_filter_twice(nodes: Seq<Node>, id: u64, f: u64, g: u64)
    requires
        id == f || id == g,
    ensures
        nodes.filter(|c: Node| c.id() != id).filter(|c: Node| c.id() != f && c.id() != g) == nodes.filter(
            |c: Node| c.id() != f && c.id() != g,
        ),
    decreases nodes.len(),
{
    reveal(Seq::filter);
    let first = |c: Node| c.id() != id;
    let keep = |c: Node| c.id() != f && c.id() != g;
    if nodes.len() > 0 {
        lemma_filter_twice(nodes.drop_last(), id, f, g);
        let rest = nodes.drop_last().filter(first);
        if first(nodes.last()) {
            assert(rest.push(nodes.last()).drop_last() =~= rest);
        }
    }
}

/// Removing a field leaves the children with other IDs.
proof fn lemma_remove_leaves_others(n: Node, id: u64, f: u64, g: u64)
    requires
        id == f || id == g,
    ensures
        differs_in(n, n.without(id), f, g),
{
    if n is Master {
        lemma_filter_twice(n.children(), id, f, g);
        assert(n.without(id).children() == n.children().filter(|c: Node| c.id() != id));
    }
}

// ---------------------------------------------------------------------------
// The state
// ---------------------------------------------------------------------------

/// The children of the Tracks element of the selected file.
pub open spec fn entries(app: AppModel) -> Seq<Node> {
    app.current()->0.tracks.children()
}

/// Whether the selected file has other tracks and is marked as changed, and all
/// else is as it was but for the status line: every other file, what else is
/// known of this one, and the whole of the interface.
pub open spec fn only_tracks_differ(app: AppModel, next: AppModel) -> bool {
    let i = app.file_sel as int;
    &&& next == (AppModel { files: next.files, status: next.status, status_error: next.status_error, ..app })
    &&& same_files_but(app, next, i)
    &&& next.files[i].path == app.files[i].path
    &&& next.files[i].dirty
    &&& next.current() is Some
    &&& next.current()->0 == (MkvModel { tracks: next.current()->0.tracks, ..app.current()->0 })
    &&& next.current()->0.tracks is Master
    &&& next.current()->0.tracks.id() == app.current()->0.tracks.id()
    &&& next.current()->0.tracks.width() == app.current()->0.tracks.width()
    &&& entries(next).len() == entries(app).len()
}

/// Whether only the entry at `t` differs, and in it only the children with those
/// IDs.
pub open spec fn only_entry_differs(app: AppModel, next: AppModel, t: int, f: u64, g: u64) -> bool {
    &&& only_tracks_differ(app, next)
    &&& forall|k: int| 0 <= k < entries(app).len() && k != t ==> #[trigger] entries(next)[k] == entries(app)[k]
    &&& differs_in(entries(app)[t], entries(next)[t], f, g)
}

proof fn lemma_entry_master(app: AppModel, k: int)
    requires
        app.current() is Some,
        readable(app.current()->0.tracks),
        0 <= k < entries(app).len(),
        entries(app)[k].id() == id::TRACK_ENTRY,
    ensures
        entries(app)[k] is Master,
        app.current()->0.tracks is Master,
{
    lemma_all_readable_index(entries(app), k);
}

/// Making a track the default changes the default flag and nothing else: of the
/// tracks of its type it is cleared where it is another track, and every track
/// of another type, every other field of every track, and every other file are
/// as they were.
pub proof fn law_making_default_changes_one_flag(app: AppModel)
    requires
        app.selected() is Some,
        readable(app.current()->0.tracks),
    ensures
        ({
            let next = app.made_default();
            let t = app.selected()->0;
            &&& only_tracks_differ(app, next)
            &&& forall|k: int|
                0 <= k < entries(app).len() ==> differs_in(
                    entries(app)[k],
                    #[trigger] entries(next)[k],
                    id::FLAG_DEFAULT,
                    id::FLAG_DEFAULT,
                )
            &&& forall|k: int|
                0 <= k < entries(app).len() ==> {
                    let before = entries(app)[k];
                    let after = #[trigger] entries(next)[k];
                    let same_type = before.id() == id::TRACK_ENTRY && (match before.uint(id::TRACK_TYPE) {
                        Some(v) => v,
                        None => 0,
                    }) == t.ttype;
                    &&& !same_type ==> after == before
                    &&& same_type && k != t.index ==> after.uint(id::FLAG_DEFAULT) == Some(0u64)
                    &&& k == t.index ==> same_type && (after.uint(id::FLAG_DEFAULT) == Some(1u64) || (after == before
                        && !before.has(id::FLAG_DEFAULT)))
                }
        }),
{
    lemma_selected(app);
    let t = app.selected()->0;
    lemma_entry_master(app, t.index as int);
    let tracks = app.current()->0.tracks;
    let next = app.made_default();
    let a = entries(app);
    assert(next.current() == Some(MkvModel { tracks: next.current()->0.tracks, ..app.current()->0 }));
    assert(entries(next) == default_made(a, t.ttype, t.index as int));
    assert forall|k: int| 0 <= k < a.len() implies {
        let before = a[k];
        let after = #[trigger] entries(next)[k];
        let same_type = before.id() == id::TRACK_ENTRY && (match before.uint(id::TRACK_TYPE) {
            Some(v) => v,
            None => 0,
        }) == t.ttype;
        &&& differs_in(before, after, id::FLAG_DEFAULT, id::FLAG_DEFAULT)
        &&& !same_type ==> after == before
        &&& same_type && k != t.index ==> after.uint(id::FLAG_DEFAULT) == Some(0u64)
        &&& k == t.index ==> same_type && (after.uint(id::FLAG_DEFAULT) == Some(1u64) || (after == before
            && !before.has(id::FLAG_DEFAULT)))
    } by {
        let e = a[k];
        let at = insert_position(e) as nat;
        if e.id() == id::TRACK_ENTRY {
            lemma_entry_master(app, k);
            lemma_set_leaves_others(e, id::FLAG_DEFAULT, uint_data(1), at, id::FLAG_DEFAULT, id::FLAG_DEFAULT);
            lemma_set_leaves_others(e, id::FLAG_DEFAULT, uint_data(0), at, id::FLAG_DEFAULT, id::FLAG_DEFAULT);
            law_set_uint_reads_back(e, id::FLAG_DEFAULT, 1, at);
            law_set_uint_reads_back(e, id::FLAG_DEFAULT, 0, at);
        }
    }
}

/// The state after one entry has been put in the place of another.
proof fn lemma_one_replaced(app: AppModel, next: AppModel, e1: Node, f: u64, g: u64)
    requires
        app.selected() is Some,
        readable(app.current()->0.tracks),
        ({
            let t = app.selected()->0;
            let made = app.with_tracks(child_replaced(app.current()->0.tracks, t.index as int, e1));
            &&& next.files == made.files
            &&& next == (AppModel { files: next.files, status: next.status, status_error: next.status_error, ..app })
            &&& differs_in(entries(app)[t.index as int], e1, f, g)
        }),
    ensures
        only_entry_differs(app, next, (app.selected()->0).index as int, f, g),
        entries(next)[(app.selected()->0).index as int] == e1,
{
    lemma_selected(app);
    let t = app.selected()->0;
    lemma_entry_master(app, t.index as int);
    let made = app.with_tracks(child_replaced(app.current()->0.tracks, t.index as int, e1));
    assert(next.current() == made.current());
    assert(entries(next) == entries(app).update(t.index as int, e1));
}

/// Clearing the default flag writes it as off in the selected entry and changes
/// nothing else.
pub proof fn law_clearing_default_changes_one_flag(app: AppModel)
    requires
        app.selected() is Some,
        readable(app.current()->0.tracks),
    ensures
        ({
            let next = app.cleared_default();
            let t = (app.selected()->0).index as int;
            &&& only_entry_differs(app, next, t, id::FLAG_DEFAULT, id::FLAG_DEFAULT)
            &&& entries(next)[t].uint(id::FLAG_DEFAULT) == Some(0u64)
        }),
{
    lemma_selected(app);
    let t = app.selected()->0;
    let e = entries(app)[t.index as int];
    let at = insert_position(e) as nat;
    lemma_entry_master(app, t.index as int);
    let e1 = flag_written(e, id::FLAG_DEFAULT, false, true);
    lemma_set_leaves_others(e, id::FLAG_DEFAULT, uint_data(0), at, id::FLAG_DEFAULT, id::FLAG_DEFAULT);
    law_set_uint_reads_back(e, id::FLAG_DEFAULT, 0, at);
    lemma_one_replaced(app, app.cleared_default(), e1, id::FLAG_DEFAULT, id::FLAG_DEFAULT);
}

/// Turning a flag over writes the other value of it in the selected entry and
/// changes nothing else.
pub proof fn law_toggling_changes_one_flag(app: AppModel, flag: u64)
    requires
        app.selected() is Some,
        readable(app.current()->0.tracks),
        flag_state(app.selected()->0, flag) is Some,
    ensures
        ({
            let next = app.toggled(flag);
            let t = (app.selected()->0).index as int;
            let was = (flag_state(app.selected()->0, flag)->0).0;
            let default = (flag_state(app.selected()->0, flag)->0).1;
            &&& only_entry_differs(app, next, t, flag, flag)
            &&& was == (match entries(app)[t].uint(flag) {
                Some(v) => v != 0,
                None => default,
            })
            &&& entries(next)[t].uint(flag) == Some(
                if was {
                    0u64
                } else {
                    1u64
                },
            )
        }),
{
    lemma_selected(app);
    let t = app.selected()->0;
    let e = entries(app)[t.index as int];
    lemma_entry_master(app, t.index as int);
    let (was, default, label) = flag_state(t, flag)->0;
    let e1 = flag_written(e, flag, !was, default);
    lemma_flag_state(t.index, e, e1, flag);
    lemma_flag_turned_over(e, flag, was, default);
    let next = app.toggled(flag);
    assert(next.files == app.with_tracks(child_replaced(app.current()->0.tracks, t.index as int, e1)).files);
    lemma_one_replaced(app, next, e1, flag, flag);
}

/// A flag that is turned over is written with its other value.
proof fn lemma_flag_turned_over(e: Node, flag: u64, was: bool, default: bool)
    requires
        e is Master,
        was == flag_of(e, flag, default).value,
    ensures
        was == (match e.uint(flag) {
            Some(v) => v != 0,
            None => default,
        }),
        differs_in(e, flag_written(e, flag, !was, default), flag, flag),
        flag_written(e, flag, !was, default).uint(flag) == Some(
            if was {
                0u64
            } else {
                1u64
            },
        ),
{
    let at = insert_position(e) as nat;
    let v: u64 = if was {
        0
    } else {
        1
    };
    lemma_set_leaves_others(e, flag, uint_data(v), at, flag, flag);
    law_set_uint_reads_back(e, flag, v, at);
}

/// A name that was entered is the name of the selected track, without the white
/// space at its ends; an empty one takes the name away. Nothing else changes.
pub proof fn law_entered_name_changes_the_name(app: AppModel)
    requires
        app.input matches Some(input) && input.target == InputTarget::Name,
        app.selected() is Some,
        readable(app.current()->0.tracks),
    ensures
        ({
            let closed = AppModel { input: None, ..app };
            let next = app.input_committed();
            let t = (app.selected()->0).index as int;
            let name = trimmed((app.input->0).value);
            &&& only_entry_differs(closed, next, t, id::TRACK_NAME, id::TRACK_NAME)
            &&& name.len() == 0 ==> !entries(next)[t].has(id::TRACK_NAME)
            &&& name.len() > 0 ==> (entries(next)[t].find(id::TRACK_NAME) matches Some(n) && n.bytes()
                == vstd::utf8::encode_utf8(name))
        }),
{
    let closed = AppModel { input: None, ..app };
    let next = app.input_committed();
    assert(closed.files == app.files && closed.current() == app.current() && closed.tracks() == app.tracks());
    assert(closed.selected() == app.selected());
    lemma_selected(closed);
    let t = closed.selected()->0;
    let e = entries(closed)[t.index as int];
    let at = insert_position(e) as nat;
    lemma_entry_master(closed, t.index as int);
    let name = trimmed((app.input->0).value);
    let bytes = vstd::utf8::encode_utf8(name);
    lemma_set_leaves_others(e, id::TRACK_NAME, bytes, at, id::TRACK_NAME, id::TRACK_NAME);
    lemma_remove_leaves_others(e, id::TRACK_NAME, id::TRACK_NAME, id::TRACK_NAME);
    law_set_field(e, id::TRACK_NAME, bytes, at);
    crate::ebml::field_laws::law_remove_field(e, id::TRACK_NAME);
    lemma_one_replaced(closed, next, name_written(e, name), id::TRACK_NAME, id::TRACK_NAME);
}

/// A language that was entered is the language of the selected track, without
/// the white space at its ends, and a BCP-47 tag is gone; nothing else changes.
/// An empty one is refused and changes no file.
pub proof fn law_entered_language_changes_the_language(app: AppModel)
    requires
        app.input matches Some(input) && input.target == InputTarget::Language,
        app.selected() is Some,
        readable(app.current()->0.tracks),
    ensures
        ({
            let closed = AppModel { input: None, ..app };
            let next = app.input_committed();
            let t = (app.selected()->0).index as int;
            let language = trimmed((app.input->0).value);
            &&& language.len() == 0 ==> next.files == app.files && next.input is None && next.status_error
            &&& language.len() > 0 ==> {
                &&& only_entry_differs(closed, next, t, id::LANGUAGE, id::LANGUAGE_BCP47)
                &&& !entries(next)[t].has(id::LANGUAGE_BCP47)
                &&& entries(next)[t].find(id::LANGUAGE) matches Some(n) && n.bytes() == vstd::utf8::encode_utf8(
                    language,
                )
            }
        }),
{
    let closed = AppModel { input: None, ..app };
    let next = app.input_committed();
    assert(closed.files == app.files && closed.current() == app.current() && closed.tracks() == app.tracks());
    assert(closed.selected() == app.selected());
    lemma_selected(closed);
    let t = closed.selected()->0;
    let e = entries(closed)[t.index as int];
    let at = insert_position(e) as nat;
    lemma_entry_master(closed, t.index as int);
    let language = trimmed((app.input->0).value);
    if language.len() > 0 {
        let bytes = vstd::utf8::encode_utf8(language);
        let mid = e.with_data(id::LANGUAGE, bytes, at);
        lemma_set_leaves_others(e, id::LANGUAGE, bytes, at, id::LANGUAGE, id::LANGUAGE_BCP47);
        lemma_remove_leaves_others(mid, id::LANGUAGE_BCP47, id::LANGUAGE, id::LANGUAGE_BCP47);
        law_set_field(e, id::LANGUAGE, bytes, at);
        crate::ebml::field_laws::law_remove_field(mid, id::LANGUAGE_BCP47);
        let e1 = language_written(e, language);
        assert(e1.find(id::LANGUAGE) == mid.find(id::LANGUAGE));
        lemma_one_replaced(closed, next, e1, id::LANGUAGE, id::LANGUAGE_BCP47);
    }
}

} // verus!
