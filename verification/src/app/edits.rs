//! The edits that the interface can apply to the tracks of a file.

use vstd::prelude::*;
use vstd::string::*;

use crate::app::model::{App, InputState, InputTarget};
#[allow(unused_imports)]
use crate::app::model::{entry_valid, AppModel, EntryModel, InputModel};
use crate::ebml::element::{Body, Element};
use crate::ebml::id;
use crate::ebml::track_type::track_type_name;
#[allow(unused_imports)]
use crate::ebml::element::{lemma_nodes_index, lemma_nodes_len, node_of, nodes_of};
#[allow(unused_imports)]
use crate::ebml::node::Node;
#[allow(unused_imports)]
use crate::ebml::track_type::type_label;
#[allow(unused_imports)]
use crate::ebml::value::uint_data;
#[allow(unused_imports)]
use crate::mkv::file::MkvModel;
use crate::mkv::track::flag_insert_position;
#[allow(unused_imports)]
use crate::mkv::track::{insert_position, lemma_tracks_from, or_zero, TrackModel};
use crate::text::{push_decimal, trim};
#[allow(unused_imports)]
use crate::text::{decimal, trimmed};

verus! {

broadcast use {lemma_nodes_len, lemma_nodes_index};

// ---------------------------------------------------------------------------
// What an edit does to a track entry
// ---------------------------------------------------------------------------

/// A track entry with a flag set. A missing element is left missing when the
/// value is the default anyway.
pub open spec fn flag_written(e: Node, flag: u64, value: bool, default: bool) -> Node {
    if value == default && !e.has(flag) {
        e
    } else {
        e.with_data(
            flag,
            uint_data(
                if value {
                    1
                } else {
                    0
                },
            ),
            insert_position(e) as nat,
        )
    }
}

/// A track entry with another name; an empty name removes it.
pub open spec fn name_written(e: Node, name: Seq<char>) -> Node {
    if name.len() == 0 {
        e.without(id::TRACK_NAME)
    } else {
        e.with_data(
            id::TRACK_NAME,
            vstd::utf8::encode_utf8(name),
            insert_position(e) as nat,
        )
    }
}

/// A track entry with another language. A BCP-47 tag overrides Language, so it
/// is dropped rather than left to disagree.
pub open spec fn language_written(e: Node, language: Seq<char>) -> Node {
    e.with_data(
        id::LANGUAGE,
        vstd::utf8::encode_utf8(language),
        insert_position(e) as nat,
    ).without(id::LANGUAGE_BCP47)
}

/// One change to a track entry.
#[derive(Debug)]
pub enum TrackEdit {
    Flag { flag: u64, value: bool, default: bool },
    Name(String),
    Language(String),
}

impl TrackEdit {
    /// The entry with the change made.
    pub open spec fn done_to(self, e: Node) -> Node {
        match self {
            TrackEdit::Flag { flag, value, default } => flag_written(e, flag, value, default),
            TrackEdit::Name(name) => name_written(e, name@),
            TrackEdit::Language(language) => language_written(e, language@),
        }
    }

    /// Makes the change.
    pub fn apply(&self, entry: &mut Element)
        ensures
            final(entry)@ == self.done_to(old(entry)@),
    {
        match self {
            TrackEdit::Flag { flag, value, default } => {
                write_flag(entry, *flag, *value, *default);
            },
            TrackEdit::Name(name) => {
                if name.as_str().is_empty() {
                    let _ = entry.remove(id::TRACK_NAME);
                } else {
                    let at: usize = flag_insert_position(entry);
                    entry.set_string(id::TRACK_NAME, name, at);
                }
            },
            TrackEdit::Language(language) => {
                let at: usize = flag_insert_position(entry);
                entry.set_string(id::LANGUAGE, language, at);
                let _ = entry.remove(id::LANGUAGE_BCP47);
            },
        }
    }
}

/// Sets an explicit flag value, but leaves a missing element missing when the
/// requested value already matches the default. That keeps the Tracks element
/// from growing for no reason.
pub fn write_flag(entry: &mut Element, flag: u64, value: bool, default: bool)
    ensures
        final(entry)@ == flag_written(old(entry)@, flag, value, default),
{
    if value == default && entry.find(flag).is_none() {
        return ;
    }
    let at: usize = flag_insert_position(entry);
    let v: u64 = if value {
        1
    } else {
        0
    };
    let _ = entry.set_uint(flag, v, at);
}

/// A Tracks element with one of its children changed.
pub open spec fn child_replaced(tracks: Node, i: int, e: Node) -> Node {
    tracks.with_children(tracks.children().update(i, e))
}

/// Makes a change to one child of a Tracks element.
fn edit_child(tracks: &mut Element, i: usize, edit: &TrackEdit)
    requires
        i < old(tracks)@.children().len(),
    ensures
        final(tracks)@ == child_replaced(
            old(tracks)@,
            i as int,
            edit.done_to(old(tracks)@.children()[i as int]),
        ),
{
    match &mut tracks.body {
        Body::Master(c) => {
            let ghost before = c@;
            assert(nodes_of(before).len() == before.len());
            assert(nodes_of(before)[i as int] == node_of(before[i as int]));
            edit.apply(&mut c[i]);
            assert(nodes_of(c@) =~= nodes_of(before).update(i as int, node_of(c@[i as int])));
        },
        Body::Data(_) => {},
    }
}

/// The entries of a Tracks element once the one at `idx` has been made the
/// default of its type and its siblings of that type have been cleared.
pub open spec fn default_made(nodes: Seq<Node>, ttype: u64, idx: int) -> Seq<Node> {
    nodes.map(
        |i: int, e: Node|
            if e.id() == id::TRACK_ENTRY && or_zero(e.uint(id::TRACK_TYPE)) == ttype {
                flag_written(e, id::FLAG_DEFAULT, i == idx, true)
            } else {
                e
            },
    )
}

/// Makes the entry at `idx` the default of its type.
fn set_default(tracks: &mut Element, ttype: u64, idx: usize)
    ensures
        final(tracks)@ == old(tracks)@.with_children(
            default_made(old(tracks)@.children(), ttype, idx as int),
        ),
{
    match &mut tracks.body {
        Body::Master(c) => {
            let ghost before = c@;
            let ghost want = default_made(nodes_of(before), ttype, idx as int);
            let n: usize = c.len();
            let mut i: usize = 0;
            while i < n
                invariant
                    i <= n,
                    n == c@.len(),
                    n == before.len(),
                    want == default_made(nodes_of(before), ttype, idx as int),
                    forall|k: int| 0 <= k < i ==> node_of(#[trigger] c@[k]) == want[k],
                    forall|k: int| i <= k < n ==> #[trigger] c@[k] == before[k],
                decreases n - i,
            {
                assert(nodes_of(before)[i as int] == node_of(before[i as int]));
                let here = c[i].id == id::TRACK_ENTRY && match c[i].get_uint(id::TRACK_TYPE) {
                    Some(t) => t == ttype,
                    None => 0 == ttype,
                };
                if here {
                    write_flag(&mut c[i], id::FLAG_DEFAULT, i == idx, true);
                }
                i += 1;
            }
            assert(nodes_of(c@) =~= want);
        },
        Body::Data(_) => {},
    }
}

// ---------------------------------------------------------------------------
// What an edit does to the state
// ---------------------------------------------------------------------------

impl AppModel {
    /// The state with other tracks in the selected file, which is then dirty.
    pub open spec fn with_tracks(self, tracks: Node) -> AppModel {
        let i = self.file_sel as int;
        self.with_entry(
            i,
            EntryModel {
                loaded: Some(Ok(MkvModel { tracks, ..self.files[i].file()->0 })),
                dirty: true,
                ..self.files[i]
            },
        )
    }

    /// The state with the selected track changed.
    pub open spec fn edited(self, edit: TrackEdit) -> AppModel {
        match self.selected() {
            Some(t) => {
                let tracks = self.current()->0.tracks;
                self.with_tracks(
                    child_replaced(
                        tracks,
                        t.index as int,
                        edit.done_to(tracks.children()[t.index as int]),
                    ),
                )
            },
            None => self,
        }
    }

    /// The state with the selected track made the default of its type.
    pub open spec fn made_default(self) -> AppModel {
        match self.selected() {
            Some(t) => {
                let tracks = self.current()->0.tracks;
                self.with_tracks(
                    tracks.with_children(
                        default_made(tracks.children(), t.ttype, t.index as int),
                    ),
                ).with_status(
                    "track "@ + decimal(t.number as nat) + " is now the default "@ + type_label(
                        t.ttype,
                    ) + " track"@,
                    false,
                )
            },
            None => self,
        }
    }

    /// The state with the default flag of the selected track cleared.
    pub open spec fn cleared_default(self) -> AppModel {
        match self.selected() {
            Some(t) => self.edited(
                TrackEdit::Flag { flag: id::FLAG_DEFAULT, value: false, default: true },
            ).with_status(
                "track "@ + decimal(t.number as nat) + " is no longer a default track"@,
                false,
            ),
            None => self,
        }
    }

    /// The state with a flag of the selected track turned over.
    pub open spec fn toggled(self, flag: u64) -> AppModel {
        match self.selected() {
            Some(t) => match flag_state(t, flag) {
                Some((cur, default, label)) => self.edited(
                    TrackEdit::Flag { flag, value: !cur, default },
                ).with_status(
                    "track "@ + decimal(t.number as nat) + ": "@ + label + " "@ + (if !cur {
                        "on"@
                    } else {
                        "off"@
                    }),
                    false,
                ),
                None => self,
            },
            None => self,
        }
    }

    /// The state with the entry of a text begun.
    pub open spec fn input_started(self, target: InputTarget) -> AppModel {
        match self.selected() {
            Some(t) => AppModel {
                input: Some(
                    match target {
                        InputTarget::Name => InputModel {
                            target,
                            prompt: "Track name (empty removes it)"@,
                            value: crate::mkv::track::shown_name(t),
                        },
                        InputTarget::Language => InputModel {
                            target,
                            prompt: "Language, ISO 639-2 such as eng or jpn"@,
                            value: t.language,
                        },
                    },
                ),
                ..self
            },
            None => self,
        }
    }

    /// The state with the text that was entered put into the selected track.
    pub open spec fn input_committed(self) -> AppModel {
        match self.input {
            None => self,
            Some(input) => {
                let next = AppModel { input: None, ..self };
                let value = trimmed(input.value);
                match next.selected() {
                    None => next,
                    Some(t) => match input.target {
                        InputTarget::Name => next.name_set(t, value),
                        InputTarget::Language => next.language_set(t, value),
                    },
                }
            },
        }
    }

    /// The state with the name of the selected track `t` set.
    pub open spec fn name_set(self, t: TrackModel, value: Seq<char>) -> AppModel {
        let e = self.current()->0.tracks.children()[t.index as int];
        self.with_tracks(
            child_replaced(self.current()->0.tracks, t.index as int, name_written(e, value)),
        ).with_status(
            if value.len() == 0 {
                "track "@ + decimal(t.number as nat) + ": name removed"@
            } else {
                "track "@ + decimal(t.number as nat) + ": name set to "@ + value
            },
            false,
        )
    }

    /// The state with the language of the selected track `t` set. A BCP-47 tag is
    /// removed with it, be it empty, and the status says so.
    pub open spec fn language_set(self, t: TrackModel, value: Seq<char>) -> AppModel {
        if value.len() == 0 {
            self.with_status("language cannot be empty"@, true)
        } else {
            let e = self.current()->0.tracks.children()[t.index as int];
            self.with_tracks(
                child_replaced(self.current()->0.tracks, t.index as int, language_written(e, value)),
            ).with_status(
                "track "@ + decimal(t.number as nat) + ": language set to "@ + value + (
                if e.has(id::LANGUAGE_BCP47) {
                    ", BCP-47 tag removed"@
                } else {
                    Seq::empty()
                }),
                false,
            )
        }
    }
}

/// A flag of a track: its value, its default, and what it is called.
pub open spec fn flag_state(t: TrackModel, flag: u64) -> Option<(bool, bool, Seq<char>)> {
    if flag == id::FLAG_FORCED {
        Some((t.forced.value, false, "forced"@))
    } else if flag == id::FLAG_ENABLED {
        Some((t.enabled.value, true, "enabled"@))
    } else if flag == id::FLAG_HEARING_IMPAIRED {
        Some((t.hearing_impaired.value, false, "hearing impaired"@))
    } else if flag == id::FLAG_VISUAL_IMPAIRED {
        Some((t.visual_impaired.value, false, "visual impaired"@))
    } else if flag == id::FLAG_TEXT_DESCRIPTIONS {
        Some((t.text_descriptions.value, false, "text descriptions"@))
    } else if flag == id::FLAG_ORIGINAL {
        Some((t.original.value, false, "original"@))
    } else if flag == id::FLAG_COMMENTARY {
        Some((t.commentary.value, false, "commentary"@))
    } else if flag == id::FLAG_DEFAULT {
        Some((t.default.value, true, "default"@))
    } else {
        None
    }
}

/// Other tracks in the selected file keep every file valid.
pub proof fn lemma_with_tracks_valid(app: AppModel, tracks: Node)
    requires
        app.files_valid(),
        app.current() is Some,
        tracks.id() == app.current()->0.tracks.id(),
        tracks is Master <==> app.current()->0.tracks is Master,
    ensures
        app.with_tracks(tracks).files_valid(),
{
    let next = app.with_tracks(tracks);
    assert(entry_valid(app.files[app.file_sel as int]));
    assert forall|i: int| 0 <= i < next.files.len() implies entry_valid(#[trigger] next.files[i]) by {
        if i != app.file_sel {
            assert(entry_valid(app.files[i]));
        }
    }
}

/// The selected track is an entry of the selected file.
pub proof fn lemma_selected(app: AppModel)
    ensures
        app.selected() matches Some(t) ==> {
            let nodes = app.current()->0.tracks.children();
            &&& app.current() is Some
            &&& t.index < nodes.len()
            &&& nodes[t.index as int].id() == id::TRACK_ENTRY
            &&& t == crate::mkv::track::track_of(t.index, nodes[t.index as int])
        },
{
    if let Some(m) = app.current() {
        lemma_tracks_from(m.tracks.children(), 0);
    }
}

impl App {
    /// Makes a change to one child of the Tracks element of the selected file.
    fn edit_at(&mut self, idx: usize, edit: &TrackEdit)
        requires
            old(self)@.current() is Some,
            idx < old(self)@.current()->0.tracks.children().len(),
        ensures
            ({
                let tracks = old(self)@.current()->0.tracks;
                final(self)@ == old(self)@.with_tracks(
                    child_replaced(tracks, idx as int, edit.done_to(tracks.children()[idx as int])),
                )
            }),
            old(self)@.files_valid() ==> final(self)@.files_valid(),
    {
        let ghost before = self@;
        let ghost tracks = before.current()->0.tracks;
        let ghost want = before.with_tracks(
            child_replaced(tracks, idx as int, edit.done_to(tracks.children()[idx as int])),
        );
        let i: usize = self.file_sel;
        assert(before.files[i as int] == self.files@[i as int]@);
        match &mut self.files[i].loaded {
            Some(Ok(m)) => {
                edit_child(&mut m.tracks, idx, edit);
            },
            _ => {},
        }
        self.files[i].dirty = true;
        assert(self@.files =~= want.files);
        proof {
            if before.files_valid() {
                lemma_with_tracks_valid(
                    before,
                    child_replaced(tracks, idx as int, edit.done_to(tracks.children()[idx as int])),
                );
            }
        }
    }

    /// Whether one child of the Tracks element of the selected file has a child
    /// with the ID.
    fn entry_has(&self, idx: usize, id: u64) -> (r: bool)
        requires
            self@.current() is Some,
            idx < self@.current()->0.tracks.children().len(),
        ensures
            r == self@.current()->0.tracks.children()[idx as int].has(id),
    {
        match self.current() {
            Some(m) => m.tracks.children()[idx].find(id).is_some(),
            None => false,
        }
    }

    /// Makes a change to the selected track, where one is selected.
    fn with_selected(&mut self, edit: &TrackEdit) -> (done: bool)
        ensures
            final(self)@ == old(self)@.edited(*edit),
            done == (old(self)@.selected() is Some),
            old(self)@.files_valid() ==> final(self)@.files_valid(),
    {
        proof {
            lemma_selected(self@);
        }
        match self.selected_track() {
            Some(t) => {
                self.edit_at(t.index, edit);
                true
            },
            None => false,
        }
    }

    /// Makes the selected track the default one of its type and clears the
    /// flag on every sibling of the same type.
    pub fn make_default(&mut self)
        ensures
            final(self)@ == old(self)@.made_default(),
            old(self)@.files_valid() ==> final(self)@.files_valid(),
    {
        let ghost before = self@;
        proof {
            lemma_selected(before);
        }
        let track = match self.selected_track() {
            Some(t) => t,
            None => {
                return ;
            },
        };
        let ghost tracks = before.current()->0.tracks;
        let ghost next = tracks.with_children(
            default_made(tracks.children(), track.ttype, track.index as int),
        );
        let i: usize = self.file_sel;
        assert(before.files[i as int] == self.files@[i as int]@);
        match &mut self.files[i].loaded {
            Some(Ok(m)) => {
                set_default(&mut m.tracks, track.ttype, track.index);
            },
            _ => {},
        }
        self.files[i].dirty = true;
        assert(self@.files =~= before.with_tracks(next).files);
        proof {
            if before.files_valid() {
                lemma_with_tracks_valid(before, next);
            }
        }
        let mut msg = "track ".to_owned();
        push_decimal(&mut msg, track.number);
        msg.append(" is now the default ");
        msg.append(track_type_name(track.ttype));
        msg.append(" track");
        self.info(msg);
    }

    pub fn clear_default(&mut self)
        ensures
            final(self)@ == old(self)@.cleared_default(),
            old(self)@.files_valid() ==> final(self)@.files_valid(),
    {
        let track = match self.selected_track() {
            Some(t) => t,
            None => {
                return ;
            },
        };
        let edit = TrackEdit::Flag { flag: id::FLAG_DEFAULT, value: false, default: true };
        let _ = self.with_selected(&edit);
        let mut msg = "track ".to_owned();
        push_decimal(&mut msg, track.number);
        msg.append(" is no longer a default track");
        self.info(msg);
    }

    /// Turns a flag of the selected track over.
    pub fn toggle_flag(&mut self, flag: u64)
        ensures
            final(self)@ == old(self)@.toggled(flag),
            old(self)@.files_valid() ==> final(self)@.files_valid(),
    {
        let track = match self.selected_track() {
            Some(t) => t,
            None => {
                return ;
            },
        };
        let (cur, default, label): (bool, bool, &str) = if flag == id::FLAG_FORCED {
            (track.forced.value, false, "forced")
        } else if flag == id::FLAG_ENABLED {
            (track.enabled.value, true, "enabled")
        } else if flag == id::FLAG_HEARING_IMPAIRED {
            (track.hearing_impaired.value, false, "hearing impaired")
        } else if flag == id::FLAG_VISUAL_IMPAIRED {
            (track.visual_impaired.value, false, "visual impaired")
        } else if flag == id::FLAG_TEXT_DESCRIPTIONS {
            (track.text_descriptions.value, false, "text descriptions")
        } else if flag == id::FLAG_ORIGINAL {
            (track.original.value, false, "original")
        } else if flag == id::FLAG_COMMENTARY {
            (track.commentary.value, false, "commentary")
        } else if flag == id::FLAG_DEFAULT {
            (track.default.value, true, "default")
        } else {
            return ;
        };
        let edit = TrackEdit::Flag { flag, value: !cur, default };
        let _ = self.with_selected(&edit);
        let mut msg = "track ".to_owned();
        push_decimal(&mut msg, track.number);
        msg.append(": ");
        msg.append(label);
        msg.append(" ");
        msg.append(
            if !cur {
                "on"
            } else {
                "off"
            },
        );
        self.info(msg);
    }

    pub fn start_input(&mut self, target: InputTarget)
        ensures
            final(self)@ == old(self)@.input_started(target),
    {
        let track = match self.selected_track() {
            Some(t) => t,
            None => {
                return ;
            },
        };
        let input = match target {
            InputTarget::Name => InputState {
                target,
                prompt: "Track name (empty removes it)".to_owned(),
                value: track.display_name(),
            },
            InputTarget::Language => InputState {
                target,
                prompt: "Language, ISO 639-2 such as eng or jpn".to_owned(),
                value: track.language,
            },
        };
        self.input = Some(input);
    }

    pub fn commit_input(&mut self)
        ensures
            final(self)@ == old(self)@.input_committed(),
            old(self)@.files_valid() ==> final(self)@.files_valid(),
    {
        let input = match self.input.take() {
            Some(i) => i,
            None => {
                return ;
            },
        };
        let value = trim(&input.value);
        proof {
            lemma_selected(self@);
        }
        let track = match self.selected_track() {
            Some(t) => t,
            None => {
                return ;
            },
        };
        let mut msg = "track ".to_owned();
        push_decimal(&mut msg, track.number);
        match input.target {
            InputTarget::Name => {
                if value.as_str().is_empty() {
                    msg.append(": name removed");
                } else {
                    msg.append(": name set to ");
                    msg.append(&value);
                }
                self.edit_at(track.index, &TrackEdit::Name(value));
                self.info(msg);
            },
            InputTarget::Language => {
                if value.as_str().is_empty() {
                    self.error("language cannot be empty".to_owned());
                    return ;
                }
                msg.append(": language set to ");
                msg.append(&value);
                if self.entry_has(track.index, id::LANGUAGE_BCP47) {
                    msg.append(", BCP-47 tag removed");
                } else {
                    assert(msg@ + Seq::<char>::empty() =~= msg@);
                }
                self.edit_at(track.index, &TrackEdit::Language(value));
                self.info(msg);
            },
        }
    }
}

} // verus!
