//! The state of the interface.

use vstd::prelude::*;
use vstd::string::*;

use crate::mkv::file::{FilePath, MkvFile};
#[allow(unused_imports)]
use crate::mkv::file::{MkvModel, PathModel};
#[allow(unused_imports)]
use crate::mkv::open::opened_view;
#[allow(unused_imports)]
use crate::mkv::track::{tracks_in, TrackModel};
use crate::scan::Scanner;

verus! {

#[derive(Clone, Copy, PartialEq, Eq, Debug, Structural)]
pub enum Focus {
    Files,
    Tracks,
}

#[derive(Clone, Copy, PartialEq, Eq, Debug, Structural)]
pub enum InputTarget {
    Name,
    Language,
}

#[derive(Debug)]
pub struct InputState {
    pub target: InputTarget,
    pub prompt: String,
    pub value: String,
}

/// The model of [`InputState`].
pub struct InputModel {
    pub target: InputTarget,
    pub prompt: Seq<char>,
    pub value: Seq<char>,
}

impl View for InputState {
    type V = InputModel;

    open spec fn view(&self) -> InputModel {
        InputModel { target: self.target, prompt: self.prompt@, value: self.value@ }
    }
}

#[derive(Debug)]
pub struct FileEntry {
    pub path: FilePath,
    /// Loaded lazily on first selection.
    pub loaded: Option<Result<MkvFile, String>>,
    pub dirty: bool,
}

/// The model of [`FileEntry`].
pub struct EntryModel {
    pub path: PathModel,
    pub loaded: Option<Result<MkvModel, Seq<char>>>,
    pub dirty: bool,
}

/// The model of a file that may have been loaded.
pub open spec fn loaded_view(loaded: Option<Result<MkvFile, String>>) -> Option<
    Result<MkvModel, Seq<char>>,
> {
    match loaded {
        Some(r) => Some(opened_view(r)),
        None => None,
    }
}

impl View for FileEntry {
    type V = EntryModel;

    open spec fn view(&self) -> EntryModel {
        EntryModel { path: self.path@, loaded: loaded_view(self.loaded), dirty: self.dirty }
    }
}

/// The models of entries in order.
pub open spec fn entry_models(s: Seq<FileEntry>) -> Seq<EntryModel> {
    s.map_values(|e: FileEntry| e@)
}

/// The last component of a path, or nothing.
pub open spec fn name_of(path: PathModel) -> Seq<char> {
    match path.name {
        Some(name) => name,
        None => Seq::empty(),
    }
}

pub fn file_label(path: &FilePath) -> (r: String)
    ensures
        r@ == name_of(path@),
{
    match &path.name {
        Some(name) => name.clone(),
        None => String::new(),
    }
}

impl EntryModel {
    /// What the entry is called: the last component of its path, or the whole
    /// of a path that has none.
    pub open spec fn label(self) -> Seq<char> {
        match self.path.name {
            Some(name) => name,
            None => self.path.shown,
        }
    }

    /// The file, where it was loaded.
    pub open spec fn file(self) -> Option<MkvModel> {
        match self.loaded {
            Some(Ok(m)) => Some(m),
            _ => None,
        }
    }
}

impl FileEntry {
    pub fn label(&self) -> (r: String)
        ensures
            r@ == self@.label(),
    {
        match &self.path.name {
            Some(name) => name.clone(),
            None => self.path.shown.clone(),
        }
    }
}

#[derive(Debug)]
pub struct App {
    pub files: Vec<FileEntry>,
    pub file_sel: usize,
    pub track_sel: usize,
    pub focus: Focus,
    pub status: String,
    pub status_error: bool,
    pub show_help: bool,
    pub input: Option<InputState>,
    pub confirm_quit: bool,
    pub backup: bool,
    pub should_quit: bool,
    /// How far the background scan of the list has come. Dropped once every
    /// file has arrived.
    pub scanner: Option<Scanner>,
}

/// The model of [`App`].
#[verifier::ext_equal]
pub struct AppModel {
    pub files: Seq<EntryModel>,
    pub file_sel: usize,
    pub track_sel: usize,
    pub focus: Focus,
    pub status: Seq<char>,
    pub status_error: bool,
    pub show_help: bool,
    pub input: Option<InputModel>,
    pub confirm_quit: bool,
    pub backup: bool,
    pub should_quit: bool,
    pub scanner: Option<Scanner>,
}

/// The model of a text that may be being entered.
pub open spec fn input_view(input: Option<InputState>) -> Option<InputModel> {
    match input {
        Some(i) => Some(i@),
        None => None,
    }
}

impl View for App {
    type V = AppModel;

    open spec fn view(&self) -> AppModel {
        AppModel {
            files: entry_models(self.files@),
            file_sel: self.file_sel,
            track_sel: self.track_sel,
            focus: self.focus,
            status: self.status@,
            status_error: self.status_error,
            show_help: self.show_help,
            input: input_view(self.input),
            confirm_quit: self.confirm_quit,
            backup: self.backup,
            should_quit: self.should_quit,
            scanner: self.scanner,
        }
    }
}

impl AppModel {
    /// The selected file, where it could be loaded.
    pub open spec fn current(self) -> Option<MkvModel> {
        if self.file_sel < self.files.len() {
            self.files[self.file_sel as int].file()
        } else {
            None
        }
    }

    /// The tracks of the selected file.
    pub open spec fn tracks(self) -> Seq<TrackModel> {
        match self.current() {
            Some(m) => tracks_in(m.tracks),
            None => Seq::empty(),
        }
    }

    /// The selected track.
    pub open spec fn selected(self) -> Option<TrackModel> {
        if self.track_sel < self.tracks().len() {
            Some(self.tracks()[self.track_sel as int])
        } else {
            None
        }
    }

    /// How many of the first `n` files have changes that are not saved.
    pub open spec fn dirty_among(self, n: int) -> nat
        decreases n,
    {
        if n <= 0 {
            0
        } else {
            self.dirty_among(n - 1) + if self.files[n - 1].dirty {
                1nat
            } else {
                0nat
            }
        }
    }

    /// How many files have changes that are not saved.
    pub open spec fn dirty_files(self) -> nat {
        self.dirty_among(self.files.len() as int)
    }

    /// Whether the selected file has changes that are not saved.
    pub open spec fn dirty_here(self) -> bool {
        self.file_sel < self.files.len() && self.files[self.file_sel as int].dirty
    }

    /// The state with a message in the status line.
    pub open spec fn with_status(self, text: Seq<char>, is_error: bool) -> AppModel {
        AppModel { status: text, status_error: is_error, ..self }
    }

    /// The state with another entry at `i`.
    pub open spec fn with_entry(self, i: int, e: EntryModel) -> AppModel {
        AppModel { files: self.files.update(i, e), ..self }
    }

    /// The state with the track selection within the tracks there are.
    pub open spec fn clamped(self) -> AppModel {
        let n = self.tracks().len();
        AppModel {
            track_sel: if self.track_sel < n {
                self.track_sel
            } else if n == 0 {
                0
            } else {
                (n - 1) as usize
            },
            ..self
        }
    }

    /// Every file that is loaded is valid.
    pub open spec fn files_valid(self) -> bool {
        forall|i: int| 0 <= i < self.files.len() ==> entry_valid(#[trigger] self.files[i])
    }
}

/// Whether the file of the entry is valid where it is loaded.
pub open spec fn entry_valid(e: EntryModel) -> bool {
    match e.file() {
        Some(m) => m.valid(),
        None => true,
    }
}

} // verus!
