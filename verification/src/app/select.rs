//! Which file and track is selected, and what is loaded.

use vstd::prelude::*;
use vstd::string::*;

use crate::app::model::{App, FileEntry, Focus};
#[allow(unused_imports)]
use crate::app::model::{loaded_view, AppModel, EntryModel};
use crate::mkv::file::{FilePath, MkvFile};
#[allow(unused_imports)]
use crate::mkv::file::{MkvModel, PathModel};
#[allow(unused_imports)]
use crate::mkv::open::opened_view;
use crate::mkv::track::Track;
#[allow(unused_imports)]
use crate::mkv::track::{track_models, TrackModel};
use crate::scan::Scanner;

verus! {

/// The models of paths in order.
pub open spec fn path_models(s: Seq<FilePath>) -> Seq<PathModel> {
    s.map_values(|p: FilePath| p@)
}

/// An entry whose file has not been loaded.
pub open spec fn fresh_entry(path: PathModel) -> EntryModel {
    EntryModel { path, loaded: None, dirty: false }
}

/// The state at the start.
pub open spec fn fresh_app(paths: Seq<PathModel>, backup: bool, background: bool) -> AppModel {
    AppModel {
        files: paths.map_values(|p: PathModel| fresh_entry(p)),
        file_sel: 0,
        track_sel: 0,
        focus: Focus::Tracks,
        status: Seq::empty(),
        status_error: false,
        show_help: false,
        input: None,
        confirm_quit: false,
        backup,
        should_quit: false,
        scanner: if background && paths.len() > 1 {
            Some(Scanner { done: 0, total: paths.len() as usize })
        } else {
            None
        },
    }
}

/// The model of a result that arrived.
pub open spec fn arrival_view(a: (usize, Result<MkvFile, String>)) -> (
    usize,
    Result<MkvModel, Seq<char>>,
) {
    (a.0, opened_view(a.1))
}

impl AppModel {
    /// The state once a result has arrived. Never clobber a file the cursor
    /// reached first, and in particular never one with unsaved edits.
    pub open spec fn arrived(self, i: usize, result: Result<MkvModel, Seq<char>>) -> AppModel {
        if i < self.files.len() && self.files[i as int].loaded is None {
            self.with_entry(i as int, EntryModel { loaded: Some(result), ..self.files[i as int] })
        } else {
            self
        }
    }

    /// The state once the first `n` results have arrived.
    pub open spec fn all_arrived(
        self,
        results: Seq<(usize, Result<MkvModel, Seq<char>>)>,
        n: int,
    ) -> AppModel
        decreases n,
    {
        if n <= 0 {
            self
        } else {
            self.all_arrived(results, n - 1).arrived(results[n - 1].0, results[n - 1].1)
        }
    }

    /// The state once results have been collected. The scan is dropped when it
    /// is complete.
    pub open spec fn scan_polled(
        self,
        results: Seq<(usize, Result<MkvModel, Seq<char>>)>,
        finished: bool,
    ) -> AppModel {
        match self.scanner {
            None => self,
            Some(s) => {
                let next = s.drained(results.len(), finished);
                AppModel {
                    scanner: if next.done < next.total {
                        Some(next)
                    } else {
                        None
                    },
                    ..self.all_arrived(results, results.len() as int)
                }
            },
        }
    }

    /// The index of the selected file, where it has not been loaded.
    pub open spec fn unloaded(self) -> Option<usize> {
        if self.file_sel < self.files.len() && self.files[self.file_sel as int].loaded is None {
            Some(self.file_sel)
        } else {
            None
        }
    }

    /// The state once the selected file has been seen to.
    pub open spec fn seen_to(self, opened: Option<Result<MkvModel, Seq<char>>>) -> AppModel {
        let next = match opened {
            Some(r) => self.arrived(self.file_sel, r),
            None => self,
        };
        next.clamped()
    }

    /// The selection moved by `delta` within `n` places.
    pub open spec fn moved(sel: usize, delta: int, n: nat) -> int {
        if sel + delta < 0 {
            0
        } else if sel + delta > n - 1 {
            n - 1
        } else {
            sel + delta
        }
    }

    /// The state with the file selection moved by `delta`.
    pub open spec fn file_moved(self, delta: int) -> AppModel {
        let next = AppModel::moved(self.file_sel, delta, self.files.len());
        if self.files.len() == 0 || next == self.file_sel {
            self
        } else {
            (AppModel { file_sel: next as usize, track_sel: 0, ..self }).clamped()
        }
    }

    /// The state with the track selection moved by `delta`.
    pub open spec fn track_moved(self, delta: int) -> AppModel {
        let n = self.tracks().len();
        if n == 0 {
            self
        } else {
            AppModel { track_sel: AppModel::moved(self.track_sel, delta, n) as usize, ..self }
        }
    }
}

/// A place that the selection moved by `delta` from `sel` comes to.
fn move_within(sel: usize, delta: i32, n: usize) -> (r: usize)
    requires
        n > 0,
    ensures
        r == AppModel::moved(sel, delta as int, n as nat),
        r < n,
{
    if delta < 0 {
        let back: u32 = (-(delta as i64)) as u32;
        let to: usize = if sel >= back as usize {
            sel - back as usize
        } else {
            0
        };
        if to > n - 1 {
            n - 1
        } else {
            to
        }
    } else {
        let on: usize = delta as usize;
        if sel >= n || on > n - 1 - sel {
            n - 1
        } else {
            sel + on
        }
    }
}

impl App {
    pub fn new(paths: Vec<FilePath>, backup: bool) -> (app: App)
        ensures
            app@ == fresh_app(path_models(paths@), backup, true),
    {
        App::with_scanner(paths, backup, true)
    }

    /// `background` reads the whole list on worker threads.
    pub fn with_scanner(paths: Vec<FilePath>, backup: bool, background: bool) -> (app: App)
        ensures
            app@ == fresh_app(path_models(paths@), backup, background),
            app@.files_valid(),
    {
        let n: usize = paths.len();
        let mut files: Vec<FileEntry> = Vec::new();
        let mut i: usize = 0;
        while i < n
            invariant
                i <= n,
                n == paths@.len(),
                files@.len() == i,
                forall|k: int|
                    0 <= k < i ==> (#[trigger] files@[k])@ == fresh_entry(path_models(paths@)[k]),
            decreases n - i,
        {
            files.push(FileEntry { path: paths[i].clone(), loaded: None, dirty: false });
            i += 1;
        }
        let scanner = if background && n > 1 {
            Some(Scanner::start(n))
        } else {
            None
        };
        let app = App {
            files,
            file_sel: 0,
            track_sel: 0,
            focus: Focus::Tracks,
            status: String::new(),
            status_error: false,
            show_help: false,
            input: None,
            confirm_quit: false,
            backup,
            should_quit: false,
            scanner,
        };
        assert(app@.files =~= fresh_app(path_models(paths@), backup, background).files);
        assert(app@.status =~= Seq::<char>::empty());
        app
    }

    /// Puts a result into its row, unless the row is loaded already.
    fn arrive(&mut self, i: usize, result: Result<MkvFile, String>)
        ensures
            final(self)@ == old(self)@.arrived(i, opened_view(result)),
            old(self)@.files_valid() && (result is Ok ==> result->Ok_0@.valid()) ==> final(self)@.files_valid(),
    {
        let ghost before = self@;
        if i < self.files.len() && self.files[i].loaded.is_none() {
            assert(before.files[i as int] == self.files@[i as int]@);
            self.files[i].loaded = Some(result);
            assert(self@.files =~= before.arrived(i, opened_view(result)).files);
        }
    }

    /// Collects what the background scan has finished: each result carries the
    /// index it belongs to, and `finished` says that no more will come. Returns
    /// true when something arrived and the screen should be redrawn.
    pub fn poll_scan(&mut self, results: Vec<(usize, Result<MkvFile, String>)>, finished: bool) -> (changed: bool)
        requires
            old(self)@.scanner is Some ==> old(self)@.scanner->0.done + results@.len() <= usize::MAX,
        ensures
            final(self)@ == old(self)@.scan_polled(
                results@.map_values(|a: (usize, Result<MkvFile, String>)| arrival_view(a)),
                finished,
            ),
            changed == (old(self)@.scanner is Some && results@.len() > 0),
            old(self)@.files_valid() && (forall|k: int|
                0 <= k < results@.len() && (#[trigger] results@[k]).1 is Ok ==> results@[k].1->Ok_0@.valid())
                ==> final(self)@.files_valid(),
    {
        let mut scanner = match self.scanner {
            Some(s) => s,
            None => {
                return false;
            },
        };
        let ghost before = self@;
        let ghost views = results@.map_values(
            |a: (usize, Result<MkvFile, String>)| arrival_view(a),
        );
        let ghost all = results@;
        let ghost good = before.files_valid() && (forall|k: int|
            0 <= k < all.len() && (#[trigger] all[k]).1 is Ok ==> all[k].1->Ok_0@.valid());
        let n: usize = results.len();
        let mut left = results;
        let mut rest: Vec<(usize, Result<MkvFile, String>)> = Vec::new();
        // Turned round, so that they come off the end in the order in which
        // they arrived.
        while left.len() > 0
            invariant
                left@.len() + rest@.len() == all.len(),
                left@ == all.take(left@.len() as int),
                forall|k: int|
                    0 <= k < rest@.len() ==> (#[trigger] rest@[k]) == all[all.len() - 1 - k],
            decreases left@.len(),
        {
            let ghost m = left@.len() as int;
            let a = left.pop().unwrap();
            assert(a == all[m - 1]);
            rest.push(a);
            assert(left@ =~= all.take(m - 1));
        }
        let mut i: usize = 0;
        while i < n
            invariant
                i <= n,
                n == all.len(),
                rest@.len() == n - i,
                views == all.map_values(|a: (usize, Result<MkvFile, String>)| arrival_view(a)),
                forall|k: int|
                    0 <= k < rest@.len() ==> (#[trigger] rest@[k]) == all[n - 1 - k],
                self@ == before.all_arrived(views, i as int),
                good ==> self@.files_valid(),
                good ==> (forall|k: int|
                    0 <= k < all.len() && (#[trigger] all[k]).1 is Ok ==> all[k].1->Ok_0@.valid()),
            decreases n - i,
        {
            let a = rest.pop().unwrap();
            assert(a == all[i as int]);
            assert(views[i as int] == arrival_view(a));
            self.arrive(a.0, a.1);
            i += 1;
        }
        let any = scanner.drain(n, finished);
        if scanner.in_progress() {
            self.scanner = Some(scanner);
        } else {
            self.scanner = None;
        }
        proof {
            lemma_arrived_keeps(before, views, n as int);
        }
        any
    }

    /// How many files have been read so far, while that is still going on.
    pub fn scan_progress(&self) -> (r: Option<(usize, usize)>)
        ensures
            r == (match self@.scanner {
                Some(s) => Some((s.done, s.total)),
                None => None,
            }),
    {
        match &self.scanner {
            Some(s) => Some(s.progress()),
            None => None,
        }
    }

    /// The index of the selected file, where it has yet to be loaded.
    pub fn to_load(&self) -> (r: Option<usize>)
        ensures
            r == self@.unloaded(),
    {
        if self.file_sel < self.files.len() {
            assert(self@.files[self.file_sel as int] == self.files@[self.file_sel as int]@);
            if self.files[self.file_sel].loaded.is_none() {
                return Some(self.file_sel);
            }
        }
        None
    }

    /// Makes sure that the selected file is loaded, by what came of opening it
    /// where [`App::to_load`] asked for that, and that the selected track is
    /// one of its tracks.
    pub fn ensure_loaded(&mut self, opened: Option<Result<MkvFile, String>>)
        ensures
            final(self)@ == old(self)@.seen_to(loaded_view(opened)),
            old(self)@.files_valid() && (opened matches Some(Ok(m)) ==> m@.valid()) ==> final(self)@.files_valid(),
    {
        let i: usize = self.file_sel;
        if let Some(result) = opened {
            self.arrive(i, result);
        }
        self.clamp_track();
    }

    /// Keeps the selected track within the tracks there are.
    pub fn clamp_track(&mut self)
        ensures
            final(self)@ == old(self)@.clamped(),
    {
        let n: usize = self.tracks().len();
        if self.track_sel >= n {
            self.track_sel = if n == 0 {
                0
            } else {
                n - 1
            };
        }
    }

    pub fn current(&self) -> (r: Option<&MkvFile>)
        ensures
            match r {
                Some(m) => self@.current() == Some(m@),
                None => self@.current() is None,
            },
    {
        if self.file_sel < self.files.len() {
            assert(self@.files[self.file_sel as int] == self.files@[self.file_sel as int]@);
            match &self.files[self.file_sel].loaded {
                Some(Ok(m)) => Some(m),
                _ => None,
            }
        } else {
            None
        }
    }

    pub fn current_error(&self) -> (r: Option<&str>)
        ensures
            match r {
                Some(e) => self.file_sel < self@.files.len() && self@.files[self.file_sel as int].loaded
                    == Some(Err::<MkvModel, Seq<char>>(e@)),
                None => self.file_sel >= self@.files.len() || !(self@.files[self.file_sel as int].loaded
                    matches Some(Err(_))),
            },
    {
        if self.file_sel < self.files.len() {
            assert(self@.files[self.file_sel as int] == self.files@[self.file_sel as int]@);
            match &self.files[self.file_sel].loaded {
                Some(Err(e)) => Some(e.as_str()),
                _ => None,
            }
        } else {
            None
        }
    }

    pub fn tracks(&self) -> (r: Vec<Track>)
        ensures
            track_models(r@) == self@.tracks(),
    {
        match self.current() {
            Some(m) => m.tracks_view(),
            None => {
                let none: Vec<Track> = Vec::new();
                assert(track_models(none@) =~= Seq::<TrackModel>::empty());
                none
            },
        }
    }

    pub fn selected_track(&self) -> (r: Option<Track>)
        ensures
            match r {
                Some(t) => self@.selected() == Some(t@),
                None => self@.selected() is None,
            },
    {
        let mut all = self.tracks();
        if self.track_sel < all.len() {
            assert(track_models(all@)[self.track_sel as int] == all@[self.track_sel as int]@);
            Some(all.swap_remove(self.track_sel))
        } else {
            None
        }
    }

    /// Moves the file selection. The file that is selected then may have yet to
    /// be loaded.
    pub fn select_file(&mut self, delta: i32)
        ensures
            final(self)@ == old(self)@.file_moved(delta as int),
    {
        if self.files.len() == 0 {
            return ;
        }
        let next: usize = move_within(self.file_sel, delta, self.files.len());
        if next != self.file_sel {
            self.file_sel = next;
            self.track_sel = 0;
            self.clamp_track();
        }
    }

    pub fn select_track(&mut self, delta: i32)
        ensures
            final(self)@ == old(self)@.track_moved(delta as int),
    {
        let n: usize = self.tracks().len();
        if n == 0 {
            return ;
        }
        self.track_sel = move_within(self.track_sel, delta, n);
    }

    pub fn info(&mut self, msg: String)
        ensures
            final(self)@ == old(self)@.with_status(msg@, false),
    {
        self.status = msg;
        self.status_error = false;
    }

    pub fn error(&mut self, msg: String)
        ensures
            final(self)@ == old(self)@.with_status(msg@, true),
    {
        self.status = msg;
        self.status_error = true;
    }

    pub fn is_dirty(&self) -> (r: bool)
        ensures
            r == self@.dirty_here(),
    {
        if self.file_sel < self.files.len() {
            assert(self@.files[self.file_sel as int] == self.files@[self.file_sel as int]@);
            self.files[self.file_sel].dirty
        } else {
            false
        }
    }

    pub fn dirty_count(&self) -> (r: usize)
        ensures
            r == self@.dirty_files(),
    {
        let mut count: usize = 0;
        let mut i: usize = 0;
        while i < self.files.len()
            invariant
                i <= self.files@.len(),
                count == self@.dirty_among(i as int),
                count <= i,
            decreases self.files@.len() - i,
        {
            assert(self@.files[i as int] == self.files@[i as int]@);
            if self.files[i].dirty {
                count += 1;
            }
            i += 1;
        }
        count
    }
}

/// Results that arrive change nothing but the rows they are for.
proof fn lemma_arrived_keeps(
    app: AppModel,
    results: Seq<(usize, Result<MkvModel, Seq<char>>)>,
    n: int,
)
    ensures
        app.all_arrived(results, n) == (AppModel {
            files: app.all_arrived(results, n).files,
            ..app
        }),
    decreases n,
{
    if n > 0 {
        lemma_arrived_keeps(app, results, n - 1);
    }
}

} // verus!
