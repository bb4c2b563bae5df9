//! What each key does.

use vstd::prelude::*;
use vstd::string::*;

use crate::app::model::{App, Focus, InputTarget};
#[allow(unused_imports)]
use crate::app::model::{AppModel, InputModel};
use crate::ebml::id;

verus! {

/// A key of the keyboard.
#[derive(Clone, Copy, Debug, PartialEq, Eq, Structural)]
pub enum Key {
    Enter,
    Esc,
    Backspace,
    Tab,
    BackTab,
    Up,
    Down,
    Home,
    End,
    PageUp,
    PageDown,
    F1,
    Char(char),
    Other,
}

/// What is to be done on disk after a key.
#[derive(Debug)]
pub enum Request {
    Nothing,
    /// Open the selected file; the result goes to [`App::ensure_loaded`].
    Load,
    /// Save this file; the result goes to [`App::finish_save`].
    Save(usize),
    /// Save these files; the results go to [`App::finish_save_all`], and after
    /// that comes [`App::finish_quit`] where `quit` is set.
    SaveAll { files: Vec<usize>, quit: bool },
    /// Open this file again; the result goes to [`App::finish_revert`].
    Reload(usize),
}

/// The model of [`Request`].
pub enum RequestModel {
    Nothing,
    Load,
    Save(usize),
    SaveAll { files: Seq<usize>, quit: bool },
    Reload(usize),
}

impl View for Request {
    type V = RequestModel;

    open spec fn view(&self) -> RequestModel {
        match *self {
            Request::Nothing => RequestModel::Nothing,
            Request::Load => RequestModel::Load,
            Request::Save(i) => RequestModel::Save(i),
            Request::SaveAll { files, quit } => RequestModel::SaveAll { files: files@, quit },
            Request::Reload(i) => RequestModel::Reload(i),
        }
    }
}

/// How far Home moves the selection.
pub const TO_FIRST: i32 = -0x4000_0000;

/// How far End moves the selection.
pub const TO_LAST: i32 = 0x3FFF_FFFF;

/// The flag that a key turns over.
pub open spec fn flag_for(c: char) -> Option<u64> {
    if c == 'f' {
        Some(id::FLAG_FORCED)
    } else if c == 'e' {
        Some(id::FLAG_ENABLED)
    } else if c == 'h' {
        Some(id::FLAG_HEARING_IMPAIRED)
    } else if c == 'v' {
        Some(id::FLAG_VISUAL_IMPAIRED)
    } else if c == 't' {
        Some(id::FLAG_TEXT_DESCRIPTIONS)
    } else if c == 'o' {
        Some(id::FLAG_ORIGINAL)
    } else if c == 'c' {
        Some(id::FLAG_COMMENTARY)
    } else {
        None
    }
}

/// What moving the file selection from `before` to `after` asks for.
pub open spec fn load_request(before: AppModel, after: AppModel) -> RequestModel {
    if after.file_sel != before.file_sel && after.unloaded() is Some {
        RequestModel::Load
    } else {
        RequestModel::Nothing
    }
}

impl AppModel {
    /// A key while a text is being entered: every key but Enter and Esc goes
    /// into the text.
    pub open spec fn input_key(self, input: InputModel, key: Key) -> AppModel {
        match key {
            Key::Enter => self.input_committed(),
            Key::Esc => (AppModel { input: None, ..self }).with_status("cancelled"@, false),
            Key::Backspace => AppModel {
                input: Some(
                    InputModel {
                        value: if input.value.len() == 0 {
                            input.value
                        } else {
                            input.value.drop_last()
                        },
                        ..input
                    },
                ),
                ..self
            },
            Key::Char(c) => AppModel {
                input: Some(InputModel { value: input.value.push(c), ..input }),
                ..self
            },
            _ => self,
        }
    }

    /// A key while it is asked whether to quit with changes unsaved.
    pub open spec fn confirm_key(self, key: Key) -> (AppModel, RequestModel) {
        match key {
            Key::Char(c) => if c == 's' || c == 'S' {
                match self.all_to_save() {
                    Some(files) => (self, RequestModel::SaveAll { files, quit: true }),
                    None => (self.save_all_asked().quit_decided(), RequestModel::Nothing),
                }
            } else if c == 'q' || c == 'y' {
                (AppModel { should_quit: true, ..self }, RequestModel::Nothing)
            } else if c == 'n' {
                (AppModel { confirm_quit: false, ..self }, RequestModel::Nothing)
            } else {
                (self, RequestModel::Nothing)
            },
            Key::Esc => (AppModel { confirm_quit: false, ..self }, RequestModel::Nothing),
            _ => (self, RequestModel::Nothing),
        }
    }

    /// The state with the selection of the focused pane moved.
    pub open spec fn focus_moved(self, delta: int) -> (AppModel, RequestModel) {
        match self.focus {
            Focus::Files => {
                let next = self.file_moved(delta);
                (next, load_request(self, next))
            },
            Focus::Tracks => (self.track_moved(delta), RequestModel::Nothing),
        }
    }

    /// The state once quitting was asked for: with changes unsaved it is asked
    /// first.
    pub open spec fn quit_asked(self) -> AppModel {
        if self.dirty_files() > 0 {
            AppModel { confirm_quit: true, ..self }
        } else {
            AppModel { should_quit: true, ..self }
        }
    }

    /// A letter or sign in the lists.
    pub open spec fn list_char(self, c: char) -> (AppModel, RequestModel) {
        if c == 'q' {
            (self.quit_asked(), RequestModel::Nothing)
        } else if c == '?' {
            (AppModel { show_help: true, ..self }, RequestModel::Nothing)
        } else if c == 'j' {
            self.focus_moved(1)
        } else if c == 'k' {
            self.focus_moved(-1)
        } else if c == ']' {
            (self.file_moved(1), load_request(self, self.file_moved(1)))
        } else if c == '[' {
            (self.file_moved(-1), load_request(self, self.file_moved(-1)))
        } else if c == 'd' {
            (self.made_default(), RequestModel::Nothing)
        } else if c == 'D' {
            (self.cleared_default(), RequestModel::Nothing)
        } else if c == 'n' {
            (self.input_started(InputTarget::Name), RequestModel::Nothing)
        } else if c == 'l' {
            (self.input_started(InputTarget::Language), RequestModel::Nothing)
        } else if c == 's' {
            (
                self.save_asked(),
                match self.to_save() {
                    Some(i) => RequestModel::Save(i),
                    None => RequestModel::Nothing,
                },
            )
        } else if c == 'S' {
            (
                self.save_all_asked(),
                match self.all_to_save() {
                    Some(files) => RequestModel::SaveAll { files, quit: false },
                    None => RequestModel::Nothing,
                },
            )
        } else if c == 'u' {
            (
                self.revert_asked(),
                match self.to_revert() {
                    Some(i) => RequestModel::Reload(i),
                    None => RequestModel::Nothing,
                },
            )
        } else {
            match flag_for(c) {
                Some(flag) => (self.toggled(flag), RequestModel::Nothing),
                None => (self, RequestModel::Nothing),
            }
        }
    }

    /// A key in the lists.
    pub open spec fn list_key(self, key: Key) -> (AppModel, RequestModel) {
        match key {
            Key::Esc => (self.quit_asked(), RequestModel::Nothing),
            Key::F1 => (AppModel { show_help: true, ..self }, RequestModel::Nothing),
            Key::Tab | Key::BackTab => (
                AppModel {
                    focus: match self.focus {
                        Focus::Files => Focus::Tracks,
                        Focus::Tracks => Focus::Files,
                    },
                    ..self
                },
                RequestModel::Nothing,
            ),
            Key::Down => self.focus_moved(1),
            Key::Up => self.focus_moved(-1),
            Key::Home => self.focus_moved(TO_FIRST as int),
            Key::End => self.focus_moved(TO_LAST as int),
            Key::PageDown => (self.file_moved(1), load_request(self, self.file_moved(1))),
            Key::PageUp => (self.file_moved(-1), load_request(self, self.file_moved(-1))),
            Key::Char(c) => self.list_char(c),
            _ => (self, RequestModel::Nothing),
        }
    }

    /// What a key does: a text being entered comes first, then the question
    /// whether to quit, then the help, which any key closes.
    pub open spec fn key_handled(self, key: Key, ctrl: bool) -> (AppModel, RequestModel) {
        if let Some(input) = self.input {
            (self.input_key(input, key), RequestModel::Nothing)
        } else if self.confirm_quit {
            self.confirm_key(key)
        } else if self.show_help {
            (AppModel { show_help: false, ..self }, RequestModel::Nothing)
        } else if ctrl && key == Key::Char('c') {
            (AppModel { should_quit: true, ..self }, RequestModel::Nothing)
        } else {
            self.list_key(key)
        }
    }
}

/// How long to wait for a key, in milliseconds, while the list is being read.
pub const WAIT_WHILE_READING: u64 = 60;

/// How long to wait for a key, in milliseconds.
pub const WAIT: u64 = 250;

impl App {
    /// How long to wait for a key, in milliseconds: less while the list is
    /// still being read, so that it fills in smoothly.
    pub fn wait_ms(&self) -> (r: u64)
        ensures
            r == (if self@.scanner is Some {
                WAIT_WHILE_READING
            } else {
                WAIT
            }),
    {
        if self.scan_progress().is_some() {
            WAIT_WHILE_READING
        } else {
            WAIT
        }
    }

    /// Moves the file selection, and asks for the file where it has yet to be
    /// loaded.
    fn move_file(&mut self, delta: i32) -> (r: Request)
        ensures
            final(self)@ == old(self)@.file_moved(delta as int),
            r@ == load_request(old(self)@, old(self)@.file_moved(delta as int)),
            old(self)@.files_valid() ==> final(self)@.files_valid(),
    {
        let before: usize = self.file_sel;
        self.select_file(delta);
        if self.file_sel != before && self.to_load().is_some() {
            Request::Load
        } else {
            Request::Nothing
        }
    }

    /// Moves the selection of the focused pane.
    fn move_focus(&mut self, delta: i32) -> (r: Request)
        ensures
            (final(self)@, r@) == old(self)@.focus_moved(delta as int),
            old(self)@.files_valid() ==> final(self)@.files_valid(),
    {
        match self.focus {
            Focus::Files => self.move_file(delta),
            Focus::Tracks => {
                self.select_track(delta);
                Request::Nothing
            },
        }
    }

    fn quit_or_ask(&mut self)
        ensures
            final(self)@ == old(self)@.quit_asked(),
    {
        if self.dirty_count() > 0 {
            self.confirm_quit = true;
        } else {
            self.should_quit = true;
        }
    }

    /// A key while a text is being entered.
    fn handle_input(&mut self, key: Key)
        requires
            old(self)@.input is Some,
        ensures
            final(self)@ == old(self)@.input_key(old(self)@.input->0, key),
            old(self)@.files_valid() ==> final(self)@.files_valid(),
    {
        match key {
            Key::Enter => {
                self.commit_input();
            },
            Key::Esc => {
                self.input = None;
                self.info("cancelled".to_owned());
            },
            Key::Backspace => {
                if let Some(i) = &mut self.input {
                    let _ = i.value.pop();
                }
            },
            Key::Char(c) => {
                if let Some(i) = &mut self.input {
                    i.value.push(c);
                }
            },
            _ => {},
        }
    }

    /// A key while it is asked whether to quit with changes unsaved.
    fn handle_confirm(&mut self, key: Key) -> (r: Request)
        ensures
            (final(self)@, r@) == old(self)@.confirm_key(key),
            old(self)@.files_valid() ==> final(self)@.files_valid(),
    {
        match key {
            Key::Char(c) => {
                if c == 's' || c == 'S' {
                    match self.save_all() {
                        Some(files) => {
                            return Request::SaveAll { files, quit: true };
                        },
                        None => {
                            self.finish_quit();
                        },
                    }
                } else if c == 'q' || c == 'y' {
                    self.should_quit = true;
                } else if c == 'n' {
                    self.confirm_quit = false;
                }
            },
            Key::Esc => {
                self.confirm_quit = false;
            },
            _ => {},
        }
        Request::Nothing
    }

    /// A letter or sign in the lists that saves, discards or toggles.
    fn handle_change(&mut self, c: char) -> (r: Request)
        requires
            c != 'q',
            c != '?',
            c != 'j',
            c != 'k',
            c != ']',
            c != '[',
        ensures
            (final(self)@, r@) == old(self)@.list_char(c),
            old(self)@.files_valid() ==> final(self)@.files_valid(),
    {
        if c == 'd' {
            self.make_default();
        } else if c == 'D' {
            self.clear_default();
        } else if c == 'n' {
            self.start_input(InputTarget::Name);
        } else if c == 'l' {
            self.start_input(InputTarget::Language);
        } else if c == 's' {
            if let Some(i) = self.save_current() {
                return Request::Save(i);
            }
        } else if c == 'S' {
            if let Some(files) = self.save_all() {
                return Request::SaveAll { files, quit: false };
            }
        } else if c == 'u' {
            if let Some(i) = self.revert_current() {
                return Request::Reload(i);
            }
        } else if c == 'f' {
            self.toggle_flag(id::FLAG_FORCED);
        } else if c == 'e' {
            self.toggle_flag(id::FLAG_ENABLED);
        } else if c == 'h' {
            self.toggle_flag(id::FLAG_HEARING_IMPAIRED);
        } else if c == 'v' {
            self.toggle_flag(id::FLAG_VISUAL_IMPAIRED);
        } else if c == 't' {
            self.toggle_flag(id::FLAG_TEXT_DESCRIPTIONS);
        } else if c == 'o' {
            self.toggle_flag(id::FLAG_ORIGINAL);
        } else if c == 'c' {
            self.toggle_flag(id::FLAG_COMMENTARY);
        }
        Request::Nothing
    }

    /// A letter or sign in the lists.
    fn handle_char(&mut self, c: char) -> (r: Request)
        ensures
            (final(self)@, r@) == old(self)@.list_char(c),
            old(self)@.files_valid() ==> final(self)@.files_valid(),
    {
        if c == 'q' {
            self.quit_or_ask();
            Request::Nothing
        } else if c == '?' {
            self.show_help = true;
            Request::Nothing
        } else if c == 'j' {
            self.move_focus(1)
        } else if c == 'k' {
            self.move_focus(-1)
        } else if c == ']' {
            self.move_file(1)
        } else if c == '[' {
            self.move_file(-1)
        } else {
            self.handle_change(c)
        }
    }

    /// A key in the lists.
    fn handle_list(&mut self, key: Key) -> (r: Request)
        ensures
            (final(self)@, r@) == old(self)@.list_key(key),
            old(self)@.files_valid() ==> final(self)@.files_valid(),
    {
        match key {
            Key::Esc => {
                self.quit_or_ask();
                Request::Nothing
            },
            Key::F1 => {
                self.show_help = true;
                Request::Nothing
            },
            Key::Tab | Key::BackTab => {
                self.focus = match self.focus {
                    Focus::Files => Focus::Tracks,
                    Focus::Tracks => Focus::Files,
                };
                Request::Nothing
            },
            Key::Down => self.move_focus(1),
            Key::Up => self.move_focus(-1),
            Key::Home => self.move_focus(TO_FIRST),
            Key::End => self.move_focus(TO_LAST),
            Key::PageDown => self.move_file(1),
            Key::PageUp => self.move_file(-1),
            Key::Char(c) => self.handle_char(c),
            _ => Request::Nothing,
        }
    }

    /// Does what a key asks for, and says what is to be done on disk.
    pub fn handle_key(&mut self, key: Key, ctrl: bool) -> (r: Request)
        ensures
            (final(self)@, r@) == old(self)@.key_handled(key, ctrl),
            old(self)@.files_valid() ==> final(self)@.files_valid(),
    {
        // Text entry takes every key except Enter and Esc.
        if self.input.is_some() {
            self.handle_input(key);
            return Request::Nothing;
        }
        if self.confirm_quit {
            return self.handle_confirm(key);
        }
        if self.show_help {
            self.show_help = false;
            return Request::Nothing;
        }
        if ctrl {
            if let Key::Char(c) = key {
                if c == 'c' {
                    self.should_quit = true;
                    return Request::Nothing;
                }
            }
        }
        self.handle_list(key)
    }
}

} // verus!
