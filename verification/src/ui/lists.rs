//! The lists of files and tracks, the lines at the bottom, and the popups.

use vstd::prelude::*;
use vstd::string::*;

use crate::app::model::{file_label, App, FileEntry};
#[allow(unused_imports)]
use crate::app::model::{name_of, AppModel, EntryModel};
use crate::ebml::track_type;
#[allow(unused_imports)]
use crate::ebml::track_type::type_label;
use crate::mkv::track::Track;
#[allow(unused_imports)]
use crate::mkv::track::{layout_text, shown_language, shown_name, TrackModel};
use crate::text::{decimal_text, push_decimal};
#[allow(unused_imports)]
use crate::text::{decimal, texts};
use crate::ui::areas::Room;
use crate::ui::labels::codec_label;
#[allow(unused_imports)]
use crate::ui::labels::{codec_text, flags_text};
use crate::ui::styled::{line_of, put, put_line, Span, Tone};
#[allow(unused_imports)]
use crate::ui::styled::{line_model, line_models, toned, SpanModel};

verus! {

// ---------------------------------------------------------------------------
// Files
// ---------------------------------------------------------------------------

/// The row of a file: marked when it has changes that are not saved, red when
/// it could not be read.
pub open spec fn file_row(e: EntryModel) -> Seq<SpanModel> {
    seq![
        toned(
            if e.dirty {
                "*"@
            } else {
                " "@
            },
            Tone::Yellow,
        ),
        toned(
            " "@ + e.label(),
            if e.loaded matches Some(Err(_)) {
                Tone::Red
            } else if e.dirty {
                Tone::Yellow
            } else {
                Tone::Plain
            },
        ),
    ]
}

fn make_file_row(e: &FileEntry) -> (line: Vec<Span>)
    ensures
        line_model(line@) == file_row(e@),
{
    let mut line: Vec<Span> = Vec::new();
    if e.dirty {
        put(&mut line, "*", Tone::Yellow);
    } else {
        put(&mut line, " ", Tone::Yellow);
    }
    let broken = match &e.loaded {
        Some(Err(_)) => true,
        _ => false,
    };
    let tone = if broken {
        Tone::Red
    } else if e.dirty {
        Tone::Yellow
    } else {
        Tone::Plain
    };
    let mut label = " ".to_owned();
    label.append(&e.label());
    put(&mut line, &label, tone);
    assert(line_model(line@) =~= file_row(e@));
    line
}

/// The rows of the file list.
pub fn file_rows(app: &App) -> (rows: Vec<Vec<Span>>)
    ensures
        line_models(rows@) == app@.files.map_values(|e: EntryModel| file_row(e)),
{
    let mut rows: Vec<Vec<Span>> = Vec::new();
    let mut i: usize = 0;
    while i < app.files.len()
        invariant
            i <= app.files@.len(),
            rows@.len() == i,
            forall|k: int| 0 <= k < i ==> line_model((#[trigger] rows@[k])@) == file_row(app.files@[k]@),
        decreases app.files@.len() - i,
    {
        rows.push(make_file_row(&app.files[i]));
        i += 1;
    }
    assert(line_models(rows@) =~= app@.files.map_values(|e: EntryModel| file_row(e)));
    rows
}

/// The title of the file list: how many files there are, or how many of them
/// have been read.
pub open spec fn files_title_text(app: AppModel) -> Seq<char> {
    match app.scanner {
        Some(s) => " Files ("@ + decimal(s.done as nat) + "/"@ + decimal(s.total as nat) + " read) "@,
        None => " Files ("@ + decimal(app.files.len()) + ") "@,
    }
}

pub fn files_title(app: &App) -> (r: String)
    ensures
        r@ == files_title_text(app@),
{
    let mut out = " Files (".to_owned();
    match app.scan_progress() {
        Some((done, total)) => {
            push_decimal(&mut out, done as u64);
            out.append("/");
            push_decimal(&mut out, total as u64);
            out.append(" read) ");
        },
        None => {
            push_decimal(&mut out, app.files.len() as u64);
            out.append(") ");
        },
    }
    out
}

// ---------------------------------------------------------------------------
// Tracks
// ---------------------------------------------------------------------------

/// The title of the track list.
pub open spec fn tracks_title_text(app: AppModel) -> Seq<char> {
    match app.current() {
        Some(m) => " Tracks - "@ + name_of(m.path) + " "@,
        None => " Tracks "@,
    }
}

pub fn tracks_title(app: &App) -> (r: String)
    ensures
        r@ == tracks_title_text(app@),
{
    match app.current() {
        Some(m) => {
            let mut out = " Tracks - ".to_owned();
            out.append(&file_label(&m.path));
            out.append(" ");
            out
        },
        None => " Tracks ".to_owned(),
    }
}

/// What stands in the place of the track list where the file could not be read.
pub open spec fn error_text(app: AppModel) -> Option<Seq<Seq<SpanModel>>> {
    if app.file_sel < app.files.len() {
        match app.files[app.file_sel as int].loaded {
            Some(Err(e)) => Some(
                seq![
                    seq![toned("This file could not be read:"@, Tone::Red)],
                    seq![toned(""@, Tone::Plain)],
                    seq![toned(e, Tone::Plain)],
                ],
            ),
            _ => None,
        }
    } else {
        None
    }
}

pub fn error_lines(app: &App) -> (r: Option<Vec<Vec<Span>>>)
    ensures
        match r {
            Some(lines) => error_text(app@) == Some(line_models(lines@)),
            None => error_text(app@) is None,
        },
{
    match app.current_error() {
        Some(e) => {
            let mut lines: Vec<Vec<Span>> = Vec::new();
            put_line(&mut lines, line_of("This file could not be read:", Tone::Red));
            put_line(&mut lines, line_of("", Tone::Plain));
            put_line(&mut lines, line_of(e, Tone::Plain));
            assert(line_models(lines@) =~= error_text(app@)->0);
            Some(lines)
        },
        None => None,
    }
}

/// The heads of the columns of the track list.
pub fn track_heads() -> (r: Vec<&'static str>)
    ensures
        r@ == seq!["ID", "Type", "Codec", "Lang", "Name", "Layout", "Flags"],
{
    let r: Vec<&'static str> = vec!["ID", "Type", "Codec", "Lang", "Name", "Layout", "Flags"];
    assert(r@ =~= seq!["ID", "Type", "Codec", "Lang", "Name", "Layout", "Flags"]);
    r
}

/// How wide the columns of the track list are.
pub fn track_columns() -> (r: Vec<Room>)
    ensures
        r@ == seq![
            Room::Length(3),
            Room::Length(8),
            Room::Length(14),
            Room::Length(6),
            Room::Min(16),
            Room::Length(7),
            Room::Length(16),
        ],
{
    let r = vec![
        Room::Length(3),
        Room::Length(8),
        Room::Length(14),
        Room::Length(6),
        Room::Min(16),
        Room::Length(7),
        Room::Length(16),
    ];
    assert(r@ =~= seq![
        Room::Length(3),
        Room::Length(8),
        Room::Length(14),
        Room::Length(6),
        Room::Min(16),
        Room::Length(7),
        Room::Length(16),
    ]);
    r
}

/// The tone of a track's row, by its type.
pub open spec fn type_tone(ttype: u64) -> Tone {
    if ttype == track_type::AUDIO {
        Tone::Green
    } else if ttype == track_type::SUBTITLE {
        Tone::Magenta
    } else if ttype == track_type::VIDEO {
        Tone::Blue
    } else {
        Tone::Dim
    }
}

/// The cells of a track's row.
pub open spec fn track_cells(t: TrackModel) -> Seq<Seq<char>> {
    seq![
        decimal(t.number as nat),
        type_label(t.ttype),
        codec_text(t.codec_id),
        shown_language(t),
        shown_name(t),
        layout_text(t),
        flags_text(t),
    ]
}

/// The cells of a track's row and their tone.
pub fn track_row(t: &Track) -> (r: (Vec<String>, Tone))
    ensures
        texts(r.0@) == track_cells(t@),
        r.1 == type_tone(t@.ttype),
{
    let tone = if t.ttype == track_type::AUDIO {
        Tone::Green
    } else if t.ttype == track_type::SUBTITLE {
        Tone::Magenta
    } else if t.ttype == track_type::VIDEO {
        Tone::Blue
    } else {
        Tone::Dim
    };
    let mut cells: Vec<String> = Vec::new();
    cells.push(decimal_text(t.number));
    cells.push(t.type_text().to_owned());
    cells.push(codec_label(&t.codec_id));
    cells.push(t.effective_language());
    cells.push(t.display_name());
    cells.push(t.channel_layout());
    cells.push(t.flag_summary());
    assert(texts(cells@) =~= track_cells(t@));
    (cells, tone)
}

/// The row of the track list that is selected; none where there are no tracks.
pub fn selected_row(app: &App) -> (r: Option<usize>)
    ensures
        r == (if app@.tracks().len() == 0 {
            None
        } else {
            Some(app@.track_sel)
        }),
{
    if app.tracks().len() == 0 {
        None
    } else {
        Some(app.track_sel)
    }
}

// ---------------------------------------------------------------------------
// The lines at the bottom
// ---------------------------------------------------------------------------

/// The status line: the text being entered, or the last message and how many
/// files have changes that are not saved.
pub open spec fn status_spans(app: AppModel) -> Seq<SpanModel> {
    match app.input {
        Some(input) => seq![
            toned(input.prompt + ": "@, Tone::Accent),
            toned(input.value, Tone::Plain),
            toned("_"@, Tone::Blink),
        ],
        None => seq![
            toned(
                app.status,
                if app.status_error {
                    Tone::Red
                } else {
                    Tone::Green
                },
            ),
            toned(
                if app.dirty_files() > 0 {
                    "  ["@ + decimal(app.dirty_files()) + " file(s) with unsaved changes]"@
                } else {
                    ""@
                },
                Tone::Yellow,
            ),
        ],
    }
}

pub fn status_line(app: &App) -> (line: Vec<Span>)
    ensures
        line_model(line@) == status_spans(app@),
{
    let mut line: Vec<Span> = Vec::new();
    match &app.input {
        Some(input) => {
            let mut prompt = input.prompt.clone();
            prompt.append(": ");
            put(&mut line, &prompt, Tone::Accent);
            put(&mut line, &input.value, Tone::Plain);
            put(&mut line, "_", Tone::Blink);
        },
        None => {
            let tone = if app.status_error {
                Tone::Red
            } else {
                Tone::Green
            };
            put(&mut line, &app.status, tone);
            let dirty: usize = app.dirty_count();
            if dirty > 0 {
                let mut suffix = "  [".to_owned();
                push_decimal(&mut suffix, dirty as u64);
                suffix.append(" file(s) with unsaved changes]");
                put(&mut line, &suffix, Tone::Yellow);
            } else {
                put(&mut line, "", Tone::Yellow);
            }
        },
    }
    assert(line_model(line@) =~= status_spans(app@));
    line
}

/// The keys that do something now.
pub fn keys_text(app: &App) -> (r: &'static str)
    ensures
        r@ == (if app@.input is Some {
            "Enter confirm   Esc cancel"@
        } else {
            "d default  D clear  f forced  e enabled  n name  l language  s save  S save all  u revert  ? help  q quit"@
        }),
{
    if app.input.is_some() {
        "Enter confirm   Esc cancel"
    } else {
        "d default  D clear  f forced  e enabled  n name  l language  s save  S save all  u revert  ? help  q quit"
    }
}

// ---------------------------------------------------------------------------
// Popups
// ---------------------------------------------------------------------------

/// How wide and high the help is.
pub const HELP_WIDTH: u16 = 78;

pub const HELP_HEIGHT: u16 = 26;

/// How wide and high the question whether to quit is.
pub const QUIT_WIDTH: u16 = 60;

pub const QUIT_HEIGHT: u16 = 7;

/// The question whether to quit.
pub open spec fn confirm_text(app: AppModel) -> Seq<Seq<SpanModel>> {
    seq![
        seq![toned(decimal(app.dirty_files()) + " file(s) have unsaved changes."@, Tone::Plain)],
        seq![toned(""@, Tone::Plain)],
        seq![
            toned("s"@, Tone::Accent),
            toned(" save all and quit    "@, Tone::Plain),
            toned("q"@, Tone::Accent),
            toned(" quit anyway    "@, Tone::Plain),
            toned("Esc"@, Tone::Accent),
            toned(" cancel"@, Tone::Plain),
        ],
    ]
}

pub fn confirm_lines(app: &App) -> (lines: Vec<Vec<Span>>)
    ensures
        line_models(lines@) == confirm_text(app@),
{
    let mut count = decimal_text(app.dirty_count() as u64);
    count.append(" file(s) have unsaved changes.");
    let mut choice: Vec<Span> = Vec::new();
    put(&mut choice, "s", Tone::Accent);
    put(&mut choice, " save all and quit    ", Tone::Plain);
    put(&mut choice, "q", Tone::Accent);
    put(&mut choice, " quit anyway    ", Tone::Plain);
    put(&mut choice, "Esc", Tone::Accent);
    put(&mut choice, " cancel", Tone::Plain);
    assert(line_model(choice@) =~= confirm_text(app@)[2]);
    let mut lines: Vec<Vec<Span>> = Vec::new();
    put_line(&mut lines, line_of(&count, Tone::Plain));
    put_line(&mut lines, line_of("", Tone::Plain));
    put_line(&mut lines, choice);
    assert(line_models(lines@) =~= confirm_text(app@));
    lines
}

} // verus!
