//! What the panes, the lists and the listing say.

use vstd::prelude::*;

#[allow(unused_imports)]
use crate::app::model::{AppModel, EntryModel};
#[allow(unused_imports)]
use crate::ebml::track_type::type_label;
#[allow(unused_imports)]
use crate::mkv::file::InfoModel;
#[allow(unused_imports)]
use crate::mkv::language::{base_of, language_of};
#[allow(unused_imports)]
use crate::mkv::track::{flag_words, layout_text, only_if, AudioInfo, Flag, TrackModel, VideoInfo};
#[allow(unused_imports)]
use crate::text::{decimal, joined, left_aligned, right_aligned};
#[allow(unused_imports)]
use crate::text_laws::{law_decimal_spells_the_number, number};
#[allow(unused_imports)]
use crate::ui::areas::{centred, divided, in_range, Area, Screen};
#[allow(unused_imports)]
use crate::ui::details::{
    audio_parts, details, extra_parts, flag_spans, head_line, language_line, language_text, name_line, player_flags,
    purpose_flags, size_parts, track_line, video_parts, Readings,
};
#[allow(unused_imports)]
use crate::ui::labels::{codec_text, duration_text, flags_text, plain_text, two_digits};
#[allow(unused_imports)]
use crate::ui::lists::{
    confirm_text, error_text, file_row, files_title_text, status_spans, track_cells, tracks_title_text, type_tone,
};
use crate::ui::styled::Tone;
#[allow(unused_imports)]
use crate::ui::styled::{toned, SpanModel};

verus! {

// ---------------------------------------------------------------------------
// Names
// ---------------------------------------------------------------------------

/// Each type of track has the name that Matroska gives it, and any other number
/// is of no known type.
pub proof fn law_types_have_their_names(t: u64)
    ensures
        type_label(1) == "video"@,
        type_label(2) == "audio"@,
        type_label(3) == "complex"@,
        type_label(0x10) == "logo"@,
        type_label(0x11) == "subtitle"@,
        type_label(0x12) == "buttons"@,
        type_label(0x20) == "control"@,
        type_label(0x21) == "metadata"@,
        t == 0 || 3 < t < 0x10 || 0x12 < t < 0x20 || t > 0x21 ==> type_label(t) == "unknown"@,
{
}

/// Sound, subtitles and pictures are told apart by the tone of their rows.
pub proof fn law_types_have_their_tones(t: u64)
    ensures
        type_tone(1) == Tone::Blue,
        type_tone(2) == Tone::Green,
        type_tone(0x11) == Tone::Magenta,
        t != 1 && t != 2 && t != 0x11 ==> type_tone(t) == Tone::Dim,
{
}

/// A duration is given in hours, minutes and seconds that add up to it, with
/// fewer than sixty of each of the smaller, in two digits behind a colon. Hours
/// are left out where there are none.
pub proof fn law_duration_adds_up(total: nat)
    ensures
        exists|h: nat, m: nat, s: nat| {
            &&& total == 3600 * h + 60 * m + s
            &&& m < 60
            &&& s < 60
            &&& #[trigger] clock(h, m, s) == duration_text(total)
        },
{
    let h = total / 3600;
    let m = (total % 3600) / 60;
    let s = total % 60;
    assert(total == 3600 * h + 60 * m + s);
    lemma_two_digits(m);
    lemma_two_digits(s);
    reveal_strlit(":");
    assert(clock(h, m, s) =~= duration_text(total));
}

/// Hours, minutes and seconds as a clock shows them.
pub open spec fn clock(h: nat, m: nat, s: nat) -> Seq<char> {
    if h > 0 {
        decimal(h) + seq![':', tens(m), units(m), ':', tens(s), units(s)]
    } else {
        decimal(m) + seq![':', tens(s), units(s)]
    }
}

/// The first of two digits.
pub open spec fn tens(n: nat) -> char {
    ('0' as int + n / 10) as char
}

/// The second of two digits.
pub open spec fn units(n: nat) -> char {
    ('0' as int + n % 10) as char
}

proof fn lemma_two_digits(n: nat)
    requires
        n < 60,
    ensures
        two_digits(n) == seq![tens(n), units(n)],
{
    reveal_strlit("0");
    reveal_with_fuel(decimal, 2);
    assert(two_digits(n) =~= seq![tens(n), units(n)]);
}

/// The channels of a track are called mono, stereo, 5.1 or 7.1 where they are
/// that many, and are else counted; nothing is said of a track without sound.
pub proof fn law_channels_have_their_names(t: TrackModel)
    ensures
        t.audio is None ==> layout_text(t).len() == 0,
        t.audio matches Some(a) ==> match a.channels {
            None => layout_text(t).len() == 0,
            Some(n) => {
                &&& n == 1 ==> layout_text(t) == "mono"@
                &&& n == 2 ==> layout_text(t) == "stereo"@
                &&& n == 6 ==> layout_text(t) == "5.1"@
                &&& n == 8 ==> layout_text(t) == "7.1"@
                &&& n != 1 && n != 2 && n != 6 && n != 8 ==> layout_text(t) == decimal(n as nat) + "ch"@
            },
        },
{
}

// ---------------------------------------------------------------------------
// Flags
// ---------------------------------------------------------------------------

/// The words up to each flag.
pub open spec fn words_to(t: TrackModel, n: int) -> Seq<Seq<char>>
    decreases n,
{
    if n <= 0 {
        Seq::empty()
    } else {
        words_to(t, n - 1) + only_if(word_set(t, n - 1), word_at(t, n - 1))
    }
}

/// Whether the word in that place is said.
pub open spec fn word_set(t: TrackModel, n: int) -> bool {
    if n == 0 {
        t.default.value
    } else if n == 1 {
        t.forced.value
    } else if n == 2 {
        !t.enabled.value
    } else if n == 3 {
        t.hearing_impaired.value
    } else if n == 4 {
        t.visual_impaired.value
    } else if n == 5 {
        t.text_descriptions.value
    } else if n == 6 {
        t.original.value
    } else {
        t.commentary.value
    }
}

/// The word in that place.
pub open spec fn word_at(t: TrackModel, n: int) -> Seq<char> {
    if n == 0 {
        if t.default.explicit {
            "D"@
        } else {
            "d"@
        }
    } else if n == 1 {
        if t.forced.explicit {
            "F"@
        } else {
            "f"@
        }
    } else if n == 2 {
        "off"@
    } else if n == 3 {
        "HI"@
    } else if n == 4 {
        "VI"@
    } else if n == 5 {
        "TD"@
    } else if n == 6 {
        "Orig"@
    } else {
        "Com"@
    }
}

/// The flags column has a word for each flag that is set, and for a track that is
/// disabled, and no other, in a fixed order with a blank between. The default and
/// the forced flag have capitals where the file says so, and else small letters.
pub proof fn law_flags_column_says_the_flags(t: TrackModel)
    ensures
        flag_words(t) == words_to(t, 8),
        flags_text(t) == joined(words_to(t, 8), " "@),
{
    reveal_with_fuel(words_to, 9);
}

// ---------------------------------------------------------------------------
// Rows
// ---------------------------------------------------------------------------

/// The language that is shown is the BCP-47 tag where there is one.
pub open spec fn language_to_show(t: TrackModel) -> Seq<char> {
    if t.language_bcp47 is Some {
        t.language_bcp47->0
    } else {
        t.language
    }
}

/// The row of a track says its number, type, codec, language, name, channels and
/// flags, in that order.
pub proof fn law_track_row_says_the_track(t: TrackModel)
    ensures
        track_cells(t).len() == 7,
        number(track_cells(t)[0]) == t.number,
        track_cells(t)[1] == type_label(t.ttype),
        track_cells(t)[2] == codec_text(t.codec_id),
        track_cells(t)[3] == language_to_show(t),
        t.name matches Some(n) ==> track_cells(t)[4] == n,
        t.name is None ==> track_cells(t)[4].len() == 0,
        track_cells(t)[5] == layout_text(t),
        track_cells(t)[6] == joined(flag_words(t), " "@),
{
    law_decimal_spells_the_number(t.number as nat);
}

/// A line of the listing says the number, type, codec and language of a track in
/// columns, then its name and its flags where it has any.
pub proof fn law_listing_says_the_track(t: TrackModel)
    ensures
        ({
            let columns = "  "@ + right_aligned(decimal(t.number as nat), 3) + "  "@ + left_aligned(
                type_label(t.ttype),
                9,
            ) + " "@ + left_aligned(codec_text(t.codec_id), 14) + " "@ + left_aligned(language_to_show(t), 6);
            let name = match t.name {
                Some(n) => n,
                None => Seq::empty(),
            };
            let flags = joined(flag_words(t), " "@);
            &&& name.len() == 0 && flags.len() == 0 ==> plain_text(t) == columns
            &&& name.len() > 0 && flags.len() == 0 ==> plain_text(t) == columns + " "@ + name
            &&& name.len() == 0 && flags.len() > 0 ==> plain_text(t) == columns + "  ["@ + flags + "]"@
            &&& name.len() > 0 && flags.len() > 0 ==> plain_text(t) == columns + " "@ + name + "  ["@ + flags + "]"@
        }),
{
    let columns = "  "@ + right_aligned(decimal(t.number as nat), 3) + "  "@ + left_aligned(type_label(t.ttype), 9)
        + " "@ + left_aligned(codec_text(t.codec_id), 14) + " "@ + left_aligned(language_to_show(t), 6);
    let name = match t.name {
        Some(n) => n,
        None => Seq::empty(),
    };
    let flags = joined(flag_words(t), " "@);
    let p = plain_text(t);
    if name.len() == 0 && flags.len() == 0 {
        assert(p =~= columns);
    } else if flags.len() == 0 {
        assert(p =~= columns + " "@ + name);
    } else if name.len() == 0 {
        assert(p =~= columns + "  ["@ + flags + "]"@);
    } else {
        assert(p =~= columns + " "@ + name + "  ["@ + flags + "]"@);
    }
}

/// The row of a file is starred exactly where it has changes that are not saved,
/// red exactly where it could not be read, and names the file.
pub proof fn law_file_row_says_the_file(e: EntryModel)
    ensures
        file_row(e).len() == 2,
        e.dirty ==> file_row(e)[0].text == "*"@,
        !e.dirty ==> file_row(e)[0].text == " "@,
        e.path.name matches Some(n) ==> file_row(e)[1].text == " "@ + n,
        e.path.name is None ==> file_row(e)[1].text == " "@ + e.path.shown,
        file_row(e)[1].tone == Tone::Red <==> (e.loaded matches Some(r) && r is Err),
        file_row(e)[1].tone == Tone::Yellow <==> e.dirty && !(e.loaded matches Some(r) && r is Err),
{
}

/// The title of the file list counts the files, or while they are being read
/// those that have been.
pub proof fn law_files_title_counts(app: AppModel)
    ensures
        app.scanner is None ==> files_title_text(app) == " Files ("@ + decimal(app.files.len()) + ") "@,
        app.scanner matches Some(s) ==> files_title_text(app) == " Files ("@ + decimal(s.done as nat) + "/"@ + decimal(
            s.total as nat,
        ) + " read) "@,
{
}

/// The pane of the tracks names the selected file where it could be read, and
/// says why where it could not.
pub proof fn law_tracks_pane_names_the_file(app: AppModel)
    ensures
        app.current() is None ==> tracks_title_text(app) == " Tracks "@,
        app.current() matches Some(m) ==> {
            &&& m.path.name matches Some(n) ==> tracks_title_text(app) == " Tracks - "@ + n + " "@
            &&& error_text(app) is None
        },
        error_text(app) is Some <==> app.file_sel < app.files.len() && (app.files[app.file_sel as int].loaded matches Some(
            r,
        ) && r is Err),
        error_text(app) matches Some(lines) ==> {
            &&& lines.len() == 3
            &&& lines[0][0].text == "This file could not be read:"@
            &&& lines[0][0].tone == Tone::Red
            &&& lines[2][0].text == app.files[app.file_sel as int].loaded->0->Err_0
        },
{
}

/// The status line shows the text that is being entered; else the last message,
/// in red where it is an error, and how many files have changes that are not
/// saved where there are any.
pub proof fn law_status_line_says_the_state(app: AppModel)
    ensures
        app.input matches Some(i) ==> {
            &&& status_spans(app)[0].text == i.prompt + ": "@
            &&& status_spans(app)[1].text == i.value
        },
        app.input is None ==> {
            let changed = app.files.filter(|e: EntryModel| e.dirty).len();
            &&& status_spans(app)[0].text == app.status
            &&& status_spans(app)[0].tone == Tone::Red <==> app.status_error
            &&& changed == 0 ==> status_spans(app)[1].text.len() == 0
            &&& changed > 0 ==> status_spans(app)[1].text == "  ["@ + decimal(changed)
                + " file(s) with unsaved changes]"@
        },
        confirm_text(app)[0][0].text == decimal(app.files.filter(|e: EntryModel| e.dirty).len())
            + " file(s) have unsaved changes."@,
{
    crate::app::save_laws::law_changed_files_are_counted(app);
    reveal_strlit("");
}

// ---------------------------------------------------------------------------
// The details
// ---------------------------------------------------------------------------

/// What a line says, whatever its tones.
pub open spec fn said(line: Seq<SpanModel>) -> Seq<char>
    decreases line.len(),
{
    if line.len() == 0 {
        Seq::empty()
    } else {
        said(line.drop_last()) + line.last().text
    }
}

proof fn lemma_said_append(a: Seq<SpanModel>, b: Seq<SpanModel>)
    ensures
        said(a + b) == said(a) + said(b),
    decreases b.len(),
{
    if b.len() == 0 {
        assert(a + b =~= a);
        assert(said(a) + said(b) =~= said(a));
    } else {
        lemma_said_append(a, b.drop_last());
        assert((a + b).drop_last() =~= a + b.drop_last());
        assert(said(a + b) =~= said(a) + said(b));
    }
}

proof fn lemma_said_few(line: Seq<SpanModel>)
    ensures
        line.len() == 0 ==> said(line).len() == 0,
        line.len() == 1 ==> said(line) == line[0].text,
        line.len() == 2 ==> said(line) == line[0].text + line[1].text,
        line.len() == 3 ==> said(line) == line[0].text + line[1].text + line[2].text,
        line.len() == 4 ==> said(line) == line[0].text + line[1].text + line[2].text + line[3].text,
        line.len() == 5 ==> said(line) == line[0].text + line[1].text + line[2].text + line[3].text + line[4].text,
{
    reveal_with_fuel(said, 6);
    if line.len() == 1 {
        assert(said(line) =~= line[0].text);
    }
    if line.len() == 2 {
        assert(said(line) =~= line[0].text + line[1].text);
    }
    if line.len() == 3 {
        assert(said(line) =~= line[0].text + line[1].text + line[2].text);
    }
    if line.len() == 4 {
        assert(said(line) =~= line[0].text + line[1].text + line[2].text + line[3].text);
    }
    if line.len() == 5 {
        assert(said(line) =~= line[0].text + line[1].text + line[2].text + line[3].text + line[4].text);
    }
}

/// What is said of a flag: its name, whether it is set, and for the flags that a
/// player acts on that the file does not say so, where it does not.
pub open spec fn flag_said(label: Seq<char>, flag: Flag, player: bool) -> Seq<char> {
    label + "="@ + (if flag.value {
        "yes"@
    } else {
        "no"@
    }) + (if player && !flag.explicit {
        " (implied)"@
    } else {
        Seq::empty()
    }) + "  "@
}

proof fn lemma_flag_said(label: Seq<char>, flag: Flag, player: bool)
    ensures
        said(flag_spans(label, flag, player)) == flag_said(label, flag, player),
{
    reveal_strlit("");
    lemma_said_few(flag_spans(label, flag, player));
    assert(said(flag_spans(label, flag, player)) =~= flag_said(label, flag, player));
}

/// The lines on the flags say each flag of the track under its own name.
pub proof fn law_details_say_the_flags(t: TrackModel)
    ensures
        said(player_flags(t)) == flag_said("default"@, t.default, true) + flag_said("forced"@, t.forced, true)
            + flag_said("enabled"@, t.enabled, true),
        said(purpose_flags(t)) == flag_said("hearing impaired"@, t.hearing_impaired, false) + flag_said(
            "visual impaired"@,
            t.visual_impaired,
            false,
        ) + flag_said("text descriptions"@, t.text_descriptions, false) + flag_said("original"@, t.original, false)
            + flag_said("commentary"@, t.commentary, false),
{
    let a = flag_spans("default"@, t.default, true);
    let b = flag_spans("forced"@, t.forced, true);
    let c = flag_spans("enabled"@, t.enabled, true);
    lemma_flag_said("default"@, t.default, true);
    lemma_flag_said("forced"@, t.forced, true);
    lemma_flag_said("enabled"@, t.enabled, true);
    lemma_said_append(a, b);
    lemma_said_append(a + b, c);
    let h = flag_spans("hearing impaired"@, t.hearing_impaired, false);
    let v = flag_spans("visual impaired"@, t.visual_impaired, false);
    let d = flag_spans("text descriptions"@, t.text_descriptions, false);
    let o = flag_spans("original"@, t.original, false);
    let m = flag_spans("commentary"@, t.commentary, false);
    lemma_flag_said("hearing impaired"@, t.hearing_impaired, false);
    lemma_flag_said("visual impaired"@, t.visual_impaired, false);
    lemma_flag_said("text descriptions"@, t.text_descriptions, false);
    lemma_flag_said("original"@, t.original, false);
    lemma_flag_said("commentary"@, t.commentary, false);
    lemma_said_append(h, v);
    lemma_said_append(h + v, d);
    lemma_said_append(h + v + d, o);
    lemma_said_append(h + v + d + o, m);
}

/// The first lines on a track say its number, type and codec, its language with
/// its name, whether the file states it and what overrides it, and its name.
pub proof fn law_details_say_the_track(t: TrackModel)
    ensures
        said(track_line(t)) == "Track "@ + decimal(t.number as nat) + " "@ + type_label(t.ttype) + "  "@ + codec_text(
            t.codec_id,
        ) + "  ["@ + t.codec_id + "]"@,
        said(language_line(t)) == "Language: "@ + (match language_of(base_of(t.language)) {
            Some(name) => t.language + " ("@ + name + ")"@,
            None => t.language,
        }) + (if t.language_explicit {
            Seq::empty()
        } else {
            " (implied)"@
        }) + (match t.language_bcp47 {
            Some(b) => "   BCP-47: "@ + b + " (overrides Language)"@,
            None => Seq::empty(),
        }),
        said(name_line(t)) == "Name: "@ + (match t.name {
            Some(n) => n,
            None => "-"@,
        }),
{
    lemma_said_few(track_line(t));
    assert(said(track_line(t)) =~= "Track "@ + decimal(t.number as nat) + " "@ + type_label(t.ttype) + "  "@
        + codec_text(t.codec_id) + "  ["@ + t.codec_id + "]"@);
    lemma_said_few(name_line(t));
    let first = seq![toned("Language: "@, Tone::Dim), toned(language_text(t.language), Tone::Plain)];
    let second = if t.language_explicit {
        Seq::empty()
    } else {
        seq![toned(" (implied)"@, Tone::Dim)]
    };
    let third = match t.language_bcp47 {
        Some(b) => seq![
            toned("   BCP-47: "@, Tone::Dim),
            toned(b, Tone::Yellow),
            toned(" (overrides Language)"@, Tone::Dim),
        ],
        None => Seq::empty(),
    };
    lemma_said_append(first, second);
    lemma_said_append(first + second, third);
    lemma_said_few(first);
    lemma_said_few(second);
    lemma_said_few(third);
    assert(language_line(t) =~= first + second + third);
    assert(said(language_line(t)) =~= "Language: "@ + (match language_of(base_of(t.language)) {
        Some(name) => t.language + " ("@ + name + ")"@,
        None => t.language,
    }) + (if t.language_explicit {
        Seq::empty()
    } else {
        " (implied)"@
    }) + (match t.language_bcp47 {
        Some(b) => "   BCP-47: "@ + b + " (overrides Language)"@,
        None => Seq::empty(),
    }));
}

/// The pane has a line on the file where something is known of it, and on the
/// selected track one for each of its kinds of information, sound and picture
/// only where there are any.
pub proof fn law_details_have_a_line_for_each(app: AppModel, r: Readings)
    ensures
        ({
            let head = match app.current() {
                Some(m) => if m.info.title is Some || r.duration is Some || m.info.writing_app is Some {
                    1int
                } else {
                    0
                },
                None => 0,
            };
            match app.selected() {
                Some(t) => details(app, r).len() == head + 6 + (if t.audio is Some {
                    1int
                } else {
                    0
                }) + (if t.video is Some {
                    1int
                } else {
                    0
                }),
                None => details(app, r).len() == head + (if app.current() is Some {
                    1int
                } else {
                    0
                }),
            }
        }),
{
}

/// The line on the file says its title, how long it runs and what wrote it, each
/// where it is known.
pub proof fn law_details_say_the_file(info: InfoModel, duration: Option<u64>)
    ensures
        said(head_line(info, duration)) == (match info.title {
            Some(t) => "Title: "@ + t + "   "@,
            None => Seq::empty(),
        }) + (match duration {
            Some(d) => "Duration: "@ + duration_text(d as nat) + "   "@,
            None => Seq::empty(),
        }) + (match info.writing_app {
            Some(w) => "Written by: "@ + w,
            None => Seq::empty(),
        }),
{
    let a = crate::ui::details::title_spans(info);
    let b = crate::ui::details::duration_spans(duration);
    let c = crate::ui::details::writer_spans(info);
    lemma_said_append(a, b);
    lemma_said_append(a + b, c);
    lemma_said_few(a);
    lemma_said_few(b);
    lemma_said_few(c);
    assert(said(head_line(info, duration)) =~= (match info.title {
        Some(t) => "Title: "@ + t + "   "@,
        None => Seq::empty(),
    }) + (match duration {
        Some(d) => "Duration: "@ + duration_text(d as nat) + "   "@,
        None => Seq::empty(),
    }) + (match info.writing_app {
        Some(w) => "Written by: "@ + w,
        None => Seq::empty(),
    }));
}


/// What is known of the picture of a track is said: its size, the size that it is
/// to be shown in, and its frame rate.
pub proof fn law_details_say_the_picture(t: TrackModel, v: VideoInfo, rate: Seq<char>)
    ensures
        v.pixel_width is Some && v.pixel_height is Some ==> video_parts(t, v, rate).contains(
            decimal(v.pixel_width->0 as nat) + "x"@ + decimal(v.pixel_height->0 as nat),
        ),
        v.display_width is Some && v.display_height is Some ==> video_parts(t, v, rate).contains(
            "display "@ + decimal(v.display_width->0 as nat) + "x"@ + decimal(v.display_height->0 as nat),
        ),
        t.default_duration is Some && t.default_duration->0 > 0 ==> video_parts(t, v, rate).contains(rate + " fps"@),
        video_parts(t, v, rate).len() == (if v.pixel_width is Some && v.pixel_height is Some {
            1int
        } else {
            0
        }) + (if v.display_width is Some && v.display_height is Some {
            1int
        } else {
            0
        }) + (if t.default_duration is Some && t.default_duration->0 > 0 {
            1int
        } else {
            0
        }),
{
    reveal_strlit("");
    let all = video_parts(t, v, rate);
    let a = size_parts(v.pixel_width, v.pixel_height, ""@);
    let b = size_parts(v.display_width, v.display_height, "display "@);
    if v.pixel_width is Some && v.pixel_height is Some {
        let part = decimal(v.pixel_width->0 as nat) + "x"@ + decimal(v.pixel_height->0 as nat);
        assert(a[0] =~= part);
        assert(all[0] == part);
    }
    if v.display_width is Some && v.display_height is Some {
        assert(all[a.len() as int] == b[0]);
    }
    if t.default_duration is Some && t.default_duration->0 > 0 {
        assert(all[(a.len() + b.len()) as int] == rate + " fps"@);
    }
}

/// What is known of the sound of a track is said: how many channels it has, how
/// often it is sampled, in how many bits, and by how much it is delayed.
pub proof fn law_details_say_the_sound(t: TrackModel, a: AudioInfo, sampling: Option<u64>, output: Option<u64>)
    ensures
        a.channels matches Some(n) ==> audio_parts(t, a, sampling, output).contains(
            decimal(n as nat) + " channels ("@ + layout_text(t) + ")"@,
        ),
        sampling matches Some(n) ==> audio_parts(t, a, sampling, output).contains(decimal(n as nat) + " Hz"@),
        output matches Some(n) ==> audio_parts(t, a, sampling, output).contains(
            "output "@ + decimal(n as nat) + " Hz"@,
        ),
        a.bit_depth matches Some(n) ==> audio_parts(t, a, sampling, output).contains(decimal(n as nat) + " bit"@),
        t.codec_delay matches Some(d) ==> (d > 0 ==> audio_parts(t, a, sampling, output).contains(
            "codec delay "@ + decimal((d / 1_000_000) as nat) + " ms"@,
        )),
{
    reveal_strlit("");
    let all = audio_parts(t, a, sampling, output);
    let p1 = crate::ui::details::with_number(a.channels, ""@, " channels ("@ + layout_text(t) + ")"@);
    let p2 = crate::ui::details::with_number(sampling, ""@, " Hz"@);
    let p3 = crate::ui::details::with_number(output, "output "@, " Hz"@);
    let p4 = crate::ui::details::with_number(a.bit_depth, ""@, " bit"@);
    let n1 = p1.len() as int;
    let n2 = n1 + p2.len();
    let n3 = n2 + p3.len();
    let n4 = n3 + p4.len();
    if let Some(n) = a.channels {
        assert(p1[0] =~= decimal(n as nat) + " channels ("@ + layout_text(t) + ")"@);
        assert(all[0] == p1[0]);
    }
    if let Some(n) = sampling {
        assert(p2[0] =~= decimal(n as nat) + " Hz"@);
        assert(all[n1] == p2[0]);
    }
    if let Some(n) = output {
        assert(all[n2] == p3[0]);
    }
    if let Some(n) = a.bit_depth {
        assert(p4[0] =~= decimal(n as nat) + " bit"@);
        assert(all[n3] == p4[0]);
    }
    if let Some(d) = t.codec_delay {
        if d > 0 {
            let part = "codec delay "@ + decimal((d / 1_000_000) as nat) + " ms"@;
            assert(all[n4] == part);
        }
    }
}

/// The last line says the UID of the track, how much private data its codec has,
/// whether it is compressed, and what its codec calls itself.
pub proof fn law_details_say_the_rest(t: TrackModel)
    ensures
        extra_parts(t)[0] == "UID "@ + decimal(t.uid as nat),
        t.codec_private_len > 0 ==> extra_parts(t)[1] == "codec private "@ + decimal(t.codec_private_len) + " bytes"@,
        t.compressed ==> extra_parts(t).contains("content encoding (compressed)"@),
        t.codec_name matches Some(n) ==> extra_parts(t).last() == n,
        extra_parts(t).len() == 1 + (if t.codec_private_len > 0 {
            1int
        } else {
            0
        }) + (if t.compressed {
            1int
        } else {
            0
        }) + (if t.codec_name is Some {
            1int
        } else {
            0
        }),
{
    let k: int = if t.codec_private_len > 0 {
        2
    } else {
        1
    };
    if t.compressed {
        assert(extra_parts(t)[k] == "content encoding (compressed)"@);
    }
}

/// The lines on the selected track stand at the end, in their order: the track,
/// its language, its name, its flags in two lines, the sound and the picture where
/// it has them, with commas between what is said of these, and the rest with bars
/// between. Without a track in the file there is a line that says so.
pub proof fn law_details_are_in_order(app: AppModel, r: Readings)
    ensures
        app.selected() matches Some(t) ==> {
            let all = details(app, r);
            let sound = if t.audio is Some {
                1int
            } else {
                0
            };
            let picture = if t.video is Some {
                1int
            } else {
                0
            };
            let at = all.len() - 6 - sound - picture;
            &&& at >= 0
            &&& all[at] == track_line(t)
            &&& all[at + 1] == language_line(t)
            &&& all[at + 2] == name_line(t)
            &&& all[at + 3] == player_flags(t)
            &&& all[at + 4] == purpose_flags(t)
            &&& t.audio is Some ==> all[at + 5][0].text == "Audio: "@ && all[at + 5][1].text == joined(
                audio_parts(t, t.audio->0, r.sampling, r.output_sampling),
                ", "@,
            )
            &&& t.video is Some ==> all[at + 5 + sound][0].text == "Video: "@ && all[at + 5 + sound][1].text == joined(
                video_parts(t, t.video->0, r.frame_rate@),
                ", "@,
            )
            &&& all.last()[0].text == joined(extra_parts(t), "  |  "@)
        },
        app.current() is Some && app.selected() is None ==> details(app, r).last()[0].text == "no tracks"@,
{
    law_details_have_a_line_for_each(app, r);
}

/// What is said of the sound is no more than what is known.
pub proof fn law_details_say_no_more_of_the_sound(
    t: TrackModel,
    a: AudioInfo,
    sampling: Option<u64>,
    output: Option<u64>,
)
    ensures
        audio_parts(t, a, sampling, output).len() == (if a.channels is Some {
            1int
        } else {
            0
        }) + (if sampling is Some {
            1int
        } else {
            0
        }) + (if output is Some {
            1int
        } else {
            0
        }) + (if a.bit_depth is Some {
            1int
        } else {
            0
        }) + (if t.codec_delay is Some && t.codec_delay->0 > 0 {
            1int
        } else {
            0
        }),
{
}

/// The question whether to quit names the keys that answer it.
pub proof fn law_question_names_its_keys(app: AppModel)
    ensures
        ({
            let choice = confirm_text(app)[2];
            &&& confirm_text(app).len() == 3
            &&& choice.len() == 6
            &&& choice[0].text == "s"@ && choice[1].text == " save all and quit    "@
            &&& choice[2].text == "q"@ && choice[3].text == " quit anyway    "@
            &&& choice[4].text == "Esc"@ && choice[5].text == " cancel"@
        }),
{
}

// ---------------------------------------------------------------------------
// The screen
// ---------------------------------------------------------------------------

/// On a screen with room for all of it, the file list takes the 34 columns at the
/// left and the details 12 rows; the tracks stand right above the details and have
/// what is left; the status line is the last row but one and the keys the last.
pub proof fn law_parts_of_the_screen(s: Screen, area: Area, show_files: bool)
    requires
        divided(s, area, show_files),
        in_range(area),
        area.height >= 19,
        show_files ==> area.width >= 74,
    ensures
        s.files is Some <==> show_files,
        s.files matches Some(f) ==> {
            &&& f.x == area.x && f.width == 34
            &&& f.y == area.y && f.y + f.height == s.status.y
            &&& s.tracks.x == f.x + f.width
        },
        !show_files ==> s.tracks.x == area.x,
        s.tracks.x + s.tracks.width == area.x + area.width,
        s.tracks.y == area.y,
        s.details.x == s.tracks.x && s.details.width == s.tracks.width,
        s.details.y == s.tracks.y + s.tracks.height,
        s.details.height == 12,
        s.details.y + s.details.height == s.status.y,
        s.status.height == 1 && s.keys.height == 1,
        s.keys.y == s.status.y + 1,
        s.keys.y + 1 == area.y + area.height,
        s.status.x == area.x && s.status.width == area.width,
        s.keys.x == area.x && s.keys.width == area.width,
{
}

/// A popup has the size that it wants, or as much of it as leaves a frame of one
/// cell, and stands in the middle: the margins differ by one cell at most.
pub proof fn law_popups_stand_in_the_middle(width: u16, height: u16, area: Area)
    requires
        in_range(area),
        area.width >= 2,
        area.height >= 2,
    ensures
        ({
            let p = centred(width, height, area);
            let left = p.x - area.x;
            let right = area.x + area.width - (p.x + p.width);
            let above = p.y - area.y;
            let below = area.y + area.height - (p.y + p.height);
            &&& width <= area.width - 2 ==> p.width == width
            &&& width > area.width - 2 ==> p.width == area.width - 2
            &&& height <= area.height - 2 ==> p.height == height
            &&& height > area.height - 2 ==> p.height == area.height - 2
            &&& 0 < left <= right <= left + 1
            &&& 0 < above <= below <= above + 1
        }),
{
}

} // verus!
