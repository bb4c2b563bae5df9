//! The pane that says everything of the selected track.

use vstd::prelude::*;
use vstd::string::*;

use crate::app::model::App;
#[allow(unused_imports)]
use crate::app::model::AppModel;
#[allow(unused_imports)]
use crate::ebml::track_type::type_label;
use crate::mkv::file::FileInfo;
#[allow(unused_imports)]
use crate::mkv::file::InfoModel;
use crate::mkv::language::language_name;
#[allow(unused_imports)]
use crate::mkv::language::{base_of, language_of};
use crate::mkv::track::{push_if, AudioInfo, Flag, Track, VideoInfo};
#[allow(unused_imports)]
use crate::mkv::track::{layout_text, only_if, TrackModel};
use crate::text::{join, push_decimal};
#[allow(unused_imports)]
use crate::text::{decimal, joined, texts};
use crate::ui::labels::{codec_label, fmt_duration};
#[allow(unused_imports)]
use crate::ui::labels::{codec_text, duration_text};
use crate::ui::styled::{line_of, put, put_line, Span, Tone};
#[allow(unused_imports)]
use crate::ui::styled::{line_model, line_models, toned, SpanModel};

verus! {

/// The numbers of the details that are fractions in the file, rounded for
/// display. Those that the file does not state, or states as zero, are left
/// out.
#[derive(Debug)]
pub struct Readings {
    /// The duration of the file in whole seconds.
    pub duration: Option<u64>,
    /// The sampling frequency in whole hertz.
    pub sampling: Option<u64>,
    /// The output sampling frequency in whole hertz.
    pub output_sampling: Option<u64>,
    /// Frames per second.
    pub frame_rate: String,
}

// ---------------------------------------------------------------------------
// What each line says
// ---------------------------------------------------------------------------

/// The title of the file.
pub open spec fn title_spans(info: InfoModel) -> Seq<SpanModel> {
    match info.title {
        Some(t) => seq![toned("Title: "@, Tone::Dim), toned(t, Tone::Plain), toned("   "@, Tone::Plain)],
        None => Seq::empty(),
    }
}

/// How long the file runs.
pub open spec fn duration_spans(duration: Option<u64>) -> Seq<SpanModel> {
    match duration {
        Some(d) => seq![
            toned("Duration: "@, Tone::Dim),
            toned(duration_text(d as nat), Tone::Plain),
            toned("   "@, Tone::Plain),
        ],
        None => Seq::empty(),
    }
}

/// The program that wrote the file.
pub open spec fn writer_spans(info: InfoModel) -> Seq<SpanModel> {
    match info.writing_app {
        Some(w) => seq![toned("Written by: "@, Tone::Dim), toned(w, Tone::Plain)],
        None => Seq::empty(),
    }
}

/// What the file says of itself.
pub open spec fn head_line(info: InfoModel, duration: Option<u64>) -> Seq<SpanModel> {
    title_spans(info) + duration_spans(duration) + writer_spans(info)
}

/// Number, type and codec of a track.
pub open spec fn track_line(t: TrackModel) -> Seq<SpanModel> {
    seq![
        toned("Track "@ + decimal(t.number as nat) + " "@, Tone::Bold),
        toned(type_label(t.ttype), Tone::Accent),
        toned("  "@, Tone::Plain),
        toned(codec_text(t.codec_id), Tone::Plain),
        toned("  ["@ + t.codec_id + "]"@, Tone::Dim),
    ]
}

/// A language code, with the name of the language where it is known.
pub open spec fn language_text(code: Seq<char>) -> Seq<char> {
    match language_of(base_of(code)) {
        Some(name) => code + " ("@ + name + ")"@,
        None => code,
    }
}

/// The language of a track. A BCP-47 tag overrides it.
pub open spec fn language_line(t: TrackModel) -> Seq<SpanModel> {
    seq![toned("Language: "@, Tone::Dim), toned(language_text(t.language), Tone::Plain)] + (
    if t.language_explicit {
        Seq::empty()
    } else {
        seq![toned(" (implied)"@, Tone::Dim)]
    }) + (match t.language_bcp47 {
        Some(b) => seq![
            toned("   BCP-47: "@, Tone::Dim),
            toned(b, Tone::Yellow),
            toned(" (overrides Language)"@, Tone::Dim),
        ],
        None => Seq::empty(),
    })
}

/// The name of a track.
pub open spec fn name_line(t: TrackModel) -> Seq<SpanModel> {
    seq![
        toned("Name: "@, Tone::Dim),
        toned(
            match t.name {
                Some(n) => n,
                None => "-"@,
            },
            Tone::Plain,
        ),
    ]
}

/// One flag. `show_implied` marks values the file does not state, which matters
/// for the flags a player acts on.
pub open spec fn flag_spans(label: Seq<char>, flag: Flag, show_implied: bool) -> Seq<SpanModel> {
    seq![
        toned(label + "="@, Tone::Dim),
        toned(
            if flag.value {
                "yes"@
            } else {
                "no"@
            },
            if flag.value {
                Tone::Yellow
            } else {
                Tone::Dim
            },
        ),
        toned(
            if flag.explicit || !show_implied {
                ""@
            } else {
                " (implied)"@
            },
            Tone::Dim,
        ),
        toned("  "@, Tone::Plain),
    ]
}

/// The flags that a player acts on.
pub open spec fn player_flags(t: TrackModel) -> Seq<SpanModel> {
    flag_spans("default"@, t.default, true) + flag_spans("forced"@, t.forced, true) + flag_spans(
        "enabled"@,
        t.enabled,
        true,
    )
}

/// The flags that say what a track is for.
pub open spec fn purpose_flags(t: TrackModel) -> Seq<SpanModel> {
    flag_spans("hearing impaired"@, t.hearing_impaired, false) + flag_spans(
        "visual impaired"@,
        t.visual_impaired,
        false,
    ) + flag_spans("text descriptions"@, t.text_descriptions, false) + flag_spans(
        "original"@,
        t.original,
        false,
    ) + flag_spans("commentary"@, t.commentary, false)
}

/// The text in a list of one, or none, by whether there is a number.
pub open spec fn with_number(n: Option<u64>, front: Seq<char>, back: Seq<char>) -> Seq<Seq<char>> {
    match n {
        Some(v) => seq![front + decimal(v as nat) + back],
        None => Seq::empty(),
    }
}

/// A number that is not zero.
pub open spec fn not_zero(n: Option<u64>) -> Option<u64> {
    match n {
        Some(v) => if v > 0 {
            Some(v)
        } else {
            None
        },
        None => None,
    }
}

/// A number of nanoseconds in milliseconds.
pub open spec fn millis(n: Option<u64>) -> Option<u64> {
    match n {
        Some(v) => Some(v / 1_000_000),
        None => None,
    }
}

/// What is known of the sound of a track.
pub open spec fn audio_parts(
    t: TrackModel,
    a: AudioInfo,
    sampling: Option<u64>,
    output_sampling: Option<u64>,
) -> Seq<Seq<char>> {
    with_number(a.channels, ""@, " channels ("@ + layout_text(t) + ")"@) + with_number(
        sampling,
        ""@,
        " Hz"@,
    ) + with_number(output_sampling, "output "@, " Hz"@) + with_number(a.bit_depth, ""@, " bit"@)
        + with_number(millis(not_zero(t.codec_delay)), "codec delay "@, " ms"@)
}

/// Two numbers as a size, where both are there.
pub open spec fn size_parts(w: Option<u64>, h: Option<u64>, front: Seq<char>) -> Seq<Seq<char>> {
    match (w, h) {
        (Some(a), Some(b)) => seq![front + decimal(a as nat) + "x"@ + decimal(b as nat)],
        _ => Seq::empty(),
    }
}

/// What is known of the picture of a track.
pub open spec fn video_parts(t: TrackModel, v: VideoInfo, frame_rate: Seq<char>) -> Seq<Seq<char>> {
    size_parts(v.pixel_width, v.pixel_height, ""@) + size_parts(
        v.display_width,
        v.display_height,
        "display "@,
    ) + only_if(not_zero(t.default_duration) is Some, frame_rate + " fps"@)
}

/// What else is known of a track.
pub open spec fn extra_parts(t: TrackModel) -> Seq<Seq<char>> {
    seq!["UID "@ + decimal(t.uid as nat)] + only_if(
        t.codec_private_len > 0,
        "codec private "@ + decimal(t.codec_private_len) + " bytes"@,
    ) + only_if(t.compressed, "content encoding (compressed)"@) + (match t.codec_name {
        Some(n) => seq![n],
        None => Seq::empty(),
    })
}

/// A line of parts with a label in front.
pub open spec fn labelled(label: Seq<char>, parts: Seq<Seq<char>>) -> Seq<SpanModel> {
    seq![toned(label, Tone::Dim), toned(joined(parts, ", "@), Tone::Plain)]
}

/// The lines on the sound of a track.
pub open spec fn audio_lines(t: TrackModel, sampling: Option<u64>, output_sampling: Option<u64>) -> Seq<
    Seq<SpanModel>,
> {
    match t.audio {
        Some(a) => seq![labelled("Audio: "@, audio_parts(t, a, sampling, output_sampling))],
        None => Seq::empty(),
    }
}

/// The lines on the picture of a track.
pub open spec fn video_lines(t: TrackModel, frame_rate: Seq<char>) -> Seq<Seq<SpanModel>> {
    match t.video {
        Some(v) => seq![labelled("Video: "@, video_parts(t, v, frame_rate))],
        None => Seq::empty(),
    }
}

/// The lines on a track.
pub open spec fn track_lines(t: TrackModel, r: Readings) -> Seq<Seq<SpanModel>> {
    seq![track_line(t), language_line(t), name_line(t), player_flags(t), purpose_flags(t)]
        + audio_lines(t, r.sampling, r.output_sampling) + video_lines(t, r.frame_rate@) + seq![
        seq![toned(joined(extra_parts(t), "  |  "@), Tone::Dim)],
    ]
}

/// The lines on the file.
pub open spec fn file_lines(app: AppModel, r: Readings) -> Seq<Seq<SpanModel>> {
    match app.current() {
        Some(m) => {
            let head = head_line(m.info, r.duration);
            if head.len() > 0 {
                seq![head]
            } else {
                Seq::empty()
            }
        },
        None => Seq::empty(),
    }
}

/// All lines of the pane.
pub open spec fn details(app: AppModel, r: Readings) -> Seq<Seq<SpanModel>> {
    file_lines(app, r) + (match app.selected() {
        Some(t) => track_lines(t, r),
        None => if app.current() is Some {
            seq![seq![toned("no tracks"@, Tone::Plain)]]
        } else {
            Seq::empty()
        },
    })
}

// ---------------------------------------------------------------------------
// Putting the lines together
// ---------------------------------------------------------------------------

fn make_head(info: &FileInfo, duration: Option<u64>) -> (line: Vec<Span>)
    ensures
        line_model(line@) == head_line(info@, duration),
{
    let mut line: Vec<Span> = Vec::new();
    assert(line_model(line@) =~= Seq::<SpanModel>::empty());
    if let Some(t) = &info.title {
        put(&mut line, "Title: ", Tone::Dim);
        put(&mut line, t, Tone::Plain);
        put(&mut line, "   ", Tone::Plain);
    }
    assert(line_model(line@) =~= title_spans(info@));
    if let Some(d) = duration {
        put(&mut line, "Duration: ", Tone::Dim);
        put(&mut line, &fmt_duration(d), Tone::Plain);
        put(&mut line, "   ", Tone::Plain);
    }
    assert(line_model(line@) =~= title_spans(info@) + duration_spans(duration));
    if let Some(w) = &info.writing_app {
        put(&mut line, "Written by: ", Tone::Dim);
        put(&mut line, w, Tone::Plain);
    }
    assert(line_model(line@) =~= head_line(info@, duration));
    line
}

fn make_track_line(t: &Track) -> (line: Vec<Span>)
    ensures
        line_model(line@) == track_line(t@),
{
    let mut line: Vec<Span> = Vec::new();
    let mut number = "Track ".to_owned();
    push_decimal(&mut number, t.number);
    number.append(" ");
    put(&mut line, &number, Tone::Bold);
    put(&mut line, t.type_text(), Tone::Accent);
    put(&mut line, "  ", Tone::Plain);
    put(&mut line, &codec_label(&t.codec_id), Tone::Plain);
    let mut id = "  [".to_owned();
    id.append(&t.codec_id);
    id.append("]");
    put(&mut line, &id, Tone::Dim);
    assert(line_model(line@) =~= track_line(t@));
    line
}

fn make_language_line(t: &Track) -> (line: Vec<Span>)
    ensures
        line_model(line@) == language_line(t@),
{
    let mut line: Vec<Span> = Vec::new();
    put(&mut line, "Language: ", Tone::Dim);
    let mut text = t.language.clone();
    if let Some(name) = language_name(&t.language) {
        text.append(" (");
        text.append(name);
        text.append(")");
    }
    put(&mut line, &text, Tone::Plain);
    let ghost front = seq![
        toned("Language: "@, Tone::Dim),
        toned(language_text(t@.language), Tone::Plain),
    ];
    assert(line_model(line@) =~= front);
    if !t.language_explicit {
        put(&mut line, " (implied)", Tone::Dim);
    }
    let ghost middle = line_model(line@);
    assert(middle =~= front + (if t@.language_explicit {
        Seq::empty()
    } else {
        seq![toned(" (implied)"@, Tone::Dim)]
    }));
    if let Some(b) = &t.language_bcp47 {
        put(&mut line, "   BCP-47: ", Tone::Dim);
        put(&mut line, b, Tone::Yellow);
        put(&mut line, " (overrides Language)", Tone::Dim);
    }
    assert(line_model(line@) =~= language_line(t@));
    line
}

fn make_name_line(t: &Track) -> (line: Vec<Span>)
    ensures
        line_model(line@) == name_line(t@),
{
    let mut line: Vec<Span> = Vec::new();
    put(&mut line, "Name: ", Tone::Dim);
    match &t.name {
        Some(n) => put(&mut line, n, Tone::Plain),
        None => put(&mut line, "-", Tone::Plain),
    }
    assert(line_model(line@) =~= name_line(t@));
    line
}

/// Puts a flag at the end of a line.
fn put_flag(line: &mut Vec<Span>, label: &str, flag: Flag, show_implied: bool)
    ensures
        line_model(final(line)@) == line_model(old(line)@) + flag_spans(label@, flag, show_implied),
{
    let ghost before = line_model(line@);
    let mut name = label.to_owned();
    name.append("=");
    put(line, &name, Tone::Dim);
    if flag.value {
        put(line, "yes", Tone::Yellow);
    } else {
        put(line, "no", Tone::Dim);
    }
    if flag.explicit || !show_implied {
        put(line, "", Tone::Dim);
    } else {
        put(line, " (implied)", Tone::Dim);
    }
    put(line, "  ", Tone::Plain);
    assert(line_model(line@) =~= before + flag_spans(label@, flag, show_implied));
}

fn make_player_flags(t: &Track) -> (line: Vec<Span>)
    ensures
        line_model(line@) == player_flags(t@),
{
    let mut line: Vec<Span> = Vec::new();
    put_flag(&mut line, "default", t.default, true);
    assert(line_model(line@) =~= flag_spans("default"@, t.default, true));
    put_flag(&mut line, "forced", t.forced, true);
    put_flag(&mut line, "enabled", t.enabled, true);
    line
}

fn make_purpose_flags(t: &Track) -> (line: Vec<Span>)
    ensures
        line_model(line@) == purpose_flags(t@),
{
    let mut line: Vec<Span> = Vec::new();
    put_flag(&mut line, "hearing impaired", t.hearing_impaired, false);
    assert(line_model(line@) =~= flag_spans("hearing impaired"@, t.hearing_impaired, false));
    put_flag(&mut line, "visual impaired", t.visual_impaired, false);
    put_flag(&mut line, "text descriptions", t.text_descriptions, false);
    put_flag(&mut line, "original", t.original, false);
    put_flag(&mut line, "commentary", t.commentary, false);
    line
}

/// Puts a number with a text round it at the end of some parts, where there is
/// one.
fn put_number(parts: &mut Vec<String>, n: Option<u64>, front: &str, back: &str)
    ensures
        texts(final(parts)@) == texts(old(parts)@) + with_number(n, front@, back@),
{
    let ghost before = texts(parts@);
    if let Some(v) = n {
        let mut s = front.to_owned();
        push_decimal(&mut s, v);
        s.append(back);
        parts.push(s);
        assert(texts(parts@) =~= before.push(s@));
    }
    assert(texts(parts@) =~= before + with_number(n, front@, back@));
}

fn make_audio_line(t: &Track, a: &AudioInfo, sampling: Option<u64>, output_sampling: Option<u64>) -> (line: Vec<
    Span,
>)
    ensures
        line_model(line@) == labelled("Audio: "@, audio_parts(t@, *a, sampling, output_sampling)),
{
    let mut channels = " channels (".to_owned();
    channels.append(&t.channel_layout());
    channels.append(")");
    let mut parts: Vec<String> = Vec::new();
    put_number(&mut parts, a.channels, "", &channels);
    assert(texts(parts@) =~= with_number(
        a.channels,
        ""@,
        " channels ("@ + layout_text(t@) + ")"@,
    ));
    put_number(&mut parts, sampling, "", " Hz");
    put_number(&mut parts, output_sampling, "output ", " Hz");
    put_number(&mut parts, a.bit_depth, "", " bit");
    let delay = match t.codec_delay {
        Some(d) => if d > 0 {
            Some(d / 1_000_000)
        } else {
            None
        },
        None => None,
    };
    put_number(&mut parts, delay, "codec delay ", " ms");
    let mut line: Vec<Span> = Vec::new();
    put(&mut line, "Audio: ", Tone::Dim);
    put(&mut line, &join(&parts, ", "), Tone::Plain);
    assert(line_model(line@) =~= labelled(
        "Audio: "@,
        audio_parts(t@, *a, sampling, output_sampling),
    ));
    line
}

/// Puts two numbers at the end of some parts as a size, where both are there.
fn put_size(parts: &mut Vec<String>, w: Option<u64>, h: Option<u64>, front: &str)
    ensures
        texts(final(parts)@) == texts(old(parts)@) + size_parts(w, h, front@),
{
    let ghost before = texts(parts@);
    if let (Some(a), Some(b)) = (w, h) {
        let mut s = front.to_owned();
        push_decimal(&mut s, a);
        s.append("x");
        push_decimal(&mut s, b);
        parts.push(s);
        assert(texts(parts@) =~= before.push(s@));
    }
    assert(texts(parts@) =~= before + size_parts(w, h, front@));
}

fn make_video_line(t: &Track, v: &VideoInfo, frame_rate: &str) -> (line: Vec<Span>)
    ensures
        line_model(line@) == labelled("Video: "@, video_parts(t@, *v, frame_rate@)),
{
    let mut parts: Vec<String> = Vec::new();
    put_size(&mut parts, v.pixel_width, v.pixel_height, "");
    assert(texts(parts@) =~= size_parts(v.pixel_width, v.pixel_height, ""@));
    put_size(&mut parts, v.display_width, v.display_height, "display ");
    let mut fps = frame_rate.to_owned();
    fps.append(" fps");
    let moving = match t.default_duration {
        Some(d) => d > 0,
        None => false,
    };
    push_if(&mut parts, moving, &fps);
    let mut line: Vec<Span> = Vec::new();
    put(&mut line, "Video: ", Tone::Dim);
    put(&mut line, &join(&parts, ", "), Tone::Plain);
    assert(line_model(line@) =~= labelled("Video: "@, video_parts(t@, *v, frame_rate@)));
    line
}

fn make_extra_line(t: &Track) -> (line: Vec<Span>)
    ensures
        line_model(line@) == seq![toned(joined(extra_parts(t@), "  |  "@), Tone::Dim)],
{
    let mut parts: Vec<String> = Vec::new();
    let mut uid = "UID ".to_owned();
    push_decimal(&mut uid, t.uid);
    parts.push(uid);
    assert(texts(parts@) =~= seq!["UID "@ + decimal(t.uid as nat)]);
    let mut private = "codec private ".to_owned();
    push_decimal(&mut private, t.codec_private_len as u64);
    private.append(" bytes");
    push_if(&mut parts, t.codec_private_len > 0, &private);
    push_if(&mut parts, t.compressed, "content encoding (compressed)");
    let ghost before = texts(parts@);
    if let Some(n) = &t.codec_name {
        parts.push(n.clone());
        assert(texts(parts@) =~= before.push(n@));
    }
    assert(texts(parts@) =~= extra_parts(t@));
    line_of(&join(&parts, "  |  "), Tone::Dim)
}

fn make_track_lines(t: &Track, r: &Readings) -> (lines: Vec<Vec<Span>>)
    ensures
        line_models(lines@) == track_lines(t@, *r),
{
    let mut lines: Vec<Vec<Span>> = Vec::new();
    put_line(&mut lines, make_track_line(t));
    put_line(&mut lines, make_language_line(t));
    put_line(&mut lines, make_name_line(t));
    put_line(&mut lines, make_player_flags(t));
    put_line(&mut lines, make_purpose_flags(t));
    let ghost front = seq![
        track_line(t@),
        language_line(t@),
        name_line(t@),
        player_flags(t@),
        purpose_flags(t@),
    ];
    assert(line_models(lines@) =~= front);
    if let Some(a) = &t.audio {
        put_line(&mut lines, make_audio_line(t, a, r.sampling, r.output_sampling));
    }
    let ghost with_audio = front + audio_lines(t@, r.sampling, r.output_sampling);
    assert(line_models(lines@) =~= with_audio);
    if let Some(v) = &t.video {
        put_line(&mut lines, make_video_line(t, v, &r.frame_rate));
    }
    assert(line_models(lines@) =~= with_audio + video_lines(t@, r.frame_rate@));
    put_line(&mut lines, make_extra_line(t));
    assert(line_models(lines@) =~= track_lines(t@, *r));
    lines
}

/// The lines of the details pane.
pub fn detail_lines(app: &App, r: &Readings) -> (lines: Vec<Vec<Span>>)
    ensures
        line_models(lines@) == details(app@, *r),
{
    let mut lines: Vec<Vec<Span>> = Vec::new();
    assert(line_models(lines@) =~= Seq::<Seq<SpanModel>>::empty());
    if let Some(m) = app.current() {
        let head = make_head(&m.info, r.duration);
        if head.len() > 0 {
            put_line(&mut lines, head);
        }
    }
    assert(line_models(lines@) =~= file_lines(app@, *r));
    match app.selected_track() {
        Some(t) => {
            let ghost before = lines@;
            let mut more = make_track_lines(&t, r);
            let ghost added = more@;
            lines.append(&mut more);
            assert(line_models(lines@) =~= line_models(before) + line_models(added));
        },
        None => {
            if app.current().is_some() {
                put_line(&mut lines, line_of("no tracks", Tone::Plain));
            }
        },
    }
    assert(line_models(lines@) =~= details(app@, *r));
    lines
}

} // verus!
