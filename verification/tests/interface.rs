//! What the interface shows, and what it does with keys and with files that
//! arrive.

use mkvtrack::app::{App, Focus, InputTarget, Key, Request, Saved};
use mkvtrack::ebml::{id, Element, FloatBits};
use mkvtrack::edit;
use mkvtrack::mkv::{FilePath, MkvFile};
use mkvtrack::ui::areas::{centered, screen, Area};
use mkvtrack::ui::details::{detail_lines, Readings};
use mkvtrack::ui::help::help_lines;
use mkvtrack::ui::lists::{
    confirm_lines, error_lines, file_rows, files_title, keys_text, selected_row, status_line, track_columns,
    track_heads, track_row, tracks_title,
};
use mkvtrack::ui::styled::{Span, Tone};

fn fixture() -> Vec<u8> {
    // A minimal but complete file: header, Segment with Info, Tracks and one
    // cluster. Only the Tracks element matters for rendering.
    let header = Element::master(
        id::EBML_HEAD,
        vec![
            Element::string_elem(0x4282, "matroska"),
            Element::uint_elem(0x4287, 4),
            Element::uint_elem(0x4285, 2),
        ],
    )
    .to_bytes();

    let info = Element::master(
        id::INFO,
        vec![
            Element::uint_elem(id::TIMESTAMP_SCALE, 1_000_000),
            Element::string_elem(id::WRITING_APP, "mkvtrack test"),
            Element::data(id::DURATION, 5_400_000.0f64.to_be_bytes().to_vec()),
            Element::string_elem(id::TITLE, "A Film"),
        ],
    );

    let mut entries = vec![Element::master(
        id::TRACK_ENTRY,
        vec![
            Element::uint_elem(id::TRACK_NUMBER, 1),
            Element::uint_elem(id::TRACK_UID, 1),
            Element::uint_elem(id::TRACK_TYPE, 1),
            Element::string_elem(id::CODEC_ID, "V_MPEGH/ISO/HEVC"),
            Element::string_elem(id::LANGUAGE, "und"),
            Element::master(
                id::VIDEO,
                vec![
                    Element::uint_elem(id::PIXEL_WIDTH, 1920),
                    Element::uint_elem(id::PIXEL_HEIGHT, 1080),
                ],
            ),
        ],
    )];
    let audio = |n: u64, codec: &str, lang: &str, name: &str, ch: u64, default: u64| {
        Element::master(
            id::TRACK_ENTRY,
            vec![
                Element::uint_elem(id::TRACK_NUMBER, n),
                Element::uint_elem(id::TRACK_UID, n),
                Element::uint_elem(id::TRACK_TYPE, 2),
                Element::uint_elem(id::FLAG_DEFAULT, default),
                Element::string_elem(id::CODEC_ID, codec),
                Element::string_elem(id::LANGUAGE, lang),
                Element::string_elem(id::TRACK_NAME, name),
                Element::master(
                    id::AUDIO,
                    vec![
                        Element::uint_elem(id::CHANNELS, ch),
                        Element::data(id::SAMPLING_FREQUENCY, 48000.0f64.to_be_bytes().to_vec()),
                        Element::uint_elem(id::BIT_DEPTH, 24),
                    ],
                ),
            ],
        )
    };
    let subtitle = |n: u64, lang: &str, name: &str, forced: u64| {
        Element::master(
            id::TRACK_ENTRY,
            vec![
                Element::uint_elem(id::TRACK_NUMBER, n),
                Element::uint_elem(id::TRACK_UID, n),
                Element::uint_elem(id::TRACK_TYPE, 0x11),
                Element::uint_elem(id::FLAG_FORCED, forced),
                Element::string_elem(id::CODEC_ID, "S_TEXT/ASS"),
                Element::string_elem(id::LANGUAGE, lang),
                Element::string_elem(id::TRACK_NAME, name),
            ],
        )
    };
    entries.push(audio(2, "A_TRUEHD", "eng", "English Atmos", 8, 1));
    entries.push(audio(3, "A_EAC3", "jpn", "Japanese", 6, 0));
    entries.push(audio(4, "A_AC3", "eng", "Director commentary", 2, 0));
    entries.push(subtitle(5, "eng", "Full", 0));
    entries.push(subtitle(6, "eng", "Signs and songs", 1));

    let mut payload = Vec::new();
    payload.extend(info.to_bytes());
    payload.extend(Element::master(id::TRACKS, entries).to_bytes());
    payload.extend(
        Element::master(
            id::CLUSTER,
            vec![
                Element::uint_elem(id::CLUSTER_TIMESTAMP, 0),
                Element::data(id::SIMPLE_BLOCK, vec![0x81, 0, 0, 0x80, 1, 2, 3]),
            ],
        )
        .to_bytes(),
    );

    let mut out = header;
    mkvtrack::ebml::write_id(&mut out, id::SEGMENT);
    mkvtrack::ebml::write_size(&mut out, payload.len() as u64);
    out.extend(payload);

    out
}

fn path(name: &str) -> FilePath {
    FilePath { shown: format!("/films/{name}"), name: Some(name.to_string()) }
}

fn open(name: &str, image: &[u8]) -> Result<MkvFile, String> {
    MkvFile::open(path(name), image, None)
}

/// An interface over files that all hold the fixture, the first one loaded.
fn app_over(names: &[&str]) -> App {
    let mut app = App::with_scanner(names.iter().map(|n| path(n)).collect(), false, false);
    load(&mut app);
    app
}

fn load(app: &mut App) {
    let opened = app.to_load().map(|i| {
        let name = app.files[i].label();
        open(&name, &fixture())
    });
    app.ensure_loaded(opened);
}

fn number(f: Option<FloatBits>) -> Option<u64> {
    match f {
        Some(FloatBits::Double(b)) => Some(f64::from_bits(b).round() as u64),
        Some(FloatBits::Single(b)) => Some(f32::from_bits(b).round() as u64),
        _ => None,
    }
}

fn readings(app: &App) -> Readings {
    let info = app.current().map(|m| (number(m.info.duration), m.info.timestamp_scale));
    let track = app.selected_track();
    let audio = track.as_ref().and_then(|t| t.audio.as_ref());
    Readings {
        duration: info.and_then(|(d, scale)| d.map(|d| d * scale / 1_000_000_000)),
        sampling: audio.and_then(|a| number(a.sampling_frequency)),
        output_sampling: audio.and_then(|a| number(a.output_sampling_frequency)),
        frame_rate: "25.000".to_string(),
    }
}

fn said(line: &[Span]) -> String {
    line.iter().map(|s| s.text.as_str()).collect()
}

fn all_said(lines: &[Vec<Span>]) -> String {
    lines.iter().map(|l| said(l) + "\n").collect()
}

/// Everything that the panes say.
fn render(app: &App) -> String {
    let mut out = String::new();
    if app.files.len() > 1 {
        out += &format!("{}\n{}", files_title(app), all_said(&file_rows(app)));
    }
    out += &format!("{}\n", tracks_title(app));
    match error_lines(app) {
        Some(lines) => out += &all_said(&lines),
        None => {
            out += &format!("{}\n", track_heads().join(" "));
            for t in app.tracks() {
                out += &format!("{}\n", track_row(&t).0.join(" "));
            }
        }
    }
    out += " Details \n";
    out += &all_said(&detail_lines(app, &readings(app)));
    out += &said(&status_line(app));
    out += &format!("\n{}\n", keys_text(app));
    if app.show_help {
        out += &all_said(&help_lines());
    }
    out
}

#[test]
fn the_track_list_renders() {
    let mut app = app_over(&["A Film (2019).mkv", "Another.mkv"]);
    app.select_track(1);
    app.make_default();
    let screen = render(&app);
    println!("{screen}");

    for want in [
        "Files (2)",
        "A Film (2019).mkv",
        "TrueHD",
        "English Atmos",
        "eng (English)",
        "jpn",
        "Signs and songs",
        "5.1",
        "7.1",
        "Details",
        "default=",
        "1:30:00",
        "d default",
    ] {
        assert!(screen.contains(want), "the screen should mention {want:?}:\n{screen}");
    }

    app.show_help = true;
    let help = render(&app);
    println!("{help}");
    assert!(help.contains("Track flags"));
}

#[test]
fn a_narrow_terminal_still_renders() {
    let app = app_over(&["a.mkv"]);
    for (w, h) in [(40u16, 10u16), (60, 20), (200, 60)] {
        let area = Area { x: 0, y: 0, width: w, height: h };
        let s = screen(area, app.files.len() > 1);
        assert!(s.files.is_none());
        for part in [s.tracks, s.details, s.status, s.keys] {
            assert_eq!((part.x, part.width), (0, w));
        }
        assert!(!render(&app).is_empty());
    }
}

#[test]
fn the_directory_is_read_in_the_background() {
    let mut names: Vec<String> = (0..25).map(|i| format!("f{i:02}.mkv")).collect();
    // One file that is not Matroska at all: its error belongs to that row and
    // must not stop the rest of the scan.
    names.push("broken.mkv".to_string());
    let read = |name: &str| {
        if name == "broken.mkv" {
            open(name, b"not a matroska file at all")
        } else {
            open(name, &fixture())
        }
    };

    let mut app = App::new(names.iter().map(|n| path(n)).collect(), false);
    load(&mut app);
    // The first file is read up front so the opening frame is not empty.
    assert!(app.current().is_some());
    assert_eq!(app.scan_progress(), Some((0, 26)));

    // Results arrive out of order, a few at a time.
    let mut next = names.len();
    while app.scan_progress().is_some() {
        let mut arrived = Vec::new();
        for _ in 0..4 {
            if next > 0 {
                next -= 1;
                arrived.push((next, read(&names[next])));
            }
        }
        let any = !arrived.is_empty();
        assert_eq!(app.poll_scan(arrived, next == 0), any);
    }

    for (i, entry) in app.files.iter().enumerate() {
        assert!(entry.loaded.is_some(), "file {i} was never read");
    }
    assert!(app.files.last().unwrap().loaded.as_ref().unwrap().is_err());

    // Every file is in memory, so moving through the list touches no disk.
    for i in 0..names.len() {
        app.select_file(1);
        assert_eq!(app.to_load(), None);
        app.ensure_loaded(None);
        assert_eq!(app.file_sel, (i + 1).min(names.len() - 1));
    }
    app.file_sel = 3;
    app.ensure_loaded(None);
    assert_eq!(app.tracks().len(), 6);
}

#[test]
fn a_late_result_does_not_overwrite_an_edited_file() {
    let mut app = App::new(vec![path("a.mkv"), path("b.mkv")], false);
    load(&mut app);
    app.select_track(1);
    app.toggle_flag(id::FLAG_FORCED);
    assert_eq!(files_title(&app), " Files (0/2 read) ");
    let changed = app.poll_scan(
        vec![(0, open("a.mkv", &fixture())), (9, open("c.mkv", b"")), (1, open("b.mkv", b""))],
        false,
    );
    assert!(changed);
    assert!(app.tracks()[1].forced.value);
    assert!(app.files[0].dirty);
    assert!(matches!(&app.files[1].loaded, Some(Err(_))));
    // Three arrived of two, so there is nothing left to wait for.
    assert_eq!(app.scan_progress(), None);
    assert_eq!(files_title(&app), " Files (2) ");
    assert!(!app.poll_scan(vec![(1, open("b.mkv", &fixture()))], false));
}

#[test]
fn only_one_track_of_a_type_is_the_default() {
    let mut app = app_over(&["a.mkv"]);
    app.select_track(2);
    app.make_default();
    let flags: Vec<(u64, bool)> = app.tracks().iter().map(|t| (t.ttype, t.default.value)).collect();
    assert_eq!(flags, vec![(1, true), (2, false), (2, true), (2, false), (0x11, true), (0x11, true)]);
    assert_eq!(app.status, "track 3 is now the default audio track");
    assert!(app.is_dirty());
    app.clear_default();
    assert!(app.tracks().iter().filter(|t| t.ttype == 2).all(|t| !t.default.value));
    assert_eq!(app.status, "track 3 is no longer a default track");
}

#[test]
fn a_flag_that_is_implied_is_not_written() {
    let mut app = app_over(&["a.mkv"]);
    let before = app.current().unwrap().tracks.to_bytes();
    app.make_default(); // the only video track, which is the default anyway
    assert_eq!(app.current().unwrap().tracks.to_bytes(), before);
    app.toggle_flag(id::FLAG_FORCED);
    assert_ne!(app.current().unwrap().tracks.to_bytes(), before);
    assert_eq!(app.status, "track 1: forced on");
    app.toggle_flag(id::FLAG_FORCED);
    assert_eq!(app.status, "track 1: forced off");
    let t = app.selected_track().unwrap();
    assert!(!t.forced.value && t.forced.explicit);
}

#[test]
fn turning_a_flag_over_twice_changes_nothing_else() {
    let mut app = app_over(&["a.mkv", "b.mkv"]);
    let before = app.tracks();
    let raw = app.current().unwrap().tracks.children()[0].clone();
    app.toggle_flag(id::FLAG_FORCED);
    app.toggle_flag(id::FLAG_FORCED);
    let after = app.tracks();
    assert_eq!(after.len(), before.len());
    for k in 1..before.len() {
        assert_eq!(format!("{:?}", after[k]), format!("{:?}", before[k]));
    }
    assert!(!before[0].forced.value && !before[0].forced.explicit);
    assert!(!after[0].forced.value && after[0].forced.explicit);
    assert!(app.is_dirty());
    let mut entry = app.current().unwrap().tracks.children()[0].clone();
    assert!(entry.remove(id::FLAG_FORCED));
    assert_eq!(entry.to_bytes(), raw.to_bytes());
}

#[test]
fn each_flag_has_its_key_and_its_label() {
    let mut app = app_over(&["a.mkv"]);
    for (key, label, on) in [
        ('f', "forced", true),
        ('e', "enabled", false),
        ('h', "hearing impaired", true),
        ('v', "visual impaired", true),
        ('t', "text descriptions", true),
        ('o', "original", true),
        ('c', "commentary", true),
    ] {
        assert!(matches!(app.handle_key(Key::Char(key), false), Request::Nothing));
        assert_eq!(app.status, format!("track 1: {label} {}", if on { "on" } else { "off" }));
    }
    let t = app.selected_track().unwrap();
    assert!(t.forced.value && t.hearing_impaired.value && t.visual_impaired.value);
    assert!(t.text_descriptions.value && t.original.value && t.commentary.value && !t.enabled.value);
    assert_eq!(t.flag_summary(), "d F off HI VI TD Orig Com");
}

#[test]
fn a_name_is_entered_trimmed_and_removed() {
    let mut app = app_over(&["a.mkv"]);
    app.select_track(1);
    app.handle_key(Key::Char('n'), false);
    assert_eq!(app.input.as_ref().unwrap().value, "English Atmos");
    assert_eq!(said(&status_line(&app)), "Track name (empty removes it): English Atmos_");
    assert_eq!(keys_text(&app), "Enter confirm   Esc cancel");
    app.handle_key(Key::Backspace, false);
    app.handle_key(Key::Char('q'), false);
    app.handle_key(Key::Char('\u{3000}'), false);
    app.handle_key(Key::Up, false);
    app.handle_key(Key::Enter, false);
    assert_eq!(app.status, "track 2: name set to English Atmoq");
    assert_eq!(app.selected_track().unwrap().display_name(), "English Atmoq");
    app.start_input(InputTarget::Name);
    app.input.as_mut().unwrap().value = "  \t ".to_string();
    app.commit_input();
    assert_eq!(app.status, "track 2: name removed");
    assert_eq!(app.selected_track().unwrap().name, None);
    app.handle_key(Key::Char('n'), false);
    app.handle_key(Key::Esc, false);
    assert_eq!(app.status, "cancelled");
    assert!(app.input.is_none());
}

#[test]
fn a_language_replaces_the_tag_that_overrides_it() {
    let mut app = app_over(&["a.mkv"]);
    app.select_track(1);
    if let Some(Ok(m)) = &mut app.files[0].loaded {
        m.tracks.children_mut().unwrap()[1].set_string(id::LANGUAGE_BCP47, "en-GB", 3);
    }
    assert_eq!(app.selected_track().unwrap().effective_language(), "en-GB");
    app.handle_key(Key::Char('l'), false);
    app.input.as_mut().unwrap().value = " fre".to_string();
    app.handle_key(Key::Enter, false);
    assert_eq!(app.status, "track 2: language set to fre, BCP-47 tag removed");
    let t = app.selected_track().unwrap();
    assert_eq!((t.effective_language(), t.language_bcp47), ("fre".to_string(), None));
    app.start_input(InputTarget::Language);
    app.input.as_mut().unwrap().value = String::new();
    app.commit_input();
    assert!(app.status_error);
    assert_eq!(app.status, "language cannot be empty");
    app.start_input(InputTarget::Language);
    app.commit_input();
    assert_eq!(app.status, "track 2: language set to fre");
}

#[test]
fn an_empty_tag_that_goes_is_mentioned() {
    let mut app = app_over(&["a.mkv"]);
    app.select_track(1);
    if let Some(Ok(m)) = &mut app.files[0].loaded {
        m.tracks.children_mut().unwrap()[1].set_string(id::LANGUAGE_BCP47, "", 3);
    }
    assert_eq!(app.selected_track().unwrap().language_bcp47, None);
    app.start_input(InputTarget::Language);
    app.input.as_mut().unwrap().value = "fre".to_string();
    app.commit_input();
    assert_eq!(app.status, "track 2: language set to fre, BCP-47 tag removed");
    assert!(app.current().unwrap().tracks.children()[1].find(id::LANGUAGE_BCP47).is_none());
}

#[test]
fn keys_move_through_files_and_tracks() {
    let mut app = app_over(&["a.mkv", "b.mkv", "c.mkv"]);
    app.handle_key(Key::Down, false);
    app.handle_key(Key::Char('j'), false);
    assert_eq!(app.track_sel, 2);
    app.handle_key(Key::End, false);
    assert_eq!(app.track_sel, 5);
    app.handle_key(Key::Char('k'), false);
    app.handle_key(Key::Up, false);
    assert_eq!(app.track_sel, 3);
    assert_eq!(selected_row(&app), Some(3));
    app.handle_key(Key::Home, false);
    assert_eq!(app.track_sel, 0);
    app.handle_key(Key::Down, false);
    assert!(matches!(app.handle_key(Key::Char(']'), false), Request::Load));
    assert_eq!((app.file_sel, app.track_sel), (1, 0));
    assert_eq!(app.to_load(), Some(1));
    assert_eq!(selected_row(&app), None);
    load(&mut app);
    assert_eq!(app.tracks().len(), 6);
    app.handle_key(Key::Tab, false);
    assert_eq!(app.focus, Focus::Files);
    app.handle_key(Key::End, false);
    assert_eq!(app.file_sel, 2);
    app.handle_key(Key::PageUp, false);
    app.handle_key(Key::PageUp, false);
    app.handle_key(Key::PageUp, false);
    assert_eq!(app.file_sel, 0);
    app.handle_key(Key::BackTab, false);
    assert_eq!(app.focus, Focus::Tracks);
    app.handle_key(Key::Char('x'), false);
    app.handle_key(Key::Other, false);
    assert_eq!(app.wait_ms(), 250);
    assert_eq!(App::new(vec![path("a"), path("b")], false).wait_ms(), 60);
}

#[test]
fn quitting_asks_about_unsaved_changes() {
    let mut app = app_over(&["a.mkv"]);
    app.handle_key(Key::Char('?'), false);
    assert!(app.show_help);
    app.handle_key(Key::Char('q'), false);
    assert!(!app.show_help && !app.should_quit);
    app.toggle_flag(id::FLAG_FORCED);
    app.handle_key(Key::Char('q'), false);
    assert!(app.confirm_quit && !app.should_quit);
    assert_eq!(said(&confirm_lines(&app)[0]), "1 file(s) have unsaved changes.");
    app.handle_key(Key::Char('c'), true);
    assert!(!app.should_quit, "the question takes every key");
    app.handle_key(Key::Esc, false);
    assert!(!app.confirm_quit);
    app.handle_key(Key::Esc, false);
    match app.handle_key(Key::Char('s'), false) {
        Request::SaveAll { files, quit } => {
            assert_eq!(files, vec![0]);
            assert!(quit);
            app.finish_save_all(vec![(0, Err("no room".to_string()))]);
            app.finish_quit();
        }
        other => panic!("{other:?}"),
    }
    assert!(!app.confirm_quit && !app.should_quit);
    assert_eq!(app.status, "saved 0, failed 1: a.mkv: no room");
    app.handle_key(Key::Char('c'), true);
    assert!(app.should_quit);
    let mut app = app_over(&["a.mkv"]);
    app.handle_key(Key::Char('q'), false);
    assert!(app.should_quit);
}

/// Saves a file of the interface over the fixture.
fn save_over(app: &App, i: usize) -> Result<Saved, String> {
    match &app.files[i].loaded {
        Some(Ok(m)) => edit::save(m, &fixture(), None)
            .map(|(bytes, report)| Saved { report, reopened: open(&app.files[i].label(), &bytes) }),
        _ => panic!("not loaded"),
    }
}

#[test]
fn saving_clears_the_mark() {
    let mut app = app_over(&["a.mkv", "b.mkv"]);
    assert!(matches!(app.handle_key(Key::Char('s'), false), Request::Nothing));
    assert_eq!(app.status, "no changes to save");
    app.select_track(5);
    app.toggle_flag(id::FLAG_FORCED);
    app.info("ready".to_string());
    assert_eq!(said(&status_line(&app)), "ready  [1 file(s) with unsaved changes]");
    assert_eq!(said(&file_rows(&app)[0]), "* a.mkv");
    assert_eq!(file_rows(&app)[0][1].tone, Tone::Yellow);
    match app.handle_key(Key::Char('s'), false) {
        Request::Save(0) => {
            let outcome = save_over(&app, 0);
            app.finish_save(outcome);
        }
        other => panic!("{other:?}"),
    }
    assert!(!app.is_dirty() && !app.status_error);
    assert!(app.status.starts_with("a.mkv: saved in place ("), "{}", app.status);
    assert!(!app.tracks()[5].forced.value);
    assert_eq!(said(&file_rows(&app)[0]), "  a.mkv");
    // A flag that has to be added makes the file grow.
    app.toggle_flag(id::FLAG_COMMENTARY);
    let outcome = save_over(&app, 0);
    app.finish_save(outcome);
    assert!(app.status.ends_with(" (file rewritten)"), "{}", app.status);
    app.toggle_flag(id::FLAG_COMMENTARY);
    app.finish_save(Err("disk full".to_string()));
    assert_eq!(app.status, "a.mkv: disk full");
    assert!(app.status_error && app.is_dirty());
}

#[test]
fn saving_everything_counts() {
    let mut app = app_over(&["a.mkv", "b.mkv"]);
    assert_eq!(app.save_all(), None);
    assert_eq!(app.status, "no changes to save");
    app.select_track(5);
    app.toggle_flag(id::FLAG_FORCED);
    app.select_file(1);
    load(&mut app);
    app.select_track(5);
    app.toggle_flag(id::FLAG_FORCED);
    assert_eq!(app.dirty_count(), 2);
    match app.handle_key(Key::Char('S'), false) {
        Request::SaveAll { files, quit } => {
            assert_eq!((files, quit), (vec![0, 1], false));
        }
        other => panic!("{other:?}"),
    }
    let outcomes = vec![(0, save_over(&app, 0)), (1, save_over(&app, 1))];
    app.finish_save_all(outcomes);
    assert_eq!(app.status, "saved 2 file(s)");
    assert_eq!(app.dirty_count(), 0);
}

#[test]
fn reverting_reads_the_file_again() {
    let mut app = app_over(&["a.mkv"]);
    assert_eq!(app.revert_current(), None);
    assert_eq!(app.status, "no changes to revert");
    app.toggle_flag(id::FLAG_FORCED);
    match app.handle_key(Key::Char('u'), false) {
        Request::Reload(0) => app.finish_revert(open("a.mkv", &fixture())),
        other => panic!("{other:?}"),
    }
    assert_eq!(app.status, "reloaded from disk, changes discarded");
    assert!(!app.is_dirty() && !app.tracks()[0].forced.value);
}

#[test]
fn a_file_that_cannot_be_read_says_so() {
    let mut app = App::with_scanner(vec![path("a.mkv"), path("b.mkv")], false, false);
    app.ensure_loaded(Some(open("a.mkv", b"nonsense")));
    assert_eq!(app.current_error(), Some("not a Matroska file (top level ID 0x6E6F)"));
    let lines = error_lines(&app).unwrap();
    assert_eq!(
        all_said(&lines),
        "This file could not be read:\n\nnot a Matroska file (top level ID 0x6E6F)\n"
    );
    assert_eq!(file_rows(&app)[0][1].tone, Tone::Red);
    assert_eq!(tracks_title(&app), " Tracks ");
    assert!(app.tracks().is_empty());
    assert!(detail_lines(&app, &readings(&app)).is_empty());
}

#[test]
fn the_details_say_everything() {
    let mut app = app_over(&["a.mkv"]);
    app.select_track(1);
    let lines: Vec<String> = detail_lines(&app, &readings(&app)).iter().map(|l| said(l)).collect();
    assert_eq!(
        lines,
        vec![
            "Title: A Film   Duration: 1:30:00   Written by: mkvtrack test",
            "Track 2 audio  TrueHD  [A_TRUEHD]",
            "Language: eng (English)",
            "Name: English Atmos",
            "default=yes  forced=no (implied)  enabled=yes (implied)  ",
            "hearing impaired=no  visual impaired=no  text descriptions=no  original=no  commentary=no  ",
            "Audio: 8 channels (7.1), 48000 Hz, 24 bit",
            "UID 2",
        ]
    );
    app.select_track(-1);
    let lines: Vec<String> = detail_lines(&app, &readings(&app)).iter().map(|l| said(l)).collect();
    assert_eq!(lines[6], "Video: 1920x1080");
}

#[test]
fn the_table_has_its_columns() {
    let app = app_over(&["a.mkv"]);
    assert_eq!(track_heads().len(), track_columns().len());
    let (cells, tone) = track_row(&app.tracks()[1]);
    assert_eq!(cells, vec!["2", "audio", "TrueHD", "eng", "English Atmos", "7.1", "D"]);
    assert_eq!(tone, Tone::Green);
    assert_eq!(track_row(&app.tracks()[0]).1, Tone::Blue);
    assert_eq!(track_row(&app.tracks()[5]).1, Tone::Magenta);
    assert_eq!(tracks_title(&app), " Tracks - a.mkv ");
}

#[test]
fn the_screen_is_divided() {
    let area = Area { x: 0, y: 0, width: 120, height: 34 };
    let s = screen(area, true);
    assert_eq!(s.files, Some(Area { x: 0, y: 0, width: 34, height: 32 }));
    assert_eq!(s.tracks, Area { x: 34, y: 0, width: 86, height: 20 });
    assert_eq!(s.details, Area { x: 34, y: 20, width: 86, height: 12 });
    assert_eq!(s.status, Area { x: 0, y: 32, width: 120, height: 1 });
    assert_eq!(s.keys, Area { x: 0, y: 33, width: 120, height: 1 });
    assert_eq!(centered(78, 26, area), Area { x: 21, y: 4, width: 78, height: 26 });
    let small = Area { x: 3, y: 5, width: 20, height: 1 };
    assert_eq!(centered(60, 7, small), Area { x: 4, y: 5, width: 18, height: 0 });
}
