//! Arguments, names, labels and the other small rules.

use mkvtrack::app::edits::write_flag;
use mkvtrack::app::TrackEdit;
use mkvtrack::cli::{info_line, is_matroska, order_by_key, order_by_name, parse_args, Command, Options};
use mkvtrack::ebml::{id, Element};
use mkvtrack::edit::piece::{cluster_pieces, find_position_slot, pieces_len, Piece, PositionSlot};
use mkvtrack::edit::remap::{map_pos, remap_cues, remap_seek_head, Moves};
use mkvtrack::mkv::{flag_insert_position, language_name, FileInfo, TopChild, Track};
use mkvtrack::scan::{worker_count, Scanner};
use mkvtrack::text::{ascii_lower, decimal_text, join, trim};
use mkvtrack::ui::{codec_label, fmt_duration, plain_line};

fn ask(args: &[&str]) -> Result<Command, String> {
    parse_args(&args.iter().map(|a| a.to_string()).collect())
}

fn run(args: &[&str]) -> Options {
    match ask(args) {
        Ok(Command::Run(o)) => o,
        other => panic!("{other:?}"),
    }
}

#[test]
fn arguments_are_understood() {
    let o = run(&[]);
    assert_eq!(o.paths, vec!["."]);
    assert!(!o.recursive && !o.backup && !o.list);
    let o = run(&["-r", "films", "--backup", "-"]);
    assert_eq!(o.paths, vec!["films", "-"]);
    assert!(o.recursive && o.backup && !o.list);
    let o = run(&["-l", "--", "-r", "--help"]);
    assert_eq!(o.paths, vec!["-r", "--help"]);
    assert!(o.list && !o.recursive);
    assert_eq!(run(&["--"]).paths, vec!["."]);
    assert!(matches!(ask(&["a", "--help", "-x"]), Ok(Command::Help)));
    assert!(matches!(ask(&["-V"]), Ok(Command::Version)));
    assert_eq!(ask(&["-x", "--help"]).err().unwrap(), "unknown option -x");
    assert_eq!(ask(&["--nope"]).err().unwrap(), "unknown option --nope");
}

#[test]
fn extensions_are_recognised_in_either_case() {
    for e in ["mkv", "MKA", "mks", "Mk3D", "webm"] {
        assert!(is_matroska(Some(e)), "{e}");
    }
    assert!(!is_matroska(Some("mp4")));
    assert!(!is_matroska(Some("")));
    assert!(!is_matroska(None));
}

#[test]
fn files_are_ordered_without_regard_to_case() {
    let names: Vec<String> = ["b.mkv", "A.mkv", "É.mkv", "a.mkv", "B.mkv", "é.mkv"].map(String::from).to_vec();
    assert_eq!(order_by_name(&names), vec![1, 3, 0, 4, 2, 5]);
    assert_eq!(order_by_name(&Vec::new()), Vec::<usize>::new());
    let keys: Vec<String> = ["b", "B", "ab", "a", "b"].map(String::from).to_vec();
    assert_eq!(order_by_key(&keys), vec![1, 3, 2, 0, 4]);
}

#[test]
fn the_listing_says_what_is_known() {
    let mut info = FileInfo::default();
    assert_eq!(info_line(&info, &None), None);
    info.title = Some("A Film".to_string());
    info.writing_app = Some("muxer".to_string());
    assert_eq!(info_line(&info, &Some("5400".to_string())).unwrap(), "  (title A Film, 5400s, muxer)");
    assert_eq!(info_line(&info, &None).unwrap(), "  (title A Film, muxer)");
}

#[test]
fn durations_are_shown_in_hours_minutes_and_seconds() {
    assert_eq!(fmt_duration(0), "0:00");
    assert_eq!(fmt_duration(65), "1:05");
    assert_eq!(fmt_duration(5400), "1:30:00");
    assert_eq!(fmt_duration(36_061), "10:01:01");
}

#[test]
fn codecs_have_friendly_names() {
    assert_eq!(codec_label("V_MPEGH/ISO/HEVC"), "H.265");
    assert_eq!(codec_label("S_TEXT/UTF8"), "SubRip");
    assert_eq!(codec_label("A_PCM/INT/LIT"), "PCM int/lit");
    assert_eq!(codec_label("X_OTHER"), "X_OTHER");
    assert_eq!(codec_label(""), "");
}

#[test]
fn languages_have_names() {
    assert_eq!(language_name("eng"), Some("English"));
    assert_eq!(language_name("EN-gb"), Some("English"));
    assert_eq!(language_name("fre"), Some("French"));
    assert_eq!(language_name("ja_JP"), Some("Japanese"));
    assert_eq!(language_name("xyz"), None);
    assert_eq!(language_name(""), None);
}

fn entry() -> Element {
    Element::master(
        id::TRACK_ENTRY,
        vec![
            Element::uint_elem(id::TRACK_NUMBER, 3),
            Element::uint_elem(id::TRACK_UID, 77),
            Element::uint_elem(id::TRACK_TYPE, 2),
            Element::string_elem(id::CODEC_ID, "A_AC3"),
            Element::string_elem(id::TRACK_NAME, "Main"),
            Element::master(id::AUDIO, vec![Element::uint_elem(id::CHANNELS, 6)]),
        ],
    )
}

#[test]
fn a_track_is_read_with_its_defaults() {
    let t = Track::from_entry(4, &entry());
    assert_eq!((t.index, t.number, t.uid, t.ttype), (4, 3, 77, 2));
    assert_eq!(t.language, "eng");
    assert!(!t.language_explicit);
    assert!(t.default.value && !t.default.explicit);
    assert!(t.enabled.value && !t.forced.value);
    assert_eq!(t.type_text(), "audio");
    assert_eq!(t.channel_layout(), "5.1");
    assert_eq!(t.flag_summary(), "d");
    assert_eq!(plain_line(&t), "    3  audio     AC-3           eng    Main  [d]");
    let copy = t.clone();
    assert_eq!(plain_line(&copy), plain_line(&t));
    let bare = Track::from_entry(0, &Element::master(id::TRACK_ENTRY, vec![]));
    assert_eq!((bare.number, bare.ttype, bare.codec_id.as_str()), (0, 0, ""));
    assert_eq!(bare.channel_layout(), "");
}

#[test]
fn layouts_of_channels() {
    for (n, want) in [(1u64, "mono"), (2, "stereo"), (6, "5.1"), (8, "7.1"), (4, "4ch"), (0, "0ch")] {
        let audio = Element::master(id::AUDIO, vec![Element::uint_elem(id::CHANNELS, n)]);
        let t = Track::from_entry(0, &Element::master(id::TRACK_ENTRY, vec![audio]));
        assert_eq!(t.channel_layout(), want);
    }
}

#[test]
fn edits_of_an_entry_read_back() {
    let mut e = entry();
    let at = flag_insert_position(&e);
    let before = e.children().len();
    write_flag(&mut e, id::FLAG_DEFAULT, true, true);
    assert_eq!(e.children().len(), before);
    write_flag(&mut e, id::FLAG_DEFAULT, false, true);
    assert_eq!(e.children()[at].id, id::FLAG_DEFAULT);
    assert_eq!(e.get_uint(id::FLAG_DEFAULT), Some(0));
    write_flag(&mut e, id::FLAG_DEFAULT, true, true);
    assert_eq!(e.get_uint(id::FLAG_DEFAULT), Some(1));
    TrackEdit::Flag { flag: id::FLAG_FORCED, value: true, default: false }.apply(&mut e);
    TrackEdit::Name("Autre".to_string()).apply(&mut e);
    TrackEdit::Language("fre".to_string()).apply(&mut e);
    let t = Track::from_entry(0, &e);
    assert!(t.forced.value && t.forced.explicit);
    assert_eq!((t.name.as_deref(), t.language.as_str()), (Some("Autre"), "fre"));
    assert_eq!((t.number, t.uid, t.codec_id.as_str()), (3, 77, "A_AC3"));
    TrackEdit::Name(String::new()).apply(&mut e);
    assert_eq!(Track::from_entry(0, &e).name, None);
}

#[test]
fn workers_are_as_many_as_help() {
    assert_eq!(worker_count(4, 100), 4);
    assert_eq!(worker_count(64, 100), 8);
    assert_eq!(worker_count(64, 3), 3);
    assert_eq!(worker_count(0, 0), 1);
    let mut s = Scanner::start(5);
    assert!(s.in_progress());
    assert!(s.drain(2, false));
    assert_eq!(s.progress(), (2, 5));
    assert!(!s.drain(0, false));
    assert!(!s.drain(0, true));
    assert_eq!(s.progress(), (5, 5));
    assert!(!s.in_progress());
}

#[test]
fn texts_are_put_together() {
    assert_eq!(decimal_text(0), "0");
    assert_eq!(decimal_text(u64::MAX), "18446744073709551615");
    assert_eq!(join(&vec!["a".to_string(), String::new(), "b".to_string()], ", "), "a, , b");
    assert_eq!(trim(" \u{2003}a b\u{85}\n"), "a b");
    assert_eq!(trim(" \t"), "");
    assert_eq!(ascii_lower("ABCÉz"), "abcÉz");
}

fn moves() -> Moves {
    // The second of three children grew by five bytes.
    Moves { old_rel: vec![0, 10, 30], old_len: vec![10, 20, 100], starts: vec![0, 10, 35], new_len: vec![10, 25, 100] }
}

#[test]
fn positions_move_with_their_child() {
    let m = moves();
    assert_eq!(map_pos(&m, 0), 0);
    assert_eq!(map_pos(&m, 12), 12);
    assert_eq!(map_pos(&m, 30), 35);
    assert_eq!(map_pos(&m, 129), 134);
    assert_eq!(map_pos(&m, 130), 135);
}

#[test]
fn a_position_past_the_last_child_moves_with_the_end() {
    let shift = |old_len: u64, new_len: u64, p: u64| {
        let m = Moves {
            old_rel: vec![0],
            old_len: vec![old_len],
            starts: vec![0],
            new_len: vec![new_len],
        };
        map_pos(&m, p)
    };
    assert_eq!(shift(10, 5, 12), 7);
    assert_eq!(shift(10, 5, 10), 5);
    assert_eq!(shift(10, 10, 12), 12);
    assert_eq!(shift(10, 15, 12), 17);
    // Nothing there: what lies behind stays.
    let none = Moves { old_rel: vec![], old_len: vec![], starts: vec![], new_len: vec![] };
    assert_eq!(map_pos(&none, 3), 3);
}

#[test]
fn the_indexes_are_corrected() {
    let seek = |p: u64| {
        Element::master(
            id::SEEK_HEAD,
            vec![Element::master(
                id::SEEK,
                vec![Element::data(id::SEEK_ID, vec![0xAE]), Element::uint_elem(id::SEEK_POSITION, p)],
            )],
        )
    };
    assert_eq!(remap_seek_head(&seek(30), &moves()).to_bytes(), seek(35).to_bytes());
    let cues = |p: u64| {
        Element::master(
            id::CUES,
            vec![Element::master(
                id::CUE_POINT,
                vec![
                    Element::uint_elem(id::CLUSTER_TIMESTAMP, 7),
                    Element::master(id::CUE_TRACK_POSITIONS, vec![Element::uint_elem(id::CUE_CLUSTER_POSITION, p)]),
                ],
            )],
        )
    };
    assert_eq!(remap_cues(&cues(40), &moves()).to_bytes(), cues(45).to_bytes());
}

#[test]
fn a_position_is_found_before_the_blocks() {
    let slot = find_position_slot(&[0xE7, 0x81, 0, 0xA7, 0x82, 1, 0, 0xA3, 0x80]).unwrap();
    assert_eq!((slot.off, slot.header_len, slot.size), (3, 2, 2));
    assert!(find_position_slot(&[0xE7, 0x81, 0, 0xA3, 0x80, 0xA7, 0x81, 1]).is_none());
    assert!(find_position_slot(&[0xE7, 0xFF]).is_none());
    assert!(find_position_slot(&[]).is_none());
    assert!(find_position_slot(&[0xE7, 0x85, 0]).is_none());
}

#[test]
fn a_cluster_is_patched_or_widened() {
    let c = TopChild { id: id::CLUSTER, start: 100, header_len: 5, size: 20 };
    let slot = PositionSlot { off: 3, header_len: 2, size: 1 };
    let same = cluster_pieces(&c, &slot, 200);
    assert_eq!(pieces_len(&same), 25);
    assert!(matches!(same[0], Piece::Copy { off: 100, len: 10 }));
    assert!(matches!(&same[1], Piece::Bytes(b) if *b == vec![200]));
    assert!(matches!(same[2], Piece::Copy { off: 111, len: 14 }));
    let wide = cluster_pieces(&c, &slot, 300);
    assert_eq!(pieces_len(&wide), 26);
    assert!(matches!(&wide[0], Piece::Bytes(b) if *b == vec![0x1F, 0x43, 0xB6, 0x75, 0x95]));
    assert!(matches!(wide[1], Piece::Copy { off: 105, len: 3 }));
    assert!(matches!(&wide[2], Piece::Bytes(b) if *b == vec![0xA7, 0x82, 1, 44]));
    assert!(matches!(wide[3], Piece::Copy { off: 111, len: 14 }));
    // A size of three bytes where one does gives its two bytes back.
    let padded = PositionSlot { off: 3, header_len: 4, size: 1 };
    let wide = cluster_pieces(&c, &padded, 300);
    assert!(matches!(&wide[0], Piece::Bytes(b) if *b == vec![0x1F, 0x43, 0xB6, 0x75, 0x93]));
    assert_eq!(pieces_len(&wide), 5 + 0x13);
    assert!(matches!(wide[3], Piece::Copy { off: 113, len: 12 }));
}
