//! End to end checks: build Matroska files, edit their track flags through
//! the same code path the interface uses, and verify that every position
//! recorded in the file still points where it should.

use mkvtrack::app::{App, InputTarget, Saved};
use mkvtrack::ebml::{self, id, Element};
use mkvtrack::edit::names::{backup_suffix, temp_name};
use mkvtrack::edit::piece::find_position_slot;
use mkvtrack::edit::{self, SaveMode, SaveReport};
use mkvtrack::mkv::{FilePath, MkvFile, Scan, Timestamp};

// ---------------------------------------------------------------------------
// Building test files
// ---------------------------------------------------------------------------

fn ebml_header() -> Vec<u8> {
    Element::master(
        id::EBML_HEAD,
        vec![
            Element::uint_elem(0x4286, 1),
            Element::uint_elem(0x42F7, 1),
            Element::uint_elem(0x42F2, 4),
            Element::uint_elem(0x42F3, 8),
            Element::string_elem(0x4282, "matroska"),
            Element::uint_elem(0x4287, 4),
            Element::uint_elem(0x4285, 2),
        ],
    )
    .to_bytes()
}

fn info() -> Element {
    Element::master(
        id::INFO,
        vec![
            Element::uint_elem(id::TIMESTAMP_SCALE, 1_000_000),
            Element::string_elem(id::MUXING_APP, "mkvtrack test"),
            Element::string_elem(id::WRITING_APP, "mkvtrack test"),
            Element::data(id::DURATION, 5000.0f64.to_be_bytes().to_vec()),
        ],
    )
}

/// A track entry. `flags` are appended verbatim so a test can leave them out.
fn track(
    number: u64,
    ttype: u64,
    codec: &str,
    lang: &str,
    name: &str,
    flags: Vec<Element>,
) -> Element {
    let mut children = vec![
        Element::uint_elem(id::TRACK_NUMBER, number),
        Element::uint_elem(id::TRACK_UID, 0xF000 + number),
        Element::uint_elem(id::TRACK_TYPE, ttype),
    ];
    children.extend(flags);
    children.push(Element::string_elem(id::CODEC_ID, codec));
    children.push(Element::string_elem(id::LANGUAGE, lang));
    if !name.is_empty() {
        children.push(Element::string_elem(id::TRACK_NAME, name));
    }
    if ttype == 2 {
        children.push(Element::master(
            id::AUDIO,
            vec![
                Element::uint_elem(id::CHANNELS, 6),
                Element::data(id::SAMPLING_FREQUENCY, 48000.0f64.to_be_bytes().to_vec()),
            ],
        ));
    }
    Element::master(id::TRACK_ENTRY, children)
}

/// Tracks with explicit FlagDefault on every entry: edits fit in place.
fn tracks_explicit() -> Element {
    Element::master(
        id::TRACKS,
        vec![
            track(
                1,
                1,
                "V_MPEG4/ISO/AVC",
                "und",
                "",
                vec![Element::uint_elem(id::FLAG_DEFAULT, 1)],
            ),
            track(
                2,
                2,
                "A_EAC3",
                "eng",
                "English",
                vec![Element::uint_elem(id::FLAG_DEFAULT, 1)],
            ),
            track(
                3,
                2,
                "A_AAC",
                "jpn",
                "Japanese",
                vec![Element::uint_elem(id::FLAG_DEFAULT, 0)],
            ),
            track(
                4,
                0x11,
                "S_TEXT/UTF8",
                "eng",
                "Full",
                vec![Element::uint_elem(id::FLAG_DEFAULT, 1)],
            ),
            track(
                5,
                0x11,
                "S_TEXT/UTF8",
                "eng",
                "Signs",
                vec![Element::uint_elem(id::FLAG_DEFAULT, 0)],
            ),
        ],
    )
}

/// Tracks with no flag elements at all: any edit has to add bytes.
fn tracks_implicit() -> Element {
    Element::master(
        id::TRACKS,
        vec![
            track(1, 1, "V_MPEG4/ISO/AVC", "und", "", vec![]),
            track(2, 2, "A_EAC3", "eng", "English", vec![]),
            track(3, 2, "A_AAC", "jpn", "Japanese", vec![]),
            track(4, 0x11, "S_TEXT/UTF8", "eng", "Full", vec![]),
            track(5, 0x11, "S_TEXT/UTF8", "eng", "Signs", vec![]),
        ],
    )
}

fn cluster(timestamp: u64, position: u64, payload_size: usize, pos_width: usize) -> Element {
    let mut block = vec![0x81, 0x00, 0x00, 0x80];
    block.extend(std::iter::repeat_n(0xAB, payload_size));
    Element::master(
        id::CLUSTER,
        vec![
            Element::uint_elem(id::CLUSTER_TIMESTAMP, timestamp),
            Element::data(
                id::CLUSTER_POSITION,
                ebml::uint_bytes_fixed(position, pos_width)
                    .expect("cluster position fits the chosen width"),
            ),
            Element::data(id::SIMPLE_BLOCK, block),
        ],
    )
}

fn cue(time: u64, track_number: u64, cluster_position: u64) -> Element {
    Element::master(
        id::CUE_POINT,
        vec![
            Element::uint_elem(0xB3, time),
            Element::master(
                id::CUE_TRACK_POSITIONS,
                vec![
                    Element::uint_elem(0xF7, track_number),
                    Element::data(
                        id::CUE_CLUSTER_POSITION,
                        ebml::uint_bytes_fixed(cluster_position, 8).unwrap(),
                    ),
                ],
            ),
        ],
    )
}

fn seek_entry(seek_id: u64, position: u64) -> Element {
    let mut id_bytes = Vec::new();
    ebml::write_id(&mut id_bytes, seek_id);
    Element::master(
        id::SEEK,
        vec![
            Element::data(id::SEEK_ID, id_bytes),
            Element::data(
                id::SEEK_POSITION,
                ebml::uint_bytes_fixed(position, 8).unwrap(),
            ),
        ],
    )
}

/// Assembles a complete file. Seek and cue positions are stored eight bytes
/// wide so the layout does not change between the two passes; the cluster
/// Position width is chosen by the caller, which lets a test force the
/// "value no longer fits" branch of the rewriter.
fn build(tracks: Element, void_after_tracks: usize, pos_width: usize, block: usize) -> Vec<u8> {
    let mut positions = (0u64, 0u64, 0u64, 0u64, 0u64); // info, tracks, c1, c2, cues

    for _pass in 0..2 {
        let seek_head = Element::master(
            id::SEEK_HEAD,
            vec![
                seek_entry(id::INFO, positions.0),
                seek_entry(id::TRACKS, positions.1),
                seek_entry(id::CUES, positions.4),
            ],
        );
        let mut acc = 0u64;
        let mut next = |len: usize, slot: &mut u64| {
            *slot = acc;
            acc += len as u64;
        };
        let mut sh_pos = 0;
        next(seek_head.to_bytes().len(), &mut sh_pos);
        let mut info_pos = 0;
        next(info().to_bytes().len(), &mut info_pos);
        let mut tracks_pos = 0;
        next(tracks.to_bytes().len() + void_after_tracks, &mut tracks_pos);
        let mut c1_pos = 0;
        next(
            cluster(0, positions.2, block, pos_width).to_bytes().len(),
            &mut c1_pos,
        );
        let mut c2_pos = 0;
        next(
            cluster(1000, positions.3, block, pos_width)
                .to_bytes()
                .len(),
            &mut c2_pos,
        );
        let mut cues_pos = 0;
        next(0, &mut cues_pos);
        positions = (info_pos, tracks_pos, c1_pos, c2_pos, cues_pos);
    }

    let seek_head = Element::master(
        id::SEEK_HEAD,
        vec![
            seek_entry(id::INFO, positions.0),
            seek_entry(id::TRACKS, positions.1),
            seek_entry(id::CUES, positions.4),
        ],
    );
    let cues = Element::master(
        id::CUES,
        vec![cue(0, 1, positions.2), cue(1000, 1, positions.3)],
    );

    let mut payload = Vec::new();
    payload.extend(seek_head.to_bytes());
    payload.extend(info().to_bytes());
    payload.extend(tracks.to_bytes());
    if void_after_tracks > 0 {
        payload.extend(ebml::void_of(void_after_tracks));
    }
    payload.extend(cluster(0, positions.2, block, pos_width).to_bytes());
    payload.extend(cluster(1000, positions.3, block, pos_width).to_bytes());
    payload.extend(cues.to_bytes());

    let mut out = ebml_header();
    ebml::write_id(&mut out, id::SEGMENT);
    ebml::write_size(&mut out, payload.len() as u64);
    out.extend(payload);
    out
}

fn build_file(tracks: Element, void_after_tracks: usize) -> Vec<u8> {
    build(tracks, void_after_tracks, 8, 400)
}

// ---------------------------------------------------------------------------
// A disk that holds one file
// ---------------------------------------------------------------------------

struct Disk {
    bytes: Vec<u8>,
    modified: Option<Timestamp>,
    /// Name and contents of the copy that was made before the first write.
    backup: Option<(String, Vec<u8>)>,
}

fn path(name: &str) -> FilePath {
    FilePath { shown: format!("/films/{name}"), name: Some(name.to_string()) }
}

impl Disk {
    fn new(bytes: Vec<u8>) -> Disk {
        Disk { bytes, modified: Some(Timestamp { secs: 1, nanos: 0 }), backup: None }
    }

    fn open(&self) -> Result<MkvFile, String> {
        MkvFile::open(path("a.mkv"), &self.bytes, self.modified)
    }

    /// Saves an opened file the way the program does.
    fn save(&mut self, mkv: &MkvFile, backup: bool) -> Result<SaveReport, String> {
        let (bytes, report) = edit::save(mkv, &self.bytes, self.modified)?;
        if backup && self.backup.is_none() {
            self.backup = Some((format!("a.mkv{}", backup_suffix()), self.bytes.clone()));
        }
        self.bytes = bytes;
        self.modified = Some(Timestamp { secs: self.modified.unwrap().secs + 1, nanos: 0 });
        Ok(report)
    }

    /// An interface with the file in it, loaded.
    fn app(&self) -> App {
        let mut app = App::new(vec![path("a.mkv")], false);
        assert_eq!(app.to_load(), Some(0));
        app.ensure_loaded(Some(self.open()));
        app
    }

    /// What the program does when the interface asks for the file to be saved.
    fn save_current(&mut self, app: &mut App) {
        if let Some(i) = app.save_current() {
            let outcome = match &app.files[i].loaded {
                Some(Ok(mkv)) => self.save(mkv, app.backup),
                _ => panic!("nothing to save"),
            };
            let outcome = outcome.map(|report| Saved { report, reopened: self.open() });
            app.finish_save(outcome);
        }
    }

    fn flags(&self) -> Vec<(u64, bool, bool)> {
        self.open()
            .unwrap()
            .tracks_view()
            .iter()
            .map(|t| (t.number, t.default.value, t.forced.value))
            .collect()
    }
}

// ---------------------------------------------------------------------------
// Verification
// ---------------------------------------------------------------------------

/// Checks every cross reference in the file: the Segment covers the file, the
/// children tile it exactly, SeekHead entries land on the element they name,
/// cues land on clusters, and each cluster's Position matches where it is.
fn verify(disk: &Disk) {
    let buf = disk.bytes.clone();
    let mkv = disk.open().expect("reopen");
    // Opening stops at the clusters, so ask for the whole list here.
    let top = mkv.scan_all(&buf).unwrap_or_else(|e| panic!("the scan stopped early: {e}"));
    assert_eq!(mkv.segment_end, buf.len() as u64, "the Segment does not reach the end");

    let base = mkv.segment_data_start;
    let mut expect = base;
    for c in &top {
        assert_eq!(c.start, expect, "gap before element {:#X}", c.id);
        expect = c.end();
    }
    assert_eq!(expect, mkv.segment_end, "children do not fill the Segment");

    let id_at = |abs: u64| -> u64 { ebml::read_id(&buf, abs as usize).expect("element ID").0 };

    for c in &top {
        let payload = &buf[c.data_start() as usize..c.end() as usize];
        match c.id {
            id::SEEK_HEAD => {
                let el = Element::master(c.id, ebml::parse_children(payload).unwrap());
                for seek in el.children().iter().filter(|s| s.id == id::SEEK) {
                    let want = ebml::read_id(seek.find(id::SEEK_ID).unwrap().bytes(), 0)
                        .unwrap()
                        .0;
                    let pos = ebml::read_uint(seek.find(id::SEEK_POSITION).unwrap().bytes());
                    assert_eq!(
                        id_at(base + pos),
                        want,
                        "SeekHead entry for {want:#X} points at the wrong element"
                    );
                }
            }
            id::CUES => {
                let el = Element::master(c.id, ebml::parse_children(payload).unwrap());
                for point in el.children() {
                    for tp in point.children() {
                        if tp.id != id::CUE_TRACK_POSITIONS {
                            continue;
                        }
                        let pos =
                            ebml::read_uint(tp.find(id::CUE_CLUSTER_POSITION).unwrap().bytes());
                        assert_eq!(
                            id_at(base + pos),
                            id::CLUSTER,
                            "cue points at {pos}, which is not a Cluster"
                        );
                    }
                }
            }
            id::CLUSTER => {
                let el = Element::master(c.id, ebml::parse_children(payload).unwrap());
                if let Some(p) = el.find(id::CLUSTER_POSITION) {
                    assert_eq!(
                        ebml::read_uint(p.bytes()),
                        c.start - base,
                        "cluster Position does not match where the cluster is"
                    );
                }
            }
            _ => {}
        }
    }
}

// ---------------------------------------------------------------------------
// Tests
// ---------------------------------------------------------------------------

#[test]
fn the_generated_fixture_is_consistent() {
    let disk = Disk::new(build_file(tracks_explicit(), 64));
    verify(&disk);
    let mkv = disk.open().unwrap();
    assert_eq!(mkv.tracks_view().len(), 5);
    assert_eq!(mkv.info.writing_app.as_deref(), Some("mkvtrack test"));
}

#[test]
fn changing_an_existing_flag_writes_in_place() {
    let mut disk = Disk::new(build_file(tracks_explicit(), 0));
    let before = disk.bytes.len();

    let mut mkv = disk.open().unwrap();
    // Make track 3 the default audio track.
    let entries = mkv.tracks.children_mut().unwrap();
    for e in entries.iter_mut() {
        if e.get_uint(id::TRACK_TYPE) == Some(2) {
            let want = e.get_uint(id::TRACK_NUMBER) == Some(3);
            e.set_uint(id::FLAG_DEFAULT, want as u64, 3);
        }
    }
    let report = disk.save(&mkv, false).unwrap();
    assert_eq!(report.mode, SaveMode::InPlace, "{}", report.message);
    assert_eq!(disk.bytes.len(), before, "the file changed size");

    verify(&disk);
    let got = disk.flags();
    assert_eq!(got[1], (2, false, false));
    assert_eq!(got[2], (3, true, false));
}

#[test]
fn a_growing_tracks_element_uses_the_void_that_follows_it() {
    let mut disk = Disk::new(build_file(tracks_implicit(), 64));
    let before = disk.bytes.len();

    let mut app = disk.app();
    app.select_track(4); // the "Signs" subtitle track
    app.toggle_flag(id::FLAG_FORCED);
    app.make_default();
    disk.save_current(&mut app);
    assert!(!app.status_error, "{}", app.status);
    assert!(app.status.contains("in place"), "{}", app.status);
    assert_eq!(disk.bytes.len(), before, "the file changed size");

    verify(&disk);
    let got = disk.flags();
    assert_eq!(got[3], (4, false, false), "the other subtitle track lost its default");
    assert_eq!(got[4], (5, true, true));
    // Audio tracks are untouched: both are still implicitly default.
    assert!(got[1].1);
}

#[test]
fn a_growing_tracks_element_without_room_rewrites_the_file() {
    let mut disk = Disk::new(build_file(tracks_implicit(), 0));
    let before = disk.bytes.len();

    let mut mkv = disk.open().unwrap();
    let entries = mkv.tracks.children_mut().unwrap();
    for e in entries.iter_mut() {
        if e.get_uint(id::TRACK_TYPE) == Some(2) {
            let want = e.get_uint(id::TRACK_NUMBER) == Some(3);
            e.set_uint(id::FLAG_DEFAULT, want as u64, 3);
        }
        if e.get_uint(id::TRACK_NUMBER) == Some(5) {
            e.set_uint(id::FLAG_FORCED, 1, 3);
            // Enough extra bytes that the file has to grow even though the
            // rewriter also compacts the padded seek and cue positions.
            e.set_string(id::TRACK_NAME, &"Signs and songs ".repeat(20), 3);
        }
    }
    let report = disk.save(&mkv, true).unwrap();
    assert_eq!(report.mode, SaveMode::Rewrite, "{}", report.message);

    let after = disk.bytes.len();
    assert!(after > before, "the file should have grown: {before} -> {after}");
    verify(&disk);

    let got = disk.flags();
    assert_eq!(got[1], (2, false, false));
    assert_eq!(got[2], (3, true, false));
    assert_eq!(got[4], (5, true, true));

    // The backup is the original file, untouched.
    let (bak, kept) = disk.backup.unwrap();
    assert_eq!(bak, "a.mkv.bak");
    assert_eq!(kept, build_file(tracks_implicit(), 0));
}

#[test]
fn editing_names_and_languages_survives_a_round_trip() {
    let mut disk = Disk::new(build_file(tracks_explicit(), 200));

    let mut app = disk.app();
    app.select_track(4);
    app.start_input(InputTarget::Name);
    app.input.as_mut().unwrap().value = "Signs and songs".into();
    app.commit_input();
    app.start_input(InputTarget::Language);
    app.input.as_mut().unwrap().value = "jpn".into();
    app.commit_input();
    disk.save_current(&mut app);
    assert!(!app.status_error, "{}", app.status);

    verify(&disk);
    let mkv = disk.open().unwrap();
    let t = &mkv.tracks_view()[4];
    assert_eq!(t.name.as_deref(), Some("Signs and songs"));
    assert_eq!(t.language, "jpn");
}

#[test]
fn every_other_track_property_is_preserved() {
    let mut disk = Disk::new(build_file(tracks_explicit(), 64));
    let describe = |disk: &Disk| -> Vec<String> {
        disk.open()
            .unwrap()
            .tracks_view()
            .iter()
            .map(|t| {
                format!(
                    "{} {} {} {} {:?} {:?} {} {} {} {:?}",
                    t.number,
                    t.uid,
                    t.ttype,
                    t.codec_id,
                    t.name,
                    t.language,
                    t.default.value,
                    t.forced.value,
                    t.enabled.value,
                    t.audio.as_ref().map(|a| (a.channels, a.sampling_frequency)),
                )
            })
            .collect()
    };
    let before = describe(&disk);

    let mut app = disk.app();
    app.select_track(1);
    app.toggle_flag(id::FLAG_COMMENTARY);
    app.toggle_flag(id::FLAG_COMMENTARY); // back to where it started
    disk.save_current(&mut app);
    assert!(!app.status_error, "{}", app.status);

    assert_eq!(before, describe(&disk));
    // The flag was written out explicitly, but its value is the default.
    let t = &disk.open().unwrap().tracks_view()[1];
    assert!(!t.commentary.value);
}

#[test]
fn a_cluster_position_that_outgrows_its_field_is_widened() {
    // Small file with one byte cluster positions: after the edit the first
    // cluster sits past 255, so the Position element has to get wider.
    let tracks = Element::master(
        id::TRACKS,
        vec![
            track(1, 1, "V_VP9", "und", "", vec![]),
            track(2, 2, "A_OPUS", "eng", "En", vec![]),
        ],
    );
    let mut disk = Disk::new(build(tracks, 0, 1, 20));

    let first = disk.open().unwrap();
    let first_cluster = first
        .top
        .iter()
        .find(|c| c.id == id::CLUSTER)
        .map(|c| c.start - first.segment_data_start)
        .unwrap();
    assert!(first_cluster < 256, "the fixture should start with a one byte position");

    let mut mkv = disk.open().unwrap();
    let entries = mkv.tracks.children_mut().unwrap();
    entries[1].set_string(id::TRACK_NAME, &"x".repeat(200), 3);
    let report = disk.save(&mkv, false).unwrap();
    assert_eq!(report.mode, SaveMode::Rewrite, "{}", report.message);

    verify(&disk);
    let mkv = disk.open().unwrap();
    let cluster_rel = mkv
        .top
        .iter()
        .find(|c| c.id == id::CLUSTER)
        .map(|c| c.start - mkv.segment_data_start)
        .unwrap();
    assert!(cluster_rel > 255, "the cluster should have moved past a one byte position");
}

#[test]
fn a_crc32_inside_tracks_is_recomputed() {
    // Start with a deliberately wrong checksum: saving must correct it.
    let mut children = vec![Element::data(id::CRC32, vec![0, 0, 0, 0])];
    children.extend(tracks_explicit().children().to_vec());
    let mut disk = Disk::new(build_file(Element::master(id::TRACKS, children), 64));

    let mut app = disk.app();
    app.select_track(2);
    app.make_default();
    disk.save_current(&mut app);
    assert!(!app.status_error, "{}", app.status);
    verify(&disk);

    let mkv = disk.open().unwrap();
    let c = mkv.tracks_child();
    let payload = &disk.bytes[c.data_start() as usize..c.end() as usize];
    // The CRC-32 element comes first and covers everything after it.
    assert_eq!(payload[0], 0xBF);
    assert_eq!(payload[1], 0x84);
    let stored = u32::from_le_bytes([payload[2], payload[3], payload[4], payload[5]]);
    assert_eq!(stored, ebml::crc32(&payload[6..]), "the checksum was not recomputed");
    assert_ne!(stored, 0);
}

#[test]
fn opening_stops_at_the_first_cluster() {
    let disk = Disk::new(build_file(tracks_explicit(), 64));
    let mkv = disk.open().unwrap();
    assert_eq!(mkv.scan, Scan::StoppedAtClusters);
    let cluster = mkv.top.last().unwrap();
    assert_eq!(cluster.id, id::CLUSTER);
    // Nothing past the header of that cluster matters.
    let mut other = disk.bytes.clone();
    for b in other[cluster.data_start() as usize..].iter_mut() {
        *b = 0;
    }
    let again = MkvFile::open(path("a.mkv"), &other, None).unwrap();
    assert_eq!(again.tracks.to_bytes(), mkv.tracks.to_bytes());
    assert_eq!(again.top.len(), mkv.top.len());
    // A full walk sees every child.
    assert_eq!(mkv.scan_all(&disk.bytes).unwrap().len(), 7);
}

#[test]
fn a_save_in_place_touches_nothing_else() {
    let mut disk = Disk::new(build_file(tracks_explicit(), 64));
    let before = disk.bytes.clone();
    let mut mkv = disk.open().unwrap();
    let c = *mkv.tracks_child();
    mkv.tracks.children_mut().unwrap()[1].set_uint(id::FLAG_FORCED, 1, 3);
    let report = disk.save(&mkv, false).unwrap();
    let len = mkv.tracks.payload_bytes().len();
    let pad = c.total_len() + 64 - mkv.tracks.to_bytes().len() as u64;
    assert_eq!(report.message, format!("saved in place ({len} bytes of Tracks, {pad} padding)"));
    let (from, to) = (c.start as usize, c.end() as usize + 64);
    assert_eq!(disk.bytes[..from], before[..from]);
    assert_eq!(disk.bytes[to..], before[to..]);
    assert_eq!(disk.open().unwrap().tracks.to_bytes(), mkv.tracks.to_bytes());
}

#[test]
fn what_a_rewrite_reports() {
    let mut disk = Disk::new(build_file(tracks_implicit(), 0));
    let copied = disk.bytes.len();
    let mut mkv = disk.open().unwrap();
    let old = mkv.tracks.to_bytes().len();
    mkv.tracks.children_mut().unwrap()[0].set_string(id::TRACK_NAME, &"y".repeat(100), 3);
    let grew = mkv.tracks.to_bytes().len() - old;
    let report = disk.save(&mkv, false).unwrap();
    assert_eq!(
        report.message,
        format!("rewrote a.mkv (Tracks grew by {grew} bytes, {copied} bytes copied)")
    );
    verify(&disk);
}

#[test]
fn a_file_that_changed_is_refused() {
    let mut disk = Disk::new(build_file(tracks_explicit(), 64));
    let mkv = disk.open().unwrap();
    let why = "the file changed on disk since it was read; press u to reload it";
    disk.modified = Some(Timestamp { secs: 5, nanos: 0 });
    assert_eq!(disk.save(&mkv, false).err().unwrap(), why);
    disk.modified = mkv.modified;
    disk.bytes.push(0);
    assert_eq!(disk.save(&mkv, false).err().unwrap(), why);
    disk.bytes.pop();
    assert!(disk.save(&mkv, false).is_ok());
}

#[test]
fn what_cannot_be_opened_says_why() {
    let open = |bytes: &[u8]| MkvFile::open(path("a.mkv"), bytes, None).err().unwrap();
    assert_eq!(open(b""), "no Segment element found");
    assert_eq!(open(&ebml_header()), "no Segment element found");
    assert_eq!(open(b"not a matroska file at all"), "not a Matroska file (top level ID 0x6E6F)");
    assert_eq!(open(&[0x1A, 0x45, 0xDF, 0xA3, 0, 0, 0, 0]), "bad element size at 0");
    assert_eq!(
        open(&[0xA3, 0x81, 0, 0, 0, 0, 0, 0]),
        "not a Matroska file (top level ID 0xA3)"
    );
    assert_eq!(open(&[0, 0, 0, 0, 0, 0]), "bad element ID at 0");
    assert_eq!(
        open(&[0x1A, 0x45, 0xDF, 0xA3, 0xFF, 0, 0, 0]),
        "EBML header has an unknown size"
    );
    let segment = |payload: &[u8]| {
        let mut out = ebml_header();
        ebml::write_id(&mut out, id::SEGMENT);
        ebml::write_size(&mut out, payload.len() as u64);
        out.extend_from_slice(payload);
        out
    };
    assert_eq!(open(&segment(&info().to_bytes())), "no Tracks element found");
    assert_eq!(
        open(&segment(&[0x16, 0x54, 0xAE, 0x6B, 0x82, 0xAE, 0x85])),
        "Tracks: element runs past the end of its parent"
    );
    // The element says that it is longer than anything that would be believed.
    // It also runs past the Segment, unless that is of unknown size and the
    // file is as long.
    assert_eq!(
        open(&segment(&[0x16, 0x54, 0xAE, 0x6B, 0x08, 0x10, 0, 0, 0])),
        "no Tracks element found"
    );
}

#[test]
fn an_implausible_tracks_element_is_refused() {
    let mut out = ebml_header();
    ebml::write_id(&mut out, id::SEGMENT);
    out.push(0xFF);
    ebml::write_id(&mut out, id::TRACKS);
    ebml::write_size(&mut out, 64 * 1024 * 1024 + 1);
    out.resize(out.len() + 64 * 1024 * 1024 + 1, 0);
    let e = MkvFile::open(path("a.mkv"), &out, None).err().unwrap();
    assert_eq!(e, "Tracks element is implausibly large");
}

/// A file whose first cluster has no length.
fn streamed(tracks: Element) -> Vec<u8> {
    let mut out = ebml_header();
    ebml::write_id(&mut out, id::SEGMENT);
    out.push(0xFF);
    out.extend(tracks.to_bytes());
    ebml::write_id(&mut out, id::CLUSTER);
    out.push(0xFF);
    out.extend([0xE7, 0x81, 0]);
    out
}

#[test]
fn a_streamed_file_can_be_edited_in_place_but_not_rewritten() {
    let mut disk = Disk::new(streamed(tracks_explicit()));
    let mut mkv = disk.open().unwrap();
    let at = mkv.tracks_child().end();
    let why = format!("element 0x1F43B675 at {at} has an unknown size");
    assert_eq!(mkv.scan, Scan::Blocked(why.clone()));
    mkv.tracks.children_mut().unwrap()[0].set_uint(id::FLAG_DEFAULT, 0, 3);
    assert_eq!(disk.save(&mkv, false).unwrap().mode, SaveMode::InPlace);
    let mut mkv = disk.open().unwrap();
    mkv.tracks.children_mut().unwrap()[0].set_uint(id::FLAG_FORCED, 1, 3);
    assert_eq!(
        disk.save(&mkv, false).err().unwrap(),
        format!(
            "the Tracks element needs more room, but this file cannot be rewritten safely: {why}"
        )
    );
}

#[test]
fn a_file_cut_short_is_blocked() {
    let mut bytes = build_file(tracks_explicit(), 0);
    bytes.truncate(bytes.len() - 30);
    let mkv = MkvFile::open(path("a.mkv"), &bytes, None).unwrap();
    let e = mkv.scan_all(&bytes).err().unwrap();
    assert!(e.starts_with("element 0x1C53BB6B at "), "{e}");
    assert!(e.ends_with(" runs past the Segment"), "{e}");
}

#[test]
fn a_broken_index_stops_a_rewrite() {
    let mut bytes = build_file(tracks_implicit(), 0);
    let mkv = MkvFile::open(path("a.mkv"), &bytes, None).unwrap();
    let top = mkv.scan_all(&bytes).unwrap();
    let cues = top.iter().find(|c| c.id == id::CUES).unwrap();
    bytes[cues.data_start() as usize] = 0;
    let mut mkv = MkvFile::open(path("a.mkv"), &bytes, None).unwrap();
    mkv.tracks.children_mut().unwrap()[0].set_uint(id::FLAG_FORCED, 1, 3);
    assert_eq!(
        edit::save(&mkv, &bytes, None).err().unwrap(),
        "parsing 0x1C53BB6B: bad element ID"
    );
}

#[test]
fn a_position_that_claims_more_than_its_cluster_stops_a_rewrite() {
    let mut bytes = build_file(tracks_implicit(), 0);
    let mkv = MkvFile::open(path("a.mkv"), &bytes, None).unwrap();
    let cluster = *mkv.top.iter().find(|c| c.id == id::CLUSTER).unwrap();
    // Timestamp is three bytes; behind it stands the header of Position.
    let at = cluster.data_start() as usize + 3;
    assert_eq!(bytes[at], 0xA7);
    bytes[at + 1] = 0x10;
    bytes[at + 2] = 0xFF;
    let mut mkv = MkvFile::open(path("a.mkv"), &bytes, None).unwrap();
    mkv.tracks.children_mut().unwrap()[0].set_uint(id::FLAG_FORCED, 1, 3);
    assert_eq!(
        edit::save(&mkv, &bytes, None).err().unwrap(),
        "unexpected end of file while copying"
    );
}

#[test]
fn elements_that_are_not_understood_survive_a_rewrite() {
    let mut tracks = tracks_implicit();
    let odd = Element::data(0x63CA, vec![9, 8, 7, 6]);
    tracks.children_mut().unwrap()[2].children_mut().unwrap().push(odd.clone());
    let mut disk = Disk::new(build_file(tracks, 0));
    let mut mkv = disk.open().unwrap();
    mkv.tracks.children_mut().unwrap()[0].set_string(id::TRACK_NAME, "A name", 3);
    assert_eq!(disk.save(&mkv, false).unwrap().mode, SaveMode::Rewrite);
    verify(&disk);
    let again = disk.open().unwrap();
    let kept = again.tracks.children()[2].find(0x63CA).unwrap();
    assert_eq!(kept.to_bytes(), odd.to_bytes());
}

#[test]
fn padded_sizes_survive_a_save_in_place_and_a_rewrite() {
    // An entry with a content encoding and codec private data, all of whose sizes
    // are longer than they need.
    let kept = [
        vec![0x63, 0xA2, 0x40, 0x01, 0x41],
        vec![0x6D, 0x80, 0x10, 0, 0, 5, 0x50, 0x31, 0x40, 0x01, 3],
    ]
    .concat();
    let entry = [vec![0xD7, 0x40, 0x01, 1, 0x83, 0x40, 0x01, 2], kept.clone()].concat();
    let whole = [vec![0xAE, 0x08, 0, 0, 0, entry.len() as u8], entry].concat();
    for (padding, mode) in [(64, SaveMode::InPlace), (0, SaveMode::Rewrite)] {
        let mut entries = ebml::parse_children(&whole).unwrap();
        entries.push(track(2, 2, "A_OPUS", "eng", "En", vec![]));
        let mut disk = Disk::new(build_file(Element::master(id::TRACKS, entries), padding));
        assert!(disk.bytes.windows(whole.len()).any(|w| w == whole));
        // The other track is changed.
        let mut mkv = disk.open().unwrap();
        mkv.tracks.children_mut().unwrap()[1].set_uint(id::FLAG_FORCED, 1, 3);
        assert_eq!(disk.save(&mkv, false).unwrap().mode, mode);
        verify(&disk);
        assert!(disk.bytes.windows(whole.len()).any(|w| w == whole));
        // The track itself is changed.
        let mut mkv = disk.open().unwrap();
        mkv.tracks.children_mut().unwrap()[0].set_string(id::TRACK_NAME, "A name", 2);
        disk.save(&mkv, false).unwrap();
        verify(&disk);
        assert!(!disk.bytes.windows(whole.len()).any(|w| w == whole));
        assert!(disk.bytes.windows(kept.len()).any(|w| w == kept));
        let again = disk.open().unwrap();
        assert_eq!(again.tracks_view()[0].name.as_deref(), Some("A name"));
    }
}

#[test]
fn the_files_beside_a_saved_one_have_their_names() {
    assert_eq!(temp_name(&path("a.mkv")), ".a.mkv.mkvtrack-tmp");
    assert_eq!(temp_name(&FilePath { shown: "/".to_string(), name: None }), "..mkvtrack-tmp");
}

/// A file of Tracks and clusters with these payloads, and bytes behind its
/// Segment.
fn plain_file(tracks: &Element, payloads: &[Vec<u8>], behind: &[u8]) -> Vec<u8> {
    let mut body = tracks.to_bytes();
    for payload in payloads {
        ebml::write_id(&mut body, id::CLUSTER);
        ebml::write_size(&mut body, payload.len() as u64);
        body.extend(payload);
    }
    let mut out = ebml_header();
    ebml::write_id(&mut out, id::SEGMENT);
    ebml::write_size(&mut out, body.len() as u64);
    out.extend(body);
    out.extend(behind);
    out
}

/// One audio track with a name.
fn one_track(name: &str) -> Element {
    Element::master(id::TRACKS, vec![track(1, 2, "A_OPUS", "eng", name, vec![])])
}

/// What each cluster of a file records of its position, where that is, and the
/// rest of its payload behind the Position element.
fn recorded(bytes: &[u8]) -> Vec<(u64, u64, Vec<u8>)> {
    let mkv = MkvFile::open(path("a.mkv"), bytes, None).unwrap();
    let top = mkv.scan_all(bytes).unwrap();
    top.iter()
        .filter(|c| c.id == id::CLUSTER)
        .map(|c| {
            let payload = &bytes[c.data_start() as usize..c.end() as usize];
            let slot = find_position_slot(payload).unwrap();
            let from = (slot.off + slot.header_len) as usize;
            let to = from + slot.size as usize;
            let value = ebml::read_uint(&payload[from..to]);
            (value, c.start - mkv.segment_data_start, payload[to..].to_vec())
        })
        .collect()
}

/// Gives the file a track name so long that it has to be rewritten.
fn rewrite_with_long_name(disk: &mut Disk) {
    let mut mkv = disk.open().unwrap();
    mkv.tracks.children_mut().unwrap()[0].set_string(id::TRACK_NAME, &"x".repeat(300), 3);
    let report = disk.save(&mkv, false).unwrap();
    assert_eq!(report.mode, SaveMode::Rewrite, "{}", report.message);
    let again = disk.open().unwrap();
    assert_eq!(again.tracks_view()[0].name.as_deref(), Some(&*"x".repeat(300)));
}

#[test]
fn a_padded_position_is_widened_without_moving_the_cluster_end() {
    let rest = vec![0xA3, 0x85, 0x81, 0, 0, 0x80, 9];
    // One byte of value behind a size of one, two, three and eight bytes.
    for head in [
        vec![0xA7, 0x81],
        vec![0xA7, 0x40, 0x01],
        vec![0xA7, 0x20, 0x00, 0x01],
        vec![0xA7, 0x01, 0, 0, 0, 0, 0, 0, 0x01],
    ] {
        let payload = [vec![0xE7, 0x81, 0], head, vec![0x33], rest.clone()].concat();
        let mut disk = Disk::new(plain_file(&one_track("En"), &[payload.clone(), payload], &[]));
        rewrite_with_long_name(&mut disk);
        let found = recorded(&disk.bytes);
        assert_eq!(found.len(), 2);
        for (value, at, behind) in found {
            assert!(at > 255);
            assert_eq!(value, at);
            assert_eq!(behind, rest);
        }
    }
}

#[test]
fn a_position_behind_long_padding_is_corrected() {
    let rest = vec![0xA3, 0x85, 0x81, 0, 0, 0x80, 9];
    for (padding, value) in [(2000usize, vec![0, 0, 0x33]), (5000, vec![0x33])] {
        let payload = [
            vec![0xE7, 0x81, 0],
            ebml::void_of(padding),
            vec![0xA7, 0x80 | value.len() as u8],
            value,
            rest.clone(),
        ]
        .concat();
        let mut disk = Disk::new(plain_file(&one_track("En"), &[payload.clone(), payload], &[]));
        rewrite_with_long_name(&mut disk);
        for (value, at, behind) in recorded(&disk.bytes) {
            assert_eq!(value, at);
            assert_eq!(behind, rest);
        }
    }
}

#[test]
fn a_cluster_without_a_position_is_copied() {
    for payload in [vec![], vec![0xE7, 0x81, 0, 0xA3, 0x85, 0x81, 0, 0, 0x80, 9, 0xA7, 0x81, 1], vec![0xE7]] {
        let mut disk = Disk::new(plain_file(&one_track("En"), &[payload.clone()], &[]));
        rewrite_with_long_name(&mut disk);
        assert!(disk.bytes.ends_with(&payload));
    }
}

#[test]
fn bytes_behind_the_segment_stay() {
    let payload = vec![0xE7, 0x81, 0, 0xA7, 0x81, 0x33, 0xA3, 0x84, 0x81, 0, 0, 0x80];
    let behind = b"and this was appended by something else";
    let mut disk = Disk::new(plain_file(&one_track("En"), &[payload], behind));
    let old = disk.open().unwrap();
    assert_eq!(old.segment_end + behind.len() as u64, old.file_len);
    rewrite_with_long_name(&mut disk);
    let new = disk.open().unwrap();
    assert_eq!(new.segment_end + behind.len() as u64, new.file_len);
    assert_eq!(&disk.bytes[new.segment_end as usize..], behind);
    let top = new.scan_all(&disk.bytes).unwrap();
    assert_eq!(top.last().unwrap().end(), new.segment_end);
    for (value, at, _) in recorded(&disk.bytes) {
        assert_eq!(value, at);
    }
}
