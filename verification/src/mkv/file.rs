//! A Matroska file that has been opened.

use vstd::prelude::*;
use vstd::string::*;

use crate::ebml::element::Element;
use crate::ebml::id;
use crate::ebml::value::FloatBits;
#[allow(unused_imports)]
use crate::ebml::node::Node;
use crate::mkv::child::{Scan, TopChild};
#[allow(unused_imports)]
use crate::mkv::child::ScanModel;
use crate::mkv::track::{get_text, tracks_of_element, Track};
#[allow(unused_imports)]
use crate::mkv::track::{not_empty, text_in, track_models, tracks_in};

verus! {

/// A path as it is shown: the whole of it, and its last component where it has
/// one. Both are text, with anything that is not valid text replaced.
#[derive(Debug)]
pub struct FilePath {
    pub shown: String,
    pub name: Option<String>,
}

/// The model of [`FilePath`].
pub struct PathModel {
    pub shown: Seq<char>,
    pub name: Option<Seq<char>>,
}

impl View for FilePath {
    type V = PathModel;

    open spec fn view(&self) -> PathModel {
        PathModel { shown: self.shown@, name: text_in(self.name) }
    }
}

/// A copy of an optional string.
pub fn copy_text(s: &Option<String>) -> (r: Option<String>)
    ensures
        text_in(r) == text_in(*s),
{
    match s {
        Some(t) => Some(t.clone()),
        None => None,
    }
}

impl Clone for FilePath {
    fn clone(&self) -> (r: FilePath)
        ensures
            r@ == self@,
    {
        FilePath { shown: self.shown.clone(), name: copy_text(&self.name) }
    }
}

/// A point in time, as seconds and nanoseconds since the epoch.
#[derive(Clone, Copy, Debug, PartialEq, Eq, Structural)]
pub struct Timestamp {
    pub secs: i64,
    pub nanos: u32,
}

#[derive(Debug)]
pub struct FileInfo {
    pub title: Option<String>,
    /// The duration in ticks of `timestamp_scale` nanoseconds.
    pub duration: Option<FloatBits>,
    pub timestamp_scale: u64,
    pub muxing_app: Option<String>,
    pub writing_app: Option<String>,
}

/// The model of [`FileInfo`].
pub struct InfoModel {
    pub title: Option<Seq<char>>,
    pub duration: Option<FloatBits>,
    pub timestamp_scale: u64,
    pub muxing_app: Option<Seq<char>>,
    pub writing_app: Option<Seq<char>>,
}

impl View for FileInfo {
    type V = InfoModel;

    open spec fn view(&self) -> InfoModel {
        InfoModel {
            title: text_in(self.title),
            duration: self.duration,
            timestamp_scale: self.timestamp_scale,
            muxing_app: text_in(self.muxing_app),
            writing_app: text_in(self.writing_app),
        }
    }
}

impl Clone for FileInfo {
    fn clone(&self) -> (r: FileInfo)
        ensures
            r@ == self@,
    {
        FileInfo {
            title: copy_text(&self.title),
            duration: self.duration,
            timestamp_scale: self.timestamp_scale,
            muxing_app: copy_text(&self.muxing_app),
            writing_app: copy_text(&self.writing_app),
        }
    }
}

/// Nanoseconds per tick where the file does not say.
pub const DEFAULT_TIMESTAMP_SCALE: u64 = 1_000_000;

/// What is known of a file without an Info element.
pub open spec fn no_info() -> InfoModel {
    InfoModel {
        title: None,
        duration: None,
        timestamp_scale: DEFAULT_TIMESTAMP_SCALE,
        muxing_app: None,
        writing_app: None,
    }
}

/// What an Info element says. A scale of zero counts as not stated.
pub open spec fn info_of(e: Node) -> InfoModel {
    InfoModel {
        title: not_empty(e.text(id::TITLE)),
        duration: e.float(id::DURATION),
        timestamp_scale: match e.uint(id::TIMESTAMP_SCALE) {
            Some(ts) => if ts > 0 {
                ts
            } else {
                DEFAULT_TIMESTAMP_SCALE
            },
            None => DEFAULT_TIMESTAMP_SCALE,
        },
        muxing_app: not_empty(e.text(id::MUXING_APP)),
        writing_app: not_empty(e.text(id::WRITING_APP)),
    }
}

impl Default for FileInfo {
    fn default() -> (r: FileInfo)
        ensures
            r@ == no_info(),
    {
        FileInfo {
            title: None,
            duration: None,
            timestamp_scale: DEFAULT_TIMESTAMP_SCALE,
            muxing_app: None,
            writing_app: None,
        }
    }
}

impl FileInfo {
    pub fn from_element(e: &Element) -> (r: FileInfo)
        ensures
            r@ == info_of(e@),
    {
        let timestamp_scale: u64 = match e.get_uint(id::TIMESTAMP_SCALE) {
            Some(ts) => if ts > 0 {
                ts
            } else {
                DEFAULT_TIMESTAMP_SCALE
            },
            None => DEFAULT_TIMESTAMP_SCALE,
        };
        FileInfo {
            title: get_text(e, id::TITLE),
            duration: e.get_float(id::DURATION),
            timestamp_scale,
            muxing_app: get_text(e, id::MUXING_APP),
            writing_app: get_text(e, id::WRITING_APP),
        }
    }
}

#[derive(Debug)]
pub struct MkvFile {
    pub path: FilePath,
    pub file_len: u64,
    /// Modification time when the file was read, used to notice a file that
    /// changed underneath us before a write.
    pub modified: Option<Timestamp>,
    pub segment_start: u64,
    pub segment_data_start: u64,
    /// Where the Segment payload ends on disk.
    pub segment_end: u64,
    /// Children of the Segment up to and including the first Cluster. Opening
    /// a file stops there: reading a track list needs nothing beyond it, and a
    /// full walk of a long film costs one read per cluster.
    pub top: Vec<TopChild>,
    pub scan: Scan,
    /// Index into `top` of the Tracks element.
    pub tracks_idx: usize,
    /// The parsed Tracks element. This is the editable model.
    pub tracks: Element,
    pub info: FileInfo,
}

/// The model of [`MkvFile`].
#[verifier::ext_equal]
pub struct MkvModel {
    pub path: PathModel,
    pub file_len: u64,
    pub modified: Option<Timestamp>,
    pub segment_start: u64,
    pub segment_data_start: u64,
    pub segment_end: u64,
    pub top: Seq<TopChild>,
    pub scan: ScanModel,
    pub tracks_idx: nat,
    pub tracks: Node,
    pub info: InfoModel,
}

impl View for MkvFile {
    type V = MkvModel;

    open spec fn view(&self) -> MkvModel {
        MkvModel {
            path: self.path@,
            file_len: self.file_len,
            modified: self.modified,
            segment_start: self.segment_start,
            segment_data_start: self.segment_data_start,
            segment_end: self.segment_end,
            top: self.top@,
            scan: self.scan@,
            tracks_idx: self.tracks_idx as nat,
            tracks: self.tracks@,
            info: self.info@,
        }
    }
}

impl Clone for MkvFile {
    fn clone(&self) -> (r: MkvFile)
        ensures
            r@ == self@,
    {
        let top = copy_children(&self.top);
        MkvFile {
            path: self.path.clone(),
            file_len: self.file_len,
            modified: self.modified,
            segment_start: self.segment_start,
            segment_data_start: self.segment_data_start,
            segment_end: self.segment_end,
            top,
            scan: self.scan.clone(),
            tracks_idx: self.tracks_idx,
            tracks: self.tracks.clone(),
            info: self.info.clone(),
        }
    }
}

/// A copy of a list of children.
pub fn copy_children(top: &Vec<TopChild>) -> (r: Vec<TopChild>)
    ensures
        r@ == top@,
{
    let mut r: Vec<TopChild> = Vec::new();
    let mut i: usize = 0;
    while i < top.len()
        invariant
            i <= top@.len(),
            r@ == top@.take(i as int),
        decreases top@.len() - i,
    {
        r.push(top[i]);
        i += 1;
        assert(r@ =~= top@.take(i as int));
    }
    assert(top@.take(i as int) =~= top@);
    r
}

impl MkvFile {
    pub fn tracks_view(&self) -> (r: Vec<Track>)
        ensures
            track_models(r@) == tracks_in(self@.tracks),
    {
        tracks_of_element(&self.tracks)
    }

    pub fn tracks_child(&self) -> (r: &TopChild)
        requires
            self.tracks_idx < self.top@.len(),
        ensures
            *r == self@.top[self@.tracks_idx as int],
    {
        &self.top[self.tracks_idx]
    }
}

} // verus!
