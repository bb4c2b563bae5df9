//! Opening a file: which parts of it are read, and what comes of them.

use vstd::prelude::*;
use vstd::string::*;

use crate::ebml::element::Element;
use crate::ebml::id;
use crate::ebml::tree::parse_children;
use crate::ebml::vint::UNKNOWN;
#[allow(unused_imports)]
use crate::ebml::node::{parsed, Node};
use crate::mkv::child::{Scan, TopChild};
#[allow(unused_imports)]
use crate::mkv::child::ScanModel;
use crate::mkv::file::{copy_children, FileInfo, FilePath, MkvFile, Timestamp};
#[allow(unused_imports)]
use crate::mkv::file::{info_of, no_info, InfoModel, MkvModel, PathModel};
use crate::mkv::source::{read_header, read_image, HEADER_WINDOW, MAX_FILE_LEN};
#[allow(unused_imports)]
use crate::mkv::source::{answer, file_source, header_at, lemma_header_at, Source};
use crate::mkv::walk::{walk_segment, SegmentWalk};
#[allow(unused_imports)]
use crate::mkv::walk::walked;
use crate::text::push_hex;
#[allow(unused_imports)]
use crate::text::hex;

verus! {

/// The largest Tracks payload that is believed.
pub const MAX_TRACKS_SIZE: u64 = 64 * 1024 * 1024;

/// The smallest Info payload that is not looked into.
pub const INFO_SIZE_LIMIT: u64 = 1024 * 1024;

// ---------------------------------------------------------------------------
// What a source comes to
// ---------------------------------------------------------------------------

/// The Segment that stands at or after `pos`, past the EBML header and padding:
/// where it starts, its payload length and its header length.
pub open spec fn segment_from(src: Source, pos: u64, file_len: u64) -> Result<
    (u64, u64, u64),
    Seq<char>,
>
    decreases file_len - pos,
{
    if pos + 4 >= file_len {
        Err("no Segment element found"@)
    } else {
        match header_at(src, pos) {
            Err(e) => Err(e),
            Ok((id, size, header_len)) => if id == id::EBML_HEAD || id == id::VOID {
                if size == UNKNOWN {
                    Err("EBML header has an unknown size"@)
                } else if pos + header_len + size >= file_len {
                    Err("no Segment element found"@)
                } else {
                    proof {
                        lemma_header_at(src, pos);
                    }
                    segment_from(src, (pos + header_len + size) as u64, file_len)
                }
            } else if id == id::SEGMENT {
                Ok((pos, size, header_len))
            } else {
                Err("not a Matroska file (top level ID "@ + hex(id as nat) + ")"@)
            },
        }
    }
}

/// Where the payload of a Segment ends: where its size says, but not past the
/// end of the file.
pub open spec fn segment_end_of(data_start: int, size: u64, file_len: u64) -> u64 {
    if size == UNKNOWN || data_start + size > file_len {
        file_len
    } else {
        (data_start + size) as u64
    }
}

/// Where the Segment lies: its start, and where its payload starts and ends.
#[derive(Clone, Copy, Debug)]
pub struct SegmentSpot {
    pub start: u64,
    pub data_start: u64,
    pub end: u64,
}

/// What is known of a file before the Segment's children are looked at.
pub struct Located {
    pub path: PathModel,
    pub file_len: u64,
    pub modified: Option<Timestamp>,
    pub spot: SegmentSpot,
}

/// The index of the first child with the ID, or the number of children.
pub open spec fn child_index(top: Seq<TopChild>, id: u64, from: int) -> int
    decreases top.len() - from,
{
    if from >= top.len() || top[from].id == id {
        from
    } else {
        child_index(top, id, from + 1)
    }
}

pub proof fn lemma_child_index(top: Seq<TopChild>, id: u64, from: int)
    requires
        0 <= from <= top.len(),
    ensures
        from <= child_index(top, id, from) <= top.len(),
        child_index(top, id, from) < top.len() ==> top[child_index(top, id, from)].id == id,
        forall|i: int| from <= i < child_index(top, id, from) ==> (#[trigger] top[i]).id != id,
    decreases top.len() - from,
{
    if from < top.len() && top[from].id != id {
        lemma_child_index(top, id, from + 1);
    }
}

/// The read of the Info payload, where there is an Info element that is not too
/// large.
pub open spec fn info_read(top: Seq<TopChild>) -> Option<(u64, u64)> {
    let i = child_index(top, id::INFO, 0);
    if i < top.len() && top[i].size < INFO_SIZE_LIMIT {
        Some((top[i].data_at() as u64, top[i].size))
    } else {
        None
    }
}

/// What the answer to the read of the Info payload says. An Info element that
/// cannot be read or parsed is passed over.
pub open spec fn info_in(reply: Result<Seq<u8>, Seq<char>>) -> InfoModel {
    match reply {
        Ok(buf) => match parsed(buf) {
            Ok(children) => info_of(Node::branch(id::INFO, children)),
            Err(_) => no_info(),
        },
        Err(_) => no_info(),
    }
}

/// What a source says of the file in its Info element.
pub open spec fn info_from(src: Source, top: Seq<TopChild>) -> InfoModel {
    match info_read(top) {
        Some((pos, len)) => info_in(src(pos, len)),
        None => no_info(),
    }
}

/// An opened file, from its parts.
pub open spec fn opened(
    at: Located,
    top: Seq<TopChild>,
    scan: ScanModel,
    children: Seq<Node>,
    info: InfoModel,
) -> MkvModel {
    MkvModel {
        path: at.path,
        file_len: at.file_len,
        modified: at.modified,
        segment_start: at.spot.start,
        segment_data_start: at.spot.data_start,
        segment_end: at.spot.end,
        top,
        scan,
        tracks_idx: child_index(top, id::TRACKS, 0) as nat,
        tracks: Node::branch(id::TRACKS, children),
        info,
    }
}

/// The Tracks element's children in the answer to the read of its payload.
pub open spec fn tracks_parsed(reply: Result<Seq<u8>, Seq<char>>) -> Result<Seq<Node>, Seq<char>> {
    match reply {
        Err(e) => Err(e),
        Ok(buf) => match parsed(buf) {
            Err(e) => Err("Tracks: "@ + e),
            Ok(children) => Ok(children),
        },
    }
}

/// What comes of a file once the Segment's children are known.
pub open spec fn described(src: Source, at: Located, top: Seq<TopChild>, scan: ScanModel) -> Result<
    MkvModel,
    Seq<char>,
> {
    let i = child_index(top, id::TRACKS, 0);
    if i >= top.len() {
        Err("no Tracks element found"@)
    } else if top[i].size > MAX_TRACKS_SIZE {
        Err("Tracks element is implausibly large"@)
    } else {
        match tracks_parsed(src(top[i].data_at() as u64, top[i].size)) {
            Err(e) => Err(e),
            Ok(children) => Ok(opened(at, top, scan, children, info_from(src, top))),
        }
    }
}

/// Where the Segment with this start, size and header length lies.
pub open spec fn spot_of(segment: (u64, u64, u64), file_len: u64) -> SegmentSpot {
    let (start, size, header_len) = segment;
    SegmentSpot {
        start,
        data_start: (start + header_len) as u64,
        end: segment_end_of(start + header_len, size, file_len),
    }
}

/// What opening a file comes to, from the position `pos` of the search for the
/// Segment on.
pub open spec fn opened_from(
    src: Source,
    path: PathModel,
    file_len: u64,
    modified: Option<Timestamp>,
    pos: u64,
) -> Result<MkvModel, Seq<char>> {
    match segment_from(src, pos, file_len) {
        Err(e) => Err(e),
        Ok(segment) => {
            let spot = spot_of(segment, file_len);
            let (top, scan) = walked(src, spot.data_start, spot.end, true, false);
            described(src, Located { path, file_len, modified, spot }, top, scan)
        },
    }
}

/// What opening a file comes to.
pub open spec fn open_outcome(
    src: Source,
    path: PathModel,
    file_len: u64,
    modified: Option<Timestamp>,
) -> Result<MkvModel, Seq<char>> {
    opened_from(src, path, file_len, modified, 0)
}

/// The model of a result.
pub open spec fn opened_view(r: Result<MkvFile, String>) -> Result<MkvModel, Seq<char>> {
    match r {
        Ok(m) => Ok(m@),
        Err(e) => Err(e@),
    }
}

// ---------------------------------------------------------------------------
// Opening step by step
// ---------------------------------------------------------------------------

/// How far opening a file has come.
#[derive(Debug)]
pub enum OpenStage {
    /// Looking for the Segment.
    Seek { pos: u64 },
    /// Walking the Segment's children.
    Walk { spot: SegmentSpot, walk: SegmentWalk },
    /// Reading the Tracks payload.
    Tracks { spot: SegmentSpot, top: Vec<TopChild>, scan: Scan, tracks_idx: usize },
    /// Reading the Info payload.
    Info {
        spot: SegmentSpot,
        top: Vec<TopChild>,
        scan: Scan,
        tracks_idx: usize,
        tracks: Element,
        info_idx: usize,
    },
    Done(Result<MkvFile, String>),
}

/// A file that is being opened. It says which bytes it needs next, and takes
/// them.
#[derive(Debug)]
pub struct OpenTask {
    pub path: FilePath,
    pub file_len: u64,
    pub modified: Option<Timestamp>,
    pub stage: OpenStage,
}

/// Whether the Segment lies within the file.
pub open spec fn spot_fits(spot: SegmentSpot, file_len: u64) -> bool {
    spot.data_start <= MAX_FILE_LEN + 12 && spot.end <= file_len
}

/// Whether every child ends within the Segment.
pub open spec fn all_within(top: Seq<TopChild>, end: u64) -> bool {
    forall|i: int| 0 <= i < top.len() ==> (#[trigger] top[i]).end_at() <= end
}

impl OpenTask {
    pub open spec fn wf(self) -> bool {
        &&& self.file_len <= MAX_FILE_LEN
        &&& match self.stage {
            OpenStage::Seek { pos } => pos + 4 < self.file_len,
            OpenStage::Walk { spot, walk } => {
                &&& spot_fits(spot, self.file_len)
                &&& walk.wf()
                &&& walk.ended is None
                &&& walk.end == spot.end
            },
            OpenStage::Tracks { spot, top, scan, tracks_idx } => {
                &&& spot_fits(spot, self.file_len)
                &&& all_within(top@, spot.end)
                &&& tracks_idx == child_index(top@, id::TRACKS, 0)
                &&& tracks_idx < top@.len()
                &&& top@[tracks_idx as int].size <= MAX_TRACKS_SIZE
            },
            OpenStage::Info { spot, top, scan, tracks_idx, tracks, info_idx } => {
                &&& all_within(top@, spot.end)
                &&& tracks_idx == child_index(top@, id::TRACKS, 0)
                &&& tracks@ == Node::branch(id::TRACKS, tracks@.children())
                &&& info_idx == child_index(top@, id::INFO, 0)
                &&& info_idx < top@.len()
                &&& top@[info_idx as int].size < INFO_SIZE_LIMIT
                &&& spot_fits(spot, self.file_len)
            },
            OpenStage::Done(_) => true,
        }
    }

    /// What is known of the file, with the Segment at `spot`.
    pub open spec fn located(self, spot: SegmentSpot) -> Located {
        Located { path: self.path@, file_len: self.file_len, modified: self.modified, spot }
    }

    /// What opening the file comes to if the source is `src`.
    pub open spec fn outcome(self, src: Source) -> Result<MkvModel, Seq<char>> {
        match self.stage {
            OpenStage::Seek { pos } => opened_from(src, self.path@, self.file_len, self.modified, pos),
            OpenStage::Walk { spot, walk } => {
                let (top, scan) = walk.outcome(src);
                described(src, self.located(spot), top, scan)
            },
            OpenStage::Tracks { spot, top, scan, tracks_idx } => described(
                src,
                self.located(spot),
                top@,
                scan@,
            ),
            OpenStage::Info { spot, top, scan, tracks_idx, tracks, info_idx } => Ok(
                opened(self.located(spot), top@, scan@, tracks@.children(), info_from(src, top@)),
            ),
            OpenStage::Done(r) => opened_view(r),
        }
    }

    /// A bound on the reads that are left.
    pub open spec fn rank(self) -> nat {
        match self.stage {
            OpenStage::Seek { pos } => (self.file_len + 4 + self.file_len - pos) as nat,
            OpenStage::Walk { walk, .. } => 3 + walk.left(),
            OpenStage::Tracks { .. } => 2,
            OpenStage::Info { .. } => 1,
            OpenStage::Done(_) => 0,
        }
    }

    /// The read that the task needs next: position and length.
    pub open spec fn wanted(self) -> Option<(u64, u64)> {
        match self.stage {
            OpenStage::Seek { pos } => Some((pos, HEADER_WINDOW)),
            OpenStage::Walk { walk, .. } => Some((walk.pos, HEADER_WINDOW)),
            OpenStage::Tracks { top, tracks_idx, .. } => Some(
                (top@[tracks_idx as int].data_at() as u64, top@[tracks_idx as int].size),
            ),
            OpenStage::Info { top, info_idx, .. } => Some(
                (top@[info_idx as int].data_at() as u64, top@[info_idx as int].size),
            ),
            OpenStage::Done(_) => None,
        }
    }

    /// Starts opening a file of the given length.
    pub fn new(path: FilePath, file_len: u64, modified: Option<Timestamp>) -> (t: OpenTask)
        requires
            file_len <= MAX_FILE_LEN,
        ensures
            t.wf(),
            forall|src: Source| #[trigger]
                t.outcome(src) == open_outcome(src, path@, file_len, modified),
    {
        let stage = seek(file_len, 0);
        OpenTask { path, file_len, modified, stage }
    }

    /// The read that is needed next, as position and length. None once the file
    /// is open or has failed to open.
    pub fn wants(&self) -> (r: Option<(u64, u64)>)
        requires
            self.wf(),
        ensures
            r == self.wanted(),
    {
        match &self.stage {
            OpenStage::Seek { pos } => Some((*pos, HEADER_WINDOW)),
            OpenStage::Walk { walk, .. } => Some((walk.pos, HEADER_WINDOW)),
            OpenStage::Tracks { top, tracks_idx, .. } => {
                assert(top@[*tracks_idx as int].end_at() <= MAX_FILE_LEN);
                Some((top[*tracks_idx].data_start(), top[*tracks_idx].size))
            },
            OpenStage::Info { top, info_idx, .. } => {
                assert(top@[*info_idx as int].end_at() <= MAX_FILE_LEN);
                Some((top[*info_idx].data_start(), top[*info_idx].size))
            },
            OpenStage::Done(_) => None,
        }
    }

    /// What opening the file came to.
    pub fn finish(self) -> (r: Result<MkvFile, String>)
        requires
            self.stage is Done,
        ensures
            r == self.stage->Done_0,
    {
        match self.stage {
            OpenStage::Done(r) => r,
            _ => Err(String::new()),
        }
    }

    /// Takes the answer to the read that was asked for.
    pub fn supply(self, reply: Result<Vec<u8>, String>) -> (t: OpenTask)
        requires
            self.wf(),
            self.wanted() is Some,
        ensures
            t.wf(),
            t.rank() < self.rank(),
            forall|src: Source|
                #![trigger t.outcome(src)]
                src((self.wanted()->0).0, (self.wanted()->0).1) == answer(reply) ==> t.outcome(src)
                    == self.outcome(src),
    {
        let OpenTask { path, file_len, modified, stage } = self;
        match stage {
            OpenStage::Seek { pos } => after_header(path, file_len, modified, pos, &reply),
            OpenStage::Walk { spot, walk } => {
                let mut walk = walk;
                walk.supply(&reply);
                on_walk(path, file_len, modified, spot, walk)
            },
            OpenStage::Tracks { spot, top, scan, tracks_idx } => after_tracks(
                path,
                file_len,
                modified,
                spot,
                top,
                scan,
                tracks_idx,
                reply,
            ),
            OpenStage::Info { spot, top, scan, tracks_idx, tracks, info_idx } => {
                let info = info_from_reply(&reply);
                let m = MkvFile {
                    path,
                    file_len,
                    modified,
                    segment_start: spot.start,
                    segment_data_start: spot.data_start,
                    segment_end: spot.end,
                    top,
                    scan,
                    tracks_idx,
                    tracks,
                    info,
                };
                let t = OpenTask {
                    path: m.path.clone(),
                    file_len,
                    modified,
                    stage: OpenStage::Done(Ok(m)),
                };
                t
            },
            OpenStage::Done(r) => OpenTask { path, file_len, modified, stage: OpenStage::Done(r) },
        }
    }
}

/// What the answer to the read of the Info payload says.
fn info_from_reply(reply: &Result<Vec<u8>, String>) -> (r: FileInfo)
    ensures
        r@ == info_in(answer(*reply)),
{
    match reply {
        Ok(buf) => match parse_children(buf) {
            Ok(children) => FileInfo::from_element(&Element::master(id::INFO, children)),
            Err(_) => FileInfo::default(),
        },
        Err(_) => FileInfo::default(),
    }
}

/// The index of the first child with the ID, or the number of children.
pub fn child_position(top: &Vec<TopChild>, id: u64) -> (r: usize)
    ensures
        r == child_index(top@, id, 0),
        r <= top@.len(),
{
    let mut i: usize = 0;
    while i < top.len() && top[i].id != id
        invariant
            i <= top@.len(),
            child_index(top@, id, i as int) == child_index(top@, id, 0),
        decreases top@.len() - i,
    {
        i += 1;
    }
    i
}

/// The search for the Segment at `pos`, or its end where the file ends.
fn seek(file_len: u64, pos: u64) -> (r: OpenStage)
    requires
        file_len <= MAX_FILE_LEN,
    ensures
        if pos + 4 < file_len {
            r == (OpenStage::Seek { pos })
        } else {
            r matches OpenStage::Done(d) && d is Err && d->Err_0@ == "no Segment element found"@
        },
{
    if pos < file_len && file_len - pos > 4 {
        OpenStage::Seek { pos }
    } else {
        OpenStage::Done(Err("no Segment element found".to_owned()))
    }
}

/// The next stage once the header at `pos` has been read in search of the
/// Segment.
fn after_header(
    path: FilePath,
    file_len: u64,
    modified: Option<Timestamp>,
    pos: u64,
    reply: &Result<Vec<u8>, String>,
) -> (t: OpenTask)
    requires
        file_len <= MAX_FILE_LEN,
        pos + 4 < file_len,
    ensures
        t.wf(),
        t.rank() < file_len + 4 + file_len - pos,
        forall|src: Source|
            #![trigger t.outcome(src)]
            src(pos, HEADER_WINDOW) == answer(*reply) ==> t.outcome(src) == opened_from(
                src,
                path@,
                file_len,
                modified,
                pos,
            ),
{
    let t = match read_header(reply, pos) {
        Err(e) => OpenTask { path, file_len, modified, stage: OpenStage::Done(Err(e)) },
        Ok((eid, size, header_len)) => {
            if eid == id::EBML_HEAD || eid == id::VOID {
                let stage = if size == UNKNOWN {
                    OpenStage::Done(Err("EBML header has an unknown size".to_owned()))
                } else {
                    seek(file_len, pos + header_len + size)
                };
                OpenTask { path, file_len, modified, stage }
            } else if eid == id::SEGMENT {
                let data_start: u64 = pos + header_len;
                let end: u64 = if size == UNKNOWN || data_start + size > file_len {
                    file_len
                } else {
                    data_start + size
                };
                let spot = SegmentSpot { start: pos, data_start, end };
                // Walk the Segment's direct children, stopping at the clusters.
                // The walk only stops once Tracks has been seen, so a file that
                // puts Tracks after the clusters, which is unusual but legal,
                // still gets the full walk it needs.
                let walk = SegmentWalk::new(data_start, end, true);
                let t = on_walk(path, file_len, modified, spot, walk);
                proof {
                    assert forall|src: Source| #[trigger]
                        t.outcome(src) == described(
                            src,
                            Located { path: path@, file_len, modified, spot },
                            walked(src, data_start, end, true, false).0,
                            walked(src, data_start, end, true, false).1,
                        ) by {
                        assert(walk.outcome(src) == walked(src, data_start, end, true, false));
                    }
                    assert(spot == spot_of((pos, size, header_len), file_len));
                }
                t
            } else {
                let mut e = "not a Matroska file (top level ID ".to_owned();
                push_hex(&mut e, eid);
                e.append(")");
                OpenTask { path, file_len, modified, stage: OpenStage::Done(Err(e)) }
            }
        },
    };
    proof {
        assert forall|src: Source|
            #![trigger t.outcome(src)]
            src(pos, HEADER_WINDOW) == answer(*reply) implies t.outcome(src) == opened_from(
            src,
            path@,
            file_len,
            modified,
            pos,
        ) by {}
    }
    t
}

/// The next stage with the walk of the Segment's children as it is.
fn on_walk(
    path: FilePath,
    file_len: u64,
    modified: Option<Timestamp>,
    spot: SegmentSpot,
    walk: SegmentWalk,
) -> (t: OpenTask)
    requires
        file_len <= MAX_FILE_LEN,
        spot_fits(spot, file_len),
        walk.wf(),
        walk.end == spot.end,
    ensures
        t.wf(),
        t.rank() <= 3 + walk.left(),
        forall|src: Source|
            #![trigger t.outcome(src)]
            t.outcome(src) == described(
                src,
                Located { path: path@, file_len, modified, spot },
                walk.outcome(src).0,
                walk.outcome(src).1,
            ),
{
    if walk.ended.is_none() {
        return OpenTask { path, file_len, modified, stage: OpenStage::Walk { spot, walk } };
    }
    let (top, scan) = walk.finish();
    let tracks_idx: usize = child_position(&top, id::TRACKS);
    if tracks_idx >= top.len() {
        let e = "no Tracks element found".to_owned();
        return OpenTask { path, file_len, modified, stage: OpenStage::Done(Err(e)) };
    }
    if top[tracks_idx].size > MAX_TRACKS_SIZE {
        let e = "Tracks element is implausibly large".to_owned();
        return OpenTask { path, file_len, modified, stage: OpenStage::Done(Err(e)) };
    }
    OpenTask { path, file_len, modified, stage: OpenStage::Tracks { spot, top, scan, tracks_idx } }
}

/// The next stage once the Tracks payload has been read.
fn after_tracks(
    path: FilePath,
    file_len: u64,
    modified: Option<Timestamp>,
    spot: SegmentSpot,
    top: Vec<TopChild>,
    scan: Scan,
    tracks_idx: usize,
    reply: Result<Vec<u8>, String>,
) -> (t: OpenTask)
    requires
        file_len <= MAX_FILE_LEN,
        spot_fits(spot, file_len),
        all_within(top@, spot.end),
        tracks_idx == child_index(top@, id::TRACKS, 0),
        tracks_idx < top@.len(),
        top@[tracks_idx as int].size <= MAX_TRACKS_SIZE,
    ensures
        t.wf(),
        t.rank() <= 1,
        forall|src: Source|
            #![trigger t.outcome(src)]
            src(top@[tracks_idx as int].data_at() as u64, top@[tracks_idx as int].size) == answer(
                reply,
            ) ==> t.outcome(src) == described(
                src,
                Located { path: path@, file_len, modified, spot },
                top@,
                scan@,
            ),
{
    match reply {
        Err(e) => OpenTask { path, file_len, modified, stage: OpenStage::Done(Err(e)) },
        Ok(buf) => match parse_children(&buf) {
            Err(e) => {
                let mut why = "Tracks: ".to_owned();
                why.append(&e);
                OpenTask { path, file_len, modified, stage: OpenStage::Done(Err(why)) }
            },
            Ok(children) => {
                let tracks = Element::master(id::TRACKS, children);
                let info_idx: usize = child_position(&top, id::INFO);
                if info_idx < top.len() && top[info_idx].size < INFO_SIZE_LIMIT {
                    OpenTask {
                        path,
                        file_len,
                        modified,
                        stage: OpenStage::Info { spot, top, scan, tracks_idx, tracks, info_idx },
                    }
                } else {
                    let m = MkvFile {
                        path,
                        file_len,
                        modified,
                        segment_start: spot.start,
                        segment_data_start: spot.data_start,
                        segment_end: spot.end,
                        top,
                        scan,
                        tracks_idx,
                        tracks,
                        info: FileInfo::default(),
                    };
                    OpenTask {
                        path: m.path.clone(),
                        file_len,
                        modified,
                        stage: OpenStage::Done(Ok(m)),
                    }
                }
            },
        },
    }
}

impl MkvFile {
    /// Opens a file from an image of it.
    pub fn open(path: FilePath, image: &[u8], modified: Option<Timestamp>) -> (r: Result<
        MkvFile,
        String,
    >)
        requires
            image@.len() <= MAX_FILE_LEN,
        ensures
            opened_view(r) == open_outcome(
                file_source(image@),
                path@,
                image@.len() as u64,
                modified,
            ),
    {
        let ghost src = file_source(image@);
        let ghost want = open_outcome(src, path@, image@.len() as u64, modified);
        let mut task = OpenTask::new(path, image.len() as u64, modified);
        assert(task.outcome(src) == want);
        loop
            invariant
                task.wf(),
                src == file_source(image@),
                task.outcome(src) == want,
            ensures
                task.stage is Done,
            decreases task.rank(),
        {
            match task.wants() {
                None => {
                    break ;
                },
                Some((pos, len)) => {
                    let reply: Result<Vec<u8>, String> = Ok(read_image(image, pos, len));
                    assert(src(pos, len) == answer(reply));
                    let ghost before = task;
                    task = task.supply(reply);
                    assert(task.outcome(src) == before.outcome(src));
                },
            }
        }
        task.finish()
    }

    /// Every child of the Segment, walking past the clusters this time. Only
    /// the rewrite path needs this, so the cost is paid once, on the one file
    /// being written, rather than on every file the cursor passes over.
    pub fn scan_all(&self, image: &[u8]) -> (r: Result<Vec<TopChild>, String>)
        requires
            self.segment_end <= MAX_FILE_LEN,
        ensures
            match r {
                Ok(top) => all_children(file_source(image@), self@) == Ok::<Seq<TopChild>, Seq<char>>(
                    top@,
                ),
                Err(e) => all_children(file_source(image@), self@) == Err::<Seq<TopChild>, Seq<char>>(
                    e@,
                ),
            },
    {
        if let Scan::Complete = self.scan {
            return Ok(copy_children(&self.top));
        }
        let (top, scan) = walk_segment(image, self.segment_data_start, self.segment_end, false);
        match scan {
            Scan::Blocked(why) => Err(why),
            _ => Ok(top),
        }
    }
}

/// Every child of the Segment of an opened file.
pub open spec fn all_children(src: Source, m: MkvModel) -> Result<Seq<TopChild>, Seq<char>> {
    if m.scan is Complete {
        Ok(m.top)
    } else {
        let (top, scan) = walked(src, m.segment_data_start, m.segment_end, false, false);
        match scan {
            ScanModel::Blocked(why) => Err(why),
            _ => Ok(top),
        }
    }
}

} // verus!
