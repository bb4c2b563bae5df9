//! Track view model.

use vstd::prelude::*;
use vstd::string::*;

use crate::ebml::element::Element;
use crate::ebml::id;
use crate::ebml::track_type::track_type_name;
use crate::ebml::value::FloatBits;
#[allow(unused_imports)]
use crate::ebml::element::{lemma_nodes_index, lemma_nodes_len, node_of, nodes_of};
#[allow(unused_imports)]
use crate::ebml::node::{first_with, Node};
#[allow(unused_imports)]
use crate::ebml::track_type::type_label;
use crate::mkv::file::copy_text;
use crate::text::{join, push_decimal};
#[allow(unused_imports)]
use crate::text::{decimal, joined, texts};

verus! {

broadcast use {lemma_nodes_len, lemma_nodes_index};

/// A flag whose stored state is told apart from the value it has by default.
#[derive(Clone, Copy, Debug, PartialEq, Eq, Structural)]
pub struct Flag {
    pub value: bool,
    /// True when the file carries the element explicitly.
    pub explicit: bool,
}

/// A flag of a track entry: what the file says, or else the default.
pub open spec fn flag_of(entry: Node, id: u64, default: bool) -> Flag {
    match entry.uint(id) {
        Some(v) => Flag { value: v != 0, explicit: true },
        None => Flag { value: default, explicit: false },
    }
}

impl Flag {
    pub fn read(entry: &Element, id: u64, default: bool) -> (f: Flag)
        ensures
            f == flag_of(entry@, id, default),
    {
        match entry.get_uint(id) {
            Some(v) => Flag { value: v != 0, explicit: true },
            None => Flag { value: default, explicit: false },
        }
    }
}

#[derive(Clone, Copy, Debug)]
pub struct AudioInfo {
    pub channels: Option<u64>,
    pub sampling_frequency: Option<FloatBits>,
    pub output_sampling_frequency: Option<FloatBits>,
    pub bit_depth: Option<u64>,
}

/// The Audio element of a track entry.
pub open spec fn audio_of(a: Node) -> AudioInfo {
    AudioInfo {
        channels: a.uint(id::CHANNELS),
        sampling_frequency: a.float(id::SAMPLING_FREQUENCY),
        output_sampling_frequency: a.float(id::OUTPUT_SAMPLING_FREQUENCY),
        bit_depth: a.uint(id::BIT_DEPTH),
    }
}

#[derive(Clone, Copy, Debug)]
pub struct VideoInfo {
    pub pixel_width: Option<u64>,
    pub pixel_height: Option<u64>,
    pub display_width: Option<u64>,
    pub display_height: Option<u64>,
}

/// The Video element of a track entry.
pub open spec fn video_of(v: Node) -> VideoInfo {
    VideoInfo {
        pixel_width: v.uint(id::PIXEL_WIDTH),
        pixel_height: v.uint(id::PIXEL_HEIGHT),
        display_width: v.uint(id::DISPLAY_WIDTH),
        display_height: v.uint(id::DISPLAY_HEIGHT),
    }
}

#[derive(Debug)]
pub struct Track {
    /// Index into the children of the Tracks element.
    pub index: usize,
    pub number: u64,
    pub uid: u64,
    pub ttype: u64,
    pub codec_id: String,
    pub codec_name: Option<String>,
    pub name: Option<String>,
    pub language: String,
    pub language_explicit: bool,
    pub language_bcp47: Option<String>,
    pub default: Flag,
    pub forced: Flag,
    pub enabled: Flag,
    pub hearing_impaired: Flag,
    pub visual_impaired: Flag,
    pub text_descriptions: Flag,
    pub original: Flag,
    pub commentary: Flag,
    pub default_duration: Option<u64>,
    pub codec_delay: Option<u64>,
    pub codec_private_len: usize,
    pub compressed: bool,
    pub audio: Option<AudioInfo>,
    pub video: Option<VideoInfo>,
}

/// The model of [`Track`].
#[verifier::ext_equal]
pub struct TrackModel {
    pub index: nat,
    pub number: u64,
    pub uid: u64,
    pub ttype: u64,
    pub codec_id: Seq<char>,
    pub codec_name: Option<Seq<char>>,
    pub name: Option<Seq<char>>,
    pub language: Seq<char>,
    pub language_explicit: bool,
    pub language_bcp47: Option<Seq<char>>,
    pub default: Flag,
    pub forced: Flag,
    pub enabled: Flag,
    pub hearing_impaired: Flag,
    pub visual_impaired: Flag,
    pub text_descriptions: Flag,
    pub original: Flag,
    pub commentary: Flag,
    pub default_duration: Option<u64>,
    pub codec_delay: Option<u64>,
    pub codec_private_len: nat,
    pub compressed: bool,
    pub audio: Option<AudioInfo>,
    pub video: Option<VideoInfo>,
}

/// The text in an optional string.
pub open spec fn text_in(s: Option<String>) -> Option<Seq<char>> {
    match s {
        Some(t) => Some(t@),
        None => None,
    }
}

impl View for Track {
    type V = TrackModel;

    open spec fn view(&self) -> TrackModel {
        TrackModel {
            index: self.index as nat,
            number: self.number,
            uid: self.uid,
            ttype: self.ttype,
            codec_id: self.codec_id@,
            codec_name: text_in(self.codec_name),
            name: text_in(self.name),
            language: self.language@,
            language_explicit: self.language_explicit,
            language_bcp47: text_in(self.language_bcp47),
            default: self.default,
            forced: self.forced,
            enabled: self.enabled,
            hearing_impaired: self.hearing_impaired,
            visual_impaired: self.visual_impaired,
            text_descriptions: self.text_descriptions,
            original: self.original,
            commentary: self.commentary,
            default_duration: self.default_duration,
            codec_delay: self.codec_delay,
            codec_private_len: self.codec_private_len as nat,
            compressed: self.compressed,
            audio: self.audio,
            video: self.video,
        }
    }
}

impl Clone for Track {
    fn clone(&self) -> (r: Track)
        ensures
            r@ == self@,
    {
        Track {
            index: self.index,
            number: self.number,
            uid: self.uid,
            ttype: self.ttype,
            codec_id: self.codec_id.clone(),
            codec_name: copy_text(&self.codec_name),
            name: copy_text(&self.name),
            language: self.language.clone(),
            language_explicit: self.language_explicit,
            language_bcp47: copy_text(&self.language_bcp47),
            default: self.default,
            forced: self.forced,
            enabled: self.enabled,
            hearing_impaired: self.hearing_impaired,
            visual_impaired: self.visual_impaired,
            text_descriptions: self.text_descriptions,
            original: self.original,
            commentary: self.commentary,
            default_duration: self.default_duration,
            codec_delay: self.codec_delay,
            codec_private_len: self.codec_private_len,
            compressed: self.compressed,
            audio: self.audio,
            video: self.video,
        }
    }
}

/// The number that is stored, or zero.
pub open spec fn or_zero(v: Option<u64>) -> u64 {
    match v {
        Some(n) => n,
        None => 0,
    }
}

/// A text that is not empty.
pub open spec fn not_empty(s: Option<Seq<char>>) -> Option<Seq<char>> {
    match s {
        Some(t) => if t.len() == 0 {
            None
        } else {
            Some(t)
        },
        None => None,
    }
}

/// What a TrackEntry element says of its track. A value that the file does not
/// state is the one that Matroska gives it by default.
pub open spec fn track_of(index: nat, e: Node) -> TrackModel {
    TrackModel {
        index,
        number: or_zero(e.uint(id::TRACK_NUMBER)),
        uid: or_zero(e.uint(id::TRACK_UID)),
        ttype: or_zero(e.uint(id::TRACK_TYPE)),
        codec_id: match e.text(id::CODEC_ID) {
            Some(s) => s,
            None => Seq::empty(),
        },
        codec_name: not_empty(e.text(id::CODEC_NAME)),
        name: not_empty(e.text(id::TRACK_NAME)),
        language: match e.text(id::LANGUAGE) {
            Some(s) => s,
            None => "eng"@,
        },
        language_explicit: e.has(id::LANGUAGE),
        language_bcp47: not_empty(e.text(id::LANGUAGE_BCP47)),
        default: flag_of(e, id::FLAG_DEFAULT, true),
        forced: flag_of(e, id::FLAG_FORCED, false),
        enabled: flag_of(e, id::FLAG_ENABLED, true),
        hearing_impaired: flag_of(e, id::FLAG_HEARING_IMPAIRED, false),
        visual_impaired: flag_of(e, id::FLAG_VISUAL_IMPAIRED, false),
        text_descriptions: flag_of(e, id::FLAG_TEXT_DESCRIPTIONS, false),
        original: flag_of(e, id::FLAG_ORIGINAL, false),
        commentary: flag_of(e, id::FLAG_COMMENTARY, false),
        default_duration: e.uint(id::DEFAULT_DURATION),
        codec_delay: e.uint(id::CODEC_DELAY),
        codec_private_len: match e.find(id::CODEC_PRIVATE) {
            Some(c) => c.bytes().len(),
            None => 0,
        },
        compressed: e.has(id::CONTENT_ENCODINGS),
        audio: match e.find(id::AUDIO) {
            Some(a) => Some(audio_of(a)),
            None => None,
        },
        video: match e.find(id::VIDEO) {
            Some(v) => Some(video_of(v)),
            None => None,
        },
    }
}

/// The string of a child, unless it is missing or empty.
pub fn get_text(e: &Element, id: u64) -> (r: Option<String>)
    ensures
        text_in(r) == not_empty(e@.text(id)),
{
    match e.get_string(id) {
        Some(s) => {
            if s.as_str().is_empty() {
                None
            } else {
                Some(s)
            }
        },
        None => None,
    }
}

fn number_or_zero(v: Option<u64>) -> (r: u64)
    ensures
        r == or_zero(v),
{
    match v {
        Some(n) => n,
        None => 0,
    }
}

impl Track {
    pub fn from_entry(index: usize, e: &Element) -> (t: Track)
        ensures
            t@ == track_of(index as nat, e@),
    {
        let audio = match e.find(id::AUDIO) {
            Some(a) => Some(
                AudioInfo {
                    channels: a.get_uint(id::CHANNELS),
                    sampling_frequency: a.get_float(id::SAMPLING_FREQUENCY),
                    output_sampling_frequency: a.get_float(id::OUTPUT_SAMPLING_FREQUENCY),
                    bit_depth: a.get_uint(id::BIT_DEPTH),
                },
            ),
            None => None,
        };
        let video = match e.find(id::VIDEO) {
            Some(v) => Some(
                VideoInfo {
                    pixel_width: v.get_uint(id::PIXEL_WIDTH),
                    pixel_height: v.get_uint(id::PIXEL_HEIGHT),
                    display_width: v.get_uint(id::DISPLAY_WIDTH),
                    display_height: v.get_uint(id::DISPLAY_HEIGHT),
                },
            ),
            None => None,
        };
        let codec_id = match e.get_string(id::CODEC_ID) {
            Some(s) => s,
            None => String::new(),
        };
        let language = match e.get_string(id::LANGUAGE) {
            Some(s) => s,
            None => "eng".to_owned(),
        };
        let codec_private_len: usize = match e.find(id::CODEC_PRIVATE) {
            Some(c) => c.bytes().len(),
            None => 0,
        };
        Track {
            index,
            number: number_or_zero(e.get_uint(id::TRACK_NUMBER)),
            uid: number_or_zero(e.get_uint(id::TRACK_UID)),
            ttype: number_or_zero(e.get_uint(id::TRACK_TYPE)),
            codec_id,
            codec_name: get_text(e, id::CODEC_NAME),
            name: get_text(e, id::TRACK_NAME),
            language,
            language_explicit: e.find(id::LANGUAGE).is_some(),
            language_bcp47: get_text(e, id::LANGUAGE_BCP47),
            default: Flag::read(e, id::FLAG_DEFAULT, true),
            forced: Flag::read(e, id::FLAG_FORCED, false),
            enabled: Flag::read(e, id::FLAG_ENABLED, true),
            hearing_impaired: Flag::read(e, id::FLAG_HEARING_IMPAIRED, false),
            visual_impaired: Flag::read(e, id::FLAG_VISUAL_IMPAIRED, false),
            text_descriptions: Flag::read(e, id::FLAG_TEXT_DESCRIPTIONS, false),
            original: Flag::read(e, id::FLAG_ORIGINAL, false),
            commentary: Flag::read(e, id::FLAG_COMMENTARY, false),
            default_duration: e.get_uint(id::DEFAULT_DURATION),
            codec_delay: e.get_uint(id::CODEC_DELAY),
            codec_private_len,
            compressed: e.find(id::CONTENT_ENCODINGS).is_some(),
            audio,
            video,
        }
    }

    /// What the type of the track is called.
    pub fn type_text(&self) -> (r: &'static str)
        ensures
            r@ == type_label(self.ttype),
    {
        track_type_name(self.ttype)
    }

    /// The language shown to the user: a BCP-47 tag takes precedence.
    pub fn effective_language(&self) -> (r: String)
        ensures
            r@ == shown_language(self@),
    {
        match &self.language_bcp47 {
            Some(tag) => tag.clone(),
            None => self.language.clone(),
        }
    }

    pub fn display_name(&self) -> (r: String)
        ensures
            r@ == shown_name(self@),
    {
        match &self.name {
            Some(name) => name.clone(),
            None => String::new(),
        }
    }

    /// Compact flag column, e.g. "D F HI". A flag the file states explicitly
    /// is upper case; one that is only so by default is lower case.
    pub fn flag_summary(&self) -> (r: String)
        ensures
            r@ == joined(flag_words(self@), " "@),
    {
        let mut out: Vec<String> = Vec::new();
        assert(texts(out@) =~= Seq::<Seq<char>>::empty());
        push_if(&mut out, self.default.value, if self.default.explicit { "D" } else { "d" });
        push_if(&mut out, self.forced.value, if self.forced.explicit { "F" } else { "f" });
        push_if(&mut out, !self.enabled.value, "off");
        push_if(&mut out, self.hearing_impaired.value, "HI");
        push_if(&mut out, self.visual_impaired.value, "VI");
        push_if(&mut out, self.text_descriptions.value, "TD");
        push_if(&mut out, self.original.value, "Orig");
        push_if(&mut out, self.commentary.value, "Com");
        join(&out, " ")
    }

    pub fn channel_layout(&self) -> (r: String)
        ensures
            r@ == layout_text(self@),
    {
        let channels = match &self.audio {
            Some(a) => a.channels,
            None => None,
        };
        match channels {
            Some(n) => {
                if n == 1 {
                    "mono".to_owned()
                } else if n == 2 {
                    "stereo".to_owned()
                } else if n == 6 {
                    "5.1".to_owned()
                } else if n == 8 {
                    "7.1".to_owned()
                } else {
                    let mut s = String::new();
                    push_decimal(&mut s, n);
                    s.append("ch");
                    assert(s@ =~= decimal(n as nat) + "ch"@);
                    s
                }
            },
            None => String::new(),
        }
    }
}

/// Appends `s` where `b`.
pub fn push_if(out: &mut Vec<String>, b: bool, s: &str)
    ensures
        texts(final(out)@) == texts(old(out)@) + only_if(b, s@),
{
    if b {
        out.push(s.to_owned());
    }
    assert(texts(out@) =~= texts(old(out)@) + only_if(b, s@));
}

/// The language shown for a track.
pub open spec fn shown_language(t: TrackModel) -> Seq<char> {
    match t.language_bcp47 {
        Some(tag) => tag,
        None => t.language,
    }
}

/// The name shown for a track.
pub open spec fn shown_name(t: TrackModel) -> Seq<char> {
    match t.name {
        Some(name) => name,
        None => Seq::empty(),
    }
}

/// `s` alone where `b`, else nothing.
pub open spec fn only_if(b: bool, s: Seq<char>) -> Seq<Seq<char>> {
    if b {
        seq![s]
    } else {
        Seq::empty()
    }
}

/// The words for the flags of a track that are set, and for one that is
/// disabled.
pub open spec fn flag_words(t: TrackModel) -> Seq<Seq<char>> {
    let default_word = if t.default.explicit {
        "D"@
    } else {
        "d"@
    };
    let forced_word = if t.forced.explicit {
        "F"@
    } else {
        "f"@
    };
    Seq::<Seq<char>>::empty() + only_if(t.default.value, default_word) + only_if(
        t.forced.value,
        forced_word,
    ) + only_if(!t.enabled.value, "off"@) + only_if(t.hearing_impaired.value, "HI"@) + only_if(
        t.visual_impaired.value,
        "VI"@,
    ) + only_if(t.text_descriptions.value, "TD"@) + only_if(t.original.value, "Orig"@) + only_if(
        t.commentary.value,
        "Com"@,
    )
}

/// How the channels of a track are called.
pub open spec fn layout_text(t: TrackModel) -> Seq<char> {
    match t.audio {
        Some(a) => match a.channels {
            Some(n) => if n == 1 {
                "mono"@
            } else if n == 2 {
                "stereo"@
            } else if n == 6 {
                "5.1"@
            } else if n == 8 {
                "7.1"@
            } else {
                decimal(n as nat) + "ch"@
            },
            None => Seq::empty(),
        },
        None => Seq::empty(),
    }
}

// ---------------------------------------------------------------------------
// Track entries
// ---------------------------------------------------------------------------

/// The tracks among `nodes` from index `from` on.
pub open spec fn tracks_from(nodes: Seq<Node>, from: int) -> Seq<TrackModel>
    decreases nodes.len() - from,
{
    if from >= nodes.len() {
        Seq::empty()
    } else if nodes[from].id() == id::TRACK_ENTRY {
        seq![track_of(from as nat, nodes[from])] + tracks_from(nodes, from + 1)
    } else {
        tracks_from(nodes, from + 1)
    }
}

/// The tracks that a Tracks element holds, in order.
pub open spec fn tracks_in(tracks: Node) -> Seq<TrackModel> {
    tracks_from(tracks.children(), 0)
}

/// The models of tracks.
pub open spec fn track_models(v: Seq<Track>) -> Seq<TrackModel> {
    v.map_values(|t: Track| t@)
}

/// The tracks that a Tracks element holds, in order.
pub fn tracks_of_element(tracks: &Element) -> (r: Vec<Track>)
    ensures
        track_models(r@) == tracks_in(tracks@),
{
    let children = tracks.children();
    let mut out: Vec<Track> = Vec::new();
    let mut i: usize = 0;
    assert(track_models(out@) + tracks_from(tracks@.children(), 0) =~= tracks_in(tracks@));
    while i < children.len()
        invariant
            i <= children@.len(),
            nodes_of(children@) == tracks@.children(),
            track_models(out@) + tracks_from(tracks@.children(), i as int) == tracks_in(tracks@),
        decreases children@.len() - i,
    {
        assert(nodes_of(children@)[i as int] == node_of(children@[i as int]));
        if children[i].id == id::TRACK_ENTRY {
            let t = Track::from_entry(i, &children[i]);
            let ghost before = track_models(out@);
            let ghost rest = tracks_from(tracks@.children(), i + 1);
            out.push(t);
            assert(track_models(out@) =~= before.push(t@));
            assert(before + (seq![t@] + rest) =~= before.push(t@) + rest);
        }
        i += 1;
    }
    assert(track_models(out@) + Seq::<TrackModel>::empty() =~= track_models(out@));
    out
}

/// Every track of the list stands at its index, in order, and every entry is
/// in the list.
pub proof fn lemma_tracks_from(nodes: Seq<Node>, from: int)
    requires
        0 <= from <= nodes.len(),
    ensures
        forall|i: int|
            0 <= i < tracks_from(nodes, from).len() ==> {
                let t = #[trigger] tracks_from(nodes, from)[i];
                &&& from <= t.index < nodes.len()
                &&& nodes[t.index as int].id() == id::TRACK_ENTRY
                &&& t == track_of(t.index, nodes[t.index as int])
            },
    decreases nodes.len() - from,
{
    if from < nodes.len() {
        lemma_tracks_from(nodes, from + 1);
        let rest = tracks_from(nodes, from + 1);
        let all = tracks_from(nodes, from);
        assert forall|i: int| 0 <= i < all.len() implies {
            let t = #[trigger] all[i];
            &&& from <= t.index < nodes.len()
            &&& nodes[t.index as int].id() == id::TRACK_ENTRY
            &&& t == track_of(t.index, nodes[t.index as int])
        } by {
            if nodes[from].id() == id::TRACK_ENTRY {
                if i > 0 {
                    assert(all[i] == rest[i - 1]);
                }
            } else {
                assert(all[i] == rest[i]);
            }
        }
    }
}

// ---------------------------------------------------------------------------
// Where new children go
// ---------------------------------------------------------------------------

/// The first index from `from` on of a node that is neither a checksum nor
/// padding, or the length.
pub open spec fn first_kept(nodes: Seq<Node>, from: int) -> int
    decreases nodes.len() - from,
{
    if from >= nodes.len() || (nodes[from].id() != id::CRC32 && nodes[from].id() != id::VOID) {
        from
    } else {
        first_kept(nodes, from + 1)
    }
}

/// Where a newly created child of a TrackEntry goes: right after the type, or
/// else before the first child that is neither a checksum nor padding.
pub open spec fn insert_position(entry: Node) -> int {
    if entry.has(id::TRACK_TYPE) {
        entry.position(id::TRACK_TYPE) + 1
    } else {
        first_kept(entry.children(), 0)
    }
}

/// Where a newly created child element should go inside a TrackEntry. Right
/// after TrackType keeps the entry close to the order muxers use.
pub fn flag_insert_position(entry: &Element) -> (at: usize)
    ensures
        at == insert_position(entry@),
        at <= entry@.children().len(),
{
    let children = entry.children();
    let ghost nodes = entry@.children();
    let mut i: usize = 0;
    while i < children.len()
        invariant
            i <= children@.len(),
            nodes == nodes_of(children@),
            nodes == entry@.children(),
            entry@.position(id::TRACK_TYPE) == first_with(nodes, id::TRACK_TYPE, i as int),
        decreases children@.len() - i,
    {
        assert(nodes[i as int] == node_of(children@[i as int]));
        if children[i].id == id::TRACK_TYPE {
            return i + 1;
        }
        i += 1;
    }
    i = 0;
    while i < children.len()
        invariant
            i <= children@.len(),
            nodes == nodes_of(children@),
            nodes == entry@.children(),
            !entry@.has(id::TRACK_TYPE),
            first_kept(nodes, 0) == first_kept(nodes, i as int),
        decreases children@.len() - i,
    {
        assert(nodes[i as int] == node_of(children@[i as int]));
        let id = children[i].id;
        if id != id::CRC32 && id != id::VOID {
            return i;
        }
        i += 1;
    }
    children.len()
}

} // verus!
