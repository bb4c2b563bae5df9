//! What codecs and durations are called, and the line of a track in a plain
//! listing.

use vstd::prelude::*;
use vstd::string::*;

use crate::mkv::track::Track;
#[allow(unused_imports)]
use crate::ebml::track_type::type_label;
#[allow(unused_imports)]
use crate::mkv::language::name_view;
#[allow(unused_imports)]
use crate::mkv::track::{flag_words, shown_language, shown_name, TrackModel};
use crate::text::{
    ascii_lower, decimal_text, push_decimal, push_left_aligned, push_right_aligned, same_text,
};
#[allow(unused_imports)]
use crate::text::{decimal, joined, left_aligned, lower, right_aligned};

verus! {

/// Friendly names of audio codecs.
pub open spec fn audio_codec_name(id: Seq<char>) -> Option<Seq<char>> {
    if id == "A_AAC"@ {
        Some("AAC"@)
    } else if id == "A_AC3"@ {
        Some("AC-3"@)
    } else if id == "A_EAC3"@ {
        Some("E-AC-3"@)
    } else if id == "A_DTS"@ {
        Some("DTS"@)
    } else if id == "A_TRUEHD"@ {
        Some("TrueHD"@)
    } else if id == "A_FLAC"@ {
        Some("FLAC"@)
    } else if id == "A_OPUS"@ {
        Some("Opus"@)
    } else if id == "A_VORBIS"@ {
        Some("Vorbis"@)
    } else if id == "A_MPEG/L3"@ {
        Some("MP3"@)
    } else if id == "A_MPEG/L2"@ {
        Some("MP2"@)
    } else if id == "A_ALAC"@ {
        Some("ALAC"@)
    } else {
        None
    }
}

/// Friendly names of subtitle codecs.
pub open spec fn subtitle_codec_name(id: Seq<char>) -> Option<Seq<char>> {
    if id == "S_TEXT/UTF8"@ {
        Some("SubRip"@)
    } else if id == "S_TEXT/ASS"@ {
        Some("ASS"@)
    } else if id == "S_TEXT/SSA"@ {
        Some("SSA"@)
    } else if id == "S_TEXT/WEBVTT"@ {
        Some("WebVTT"@)
    } else if id == "S_HDMV/PGS"@ {
        Some("PGS"@)
    } else if id == "S_HDMV/TEXTST"@ {
        Some("TextST"@)
    } else if id == "S_VOBSUB"@ {
        Some("VobSub"@)
    } else if id == "S_DVBSUB"@ {
        Some("DVB sub"@)
    } else if id == "S_KATE"@ {
        Some("Kate"@)
    } else {
        None
    }
}

/// Friendly names of video codecs.
pub open spec fn video_codec_name(id: Seq<char>) -> Option<Seq<char>> {
    if id == "V_MPEG4/ISO/AVC"@ {
        Some("H.264"@)
    } else if id == "V_MPEGH/ISO/HEVC"@ {
        Some("H.265"@)
    } else if id == "V_AV1"@ {
        Some("AV1"@)
    } else if id == "V_VP9"@ {
        Some("VP9"@)
    } else if id == "V_VP8"@ {
        Some("VP8"@)
    } else if id == "V_MPEG2"@ {
        Some("MPEG-2"@)
    } else if id == "V_MS/VFW/FOURCC"@ {
        Some("VfW"@)
    } else {
        None
    }
}

fn audio_codec(id: &str) -> (r: Option<&'static str>)
    ensures
        name_view(r) == audio_codec_name(id@),
{
    if same_text(id, "A_AAC") {
        Some("AAC")
    } else if same_text(id, "A_AC3") {
        Some("AC-3")
    } else if same_text(id, "A_EAC3") {
        Some("E-AC-3")
    } else if same_text(id, "A_DTS") {
        Some("DTS")
    } else if same_text(id, "A_TRUEHD") {
        Some("TrueHD")
    } else if same_text(id, "A_FLAC") {
        Some("FLAC")
    } else if same_text(id, "A_OPUS") {
        Some("Opus")
    } else if same_text(id, "A_VORBIS") {
        Some("Vorbis")
    } else if same_text(id, "A_MPEG/L3") {
        Some("MP3")
    } else if same_text(id, "A_MPEG/L2") {
        Some("MP2")
    } else if same_text(id, "A_ALAC") {
        Some("ALAC")
    } else {
        None
    }
}

fn subtitle_codec(id: &str) -> (r: Option<&'static str>)
    ensures
        name_view(r) == subtitle_codec_name(id@),
{
    if same_text(id, "S_TEXT/UTF8") {
        Some("SubRip")
    } else if same_text(id, "S_TEXT/ASS") {
        Some("ASS")
    } else if same_text(id, "S_TEXT/SSA") {
        Some("SSA")
    } else if same_text(id, "S_TEXT/WEBVTT") {
        Some("WebVTT")
    } else if same_text(id, "S_HDMV/PGS") {
        Some("PGS")
    } else if same_text(id, "S_HDMV/TEXTST") {
        Some("TextST")
    } else if same_text(id, "S_VOBSUB") {
        Some("VobSub")
    } else if same_text(id, "S_DVBSUB") {
        Some("DVB sub")
    } else if same_text(id, "S_KATE") {
        Some("Kate")
    } else {
        None
    }
}

fn video_codec(id: &str) -> (r: Option<&'static str>)
    ensures
        name_view(r) == video_codec_name(id@),
{
    if same_text(id, "V_MPEG4/ISO/AVC") {
        Some("H.264")
    } else if same_text(id, "V_MPEGH/ISO/HEVC") {
        Some("H.265")
    } else if same_text(id, "V_AV1") {
        Some("AV1")
    } else if same_text(id, "V_VP9") {
        Some("VP9")
    } else if same_text(id, "V_VP8") {
        Some("VP8")
    } else if same_text(id, "V_MPEG2") {
        Some("MPEG-2")
    } else if same_text(id, "V_MS/VFW/FOURCC") {
        Some("VfW")
    } else {
        None
    }
}

/// What the IDs of uncompressed audio start with.
pub open spec fn is_pcm(id: Seq<char>) -> bool {
    id.len() >= "A_PCM/"@.len() && id.take("A_PCM/"@.len() as int) == "A_PCM/"@
}

/// Friendly name for the codecs that turn up in Matroska files. Any other ID is
/// its own name.
pub open spec fn codec_text(id: Seq<char>) -> Seq<char> {
    if audio_codec_name(id) is Some {
        audio_codec_name(id)->0
    } else if subtitle_codec_name(id) is Some {
        subtitle_codec_name(id)->0
    } else if video_codec_name(id) is Some {
        video_codec_name(id)->0
    } else if is_pcm(id) {
        "PCM "@ + lower(id.skip("A_PCM/"@.len() as int))
    } else {
        id
    }
}

/// Friendly name for the codecs that turn up in Matroska files.
pub fn codec_label(codec_id: &str) -> (r: String)
    ensures
        r@ == codec_text(codec_id@),
{
    if let Some(name) = audio_codec(codec_id) {
        return name.to_owned();
    }
    if let Some(name) = subtitle_codec(codec_id) {
        return name.to_owned();
    }
    if let Some(name) = video_codec(codec_id) {
        return name.to_owned();
    }
    proof {
        reveal_strlit("A_PCM/");
    }
    let n: usize = codec_id.unicode_len();
    if n >= 6 {
        let front = codec_id.substring_char(0, 6);
        assert(codec_id@.subrange(0, 6) =~= codec_id@.take(6));
        if same_text(front, "A_PCM/") {
            let mut out = "PCM ".to_owned();
            assert(codec_id@.subrange(6, n as int) =~= codec_id@.skip(6));
            out.append(&ascii_lower(codec_id.substring_char(6, n)));
            return out;
        }
    }
    codec_id.to_owned()
}

/// A number below a hundred in two digits.
pub open spec fn two_digits(n: nat) -> Seq<char> {
    if n < 10 {
        "0"@ + decimal(n)
    } else {
        decimal(n)
    }
}

/// A number of seconds as minutes and seconds, with hours in front where there
/// are any.
pub open spec fn duration_text(total: nat) -> Seq<char> {
    let h = total / 3600;
    let m = (total % 3600) / 60;
    let s = total % 60;
    if h > 0 {
        decimal(h) + ":"@ + two_digits(m) + ":"@ + two_digits(s)
    } else {
        decimal(m) + ":"@ + two_digits(s)
    }
}

fn push_two_digits(out: &mut String, n: u64)
    ensures
        final(out)@ == old(out)@ + two_digits(n as nat),
{
    let ghost before = out@;
    if n < 10 {
        out.append("0");
    }
    push_decimal(out, n);
    assert(out@ =~= before + two_digits(n as nat));
}

/// A number of whole seconds as minutes and seconds, with hours in front where
/// there are any.
pub fn fmt_duration(total: u64) -> (r: String)
    ensures
        r@ == duration_text(total as nat),
{
    let h: u64 = total / 3600;
    let m: u64 = (total % 3600) / 60;
    let s: u64 = total % 60;
    let mut out = String::new();
    if h > 0 {
        push_decimal(&mut out, h);
        out.append(":");
        push_two_digits(&mut out, m);
    } else {
        push_decimal(&mut out, m);
    }
    out.append(":");
    push_two_digits(&mut out, s);
    assert(out@ =~= duration_text(total as nat));
    out
}

/// The flags of a track in one text.
pub open spec fn flags_text(t: TrackModel) -> Seq<char> {
    joined(flag_words(t), " "@)
}

/// One line summary of a track: number, type, codec and language in columns,
/// then the name and the flags where there are any.
pub open spec fn plain_text(t: TrackModel) -> Seq<char> {
    "  "@ + right_aligned(decimal(t.number as nat), 3) + "  "@ + left_aligned(type_label(t.ttype), 9)
        + " "@ + left_aligned(codec_text(t.codec_id), 14) + " "@ + left_aligned(
        shown_language(t),
        6,
    ) + (if shown_name(t).len() > 0 {
        " "@ + shown_name(t)
    } else {
        Seq::empty()
    }) + (if flags_text(t).len() > 0 {
        "  ["@ + flags_text(t) + "]"@
    } else {
        Seq::empty()
    })
}

/// One line summary of a track, used by the non-interactive listing.
pub fn plain_line(t: &Track) -> (r: String)
    ensures
        r@ == plain_text(t@),
{
    let mut s = "  ".to_owned();
    push_right_aligned(&mut s, &decimal_text(t.number), 3);
    s.append("  ");
    push_left_aligned(&mut s, t.type_text(), 9);
    s.append(" ");
    push_left_aligned(&mut s, &codec_label(&t.codec_id), 14);
    s.append(" ");
    push_left_aligned(&mut s, &t.effective_language(), 6);
    let ghost columns = s@;
    let name = t.display_name();
    if !name.as_str().is_empty() {
        s.append(" ");
        s.append(&name);
    }
    let ghost named = s@;
    assert(named =~= columns + (if shown_name(t@).len() > 0 {
        " "@ + shown_name(t@)
    } else {
        Seq::empty()
    }));
    let flags = t.flag_summary();
    if !flags.as_str().is_empty() {
        s.append("  [");
        s.append(&flags);
        s.append("]");
    }
    assert(s@ =~= named + (if flags_text(t@).len() > 0 {
        "  ["@ + flags_text(t@) + "]"@
    } else {
        Seq::empty()
    }));
    s
}

} // verus!
