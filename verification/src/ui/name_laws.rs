//! What codecs, track types and languages are called.

use vstd::prelude::*;

#[allow(unused_imports)]
use crate::text::lower;
#[allow(unused_imports)]
use crate::ui::labels::{audio_codec_name, codec_text, subtitle_codec_name, video_codec_name};

verus! {

/// The known audio codecs, and what they are called.
pub open spec fn audio_codecs() -> Seq<(Seq<char>, Seq<char>)> {
    seq![
        ("A_AAC"@, "AAC"@),
        ("A_AC3"@, "AC-3"@),
        ("A_EAC3"@, "E-AC-3"@),
        ("A_DTS"@, "DTS"@),
        ("A_TRUEHD"@, "TrueHD"@),
        ("A_FLAC"@, "FLAC"@),
        ("A_OPUS"@, "Opus"@),
        ("A_VORBIS"@, "Vorbis"@),
        ("A_MPEG/L3"@, "MP3"@),
        ("A_MPEG/L2"@, "MP2"@),
        ("A_ALAC"@, "ALAC"@),
    ]
}

/// The known subtitle codecs, and what they are called.
pub open spec fn subtitle_codecs() -> Seq<(Seq<char>, Seq<char>)> {
    seq![
        ("S_TEXT/UTF8"@, "SubRip"@),
        ("S_TEXT/ASS"@, "ASS"@),
        ("S_TEXT/SSA"@, "SSA"@),
        ("S_TEXT/WEBVTT"@, "WebVTT"@),
        ("S_HDMV/PGS"@, "PGS"@),
        ("S_HDMV/TEXTST"@, "TextST"@),
        ("S_VOBSUB"@, "VobSub"@),
        ("S_DVBSUB"@, "DVB sub"@),
        ("S_KATE"@, "Kate"@),
    ]
}

/// The known video codecs, and what they are called.
pub open spec fn video_codecs() -> Seq<(Seq<char>, Seq<char>)> {
    seq![
        ("V_MPEG4/ISO/AVC"@, "H.264"@),
        ("V_MPEGH/ISO/HEVC"@, "H.265"@),
        ("V_AV1"@, "AV1"@),
        ("V_VP9"@, "VP9"@),
        ("V_VP8"@, "VP8"@),
        ("V_MPEG2"@, "MPEG-2"@),
        ("V_MS/VFW/FOURCC"@, "VfW"@),
    ]
}

/// The known codecs, and what they are called.
pub open spec fn codecs() -> Seq<(Seq<char>, Seq<char>)> {
    audio_codecs() + subtitle_codecs() + video_codecs()
}

/// How the ID of a codec begins: with the letter of its kind of track.
pub open spec fn begins(id: Seq<char>, c: char) -> bool {
    id.len() > 2 && id[0] == c && id[1] == '_'
}

/// What audio codecs are called.
proof fn lemma_audio_codecs()
    ensures
        forall|k: int| 0 <= k < audio_codecs().len() ==> audio_codec_name((#[trigger] audio_codecs()[k]).0) == Some(audio_codecs()[k].1),
        forall|k: int| 0 <= k < audio_codecs().len() ==> begins((#[trigger] audio_codecs()[k]).0, 'A'),
        forall|id: Seq<char>| (#[trigger] audio_codec_name(id)) is Some ==> begins(id, 'A') && exists|k: int|
            0 <= k < audio_codecs().len() && (#[trigger] audio_codecs()[k]).0 == id,
{
    reveal_strlit("A_AAC");
    reveal_strlit("A_AC3");
    reveal_strlit("A_EAC3");
    reveal_strlit("A_DTS");
    reveal_strlit("A_TRUEHD");
    reveal_strlit("A_FLAC");
    reveal_strlit("A_OPUS");
    reveal_strlit("A_VORBIS");
    reveal_strlit("A_MPEG/L3");
    reveal_strlit("A_MPEG/L2");
    reveal_strlit("A_ALAC");
    assert("A_AAC"@.len() == 5 && "A_AAC"@[2] == 'A' && "A_AAC"@[3] == 'A');
    assert("A_AC3"@.len() == 5 && "A_AC3"@[2] == 'A' && "A_AC3"@[3] == 'C');
    assert("A_EAC3"@.len() == 6 && "A_EAC3"@[2] == 'E');
    assert("A_DTS"@.len() == 5 && "A_DTS"@[2] == 'D');
    assert("A_TRUEHD"@.len() == 8 && "A_TRUEHD"@[2] == 'T');
    assert("A_FLAC"@.len() == 6 && "A_FLAC"@[2] == 'F');
    assert("A_OPUS"@.len() == 6 && "A_OPUS"@[2] == 'O');
    assert("A_VORBIS"@.len() == 8 && "A_VORBIS"@[2] == 'V');
    assert("A_MPEG/L3"@.len() == 9 && "A_MPEG/L3"@[8] == '3');
    assert("A_MPEG/L2"@.len() == 9 && "A_MPEG/L2"@[8] == '2');
    assert("A_ALAC"@.len() == 6 && "A_ALAC"@[2] == 'A');
    assert(audio_codec_name("A_AAC"@) == Some("AAC"@));
    assert(audio_codec_name("A_AC3"@) == Some("AC-3"@));
    assert(audio_codec_name("A_EAC3"@) == Some("E-AC-3"@));
    assert(audio_codec_name("A_DTS"@) == Some("DTS"@));
    assert(audio_codec_name("A_TRUEHD"@) == Some("TrueHD"@));
    assert(audio_codec_name("A_FLAC"@) == Some("FLAC"@));
    assert(audio_codec_name("A_OPUS"@) == Some("Opus"@));
    assert(audio_codec_name("A_VORBIS"@) == Some("Vorbis"@));
    assert(audio_codec_name("A_MPEG/L3"@) == Some("MP3"@));
    assert(audio_codec_name("A_MPEG/L2"@) == Some("MP2"@));
    assert(audio_codec_name("A_ALAC"@) == Some("ALAC"@));
    let rows = audio_codecs();
    assert(rows[0] == ("A_AAC"@, "AAC"@));
    assert(rows[1] == ("A_AC3"@, "AC-3"@));
    assert(rows[2] == ("A_EAC3"@, "E-AC-3"@));
    assert(rows[3] == ("A_DTS"@, "DTS"@));
    assert(rows[4] == ("A_TRUEHD"@, "TrueHD"@));
    assert(rows[5] == ("A_FLAC"@, "FLAC"@));
    assert(rows[6] == ("A_OPUS"@, "Opus"@));
    assert(rows[7] == ("A_VORBIS"@, "Vorbis"@));
    assert(rows[8] == ("A_MPEG/L3"@, "MP3"@));
    assert(rows[9] == ("A_MPEG/L2"@, "MP2"@));
    assert(rows[10] == ("A_ALAC"@, "ALAC"@));
    assert forall|id: Seq<char>| (#[trigger] audio_codec_name(id)) is Some implies begins(id, 'A') && exists|k: int|
        0 <= k < rows.len() && (#[trigger] rows[k]).0 == id by {
        assert(rows[0].0 == "A_AAC"@);
        assert(rows[1].0 == "A_AC3"@);
        assert(rows[2].0 == "A_EAC3"@);
        assert(rows[3].0 == "A_DTS"@);
        assert(rows[4].0 == "A_TRUEHD"@);
        assert(rows[5].0 == "A_FLAC"@);
        assert(rows[6].0 == "A_OPUS"@);
        assert(rows[7].0 == "A_VORBIS"@);
        assert(rows[8].0 == "A_MPEG/L3"@);
        assert(rows[9].0 == "A_MPEG/L2"@);
        assert(rows[10].0 == "A_ALAC"@);
    }
}

/// What subtitle codecs are called.
proof fn lemma_subtitle_codecs()
    ensures
        forall|k: int| 0 <= k < subtitle_codecs().len() ==> subtitle_codec_name((#[trigger] subtitle_codecs()[k]).0) == Some(subtitle_codecs()[k].1),
        forall|k: int| 0 <= k < subtitle_codecs().len() ==> begins((#[trigger] subtitle_codecs()[k]).0, 'S'),
        forall|id: Seq<char>| (#[trigger] subtitle_codec_name(id)) is Some ==> begins(id, 'S') && exists|k: int|
            0 <= k < subtitle_codecs().len() && (#[trigger] subtitle_codecs()[k]).0 == id,
{
    reveal_strlit("S_TEXT/UTF8");
    reveal_strlit("S_TEXT/ASS");
    reveal_strlit("S_TEXT/SSA");
    reveal_strlit("S_TEXT/WEBVTT");
    reveal_strlit("S_HDMV/PGS");
    reveal_strlit("S_HDMV/TEXTST");
    reveal_strlit("S_VOBSUB");
    reveal_strlit("S_DVBSUB");
    reveal_strlit("S_KATE");
    assert("S_TEXT/UTF8"@.len() == 11);
    assert("S_TEXT/ASS"@.len() == 10 && "S_TEXT/ASS"@[2] == 'T' && "S_TEXT/ASS"@[7] == 'A');
    assert("S_TEXT/SSA"@.len() == 10 && "S_TEXT/SSA"@[2] == 'T' && "S_TEXT/SSA"@[7] == 'S');
    assert("S_TEXT/WEBVTT"@.len() == 13 && "S_TEXT/WEBVTT"@[2] == 'T');
    assert("S_HDMV/PGS"@.len() == 10 && "S_HDMV/PGS"@[2] == 'H');
    assert("S_HDMV/TEXTST"@.len() == 13 && "S_HDMV/TEXTST"@[2] == 'H');
    assert("S_VOBSUB"@.len() == 8 && "S_VOBSUB"@[2] == 'V');
    assert("S_DVBSUB"@.len() == 8 && "S_DVBSUB"@[2] == 'D');
    assert("S_KATE"@.len() == 6);
    assert(subtitle_codec_name("S_TEXT/UTF8"@) == Some("SubRip"@));
    assert(subtitle_codec_name("S_TEXT/ASS"@) == Some("ASS"@));
    assert(subtitle_codec_name("S_TEXT/SSA"@) == Some("SSA"@));
    assert(subtitle_codec_name("S_TEXT/WEBVTT"@) == Some("WebVTT"@));
    assert(subtitle_codec_name("S_HDMV/PGS"@) == Some("PGS"@));
    assert(subtitle_codec_name("S_HDMV/TEXTST"@) == Some("TextST"@));
    assert(subtitle_codec_name("S_VOBSUB"@) == Some("VobSub"@));
    assert(subtitle_codec_name("S_DVBSUB"@) == Some("DVB sub"@));
    assert(subtitle_codec_name("S_KATE"@) == Some("Kate"@));
    let rows = subtitle_codecs();
    assert(rows[0] == ("S_TEXT/UTF8"@, "SubRip"@));
    assert(rows[1] == ("S_TEXT/ASS"@, "ASS"@));
    assert(rows[2] == ("S_TEXT/SSA"@, "SSA"@));
    assert(rows[3] == ("S_TEXT/WEBVTT"@, "WebVTT"@));
    assert(rows[4] == ("S_HDMV/PGS"@, "PGS"@));
    assert(rows[5] == ("S_HDMV/TEXTST"@, "TextST"@));
    assert(rows[6] == ("S_VOBSUB"@, "VobSub"@));
    assert(rows[7] == ("S_DVBSUB"@, "DVB sub"@));
    assert(rows[8] == ("S_KATE"@, "Kate"@));
    assert forall|id: Seq<char>| (#[trigger] subtitle_codec_name(id)) is Some implies begins(id, 'S') && exists|k: int|
        0 <= k < rows.len() && (#[trigger] rows[k]).0 == id by {
        assert(rows[0].0 == "S_TEXT/UTF8"@);
        assert(rows[1].0 == "S_TEXT/ASS"@);
        assert(rows[2].0 == "S_TEXT/SSA"@);
        assert(rows[3].0 == "S_TEXT/WEBVTT"@);
        assert(rows[4].0 == "S_HDMV/PGS"@);
        assert(rows[5].0 == "S_HDMV/TEXTST"@);
        assert(rows[6].0 == "S_VOBSUB"@);
        assert(rows[7].0 == "S_DVBSUB"@);
        assert(rows[8].0 == "S_KATE"@);
    }
}

/// What video codecs are called.
proof fn lemma_video_codecs()
    ensures
        forall|k: int| 0 <= k < video_codecs().len() ==> video_codec_name((#[trigger] video_codecs()[k]).0) == Some(video_codecs()[k].1),
        forall|k: int| 0 <= k < video_codecs().len() ==> begins((#[trigger] video_codecs()[k]).0, 'V'),
        forall|id: Seq<char>| (#[trigger] video_codec_name(id)) is Some ==> begins(id, 'V') && exists|k: int|
            0 <= k < video_codecs().len() && (#[trigger] video_codecs()[k]).0 == id,
{
    reveal_strlit("V_MPEG4/ISO/AVC");
    reveal_strlit("V_MPEGH/ISO/HEVC");
    reveal_strlit("V_AV1");
    reveal_strlit("V_VP9");
    reveal_strlit("V_VP8");
    reveal_strlit("V_MPEG2");
    reveal_strlit("V_MS/VFW/FOURCC");
    assert("V_MPEG4/ISO/AVC"@.len() == 15 && "V_MPEG4/ISO/AVC"@[3] == 'P');
    assert("V_MPEGH/ISO/HEVC"@.len() == 16);
    assert("V_AV1"@.len() == 5 && "V_AV1"@[2] == 'A');
    assert("V_VP9"@.len() == 5 && "V_VP9"@[2] == 'V' && "V_VP9"@[4] == '9');
    assert("V_VP8"@.len() == 5 && "V_VP8"@[2] == 'V' && "V_VP8"@[4] == '8');
    assert("V_MPEG2"@.len() == 7);
    assert("V_MS/VFW/FOURCC"@.len() == 15 && "V_MS/VFW/FOURCC"@[3] == 'S');
    assert(video_codec_name("V_MPEG4/ISO/AVC"@) == Some("H.264"@));
    assert(video_codec_name("V_MPEGH/ISO/HEVC"@) == Some("H.265"@));
    assert(video_codec_name("V_AV1"@) == Some("AV1"@));
    assert(video_codec_name("V_VP9"@) == Some("VP9"@));
    assert(video_codec_name("V_VP8"@) == Some("VP8"@));
    assert(video_codec_name("V_MPEG2"@) == Some("MPEG-2"@));
    assert(video_codec_name("V_MS/VFW/FOURCC"@) == Some("VfW"@));
    let rows = video_codecs();
    assert(rows[0] == ("V_MPEG4/ISO/AVC"@, "H.264"@));
    assert(rows[1] == ("V_MPEGH/ISO/HEVC"@, "H.265"@));
    assert(rows[2] == ("V_AV1"@, "AV1"@));
    assert(rows[3] == ("V_VP9"@, "VP9"@));
    assert(rows[4] == ("V_VP8"@, "VP8"@));
    assert(rows[5] == ("V_MPEG2"@, "MPEG-2"@));
    assert(rows[6] == ("V_MS/VFW/FOURCC"@, "VfW"@));
    assert forall|id: Seq<char>| (#[trigger] video_codec_name(id)) is Some implies begins(id, 'V') && exists|k: int|
        0 <= k < rows.len() && (#[trigger] rows[k]).0 == id by {
        assert(rows[0].0 == "V_MPEG4/ISO/AVC"@);
        assert(rows[1].0 == "V_MPEGH/ISO/HEVC"@);
        assert(rows[2].0 == "V_AV1"@);
        assert(rows[3].0 == "V_VP9"@);
        assert(rows[4].0 == "V_VP8"@);
        assert(rows[5].0 == "V_MPEG2"@);
        assert(rows[6].0 == "V_MS/VFW/FOURCC"@);
    }
}

/// Every known codec has the name of its own that it is known by, and any other
/// ID is shown as it is, but for uncompressed sound, whose kind is shown in lower
/// case.
pub proof fn law_codecs_have_their_names(id: Seq<char>)
    ensures
        forall|k: int| 0 <= k < codecs().len() ==> codec_text((#[trigger] codecs()[k]).0) == codecs()[k].1,
        (forall|k: int| 0 <= k < codecs().len() ==> (#[trigger] codecs()[k]).0 != id) ==> if id.len() >= 6
            && id.take(6) == "A_PCM/"@ {
            codec_text(id) == "PCM "@ + lower(id.skip(6))
        } else {
            codec_text(id) == id
        },
{
    lemma_audio_codecs();
    lemma_subtitle_codecs();
    lemma_video_codecs();
    reveal_strlit("A_PCM/");
    let a = audio_codecs();
    let s = subtitle_codecs();
    let v = video_codecs();
    let all = codecs();
    assert forall|k: int| 0 <= k < all.len() implies codec_text((#[trigger] all[k]).0) == all[k].1 by {
        if k < a.len() {
            assert(all[k] == a[k]);
        } else if k < a.len() + s.len() {
            assert(all[k] == s[k - a.len()]);
        } else {
            assert(all[k] == v[k - a.len() - s.len()]);
        }
    }
    if forall|k: int| 0 <= k < all.len() ==> (#[trigger] all[k]).0 != id {
        assert(audio_codec_name(id) is None) by {
            if audio_codec_name(id) is Some {
                let k = choose|k: int| 0 <= k < a.len() && (#[trigger] a[k]).0 == id;
                assert(all[k] == a[k]);
            }
        }
        assert(subtitle_codec_name(id) is None) by {
            if subtitle_codec_name(id) is Some {
                let k = choose|k: int| 0 <= k < s.len() && (#[trigger] s[k]).0 == id;
                assert(all[a.len() + k] == s[k]);
            }
        }
        assert(video_codec_name(id) is None) by {
            if video_codec_name(id) is Some {
                let k = choose|k: int| 0 <= k < v.len() && (#[trigger] v[k]).0 == id;
                assert(all[a.len() + s.len() + k] == v[k]);
            }
        }
    }
}

/// Where the name of a known codec stands in the table.
pub open spec fn place_of(name: Seq<char>) -> int {
    if name == "AAC"@ {
        0
    } else if name == "AC-3"@ {
        1
    } else if name == "E-AC-3"@ {
        2
    } else if name == "DTS"@ {
        3
    } else if name == "TrueHD"@ {
        4
    } else if name == "FLAC"@ {
        5
    } else if name == "Opus"@ {
        6
    } else if name == "Vorbis"@ {
        7
    } else if name == "MP3"@ {
        8
    } else if name == "MP2"@ {
        9
    } else if name == "ALAC"@ {
        10
    } else if name == "SubRip"@ {
        11
    } else if name == "ASS"@ {
        12
    } else if name == "SSA"@ {
        13
    } else if name == "WebVTT"@ {
        14
    } else if name == "PGS"@ {
        15
    } else if name == "TextST"@ {
        16
    } else if name == "VobSub"@ {
        17
    } else if name == "DVB sub"@ {
        18
    } else if name == "Kate"@ {
        19
    } else if name == "H.264"@ {
        20
    } else if name == "H.265"@ {
        21
    } else if name == "AV1"@ {
        22
    } else if name == "VP9"@ {
        23
    } else if name == "VP8"@ {
        24
    } else if name == "MPEG-2"@ {
        25
    } else if name == "VfW"@ {
        26
    } else {
        -1
    }
}

/// Known codecs that differ have names that differ.
pub proof fn law_codec_names_differ(i: int, j: int)
    requires
        0 <= i < codecs().len(),
        0 <= j < codecs().len(),
        i != j,
    ensures
        codec_text(codecs()[i].0) != codec_text(codecs()[j].0),
{
    law_codecs_have_their_names(Seq::empty());
    lemma_places(i);
    lemma_places(j);
    assert(codec_text(codecs()[i].0) == codecs()[i].1);
    assert(codec_text(codecs()[j].0) == codecs()[j].1);
}

proof fn lemma_places(k: int)
    requires
        0 <= k < codecs().len(),
    ensures
        place_of(codecs()[k].1) == k,
{
    reveal_strlit("AAC");
    reveal_strlit("AC-3");
    reveal_strlit("E-AC-3");
    reveal_strlit("DTS");
    reveal_strlit("TrueHD");
    reveal_strlit("FLAC");
    reveal_strlit("Opus");
    reveal_strlit("Vorbis");
    reveal_strlit("MP3");
    reveal_strlit("MP2");
    reveal_strlit("ALAC");
    reveal_strlit("SubRip");
    reveal_strlit("ASS");
    reveal_strlit("SSA");
    reveal_strlit("WebVTT");
    reveal_strlit("PGS");
    reveal_strlit("TextST");
    reveal_strlit("VobSub");
    reveal_strlit("DVB sub");
    reveal_strlit("Kate");
    reveal_strlit("H.264");
    reveal_strlit("H.265");
    reveal_strlit("AV1");
    reveal_strlit("VP9");
    reveal_strlit("VP8");
    reveal_strlit("MPEG-2");
    reveal_strlit("VfW");
    assert("AAC"@.len() == 3 && "AAC"@[0] == 'A' && "AAC"@[1] == 'A');
    assert("AC-3"@.len() == 4 && "AC-3"@[0] == 'A' && "AC-3"@[1] == 'C');
    assert("E-AC-3"@.len() == 6 && "E-AC-3"@[0] == 'E');
    assert("DTS"@.len() == 3 && "DTS"@[0] == 'D');
    assert("TrueHD"@.len() == 6 && "TrueHD"@[0] == 'T' && "TrueHD"@[1] == 'r');
    assert("FLAC"@.len() == 4 && "FLAC"@[0] == 'F');
    assert("Opus"@.len() == 4 && "Opus"@[0] == 'O');
    assert("Vorbis"@.len() == 6 && "Vorbis"@[0] == 'V' && "Vorbis"@[2] == 'r');
    assert("MP3"@.len() == 3 && "MP3"@[0] == 'M' && "MP3"@[2] == '3');
    assert("MP2"@.len() == 3 && "MP2"@[0] == 'M' && "MP2"@[2] == '2');
    assert("ALAC"@.len() == 4 && "ALAC"@[0] == 'A' && "ALAC"@[1] == 'L');
    assert("SubRip"@.len() == 6 && "SubRip"@[0] == 'S');
    assert("ASS"@.len() == 3 && "ASS"@[0] == 'A' && "ASS"@[1] == 'S');
    assert("SSA"@.len() == 3 && "SSA"@[0] == 'S');
    assert("WebVTT"@.len() == 6 && "WebVTT"@[0] == 'W');
    assert("PGS"@.len() == 3 && "PGS"@[0] == 'P');
    assert("TextST"@.len() == 6 && "TextST"@[0] == 'T' && "TextST"@[1] == 'e');
    assert("VobSub"@.len() == 6 && "VobSub"@[0] == 'V' && "VobSub"@[2] == 'b');
    assert("DVB sub"@.len() == 7);
    assert("Kate"@.len() == 4 && "Kate"@[0] == 'K');
    assert("H.264"@.len() == 5 && "H.264"@[4] == '4');
    assert("H.265"@.len() == 5 && "H.265"@[4] == '5');
    assert("AV1"@.len() == 3 && "AV1"@[0] == 'A' && "AV1"@[1] == 'V');
    assert("VP9"@.len() == 3 && "VP9"@[0] == 'V' && "VP9"@[1] == 'P' && "VP9"@[2] == '9');
    assert("VP8"@.len() == 3 && "VP8"@[0] == 'V' && "VP8"@[1] == 'P' && "VP8"@[2] == '8');
    assert("MPEG-2"@.len() == 6 && "MPEG-2"@[0] == 'M');
    assert("VfW"@.len() == 3 && "VfW"@[0] == 'V' && "VfW"@[1] == 'f');
    assert(place_of("AAC"@) == 0);
    assert(place_of("AC-3"@) == 1);
    assert(place_of("E-AC-3"@) == 2);
    assert(place_of("DTS"@) == 3);
    assert(place_of("TrueHD"@) == 4);
    assert(place_of("FLAC"@) == 5);
    assert(place_of("Opus"@) == 6);
    assert(place_of("Vorbis"@) == 7);
    assert(place_of("MP3"@) == 8);
    assert(place_of("MP2"@) == 9);
    assert(place_of("ALAC"@) == 10);
    assert(place_of("SubRip"@) == 11);
    assert(place_of("ASS"@) == 12);
    assert(place_of("SSA"@) == 13);
    assert(place_of("WebVTT"@) == 14);
    assert(place_of("PGS"@) == 15);
    assert(place_of("TextST"@) == 16);
    assert(place_of("VobSub"@) == 17);
    assert(place_of("DVB sub"@) == 18);
    assert(place_of("Kate"@) == 19);
    assert(place_of("H.264"@) == 20);
    assert(place_of("H.265"@) == 21);
    assert(place_of("AV1"@) == 22);
    assert(place_of("VP9"@) == 23);
    assert(place_of("VP8"@) == 24);
    assert(place_of("MPEG-2"@) == 25);
    assert(place_of("VfW"@) == 26);
    let rows = codecs();
    assert(rows[0].1 == "AAC"@);
    assert(rows[1].1 == "AC-3"@);
    assert(rows[2].1 == "E-AC-3"@);
    assert(rows[3].1 == "DTS"@);
    assert(rows[4].1 == "TrueHD"@);
    assert(rows[5].1 == "FLAC"@);
    assert(rows[6].1 == "Opus"@);
    assert(rows[7].1 == "Vorbis"@);
    assert(rows[8].1 == "MP3"@);
    assert(rows[9].1 == "MP2"@);
    assert(rows[10].1 == "ALAC"@);
    assert(rows[11].1 == "SubRip"@);
    assert(rows[12].1 == "ASS"@);
    assert(rows[13].1 == "SSA"@);
    assert(rows[14].1 == "WebVTT"@);
    assert(rows[15].1 == "PGS"@);
    assert(rows[16].1 == "TextST"@);
    assert(rows[17].1 == "VobSub"@);
    assert(rows[18].1 == "DVB sub"@);
    assert(rows[19].1 == "Kate"@);
    assert(rows[20].1 == "H.264"@);
    assert(rows[21].1 == "H.265"@);
    assert(rows[22].1 == "AV1"@);
    assert(rows[23].1 == "VP9"@);
    assert(rows[24].1 == "VP8"@);
    assert(rows[25].1 == "MPEG-2"@);
    assert(rows[26].1 == "VfW"@);
}

} // verus!
