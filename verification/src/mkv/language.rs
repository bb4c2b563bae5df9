//! Names for the ISO 639-2 codes that turn up in real files.

use vstd::prelude::*;
use vstd::string::*;

use crate::text::{ascii_lower, same_text};
#[allow(unused_imports)]
use crate::text::lower;

verus! {

/// Where the first `-` or `_` of a tag stands from `from` on, or its length.
pub open spec fn tag_end(s: Seq<char>, from: int) -> int
    decreases s.len() - from,
{
    if from >= s.len() || s[from] == '-' || s[from] == '_' {
        from
    } else {
        tag_end(s, from + 1)
    }
}

/// The language of a tag: what stands before the first `-` or `_`, in lower
/// case.
pub open spec fn base_of(code: Seq<char>) -> Seq<char> {
    lower(code.take(tag_end(code, 0)))
}

/// Languages of western and northern Europe.
pub open spec fn western_language_of(base: Seq<char>) -> Option<Seq<char>> {
    if base == "eng"@ || base == "en"@ {
        Some("English"@)
    } else if base == "spa"@ || base == "es"@ {
        Some("Spanish"@)
    } else if base == "fra"@ || base == "fre"@ || base == "fr"@ {
        Some("French"@)
    } else if base == "deu"@ || base == "ger"@ || base == "de"@ {
        Some("German"@)
    } else if base == "ita"@ || base == "it"@ {
        Some("Italian"@)
    } else if base == "por"@ || base == "pt"@ {
        Some("Portuguese"@)
    } else if base == "nld"@ || base == "dut"@ || base == "nl"@ {
        Some("Dutch"@)
    } else if base == "swe"@ || base == "sv"@ {
        Some("Swedish"@)
    } else if base == "nor"@ || base == "no"@ {
        Some("Norwegian"@)
    } else if base == "dan"@ || base == "da"@ {
        Some("Danish"@)
    } else if base == "fin"@ || base == "fi"@ {
        Some("Finnish"@)
    } else if base == "isl"@ || base == "ice"@ || base == "is"@ {
        Some("Icelandic"@)
    } else if base == "cat"@ || base == "ca"@ {
        Some("Catalan"@)
    } else if base == "eus"@ || base == "baq"@ || base == "eu"@ {
        Some("Basque"@)
    } else if base == "glg"@ || base == "gl"@ {
        Some("Galician"@)
    } else if base == "gle"@ || base == "ga"@ {
        Some("Irish"@)
    } else if base == "cym"@ || base == "wel"@ || base == "cy"@ {
        Some("Welsh"@)
    } else {
        None
    }
}

/// Languages of central and eastern Europe.
pub open spec fn eastern_language_of(base: Seq<char>) -> Option<Seq<char>> {
    if base == "rus"@ || base == "ru"@ {
        Some("Russian"@)
    } else if base == "pol"@ || base == "pl"@ {
        Some("Polish"@)
    } else if base == "ces"@ || base == "cze"@ || base == "cs"@ {
        Some("Czech"@)
    } else if base == "slk"@ || base == "slo"@ || base == "sk"@ {
        Some("Slovak"@)
    } else if base == "hun"@ || base == "hu"@ {
        Some("Hungarian"@)
    } else if base == "ron"@ || base == "rum"@ || base == "ro"@ {
        Some("Romanian"@)
    } else if base == "ell"@ || base == "gre"@ || base == "el"@ {
        Some("Greek"@)
    } else if base == "ukr"@ || base == "uk"@ {
        Some("Ukrainian"@)
    } else if base == "bul"@ || base == "bg"@ {
        Some("Bulgarian"@)
    } else if base == "hrv"@ || base == "hr"@ {
        Some("Croatian"@)
    } else if base == "srp"@ || base == "sr"@ {
        Some("Serbian"@)
    } else if base == "slv"@ || base == "sl"@ {
        Some("Slovenian"@)
    } else {
        None
    }
}

/// Languages of Asia.
pub open spec fn asian_language_of(base: Seq<char>) -> Option<Seq<char>> {
    if base == "jpn"@ || base == "ja"@ {
        Some("Japanese"@)
    } else if base == "tur"@ || base == "tr"@ {
        Some("Turkish"@)
    } else if base == "ara"@ || base == "ar"@ {
        Some("Arabic"@)
    } else if base == "heb"@ || base == "he"@ {
        Some("Hebrew"@)
    } else if base == "hin"@ || base == "hi"@ {
        Some("Hindi"@)
    } else if base == "ben"@ || base == "bn"@ {
        Some("Bengali"@)
    } else if base == "tam"@ || base == "ta"@ {
        Some("Tamil"@)
    } else if base == "tel"@ || base == "te"@ {
        Some("Telugu"@)
    } else if base == "tha"@ || base == "th"@ {
        Some("Thai"@)
    } else if base == "vie"@ || base == "vi"@ {
        Some("Vietnamese"@)
    } else if base == "ind"@ || base == "id"@ {
        Some("Indonesian"@)
    } else if base == "msa"@ || base == "may"@ || base == "ms"@ {
        Some("Malay"@)
    } else if base == "kor"@ || base == "ko"@ {
        Some("Korean"@)
    } else if base == "zho"@ || base == "chi"@ || base == "zh"@ {
        Some("Chinese"@)
    } else if base == "fas"@ || base == "per"@ || base == "fa"@ {
        Some("Persian"@)
    } else if base == "urd"@ || base == "ur"@ {
        Some("Urdu"@)
    } else if base == "fil"@ || base == "tgl"@ || base == "tl"@ {
        Some("Filipino"@)
    } else {
        None
    }
}

/// Codes that name no one language.
pub open spec fn other_language_of(base: Seq<char>) -> Option<Seq<char>> {
    if base == "und"@ {
        Some("Undetermined"@)
    } else if base == "mul"@ {
        Some("Multiple"@)
    } else if base == "zxx"@ {
        Some("No linguistic content"@)
    } else {
        None
    }
}

/// The English name of the language with that code.
pub open spec fn language_of(base: Seq<char>) -> Option<Seq<char>> {
    if western_language_of(base) is Some {
        western_language_of(base)
    } else if eastern_language_of(base) is Some {
        eastern_language_of(base)
    } else if asian_language_of(base) is Some {
        asian_language_of(base)
    } else {
        other_language_of(base)
    }
}

/// The model of a name.
pub open spec fn name_view(r: Option<&str>) -> Option<Seq<char>> {
    match r {
        Some(s) => Some(s@),
        None => None,
    }
}

fn western_language(base: &str) -> (r: Option<&'static str>)
    ensures
        name_view(r) == western_language_of(base@),
{
    if same_text(base, "eng") || same_text(base, "en") {
        Some("English")
    } else if same_text(base, "spa") || same_text(base, "es") {
        Some("Spanish")
    } else if same_text(base, "fra") || same_text(base, "fre") || same_text(base, "fr") {
        Some("French")
    } else if same_text(base, "deu") || same_text(base, "ger") || same_text(base, "de") {
        Some("German")
    } else if same_text(base, "ita") || same_text(base, "it") {
        Some("Italian")
    } else if same_text(base, "por") || same_text(base, "pt") {
        Some("Portuguese")
    } else if same_text(base, "nld") || same_text(base, "dut") || same_text(base, "nl") {
        Some("Dutch")
    } else if same_text(base, "swe") || same_text(base, "sv") {
        Some("Swedish")
    } else if same_text(base, "nor") || same_text(base, "no") {
        Some("Norwegian")
    } else if same_text(base, "dan") || same_text(base, "da") {
        Some("Danish")
    } else if same_text(base, "fin") || same_text(base, "fi") {
        Some("Finnish")
    } else if same_text(base, "isl") || same_text(base, "ice") || same_text(base, "is") {
        Some("Icelandic")
    } else if same_text(base, "cat") || same_text(base, "ca") {
        Some("Catalan")
    } else if same_text(base, "eus") || same_text(base, "baq") || same_text(base, "eu") {
        Some("Basque")
    } else if same_text(base, "glg") || same_text(base, "gl") {
        Some("Galician")
    } else if same_text(base, "gle") || same_text(base, "ga") {
        Some("Irish")
    } else if same_text(base, "cym") || same_text(base, "wel") || same_text(base, "cy") {
        Some("Welsh")
    } else {
        None
    }
}

fn eastern_language(base: &str) -> (r: Option<&'static str>)
    ensures
        name_view(r) == eastern_language_of(base@),
{
    if same_text(base, "rus") || same_text(base, "ru") {
        Some("Russian")
    } else if same_text(base, "pol") || same_text(base, "pl") {
        Some("Polish")
    } else if same_text(base, "ces") || same_text(base, "cze") || same_text(base, "cs") {
        Some("Czech")
    } else if same_text(base, "slk") || same_text(base, "slo") || same_text(base, "sk") {
        Some("Slovak")
    } else if same_text(base, "hun") || same_text(base, "hu") {
        Some("Hungarian")
    } else if same_text(base, "ron") || same_text(base, "rum") || same_text(base, "ro") {
        Some("Romanian")
    } else if same_text(base, "ell") || same_text(base, "gre") || same_text(base, "el") {
        Some("Greek")
    } else if same_text(base, "ukr") || same_text(base, "uk") {
        Some("Ukrainian")
    } else if same_text(base, "bul") || same_text(base, "bg") {
        Some("Bulgarian")
    } else if same_text(base, "hrv") || same_text(base, "hr") {
        Some("Croatian")
    } else if same_text(base, "srp") || same_text(base, "sr") {
        Some("Serbian")
    } else if same_text(base, "slv") || same_text(base, "sl") {
        Some("Slovenian")
    } else {
        None
    }
}

fn asian_language(base: &str) -> (r: Option<&'static str>)
    ensures
        name_view(r) == asian_language_of(base@),
{
    if same_text(base, "jpn") || same_text(base, "ja") {
        Some("Japanese")
    } else if same_text(base, "tur") || same_text(base, "tr") {
        Some("Turkish")
    } else if same_text(base, "ara") || same_text(base, "ar") {
        Some("Arabic")
    } else if same_text(base, "heb") || same_text(base, "he") {
        Some("Hebrew")
    } else if same_text(base, "hin") || same_text(base, "hi") {
        Some("Hindi")
    } else if same_text(base, "ben") || same_text(base, "bn") {
        Some("Bengali")
    } else if same_text(base, "tam") || same_text(base, "ta") {
        Some("Tamil")
    } else if same_text(base, "tel") || same_text(base, "te") {
        Some("Telugu")
    } else if same_text(base, "tha") || same_text(base, "th") {
        Some("Thai")
    } else if same_text(base, "vie") || same_text(base, "vi") {
        Some("Vietnamese")
    } else if same_text(base, "ind") || same_text(base, "id") {
        Some("Indonesian")
    } else if same_text(base, "msa") || same_text(base, "may") || same_text(base, "ms") {
        Some("Malay")
    } else if same_text(base, "kor") || same_text(base, "ko") {
        Some("Korean")
    } else if same_text(base, "zho") || same_text(base, "chi") || same_text(base, "zh") {
        Some("Chinese")
    } else if same_text(base, "fas") || same_text(base, "per") || same_text(base, "fa") {
        Some("Persian")
    } else if same_text(base, "urd") || same_text(base, "ur") {
        Some("Urdu")
    } else if same_text(base, "fil") || same_text(base, "tgl") || same_text(base, "tl") {
        Some("Filipino")
    } else {
        None
    }
}

fn other_language(base: &str) -> (r: Option<&'static str>)
    ensures
        name_view(r) == other_language_of(base@),
{
    if same_text(base, "und") {
        Some("Undetermined")
    } else if same_text(base, "mul") {
        Some("Multiple")
    } else if same_text(base, "zxx") {
        Some("No linguistic content")
    } else {
        None
    }
}

/// The English name of a language, by its code or by a tag that starts with
/// it.
pub fn language_name(code: &str) -> (r: Option<&'static str>)
    ensures
        name_view(r) == language_of(base_of(code@)),
{
    let n: usize = code.unicode_len();
    let mut i: usize = 0;
    while i < n
        invariant
            i <= n,
            n == code@.len(),
            tag_end(code@, i as int) == tag_end(code@, 0),
        ensures
            i == tag_end(code@, 0),
        decreases n - i,
    {
        let c = code.get_char(i);
        if c == '-' || c == '_' {
            break ;
        }
        i += 1;
    }
    let base = ascii_lower(code.substring_char(0, i));
    assert(code@.subrange(0, i as int) =~= code@.take(i as int));
    match western_language(&base) {
        Some(name) => Some(name),
        None => match eastern_language(&base) {
            Some(name) => Some(name),
            None => match asian_language(&base) {
                Some(name) => Some(name),
                None => other_language(&base),
            },
        },
    }
}

} // verus!
