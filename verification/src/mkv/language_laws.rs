//! Which language has which code.

use vstd::prelude::*;

#[allow(unused_imports)]
use crate::mkv::language::{
    asian_language_of, base_of, eastern_language_of, language_of, other_language_of, tag_end, western_language_of,
};
#[allow(unused_imports)]
use crate::text::lower;

verus! {

/// The codes of languages of western and northern Europe, each with the name of its language.
pub open spec fn western_codes() -> Seq<(Seq<char>, Seq<char>)> {
    seq![
        ("eng"@, "English"@),
        ("en"@, "English"@),
        ("spa"@, "Spanish"@),
        ("es"@, "Spanish"@),
        ("fra"@, "French"@),
        ("fre"@, "French"@),
        ("fr"@, "French"@),
        ("deu"@, "German"@),
        ("ger"@, "German"@),
        ("de"@, "German"@),
        ("ita"@, "Italian"@),
        ("it"@, "Italian"@),
        ("por"@, "Portuguese"@),
        ("pt"@, "Portuguese"@),
        ("nld"@, "Dutch"@),
        ("dut"@, "Dutch"@),
        ("nl"@, "Dutch"@),
        ("swe"@, "Swedish"@),
        ("sv"@, "Swedish"@),
        ("nor"@, "Norwegian"@),
        ("no"@, "Norwegian"@),
        ("dan"@, "Danish"@),
        ("da"@, "Danish"@),
        ("fin"@, "Finnish"@),
        ("fi"@, "Finnish"@),
        ("isl"@, "Icelandic"@),
        ("ice"@, "Icelandic"@),
        ("is"@, "Icelandic"@),
        ("cat"@, "Catalan"@),
        ("ca"@, "Catalan"@),
        ("eus"@, "Basque"@),
        ("baq"@, "Basque"@),
        ("eu"@, "Basque"@),
        ("glg"@, "Galician"@),
        ("gl"@, "Galician"@),
        ("gle"@, "Irish"@),
        ("ga"@, "Irish"@),
        ("cym"@, "Welsh"@),
        ("wel"@, "Welsh"@),
        ("cy"@, "Welsh"@),
    ]
}

/// The codes of languages of central and eastern Europe, each with the name of its language.
pub open spec fn eastern_codes() -> Seq<(Seq<char>, Seq<char>)> {
    seq![
        ("rus"@, "Russian"@),
        ("ru"@, "Russian"@),
        ("pol"@, "Polish"@),
        ("pl"@, "Polish"@),
        ("ces"@, "Czech"@),
        ("cze"@, "Czech"@),
        ("cs"@, "Czech"@),
        ("slk"@, "Slovak"@),
        ("slo"@, "Slovak"@),
        ("sk"@, "Slovak"@),
        ("hun"@, "Hungarian"@),
        ("hu"@, "Hungarian"@),
        ("ron"@, "Romanian"@),
        ("rum"@, "Romanian"@),
        ("ro"@, "Romanian"@),
        ("ell"@, "Greek"@),
        ("gre"@, "Greek"@),
        ("el"@, "Greek"@),
        ("ukr"@, "Ukrainian"@),
        ("uk"@, "Ukrainian"@),
        ("bul"@, "Bulgarian"@),
        ("bg"@, "Bulgarian"@),
        ("hrv"@, "Croatian"@),
        ("hr"@, "Croatian"@),
        ("srp"@, "Serbian"@),
        ("sr"@, "Serbian"@),
        ("slv"@, "Slovenian"@),
        ("sl"@, "Slovenian"@),
    ]
}

/// The codes of languages of Asia, each with the name of its language.
pub open spec fn asian_codes() -> Seq<(Seq<char>, Seq<char>)> {
    seq![
        ("jpn"@, "Japanese"@),
        ("ja"@, "Japanese"@),
        ("tur"@, "Turkish"@),
        ("tr"@, "Turkish"@),
        ("ara"@, "Arabic"@),
        ("ar"@, "Arabic"@),
        ("heb"@, "Hebrew"@),
        ("he"@, "Hebrew"@),
        ("hin"@, "Hindi"@),
        ("hi"@, "Hindi"@),
        ("ben"@, "Bengali"@),
        ("bn"@, "Bengali"@),
        ("tam"@, "Tamil"@),
        ("ta"@, "Tamil"@),
        ("tel"@, "Telugu"@),
        ("te"@, "Telugu"@),
        ("tha"@, "Thai"@),
        ("th"@, "Thai"@),
        ("vie"@, "Vietnamese"@),
        ("vi"@, "Vietnamese"@),
        ("ind"@, "Indonesian"@),
        ("id"@, "Indonesian"@),
        ("msa"@, "Malay"@),
        ("may"@, "Malay"@),
        ("ms"@, "Malay"@),
        ("kor"@, "Korean"@),
        ("ko"@, "Korean"@),
        ("zho"@, "Chinese"@),
        ("chi"@, "Chinese"@),
        ("zh"@, "Chinese"@),
        ("fas"@, "Persian"@),
        ("per"@, "Persian"@),
        ("fa"@, "Persian"@),
        ("urd"@, "Urdu"@),
        ("ur"@, "Urdu"@),
        ("fil"@, "Filipino"@),
        ("tgl"@, "Filipino"@),
        ("tl"@, "Filipino"@),
    ]
}

/// The codes of languages that are no one language, each with the name of its language.
pub open spec fn other_codes() -> Seq<(Seq<char>, Seq<char>)> {
    seq![
        ("und"@, "Undetermined"@),
        ("mul"@, "Multiple"@),
        ("zxx"@, "No linguistic content"@),
    ]
}

/// The known codes, each with the name of its language.
pub open spec fn language_codes() -> Seq<(Seq<char>, Seq<char>)> {
    western_codes() + eastern_codes() + asian_codes() + other_codes()
}

proof fn lemma_western_codes()
    ensures
        forall|k: int| 0 <= k < western_codes().len() ==> western_language_of((#[trigger] western_codes()[k]).0) == Some(
            western_codes()[k].1,
        ),
        forall|base: Seq<char>| (#[trigger] western_language_of(base)) is Some ==> exists|k: int|
            0 <= k < western_codes().len() && (#[trigger] western_codes()[k]).0 == base,
{
    reveal_strlit("eng");
    reveal_strlit("en");
    reveal_strlit("spa");
    reveal_strlit("es");
    reveal_strlit("fra");
    reveal_strlit("fre");
    reveal_strlit("fr");
    reveal_strlit("deu");
    reveal_strlit("ger");
    reveal_strlit("de");
    reveal_strlit("ita");
    reveal_strlit("it");
    reveal_strlit("por");
    reveal_strlit("pt");
    reveal_strlit("nld");
    reveal_strlit("dut");
    reveal_strlit("nl");
    reveal_strlit("swe");
    reveal_strlit("sv");
    reveal_strlit("nor");
    reveal_strlit("no");
    reveal_strlit("dan");
    reveal_strlit("da");
    reveal_strlit("fin");
    reveal_strlit("fi");
    reveal_strlit("isl");
    reveal_strlit("ice");
    reveal_strlit("is");
    reveal_strlit("cat");
    reveal_strlit("ca");
    reveal_strlit("eus");
    reveal_strlit("baq");
    reveal_strlit("eu");
    reveal_strlit("glg");
    reveal_strlit("gl");
    reveal_strlit("gle");
    reveal_strlit("ga");
    reveal_strlit("cym");
    reveal_strlit("wel");
    reveal_strlit("cy");
    assert("eng"@.len() == 3 && "eng"@[0] == 'e' && "eng"@[1] == 'n');
    assert("en"@.len() == 2 && "en"@[0] == 'e' && "en"@[1] == 'n');
    assert("spa"@.len() == 3 && "spa"@[0] == 's' && "spa"@[1] == 'p');
    assert("es"@.len() == 2 && "es"@[0] == 'e' && "es"@[1] == 's');
    assert("fra"@.len() == 3 && "fra"@[0] == 'f' && "fra"@[1] == 'r' && "fra"@[2] == 'a');
    assert("fre"@.len() == 3 && "fre"@[0] == 'f' && "fre"@[1] == 'r' && "fre"@[2] == 'e');
    assert("fr"@.len() == 2 && "fr"@[0] == 'f' && "fr"@[1] == 'r');
    assert("deu"@.len() == 3 && "deu"@[0] == 'd' && "deu"@[1] == 'e');
    assert("ger"@.len() == 3 && "ger"@[0] == 'g' && "ger"@[1] == 'e');
    assert("de"@.len() == 2 && "de"@[0] == 'd' && "de"@[1] == 'e');
    assert("ita"@.len() == 3 && "ita"@[0] == 'i' && "ita"@[1] == 't');
    assert("it"@.len() == 2 && "it"@[0] == 'i' && "it"@[1] == 't');
    assert("por"@.len() == 3 && "por"@[0] == 'p');
    assert("pt"@.len() == 2 && "pt"@[0] == 'p');
    assert("nld"@.len() == 3 && "nld"@[0] == 'n' && "nld"@[1] == 'l');
    assert("dut"@.len() == 3 && "dut"@[0] == 'd' && "dut"@[1] == 'u');
    assert("nl"@.len() == 2 && "nl"@[0] == 'n' && "nl"@[1] == 'l');
    assert("swe"@.len() == 3 && "swe"@[0] == 's' && "swe"@[1] == 'w');
    assert("sv"@.len() == 2 && "sv"@[0] == 's');
    assert("nor"@.len() == 3 && "nor"@[0] == 'n' && "nor"@[1] == 'o');
    assert("no"@.len() == 2 && "no"@[0] == 'n' && "no"@[1] == 'o');
    assert("dan"@.len() == 3 && "dan"@[0] == 'd' && "dan"@[1] == 'a');
    assert("da"@.len() == 2 && "da"@[0] == 'd' && "da"@[1] == 'a');
    assert("fin"@.len() == 3 && "fin"@[0] == 'f' && "fin"@[1] == 'i');
    assert("fi"@.len() == 2 && "fi"@[0] == 'f' && "fi"@[1] == 'i');
    assert("isl"@.len() == 3 && "isl"@[0] == 'i' && "isl"@[1] == 's');
    assert("ice"@.len() == 3 && "ice"@[0] == 'i' && "ice"@[1] == 'c');
    assert("is"@.len() == 2 && "is"@[0] == 'i' && "is"@[1] == 's');
    assert("cat"@.len() == 3 && "cat"@[0] == 'c' && "cat"@[1] == 'a');
    assert("ca"@.len() == 2 && "ca"@[0] == 'c' && "ca"@[1] == 'a');
    assert("eus"@.len() == 3 && "eus"@[0] == 'e' && "eus"@[1] == 'u');
    assert("baq"@.len() == 3 && "baq"@[0] == 'b');
    assert("eu"@.len() == 2 && "eu"@[0] == 'e' && "eu"@[1] == 'u');
    assert("glg"@.len() == 3 && "glg"@[0] == 'g' && "glg"@[1] == 'l' && "glg"@[2] == 'g');
    assert("gl"@.len() == 2 && "gl"@[0] == 'g' && "gl"@[1] == 'l');
    assert("gle"@.len() == 3 && "gle"@[0] == 'g' && "gle"@[1] == 'l' && "gle"@[2] == 'e');
    assert("ga"@.len() == 2 && "ga"@[0] == 'g' && "ga"@[1] == 'a');
    assert("cym"@.len() == 3 && "cym"@[0] == 'c' && "cym"@[1] == 'y');
    assert("wel"@.len() == 3 && "wel"@[0] == 'w');
    assert("cy"@.len() == 2 && "cy"@[0] == 'c' && "cy"@[1] == 'y');
    let rows = western_codes();
    assert(western_language_of("eng"@) == Some("English"@));
    assert(western_language_of("en"@) == Some("English"@));
    assert(western_language_of("spa"@) == Some("Spanish"@));
    assert(western_language_of("es"@) == Some("Spanish"@));
    assert(western_language_of("fra"@) == Some("French"@));
    assert(western_language_of("fre"@) == Some("French"@));
    assert(western_language_of("fr"@) == Some("French"@));
    assert(western_language_of("deu"@) == Some("German"@));
    assert(western_language_of("ger"@) == Some("German"@));
    assert(western_language_of("de"@) == Some("German"@));
    assert(western_language_of("ita"@) == Some("Italian"@));
    assert(western_language_of("it"@) == Some("Italian"@));
    assert(western_language_of("por"@) == Some("Portuguese"@));
    assert(western_language_of("pt"@) == Some("Portuguese"@));
    assert(western_language_of("nld"@) == Some("Dutch"@));
    assert(western_language_of("dut"@) == Some("Dutch"@));
    assert(western_language_of("nl"@) == Some("Dutch"@));
    assert(western_language_of("swe"@) == Some("Swedish"@));
    assert(western_language_of("sv"@) == Some("Swedish"@));
    assert(western_language_of("nor"@) == Some("Norwegian"@));
    assert(western_language_of("no"@) == Some("Norwegian"@));
    assert(western_language_of("dan"@) == Some("Danish"@));
    assert(western_language_of("da"@) == Some("Danish"@));
    assert(western_language_of("fin"@) == Some("Finnish"@));
    assert(western_language_of("fi"@) == Some("Finnish"@));
    assert(western_language_of("isl"@) == Some("Icelandic"@));
    assert(western_language_of("ice"@) == Some("Icelandic"@));
    assert(western_language_of("is"@) == Some("Icelandic"@));
    assert(western_language_of("cat"@) == Some("Catalan"@));
    assert(western_language_of("ca"@) == Some("Catalan"@));
    assert(western_language_of("eus"@) == Some("Basque"@));
    assert(western_language_of("baq"@) == Some("Basque"@));
    assert(western_language_of("eu"@) == Some("Basque"@));
    assert(western_language_of("glg"@) == Some("Galician"@));
    assert(western_language_of("gl"@) == Some("Galician"@));
    assert(western_language_of("gle"@) == Some("Irish"@));
    assert(western_language_of("ga"@) == Some("Irish"@));
    assert(western_language_of("cym"@) == Some("Welsh"@));
    assert(western_language_of("wel"@) == Some("Welsh"@));
    assert(western_language_of("cy"@) == Some("Welsh"@));
    assert(rows[0] == ("eng"@, "English"@));
    assert(rows[1] == ("en"@, "English"@));
    assert(rows[2] == ("spa"@, "Spanish"@));
    assert(rows[3] == ("es"@, "Spanish"@));
    assert(rows[4] == ("fra"@, "French"@));
    assert(rows[5] == ("fre"@, "French"@));
    assert(rows[6] == ("fr"@, "French"@));
    assert(rows[7] == ("deu"@, "German"@));
    assert(rows[8] == ("ger"@, "German"@));
    assert(rows[9] == ("de"@, "German"@));
    assert(rows[10] == ("ita"@, "Italian"@));
    assert(rows[11] == ("it"@, "Italian"@));
    assert(rows[12] == ("por"@, "Portuguese"@));
    assert(rows[13] == ("pt"@, "Portuguese"@));
    assert(rows[14] == ("nld"@, "Dutch"@));
    assert(rows[15] == ("dut"@, "Dutch"@));
    assert(rows[16] == ("nl"@, "Dutch"@));
    assert(rows[17] == ("swe"@, "Swedish"@));
    assert(rows[18] == ("sv"@, "Swedish"@));
    assert(rows[19] == ("nor"@, "Norwegian"@));
    assert(rows[20] == ("no"@, "Norwegian"@));
    assert(rows[21] == ("dan"@, "Danish"@));
    assert(rows[22] == ("da"@, "Danish"@));
    assert(rows[23] == ("fin"@, "Finnish"@));
    assert(rows[24] == ("fi"@, "Finnish"@));
    assert(rows[25] == ("isl"@, "Icelandic"@));
    assert(rows[26] == ("ice"@, "Icelandic"@));
    assert(rows[27] == ("is"@, "Icelandic"@));
    assert(rows[28] == ("cat"@, "Catalan"@));
    assert(rows[29] == ("ca"@, "Catalan"@));
    assert(rows[30] == ("eus"@, "Basque"@));
    assert(rows[31] == ("baq"@, "Basque"@));
    assert(rows[32] == ("eu"@, "Basque"@));
    assert(rows[33] == ("glg"@, "Galician"@));
    assert(rows[34] == ("gl"@, "Galician"@));
    assert(rows[35] == ("gle"@, "Irish"@));
    assert(rows[36] == ("ga"@, "Irish"@));
    assert(rows[37] == ("cym"@, "Welsh"@));
    assert(rows[38] == ("wel"@, "Welsh"@));
    assert(rows[39] == ("cy"@, "Welsh"@));
}

proof fn lemma_eastern_codes()
    ensures
        forall|k: int| 0 <= k < eastern_codes().len() ==> eastern_language_of((#[trigger] eastern_codes()[k]).0) == Some(
            eastern_codes()[k].1,
        ),
        forall|base: Seq<char>| (#[trigger] eastern_language_of(base)) is Some ==> exists|k: int|
            0 <= k < eastern_codes().len() && (#[trigger] eastern_codes()[k]).0 == base,
{
    reveal_strlit("rus");
    reveal_strlit("ru");
    reveal_strlit("pol");
    reveal_strlit("pl");
    reveal_strlit("ces");
    reveal_strlit("cze");
    reveal_strlit("cs");
    reveal_strlit("slk");
    reveal_strlit("slo");
    reveal_strlit("sk");
    reveal_strlit("hun");
    reveal_strlit("hu");
    reveal_strlit("ron");
    reveal_strlit("rum");
    reveal_strlit("ro");
    reveal_strlit("ell");
    reveal_strlit("gre");
    reveal_strlit("el");
    reveal_strlit("ukr");
    reveal_strlit("uk");
    reveal_strlit("bul");
    reveal_strlit("bg");
    reveal_strlit("hrv");
    reveal_strlit("hr");
    reveal_strlit("srp");
    reveal_strlit("sr");
    reveal_strlit("slv");
    reveal_strlit("sl");
    assert("rus"@.len() == 3 && "rus"@[0] == 'r' && "rus"@[1] == 'u' && "rus"@[2] == 's');
    assert("ru"@.len() == 2 && "ru"@[0] == 'r' && "ru"@[1] == 'u');
    assert("pol"@.len() == 3 && "pol"@[0] == 'p');
    assert("pl"@.len() == 2 && "pl"@[0] == 'p');
    assert("ces"@.len() == 3 && "ces"@[0] == 'c' && "ces"@[1] == 'e');
    assert("cze"@.len() == 3 && "cze"@[0] == 'c' && "cze"@[1] == 'z');
    assert("cs"@.len() == 2 && "cs"@[0] == 'c');
    assert("slk"@.len() == 3 && "slk"@[0] == 's' && "slk"@[1] == 'l' && "slk"@[2] == 'k');
    assert("slo"@.len() == 3 && "slo"@[0] == 's' && "slo"@[1] == 'l' && "slo"@[2] == 'o');
    assert("sk"@.len() == 2 && "sk"@[0] == 's' && "sk"@[1] == 'k');
    assert("hun"@.len() == 3 && "hun"@[0] == 'h' && "hun"@[1] == 'u');
    assert("hu"@.len() == 2 && "hu"@[0] == 'h' && "hu"@[1] == 'u');
    assert("ron"@.len() == 3 && "ron"@[0] == 'r' && "ron"@[1] == 'o');
    assert("rum"@.len() == 3 && "rum"@[0] == 'r' && "rum"@[1] == 'u' && "rum"@[2] == 'm');
    assert("ro"@.len() == 2 && "ro"@[0] == 'r' && "ro"@[1] == 'o');
    assert("ell"@.len() == 3 && "ell"@[0] == 'e');
    assert("gre"@.len() == 3 && "gre"@[0] == 'g');
    assert("el"@.len() == 2 && "el"@[0] == 'e');
    assert("ukr"@.len() == 3 && "ukr"@[0] == 'u');
    assert("uk"@.len() == 2 && "uk"@[0] == 'u');
    assert("bul"@.len() == 3 && "bul"@[0] == 'b');
    assert("bg"@.len() == 2 && "bg"@[0] == 'b');
    assert("hrv"@.len() == 3 && "hrv"@[0] == 'h' && "hrv"@[1] == 'r');
    assert("hr"@.len() == 2 && "hr"@[0] == 'h' && "hr"@[1] == 'r');
    assert("srp"@.len() == 3 && "srp"@[0] == 's' && "srp"@[1] == 'r');
    assert("sr"@.len() == 2 && "sr"@[0] == 's' && "sr"@[1] == 'r');
    assert("slv"@.len() == 3 && "slv"@[0] == 's' && "slv"@[1] == 'l' && "slv"@[2] == 'v');
    assert("sl"@.len() == 2 && "sl"@[0] == 's' && "sl"@[1] == 'l');
    let rows = eastern_codes();
    assert(eastern_language_of("rus"@) == Some("Russian"@));
    assert(eastern_language_of("ru"@) == Some("Russian"@));
    assert(eastern_language_of("pol"@) == Some("Polish"@));
    assert(eastern_language_of("pl"@) == Some("Polish"@));
    assert(eastern_language_of("ces"@) == Some("Czech"@));
    assert(eastern_language_of("cze"@) == Some("Czech"@));
    assert(eastern_language_of("cs"@) == Some("Czech"@));
    assert(eastern_language_of("slk"@) == Some("Slovak"@));
    assert(eastern_language_of("slo"@) == Some("Slovak"@));
    assert(eastern_language_of("sk"@) == Some("Slovak"@));
    assert(eastern_language_of("hun"@) == Some("Hungarian"@));
    assert(eastern_language_of("hu"@) == Some("Hungarian"@));
    assert(eastern_language_of("ron"@) == Some("Romanian"@));
    assert(eastern_language_of("rum"@) == Some("Romanian"@));
    assert(eastern_language_of("ro"@) == Some("Romanian"@));
    assert(eastern_language_of("ell"@) == Some("Greek"@));
    assert(eastern_language_of("gre"@) == Some("Greek"@));
    assert(eastern_language_of("el"@) == Some("Greek"@));
    assert(eastern_language_of("ukr"@) == Some("Ukrainian"@));
    assert(eastern_language_of("uk"@) == Some("Ukrainian"@));
    assert(eastern_language_of("bul"@) == Some("Bulgarian"@));
    assert(eastern_language_of("bg"@) == Some("Bulgarian"@));
    assert(eastern_language_of("hrv"@) == Some("Croatian"@));
    assert(eastern_language_of("hr"@) == Some("Croatian"@));
    assert(eastern_language_of("srp"@) == Some("Serbian"@));
    assert(eastern_language_of("sr"@) == Some("Serbian"@));
    assert(eastern_language_of("slv"@) == Some("Slovenian"@));
    assert(eastern_language_of("sl"@) == Some("Slovenian"@));
    assert(rows[0] == ("rus"@, "Russian"@));
    assert(rows[1] == ("ru"@, "Russian"@));
    assert(rows[2] == ("pol"@, "Polish"@));
    assert(rows[3] == ("pl"@, "Polish"@));
    assert(rows[4] == ("ces"@, "Czech"@));
    assert(rows[5] == ("cze"@, "Czech"@));
    assert(rows[6] == ("cs"@, "Czech"@));
    assert(rows[7] == ("slk"@, "Slovak"@));
    assert(rows[8] == ("slo"@, "Slovak"@));
    assert(rows[9] == ("sk"@, "Slovak"@));
    assert(rows[10] == ("hun"@, "Hungarian"@));
    assert(rows[11] == ("hu"@, "Hungarian"@));
    assert(rows[12] == ("ron"@, "Romanian"@));
    assert(rows[13] == ("rum"@, "Romanian"@));
    assert(rows[14] == ("ro"@, "Romanian"@));
    assert(rows[15] == ("ell"@, "Greek"@));
    assert(rows[16] == ("gre"@, "Greek"@));
    assert(rows[17] == ("el"@, "Greek"@));
    assert(rows[18] == ("ukr"@, "Ukrainian"@));
    assert(rows[19] == ("uk"@, "Ukrainian"@));
    assert(rows[20] == ("bul"@, "Bulgarian"@));
    assert(rows[21] == ("bg"@, "Bulgarian"@));
    assert(rows[22] == ("hrv"@, "Croatian"@));
    assert(rows[23] == ("hr"@, "Croatian"@));
    assert(rows[24] == ("srp"@, "Serbian"@));
    assert(rows[25] == ("sr"@, "Serbian"@));
    assert(rows[26] == ("slv"@, "Slovenian"@));
    assert(rows[27] == ("sl"@, "Slovenian"@));
}

proof fn lemma_eastern_not_western()
    ensures
        forall|k: int| 0 <= k < eastern_codes().len() ==> western_language_of((#[trigger] eastern_codes()[k]).0) is None,
{
    reveal_strlit("rus");
    reveal_strlit("ru");
    reveal_strlit("pol");
    reveal_strlit("pl");
    reveal_strlit("ces");
    reveal_strlit("cze");
    reveal_strlit("cs");
    reveal_strlit("slk");
    reveal_strlit("slo");
    reveal_strlit("sk");
    reveal_strlit("hun");
    reveal_strlit("hu");
    reveal_strlit("ron");
    reveal_strlit("rum");
    reveal_strlit("ro");
    reveal_strlit("ell");
    reveal_strlit("gre");
    reveal_strlit("el");
    reveal_strlit("ukr");
    reveal_strlit("uk");
    reveal_strlit("bul");
    reveal_strlit("bg");
    reveal_strlit("hrv");
    reveal_strlit("hr");
    reveal_strlit("srp");
    reveal_strlit("sr");
    reveal_strlit("slv");
    reveal_strlit("sl");
    reveal_strlit("eng");
    reveal_strlit("spa");
    reveal_strlit("fra");
    reveal_strlit("fre");
    reveal_strlit("deu");
    reveal_strlit("ger");
    reveal_strlit("ita");
    reveal_strlit("por");
    reveal_strlit("nld");
    reveal_strlit("dut");
    reveal_strlit("swe");
    reveal_strlit("nor");
    reveal_strlit("dan");
    reveal_strlit("fin");
    reveal_strlit("isl");
    reveal_strlit("ice");
    reveal_strlit("cat");
    reveal_strlit("eus");
    reveal_strlit("baq");
    reveal_strlit("glg");
    reveal_strlit("gle");
    reveal_strlit("cym");
    reveal_strlit("wel");
    reveal_strlit("en");
    reveal_strlit("es");
    reveal_strlit("fr");
    reveal_strlit("de");
    reveal_strlit("it");
    reveal_strlit("pt");
    reveal_strlit("nl");
    reveal_strlit("sv");
    reveal_strlit("no");
    reveal_strlit("da");
    reveal_strlit("fi");
    reveal_strlit("is");
    reveal_strlit("ca");
    reveal_strlit("eu");
    reveal_strlit("gl");
    reveal_strlit("ga");
    reveal_strlit("cy");
    assert("rus"@.len() == 3 && "rus"@[0] == 'r');
    assert("ru"@.len() == 2 && "ru"@[0] == 'r');
    assert("pol"@.len() == 3 && "pol"@[0] == 'p' && "pol"@[2] == 'l');
    assert("pl"@.len() == 2 && "pl"@[0] == 'p' && "pl"@[1] == 'l');
    assert("ces"@.len() == 3 && "ces"@[0] == 'c' && "ces"@[1] == 'e');
    assert("cze"@.len() == 3 && "cze"@[0] == 'c' && "cze"@[1] == 'z');
    assert("cs"@.len() == 2 && "cs"@[0] == 'c' && "cs"@[1] == 's');
    assert("slk"@.len() == 3 && "slk"@[0] == 's' && "slk"@[1] == 'l');
    assert("slo"@.len() == 3 && "slo"@[0] == 's' && "slo"@[1] == 'l');
    assert("sk"@.len() == 2 && "sk"@[0] == 's' && "sk"@[1] == 'k');
    assert("hun"@.len() == 3 && "hun"@[0] == 'h');
    assert("hu"@.len() == 2 && "hu"@[0] == 'h');
    assert("ron"@.len() == 3 && "ron"@[0] == 'r');
    assert("rum"@.len() == 3 && "rum"@[0] == 'r');
    assert("ro"@.len() == 2 && "ro"@[0] == 'r');
    assert("ell"@.len() == 3 && "ell"@[0] == 'e' && "ell"@[1] == 'l');
    assert("gre"@.len() == 3 && "gre"@[0] == 'g' && "gre"@[1] == 'r');
    assert("el"@.len() == 2 && "el"@[0] == 'e' && "el"@[1] == 'l');
    assert("ukr"@.len() == 3 && "ukr"@[0] == 'u');
    assert("uk"@.len() == 2 && "uk"@[0] == 'u');
    assert("bul"@.len() == 3 && "bul"@[0] == 'b' && "bul"@[1] == 'u');
    assert("bg"@.len() == 2 && "bg"@[0] == 'b');
    assert("hrv"@.len() == 3 && "hrv"@[0] == 'h');
    assert("hr"@.len() == 2 && "hr"@[0] == 'h');
    assert("srp"@.len() == 3 && "srp"@[0] == 's' && "srp"@[1] == 'r');
    assert("sr"@.len() == 2 && "sr"@[0] == 's' && "sr"@[1] == 'r');
    assert("slv"@.len() == 3 && "slv"@[0] == 's' && "slv"@[1] == 'l');
    assert("sl"@.len() == 2 && "sl"@[0] == 's' && "sl"@[1] == 'l');
    assert("eng"@.len() == 3 && "eng"@[0] == 'e' && "eng"@[1] == 'n');
    assert("spa"@.len() == 3 && "spa"@[0] == 's' && "spa"@[1] == 'p');
    assert("fra"@.len() == 3 && "fra"@[0] == 'f');
    assert("fre"@.len() == 3 && "fre"@[0] == 'f');
    assert("deu"@.len() == 3 && "deu"@[0] == 'd');
    assert("ger"@.len() == 3 && "ger"@[0] == 'g' && "ger"@[1] == 'e');
    assert("ita"@.len() == 3 && "ita"@[0] == 'i');
    assert("por"@.len() == 3 && "por"@[0] == 'p' && "por"@[2] == 'r');
    assert("nld"@.len() == 3 && "nld"@[0] == 'n');
    assert("dut"@.len() == 3 && "dut"@[0] == 'd');
    assert("swe"@.len() == 3 && "swe"@[0] == 's' && "swe"@[1] == 'w');
    assert("nor"@.len() == 3 && "nor"@[0] == 'n');
    assert("dan"@.len() == 3 && "dan"@[0] == 'd');
    assert("fin"@.len() == 3 && "fin"@[0] == 'f');
    assert("isl"@.len() == 3 && "isl"@[0] == 'i');
    assert("ice"@.len() == 3 && "ice"@[0] == 'i');
    assert("cat"@.len() == 3 && "cat"@[0] == 'c' && "cat"@[1] == 'a');
    assert("eus"@.len() == 3 && "eus"@[0] == 'e' && "eus"@[1] == 'u');
    assert("baq"@.len() == 3 && "baq"@[0] == 'b' && "baq"@[1] == 'a');
    assert("glg"@.len() == 3 && "glg"@[0] == 'g' && "glg"@[1] == 'l');
    assert("gle"@.len() == 3 && "gle"@[0] == 'g' && "gle"@[1] == 'l');
    assert("cym"@.len() == 3 && "cym"@[0] == 'c' && "cym"@[1] == 'y');
    assert("wel"@.len() == 3 && "wel"@[0] == 'w');
    assert("en"@.len() == 2 && "en"@[0] == 'e' && "en"@[1] == 'n');
    assert("es"@.len() == 2 && "es"@[0] == 'e' && "es"@[1] == 's');
    assert("fr"@.len() == 2 && "fr"@[0] == 'f');
    assert("de"@.len() == 2 && "de"@[0] == 'd');
    assert("it"@.len() == 2 && "it"@[0] == 'i');
    assert("pt"@.len() == 2 && "pt"@[0] == 'p' && "pt"@[1] == 't');
    assert("nl"@.len() == 2 && "nl"@[0] == 'n');
    assert("sv"@.len() == 2 && "sv"@[0] == 's' && "sv"@[1] == 'v');
    assert("no"@.len() == 2 && "no"@[0] == 'n');
    assert("da"@.len() == 2 && "da"@[0] == 'd');
    assert("fi"@.len() == 2 && "fi"@[0] == 'f');
    assert("is"@.len() == 2 && "is"@[0] == 'i');
    assert("ca"@.len() == 2 && "ca"@[0] == 'c' && "ca"@[1] == 'a');
    assert("eu"@.len() == 2 && "eu"@[0] == 'e' && "eu"@[1] == 'u');
    assert("gl"@.len() == 2 && "gl"@[0] == 'g');
    assert("ga"@.len() == 2 && "ga"@[0] == 'g');
    assert("cy"@.len() == 2 && "cy"@[0] == 'c' && "cy"@[1] == 'y');
    let rows = eastern_codes();
    assert(western_language_of("rus"@) is None);
    assert(western_language_of("ru"@) is None);
    assert(western_language_of("pol"@) is None);
    assert(western_language_of("pl"@) is None);
    assert(western_language_of("ces"@) is None);
    assert(western_language_of("cze"@) is None);
    assert(western_language_of("cs"@) is None);
    assert(western_language_of("slk"@) is None);
    assert(western_language_of("slo"@) is None);
    assert(western_language_of("sk"@) is None);
    assert(western_language_of("hun"@) is None);
    assert(western_language_of("hu"@) is None);
    assert(western_language_of("ron"@) is None);
    assert(western_language_of("rum"@) is None);
    assert(western_language_of("ro"@) is None);
    assert(western_language_of("ell"@) is None);
    assert(western_language_of("gre"@) is None);
    assert(western_language_of("el"@) is None);
    assert(western_language_of("ukr"@) is None);
    assert(western_language_of("uk"@) is None);
    assert(western_language_of("bul"@) is None);
    assert(western_language_of("bg"@) is None);
    assert(western_language_of("hrv"@) is None);
    assert(western_language_of("hr"@) is None);
    assert(western_language_of("srp"@) is None);
    assert(western_language_of("sr"@) is None);
    assert(western_language_of("slv"@) is None);
    assert(western_language_of("sl"@) is None);
    assert(rows[0] == ("rus"@, "Russian"@));
    assert(rows[1] == ("ru"@, "Russian"@));
    assert(rows[2] == ("pol"@, "Polish"@));
    assert(rows[3] == ("pl"@, "Polish"@));
    assert(rows[4] == ("ces"@, "Czech"@));
    assert(rows[5] == ("cze"@, "Czech"@));
    assert(rows[6] == ("cs"@, "Czech"@));
    assert(rows[7] == ("slk"@, "Slovak"@));
    assert(rows[8] == ("slo"@, "Slovak"@));
    assert(rows[9] == ("sk"@, "Slovak"@));
    assert(rows[10] == ("hun"@, "Hungarian"@));
    assert(rows[11] == ("hu"@, "Hungarian"@));
    assert(rows[12] == ("ron"@, "Romanian"@));
    assert(rows[13] == ("rum"@, "Romanian"@));
    assert(rows[14] == ("ro"@, "Romanian"@));
    assert(rows[15] == ("ell"@, "Greek"@));
    assert(rows[16] == ("gre"@, "Greek"@));
    assert(rows[17] == ("el"@, "Greek"@));
    assert(rows[18] == ("ukr"@, "Ukrainian"@));
    assert(rows[19] == ("uk"@, "Ukrainian"@));
    assert(rows[20] == ("bul"@, "Bulgarian"@));
    assert(rows[21] == ("bg"@, "Bulgarian"@));
    assert(rows[22] == ("hrv"@, "Croatian"@));
    assert(rows[23] == ("hr"@, "Croatian"@));
    assert(rows[24] == ("srp"@, "Serbian"@));
    assert(rows[25] == ("sr"@, "Serbian"@));
    assert(rows[26] == ("slv"@, "Slovenian"@));
    assert(rows[27] == ("sl"@, "Slovenian"@));
}

proof fn lemma_asian_codes()
    ensures
        forall|k: int| 0 <= k < asian_codes().len() ==> asian_language_of((#[trigger] asian_codes()[k]).0) == Some(
            asian_codes()[k].1,
        ),
        forall|base: Seq<char>| (#[trigger] asian_language_of(base)) is Some ==> exists|k: int|
            0 <= k < asian_codes().len() && (#[trigger] asian_codes()[k]).0 == base,
{
    reveal_strlit("jpn");
    reveal_strlit("ja");
    reveal_strlit("tur");
    reveal_strlit("tr");
    reveal_strlit("ara");
    reveal_strlit("ar");
    reveal_strlit("heb");
    reveal_strlit("he");
    reveal_strlit("hin");
    reveal_strlit("hi");
    reveal_strlit("ben");
    reveal_strlit("bn");
    reveal_strlit("tam");
    reveal_strlit("ta");
    reveal_strlit("tel");
    reveal_strlit("te");
    reveal_strlit("tha");
    reveal_strlit("th");
    reveal_strlit("vie");
    reveal_strlit("vi");
    reveal_strlit("ind");
    reveal_strlit("id");
    reveal_strlit("msa");
    reveal_strlit("may");
    reveal_strlit("ms");
    reveal_strlit("kor");
    reveal_strlit("ko");
    reveal_strlit("zho");
    reveal_strlit("chi");
    reveal_strlit("zh");
    reveal_strlit("fas");
    reveal_strlit("per");
    reveal_strlit("fa");
    reveal_strlit("urd");
    reveal_strlit("ur");
    reveal_strlit("fil");
    reveal_strlit("tgl");
    reveal_strlit("tl");
    assert("jpn"@.len() == 3 && "jpn"@[0] == 'j');
    assert("ja"@.len() == 2 && "ja"@[0] == 'j');
    assert("tur"@.len() == 3 && "tur"@[0] == 't' && "tur"@[1] == 'u');
    assert("tr"@.len() == 2 && "tr"@[0] == 't' && "tr"@[1] == 'r');
    assert("ara"@.len() == 3 && "ara"@[0] == 'a');
    assert("ar"@.len() == 2 && "ar"@[0] == 'a');
    assert("heb"@.len() == 3 && "heb"@[0] == 'h' && "heb"@[1] == 'e');
    assert("he"@.len() == 2 && "he"@[0] == 'h' && "he"@[1] == 'e');
    assert("hin"@.len() == 3 && "hin"@[0] == 'h' && "hin"@[1] == 'i');
    assert("hi"@.len() == 2 && "hi"@[0] == 'h' && "hi"@[1] == 'i');
    assert("ben"@.len() == 3 && "ben"@[0] == 'b');
    assert("bn"@.len() == 2 && "bn"@[0] == 'b');
    assert("tam"@.len() == 3 && "tam"@[0] == 't' && "tam"@[1] == 'a');
    assert("ta"@.len() == 2 && "ta"@[0] == 't' && "ta"@[1] == 'a');
    assert("tel"@.len() == 3 && "tel"@[0] == 't' && "tel"@[1] == 'e');
    assert("te"@.len() == 2 && "te"@[0] == 't' && "te"@[1] == 'e');
    assert("tha"@.len() == 3 && "tha"@[0] == 't' && "tha"@[1] == 'h');
    assert("th"@.len() == 2 && "th"@[0] == 't' && "th"@[1] == 'h');
    assert("vie"@.len() == 3 && "vie"@[0] == 'v');
    assert("vi"@.len() == 2 && "vi"@[0] == 'v');
    assert("ind"@.len() == 3 && "ind"@[0] == 'i');
    assert("id"@.len() == 2 && "id"@[0] == 'i');
    assert("msa"@.len() == 3 && "msa"@[0] == 'm' && "msa"@[1] == 's');
    assert("may"@.len() == 3 && "may"@[0] == 'm' && "may"@[1] == 'a');
    assert("ms"@.len() == 2 && "ms"@[0] == 'm');
    assert("kor"@.len() == 3 && "kor"@[0] == 'k');
    assert("ko"@.len() == 2 && "ko"@[0] == 'k');
    assert("zho"@.len() == 3 && "zho"@[0] == 'z');
    assert("chi"@.len() == 3 && "chi"@[0] == 'c');
    assert("zh"@.len() == 2 && "zh"@[0] == 'z');
    assert("fas"@.len() == 3 && "fas"@[0] == 'f' && "fas"@[1] == 'a');
    assert("per"@.len() == 3 && "per"@[0] == 'p');
    assert("fa"@.len() == 2 && "fa"@[0] == 'f');
    assert("urd"@.len() == 3 && "urd"@[0] == 'u');
    assert("ur"@.len() == 2 && "ur"@[0] == 'u');
    assert("fil"@.len() == 3 && "fil"@[0] == 'f' && "fil"@[1] == 'i');
    assert("tgl"@.len() == 3 && "tgl"@[0] == 't' && "tgl"@[1] == 'g');
    assert("tl"@.len() == 2 && "tl"@[0] == 't' && "tl"@[1] == 'l');
    let rows = asian_codes();
    assert(asian_language_of("jpn"@) == Some("Japanese"@));
    assert(asian_language_of("ja"@) == Some("Japanese"@));
    assert(asian_language_of("tur"@) == Some("Turkish"@));
    assert(asian_language_of("tr"@) == Some("Turkish"@));
    assert(asian_language_of("ara"@) == Some("Arabic"@));
    assert(asian_language_of("ar"@) == Some("Arabic"@));
    assert(asian_language_of("heb"@) == Some("Hebrew"@));
    assert(asian_language_of("he"@) == Some("Hebrew"@));
    assert(asian_language_of("hin"@) == Some("Hindi"@));
    assert(asian_language_of("hi"@) == Some("Hindi"@));
    assert(asian_language_of("ben"@) == Some("Bengali"@));
    assert(asian_language_of("bn"@) == Some("Bengali"@));
    assert(asian_language_of("tam"@) == Some("Tamil"@));
    assert(asian_language_of("ta"@) == Some("Tamil"@));
    assert(asian_language_of("tel"@) == Some("Telugu"@));
    assert(asian_language_of("te"@) == Some("Telugu"@));
    assert(asian_language_of("tha"@) == Some("Thai"@));
    assert(asian_language_of("th"@) == Some("Thai"@));
    assert(asian_language_of("vie"@) == Some("Vietnamese"@));
    assert(asian_language_of("vi"@) == Some("Vietnamese"@));
    assert(asian_language_of("ind"@) == Some("Indonesian"@));
    assert(asian_language_of("id"@) == Some("Indonesian"@));
    assert(asian_language_of("msa"@) == Some("Malay"@));
    assert(asian_language_of("may"@) == Some("Malay"@));
    assert(asian_language_of("ms"@) == Some("Malay"@));
    assert(asian_language_of("kor"@) == Some("Korean"@));
    assert(asian_language_of("ko"@) == Some("Korean"@));
    assert(asian_language_of("zho"@) == Some("Chinese"@));
    assert(asian_language_of("chi"@) == Some("Chinese"@));
    assert(asian_language_of("zh"@) == Some("Chinese"@));
    assert(asian_language_of("fas"@) == Some("Persian"@));
    assert(asian_language_of("per"@) == Some("Persian"@));
    assert(asian_language_of("fa"@) == Some("Persian"@));
    assert(asian_language_of("urd"@) == Some("Urdu"@));
    assert(asian_language_of("ur"@) == Some("Urdu"@));
    assert(asian_language_of("fil"@) == Some("Filipino"@));
    assert(asian_language_of("tgl"@) == Some("Filipino"@));
    assert(asian_language_of("tl"@) == Some("Filipino"@));
    assert(rows[0] == ("jpn"@, "Japanese"@));
    assert(rows[1] == ("ja"@, "Japanese"@));
    assert(rows[2] == ("tur"@, "Turkish"@));
    assert(rows[3] == ("tr"@, "Turkish"@));
    assert(rows[4] == ("ara"@, "Arabic"@));
    assert(rows[5] == ("ar"@, "Arabic"@));
    assert(rows[6] == ("heb"@, "Hebrew"@));
    assert(rows[7] == ("he"@, "Hebrew"@));
    assert(rows[8] == ("hin"@, "Hindi"@));
    assert(rows[9] == ("hi"@, "Hindi"@));
    assert(rows[10] == ("ben"@, "Bengali"@));
    assert(rows[11] == ("bn"@, "Bengali"@));
    assert(rows[12] == ("tam"@, "Tamil"@));
    assert(rows[13] == ("ta"@, "Tamil"@));
    assert(rows[14] == ("tel"@, "Telugu"@));
    assert(rows[15] == ("te"@, "Telugu"@));
    assert(rows[16] == ("tha"@, "Thai"@));
    assert(rows[17] == ("th"@, "Thai"@));
    assert(rows[18] == ("vie"@, "Vietnamese"@));
    assert(rows[19] == ("vi"@, "Vietnamese"@));
    assert(rows[20] == ("ind"@, "Indonesian"@));
    assert(rows[21] == ("id"@, "Indonesian"@));
    assert(rows[22] == ("msa"@, "Malay"@));
    assert(rows[23] == ("may"@, "Malay"@));
    assert(rows[24] == ("ms"@, "Malay"@));
    assert(rows[25] == ("kor"@, "Korean"@));
    assert(rows[26] == ("ko"@, "Korean"@));
    assert(rows[27] == ("zho"@, "Chinese"@));
    assert(rows[28] == ("chi"@, "Chinese"@));
    assert(rows[29] == ("zh"@, "Chinese"@));
    assert(rows[30] == ("fas"@, "Persian"@));
    assert(rows[31] == ("per"@, "Persian"@));
    assert(rows[32] == ("fa"@, "Persian"@));
    assert(rows[33] == ("urd"@, "Urdu"@));
    assert(rows[34] == ("ur"@, "Urdu"@));
    assert(rows[35] == ("fil"@, "Filipino"@));
    assert(rows[36] == ("tgl"@, "Filipino"@));
    assert(rows[37] == ("tl"@, "Filipino"@));
}

proof fn lemma_asian_not_western()
    ensures
        forall|k: int| 0 <= k < asian_codes().len() ==> western_language_of((#[trigger] asian_codes()[k]).0) is None,
{
    reveal_strlit("jpn");
    reveal_strlit("ja");
    reveal_strlit("tur");
    reveal_strlit("tr");
    reveal_strlit("ara");
    reveal_strlit("ar");
    reveal_strlit("heb");
    reveal_strlit("he");
    reveal_strlit("hin");
    reveal_strlit("hi");
    reveal_strlit("ben");
    reveal_strlit("bn");
    reveal_strlit("tam");
    reveal_strlit("ta");
    reveal_strlit("tel");
    reveal_strlit("te");
    reveal_strlit("tha");
    reveal_strlit("th");
    reveal_strlit("vie");
    reveal_strlit("vi");
    reveal_strlit("ind");
    reveal_strlit("id");
    reveal_strlit("msa");
    reveal_strlit("may");
    reveal_strlit("ms");
    reveal_strlit("kor");
    reveal_strlit("ko");
    reveal_strlit("zho");
    reveal_strlit("chi");
    reveal_strlit("zh");
    reveal_strlit("fas");
    reveal_strlit("per");
    reveal_strlit("fa");
    reveal_strlit("urd");
    reveal_strlit("ur");
    reveal_strlit("fil");
    reveal_strlit("tgl");
    reveal_strlit("tl");
    reveal_strlit("eng");
    reveal_strlit("spa");
    reveal_strlit("fra");
    reveal_strlit("fre");
    reveal_strlit("deu");
    reveal_strlit("ger");
    reveal_strlit("ita");
    reveal_strlit("por");
    reveal_strlit("nld");
    reveal_strlit("dut");
    reveal_strlit("swe");
    reveal_strlit("nor");
    reveal_strlit("dan");
    reveal_strlit("fin");
    reveal_strlit("isl");
    reveal_strlit("ice");
    reveal_strlit("cat");
    reveal_strlit("eus");
    reveal_strlit("baq");
    reveal_strlit("glg");
    reveal_strlit("gle");
    reveal_strlit("cym");
    reveal_strlit("wel");
    reveal_strlit("en");
    reveal_strlit("es");
    reveal_strlit("fr");
    reveal_strlit("de");
    reveal_strlit("it");
    reveal_strlit("pt");
    reveal_strlit("nl");
    reveal_strlit("sv");
    reveal_strlit("no");
    reveal_strlit("da");
    reveal_strlit("fi");
    reveal_strlit("is");
    reveal_strlit("ca");
    reveal_strlit("eu");
    reveal_strlit("gl");
    reveal_strlit("ga");
    reveal_strlit("cy");
    assert("jpn"@.len() == 3 && "jpn"@[0] == 'j');
    assert("ja"@.len() == 2 && "ja"@[0] == 'j');
    assert("tur"@.len() == 3 && "tur"@[0] == 't');
    assert("tr"@.len() == 2 && "tr"@[0] == 't');
    assert("ara"@.len() == 3 && "ara"@[0] == 'a');
    assert("ar"@.len() == 2 && "ar"@[0] == 'a');
    assert("heb"@.len() == 3 && "heb"@[0] == 'h');
    assert("he"@.len() == 2 && "he"@[0] == 'h');
    assert("hin"@.len() == 3 && "hin"@[0] == 'h');
    assert("hi"@.len() == 2 && "hi"@[0] == 'h');
    assert("ben"@.len() == 3 && "ben"@[0] == 'b' && "ben"@[1] == 'e');
    assert("bn"@.len() == 2 && "bn"@[0] == 'b');
    assert("tam"@.len() == 3 && "tam"@[0] == 't');
    assert("ta"@.len() == 2 && "ta"@[0] == 't');
    assert("tel"@.len() == 3 && "tel"@[0] == 't');
    assert("te"@.len() == 2 && "te"@[0] == 't');
    assert("tha"@.len() == 3 && "tha"@[0] == 't');
    assert("th"@.len() == 2 && "th"@[0] == 't');
    assert("vie"@.len() == 3 && "vie"@[0] == 'v');
    assert("vi"@.len() == 2 && "vi"@[0] == 'v');
    assert("ind"@.len() == 3 && "ind"@[0] == 'i' && "ind"@[1] == 'n');
    assert("id"@.len() == 2 && "id"@[0] == 'i' && "id"@[1] == 'd');
    assert("msa"@.len() == 3 && "msa"@[0] == 'm');
    assert("may"@.len() == 3 && "may"@[0] == 'm');
    assert("ms"@.len() == 2 && "ms"@[0] == 'm');
    assert("kor"@.len() == 3 && "kor"@[0] == 'k');
    assert("ko"@.len() == 2 && "ko"@[0] == 'k');
    assert("zho"@.len() == 3 && "zho"@[0] == 'z');
    assert("chi"@.len() == 3 && "chi"@[0] == 'c' && "chi"@[1] == 'h');
    assert("zh"@.len() == 2 && "zh"@[0] == 'z');
    assert("fas"@.len() == 3 && "fas"@[0] == 'f' && "fas"@[1] == 'a');
    assert("per"@.len() == 3 && "per"@[0] == 'p' && "per"@[1] == 'e');
    assert("fa"@.len() == 2 && "fa"@[0] == 'f' && "fa"@[1] == 'a');
    assert("urd"@.len() == 3 && "urd"@[0] == 'u');
    assert("ur"@.len() == 2 && "ur"@[0] == 'u');
    assert("fil"@.len() == 3 && "fil"@[0] == 'f' && "fil"@[1] == 'i' && "fil"@[2] == 'l');
    assert("tgl"@.len() == 3 && "tgl"@[0] == 't');
    assert("tl"@.len() == 2 && "tl"@[0] == 't');
    assert("eng"@.len() == 3 && "eng"@[0] == 'e');
    assert("spa"@.len() == 3 && "spa"@[0] == 's');
    assert("fra"@.len() == 3 && "fra"@[0] == 'f' && "fra"@[1] == 'r');
    assert("fre"@.len() == 3 && "fre"@[0] == 'f' && "fre"@[1] == 'r');
    assert("deu"@.len() == 3 && "deu"@[0] == 'd');
    assert("ger"@.len() == 3 && "ger"@[0] == 'g');
    assert("ita"@.len() == 3 && "ita"@[0] == 'i' && "ita"@[1] == 't');
    assert("por"@.len() == 3 && "por"@[0] == 'p' && "por"@[1] == 'o');
    assert("nld"@.len() == 3 && "nld"@[0] == 'n');
    assert("dut"@.len() == 3 && "dut"@[0] == 'd');
    assert("swe"@.len() == 3 && "swe"@[0] == 's');
    assert("nor"@.len() == 3 && "nor"@[0] == 'n');
    assert("dan"@.len() == 3 && "dan"@[0] == 'd');
    assert("fin"@.len() == 3 && "fin"@[0] == 'f' && "fin"@[1] == 'i' && "fin"@[2] == 'n');
    assert("isl"@.len() == 3 && "isl"@[0] == 'i' && "isl"@[1] == 's');
    assert("ice"@.len() == 3 && "ice"@[0] == 'i' && "ice"@[1] == 'c');
    assert("cat"@.len() == 3 && "cat"@[0] == 'c' && "cat"@[1] == 'a');
    assert("eus"@.len() == 3 && "eus"@[0] == 'e');
    assert("baq"@.len() == 3 && "baq"@[0] == 'b' && "baq"@[1] == 'a');
    assert("glg"@.len() == 3 && "glg"@[0] == 'g');
    assert("gle"@.len() == 3 && "gle"@[0] == 'g');
    assert("cym"@.len() == 3 && "cym"@[0] == 'c' && "cym"@[1] == 'y');
    assert("wel"@.len() == 3 && "wel"@[0] == 'w');
    assert("en"@.len() == 2 && "en"@[0] == 'e');
    assert("es"@.len() == 2 && "es"@[0] == 'e');
    assert("fr"@.len() == 2 && "fr"@[0] == 'f' && "fr"@[1] == 'r');
    assert("de"@.len() == 2 && "de"@[0] == 'd');
    assert("it"@.len() == 2 && "it"@[0] == 'i' && "it"@[1] == 't');
    assert("pt"@.len() == 2 && "pt"@[0] == 'p');
    assert("nl"@.len() == 2 && "nl"@[0] == 'n');
    assert("sv"@.len() == 2 && "sv"@[0] == 's');
    assert("no"@.len() == 2 && "no"@[0] == 'n');
    assert("da"@.len() == 2 && "da"@[0] == 'd');
    assert("fi"@.len() == 2 && "fi"@[0] == 'f' && "fi"@[1] == 'i');
    assert("is"@.len() == 2 && "is"@[0] == 'i' && "is"@[1] == 's');
    assert("ca"@.len() == 2 && "ca"@[0] == 'c');
    assert("eu"@.len() == 2 && "eu"@[0] == 'e');
    assert("gl"@.len() == 2 && "gl"@[0] == 'g');
    assert("ga"@.len() == 2 && "ga"@[0] == 'g');
    assert("cy"@.len() == 2 && "cy"@[0] == 'c');
    let rows = asian_codes();
    assert(western_language_of("jpn"@) is None);
    assert(western_language_of("ja"@) is None);
    assert(western_language_of("tur"@) is None);
    assert(western_language_of("tr"@) is None);
    assert(western_language_of("ara"@) is None);
    assert(western_language_of("ar"@) is None);
    assert(western_language_of("heb"@) is None);
    assert(western_language_of("he"@) is None);
    assert(western_language_of("hin"@) is None);
    assert(western_language_of("hi"@) is None);
    assert(western_language_of("ben"@) is None);
    assert(western_language_of("bn"@) is None);
    assert(western_language_of("tam"@) is None);
    assert(western_language_of("ta"@) is None);
    assert(western_language_of("tel"@) is None);
    assert(western_language_of("te"@) is None);
    assert(western_language_of("tha"@) is None);
    assert(western_language_of("th"@) is None);
    assert(western_language_of("vie"@) is None);
    assert(western_language_of("vi"@) is None);
    assert(western_language_of("ind"@) is None);
    assert(western_language_of("id"@) is None);
    assert(western_language_of("msa"@) is None);
    assert(western_language_of("may"@) is None);
    assert(western_language_of("ms"@) is None);
    assert(western_language_of("kor"@) is None);
    assert(western_language_of("ko"@) is None);
    assert(western_language_of("zho"@) is None);
    assert(western_language_of("chi"@) is None);
    assert(western_language_of("zh"@) is None);
    assert(western_language_of("fas"@) is None);
    assert(western_language_of("per"@) is None);
    assert(western_language_of("fa"@) is None);
    assert(western_language_of("urd"@) is None);
    assert(western_language_of("ur"@) is None);
    assert(western_language_of("fil"@) is None);
    assert(western_language_of("tgl"@) is None);
    assert(western_language_of("tl"@) is None);
    assert(rows[0] == ("jpn"@, "Japanese"@));
    assert(rows[1] == ("ja"@, "Japanese"@));
    assert(rows[2] == ("tur"@, "Turkish"@));
    assert(rows[3] == ("tr"@, "Turkish"@));
    assert(rows[4] == ("ara"@, "Arabic"@));
    assert(rows[5] == ("ar"@, "Arabic"@));
    assert(rows[6] == ("heb"@, "Hebrew"@));
    assert(rows[7] == ("he"@, "Hebrew"@));
    assert(rows[8] == ("hin"@, "Hindi"@));
    assert(rows[9] == ("hi"@, "Hindi"@));
    assert(rows[10] == ("ben"@, "Bengali"@));
    assert(rows[11] == ("bn"@, "Bengali"@));
    assert(rows[12] == ("tam"@, "Tamil"@));
    assert(rows[13] == ("ta"@, "Tamil"@));
    assert(rows[14] == ("tel"@, "Telugu"@));
    assert(rows[15] == ("te"@, "Telugu"@));
    assert(rows[16] == ("tha"@, "Thai"@));
    assert(rows[17] == ("th"@, "Thai"@));
    assert(rows[18] == ("vie"@, "Vietnamese"@));
    assert(rows[19] == ("vi"@, "Vietnamese"@));
    assert(rows[20] == ("ind"@, "Indonesian"@));
    assert(rows[21] == ("id"@, "Indonesian"@));
    assert(rows[22] == ("msa"@, "Malay"@));
    assert(rows[23] == ("may"@, "Malay"@));
    assert(rows[24] == ("ms"@, "Malay"@));
    assert(rows[25] == ("kor"@, "Korean"@));
    assert(rows[26] == ("ko"@, "Korean"@));
    assert(rows[27] == ("zho"@, "Chinese"@));
    assert(rows[28] == ("chi"@, "Chinese"@));
    assert(rows[29] == ("zh"@, "Chinese"@));
    assert(rows[30] == ("fas"@, "Persian"@));
    assert(rows[31] == ("per"@, "Persian"@));
    assert(rows[32] == ("fa"@, "Persian"@));
    assert(rows[33] == ("urd"@, "Urdu"@));
    assert(rows[34] == ("ur"@, "Urdu"@));
    assert(rows[35] == ("fil"@, "Filipino"@));
    assert(rows[36] == ("tgl"@, "Filipino"@));
    assert(rows[37] == ("tl"@, "Filipino"@));
}

proof fn lemma_asian_not_eastern()
    ensures
        forall|k: int| 0 <= k < asian_codes().len() ==> eastern_language_of((#[trigger] asian_codes()[k]).0) is None,
{
    reveal_strlit("jpn");
    reveal_strlit("ja");
    reveal_strlit("tur");
    reveal_strlit("tr");
    reveal_strlit("ara");
    reveal_strlit("ar");
    reveal_strlit("heb");
    reveal_strlit("he");
    reveal_strlit("hin");
    reveal_strlit("hi");
    reveal_strlit("ben");
    reveal_strlit("bn");
    reveal_strlit("tam");
    reveal_strlit("ta");
    reveal_strlit("tel");
    reveal_strlit("te");
    reveal_strlit("tha");
    reveal_strlit("th");
    reveal_strlit("vie");
    reveal_strlit("vi");
    reveal_strlit("ind");
    reveal_strlit("id");
    reveal_strlit("msa");
    reveal_strlit("may");
    reveal_strlit("ms");
    reveal_strlit("kor");
    reveal_strlit("ko");
    reveal_strlit("zho");
    reveal_strlit("chi");
    reveal_strlit("zh");
    reveal_strlit("fas");
    reveal_strlit("per");
    reveal_strlit("fa");
    reveal_strlit("urd");
    reveal_strlit("ur");
    reveal_strlit("fil");
    reveal_strlit("tgl");
    reveal_strlit("tl");
    reveal_strlit("rus");
    reveal_strlit("pol");
    reveal_strlit("ces");
    reveal_strlit("cze");
    reveal_strlit("slk");
    reveal_strlit("slo");
    reveal_strlit("hun");
    reveal_strlit("ron");
    reveal_strlit("rum");
    reveal_strlit("ell");
    reveal_strlit("gre");
    reveal_strlit("ukr");
    reveal_strlit("bul");
    reveal_strlit("hrv");
    reveal_strlit("srp");
    reveal_strlit("slv");
    reveal_strlit("ru");
    reveal_strlit("pl");
    reveal_strlit("cs");
    reveal_strlit("sk");
    reveal_strlit("hu");
    reveal_strlit("ro");
    reveal_strlit("el");
    reveal_strlit("uk");
    reveal_strlit("bg");
    reveal_strlit("hr");
    reveal_strlit("sr");
    reveal_strlit("sl");
    assert("jpn"@.len() == 3 && "jpn"@[0] == 'j');
    assert("ja"@.len() == 2 && "ja"@[0] == 'j');
    assert("tur"@.len() == 3 && "tur"@[0] == 't');
    assert("tr"@.len() == 2 && "tr"@[0] == 't');
    assert("ara"@.len() == 3 && "ara"@[0] == 'a');
    assert("ar"@.len() == 2 && "ar"@[0] == 'a');
    assert("heb"@.len() == 3 && "heb"@[0] == 'h' && "heb"@[1] == 'e');
    assert("he"@.len() == 2 && "he"@[0] == 'h' && "he"@[1] == 'e');
    assert("hin"@.len() == 3 && "hin"@[0] == 'h' && "hin"@[1] == 'i');
    assert("hi"@.len() == 2 && "hi"@[0] == 'h' && "hi"@[1] == 'i');
    assert("ben"@.len() == 3 && "ben"@[0] == 'b' && "ben"@[1] == 'e');
    assert("bn"@.len() == 2 && "bn"@[0] == 'b' && "bn"@[1] == 'n');
    assert("tam"@.len() == 3 && "tam"@[0] == 't');
    assert("ta"@.len() == 2 && "ta"@[0] == 't');
    assert("tel"@.len() == 3 && "tel"@[0] == 't');
    assert("te"@.len() == 2 && "te"@[0] == 't');
    assert("tha"@.len() == 3 && "tha"@[0] == 't');
    assert("th"@.len() == 2 && "th"@[0] == 't');
    assert("vie"@.len() == 3 && "vie"@[0] == 'v');
    assert("vi"@.len() == 2 && "vi"@[0] == 'v');
    assert("ind"@.len() == 3 && "ind"@[0] == 'i');
    assert("id"@.len() == 2 && "id"@[0] == 'i');
    assert("msa"@.len() == 3 && "msa"@[0] == 'm');
    assert("may"@.len() == 3 && "may"@[0] == 'm');
    assert("ms"@.len() == 2 && "ms"@[0] == 'm');
    assert("kor"@.len() == 3 && "kor"@[0] == 'k');
    assert("ko"@.len() == 2 && "ko"@[0] == 'k');
    assert("zho"@.len() == 3 && "zho"@[0] == 'z');
    assert("chi"@.len() == 3 && "chi"@[0] == 'c' && "chi"@[1] == 'h');
    assert("zh"@.len() == 2 && "zh"@[0] == 'z');
    assert("fas"@.len() == 3 && "fas"@[0] == 'f');
    assert("per"@.len() == 3 && "per"@[0] == 'p' && "per"@[1] == 'e');
    assert("fa"@.len() == 2 && "fa"@[0] == 'f');
    assert("urd"@.len() == 3 && "urd"@[0] == 'u' && "urd"@[1] == 'r');
    assert("ur"@.len() == 2 && "ur"@[0] == 'u' && "ur"@[1] == 'r');
    assert("fil"@.len() == 3 && "fil"@[0] == 'f');
    assert("tgl"@.len() == 3 && "tgl"@[0] == 't');
    assert("tl"@.len() == 2 && "tl"@[0] == 't');
    assert("rus"@.len() == 3 && "rus"@[0] == 'r');
    assert("pol"@.len() == 3 && "pol"@[0] == 'p' && "pol"@[1] == 'o');
    assert("ces"@.len() == 3 && "ces"@[0] == 'c' && "ces"@[1] == 'e');
    assert("cze"@.len() == 3 && "cze"@[0] == 'c' && "cze"@[1] == 'z');
    assert("slk"@.len() == 3 && "slk"@[0] == 's');
    assert("slo"@.len() == 3 && "slo"@[0] == 's');
    assert("hun"@.len() == 3 && "hun"@[0] == 'h' && "hun"@[1] == 'u');
    assert("ron"@.len() == 3 && "ron"@[0] == 'r');
    assert("rum"@.len() == 3 && "rum"@[0] == 'r');
    assert("ell"@.len() == 3 && "ell"@[0] == 'e');
    assert("gre"@.len() == 3 && "gre"@[0] == 'g');
    assert("ukr"@.len() == 3 && "ukr"@[0] == 'u' && "ukr"@[1] == 'k');
    assert("bul"@.len() == 3 && "bul"@[0] == 'b' && "bul"@[1] == 'u');
    assert("hrv"@.len() == 3 && "hrv"@[0] == 'h' && "hrv"@[1] == 'r');
    assert("srp"@.len() == 3 && "srp"@[0] == 's');
    assert("slv"@.len() == 3 && "slv"@[0] == 's');
    assert("ru"@.len() == 2 && "ru"@[0] == 'r');
    assert("pl"@.len() == 2 && "pl"@[0] == 'p');
    assert("cs"@.len() == 2 && "cs"@[0] == 'c');
    assert("sk"@.len() == 2 && "sk"@[0] == 's');
    assert("hu"@.len() == 2 && "hu"@[0] == 'h' && "hu"@[1] == 'u');
    assert("ro"@.len() == 2 && "ro"@[0] == 'r');
    assert("el"@.len() == 2 && "el"@[0] == 'e');
    assert("uk"@.len() == 2 && "uk"@[0] == 'u' && "uk"@[1] == 'k');
    assert("bg"@.len() == 2 && "bg"@[0] == 'b' && "bg"@[1] == 'g');
    assert("hr"@.len() == 2 && "hr"@[0] == 'h' && "hr"@[1] == 'r');
    assert("sr"@.len() == 2 && "sr"@[0] == 's');
    assert("sl"@.len() == 2 && "sl"@[0] == 's');
    let rows = asian_codes();
    assert(eastern_language_of("jpn"@) is None);
    assert(eastern_language_of("ja"@) is None);
    assert(eastern_language_of("tur"@) is None);
    assert(eastern_language_of("tr"@) is None);
    assert(eastern_language_of("ara"@) is None);
    assert(eastern_language_of("ar"@) is None);
    assert(eastern_language_of("heb"@) is None);
    assert(eastern_language_of("he"@) is None);
    assert(eastern_language_of("hin"@) is None);
    assert(eastern_language_of("hi"@) is None);
    assert(eastern_language_of("ben"@) is None);
    assert(eastern_language_of("bn"@) is None);
    assert(eastern_language_of("tam"@) is None);
    assert(eastern_language_of("ta"@) is None);
    assert(eastern_language_of("tel"@) is None);
    assert(eastern_language_of("te"@) is None);
    assert(eastern_language_of("tha"@) is None);
    assert(eastern_language_of("th"@) is None);
    assert(eastern_language_of("vie"@) is None);
    assert(eastern_language_of("vi"@) is None);
    assert(eastern_language_of("ind"@) is None);
    assert(eastern_language_of("id"@) is None);
    assert(eastern_language_of("msa"@) is None);
    assert(eastern_language_of("may"@) is None);
    assert(eastern_language_of("ms"@) is None);
    assert(eastern_language_of("kor"@) is None);
    assert(eastern_language_of("ko"@) is None);
    assert(eastern_language_of("zho"@) is None);
    assert(eastern_language_of("chi"@) is None);
    assert(eastern_language_of("zh"@) is None);
    assert(eastern_language_of("fas"@) is None);
    assert(eastern_language_of("per"@) is None);
    assert(eastern_language_of("fa"@) is None);
    assert(eastern_language_of("urd"@) is None);
    assert(eastern_language_of("ur"@) is None);
    assert(eastern_language_of("fil"@) is None);
    assert(eastern_language_of("tgl"@) is None);
    assert(eastern_language_of("tl"@) is None);
    assert(rows[0] == ("jpn"@, "Japanese"@));
    assert(rows[1] == ("ja"@, "Japanese"@));
    assert(rows[2] == ("tur"@, "Turkish"@));
    assert(rows[3] == ("tr"@, "Turkish"@));
    assert(rows[4] == ("ara"@, "Arabic"@));
    assert(rows[5] == ("ar"@, "Arabic"@));
    assert(rows[6] == ("heb"@, "Hebrew"@));
    assert(rows[7] == ("he"@, "Hebrew"@));
    assert(rows[8] == ("hin"@, "Hindi"@));
    assert(rows[9] == ("hi"@, "Hindi"@));
    assert(rows[10] == ("ben"@, "Bengali"@));
    assert(rows[11] == ("bn"@, "Bengali"@));
    assert(rows[12] == ("tam"@, "Tamil"@));
    assert(rows[13] == ("ta"@, "Tamil"@));
    assert(rows[14] == ("tel"@, "Telugu"@));
    assert(rows[15] == ("te"@, "Telugu"@));
    assert(rows[16] == ("tha"@, "Thai"@));
    assert(rows[17] == ("th"@, "Thai"@));
    assert(rows[18] == ("vie"@, "Vietnamese"@));
    assert(rows[19] == ("vi"@, "Vietnamese"@));
    assert(rows[20] == ("ind"@, "Indonesian"@));
    assert(rows[21] == ("id"@, "Indonesian"@));
    assert(rows[22] == ("msa"@, "Malay"@));
    assert(rows[23] == ("may"@, "Malay"@));
    assert(rows[24] == ("ms"@, "Malay"@));
    assert(rows[25] == ("kor"@, "Korean"@));
    assert(rows[26] == ("ko"@, "Korean"@));
    assert(rows[27] == ("zho"@, "Chinese"@));
    assert(rows[28] == ("chi"@, "Chinese"@));
    assert(rows[29] == ("zh"@, "Chinese"@));
    assert(rows[30] == ("fas"@, "Persian"@));
    assert(rows[31] == ("per"@, "Persian"@));
    assert(rows[32] == ("fa"@, "Persian"@));
    assert(rows[33] == ("urd"@, "Urdu"@));
    assert(rows[34] == ("ur"@, "Urdu"@));
    assert(rows[35] == ("fil"@, "Filipino"@));
    assert(rows[36] == ("tgl"@, "Filipino"@));
    assert(rows[37] == ("tl"@, "Filipino"@));
}

proof fn lemma_other_codes()
    ensures
        forall|k: int| 0 <= k < other_codes().len() ==> other_language_of((#[trigger] other_codes()[k]).0) == Some(
            other_codes()[k].1,
        ),
        forall|base: Seq<char>| (#[trigger] other_language_of(base)) is Some ==> exists|k: int|
            0 <= k < other_codes().len() && (#[trigger] other_codes()[k]).0 == base,
{
    reveal_strlit("und");
    reveal_strlit("mul");
    reveal_strlit("zxx");
    assert("und"@.len() == 3 && "und"@[0] == 'u');
    assert("mul"@.len() == 3 && "mul"@[0] == 'm');
    assert("zxx"@.len() == 3 && "zxx"@[0] == 'z');
    let rows = other_codes();
    assert(other_language_of("und"@) == Some("Undetermined"@));
    assert(other_language_of("mul"@) == Some("Multiple"@));
    assert(other_language_of("zxx"@) == Some("No linguistic content"@));
    assert(rows[0] == ("und"@, "Undetermined"@));
    assert(rows[1] == ("mul"@, "Multiple"@));
    assert(rows[2] == ("zxx"@, "No linguistic content"@));
}

proof fn lemma_other_not_western()
    ensures
        forall|k: int| 0 <= k < other_codes().len() ==> western_language_of((#[trigger] other_codes()[k]).0) is None,
{
    reveal_strlit("und");
    reveal_strlit("mul");
    reveal_strlit("zxx");
    reveal_strlit("eng");
    reveal_strlit("spa");
    reveal_strlit("fra");
    reveal_strlit("fre");
    reveal_strlit("deu");
    reveal_strlit("ger");
    reveal_strlit("ita");
    reveal_strlit("por");
    reveal_strlit("nld");
    reveal_strlit("dut");
    reveal_strlit("swe");
    reveal_strlit("nor");
    reveal_strlit("dan");
    reveal_strlit("fin");
    reveal_strlit("isl");
    reveal_strlit("ice");
    reveal_strlit("cat");
    reveal_strlit("eus");
    reveal_strlit("baq");
    reveal_strlit("glg");
    reveal_strlit("gle");
    reveal_strlit("cym");
    reveal_strlit("wel");
    assert("und"@.len() == 3 && "und"@[0] == 'u');
    assert("mul"@.len() == 3 && "mul"@[0] == 'm');
    assert("zxx"@.len() == 3 && "zxx"@[0] == 'z');
    assert("eng"@.len() == 3 && "eng"@[0] == 'e');
    assert("spa"@.len() == 3 && "spa"@[0] == 's');
    assert("fra"@.len() == 3 && "fra"@[0] == 'f');
    assert("fre"@.len() == 3 && "fre"@[0] == 'f');
    assert("deu"@.len() == 3 && "deu"@[0] == 'd');
    assert("ger"@.len() == 3 && "ger"@[0] == 'g');
    assert("ita"@.len() == 3 && "ita"@[0] == 'i');
    assert("por"@.len() == 3 && "por"@[0] == 'p');
    assert("nld"@.len() == 3 && "nld"@[0] == 'n');
    assert("dut"@.len() == 3 && "dut"@[0] == 'd');
    assert("swe"@.len() == 3 && "swe"@[0] == 's');
    assert("nor"@.len() == 3 && "nor"@[0] == 'n');
    assert("dan"@.len() == 3 && "dan"@[0] == 'd');
    assert("fin"@.len() == 3 && "fin"@[0] == 'f');
    assert("isl"@.len() == 3 && "isl"@[0] == 'i');
    assert("ice"@.len() == 3 && "ice"@[0] == 'i');
    assert("cat"@.len() == 3 && "cat"@[0] == 'c');
    assert("eus"@.len() == 3 && "eus"@[0] == 'e');
    assert("baq"@.len() == 3 && "baq"@[0] == 'b');
    assert("glg"@.len() == 3 && "glg"@[0] == 'g');
    assert("gle"@.len() == 3 && "gle"@[0] == 'g');
    assert("cym"@.len() == 3 && "cym"@[0] == 'c');
    assert("wel"@.len() == 3 && "wel"@[0] == 'w');
    reveal_strlit("en");
    assert("en"@.len() == 2);
    reveal_strlit("es");
    assert("es"@.len() == 2);
    reveal_strlit("fr");
    assert("fr"@.len() == 2);
    reveal_strlit("de");
    assert("de"@.len() == 2);
    reveal_strlit("it");
    assert("it"@.len() == 2);
    reveal_strlit("pt");
    assert("pt"@.len() == 2);
    reveal_strlit("nl");
    assert("nl"@.len() == 2);
    reveal_strlit("sv");
    assert("sv"@.len() == 2);
    reveal_strlit("no");
    assert("no"@.len() == 2);
    reveal_strlit("da");
    assert("da"@.len() == 2);
    reveal_strlit("fi");
    assert("fi"@.len() == 2);
    reveal_strlit("is");
    assert("is"@.len() == 2);
    reveal_strlit("ca");
    assert("ca"@.len() == 2);
    reveal_strlit("eu");
    assert("eu"@.len() == 2);
    reveal_strlit("gl");
    assert("gl"@.len() == 2);
    reveal_strlit("ga");
    assert("ga"@.len() == 2);
    reveal_strlit("cy");
    assert("cy"@.len() == 2);
    let rows = other_codes();
    assert(western_language_of("und"@) is None);
    assert(western_language_of("mul"@) is None);
    assert(western_language_of("zxx"@) is None);
    assert(rows[0] == ("und"@, "Undetermined"@));
    assert(rows[1] == ("mul"@, "Multiple"@));
    assert(rows[2] == ("zxx"@, "No linguistic content"@));
}

proof fn lemma_other_not_eastern()
    ensures
        forall|k: int| 0 <= k < other_codes().len() ==> eastern_language_of((#[trigger] other_codes()[k]).0) is None,
{
    reveal_strlit("und");
    reveal_strlit("mul");
    reveal_strlit("zxx");
    reveal_strlit("rus");
    reveal_strlit("pol");
    reveal_strlit("ces");
    reveal_strlit("cze");
    reveal_strlit("slk");
    reveal_strlit("slo");
    reveal_strlit("hun");
    reveal_strlit("ron");
    reveal_strlit("rum");
    reveal_strlit("ell");
    reveal_strlit("gre");
    reveal_strlit("ukr");
    reveal_strlit("bul");
    reveal_strlit("hrv");
    reveal_strlit("srp");
    reveal_strlit("slv");
    assert("und"@.len() == 3 && "und"@[0] == 'u' && "und"@[1] == 'n');
    assert("mul"@.len() == 3 && "mul"@[0] == 'm');
    assert("zxx"@.len() == 3 && "zxx"@[0] == 'z');
    assert("rus"@.len() == 3 && "rus"@[0] == 'r');
    assert("pol"@.len() == 3 && "pol"@[0] == 'p');
    assert("ces"@.len() == 3 && "ces"@[0] == 'c');
    assert("cze"@.len() == 3 && "cze"@[0] == 'c');
    assert("slk"@.len() == 3 && "slk"@[0] == 's');
    assert("slo"@.len() == 3 && "slo"@[0] == 's');
    assert("hun"@.len() == 3 && "hun"@[0] == 'h');
    assert("ron"@.len() == 3 && "ron"@[0] == 'r');
    assert("rum"@.len() == 3 && "rum"@[0] == 'r');
    assert("ell"@.len() == 3 && "ell"@[0] == 'e');
    assert("gre"@.len() == 3 && "gre"@[0] == 'g');
    assert("ukr"@.len() == 3 && "ukr"@[0] == 'u' && "ukr"@[1] == 'k');
    assert("bul"@.len() == 3 && "bul"@[0] == 'b');
    assert("hrv"@.len() == 3 && "hrv"@[0] == 'h');
    assert("srp"@.len() == 3 && "srp"@[0] == 's');
    assert("slv"@.len() == 3 && "slv"@[0] == 's');
    reveal_strlit("ru");
    assert("ru"@.len() == 2);
    reveal_strlit("pl");
    assert("pl"@.len() == 2);
    reveal_strlit("cs");
    assert("cs"@.len() == 2);
    reveal_strlit("sk");
    assert("sk"@.len() == 2);
    reveal_strlit("hu");
    assert("hu"@.len() == 2);
    reveal_strlit("ro");
    assert("ro"@.len() == 2);
    reveal_strlit("el");
    assert("el"@.len() == 2);
    reveal_strlit("uk");
    assert("uk"@.len() == 2);
    reveal_strlit("bg");
    assert("bg"@.len() == 2);
    reveal_strlit("hr");
    assert("hr"@.len() == 2);
    reveal_strlit("sr");
    assert("sr"@.len() == 2);
    reveal_strlit("sl");
    assert("sl"@.len() == 2);
    let rows = other_codes();
    assert(eastern_language_of("und"@) is None);
    assert(eastern_language_of("mul"@) is None);
    assert(eastern_language_of("zxx"@) is None);
    assert(rows[0] == ("und"@, "Undetermined"@));
    assert(rows[1] == ("mul"@, "Multiple"@));
    assert(rows[2] == ("zxx"@, "No linguistic content"@));
}

proof fn lemma_other_not_asian()
    ensures
        forall|k: int| 0 <= k < other_codes().len() ==> asian_language_of((#[trigger] other_codes()[k]).0) is None,
{
    reveal_strlit("und");
    reveal_strlit("mul");
    reveal_strlit("zxx");
    reveal_strlit("jpn");
    reveal_strlit("tur");
    reveal_strlit("ara");
    reveal_strlit("heb");
    reveal_strlit("hin");
    reveal_strlit("ben");
    reveal_strlit("tam");
    reveal_strlit("tel");
    reveal_strlit("tha");
    reveal_strlit("vie");
    reveal_strlit("ind");
    reveal_strlit("msa");
    reveal_strlit("may");
    reveal_strlit("kor");
    reveal_strlit("zho");
    reveal_strlit("chi");
    reveal_strlit("fas");
    reveal_strlit("per");
    reveal_strlit("urd");
    reveal_strlit("fil");
    reveal_strlit("tgl");
    assert("und"@.len() == 3 && "und"@[0] == 'u' && "und"@[1] == 'n');
    assert("mul"@.len() == 3 && "mul"@[0] == 'm' && "mul"@[1] == 'u');
    assert("zxx"@.len() == 3 && "zxx"@[0] == 'z' && "zxx"@[1] == 'x');
    assert("jpn"@.len() == 3 && "jpn"@[0] == 'j');
    assert("tur"@.len() == 3 && "tur"@[0] == 't');
    assert("ara"@.len() == 3 && "ara"@[0] == 'a');
    assert("heb"@.len() == 3 && "heb"@[0] == 'h');
    assert("hin"@.len() == 3 && "hin"@[0] == 'h');
    assert("ben"@.len() == 3 && "ben"@[0] == 'b');
    assert("tam"@.len() == 3 && "tam"@[0] == 't');
    assert("tel"@.len() == 3 && "tel"@[0] == 't');
    assert("tha"@.len() == 3 && "tha"@[0] == 't');
    assert("vie"@.len() == 3 && "vie"@[0] == 'v');
    assert("ind"@.len() == 3 && "ind"@[0] == 'i');
    assert("msa"@.len() == 3 && "msa"@[0] == 'm' && "msa"@[1] == 's');
    assert("may"@.len() == 3 && "may"@[0] == 'm' && "may"@[1] == 'a');
    assert("kor"@.len() == 3 && "kor"@[0] == 'k');
    assert("zho"@.len() == 3 && "zho"@[0] == 'z' && "zho"@[1] == 'h');
    assert("chi"@.len() == 3 && "chi"@[0] == 'c');
    assert("fas"@.len() == 3 && "fas"@[0] == 'f');
    assert("per"@.len() == 3 && "per"@[0] == 'p');
    assert("urd"@.len() == 3 && "urd"@[0] == 'u' && "urd"@[1] == 'r');
    assert("fil"@.len() == 3 && "fil"@[0] == 'f');
    assert("tgl"@.len() == 3 && "tgl"@[0] == 't');
    reveal_strlit("ja");
    assert("ja"@.len() == 2);
    reveal_strlit("tr");
    assert("tr"@.len() == 2);
    reveal_strlit("ar");
    assert("ar"@.len() == 2);
    reveal_strlit("he");
    assert("he"@.len() == 2);
    reveal_strlit("hi");
    assert("hi"@.len() == 2);
    reveal_strlit("bn");
    assert("bn"@.len() == 2);
    reveal_strlit("ta");
    assert("ta"@.len() == 2);
    reveal_strlit("te");
    assert("te"@.len() == 2);
    reveal_strlit("th");
    assert("th"@.len() == 2);
    reveal_strlit("vi");
    assert("vi"@.len() == 2);
    reveal_strlit("id");
    assert("id"@.len() == 2);
    reveal_strlit("ms");
    assert("ms"@.len() == 2);
    reveal_strlit("ko");
    assert("ko"@.len() == 2);
    reveal_strlit("zh");
    assert("zh"@.len() == 2);
    reveal_strlit("fa");
    assert("fa"@.len() == 2);
    reveal_strlit("ur");
    assert("ur"@.len() == 2);
    reveal_strlit("tl");
    assert("tl"@.len() == 2);
    let rows = other_codes();
    assert(asian_language_of("und"@) is None);
    assert(asian_language_of("mul"@) is None);
    assert(asian_language_of("zxx"@) is None);
    assert(rows[0] == ("und"@, "Undetermined"@));
    assert(rows[1] == ("mul"@, "Multiple"@));
    assert(rows[2] == ("zxx"@, "No linguistic content"@));
}

/// Every known code has the name of its language, and no other code has one.
pub proof fn law_languages_have_their_names(base: Seq<char>)
    ensures
        forall|k: int|
            0 <= k < language_codes().len() ==> language_of((#[trigger] language_codes()[k]).0) == Some(
                language_codes()[k].1,
            ),
        (forall|k: int| 0 <= k < language_codes().len() ==> (#[trigger] language_codes()[k]).0 != base)
            ==> language_of(base) is None,
{
    lemma_western_codes();
    lemma_eastern_codes();
    lemma_asian_codes();
    lemma_other_codes();
    lemma_eastern_not_western();
    lemma_asian_not_western();
    lemma_asian_not_eastern();
    lemma_other_not_western();
    lemma_other_not_eastern();
    lemma_other_not_asian();
    let w = western_codes();
    let e = eastern_codes();
    let a = asian_codes();
    let o = other_codes();
    let all = language_codes();
    assert forall|k: int| 0 <= k < all.len() implies language_of((#[trigger] all[k]).0) == Some(all[k].1) by {
        if k < w.len() {
            assert(all[k] == w[k]);
        } else if k < w.len() + e.len() {
            assert(all[k] == e[k - w.len()]);
        } else if k < w.len() + e.len() + a.len() {
            assert(all[k] == a[k - w.len() - e.len()]);
        } else {
            assert(all[k] == o[k - w.len() - e.len() - a.len()]);
        }
    }
    if (forall|k: int| 0 <= k < all.len() ==> (#[trigger] all[k]).0 != base) && language_of(base) is Some {
        if western_language_of(base) is Some {
            let k = choose|k: int| 0 <= k < w.len() && (#[trigger] w[k]).0 == base;
            assert(all[k] == w[k]);
        } else if eastern_language_of(base) is Some {
            let k = choose|k: int| 0 <= k < e.len() && (#[trigger] e[k]).0 == base;
            assert(all[w.len() + k] == e[k]);
        } else if asian_language_of(base) is Some {
            let k = choose|k: int| 0 <= k < a.len() && (#[trigger] a[k]).0 == base;
            assert(all[w.len() + e.len() + k] == a[k]);
        } else {
            let k = choose|k: int| 0 <= k < o.len() && (#[trigger] o[k]).0 == base;
            assert(all[w.len() + e.len() + a.len() + k] == o[k]);
        }
    }
}

/// Whether a code has no region or script behind it.
pub open spec fn bare_code(code: Seq<char>) -> bool {
    forall|i: int| 0 <= i < code.len() ==> #[trigger] code[i] != '-' && code[i] != '_'
}

proof fn lemma_tag_end(s: Seq<char>, from: int, n: int)
    requires
        0 <= from <= n <= s.len(),
        forall|i: int| from <= i < n ==> #[trigger] s[i] != '-' && s[i] != '_',
        n == s.len() || s[n] == '-' || s[n] == '_',
    ensures
        tag_end(s, from) == n,
    decreases n - from,
{
    if from < n {
        lemma_tag_end(s, from + 1, n);
    }
}

/// A language is known by its code in any case of the letters, and what stands
/// behind a `-` or `_` makes no difference.
pub proof fn law_regions_make_no_difference(code: Seq<char>, rest: Seq<char>)
    requires
        bare_code(code),
    ensures
        base_of(code) == lower(code),
        base_of(code + seq!['-'] + rest) == lower(code),
        base_of(code + seq!['_'] + rest) == lower(code),
{
    let n = code.len() as int;
    lemma_tag_end(code, 0, n);
    assert(code.take(n) =~= code);
    let a = code + seq!['-'] + rest;
    let b = code + seq!['_'] + rest;
    assert(forall|i: int| 0 <= i < n ==> #[trigger] a[i] == code[i]);
    assert(forall|i: int| 0 <= i < n ==> #[trigger] b[i] == code[i]);
    lemma_tag_end(a, 0, n);
    lemma_tag_end(b, 0, n);
    assert(a.take(n) =~= code);
    assert(b.take(n) =~= code);
}

} // verus!
