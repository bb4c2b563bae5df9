//! What the help says.

use vstd::prelude::*;

#[allow(unused_imports)]
use crate::ui::help::help_text;
#[allow(unused_imports)]
use crate::ui::styled::SpanModel;

verus! {

/// Whether a text has a letter, alone, at `i` and some words at `j`, with nothing
/// but spaces between.
pub open spec fn at_place(text: Seq<char>, letter: char, words: Seq<char>, i: int, j: int) -> bool {
    &&& 1 <= i < j
    &&& j + words.len() <= text.len()
    &&& text[i - 1] == ' ' && text[i] == letter
    &&& forall|k: int| i < k < j ==> #[trigger] text[k] == ' '
    &&& text.subrange(j, j + words.len()) == words
}

/// Whether some line says those words of a letter.
pub open spec fn tells(lines: Seq<Seq<SpanModel>>, letter: char, words: Seq<char>) -> bool {
    exists|n: int, i: int, j: int|
        0 <= n < lines.len() && lines[n].len() > 0 && #[trigger] at_place(lines[n][0].text, letter, words, i, j)
}

/// The help tells of each letter what it does.
pub proof fn law_help_tells_of_each_letter()
    ensures
        tells(help_text(), 'd', "make this the default track of its type"@),
        tells(help_text(), 'D', "clear the default flag"@),
        tells(help_text(), 'f', "toggle forced"@),
        tells(help_text(), 'e', "toggle enabled"@),
        tells(help_text(), 'h', "hearing impaired"@),
        tells(help_text(), 'v', "visual impaired"@),
        tells(help_text(), 't', "text descriptions"@),
        tells(help_text(), 'o', "original language"@),
        tells(help_text(), 'c', "commentary"@),
        tells(help_text(), 'n', "edit the track name"@),
        tells(help_text(), 'l', "edit the language"@),
        tells(help_text(), 's', "save the current file"@),
        tells(help_text(), 'S', "save every changed file"@),
        tells(help_text(), 'u', "discard changes"@),
        tells(help_text(), 'q', "quit"@),
{
    assert(at_place(help_text()[11][0].text, 'd', "make this the default track of its type"@, 2, 6)) by {
        reveal_strlit("make this the default track of its type");
        reveal_strlit("  d   make this the default track of its type, clearing its siblings");
        assert("  d   make this the default track of its type, clearing its siblings"@.subrange(6, 45) =~= "make this the default track of its type"@);
    }
    assert(at_place(help_text()[12][0].text, 'D', "clear the default flag"@, 2, 6)) by {
        reveal_strlit("clear the default flag");
        reveal_strlit("  D   clear the default flag on this track");
        assert("  D   clear the default flag on this track"@.subrange(6, 28) =~= "clear the default flag"@);
    }
    assert(at_place(help_text()[13][0].text, 'f', "toggle forced"@, 2, 6)) by {
        reveal_strlit("toggle forced");
        reveal_strlit("  f   toggle forced        e   toggle enabled");
        assert("  f   toggle forced        e   toggle enabled"@.subrange(6, 19) =~= "toggle forced"@);
    }
    assert(at_place(help_text()[13][0].text, 'e', "toggle enabled"@, 27, 31)) by {
        reveal_strlit("toggle enabled");
        reveal_strlit("  f   toggle forced        e   toggle enabled");
        assert("  f   toggle forced        e   toggle enabled"@.subrange(31, 45) =~= "toggle enabled"@);
    }
    assert(at_place(help_text()[14][0].text, 'h', "hearing impaired"@, 2, 6)) by {
        reveal_strlit("hearing impaired");
        reveal_strlit("  h   hearing impaired     v   visual impaired");
        assert("  h   hearing impaired     v   visual impaired"@.subrange(6, 22) =~= "hearing impaired"@);
    }
    assert(at_place(help_text()[14][0].text, 'v', "visual impaired"@, 27, 31)) by {
        reveal_strlit("visual impaired");
        reveal_strlit("  h   hearing impaired     v   visual impaired");
        assert("  h   hearing impaired     v   visual impaired"@.subrange(31, 46) =~= "visual impaired"@);
    }
    assert(at_place(help_text()[15][0].text, 't', "text descriptions"@, 2, 6)) by {
        reveal_strlit("text descriptions");
        reveal_strlit("  t   text descriptions    o   original language");
        assert("  t   text descriptions    o   original language"@.subrange(6, 23) =~= "text descriptions"@);
    }
    assert(at_place(help_text()[15][0].text, 'o', "original language"@, 27, 31)) by {
        reveal_strlit("original language");
        reveal_strlit("  t   text descriptions    o   original language");
        assert("  t   text descriptions    o   original language"@.subrange(31, 48) =~= "original language"@);
    }
    assert(at_place(help_text()[16][0].text, 'c', "commentary"@, 2, 6)) by {
        reveal_strlit("commentary");
        reveal_strlit("  c   commentary");
        assert("  c   commentary"@.subrange(6, 16) =~= "commentary"@);
    }
    assert(at_place(help_text()[19][0].text, 'n', "edit the track name"@, 2, 6)) by {
        reveal_strlit("edit the track name");
        reveal_strlit("  n   edit the track name (empty removes it)");
        assert("  n   edit the track name (empty removes it)"@.subrange(6, 25) =~= "edit the track name"@);
    }
    assert(at_place(help_text()[20][0].text, 'l', "edit the language"@, 2, 6)) by {
        reveal_strlit("edit the language");
        reveal_strlit("  l   edit the language, e.g. eng, jpn, und");
        assert("  l   edit the language, e.g. eng, jpn, und"@.subrange(6, 23) =~= "edit the language"@);
    }
    assert(at_place(help_text()[23][0].text, 's', "save the current file"@, 2, 6)) by {
        reveal_strlit("save the current file");
        reveal_strlit("  s   save the current file      S   save every changed file");
        assert("  s   save the current file      S   save every changed file"@.subrange(6, 27) =~= "save the current file"@);
    }
    assert(at_place(help_text()[23][0].text, 'S', "save every changed file"@, 33, 37)) by {
        reveal_strlit("save every changed file");
        reveal_strlit("  s   save the current file      S   save every changed file");
        assert("  s   save the current file      S   save every changed file"@.subrange(37, 60) =~= "save every changed file"@);
    }
    assert(at_place(help_text()[24][0].text, 'u', "discard changes"@, 2, 6)) by {
        reveal_strlit("discard changes");
        reveal_strlit("  u   discard changes to the current file");
        assert("  u   discard changes to the current file"@.subrange(6, 21) =~= "discard changes"@);
    }
    assert(at_place(help_text()[25][0].text, 'q', "quit"@, 2, 6)) by {
        reveal_strlit("quit");
        reveal_strlit("  q   quit          ?/F1  close this help");
        assert("  q   quit          ?/F1  close this help"@.subrange(6, 10) =~= "quit"@);
    }
}

} // verus!
