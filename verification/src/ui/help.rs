//! The help.

use vstd::prelude::*;

use crate::ui::styled::{line_of, put_line, Span, Tone};
#[allow(unused_imports)]
use crate::ui::styled::{line_models, toned, SpanModel};

verus! {

/// A line of one text.
pub open spec fn text_line(text: Seq<char>, tone: Tone) -> Seq<SpanModel> {
    seq![toned(text, tone)]
}

/// How to move.
pub open spec fn navigation_help() -> Seq<Seq<SpanModel>> {
    seq![
        text_line("Navigation"@, Tone::AccentBold),
        text_line("  up/down, j/k     move within the focused pane"@, Tone::Plain),
        text_line("  Tab              switch between files and tracks"@, Tone::Plain),
        text_line("  [ / ]            previous / next file"@, Tone::Plain),
        text_line(""@, Tone::Plain),
    ]
}

/// What the letters in the Flags column mean.
pub open spec fn column_help() -> Seq<Seq<SpanModel>> {
    seq![
        text_line("Flags column"@, Tone::AccentBold),
        text_line("  D default  F forced  HI/VI hearing or visual impaired  TD text descriptions"@, Tone::Plain),
        text_line("  Orig original  Com commentary  off disabled"@, Tone::Plain),
        text_line("  Lower case means the file does not say so; it is the specification default."@, Tone::Plain),
        text_line(""@, Tone::Plain),
    ]
}

/// The keys that change flags.
pub open spec fn flag_help() -> Seq<Seq<SpanModel>> {
    seq![
        text_line("Track flags"@, Tone::AccentBold),
        text_line("  d   make this the default track of its type, clearing its siblings"@, Tone::Plain),
        text_line("  D   clear the default flag on this track"@, Tone::Plain),
        text_line("  f   toggle forced        e   toggle enabled"@, Tone::Plain),
        text_line("  h   hearing impaired     v   visual impaired"@, Tone::Plain),
        text_line("  t   text descriptions    o   original language"@, Tone::Plain),
        text_line("  c   commentary"@, Tone::Plain),
        text_line(""@, Tone::Plain),
    ]
}

/// The keys that change other properties.
pub open spec fn property_help() -> Seq<Seq<SpanModel>> {
    seq![
        text_line("Track properties"@, Tone::AccentBold),
        text_line("  n   edit the track name (empty removes it)"@, Tone::Plain),
        text_line("  l   edit the language, e.g. eng, jpn, und"@, Tone::Plain),
        text_line(""@, Tone::Plain),
    ]
}

/// The keys for files.
pub open spec fn file_help() -> Seq<Seq<SpanModel>> {
    seq![
        text_line("Files"@, Tone::AccentBold),
        text_line("  s   save the current file      S   save every changed file"@, Tone::Plain),
        text_line("  u   discard changes to the current file"@, Tone::Plain),
        text_line("  q   quit          ?/F1  close this help"@, Tone::Plain),
        text_line(""@, Tone::Plain),
    ]
}

/// What is written.
pub open spec fn writing_help() -> Seq<Seq<SpanModel>> {
    seq![
        text_line("Changes are written to the Tracks element only. When it still fits, the write is a few bytes in place; otherwise the file is rewritten and the seek index is corrected."@, Tone::Dim),
    ]
}

/// The whole help.
pub open spec fn help_text() -> Seq<Seq<SpanModel>> {
    navigation_help() + column_help() + flag_help() + property_help() + file_help() + writing_help()
}

fn put_navigation_help(lines: &mut Vec<Vec<Span>>)
    ensures
        line_models(final(lines)@) == line_models(old(lines)@) + navigation_help(),
{
    let ghost before = line_models(lines@);
    put_line(lines, line_of("Navigation", Tone::AccentBold));
    put_line(lines, line_of("  up/down, j/k     move within the focused pane", Tone::Plain));
    put_line(lines, line_of("  Tab              switch between files and tracks", Tone::Plain));
    put_line(lines, line_of("  [ / ]            previous / next file", Tone::Plain));
    put_line(lines, line_of("", Tone::Plain));
    assert(line_models(lines@) =~= before + navigation_help());
}

fn put_column_help(lines: &mut Vec<Vec<Span>>)
    ensures
        line_models(final(lines)@) == line_models(old(lines)@) + column_help(),
{
    let ghost before = line_models(lines@);
    put_line(lines, line_of("Flags column", Tone::AccentBold));
    put_line(lines, line_of("  D default  F forced  HI/VI hearing or visual impaired  TD text descriptions", Tone::Plain));
    put_line(lines, line_of("  Orig original  Com commentary  off disabled", Tone::Plain));
    put_line(lines, line_of("  Lower case means the file does not say so; it is the specification default.", Tone::Plain));
    put_line(lines, line_of("", Tone::Plain));
    assert(line_models(lines@) =~= before + column_help());
}

fn put_flag_help(lines: &mut Vec<Vec<Span>>)
    ensures
        line_models(final(lines)@) == line_models(old(lines)@) + flag_help(),
{
    let ghost before = line_models(lines@);
    put_line(lines, line_of("Track flags", Tone::AccentBold));
    put_line(lines, line_of("  d   make this the default track of its type, clearing its siblings", Tone::Plain));
    put_line(lines, line_of("  D   clear the default flag on this track", Tone::Plain));
    put_line(lines, line_of("  f   toggle forced        e   toggle enabled", Tone::Plain));
    put_line(lines, line_of("  h   hearing impaired     v   visual impaired", Tone::Plain));
    put_line(lines, line_of("  t   text descriptions    o   original language", Tone::Plain));
    put_line(lines, line_of("  c   commentary", Tone::Plain));
    put_line(lines, line_of("", Tone::Plain));
    assert(line_models(lines@) =~= before + flag_help());
}

fn put_property_help(lines: &mut Vec<Vec<Span>>)
    ensures
        line_models(final(lines)@) == line_models(old(lines)@) + property_help(),
{
    let ghost before = line_models(lines@);
    put_line(lines, line_of("Track properties", Tone::AccentBold));
    put_line(lines, line_of("  n   edit the track name (empty removes it)", Tone::Plain));
    put_line(lines, line_of("  l   edit the language, e.g. eng, jpn, und", Tone::Plain));
    put_line(lines, line_of("", Tone::Plain));
    assert(line_models(lines@) =~= before + property_help());
}

fn put_file_help(lines: &mut Vec<Vec<Span>>)
    ensures
        line_models(final(lines)@) == line_models(old(lines)@) + file_help(),
{
    let ghost before = line_models(lines@);
    put_line(lines, line_of("Files", Tone::AccentBold));
    put_line(lines, line_of("  s   save the current file      S   save every changed file", Tone::Plain));
    put_line(lines, line_of("  u   discard changes to the current file", Tone::Plain));
    put_line(lines, line_of("  q   quit          ?/F1  close this help", Tone::Plain));
    put_line(lines, line_of("", Tone::Plain));
    assert(line_models(lines@) =~= before + file_help());
}

fn put_writing_help(lines: &mut Vec<Vec<Span>>)
    ensures
        line_models(final(lines)@) == line_models(old(lines)@) + writing_help(),
{
    let ghost before = line_models(lines@);
    put_line(lines, line_of("Changes are written to the Tracks element only. When it still fits, the write is a few bytes in place; otherwise the file is rewritten and the seek index is corrected.", Tone::Dim));
    assert(line_models(lines@) =~= before + writing_help());
}

/// The lines of the help.
pub fn help_lines() -> (lines: Vec<Vec<Span>>)
    ensures
        line_models(lines@) == help_text(),
{
    let mut lines: Vec<Vec<Span>> = Vec::new();
    put_navigation_help(&mut lines);
    assert(line_models(lines@) =~= navigation_help());
    put_column_help(&mut lines);
    put_flag_help(&mut lines);
    put_property_help(&mut lines);
    put_file_help(&mut lines);
    put_writing_help(&mut lines);
    lines
}

} // verus!
