//! Text with a tone.

use vstd::prelude::*;
use vstd::string::*;

verus! {

/// How a text looks.
#[derive(Clone, Copy, Debug, PartialEq, Eq, Structural)]
pub enum Tone {
    Plain,
    Dim,
    Accent,
    AccentBold,
    Bold,
    Blink,
    Red,
    Green,
    Yellow,
    Blue,
    Magenta,
}

/// A piece of text in one tone.
#[derive(Debug)]
pub struct Span {
    pub text: String,
    pub tone: Tone,
}

/// The model of [`Span`].
pub struct SpanModel {
    pub text: Seq<char>,
    pub tone: Tone,
}

impl View for Span {
    type V = SpanModel;

    open spec fn view(&self) -> SpanModel {
        SpanModel { text: self.text@, tone: self.tone }
    }
}

/// A piece of text in one tone.
pub open spec fn toned(text: Seq<char>, tone: Tone) -> SpanModel {
    SpanModel { text, tone }
}

/// The model of a line.
pub open spec fn line_model(line: Seq<Span>) -> Seq<SpanModel> {
    line.map_values(|s: Span| s@)
}

/// The models of lines.
pub open spec fn line_models(lines: Seq<Vec<Span>>) -> Seq<Seq<SpanModel>> {
    lines.map_values(|l: Vec<Span>| line_model(l@))
}

/// Puts a text at the end of a line.
pub fn put(line: &mut Vec<Span>, text: &str, tone: Tone)
    ensures
        line_model(final(line)@) == line_model(old(line)@).push(toned(text@, tone)),
{
    let ghost before = line@;
    line.push(Span { text: text.to_owned(), tone });
    assert(line_model(line@) =~= line_model(before).push(toned(text@, tone)));
}

/// A line of one text.
pub fn line_of(text: &str, tone: Tone) -> (line: Vec<Span>)
    ensures
        line_model(line@) == seq![toned(text@, tone)],
{
    let mut line: Vec<Span> = Vec::new();
    put(&mut line, text, tone);
    assert(line_model(line@) =~= seq![toned(text@, tone)]);
    line
}

/// Puts a line under the others.
pub fn put_line(lines: &mut Vec<Vec<Span>>, line: Vec<Span>)
    ensures
        line_models(final(lines)@) == line_models(old(lines)@).push(line_model(line@)),
{
    let ghost before = lines@;
    lines.push(line);
    assert(line_models(lines@) =~= line_models(before).push(line_model(line@)));
}

} // verus!
