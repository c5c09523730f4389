use vstd::prelude::*;
use vstd::string::*;

verus! {

/// What a span of styled text holds.
pub struct SpanView {
    pub text: Seq<char>,
    pub bold: Option<bool>,
    pub color: Option<Seq<char>>,
}

/// A span of text without any styling.
pub open spec fn plain(text: Seq<char>) -> SpanView {
    SpanView { text, bold: None, color: None }
}

/// A span of text in the given colour, not bold.
pub open spec fn colored(text: Seq<char>, color: Color) -> SpanView {
    SpanView { text, bold: None, color: Some(color_name(color)) }
}

/// A line that consists of one unstyled span.
pub open spec fn plain_line(text: Seq<char>) -> Seq<SpanView> {
    seq![plain(text)]
}

/// A line that consists of one span in the given colour.
pub open spec fn colored_line(text: Seq<char>, color: Color) -> Seq<SpanView> {
    seq![colored(text, color)]
}

/// The views of a sequence of spans.
pub open spec fn spans_view(spans: Seq<LineSpan>) -> Seq<SpanView> {
    spans.map_values(|s: LineSpan| s@)
}

/// The views of a sequence of lines.
pub open spec fn lines_view(lines: Seq<Line>) -> Seq<Seq<SpanView>> {
    lines.map_values(|l: Line| l@)
}

/// One line of output: an ordered list of styled spans.
#[derive(Debug)]
pub struct Line {
    pub spans: Vec<LineSpan>,
}

impl View for Line {
    type V = Seq<SpanView>;

    open spec fn view(&self) -> Seq<SpanView> {
        spans_view(self.spans@)
    }
}

/// A piece of text with an optional bold flag and an optional colour name.
#[derive(Debug)]
pub struct LineSpan {
    pub text: String,
    pub bold: Option<bool>,
    pub color: Option<&'static str>,
}

impl View for LineSpan {
    type V = SpanView;

    open spec fn view(&self) -> SpanView {
        SpanView {
            text: self.text@,
            bold: self.bold,
            color: match self.color {
                Some(c) => Some(c@),
                None => None,
            },
        }
    }
}

impl Clone for LineSpan {
    fn clone(&self) -> (r: Self)
        ensures
            r@ == self@,
    {
        LineSpan { text: self.text.clone(), bold: self.bold, color: self.color }
    }
}

/// Copies a list of spans.
pub fn clone_spans(spans: &Vec<LineSpan>) -> (r: Vec<LineSpan>)
    ensures
        spans_view(r@) == spans_view(spans@),
{
    let mut out: Vec<LineSpan> = Vec::new();
    let mut i: usize = 0;
    while i < spans.len()
        invariant
            i <= spans@.len(),
            spans_view(out@) == spans_view(spans@.take(i as int)),
        decreases spans@.len() - i,
    {
        let ghost before = spans_view(out@);
        out.push(spans[i].clone());
        assert(spans_view(out@) =~= before.push(spans@[i as int]@));
        assert(spans_view(spans@.take(i + 1)) =~= spans_view(spans@.take(i as int)).push(
            spans@[i as int]@,
        ));
        i = i + 1;
    }
    assert(spans@.take(i as int) =~= spans@);
    out
}

impl Clone for Line {
    fn clone(&self) -> (r: Self)
        ensures
            r@ == self@,
    {
        Line { spans: clone_spans(&self.spans) }
    }
}

/// Copies a list of lines.
pub fn clone_lines(lines: &Vec<Line>) -> (r: Vec<Line>)
    ensures
        lines_view(r@) == lines_view(lines@),
{
    let mut out: Vec<Line> = Vec::new();
    let mut i: usize = 0;
    while i < lines.len()
        invariant
            i <= lines@.len(),
            lines_view(out@) == lines_view(lines@.take(i as int)),
        decreases lines@.len() - i,
    {
        let ghost before = lines_view(out@);
        out.push(lines[i].clone());
        assert(lines_view(out@) =~= before.push(lines@[i as int]@));
        assert(lines_view(lines@.take(i + 1)) =~= lines_view(lines@.take(i as int)).push(
            lines@[i as int]@,
        ));
        i = i + 1;
    }
    assert(lines@.take(i as int) =~= lines@);
    out
}

impl Line {
    /// A line of the given spans.
    pub fn spans(spans: Vec<LineSpan>) -> (line: Line)
        ensures
            line@ == spans_view(spans@),
    {
        Line { spans }
    }

    /// A line of one unstyled span.
    pub fn str(str: &str) -> (line: Line)
        ensures
            line@ == plain_line(str@),
    {
        let mut spans: Vec<LineSpan> = Vec::new();
        spans.push(span(str));
        let line = Line { spans };
        assert(line@ =~= plain_line(str@));
        line
    }

    /// The line with one more span at its end.
    pub fn push(self, span: LineSpan) -> (line: Line)
        ensures
            line@ == self@.push(span@),
    {
        let mut spans = self.spans;
        spans.push(span);
        let line = Line { spans };
        assert(line@ =~= self@.push(span@));
        line
    }

    /// The line with more spans at its end.
    pub fn extend(self, spans: Vec<LineSpan>) -> (line: Line)
        ensures
            line@ == self@ + spans_view(spans@),
    {
        let mut own = self.spans;
        let mut more = spans;
        own.append(&mut more);
        let line = Line { spans: own };
        assert(line@ =~= self@ + spans_view(spans@));
        line
    }
}

impl LineSpan {
    /// A line of this span alone.
    pub fn line(self) -> (line: Line)
        ensures
            line@ == seq![self@],
    {
        let mut spans: Vec<LineSpan> = Vec::new();
        spans.push(self);
        let line = Line { spans };
        assert(line@ =~= seq![self@]);
        line
    }

    /// The span in bold.
    pub fn bold(self) -> (s: Self)
        ensures
            s@ == (SpanView { bold: Some(true), ..self@ }),
    {
        LineSpan { text: self.text, bold: Some(true), color: self.color }
    }

    /// The span in a colour.
    pub fn color(self, color: Color) -> (s: Self)
        ensures
            s@ == (SpanView { color: Some(color_name(color)), ..self@ }),
    {
        LineSpan { text: self.text, bold: self.bold, color: Some(color.as_str()) }
    }
}

/// An unstyled span holding a copy of the text.
pub fn span(str: &str) -> (s: LineSpan)
    ensures
        s@ == plain(str@),
{
    LineSpan { text: String::from_str(str), bold: None, color: None }
}

/// The colours a span can be given.
#[derive(Clone, Copy, Debug, PartialEq, Eq, Structural)]
pub enum Color {
    White,
    DarkGrey,
    Blue,
    Yellow,
    Orange,
    LightRed,
    Red,
    LightCyan,
    Cyan,
}

/// The name under which a colour goes out to clients.
pub open spec fn color_name(color: Color) -> Seq<char> {
    match color {
        Color::White => "white"@,
        Color::DarkGrey => "dark-grey"@,
        Color::Blue => "blue"@,
        Color::Yellow => "yellow"@,
        Color::Orange => "orange"@,
        Color::LightRed => "light-red"@,
        Color::Red => "red"@,
        Color::LightCyan => "light-cyan"@,
        Color::Cyan => "cyan"@,
    }
}

impl Color {
    /// The name under which the colour goes out to clients.
    pub fn as_str(&self) -> (name: &'static str)
        ensures
            name@ == color_name(*self),
    {
        match self {
            Color::White => "white",
            Color::DarkGrey => "dark-grey",
            Color::Blue => "blue",
            Color::Yellow => "yellow",
            Color::Orange => "orange",
            Color::LightRed => "light-red",
            Color::Red => "red",
            Color::LightCyan => "light-cyan",
            Color::Cyan => "cyan",
        }
    }
}

} // verus!
