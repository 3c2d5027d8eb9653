//! A styled-text model of terminal lines: spans of text, each with a foreground colour and
//! modifiers. Rendering to a terminal library happens outside this crate.
use vstd::prelude::*;

verus! {

/// The foreground colours a status line uses.
#[derive(Clone, Copy, Debug, PartialEq, Eq, Structural)]
pub enum Color {
    DarkGray,
    Cyan,
    Red,
    Yellow,
    LightGreen,
}

/// A text modifier.
#[derive(Clone, Copy, Debug, PartialEq, Eq, Structural)]
pub enum Modifier {
    Bold,
    Dim,
}

/// The set of modifiers added to a span.
#[derive(Clone, Copy, Debug, PartialEq, Eq, Structural)]
pub struct Modifiers {
    pub bold: bool,
    pub dim: bool,
}

impl Modifiers {
    /// Whether `modifier` is in the set.
    pub fn contains(&self, modifier: Modifier) -> (present: bool)
        ensures
            present == match modifier {
                Modifier::Bold => self.bold,
                Modifier::Dim => self.dim,
            },
    {
        match modifier {
            Modifier::Bold => self.bold,
            Modifier::Dim => self.dim,
        }
    }
}

/// A span's style: an optional foreground colour and added modifiers.
#[derive(Clone, Copy, Debug, PartialEq, Eq, Structural)]
pub struct Style {
    pub fg: Option<Color>,
    pub add_modifier: Modifiers,
}

/// No colour, no modifier.
pub open spec fn plain_style() -> Style {
    Style { fg: None, add_modifier: Modifiers { bold: false, dim: false } }
}

/// A foreground colour alone.
pub open spec fn fg_style(color: Color) -> Style {
    Style { fg: Some(color), add_modifier: Modifiers { bold: false, dim: false } }
}

/// A foreground colour, bold.
pub open spec fn bold_style(color: Color) -> Style {
    Style { fg: Some(color), add_modifier: Modifiers { bold: true, dim: false } }
}

/// A foreground colour, dimmed.
pub open spec fn dim_style(color: Color) -> Style {
    Style { fg: Some(color), add_modifier: Modifiers { bold: false, dim: true } }
}

impl Style {
    /// No colour, no modifier.
    pub fn plain() -> (style: Style)
        ensures
            style == plain_style(),
    {
        Style { fg: None, add_modifier: Modifiers { bold: false, dim: false } }
    }

    /// A foreground colour alone.
    pub fn fg(color: Color) -> (style: Style)
        ensures
            style == fg_style(color),
    {
        Style { fg: Some(color), add_modifier: Modifiers { bold: false, dim: false } }
    }

    /// A foreground colour, bold.
    pub fn bold(color: Color) -> (style: Style)
        ensures
            style == bold_style(color),
    {
        Style { fg: Some(color), add_modifier: Modifiers { bold: true, dim: false } }
    }

    /// A foreground colour, dimmed.
    pub fn dim(color: Color) -> (style: Style)
        ensures
            style == dim_style(color),
    {
        Style { fg: Some(color), add_modifier: Modifiers { bold: false, dim: true } }
    }
}

/// A run of text in one style.
#[derive(Clone, Debug, PartialEq, Eq)]
pub struct Span {
    pub content: String,
    pub style: Style,
}

impl View for Span {
    type V = (Seq<char>, Style);

    open spec fn view(&self) -> (Seq<char>, Style) {
        (self.content@, self.style)
    }
}

/// A line of spans.
#[derive(Clone, Debug, PartialEq, Eq)]
pub struct Line {
    pub spans: Vec<Span>,
}

/// The text and style of each span.
pub open spec fn spans_view(spans: Seq<Span>) -> Seq<(Seq<char>, Style)> {
    spans.map_values(|s: Span| s@)
}

impl View for Line {
    type V = Seq<(Seq<char>, Style)>;

    open spec fn view(&self) -> Seq<(Seq<char>, Style)> {
        spans_view(self.spans@)
    }
}

/// The text of a sequence of spans, concatenated.
pub open spec fn spans_text(spans: Seq<(Seq<char>, Style)>) -> Seq<char>
    decreases spans.len(),
{
    if spans.len() == 0 {
        seq![]
    } else {
        spans_text(spans.drop_last()) + spans.last().0
    }
}

impl Span {
    /// A span of `content` in `style`.
    pub fn styled(content: String, style: Style) -> (span: Span)
        ensures
            span@ == (content@, style),
    {
        Span { content, style }
    }
}

/// Appends a span to a vector of spans.
pub fn push_span(spans: &mut Vec<Span>, content: String, style: Style)
    ensures
        spans_view(final(spans)@) == spans_view(old(spans)@).push((content@, style)),
{
    let ghost before = spans@;
    spans.push(Span { content, style });
    proof {
        assert(spans_view(spans@) =~= spans_view(before).push((content@, style)));
    }
}

/// A copy of the spans `spans[from..to]`.
pub fn copy_spans(spans: &Vec<Span>, from: usize, to: usize) -> (copy: Vec<Span>)
    requires
        from <= to <= spans@.len(),
    ensures
        spans_view(copy@) == spans_view(spans@).subrange(from as int, to as int),
{
    let mut copy: Vec<Span> = Vec::new();
    let mut i: usize = from;
    while i < to
        invariant
            from <= i <= to,
            to <= spans@.len(),
            spans_view(copy@) == spans_view(spans@).subrange(from as int, i as int),
        decreases to - i,
    {
        let s = &spans[i];
        let content = s.content.clone();
        let ghost before = copy@;
        let item = Span { content, style: s.style };
        assert(item@ == spans@[i as int]@);
        copy.push(item);
        proof {
            assert(spans_view(copy@) =~= spans_view(before).push(item@));
            assert(spans_view(spans@).subrange(from as int, i + 1) =~= spans_view(spans@).subrange(
                from as int,
                i as int,
            ).push(spans_view(spans@)[i as int]));
        }
        i = i + 1;
    }
    copy
}

/// The text of a line: its spans' contents, concatenated.
pub fn text(line: &Line) -> (t: String)
    ensures
        t@ == spans_text(line@),
{
    let mut t = String::new();
    let mut i: usize = 0;
    while i < line.spans.len()
        invariant
            i <= line.spans@.len(),
            t@ == spans_text(spans_view(line.spans@).take(i as int)),
        decreases line.spans@.len() - i,
    {
        t.append(line.spans[i].content.as_str());
        proof {
            let v = spans_view(line.spans@);
            assert(v.take(i + 1).drop_last() =~= v.take(i as int));
        }
        i = i + 1;
    }
    proof {
        assert(spans_view(line.spans@).take(line.spans@.len() as int) =~= spans_view(line.spans@));
    }
    t
}

} // verus!
