//! What is drawn: colours, styled text, rectangles, and the keys that drive it.
use vstd::prelude::*;

use crate::text::owned;

verus! {

/// A colour of the terminal.
#[derive(Debug, Clone, Copy, PartialEq, Eq, Structural)]
pub enum Color {
    Red,
    Green,
    Yellow,
    Magenta,
    Cyan,
    Gray,
    DarkGray,
}

/// How a piece of text looks.
#[derive(Debug, Clone, Copy, PartialEq, Eq, Structural)]
pub struct Style {
    pub fg: Option<Color>,
    pub bold: bool,
    pub reversed: bool,
    pub underlined: bool,
}

/// The look of plain text.
pub open spec fn plain_style() -> Style {
    Style { fg: None, bold: false, reversed: false, underlined: false }
}

/// Plain text in a colour.
pub open spec fn in_color(c: Color) -> Style {
    Style { fg: Some(c), ..plain_style() }
}

/// Plain text in bold.
pub open spec fn in_bold() -> Style {
    Style { bold: true, ..plain_style() }
}

impl Style {
    /// The look of plain text.
    pub fn plain() -> (r: Style)
        ensures
            r == plain_style(),
    {
        Style { fg: None, bold: false, reversed: false, underlined: false }
    }

    /// The same look in a colour.
    pub fn fg(self, c: Color) -> (r: Style)
        ensures
            r == (Style { fg: Some(c), ..self }),
    {
        Style { fg: Some(c), bold: self.bold, reversed: self.reversed, underlined: self.underlined }
    }

    /// The same look in bold.
    pub fn bold(self) -> (r: Style)
        ensures
            r == (Style { bold: true, ..self }),
    {
        Style { fg: self.fg, bold: true, reversed: self.reversed, underlined: self.underlined }
    }

    /// The same look reversed.
    pub fn reversed(self) -> (r: Style)
        ensures
            r == (Style { reversed: true, ..self }),
    {
        Style { fg: self.fg, bold: self.bold, reversed: true, underlined: self.underlined }
    }

    /// The same look underlined.
    pub fn underlined(self) -> (r: Style)
        ensures
            r == (Style { underlined: true, ..self }),
    {
        Style { fg: self.fg, bold: self.bold, reversed: self.reversed, underlined: true }
    }
}

/// A piece of text with its look.
#[derive(Debug)]
pub struct Span {
    pub text: String,
    pub style: Style,
}

/// [`Span`] by its characters.
pub struct SpanView {
    pub text: Seq<char>,
    pub style: Style,
}

impl DeepView for Span {
    type V = SpanView;

    open spec fn deep_view(&self) -> SpanView {
        SpanView {
            text: self.text@,
            style: self.style,
        }
    }
}

/// A line of styled text.
#[derive(Debug)]
pub struct Line {
    pub spans: Vec<Span>,
}

impl DeepView for Line {
    type V = Seq<SpanView>;

    open spec fn deep_view(&self) -> Seq<SpanView> {
        self.spans.deep_view()
    }
}

/// Plain text.
pub open spec fn raw_span(text: Seq<char>) -> SpanView {
    SpanView { text, style: plain_style() }
}

/// Text with a look.
pub open spec fn styled_span(text: Seq<char>, style: Style) -> SpanView {
    SpanView { text, style }
}

/// The text of a line.
pub open spec fn line_text(line: Seq<SpanView>) -> Seq<char>
    decreases line.len(),
{
    if line.len() == 0 {
        seq![]
    } else {
        line_text(line.drop_last()) + line.last().text
    }
}

impl Span {
    /// Plain text.
    pub fn raw(text: &str) -> (r: Span)
        ensures
            r.deep_view() == raw_span(text@),
    {
        Span { text: owned(text), style: Style::plain() }
    }

    /// Text with a look.
    pub fn styled(text: &str, style: Style) -> (r: Span)
        ensures
            r.deep_view() == styled_span(text@, style),
    {
        Span { text: owned(text), style }
    }
}

impl Line {
    /// A line of pieces.
    pub fn of(spans: Vec<Span>) -> (r: Line)
        ensures
            r.deep_view() == spans.deep_view(),
    {
        Line { spans }
    }

    /// A line of one plain piece.
    pub fn raw(text: &str) -> (r: Line)
        ensures
            r.deep_view() == seq![raw_span(text@)],
    {
        Line::styled(text, Style::plain())
    }

    /// A line of one piece with a look.
    pub fn styled(text: &str, style: Style) -> (r: Line)
        ensures
            r.deep_view() == seq![styled_span(text@, style)],
    {
        let spans = vec![Span::styled(text, style)];
        assert(spans.deep_view() =~= seq![styled_span(text@, style)]);
        Line { spans }
    }

    /// The text of the line.
    pub fn text(&self) -> (r: String)
        ensures
            r@ == line_text(self.deep_view()),
    {
        let ghost all = self.spans.deep_view();
        let mut s = String::new();
        let mut i: usize = 0;
        assert(s@ =~= line_text(all.take(0)));
        while i < self.spans.len()
            invariant
                i <= self.spans@.len(),
                all == self.spans.deep_view(),
                s@ == line_text(all.take(i as int)),
            decreases self.spans@.len() - i,
        {
            assert(all.take(i + 1).drop_last() =~= all.take(i as int));
            assert(all[i as int] == self.spans@[i as int].deep_view());
            s.append(self.spans[i].text.as_str());
            i += 1;
        }
        assert(all.take(all.len() as int) =~= all);
        s
    }
}

/// A rectangle of cells.
#[derive(Debug, Clone, Copy, PartialEq, Eq, Structural)]
pub struct Rect {
    pub x: u16,
    pub y: u16,
    pub width: u16,
    pub height: u16,
}

/// The smaller of two numbers.
pub open spec fn least(a: int, b: int) -> int {
    if a <= b {
        a
    } else {
        b
    }
}

/// Where a box of the given size starts when it is centred in a length.
pub open spec fn centred_at(start: u16, length: u16, size: u16) -> int {
    start + (length - least(size as int, length as int)) / 2
}

/// A rectangle of the given size in the middle of an area, clipped to it.
pub fn centered_rect(area: Rect, width: u16, height: u16) -> (r: Rect)
    requires
        centred_at(area.x, area.width, width) <= u16::MAX,
        centred_at(area.y, area.height, height) <= u16::MAX,
    ensures
        r.width == least(width as int, area.width as int),
        r.height == least(height as int, area.height as int),
        r.x == centred_at(area.x, area.width, width),
        r.y == centred_at(area.y, area.height, height),
{
    let w = if width <= area.width {
        width
    } else {
        area.width
    };
    let h = if height <= area.height {
        height
    } else {
        area.height
    };
    Rect {
        x: area.x + (area.width - w) / 2,
        y: area.y + (area.height - h) / 2,
        width: w,
        height: h,
    }
}

/// A key.
#[derive(Debug, Clone, Copy, PartialEq, Eq, Structural)]
pub enum KeyCode {
    Char(char),
    Esc,
    Enter,
    Backspace,
    Up,
    Down,
    Left,
    Right,
    PageUp,
    PageDown,
    Home,
    End,
    Tab,
    Other,
}

/// Whether a character is a control character.
pub open spec fn control(c: char) -> bool {
    (c as u32) < 32 || 127 <= (c as u32) < 160
}

/// Whether a character is a control character.
pub fn is_control(c: char) -> (r: bool)
    ensures
        r == control(c),
{
    let n = c as u32;
    n < 32 || (127 <= n && n < 160)
}

/// A centred rectangle stays inside the area it is centred in.
pub proof fn law_centred_boxes_fit(area: Rect, width: u16, height: u16)
    ensures
        ({
            let w = least(width as int, area.width as int);
            let h = least(height as int, area.height as int);
            &&& area.x <= centred_at(area.x, area.width, width)
            &&& centred_at(area.x, area.width, width) + w <= area.x + area.width
            &&& area.y <= centred_at(area.y, area.height, height)
            &&& centred_at(area.y, area.height, height) + h <= area.y + area.height
        }),
{
}

} // verus!
