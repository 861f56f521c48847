//! Styled text for the terminal, before it is turned into escape sequences.

use vstd::prelude::*;

verus! {

/// How a piece of text is rendered.
#[derive(Debug, Clone, Copy, PartialEq, Eq, Structural)]
pub enum Style {
    Plain,
    Bold,
    Dimmed,
    Green,
    BrightGreen,
    BrightYellow,
    BrightCyan,
    BrightCyanBold,
    BrightRed,
}

/// A piece of text in one style.
#[derive(Debug)]
pub struct Span {
    pub text: String,
    pub style: Style,
}

/// A piece of text in one style, by its characters.
pub struct Run {
    pub text: Seq<char>,
    pub style: Style,
}

/// A line of text.
#[derive(Debug)]
pub struct Line {
    pub spans: Vec<Span>,
}

impl View for Line {
    type V = Seq<Run>;

    open spec fn view(&self) -> Seq<Run> {
        self.spans@.map_values(|s: Span| Run { text: s.text@, style: s.style })
    }
}

/// Text without a style.
pub open spec fn plain(text: Seq<char>) -> Run {
    Run { text, style: Style::Plain }
}

/// Text in a style.
pub open spec fn styled(text: Seq<char>, style: Style) -> Run {
    Run { text, style }
}

/// The line that holds nothing.
pub open spec fn empty_line() -> Seq<Run> {
    Seq::empty()
}

impl Line {
    /// A line that holds nothing yet.
    pub fn new() -> (r: Line)
        ensures
            r@ == empty_line(),
    {
        let r = Line { spans: Vec::new() };
        assert(r@ =~= Seq::<Run>::empty());
        r
    }

    /// The line with a piece of text put at its end.
    pub fn with(self, text: &str, style: Style) -> (r: Line)
        ensures
            r@ == self@.push(styled(text@, style)),
    {
        let ghost before = self@;
        let mut spans = self.spans;
        spans.push(Span { text: text.to_owned(), style });
        let r = Line { spans };
        assert(r@ =~= before.push(styled(text@, style)));
        r
    }

    /// The line with text without a style put at its end.
    pub fn text(self, text: &str) -> (r: Line)
        ensures
            r@ == self@.push(plain(text@)),
    {
        self.with(text, Style::Plain)
    }
}

/// Lines to be shown one below the other.
#[derive(Debug)]
pub struct Page {
    pub lines: Vec<Line>,
}

impl View for Page {
    type V = Seq<Seq<Run>>;

    open spec fn view(&self) -> Seq<Seq<Run>> {
        self.lines@.map_values(|line: Line| line@)
    }
}

impl Page {
    /// A page that holds nothing yet.
    pub fn new() -> (r: Page)
        ensures
            r@ == Seq::<Seq<Run>>::empty(),
    {
        let r = Page { lines: Vec::new() };
        assert(r@ =~= Seq::<Seq<Run>>::empty());
        r
    }

    /// Put a line below the others.
    pub fn add_line(&mut self, line: Line)
        ensures
            final(self)@ == old(self)@.push(line@),
    {
        self.lines.push(line);
        assert(self@ =~= old(self)@.push(line@));
    }

    /// Put an empty line below the others.
    pub fn add_blank(&mut self)
        ensures
            final(self)@ == old(self)@.push(empty_line()),
    {
        self.add_line(Line::new());
    }
}

} // verus!
