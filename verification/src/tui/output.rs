//! The panel that a running job's output goes to.
use std::collections::VecDeque;
use vstd::prelude::*;

use crate::failure::Failure;
use crate::proc::OutLine;
use crate::text::{cat, cat3};
use crate::tui::style::{in_color, plain_style, styled_span, Color, Line, Rect, SpanView, Style};

verus! {

/// How many lines a panel keeps.
pub const SCROLLBACK: usize = 500;

/// What a finished job asks the view to do next.
#[derive(Debug, Clone, PartialEq, Eq)]
pub enum Followup {
    /// Move the selection to this branch, if it is listed.
    SelectBranch(String),
    /// Ask whether to force a push that was rejected.
    OfferForcePush { branch: String, remote: String },
}

/// [`Followup`] by its characters.
pub enum FollowupView {
    SelectBranch(Seq<char>),
    OfferForcePush { branch: Seq<char>, remote: Seq<char> },
}

impl DeepView for Followup {
    type V = FollowupView;

    open spec fn deep_view(&self) -> FollowupView {
        match self {
            Followup::SelectBranch(b) => FollowupView::SelectBranch(b@),
            Followup::OfferForcePush { branch, remote } => FollowupView::OfferForcePush {
                branch: branch@,
                remote: remote@,
            },
        }
    }
}

/// What a job that succeeded came to.
#[derive(Debug)]
pub struct JobDone {
    pub lines: Vec<String>,
    pub next: Option<Followup>,
}

/// [`JobDone`] by its characters.
pub struct JobDoneView {
    pub lines: Seq<Seq<char>>,
    pub next: Option<FollowupView>,
}

impl DeepView for JobDone {
    type V = JobDoneView;

    open spec fn deep_view(&self) -> JobDoneView {
        JobDoneView {
            lines: self.lines.deep_view(),
            next: self.next.deep_view(),
        }
    }
}

impl JobDone {
    /// Lines to show, and nothing to follow.
    pub fn lines(lines: Vec<String>) -> (r: JobDone)
        ensures
            r.deep_view() == (JobDoneView { lines: lines.deep_view(), next: None }),
    {
        JobDone { lines, next: None }
    }

    /// Lines to show, and something to follow.
    pub fn with_next(lines: Vec<String>, next: Followup) -> (r: JobDone)
        ensures
            r.deep_view() == (JobDoneView {
                lines: lines.deep_view(),
                next: Some(next.deep_view()),
            }),
    {
        JobDone { lines, next: Some(next) }
    }
}

/// A failure as lines: what happened, then what caused it.
pub open spec fn failure_lines(chain: Seq<Seq<char>>) -> Seq<Seq<char>> {
    Seq::new(
        if chain.len() == 0 {
            1
        } else {
            chain.len()
        },
        |i: int|
            if chain.len() == 0 {
                "Error: "@
            } else if i == 0 {
                "Error: "@ + chain[0]
            } else {
                "  caused by: "@ + chain[i]
            },
    )
}

/// A failure as lines.
pub fn error_lines(err: &Failure) -> (r: Vec<String>)
    ensures
        r.deep_view() == failure_lines(err.deep_view()),
{
    let ghost chain = err.deep_view();
    let head = err.to_string();
    let mut lines: Vec<String> = vec![cat("Error: ", head.as_str())];
    assert("Error: "@ + Seq::<char>::empty() =~= "Error: "@);
    assert(lines.deep_view() =~= failure_lines(chain).take(1));
    let mut i: usize = 1;
    while i < err.chain.len()
        invariant
            1 <= i,
            chain == err.chain.deep_view(),
            chain.len() > 0 ==> i <= chain.len(),
            chain.len() == 0 ==> i == 1,
            lines.deep_view() == failure_lines(chain).take(i as int),
        decreases err.chain@.len() - i,
    {
        let ghost before = lines.deep_view();
        lines.push(cat("  caused by: ", err.chain[i].as_str()));
        assert(lines.deep_view() =~= before.push("  caused by: "@ + chain[i as int]));
        assert(lines.deep_view() =~= failure_lines(chain).take(i + 1));
        i += 1;
    }
    assert(failure_lines(chain).take(i as int) =~= failure_lines(chain));
    lines
}

/// How far a job has come.
#[derive(Debug, Clone, Copy, PartialEq, Eq, Structural)]
pub enum Status {
    Running,
    Done,
    Failed,
}

/// Where a line came from.
#[derive(Debug, Clone, Copy, PartialEq, Eq, Structural)]
pub enum LineKind {
    Stdout,
    Stderr,
    Result,
    Error,
}

/// One line that a panel keeps.
#[derive(Debug, Clone, PartialEq, Eq)]
pub struct PanelLine {
    pub kind: LineKind,
    pub text: String,
}

/// [`PanelLine`] by its characters.
pub struct PanelLineView {
    pub kind: LineKind,
    pub text: Seq<char>,
}

impl DeepView for PanelLine {
    type V = PanelLineView;

    open spec fn deep_view(&self) -> PanelLineView {
        PanelLineView { kind: self.kind, text: self.text@ }
    }
}

/// The log of a job. It outlives the job, so that a result stays readable.
#[derive(Debug)]
pub struct Panel {
    pub title: String,
    pub lines: VecDeque<PanelLine>,
    pub status: Status,
    /// How many lines below the window there are.
    pub scroll: usize,
    /// Whether the window follows new output.
    pub autoscroll: bool,
    pub tick: usize,
}

/// [`Panel`] by its characters.
pub struct PanelView {
    pub title: Seq<char>,
    pub lines: Seq<PanelLineView>,
    pub status: Status,
    pub scroll: usize,
    pub autoscroll: bool,
    pub tick: usize,
}

impl DeepView for Panel {
    type V = PanelView;

    open spec fn deep_view(&self) -> PanelView {
        PanelView {
            title: self.title@,
            lines: self.lines.deep_view(),
            status: self.status,
            scroll: self.scroll,
            autoscroll: self.autoscroll,
            tick: self.tick,
        }
    }
}

/// The farthest that a log of `len` lines scrolls.
pub open spec fn scroll_limit(len: nat) -> int {
    if len == 0 {
        0
    } else {
        len - 1
    }
}

impl PanelView {
    /// Whether the panel keeps no more lines than it may, its window lies over
    /// them, and it follows only from the end.
    pub open spec fn wf(self) -> bool {
        &&& self.lines.len() <= SCROLLBACK
        &&& self.scroll <= scroll_limit(self.lines.len())
        &&& self.autoscroll ==> self.scroll == 0
    }

    /// The panel with a line more. The oldest goes when it is full, and a window
    /// that does not follow stays over the same lines.
    pub open spec fn with_line(self, line: PanelLineView) -> PanelView {
        let kept = if self.lines.len() == SCROLLBACK {
            self.lines.skip(1)
        } else {
            self.lines
        };
        let lines = kept.push(line);
        let moved = if self.scroll + 1 <= scroll_limit(lines.len()) {
            self.scroll + 1
        } else {
            scroll_limit(lines.len())
        };
        PanelView {
            lines,
            scroll: if self.autoscroll {
                0
            } else {
                moved as usize
            },
            ..self
        }
    }

    /// The panel with lines of one kind more.
    pub open spec fn with_lines(self, kind: LineKind, texts: Seq<Seq<char>>) -> PanelView
        decreases texts.len(),
    {
        if texts.len() == 0 {
            self
        } else {
            self.with_lines(kind, texts.drop_last()).with_line(
                PanelLineView { kind, text: texts.last() },
            )
        }
    }

    /// Where the window ends.
    pub open spec fn window_end(self) -> int {
        if self.lines.len() >= self.scroll {
            self.lines.len() - self.scroll
        } else {
            0
        }
    }

    /// Where a window of the given height starts.
    pub open spec fn window_start(self, height: nat) -> int {
        if self.window_end() >= height {
            self.window_end() - height
        } else {
            0
        }
    }

    /// The lines in a window of the given height.
    pub open spec fn shown(self, height: nat) -> Seq<PanelLineView> {
        self.lines.subrange(self.window_start(height), self.window_end())
    }

    /// The panel scrolled towards the start.
    pub open spec fn scrolled_up(self, n: nat) -> PanelView {
        let limit = scroll_limit(self.lines.len());
        PanelView {
            autoscroll: false,
            scroll: (if self.scroll + n <= limit {
                self.scroll + n
            } else {
                limit
            }) as usize,
            ..self
        }
    }

    /// The panel scrolled towards the end, following again once it is there.
    pub open spec fn scrolled_down(self, n: nat) -> PanelView {
        let scroll = if self.scroll >= n {
            (self.scroll - n) as usize
        } else {
            0
        };
        PanelView { scroll, autoscroll: scroll == 0 || self.autoscroll, ..self }
    }

    /// The panel of a job that ended well.
    pub open spec fn succeeded(self, texts: Seq<Seq<char>>) -> PanelView {
        PanelView { status: Status::Done, ..self.with_lines(LineKind::Result, texts) }
    }

    /// The panel once a job is over; one that vanished has failed.
    pub open spec fn finished(self, result: Option<Result<JobDone, Failure>>) -> PanelView {
        match result {
            None => self.failed(seq!["the operation panicked"@]),
            Some(Ok(done)) => self.succeeded(done.lines.deep_view()),
            Some(Err(e)) => self.failed(failure_lines(e.deep_view())),
        }
    }

    /// The panel of a job that failed.
    pub open spec fn failed(self, texts: Seq<Seq<char>>) -> PanelView {
        PanelView { status: Status::Failed, ..self.with_lines(LineKind::Error, texts) }
    }
}

/// What a job asks for next: nothing where it failed or vanished.
pub open spec fn followed(result: Option<Result<JobDone, Failure>>) -> Option<FollowupView> {
    match result {
        Some(Ok(done)) => done.next.deep_view(),
        _ => None,
    }
}

/// The panel of a job that has just started.
pub open spec fn fresh_panel(title: Seq<char>) -> PanelView {
    PanelView {
        title,
        lines: seq![],
        status: Status::Running,
        scroll: 0,
        autoscroll: true,
        tick: 0,
    }
}

impl Panel {
    /// The panel of a job that has just started.
    pub fn new(title: String) -> (r: Panel)
        ensures
            r.deep_view() == fresh_panel(title@),
    {
        let lines: VecDeque<PanelLine> = VecDeque::new();
        assert(lines.deep_view() =~= seq![]);
        Panel { title, lines, status: Status::Running, scroll: 0, autoscroll: true, tick: 0 }
    }

    /// How far the job has come.
    pub fn status(&self) -> (r: Status)
        ensures
            r == self.deep_view().status,
    {
        self.status
    }

    /// Whether the job still runs.
    pub fn is_running(&self) -> (r: bool)
        ensures
            r == (self.deep_view().status is Running),
    {
        matches!(self.status, Status::Running)
    }

    /// Adds a line.
    pub fn push(&mut self, kind: LineKind, text: String)
        ensures
            final(self).deep_view() == old(self).deep_view().with_line(
                PanelLineView { kind, text: text@ },
            ),
    {
        let ghost before = self.deep_view();
        if self.lines.len() == SCROLLBACK {
            let _ = self.lines.pop_front();
            assert(self.lines.deep_view() =~= before.lines.skip(1));
        }
        let ghost kept = self.lines.deep_view();
        let ghost view = PanelLineView { kind, text: text@ };
        self.lines.push_back(PanelLine { kind, text });
        assert(self.lines.deep_view() =~= kept.push(view));
        if self.autoscroll {
            self.scroll = 0;
        } else {
            let limit = self.lines.len() - 1;
            self.scroll = if self.scroll < limit {
                self.scroll + 1
            } else {
                limit
            };
        }
    }

    /// Adds a line of a command's output.
    pub fn push_out(&mut self, line: &OutLine)
        ensures
            final(self).deep_view() == old(self).deep_view().with_line(
                PanelLineView {
                    kind: if line.deep_view() is Error {
                        LineKind::Stderr
                    } else {
                        LineKind::Stdout
                    },
                    text: line.deep_view().content(),
                },
            ),
    {
        let kind = if line.is_err() {
            LineKind::Stderr
        } else {
            LineKind::Stdout
        };
        self.push(kind, line.text().to_owned());
    }

    fn push_all(&mut self, kind: LineKind, lines: Vec<String>)
        ensures
            final(self).deep_view() == old(self).deep_view().with_lines(kind, lines.deep_view()),
    {
        let ghost start = self.deep_view();
        let ghost all = lines.deep_view();
        let mut i: usize = 0;
        while i < lines.len()
            invariant
                i <= lines@.len(),
                all == lines.deep_view(),
                self.deep_view() == start.with_lines(kind, all.take(i as int)),
            decreases lines@.len() - i,
        {
            assert(all.take(i + 1).drop_last() =~= all.take(i as int));
            self.push(kind, lines[i].clone());
            i += 1;
        }
        assert(all.take(all.len() as int) =~= all);
    }

    /// Marks the job as ended well, with its result.
    pub fn finish_ok(&mut self, lines: Vec<String>)
        ensures
            final(self).deep_view() == old(self).deep_view().succeeded(lines.deep_view()),
    {
        self.push_all(LineKind::Result, lines);
        self.status = Status::Done;
    }

    /// Marks the job as failed, with its errors.
    pub fn finish_failed(&mut self, lines: Vec<String>)
        ensures
            final(self).deep_view() == old(self).deep_view().failed(lines.deep_view()),
    {
        self.push_all(LineKind::Error, lines);
        self.status = Status::Failed;
    }

    /// Marks the panel as failed where nothing was run.
    pub fn fail(&mut self, lines: Vec<String>)
        ensures
            final(self).deep_view() == old(self).deep_view().failed(lines.deep_view()),
    {
        self.finish_failed(lines);
    }

    /// Ends the job with what it came to; a job that vanished has failed. What
    /// it asks for next is handed back.
    pub fn finish(&mut self, result: Option<Result<JobDone, Failure>>) -> (r: Option<Followup>)
        ensures
            r.deep_view() == followed(result),
            final(self).deep_view() == old(self).deep_view().finished(result),
    {
        match result {
            None => {
                let lines = vec!["the operation panicked".to_owned()];
                assert(lines.deep_view() =~= seq!["the operation panicked"@]);
                self.finish_failed(lines);
                None
            },
            Some(Ok(done)) => {
                self.finish_ok(done.lines);
                done.next
            },
            Some(Err(e)) => {
                self.finish_failed(error_lines(&e));
                None
            },
        }
    }

    /// Turns the spinner.
    pub fn tick(&mut self)
        ensures
            final(self).deep_view() == (PanelView {
                tick: if old(self).tick == usize::MAX {
                    0
                } else {
                    (old(self).tick + 1) as usize
                },
                ..old(self).deep_view()
            }),
    {
        self.tick = if self.tick == usize::MAX {
            0
        } else {
            self.tick + 1
        };
    }

    /// Scrolls towards the start.
    pub fn scroll_up(&mut self, n: usize)
        ensures
            final(self).deep_view() == old(self).deep_view().scrolled_up(n as nat),
    {
        self.autoscroll = false;
        let len = self.lines.len();
        let limit = if len == 0 {
            0
        } else {
            len - 1
        };
        self.scroll = if self.scroll <= limit && n <= limit - self.scroll {
            self.scroll + n
        } else {
            limit
        };
    }

    /// Scrolls towards the end, and follows again once there.
    pub fn scroll_down(&mut self, n: usize)
        ensures
            final(self).deep_view() == old(self).deep_view().scrolled_down(n as nat),
    {
        self.scroll = if self.scroll >= n {
            self.scroll - n
        } else {
            0
        };
        if self.scroll == 0 {
            self.autoscroll = true;
        }
    }

    /// Jumps to the end and follows again.
    pub fn scroll_to_end(&mut self)
        ensures
            final(self).deep_view() == (PanelView {
                scroll: 0,
                autoscroll: true,
                ..old(self).deep_view()
            }),
    {
        self.scroll = 0;
        self.autoscroll = true;
    }

    /// The lines in a window of the given height.
    pub fn window(&self, height: usize) -> (r: Vec<PanelLine>)
        ensures
            r.deep_view() == self.deep_view().shown(height as nat),
    {
        let len = self.lines.len();
        let end: usize = if len >= self.scroll {
            len - self.scroll
        } else {
            0
        };
        let start: usize = if end >= height {
            end - height
        } else {
            0
        };
        let ghost all = self.lines.deep_view();
        let mut r: Vec<PanelLine> = Vec::new();
        let mut i: usize = start;
        assert(r.deep_view() =~= all.subrange(start as int, start as int));
        while i < end
            invariant
                start <= i <= end,
                end <= self.lines@.len(),
                all == self.lines.deep_view(),
                r.deep_view() == all.subrange(start as int, i as int),
            decreases end - i,
        {
            let line = &self.lines[i];
            let ghost before = r.deep_view();
            assert(all[i as int] == line.deep_view());
            r.push(PanelLine { kind: line.kind, text: line.text.clone() });
            assert(r.deep_view() =~= before.push(all[i as int]));
            assert(before.push(all[i as int]) =~= all.subrange(start as int, i + 1));
            i += 1;
        }
        r
    }
}

// ── Drawing ─────────────────────────────────────────────────────────────────

/// The frames of the spinner.
pub open spec fn spinner_frames() -> Seq<char> {
    seq!['⠋', '⠙', '⠹', '⠸', '⠼', '⠴', '⠦', '⠧', '⠇', '⠏']
}

/// The frame of the spinner at a tick: each shows for three ticks.
pub fn spinner(tick: usize) -> (r: char)
    ensures
        r == spinner_frames()[((tick / 3) % 10) as int],
{
    let frames: Vec<char> = vec!['⠋', '⠙', '⠹', '⠸', '⠼', '⠴', '⠦', '⠧', '⠇', '⠏'];
    frames[(tick / 3) % 10]
}

/// The colour and the mark of a status.
pub open spec fn status_look(status: Status, spinner: char) -> (Color, Seq<char>) {
    match status {
        Status::Running => (Color::Yellow, " "@ + seq![spinner] + " "@),
        Status::Done => (Color::Green, " ✓ "@),
        Status::Failed => (Color::Red, " ✗ "@),
    }
}

/// The colour and the mark of a status.
pub fn status_style(status: Status, spinner: char) -> (r: (Color, String))
    ensures
        r.0 == status_look(status, spinner).0,
        r.1@ == status_look(status, spinner).1,
{
    match status {
        Status::Running => {
            let mut s = " ".to_owned();
            s.push(spinner);
            s.append(" ");
            assert(s@ =~= " "@ + seq![spinner] + " "@);
            (Color::Yellow, s)
        },
        Status::Done => (Color::Green, " ✓ ".to_owned()),
        Status::Failed => (Color::Red, " ✗ ".to_owned()),
    }
}

/// `n` held between two bounds.
pub open spec fn between(n: int, low: int, high: int) -> int {
    if n < low {
        low
    } else if n > high {
        high
    } else {
        n
    }
}

/// `a - b`, or 0 where that is less.
pub open spec fn less(a: int, b: int) -> int {
    if a >= b {
        a - b
    } else {
        0
    }
}

/// The width of a panel: what the area leaves, between 24 and 60, and never more
/// than the area.
pub open spec fn panel_width(area: Rect) -> int {
    let w = between(less(area.width as int, 2), 24, 60);
    if w <= area.width {
        w
    } else {
        area.width as int
    }
}

/// The height of a panel: its lines and a border, at least 3, at most what the
/// area leaves up to 12, and never more than the area.
pub open spec fn panel_height(area: Rect, content_lines: nat) -> int {
    let most = between(less(area.height as int, 2), 3, 12);
    let h = between(content_lines as int + 2, 3, most);
    if h <= area.height {
        h
    } else {
        area.height as int
    }
}

/// A panel in the bottom right of an area, a cell in from the edges where there
/// is room.
pub open spec fn panel_place(area: Rect, content_lines: nat) -> (int, int) {
    (
        area.x + less(area.width as int, panel_width(area) + 1),
        area.y + less(area.height as int, panel_height(area, content_lines) + 1),
    )
}

fn minus(a: u16, b: u16) -> (r: u16)
    ensures
        r == less(a as int, b as int),
{
    if a >= b {
        a - b
    } else {
        0
    }
}

/// The rectangle of a panel with this many lines.
pub fn panel_rect(area: Rect, content_lines: usize) -> (r: Rect)
    requires
        panel_place(area, content_lines as nat).0 <= u16::MAX,
        panel_place(area, content_lines as nat).1 <= u16::MAX,
    ensures
        r.width == panel_width(area),
        r.height == panel_height(area, content_lines as nat),
        r.x == panel_place(area, content_lines as nat).0,
        r.y == panel_place(area, content_lines as nat).1,
{
    let wanted: u16 = if content_lines >= 12 {
        14
    } else {
        content_lines as u16 + 2
    };
    let room = minus(area.width, 2);
    let wide: u16 = if room < 24 {
        24
    } else if room > 60 {
        60
    } else {
        room
    };
    let width = if wide <= area.width {
        wide
    } else {
        area.width
    };
    let tall = minus(area.height, 2);
    let most: u16 = if tall < 3 {
        3
    } else if tall > 12 {
        12
    } else {
        tall
    };
    let high: u16 = if wanted < 3 {
        3
    } else if wanted > most {
        most
    } else {
        wanted
    };
    let height = if high <= area.height {
        high
    } else {
        area.height
    };
    Rect {
        x: area.x + minus(area.width, width + 1),
        y: area.y + minus(area.height, height + 1),
        width,
        height,
    }
}

/// The look of a line in a panel.
pub open spec fn kind_look(kind: LineKind) -> Style {
    match kind {
        LineKind::Stdout => plain_style(),
        LineKind::Stderr => in_color(Color::Gray),
        LineKind::Result => in_color(Color::Green),
        LineKind::Error => in_color(Color::Red),
    }
}

fn kind_style(kind: LineKind) -> (r: Style)
    ensures
        r == kind_look(kind),
{
    match kind {
        LineKind::Stdout => Style::plain(),
        LineKind::Stderr => Style::plain().fg(Color::Gray),
        LineKind::Result => Style::plain().fg(Color::Green),
        LineKind::Error => Style::plain().fg(Color::Red),
    }
}

/// A panel as it is drawn.
#[derive(Debug)]
pub struct PanelFrame {
    /// The colour of the border and the title.
    pub color: Color,
    pub title: String,
    /// What stands in the lower border.
    pub hint: String,
    pub lines: Vec<Line>,
}

/// [`PanelFrame`] by its characters.
pub struct PanelFrameView {
    pub color: Color,
    pub title: Seq<char>,
    pub hint: Seq<char>,
    pub lines: Seq<Seq<SpanView>>,
}

impl DeepView for PanelFrame {
    type V = PanelFrameView;

    open spec fn deep_view(&self) -> PanelFrameView {
        PanelFrameView {
            color: self.color,
            title: self.title@,
            hint: self.hint@,
            lines: self.lines.deep_view(),
        }
    }
}

/// A panel as it is drawn with `rows` rows inside its border.
pub open spec fn panel_frame(p: PanelView, rows: nat) -> PanelFrameView {
    let (color, mark) = status_look(p.status, spinner_frames()[((p.tick / 3) % 10) as int]);
    let shown = p.shown(rows);
    PanelFrameView {
        color,
        title: mark + p.title + " "@,
        hint: if p.status is Running {
            ""@
        } else {
            " [esc] close "@
        },
        lines: Seq::new(
            shown.len(),
            |i: int| seq![styled_span(shown[i].text, kind_look(shown[i].kind))],
        ),
    }
}

/// A panel as it is drawn with `rows` rows inside its border.
pub fn render(panel: &Panel, rows: usize) -> (r: PanelFrame)
    ensures
        r.deep_view() == panel_frame(panel.deep_view(), rows as nat),
{
    let (color, mark) = status_style(panel.status, spinner(panel.tick));
    let shown = panel.window(rows);
    let ghost all = shown.deep_view();
    let mut lines: Vec<Line> = Vec::new();
    let mut i: usize = 0;
    while i < shown.len()
        invariant
            i <= shown@.len(),
            all == shown.deep_view(),
            lines@.len() == i,
            forall|k: int|
                0 <= k < i ==> (#[trigger] lines@[k]).deep_view() == seq![
                    styled_span(all[k].text, kind_look(all[k].kind)),
                ],
        decreases shown@.len() - i,
    {
        assert(all[i as int] == shown@[i as int].deep_view());
        lines.push(Line::styled(shown[i].text.as_str(), kind_style(shown[i].kind)));
        i += 1;
    }
    let title = cat3(mark.as_str(), panel.title.as_str(), " ");
    let hint = if panel.is_running() {
        "".to_owned()
    } else {
        " [esc] close ".to_owned()
    };
    let r = PanelFrame { color, title, hint, lines };
    assert(r.deep_view().lines =~= panel_frame(panel.deep_view(), rows as nat).lines);
    r
}

// ── Laws ────────────────────────────────────────────────────────────────────

/// A panel stays well formed whatever is done to it.
pub proof fn law_panels_stay_well_formed(p: PanelView, line: PanelLineView, n: nat)
    requires
        p.wf(),
    ensures
        p.with_line(line).wf(),
        p.scrolled_up(n).wf(),
        p.scrolled_down(n).wf(),
{
}

/// Output that arrives while a reader is scrolled up does not move what is
/// read, as long as the lines in the window are kept.
pub proof fn law_scrolled_reader_stays(p: PanelView, line: PanelLineView, height: nat)
    requires
        p.wf(),
        !p.autoscroll,
        height > 0 ==> p.lines.len() > 0,
        p.lines.len() == SCROLLBACK ==> p.window_start(height) > 0,
    ensures
        p.with_line(line).shown(height) == p.shown(height),
{
    let q = p.with_line(line);
    if p.lines.len() == SCROLLBACK {
        assert(height > 0 ==> q.window_end() == p.window_end() - 1);
    } else {
        assert(height > 0 ==> q.window_end() == p.window_end());
    }
    assert(q.shown(height) =~= p.shown(height));
}

/// A panel that follows shows its newest line last.
pub proof fn law_follower_sees_the_newest_line(p: PanelView, line: PanelLineView, height: nat)
    requires
        p.autoscroll,
        height > 0,
    ensures
        p.with_line(line).shown(height).last() == line,
{
}

/// A panel's rectangle lies inside the area it is drawn over.
pub proof fn law_panels_fit(area: Rect, content_lines: nat)
    ensures
        ({
            let (x, y) = panel_place(area, content_lines);
            &&& area.x <= x
            &&& x + panel_width(area) <= area.x + area.width
            &&& area.y <= y
            &&& y + panel_height(area, content_lines) <= area.y + area.height
        }),
{
}

/// A job that ended well leaves its panel done, one that failed or vanished leaves it
/// failed, and only one that ended well asks for anything next.
pub proof fn law_panels_end_as_their_job(p: PanelView, result: Option<Result<JobDone, Failure>>)
    ensures
        p.finished(result).status is Done <==> result is Some && result->0 is Ok,
        p.finished(result).status is Failed <==> result is None || result->0 is Err,
        followed(result) is Some ==> result is Some && result->0 is Ok,
{
}

/// A line that is added is the last one, and none of those before it goes unless the
/// panel is full, in which case the oldest does.
pub proof fn law_lines_are_kept_in_order(p: PanelView, line: PanelLineView)
    ensures
        p.with_line(line).lines.last() == line,
        p.lines.len() < SCROLLBACK ==> p.with_line(line).lines == p.lines.push(line),
        p.lines.len() == SCROLLBACK ==> p.with_line(line).lines == p.lines.skip(1).push(line),
        p.with_line(line).title == p.title && p.with_line(line).status == p.status,
{
}

/// Scrolling moves the window by as many lines as asked for, and stops at either
/// end; only at the newest line does the panel follow again.
pub proof fn law_scrolling_stops_at_the_ends(p: PanelView, n: nat)
    requires
        p.wf(),
    ensures
        ({
            let most: int = if p.lines.len() == 0 {
                0
            } else {
                p.lines.len() - 1
            };
            let up = p.scrolled_up(n);
            let down = p.scrolled_down(n);
            &&& p.scroll + n <= most ==> up.scroll == p.scroll + n
            &&& p.scroll + n > most ==> up.scroll == most
            &&& !up.autoscroll
            &&& n <= p.scroll ==> down.scroll == p.scroll - n
            &&& n > p.scroll ==> down.scroll == 0
            &&& down.scroll == 0 ==> down.autoscroll
            &&& up.lines == p.lines && down.lines == p.lines
        }),
{
}

/// A failure is shown as its headline and a line for each cause.
pub proof fn law_causes_are_shown(chain: Seq<Seq<char>>, i: int)
    requires
        0 <= i < chain.len(),
    ensures
        failure_lines(chain).len() == chain.len(),
        i == 0 ==> failure_lines(chain)[i] == "Error: "@ + chain[i],
        i > 0 ==> failure_lines(chain)[i] == "  caused by: "@ + chain[i],
{
}

} // verus!
