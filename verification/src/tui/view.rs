//! What the view draws, as plain lines and cells.
use vstd::prelude::*;

use crate::branches::{format_roll_numbers, roll_numbers_text, RollInfo, RollView};
use crate::config::{Config, ConfigView};
use crate::git::{track_of, track_state, LocalBranch, LocalBranchView, TrackState};
use crate::num::{decimal, to_decimal};
use crate::seqs::kept;
use crate::text::{cat, cat3, cat4, cat5, same};
use crate::tui::keymap::{basic_hints, hints, keymap};
use crate::tui::rolls::{
    current_marker, dep_row, dep_rows, dependent_row, dependent_rows, divergence_text,
    format_ahead_behind, marker, plural, plural_ending, prunable, prunable_count, scope_label,
    scope_text, state_color, state_hue, sync_cell, sync_look, tally, tidyable, tidyable_count,
    unmerged_for_scope, worst, Action, BaseBranch, BaseBranchView, DeletePreview, DeletePreviewView,
    DeletePrompt, DeleteScope, DepRow, DepRowView,
};
use crate::tui::style::{
    centered_rect, centred_at, in_bold, in_color, least, plain_style, raw_span, styled_span, Color,
    Line, Rect, Span, SpanView, Style,
};
use crate::version::{BumpLevel, Semver};

verus! {

// ── Tracking ────────────────────────────────────────────────────────────────

/// The details of a branch; the last of those with its name.
pub open spec fn details_of(tracking: Seq<LocalBranchView>, branch: Seq<char>) -> Option<
    LocalBranchView,
>
    decreases tracking.len(),
{
    if tracking.len() == 0 {
        None
    } else if tracking.last().name == branch {
        Some(tracking.last())
    } else {
        details_of(tracking.drop_last(), branch)
    }
}

/// The details of a branch.
pub fn find_details<'a>(tracking: &'a Vec<LocalBranch>, branch: &str) -> (r: Option<
    &'a LocalBranch,
>)
    ensures
        match r {
            Some(d) => details_of(tracking.deep_view(), branch@) == Some(d.deep_view()),
            None => details_of(tracking.deep_view(), branch@) is None,
        },
{
    let ghost all = tracking.deep_view();
    let mut i: usize = tracking.len();
    assert(all.take(i as int) =~= all);
    while i > 0
        invariant
            i <= tracking@.len(),
            all == tracking.deep_view(),
            details_of(all, branch@) == details_of(all.take(i as int), branch@),
        decreases i,
    {
        assert(all.take(i as int).drop_last() =~= all.take(i - 1));
        assert(all.take(i as int).last() == tracking@[i - 1].deep_view());
        if same(tracking[i - 1].name.as_str(), branch) {
            return Some(&tracking[i - 1]);
        }
        i -= 1;
    }
    None
}

/// How a branch stands to its upstream; none without a local copy.
pub open spec fn shown_track(tracking: Seq<LocalBranchView>, branch: Seq<char>) -> Option<
    TrackState,
> {
    match details_of(tracking, branch) {
        Some(d) => Some(track_of(d)),
        None => None,
    }
}

fn track_shown(tracking: &Vec<LocalBranch>, branch: &str) -> (r: Option<TrackState>)
    ensures
        r == shown_track(tracking.deep_view(), branch@),
{
    match find_details(tracking, branch) {
        Some(d) => Some(track_state(d)),
        None => None,
    }
}

// ── The table ───────────────────────────────────────────────────────────────

/// The width of a column.
#[derive(Debug, Clone, Copy, PartialEq, Eq, Structural)]
pub enum Constraint {
    Length(u16),
    Fill(u16),
}

/// The table of branches. A cell is a piece of text with its look.
#[derive(Debug)]
pub struct Table {
    pub widths: Vec<Constraint>,
    pub header: Line,
    pub rows: Vec<Line>,
}

/// [`Table`] by its characters.
pub struct TableView {
    pub widths: Seq<Constraint>,
    pub header: Seq<SpanView>,
    pub rows: Seq<Seq<SpanView>>,
}

impl DeepView for Table {
    type V = TableView;

    open spec fn deep_view(&self) -> TableView {
        TableView {
            widths: self.widths@,
            header: self.header.deep_view(),
            rows: self.rows.deep_view(),
        }
    }
}

/// The widths of the columns.
pub open spec fn column_widths(show_deps: bool) -> Seq<Constraint> {
    let base = seq![
        Constraint::Length(1),
        Constraint::Length(4),
        Constraint::Fill(1),
        Constraint::Length(3),
        Constraint::Length(7),
        Constraint::Length(13),
    ];
    if show_deps {
        base.push(Constraint::Length(8)).push(Constraint::Length(10))
    } else {
        base
    }
}

/// The look of a column's name.
pub open spec fn header_look() -> Style {
    Style { underlined: true, ..in_bold() }
}

/// The names of the columns. The line under them runs on under the first, which
/// has none.
pub open spec fn header_cells(show_deps: bool) -> Seq<SpanView> {
    let base = seq![
        styled_span(""@, (Style { underlined: true, ..plain_style() })),
        styled_span("#"@, header_look()),
        styled_span("branch"@, header_look()),
        styled_span("loc"@, header_look()),
        styled_span("sync"@, header_look()),
        styled_span("state"@, header_look()),
    ];
    if show_deps {
        base.push(styled_span("deps"@, header_look())).push(
            styled_span("dependants"@, header_look()),
        )
    } else {
        base
    }
}

/// The look of the mark of the branch that is checked out.
pub open spec fn marker_look() -> Style {
    Style { bold: true, ..in_color(Color::Green) }
}

/// The look of a row: bold for the branch that is checked out.
pub open spec fn row_look(is_current: bool) -> Style {
    if is_current {
        in_bold()
    } else {
        plain_style()
    }
}

/// The cells of a base branch: no number, and its role for a state.
pub open spec fn base_cells(b: BaseBranchView, tracking: Seq<LocalBranchView>, show_deps: bool) -> Seq<
    SpanView,
> {
    let sync = sync_look(shown_track(tracking, b.branch));
    let base = seq![
        styled_span(marker(b.is_current), marker_look()),
        raw_span(""@),
        styled_span(b.branch, (Style { fg: Some(b.role.hue()), ..row_look(b.is_current) })),
        styled_span(b.location.symbol_text(), row_look(b.is_current)),
        styled_span(sync.0, in_color(sync.1)),
        styled_span(b.role.label_text(), in_color(b.role.hue())),
    ];
    if show_deps {
        base.push(raw_span(""@)).push(raw_span(""@))
    } else {
        base
    }
}

/// The cells of a roll.
pub open spec fn roll_cells(r: RollView, tracking: Seq<LocalBranchView>, show_deps: bool) -> Seq<
    SpanView,
> {
    let sync = sync_look(shown_track(tracking, r.branch));
    let base = seq![
        styled_span(marker(r.is_current), marker_look()),
        styled_span(decimal(r.number as nat), row_look(r.is_current)),
        styled_span(r.branch, row_look(r.is_current)),
        styled_span(r.location.symbol_text(), row_look(r.is_current)),
        styled_span(sync.0, in_color(sync.1)),
        styled_span(r.state.label_text(), in_color(state_hue(r.state))),
    ];
    if show_deps {
        base.push(raw_span(roll_numbers_text(r.deps))).push(
            raw_span(roll_numbers_text(r.dependents)),
        )
    } else {
        base
    }
}

/// The table of branches: the base branches, then the rolls.
pub open spec fn table_of(
    bases: Seq<BaseBranchView>,
    rolls: Seq<RollView>,
    tracking: Seq<LocalBranchView>,
    show_deps: bool,
) -> TableView {
    TableView {
        widths: column_widths(show_deps),
        header: header_cells(show_deps),
        rows: Seq::new(bases.len(), |i: int| base_cells(bases[i], tracking, show_deps)) + Seq::new(
            rolls.len(),
            |i: int| roll_cells(rolls[i], tracking, show_deps),
        ),
    }
}

fn row_style(is_current: bool) -> (r: Style)
    ensures
        r == row_look(is_current),
{
    if is_current {
        Style::plain().bold()
    } else {
        Style::plain()
    }
}

fn base_line(b: &BaseBranch, tracking: &Vec<LocalBranch>, show_deps: bool) -> (r: Line)
    ensures
        r.deep_view() == base_cells(b.deep_view(), tracking.deep_view(), show_deps),
{
    let look = row_style(b.is_current);
    let (sync_text, sync_color) = sync_cell(track_shown(tracking, b.branch.as_str()));
    let mut cells = vec![
        Span::styled(current_marker(b.is_current), Style::plain().fg(Color::Green).bold()),
        Span::raw(""),
        Span::styled(b.branch.as_str(), look.fg(b.role.color())),
        Span::styled(b.location.symbol(), look),
        Span::styled(sync_text.as_str(), Style::plain().fg(sync_color)),
        Span::styled(b.role.label(), Style::plain().fg(b.role.color())),
    ];
    if show_deps {
        cells.push(Span::raw(""));
        cells.push(Span::raw(""));
    }
    assert(cells.deep_view() =~= base_cells(b.deep_view(), tracking.deep_view(), show_deps));
    Line::of(cells)
}

fn roll_line(r: &RollInfo, tracking: &Vec<LocalBranch>, show_deps: bool) -> (l: Line)
    ensures
        l.deep_view() == roll_cells(r.deep_view(), tracking.deep_view(), show_deps),
{
    let look = row_style(r.is_current);
    let (sync_text, sync_color) = sync_cell(track_shown(tracking, r.branch.as_str()));
    let number = to_decimal(r.number as u64);
    let mut cells = vec![
        Span::styled(current_marker(r.is_current), Style::plain().fg(Color::Green).bold()),
        Span::styled(number.as_str(), look),
        Span::styled(r.branch.as_str(), look),
        Span::styled(r.location.symbol(), look),
        Span::styled(sync_text.as_str(), Style::plain().fg(sync_color)),
        Span::styled(r.state.label(), Style::plain().fg(state_color(&r.state))),
    ];
    if show_deps {
        let deps = format_roll_numbers(&r.deps);
        let dependents = format_roll_numbers(&r.dependents);
        cells.push(Span::raw(deps.as_str()));
        cells.push(Span::raw(dependents.as_str()));
    }
    assert(cells.deep_view() =~= roll_cells(r.deep_view(), tracking.deep_view(), show_deps));
    Line::of(cells)
}

/// The table of branches.
pub fn render_table(
    bases: &Vec<BaseBranch>,
    rolls: &Vec<RollInfo>,
    tracking: &Vec<LocalBranch>,
    show_deps: bool,
) -> (r: Table)
    ensures
        r.deep_view() == table_of(
            bases.deep_view(),
            rolls.deep_view(),
            tracking.deep_view(),
            show_deps,
        ),
{
    let mut widths = vec![
        Constraint::Length(1),
        Constraint::Length(4),
        Constraint::Fill(1),
        Constraint::Length(3),
        Constraint::Length(7),
        Constraint::Length(13),
    ];
    let under = Style::plain().underlined();
    let name = under.bold();
    let mut header = vec![
        Span::styled("", under),
        Span::styled("#", name),
        Span::styled("branch", name),
        Span::styled("loc", name),
        Span::styled("sync", name),
        Span::styled("state", name),
    ];
    if show_deps {
        widths.push(Constraint::Length(8));
        widths.push(Constraint::Length(10));
        header.push(Span::styled("deps", name));
        header.push(Span::styled("dependants", name));
    }
    assert(widths@ =~= column_widths(show_deps));
    assert(header.deep_view() =~= header_cells(show_deps));
    let ghost bv = bases.deep_view();
    let ghost rv = rolls.deep_view();
    let ghost tv = tracking.deep_view();
    let ghost all = table_of(bv, rv, tv, show_deps).rows;
    let mut rows: Vec<Line> = Vec::new();
    let mut i: usize = 0;
    while i < bases.len()
        invariant
            i <= bases@.len(),
            bv == bases.deep_view(),
            tv == tracking.deep_view(),
            all == table_of(bv, rv, tv, show_deps).rows,
            rows@.len() == i,
            forall|k: int| 0 <= k < i ==> (#[trigger] rows@[k]).deep_view() == all[k],
        decreases bases@.len() - i,
    {
        assert(bv[i as int] == bases@[i as int].deep_view());
        rows.push(base_line(&bases[i], tracking, show_deps));
        i += 1;
    }
    let n = bases.len();
    let mut k: usize = 0;
    while k < rolls.len()
        invariant
            k <= rolls@.len(),
            n == bases@.len(),
            bv == bases.deep_view(),
            rv == rolls.deep_view(),
            tv == tracking.deep_view(),
            all == table_of(bv, rv, tv, show_deps).rows,
            rows@.len() == n + k,
            forall|j: int| 0 <= j < n + k ==> (#[trigger] rows@[j]).deep_view() == all[j],
        decreases rolls@.len() - k,
    {
        assert(rv[k as int] == rolls@[k as int].deep_view());
        rows.push(roll_line(&rolls[k], tracking, show_deps));
        assert(all[n + k] == roll_cells(rv[k as int], tv, show_deps));
        k += 1;
    }
    assert(rows.deep_view() =~= all);
    Table { widths, header: Line::of(header), rows }
}

/// The line at the top: where the working tree is, and the two long-lived
/// branches.
pub open spec fn header_of(config: ConfigView, current: Seq<char>) -> Seq<SpanView> {
    seq![
        styled_span("Branch: "@, in_bold()),
        raw_span(current),
        raw_span("   Rolling: "@),
        styled_span(config.rolling_branch, in_color(Color::Cyan)),
        raw_span("   Stable: "@),
        styled_span(config.stable_branch, in_color(Color::Green)),
    ]
}

/// The line at the top, and what stands in the corner of its border.
pub fn render_header(config: &Config, current_branch: &str, version: Option<Semver>) -> (r: (
    Line,
    Option<Span>,
))
    ensures
        r.0.deep_view() == header_of(config.deep_view(), current_branch@),
        r.1.deep_view() == (match version {
            Some(v) => Some(styled_span(" v"@ + v.text() + " "@, in_color(Color::Magenta))),
            None => None,
        }),
{
    let spans = vec![
        Span::styled("Branch: ", Style::plain().bold()),
        Span::raw(current_branch),
        Span::raw("   Rolling: "),
        Span::styled(config.rolling_branch.as_str(), Style::plain().fg(Color::Cyan)),
        Span::raw("   Stable: "),
        Span::styled(config.stable_branch.as_str(), Style::plain().fg(Color::Green)),
    ];
    assert(spans.deep_view() =~= header_of(config.deep_view(), current_branch@));
    let corner = match version {
        Some(v) => {
            let t = v.to_string();
            let text = cat3(" v", t.as_str(), " ");
            Some(Span::styled(text.as_str(), Style::plain().fg(Color::Magenta)))
        },
        None => None,
    };
    (Line::of(spans), corner)
}

/// The two lines at the bottom: a message, and the hints.
pub fn render_status_bar(message: &Option<String>) -> (r: Vec<Line>)
    ensures
        r.deep_view() == seq![
            match message.deep_view() {
                Some(m) => seq![styled_span(" "@ + m, in_color(Color::Yellow))],
                None => seq![raw_span(""@)],
            },
            seq![raw_span(hints(keymap().len()))],
        ],
{
    let first = match message {
        Some(m) => {
            let text = cat(" ", m.as_str());
            Line::styled(text.as_str(), Style::plain().fg(Color::Yellow))
        },
        None => Line::raw(""),
    };
    let ghost view = first.deep_view();
    let bar = basic_hints();
    let r = vec![first, Line::raw(bar.as_str())];
    assert(r.deep_view() =~= seq![view, seq![raw_span(hints(keymap().len()))]]);
    r
}

// ── Modals ──────────────────────────────────────────────────────────────────

/// A box over the view.
#[derive(Debug)]
pub struct Modal {
    pub title: String,
    pub title_style: Style,
    pub border: Style,
    /// Whether its lines are centred.
    pub centred: bool,
    pub lines: Vec<Line>,
    /// How wide its content is; `None` where the terminal measures it.
    pub content: Option<usize>,
    /// The least and the most that the content counts for.
    pub low: u16,
    pub high: u16,
}

/// [`Modal`] by its characters.
pub struct ModalView {
    pub title: Seq<char>,
    pub title_style: Style,
    pub border: Style,
    pub centred: bool,
    pub lines: Seq<Seq<SpanView>>,
    pub content: Option<usize>,
    pub low: u16,
    pub high: u16,
}

impl DeepView for Modal {
    type V = ModalView;

    open spec fn deep_view(&self) -> ModalView {
        ModalView {
            title: self.title@,
            title_style: self.title_style,
            border: self.border,
            centred: self.centred,
            lines: self.lines.deep_view(),
            content: self.content,
            low: self.low,
            high: self.high,
        }
    }
}

/// The width of a modal whose content is this wide: held between the bounds,
/// with room for the border.
pub open spec fn modal_width(content: u16, low: u16, high: u16) -> int {
    let held = if content < low {
        low as int
    } else if content > high {
        high as int
    } else {
        content as int
    };
    least(held + 4, u16::MAX as int)
}

/// The height of a modal with this many lines.
pub open spec fn modal_height(lines: u16) -> int {
    least(lines + 2, u16::MAX as int)
}

/// The rectangle of a modal, in the middle of an area.
pub fn modal_rect(area: Rect, content: u16, lines: u16, low: u16, high: u16) -> (r: Rect)
    requires
        low <= high,
        centred_at(area.x, area.width, modal_width(content, low, high) as u16) <= u16::MAX,
        centred_at(area.y, area.height, modal_height(lines) as u16) <= u16::MAX,
    ensures
        r.width == least(modal_width(content, low, high), area.width as int),
        r.height == least(modal_height(lines), area.height as int),
        r.x == centred_at(area.x, area.width, modal_width(content, low, high) as u16),
        r.y == centred_at(area.y, area.height, modal_height(lines) as u16),
{
    let held = if content < low {
        low
    } else if content > high {
        high
    } else {
        content
    };
    let width: u16 = if held > 65531 {
        65535
    } else {
        held + 4
    };
    let height: u16 = if lines > 65533 {
        65535
    } else {
        lines + 2
    };
    centered_rect(area, width, height)
}

/// The largest of two numbers.
pub open spec fn most(a: nat, b: nat) -> nat {
    if a >= b {
        a
    } else {
        b
    }
}

/// What the confirmation asks.
pub open spec fn confirm_text(
    config: ConfigView,
    action: Action,
    target: Option<Seq<char>>,
    rolls: Seq<RollView>,
    current: Seq<char>,
) -> Seq<char> {
    let what = match target {
        Some(t) => t,
        None => "(selected roll)"@,
    };
    match action {
        Action::Graduate => "Graduate "@ + what + " into "@ + config.rolling_branch + "?"@,
        Action::Integrate => "Integrate "@ + what + " into "@ + current + "?"@,
        Action::Promote => match target {
            Some(roll) => "Promote "@ + roll + " into "@ + config.stable_branch + "?"@,
            None => "Promote all of "@ + config.rolling_branch + " into "@ + config.stable_branch
                + "?"@,
        },
        Action::Update => "Update all active local rolls from "@ + config.stable_branch + "?"@,
        Action::Prune => {
            let n = tally(rolls, |x: RollView| prunable(x));
            "Delete "@ + decimal(n) + " promoted roll branch"@ + branch_ending(n)
                + " (local + origin)?"@
        },
        Action::Tidy => {
            let n = tally(rolls, |x: RollView| tidyable(x));
            "Delete "@ + decimal(n) + " local graduated/promoted roll branch"@ + branch_ending(n)
                + " (local only)?"@
        },
    }
}

/// The ending that makes `branch` plural.
pub open spec fn branch_ending(n: nat) -> Seq<char> {
    if n == 1 {
        ""@
    } else {
        "es"@
    }
}

/// The ending that makes `branch` plural.
pub fn branches_ending(n: usize) -> (r: &'static str)
    ensures
        r@ == branch_ending(n as nat),
{
    if n == 1 {
        ""
    } else {
        "es"
    }
}

fn say_confirm(
    config: &Config,
    action: Action,
    target: Option<&str>,
    rolls: &Vec<RollInfo>,
    current_branch: &str,
) -> (r: String)
    ensures
        r@ == confirm_text(
            config.deep_view(),
            action,
            match target {
                Some(t) => Some(t@),
                None => None,
            },
            rolls.deep_view(),
            current_branch@,
        ),
{
    let what = match target {
        Some(t) => t,
        None => "(selected roll)",
    };
    match action {
        Action::Graduate => cat5(
            "Graduate ",
            what,
            " into ",
            config.rolling_branch.as_str(),
            "?",
        ),
        Action::Integrate => cat5("Integrate ", what, " into ", current_branch, "?"),
        Action::Promote => match target {
            Some(roll) => cat5("Promote ", roll, " into ", config.stable_branch.as_str(), "?"),
            None => cat5(
                "Promote all of ",
                config.rolling_branch.as_str(),
                " into ",
                config.stable_branch.as_str(),
                "?",
            ),
        },
        Action::Update => cat3(
            "Update all active local rolls from ",
            config.stable_branch.as_str(),
            "?",
        ),
        Action::Prune => {
            let n = prunable_count(rolls);
            let t = to_decimal(n as u64);
            cat5(
                "Delete ",
                t.as_str(),
                " promoted roll branch",
                branches_ending(n),
                " (local + origin)?",
            )
        },
        Action::Tidy => {
            let n = tidyable_count(rolls);
            let t = to_decimal(n as u64);
            cat5(
                "Delete ",
                t.as_str(),
                " local graduated/promoted roll branch",
                branches_ending(n),
                " (local only)?",
            )
        },
    }
}

/// The confirmation of an action.
pub open spec fn confirm_modal(prompt: Seq<char>) -> ModalView {
    let hint = "[y] confirm    [n] cancel"@;
    ModalView {
        title: " confirm "@,
        title_style: plain_style(),
        border: plain_style(),
        centred: true,
        lines: seq![seq![raw_span(prompt)], seq![raw_span(hint)]],
        content: Some(most(prompt.len(), hint.len()) as usize),
        low: 0,
        high: u16::MAX,
    }
}

/// The confirmation of an action.
pub fn render_modal(
    config: &Config,
    action: Action,
    target: Option<&str>,
    rolls: &Vec<RollInfo>,
    current_branch: &str,
) -> (r: Modal)
    ensures
        r.deep_view() == confirm_modal(
            confirm_text(
                config.deep_view(),
                action,
                match target {
                    Some(t) => Some(t@),
                    None => None,
                },
                rolls.deep_view(),
                current_branch@,
            ),
        ),
{
    let prompt = say_confirm(config, action, target, rolls, current_branch);
    let hint = "[y] confirm    [n] cancel";
    let a = prompt.as_str().unicode_len();
    let b = hint.unicode_len();
    let content = if a >= b {
        a
    } else {
        b
    };
    let lines = vec![Line::raw(prompt.as_str()), Line::raw(hint)];
    assert(lines.deep_view() =~= seq![seq![raw_span(prompt@)], seq![raw_span(hint@)]]);
    Modal {
        title: " confirm ".to_owned(),
        title_style: Style::plain(),
        border: Style::plain(),
        centred: true,
        lines,
        content: Some(content),
        low: 0,
        high: 65535,
    }
}

/// The prompt for the name of a new roll.
pub open spec fn create_modal(stable: Seq<char>, buffer: Seq<char>) -> ModalView {
    let prompt = "New roll slug (branched from "@ + stable + "):"@;
    let input = buffer + "_"@;
    let hint = "[enter] create    [esc] cancel"@;
    ModalView {
        title: " create roll "@,
        title_style: plain_style(),
        border: plain_style(),
        centred: true,
        lines: seq![
            seq![raw_span(prompt)],
            seq![raw_span(""@)],
            seq![styled_span(input, in_color(Color::Cyan))],
            seq![raw_span(""@)],
            seq![styled_span(hint, in_color(Color::DarkGray))],
        ],
        content: Some(most(most(prompt.len(), hint.len()), input.len()) as usize),
        low: 36,
        high: u16::MAX,
    }
}

/// The prompt for the name of a new roll.
pub fn render_create_input(config: &Config, buffer: &str) -> (r: Modal)
    ensures
        r.deep_view() == create_modal(config.deep_view().stable_branch, buffer@),
{
    let prompt = cat3("New roll slug (branched from ", config.stable_branch.as_str(), "):");
    let input = cat(buffer, "_");
    let hint = "[enter] create    [esc] cancel";
    let a = prompt.as_str().unicode_len();
    let b = hint.unicode_len();
    let c = input.as_str().unicode_len();
    let ab = if a >= b {
        a
    } else {
        b
    };
    let content = if ab >= c {
        ab
    } else {
        c
    };
    let lines = vec![
        Line::raw(prompt.as_str()),
        Line::raw(""),
        Line::styled(input.as_str(), Style::plain().fg(Color::Cyan)),
        Line::raw(""),
        Line::styled(hint, Style::plain().fg(Color::DarkGray)),
    ];
    assert(lines.deep_view() =~= create_modal(config.stable_branch@, buffer@).lines);
    Modal {
        title: " create roll ".to_owned(),
        title_style: Style::plain(),
        border: Style::plain(),
        centred: true,
        lines,
        content: Some(content),
        low: 36,
        high: 65535,
    }
}

/// What a forced push would overwrite, in words.
pub open spec fn overwrite_text(
    branch: Seq<char>,
    remote: Seq<char>,
    track: Option<TrackState>,
) -> Seq<char> {
    match track {
        Some(TrackState::Diverged { ahead, behind }) => remote + "/"@ + branch + " has "@
            + decimal(behind as nat) + " commit"@ + plural_ending(behind as int)
            + " you don't; you have "@ + decimal(ahead as nat) + "."@,
        Some(TrackState::Behind(behind)) => remote + "/"@ + branch + " has "@ + decimal(
            behind as nat,
        ) + " commit"@ + plural_ending(behind as int) + " you don't."@,
        _ => remote + "/"@ + branch + " has commits you don't."@,
    }
}

fn say_overwrite(branch: &str, remote: &str, track: Option<TrackState>) -> (r: String)
    ensures
        r@ == overwrite_text(branch@, remote@, track),
{
    match track {
        Some(TrackState::Diverged { ahead, behind }) => {
            let b = to_decimal(behind as u64);
            let a = to_decimal(ahead as u64);
            let front = cat5(remote, "/", branch, " has ", b.as_str());
            let mid = cat4(front.as_str(), " commit", plural(behind), " you don't; you have ");
            cat3(mid.as_str(), a.as_str(), ".")
        },
        Some(TrackState::Behind(behind)) => {
            let b = to_decimal(behind as u64);
            let front = cat5(remote, "/", branch, " has ", b.as_str());
            cat4(front.as_str(), " commit", plural(behind), " you don't.")
        },
        _ => cat4(remote, "/", branch, " has commits you don't."),
    }
}

/// The prompt that asks whether to force a push.
pub open spec fn force_push_modal(
    branch: Seq<char>,
    remote: Seq<char>,
    track: Option<TrackState>,
) -> ModalView {
    ModalView {
        title: " force push "@,
        title_style: (Style { bold: true, ..in_color(Color::Red) }),
        border: in_color(Color::Red),
        centred: false,
        lines: seq![
            seq![styled_span("Force-push "@ + branch + "?"@, in_bold())],
            seq![raw_span(""@)],
            seq![raw_span(overwrite_text(branch, remote, track))],
            seq![
                styled_span(
                    "Uses --force-with-lease: refused if origin moved since your last fetch."@,
                    in_color(Color::DarkGray),
                ),
            ],
            seq![raw_span(""@)],
            seq![styled_span("[y] force    [n] cancel"@, in_color(Color::Yellow))],
        ],
        content: None,
        low: 32,
        high: 78,
    }
}

/// The prompt that asks whether to force a push.
pub fn render_force_push_modal(branch: &str, remote: &str, details: Option<&LocalBranch>) -> (r:
    Modal)
    ensures
        r.deep_view() == force_push_modal(
            branch@,
            remote@,
            match details {
                Some(d) => Some(track_of(d.deep_view())),
                None => None,
            },
        ),
{
    let track = match details {
        Some(d) => Some(track_state(d)),
        None => None,
    };
    let question = cat3("Force-push ", branch, "?");
    let divergence = say_overwrite(branch, remote, track);
    let lines = vec![
        Line::styled(question.as_str(), Style::plain().bold()),
        Line::raw(""),
        Line::raw(divergence.as_str()),
        Line::styled(
            "Uses --force-with-lease: refused if origin moved since your last fetch.",
            Style::plain().fg(Color::DarkGray),
        ),
        Line::raw(""),
        Line::styled("[y] force    [n] cancel", Style::plain().fg(Color::Yellow)),
    ];
    assert(lines.deep_view() =~= force_push_modal(branch@, remote@, track).lines);
    Modal {
        title: " force push ".to_owned(),
        title_style: Style::plain().fg(Color::Red).bold(),
        border: Style::plain().fg(Color::Red),
        centred: false,
        lines,
        content: None,
        low: 32,
        high: 78,
    }
}

/// The line about one level of a bump.
pub open spec fn bump_line(key: Seq<char>, level: BumpLevel, next: Semver) -> Seq<SpanView> {
    seq![
        styled_span("["@ + key + "] "@, in_color(Color::Yellow)),
        raw_span(level.text() + " → "@),
        styled_span(next.text(), in_bold()),
    ]
}

/// The prompt that asks which number of the version to raise.
pub open spec fn bump_modal(current: Semver, branch: Seq<char>) -> ModalView {
    ModalView {
        title: " bump version "@,
        title_style: in_bold(),
        border: plain_style(),
        centred: false,
        lines: seq![
            seq![
                raw_span("Current: "@),
                styled_span(current.text(), in_bold()),
                raw_span("  on "@ + branch),
            ],
            seq![raw_span(""@)],
            bump_line("1"@, BumpLevel::Patch, current.bumped(BumpLevel::Patch)),
            bump_line("2"@, BumpLevel::Minor, current.bumped(BumpLevel::Minor)),
            bump_line("3"@, BumpLevel::Major, current.bumped(BumpLevel::Major)),
            seq![raw_span(""@)],
            seq![styled_span("[n] cancel"@, in_color(Color::Yellow))],
        ],
        content: None,
        low: 28,
        high: 70,
    }
}

fn bump_row(key: &str, level: BumpLevel, next: Semver) -> (r: Line)
    ensures
        r.deep_view() == bump_line(key@, level, next),
{
    let tag = cat3("[", key, "] ");
    let word = level.to_string();
    let arrow = cat(word.as_str(), " → ");
    let to = next.to_string();
    let spans = vec![
        Span::styled(tag.as_str(), Style::plain().fg(Color::Yellow)),
        Span::raw(arrow.as_str()),
        Span::styled(to.as_str(), Style::plain().bold()),
    ];
    assert(spans.deep_view() =~= bump_line(key@, level, next));
    Line::of(spans)
}

/// The prompt that asks which number of the version to raise.
pub fn render_bump_modal(current: Semver, branch: &str) -> (r: Modal)
    requires
        current.can_bump(BumpLevel::Patch),
        current.can_bump(BumpLevel::Minor),
        current.can_bump(BumpLevel::Major),
    ensures
        r.deep_view() == bump_modal(current, branch@),
{
    let now = current.to_string();
    let on = cat("  on ", branch);
    let first = vec![
        Span::raw("Current: "),
        Span::styled(now.as_str(), Style::plain().bold()),
        Span::raw(on.as_str()),
    ];
    assert(first.deep_view() =~= bump_modal(current, branch@).lines[0]);
    let lines = vec![
        Line::of(first),
        Line::raw(""),
        bump_row("1", BumpLevel::Patch, current.bump(BumpLevel::Patch)),
        bump_row("2", BumpLevel::Minor, current.bump(BumpLevel::Minor)),
        bump_row("3", BumpLevel::Major, current.bump(BumpLevel::Major)),
        Line::raw(""),
        Line::styled("[n] cancel", Style::plain().fg(Color::Yellow)),
    ];
    assert(lines.deep_view() =~= bump_modal(current, branch@).lines);
    Modal {
        title: " bump version ".to_owned(),
        title_style: Style::plain().bold(),
        border: Style::plain(),
        centred: false,
        lines,
        content: None,
        low: 28,
        high: 70,
    }
}

// ── The deletion prompt ─────────────────────────────────────────────────────

/// What would be lost, in words.
pub open spec fn loss_text(lost: Option<u32>, stable: Seq<char>) -> Seq<char> {
    match lost {
        Some(n) => "⚠ "@ + decimal(n as nat) + " commit"@ + plural_ending(n as int) + " not in "@
            + stable + " will be lost — this cannot be undone"@,
        None => "⚠ containment in "@ + stable + " is unknown — commits may be lost"@,
    }
}

/// The commits at stake in a scope.
pub open spec fn at_stake(scope: DeleteScope, p: DeletePreviewView) -> Option<u32> {
    match scope {
        DeleteScope::Local => p.local_unmerged,
        DeleteScope::Remote => p.remote_unmerged,
        DeleteScope::Both => worst(p.local_unmerged, p.remote_unmerged),
    }
}

/// The question of the deletion prompt.
pub open spec fn delete_question(p: DeletePreviewView, stable: Seq<char>) -> Seq<Seq<SpanView>> {
    match p.prompt {
        DeletePrompt::Single(DeleteScope::Local) => seq![
            seq![raw_span("Delete local branch "@ + p.branch + "?"@)],
        ],
        DeletePrompt::Single(_) => {
            let ask = seq![raw_span("Delete origin/"@ + p.branch + "?"@)];
            if p.local_is_checked_out {
                seq![
                    ask,
                    seq![
                        styled_span(
                            "local copy is checked out — origin only"@,
                            in_color(Color::DarkGray),
                        ),
                    ],
                ]
            } else {
                seq![ask]
            }
        },
        DeletePrompt::Choice => seq![
            seq![
                raw_span("Delete "@ + p.branch + " — it exists locally and on origin."@),
            ],
        ],
        DeletePrompt::ForceConfirm(scope) => seq![
            seq![raw_span("Delete "@ + p.branch + " ("@ + scope_text(scope) + ")"@)],
            seq![styled_span(loss_text(at_stake(scope, p), stable), in_color(Color::Red))],
        ],
    }
}

/// The keys of the deletion prompt.
pub open spec fn delete_hint(prompt: DeletePrompt) -> Seq<char> {
    match prompt {
        DeletePrompt::Choice => "[l] local only   [r] origin only   [b] both   [n] neither"@,
        DeletePrompt::ForceConfirm(_) => "[y] delete anyway    [n] cancel"@,
        DeletePrompt::Single(_) => "[y] delete    [n] cancel"@,
    }
}

/// The deletion prompt.
pub open spec fn delete_modal(p: DeletePreviewView, stable: Seq<char>) -> ModalView {
    ModalView {
        title: if p.prompt is ForceConfirm {
            " force delete "@
        } else {
            " delete "@
        },
        title_style: plain_style(),
        border: in_color(Color::Red),
        centred: true,
        lines: delete_question(p, stable) + seq![
            seq![raw_span(""@)],
            seq![styled_span(delete_hint(p.prompt), in_color(Color::DarkGray))],
        ],
        content: None,
        low: 28,
        high: u16::MAX,
    }
}

fn say_loss(lost: Option<u32>, stable: &str) -> (r: String)
    ensures
        r@ == loss_text(lost, stable@),
{
    match lost {
        Some(n) => {
            let t = to_decimal(n as u64);
            let front = cat5("⚠ ", t.as_str(), " commit", plural(n), " not in ");
            cat3(front.as_str(), stable, " will be lost — this cannot be undone")
        },
        None => cat3(
            "⚠ containment in ",
            stable,
            " is unknown — commits may be lost",
        ),
    }
}

fn ask_delete(p: &DeletePreview, stable: &str) -> (r: Vec<Line>)
    ensures
        r.deep_view() == delete_question(p.deep_view(), stable@),
{
    let mut lines: Vec<Line> = Vec::new();
    match p.prompt {
        DeletePrompt::Single(DeleteScope::Local) => {
            let t = cat3("Delete local branch ", p.branch.as_str(), "?");
            lines.push(Line::raw(t.as_str()));
        },
        DeletePrompt::Single(_) => {
            let t = cat3("Delete origin/", p.branch.as_str(), "?");
            lines.push(Line::raw(t.as_str()));
            if p.local_is_checked_out {
                lines.push(
                    Line::styled(
                        "local copy is checked out — origin only",
                        Style::plain().fg(Color::DarkGray),
                    ),
                );
            }
        },
        DeletePrompt::Choice => {
            let t = cat3("Delete ", p.branch.as_str(), " — it exists locally and on origin.");
            lines.push(Line::raw(t.as_str()));
        },
        DeletePrompt::ForceConfirm(scope) => {
            let t = cat5("Delete ", p.branch.as_str(), " (", scope_label(scope), ")");
            lines.push(Line::raw(t.as_str()));
            let warning = say_loss(unmerged_for_scope(scope, p), stable);
            lines.push(Line::styled(warning.as_str(), Style::plain().fg(Color::Red)));
        },
    }
    assert(lines.deep_view() =~= delete_question(p.deep_view(), stable@));
    lines
}

/// The deletion prompt.
pub fn render_delete_modal(config: &Config, preview: &DeletePreview) -> (r: Modal)
    ensures
        r.deep_view() == delete_modal(preview.deep_view(), config.deep_view().stable_branch),
{
    let title = match preview.prompt {
        DeletePrompt::ForceConfirm(_) => " force delete ".to_owned(),
        _ => " delete ".to_owned(),
    };
    let hint = match preview.prompt {
        DeletePrompt::Choice => "[l] local only   [r] origin only   [b] both   [n] neither",
        DeletePrompt::ForceConfirm(_) => "[y] delete anyway    [n] cancel",
        DeletePrompt::Single(_) => "[y] delete    [n] cancel",
    };
    let mut lines = ask_delete(preview, config.stable_branch.as_str());
    let ghost asked = lines.deep_view();
    lines.push(Line::raw(""));
    lines.push(Line::styled(hint, Style::plain().fg(Color::DarkGray)));
    assert(lines.deep_view() =~= asked + seq![
        seq![raw_span(""@)],
        seq![styled_span(delete_hint(preview.prompt), in_color(Color::DarkGray))],
    ]);
    Modal {
        title,
        title_style: Style::plain(),
        border: Style::plain().fg(Color::Red),
        centred: true,
        lines,
        content: None,
        low: 28,
        high: 65535,
    }
}

// ── The detail view ─────────────────────────────────────────────────────────

/// The two lines that identify a roll.
pub open spec fn identity_lines(r: RollView) -> Seq<Seq<SpanView>> {
    seq![
        seq![
            styled_span("roll #"@, in_bold()),
            styled_span(decimal(r.number as nat), in_bold()),
            raw_span("  "@),
            styled_span(r.branch, in_color(Color::Cyan)),
        ],
        seq![
            raw_span("state: "@),
            styled_span(r.state.label_text(), in_color(state_hue(r.state))),
            raw_span("    location: "@),
            raw_span(r.location.label_text()),
        ],
    ]
}

/// The line about one dependency.
pub open spec fn dep_line(d: DepRowView) -> Seq<SpanView> {
    seq![
        raw_span("  #"@ + decimal(d.number as nat) + "  "@),
        styled_span(d.branch, in_color(Color::Cyan)),
        raw_span("  ["@),
        styled_span(d.state.label_text(), in_color(state_hue(d.state))),
        raw_span("]  "@),
        if d.is_blocker {
            styled_span("⛔ blocker"@, in_color(Color::Red))
        } else {
            styled_span("✓ ok"@, in_color(Color::Green))
        },
    ]
}

/// The line about one dependent.
pub open spec fn dependent_line(d: DepRowView) -> Seq<SpanView> {
    seq![
        raw_span("  #"@ + decimal(d.number as nat) + "  "@),
        styled_span(d.branch, in_color(Color::Cyan)),
        raw_span("  ["@),
        styled_span(d.state.label_text(), in_color(state_hue(d.state))),
        raw_span("]"@),
    ]
}

/// How many rows block.
pub open spec fn blocking(rows: Seq<DepRowView>) -> nat
    decreases rows.len(),
{
    if rows.len() == 0 {
        0
    } else {
        blocking(rows.drop_last()) + (if rows.last().is_blocker {
            1nat
        } else {
            0
        })
    }
}

/// The lines about the dependencies.
pub open spec fn dep_lines(rows: Seq<DepRowView>) -> Seq<Seq<SpanView>> {
    if rows.len() == 0 {
        seq![seq![styled_span("no dependencies / not blocked"@, in_color(Color::Green))]]
    } else {
        seq![
            seq![
                styled_span(
                    if blocking(rows) > 0 {
                        "dependencies ("@ + decimal(blocking(rows)) + " blocking):"@
                    } else {
                        "dependencies (all graduated):"@
                    },
                    in_bold(),
                ),
            ],
        ] + Seq::new(rows.len(), |i: int| dep_line(rows[i]))
    }
}

/// The lines about the dependents.
pub open spec fn dependent_lines(rows: Seq<DepRowView>) -> Seq<Seq<SpanView>> {
    if rows.len() == 0 {
        seq![seq![styled_span("no dependents"@, in_color(Color::Green))]]
    } else {
        seq![
            seq![styled_span("dependents ("@ + decimal(rows.len()) + "):"@, in_bold())],
        ] + Seq::new(rows.len(), |i: int| dependent_line(rows[i]))
    }
}

/// The lines of the detail view: what the roll is, how it stands to `origin`,
/// what it depends on, and what depends on it.
pub open spec fn detail_lines(
    r: RollView,
    ahead_behind: Option<(u32, u32)>,
    all: Seq<RollView>,
) -> Seq<Seq<SpanView>> {
    let divergence = match divergence_text(ahead_behind) {
        Some(t) => seq![seq![styled_span(t, in_color(Color::Yellow))]],
        None => seq![],
    };
    let blank = seq![seq![raw_span(""@)]];
    identity_lines(r) + divergence + blank + dep_lines(kept(r.deps, |n: u32| dep_row(all, n)))
        + blank + dependent_lines(kept(r.dependents, |n: u32| dependent_row(r, all, n))) + blank
        + seq![seq![styled_span("[q/esc] back"@, in_color(Color::DarkGray))]]
}

/// The detail view of a roll.
pub open spec fn detail_modal(
    r: RollView,
    ahead_behind: Option<(u32, u32)>,
    all: Seq<RollView>,
) -> ModalView {
    ModalView {
        title: " roll detail "@,
        title_style: plain_style(),
        border: plain_style(),
        centred: false,
        lines: detail_lines(r, ahead_behind, all),
        content: None,
        low: 28,
        high: u16::MAX,
    }
}

fn say_identity(r: &RollInfo) -> (l: Vec<Line>)
    ensures
        l.deep_view() == identity_lines(r.deep_view()),
{
    let bold = Style::plain().bold();
    let number = to_decimal(r.number as u64);
    let first = vec![
        Span::styled("roll #", bold),
        Span::styled(number.as_str(), bold),
        Span::raw("  "),
        Span::styled(r.branch.as_str(), Style::plain().fg(Color::Cyan)),
    ];
    assert(first.deep_view() =~= identity_lines(r.deep_view())[0]);
    let second = vec![
        Span::raw("state: "),
        Span::styled(r.state.label(), Style::plain().fg(state_color(&r.state))),
        Span::raw("    location: "),
        Span::raw(r.location.label()),
    ];
    assert(second.deep_view() =~= identity_lines(r.deep_view())[1]);
    let l = vec![Line::of(first), Line::of(second)];
    assert(l.deep_view() =~= identity_lines(r.deep_view()));
    l
}

fn count_blocking(rows: &Vec<DepRow>) -> (r: usize)
    ensures
        r == blocking(rows.deep_view()),
{
    let ghost all = rows.deep_view();
    let mut n: usize = 0;
    let mut i: usize = 0;
    while i < rows.len()
        invariant
            i <= rows@.len(),
            n <= i,
            all == rows.deep_view(),
            n == blocking(all.take(i as int)),
        decreases rows@.len() - i,
    {
        assert(all.take(i + 1).drop_last() =~= all.take(i as int));
        assert(all[i as int] == rows@[i as int].deep_view());
        if rows[i].is_blocker {
            n += 1;
        }
        i += 1;
    }
    assert(all.take(all.len() as int) =~= all);
    n
}

fn say_dep(d: &DepRow, as_dependent: bool) -> (r: Line)
    ensures
        r.deep_view() == (if as_dependent {
            dependent_line(d.deep_view())
        } else {
            dep_line(d.deep_view())
        }),
{
    let number = to_decimal(d.number as u64);
    let head = cat3("  #", number.as_str(), "  ");
    let mut spans = vec![
        Span::raw(head.as_str()),
        Span::styled(d.branch.as_str(), Style::plain().fg(Color::Cyan)),
        Span::raw("  ["),
        Span::styled(d.state.label(), Style::plain().fg(state_color(&d.state))),
    ];
    if as_dependent {
        spans.push(Span::raw("]"));
        assert(spans.deep_view() =~= dependent_line(d.deep_view()));
    } else {
        spans.push(Span::raw("]  "));
        if d.is_blocker {
            spans.push(Span::styled("⛔ blocker", Style::plain().fg(Color::Red)));
        } else {
            spans.push(Span::styled("✓ ok", Style::plain().fg(Color::Green)));
        }
        assert(spans.deep_view() =~= dep_line(d.deep_view()));
    }
    Line::of(spans)
}

fn push_dep_lines(lines: &mut Vec<Line>, rows: &Vec<DepRow>)
    ensures
        final(lines).deep_view() == old(lines).deep_view() + dep_lines(rows.deep_view()),
{
    let ghost start = lines.deep_view();
    let ghost rv = rows.deep_view();
    let ghost added = dep_lines(rv);
    if rows.is_empty() {
        lines.push(
            Line::styled("no dependencies / not blocked", Style::plain().fg(Color::Green)),
        );
        assert(lines.deep_view() =~= start + added);
        return;
    }
    let n = count_blocking(rows);
    let header = if n > 0 {
        let t = to_decimal(n as u64);
        cat3("dependencies (", t.as_str(), " blocking):")
    } else {
        "dependencies (all graduated):".to_owned()
    };
    lines.push(Line::styled(header.as_str(), Style::plain().bold()));
    let mut i: usize = 0;
    assert(lines.deep_view() =~= start + added.take(1));
    while i < rows.len()
        invariant
            i <= rows@.len(),
            rv == rows.deep_view(),
            rv.len() > 0,
            added == dep_lines(rv),
            lines.deep_view() == start + added.take(i + 1),
        decreases rows@.len() - i,
    {
        let ghost before = lines.deep_view();
        assert(rv[i as int] == rows@[i as int].deep_view());
        lines.push(say_dep(&rows[i], false));
        assert(added[i + 1] == dep_line(rv[i as int]));
        assert(lines.deep_view() =~= before.push(added[i + 1]));
        assert(before.push(added[i + 1]) =~= start + added.take(i + 2));
        i += 1;
    }
    assert(added.take(rv.len() as int + 1) =~= added);
}

fn push_dependent_lines(lines: &mut Vec<Line>, rows: &Vec<DepRow>)
    ensures
        final(lines).deep_view() == old(lines).deep_view() + dependent_lines(rows.deep_view()),
{
    let ghost start = lines.deep_view();
    let ghost rv = rows.deep_view();
    let ghost added = dependent_lines(rv);
    if rows.is_empty() {
        lines.push(Line::styled("no dependents", Style::plain().fg(Color::Green)));
        assert(lines.deep_view() =~= start + added);
        return;
    }
    let t = to_decimal(rows.len() as u64);
    let header = cat3("dependents (", t.as_str(), "):");
    lines.push(Line::styled(header.as_str(), Style::plain().bold()));
    let mut i: usize = 0;
    assert(lines.deep_view() =~= start + added.take(1));
    while i < rows.len()
        invariant
            i <= rows@.len(),
            rv == rows.deep_view(),
            rv.len() > 0,
            added == dependent_lines(rv),
            lines.deep_view() == start + added.take(i + 1),
        decreases rows@.len() - i,
    {
        let ghost before = lines.deep_view();
        assert(rv[i as int] == rows@[i as int].deep_view());
        lines.push(say_dep(&rows[i], true));
        assert(added[i + 1] == dependent_line(rv[i as int]));
        assert(lines.deep_view() =~= before.push(added[i + 1]));
        assert(before.push(added[i + 1]) =~= start + added.take(i + 2));
        i += 1;
    }
    assert(added.take(rv.len() as int + 1) =~= added);
}

/// The detail view of a roll.
pub fn render_detail(roll: &RollInfo, ahead_behind: Option<(u32, u32)>, all: &Vec<RollInfo>) -> (r:
    Modal)
    ensures
        r.deep_view() == detail_modal(roll.deep_view(), ahead_behind, all.deep_view()),
{
    let rows = dep_rows(roll, all);
    let dependents = dependent_rows(roll, all);
    let ghost rv = roll.deep_view();
    let ghost av = all.deep_view();
    let ghost blank = seq![seq![raw_span(""@)]];
    let mut lines = say_identity(roll);
    let ghost l0 = lines.deep_view();
    let ghost divergence = match divergence_text(ahead_behind) {
        Some(t) => seq![seq![styled_span(t, in_color(Color::Yellow))]],
        None => seq![],
    };
    match format_ahead_behind(ahead_behind) {
        Some(t) => {
            lines.push(Line::styled(t.as_str(), Style::plain().fg(Color::Yellow)));
        },
        None => {},
    }
    assert(lines.deep_view() =~= l0 + divergence);
    lines.push(Line::raw(""));
    assert(lines.deep_view() =~= l0 + divergence + blank);
    push_dep_lines(&mut lines, &rows);
    let ghost l1 = lines.deep_view();
    lines.push(Line::raw(""));
    assert(lines.deep_view() =~= l1 + blank);
    push_dependent_lines(&mut lines, &dependents);
    let ghost l2 = lines.deep_view();
    lines.push(Line::raw(""));
    lines.push(Line::styled("[q/esc] back", Style::plain().fg(Color::DarkGray)));
    assert(lines.deep_view() =~= l2 + blank + seq![
        seq![styled_span("[q/esc] back"@, in_color(Color::DarkGray))],
    ]);
    assert(lines.deep_view() == detail_lines(rv, ahead_behind, av));
    Modal {
        title: " roll detail ".to_owned(),
        title_style: Style::plain(),
        border: Style::plain(),
        centred: false,
        lines,
        content: None,
        low: 28,
        high: 65535,
    }
}

// ── Laws ────────────────────────────────────────────────────────────────────

/// Every row of the table has as many cells as the table has columns.
pub proof fn law_rows_fill_the_columns(
    bases: Seq<BaseBranchView>,
    rolls: Seq<RollView>,
    tracking: Seq<LocalBranchView>,
    show_deps: bool,
    i: int,
)
    requires
        0 <= i < bases.len() + rolls.len(),
    ensures
        ({
            let t = table_of(bases, rolls, tracking, show_deps);
            &&& t.rows.len() == bases.len() + rolls.len()
            &&& t.header.len() == t.widths.len()
            &&& t.rows[i].len() == t.widths.len()
        }),
{
}

/// A branch without a local copy, or without an upstream, is never shown as in
/// sync.
pub proof fn law_nothing_to_compare_is_not_in_sync(
    tracking: Seq<LocalBranchView>,
    branch: Seq<char>,
)
    requires
        details_of(tracking, branch) is None || details_of(tracking, branch)->Some_0.upstream.len()
            == 0,
    ensures
        sync_look(shown_track(tracking, branch)) == ("—"@, Color::DarkGray),
{
}

/// The details of a branch are the last ones under its name. `k` is their place, or
/// less than zero where there are none.
pub proof fn law_details_are_found_by_name(
    tracking: Seq<LocalBranchView>,
    branch: Seq<char>,
    k: int,
)
    requires
        -1 <= k < tracking.len(),
        k >= 0 ==> tracking[k].name == branch,
        forall|j: int| k < j < tracking.len() ==> (#[trigger] tracking[j]).name != branch,
    ensures
        k >= 0 ==> details_of(tracking, branch) == Some(tracking[k]) && shown_track(
            tracking,
            branch,
        ) == Some(track_of(tracking[k])),
        k < 0 ==> details_of(tracking, branch) is None && shown_track(tracking, branch) is None,
    decreases tracking.len(),
{
    if tracking.len() > 0 && k < tracking.len() - 1 {
        assert(tracking[tracking.len() - 1].name != branch);
        let rest = tracking.drop_last();
        assert forall|j: int| k < j < rest.len() implies (#[trigger] rest[j]).name != branch by {
            assert(tracking[j].name != branch);
        }
        law_details_are_found_by_name(rest, branch, k);
    }
}

/// The table shows the base branches and then the rolls, one row each: the name in
/// its column, the mark exactly on what is checked out, and for a roll its number,
/// its state, and where asked for what it depends on and what depends on it.
pub proof fn law_rows_show_their_branch(
    bases: Seq<BaseBranchView>,
    rolls: Seq<RollView>,
    tracking: Seq<LocalBranchView>,
    show_deps: bool,
    i: int,
)
    ensures
        ({
            let rows = table_of(bases, rolls, tracking, show_deps).rows;
            &&& rows.len() == bases.len() + rolls.len()
            &&& 0 <= i < bases.len() ==> rows[i][2].text == bases[i].branch && (
            rows[i][0].text.len() > 0 <==> bases[i].is_current) && rows[i][3].text
                == bases[i].location.symbol_text() && rows[i][5].text
                == bases[i].role.label_text()
            &&& 0 <= i < rolls.len() ==> {
                let row = rows[bases.len() + i];
                let roll = rolls[i];
                &&& row[2].text == roll.branch
                &&& row[1].text == decimal(roll.number as nat)
                &&& row[0].text.len() > 0 <==> roll.is_current
                &&& row[3].text == roll.location.symbol_text()
                &&& row[5].text == roll.state.label_text()
                &&& show_deps ==> row[6].text == roll_numbers_text(roll.deps) && row[7].text
                    == roll_numbers_text(roll.dependents)
            }
        }),
{
    reveal_strlit("›");
    reveal_strlit("");
    assert("›"@.len() == 1 && ""@.len() == 0);
    let rows = table_of(bases, rolls, tracking, show_deps).rows;
    if 0 <= i < bases.len() {
        assert(rows[i] == base_cells(bases[i], tracking, show_deps));
    }
    if 0 <= i < rolls.len() {
        assert(rows[bases.len() + i] == roll_cells(rolls[i], tracking, show_deps));
    }
}

/// What is at stake in a deletion is what the copies in scope would lose: that of
/// one copy alone, and of two the larger.
pub proof fn law_stakes_are_those_of_the_copies(p: DeletePreviewView)
    ensures
        at_stake(DeleteScope::Local, p) == p.local_unmerged,
        at_stake(DeleteScope::Remote, p) == p.remote_unmerged,
        p.local_unmerged is Some && p.remote_unmerged is Some ==> at_stake(DeleteScope::Both, p)
            == Some(
            if p.local_unmerged->0 > p.remote_unmerged->0 {
                p.local_unmerged->0
            } else {
                p.remote_unmerged->0
            },
        ),
{
}

/// The blocking dependencies are counted, no more and no fewer.
pub proof fn law_blockers_are_counted(rows: Seq<DepRowView>, row: DepRowView)
    ensures
        blocking(seq![]) == 0,
        row.is_blocker ==> blocking(rows.push(row)) == blocking(rows) + 1,
        !row.is_blocker ==> blocking(rows.push(row)) == blocking(rows),
{
    assert(rows.push(row).drop_last() =~= rows);
}

/// A confirmation names what it is about: the roll and where it goes, or all of
/// rolling where none is named.
pub proof fn law_confirmations_name_both_ends(
    config: ConfigView,
    roll: Seq<char>,
    rolls: Seq<RollView>,
    current: Seq<char>,
)
    ensures
        confirm_text(config, Action::Graduate, Some(roll), rolls, current) == "Graduate "@ + roll
            + " into "@ + config.rolling_branch + "?"@,
        confirm_text(config, Action::Integrate, Some(roll), rolls, current) == "Integrate "@ + roll
            + " into "@ + current + "?"@,
        confirm_text(config, Action::Promote, Some(roll), rolls, current) == "Promote "@ + roll
            + " into "@ + config.stable_branch + "?"@,
        confirm_text(config, Action::Promote, None, rolls, current) == "Promote all of "@
            + config.rolling_branch + " into "@ + config.stable_branch + "?"@,
        confirm_text(config, Action::Update, None, rolls, current)
            == "Update all active local rolls from "@ + config.stable_branch + "?"@,
{
}

} // verus!
