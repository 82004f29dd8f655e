//! The state of the view, and what a key does to it.
//!
//! Nothing here touches the repository or the terminal. A key changes the
//! state and asks for effects; what the effects came to is handed back.
use vstd::prelude::*;

use crate::branches::{BranchLocation, RollInfo, RollView};
use crate::config::{Config, ConfigView};
use crate::git::{LocalBranch, LocalBranchView};
use crate::ops::prune::is_local;
use crate::ops::route::{endpoints, route_of};
use crate::sync::{
    force_prompted, needs_force_prompt, pull_of, pull_plan, target_for, PullPlan, PullPlanView,
    SyncTarget, SyncTargetView,
};
use crate::text::{begins, cat, cat3, cat4, cat5, same, trimmed};
use crate::tui::keymap::{
    bindings, handle_help_key, help_step, keymap, lemma_matching_in_range, HelpOutcome,
};
use crate::tui::output::{fresh_panel, Followup, FollowupView, Panel, PanelView};
use crate::tui::rolls::{
    accepts, asks_twice, base_branches, base_rows, bump_answer, bump_gate, bump_key, declines,
    delete_answer, delete_prompt, first_selection, force_answer, force_push_key, handle_create_key,
    handle_delete_key, initial_selection, input_step, integrate_target_for, integration_target,
    is_submittable_slug, needs_force_confirm, objection, promote_target_for, promotion_target,
    prompt_for, roll_view, row_at, row_of, validate_action, verify_route_for, Action, BaseBranch,
    BaseBranchView, BumpOutcome, DeleteOutcome, DeletePreview, DeletePreviewView, DeletePrompt,
    DeleteScope, ForcePushOutcome, InputOutcome, RowKind,
};
use crate::tui::style::KeyCode;
use crate::tui::view::{details_of, find_details};
use crate::version::{BumpLevel, Semver};

verus! {

/// How far a scroll key moves the panel.
pub const PANEL_SCROLL_STEP: usize = 5;

/// What the view is showing over the table, if anything.
#[derive(Debug)]
pub enum Mode {
    Browsing,
    Confirm { action: Action, target: Option<String> },
    /// The detail of a roll, as it was when opened.
    Detail { roll: RollInfo, ahead_behind: Option<(u32, u32)> },
    CreateInput { slug: String },
    Delete { preview: DeletePreview },
    Bump { current: Semver },
    Help { query: String, cursor: usize },
    ForcePush { branch: String, remote: String },
}

/// [`Mode`] by its characters.
pub enum ModeView {
    Browsing,
    Confirm { action: Action, target: Option<Seq<char>> },
    Detail { roll: RollView, ahead_behind: Option<(u32, u32)> },
    CreateInput { slug: Seq<char> },
    Delete { preview: DeletePreviewView },
    Bump { current: Semver },
    Help { query: Seq<char>, cursor: usize },
    ForcePush { branch: Seq<char>, remote: Seq<char> },
}

impl DeepView for Mode {
    type V = ModeView;

    open spec fn deep_view(&self) -> ModeView {
        match self {
            Mode::Browsing => ModeView::Browsing,
            Mode::Confirm { action, target } => ModeView::Confirm {
                action: *action,
                target: target.deep_view(),
            },
            Mode::Detail { roll, ahead_behind } => ModeView::Detail {
                roll: roll.deep_view(),
                ahead_behind: *ahead_behind,
            },
            Mode::CreateInput { slug } => ModeView::CreateInput { slug: slug@ },
            Mode::Delete { preview } => ModeView::Delete { preview: preview.deep_view() },
            Mode::Bump { current } => ModeView::Bump { current: *current },
            Mode::Help { query, cursor } => ModeView::Help { query: query@, cursor: *cursor },
            Mode::ForcePush { branch, remote } => ModeView::ForcePush {
                branch: branch@,
                remote: remote@,
            },
        }
    }
}

/// What a key asks to be done.
#[derive(Debug)]
pub enum Effect {
    Quit,
    Reload,
    /// Hand the terminal to lazygit.
    Lazygit,
    /// Count the commits that each copy of a branch holds and stable lacks.
    CountUnmerged { branch: String },
    /// Compare a branch with its copy on `origin`.
    Compare { branch: String },
    Switch { branch: String, location: BranchLocation },
    Pull { args: Vec<String> },
    Push { sync: SyncTarget, force: bool },
    Fetch,
    Verify { source: String, into: String },
    Run { action: Action, target: Option<String> },
    Create { slug: String },
    Delete { branch: String, scope: DeleteScope, force: bool },
    Bump { level: BumpLevel },
}

/// [`Effect`] by its characters.
pub enum EffectView {
    Quit,
    Reload,
    Lazygit,
    CountUnmerged { branch: Seq<char> },
    Compare { branch: Seq<char> },
    Switch { branch: Seq<char>, location: BranchLocation },
    Pull { args: Seq<Seq<char>> },
    Push { sync: SyncTargetView, force: bool },
    Fetch,
    Verify { source: Seq<char>, into: Seq<char> },
    Run { action: Action, target: Option<Seq<char>> },
    Create { slug: Seq<char> },
    Delete { branch: Seq<char>, scope: DeleteScope, force: bool },
    Bump { level: BumpLevel },
}

impl DeepView for Effect {
    type V = EffectView;

    open spec fn deep_view(&self) -> EffectView {
        match self {
            Effect::Quit => EffectView::Quit,
            Effect::Reload => EffectView::Reload,
            Effect::Lazygit => EffectView::Lazygit,
            Effect::CountUnmerged { branch } => EffectView::CountUnmerged { branch: branch@ },
            Effect::Compare { branch } => EffectView::Compare { branch: branch@ },
            Effect::Switch { branch, location } => EffectView::Switch {
                branch: branch@,
                location: *location,
            },
            Effect::Pull { args } => EffectView::Pull { args: args.deep_view() },
            Effect::Push { sync, force } => EffectView::Push {
                sync: sync.deep_view(),
                force: *force,
            },
            Effect::Fetch => EffectView::Fetch,
            Effect::Verify { source, into } => EffectView::Verify {
                source: source@,
                into: into@,
            },
            Effect::Run { action, target } => EffectView::Run {
                action: *action,
                target: target.deep_view(),
            },
            Effect::Create { slug } => EffectView::Create { slug: slug@ },
            Effect::Delete { branch, scope, force } => EffectView::Delete {
                branch: branch@,
                scope: *scope,
                force: *force,
            },
            Effect::Bump { level } => EffectView::Bump { level: *level },
        }
    }
}

impl EffectView {
    /// Whether the effect runs as a job.
    pub open spec fn is_job(self) -> bool {
        !(self is Quit || self is Reload || self is Lazygit || self is CountUnmerged
            || self is Compare)
    }
}

/// The state of the view.
#[derive(Debug)]
pub struct StatusApp {
    pub config: Config,
    pub current_branch: String,
    pub bases: Vec<BaseBranch>,
    pub rolls: Vec<RollInfo>,
    pub show_deps: bool,
    pub tracking: Vec<LocalBranch>,
    pub version: Option<Semver>,
    pub selected: Option<usize>,
    pub mode: Mode,
    pub message: Option<String>,
    /// Whether a job runs. Keys that change anything are refused meanwhile.
    pub running: bool,
    pub panel: Option<Panel>,
    /// Whether a `g` waits for another.
    pub pending_g: bool,
}

/// [`StatusApp`] by its characters.
pub struct StatusAppView {
    pub config: ConfigView,
    pub current_branch: Seq<char>,
    pub bases: Seq<BaseBranchView>,
    pub rolls: Seq<RollView>,
    pub show_deps: bool,
    pub tracking: Seq<LocalBranchView>,
    pub version: Option<Semver>,
    pub selected: Option<usize>,
    pub mode: ModeView,
    pub message: Option<Seq<char>>,
    pub running: bool,
    pub panel: Option<PanelView>,
    pub pending_g: bool,
}

impl DeepView for StatusApp {
    type V = StatusAppView;

    open spec fn deep_view(&self) -> StatusAppView {
        StatusAppView {
            config: self.config.deep_view(),
            current_branch: self.current_branch@,
            bases: self.bases.deep_view(),
            rolls: self.rolls.deep_view(),
            show_deps: self.show_deps,
            tracking: self.tracking.deep_view(),
            version: self.version,
            selected: self.selected,
            mode: self.mode.deep_view(),
            message: self.message.deep_view(),
            running: self.running,
            panel: self.panel.deep_view(),
            pending_g: self.pending_g,
        }
    }
}

// ── What the state says ─────────────────────────────────────────────────────

impl StatusAppView {
    /// The row that is selected.
    pub open spec fn row(self) -> Option<RowKind> {
        match self.selected {
            Some(i) => row_of(i as int, self.bases.len() as int, self.rolls.len() as int),
            None => None,
        }
    }

    /// The roll that is selected; none on the row of a base branch.
    pub open spec fn roll(self) -> Option<RollView> {
        match self.row() {
            Some(RowKind::Roll(i)) => Some(self.rolls[i as int]),
            _ => None,
        }
    }

    /// The state with a message.
    pub open spec fn saying(self, message: Seq<char>) -> StatusAppView {
        StatusAppView { message: Some(message), ..self }
    }

    /// The state in another mode.
    pub open spec fn in_mode(self, mode: ModeView) -> StatusAppView {
        StatusAppView { mode, ..self }
    }

    /// The state once a job has started, with a panel of its own.
    pub open spec fn with_job(self, title: Seq<char>) -> StatusAppView {
        StatusAppView { panel: Some(fresh_panel(title)), running: true, ..self }
    }

    /// The state with the message that a job is running.
    pub open spec fn refusing(self) -> StatusAppView {
        self.saying("a git command is already running"@)
    }

    /// What to synchronise for the selected row.
    pub open spec fn sync_target(self) -> Option<SyncTargetView> {
        match self.row() {
            Some(RowKind::Roll(i)) => Some(
                target_for(
                    self.rolls[i as int].branch,
                    self.current_branch,
                    self.rolls[i as int].location,
                    details_of(self.tracking, self.rolls[i as int].branch),
                ),
            ),
            Some(RowKind::Base(i)) => Some(
                target_for(
                    self.bases[i as int].branch,
                    self.current_branch,
                    self.bases[i as int].location,
                    details_of(self.tracking, self.bases[i as int].branch),
                ),
            ),
            None => None,
        }
    }
}

/// A state that a key leads to, with nothing to be done.
pub open spec fn quiet(app: StatusAppView) -> (StatusAppView, Seq<EffectView>) {
    (app, seq![])
}

/// A state that a key leads to, with one thing to be done.
pub open spec fn asking(app: StatusAppView, effect: EffectView) -> (
    StatusAppView,
    Seq<EffectView>,
) {
    (app, seq![effect])
}

fn nothing() -> (r: Vec<Effect>)
    ensures
        r.deep_view() == Seq::<EffectView>::empty(),
{
    let r: Vec<Effect> = Vec::new();
    assert(r.deep_view() =~= seq![]);
    r
}

fn just(effect: Effect) -> (r: Vec<Effect>)
    ensures
        r.deep_view() == seq![effect.deep_view()],
{
    let ghost e = effect.deep_view();
    let r = vec![effect];
    assert(r.deep_view() =~= seq![e]);
    r
}

// ── Moving ──────────────────────────────────────────────────────────────────

/// The selection one row down.
pub open spec fn row_below(selected: Option<usize>, rows: int) -> Option<usize> {
    if rows == 0 {
        selected
    } else {
        match selected {
            Some(i) => if i + 1 <= rows - 1 {
                Some((i + 1) as usize)
            } else {
                Some((rows - 1) as usize)
            },
            None => Some(0),
        }
    }
}

/// The selection one row up.
pub open spec fn row_above(selected: Option<usize>, rows: int) -> Option<usize> {
    if rows == 0 {
        selected
    } else {
        match selected {
            Some(i) => if i == 0 {
                Some(0)
            } else {
                Some((i - 1) as usize)
            },
            None => Some(0),
        }
    }
}

/// The panel after a scroll key.
pub open spec fn scrolled(panel: Option<PanelView>, code: KeyCode) -> Option<PanelView> {
    match panel {
        None => None,
        Some(p) => Some(
            match code {
                KeyCode::PageUp => p.scrolled_up(PANEL_SCROLL_STEP as nat),
                KeyCode::PageDown => p.scrolled_down(PANEL_SCROLL_STEP as nat),
                _ => PanelView { scroll: 0, autoscroll: true, ..p },
            },
        ),
    }
}

// ── What each key does ──────────────────────────────────────────────────────

/// The target that an action carries along.
pub open spec fn action_target(app: StatusAppView, action: Action) -> Option<Seq<char>> {
    match action {
        Action::Graduate => match app.roll() {
            Some(r) => Some(r.branch),
            None => None,
        },
        Action::Integrate => match integration_target(
            app.current_branch,
            app.config.roll_prefix,
            app.roll(),
        ) {
            Ok(b) => Some(b),
            Err(_) => None,
        },
        Action::Promote => match promotion_target(app.roll(), app.rolls) {
            Ok(t) => t,
            Err(_) => None,
        },
        _ => None,
    }
}

/// Asking for an action: it is confirmed first, or refused with a reason.
pub open spec fn requested(app: StatusAppView, action: Action) -> StatusAppView {
    if app.running {
        app.refusing()
    } else {
        match objection(
            action,
            app.roll(),
            app.rolls,
            app.current_branch,
            app.config.roll_prefix,
        ) {
            Some(why) => app.saying(why),
            None => app.in_mode(
                ModeView::Confirm { action, target: action_target(app, action) },
            ),
        }
    }
}

/// Asking to integrate the selected roll into the branch that is checked out.
pub open spec fn integrate_requested(app: StatusAppView) -> StatusAppView {
    if app.running {
        app.refusing()
    } else {
        match app.row() {
            Some(RowKind::Base(i)) => app.saying(
                "'"@ + app.bases[i as int].branch
                    + "' is a base branch — [u]pdate brings stable into your rolls"@,
            ),
            _ => match integration_target(
                app.current_branch,
                app.config.roll_prefix,
                app.roll(),
            ) {
                Ok(branch) => app.in_mode(
                    ModeView::Confirm { action: Action::Integrate, target: Some(branch) },
                ),
                Err(why) => app.saying(why),
            },
        }
    }
}

/// Asking to raise the version.
pub open spec fn bump_requested(app: StatusAppView) -> StatusAppView {
    if app.running {
        app.refusing()
    } else {
        match app.version {
            Some(current) => app.in_mode(ModeView::Bump { current }),
            None => app.saying("no readable version in Cargo.toml — nothing to bump"@),
        }
    }
}

/// The prompt about deleting a roll, before its commits are counted.
pub open spec fn fresh_preview(roll: RollView, prompt: DeletePrompt) -> DeletePreviewView {
    DeletePreviewView {
        branch: roll.branch,
        prompt,
        local_unmerged: None,
        remote_unmerged: None,
        local_is_checked_out: roll.is_current && roll.location is Both,
    }
}

/// Asking to delete the selected roll: its commits are counted for the prompt.
pub open spec fn delete_requested(app: StatusAppView) -> (StatusAppView, Seq<EffectView>) {
    if app.running {
        quiet(app.refusing())
    } else {
        match app.roll() {
            None => quiet(app.saying("no roll selected"@)),
            Some(roll) => match prompt_for(roll) {
                Err(why) => quiet(app.saying(why)),
                Ok(prompt) => asking(
                    app.in_mode(ModeView::Delete { preview: fresh_preview(roll, prompt) }),
                    EffectView::CountUnmerged { branch: roll.branch },
                ),
            },
        }
    }
}

/// Asking to switch to the selected branch.
pub open spec fn switch_requested(app: StatusAppView) -> (StatusAppView, Seq<EffectView>) {
    if app.running {
        quiet(app.refusing())
    } else {
        match app.row() {
            Some(RowKind::Roll(i)) => {
                let r = app.rolls[i as int];
                asking(
                    app.with_job("git switch "@ + r.branch),
                    EffectView::Switch { branch: r.branch, location: r.location },
                )
            },
            Some(RowKind::Base(i)) => {
                let b = app.bases[i as int];
                asking(
                    app.with_job("git switch "@ + b.branch),
                    EffectView::Switch { branch: b.branch, location: b.location },
                )
            },
            None => quiet(app.saying("no branch selected"@)),
        }
    }
}

/// Asking to pull the selected branch.
pub open spec fn pull_requested(app: StatusAppView) -> (StatusAppView, Seq<EffectView>) {
    if app.running {
        quiet(app.refusing())
    } else {
        match app.sync_target() {
            None => quiet(app.saying("no branch selected"@)),
            Some(t) => match pull_of(t, app.config.pull_mode) {
                PullPlanView::Refused { reason } => quiet(app.saying(reason)),
                PullPlanView::Pull { args } => asking(
                    app.with_job("git pull "@ + t.branch),
                    EffectView::Pull { args },
                ),
                PullPlanView::FastForward { args } => asking(
                    app.with_job("fast-forward "@ + t.branch),
                    EffectView::Pull { args },
                ),
                PullPlanView::FetchRemote { args } => asking(
                    app.with_job("git fetch "@ + t.branch),
                    EffectView::Pull { args },
                ),
            },
        }
    }
}

/// A push as a job.
pub open spec fn pushing(app: StatusAppView, target: SyncTargetView, force: bool) -> (
    StatusAppView,
    Seq<EffectView>,
) {
    asking(
        app.with_job(
            if force {
                "git push --force-with-lease "@ + target.branch
            } else {
                "git push "@ + target.branch
            },
        ),
        EffectView::Push { sync: target, force },
    )
}

/// Asking to push the selected branch: one that is known to be behind is asked
/// about first.
pub open spec fn push_requested(app: StatusAppView) -> (StatusAppView, Seq<EffectView>) {
    if app.running {
        quiet(app.refusing())
    } else {
        match app.sync_target() {
            None => quiet(app.saying("no branch selected"@)),
            Some(t) => if !is_local(t.location) {
                quiet(
                    app.saying(
                        "'"@ + t.branch + "' exists only on origin — nothing local to push"@,
                    ),
                )
            } else if force_prompted(t.track) {
                quiet(
                    app.in_mode(ModeView::ForcePush { branch: t.branch, remote: t.remote }),
                )
            } else {
                pushing(app, t, false)
            },
        }
    }
}

/// Asking to fetch.
pub open spec fn fetch_requested(app: StatusAppView) -> (StatusAppView, Seq<EffectView>) {
    if app.running {
        quiet(app.refusing())
    } else {
        asking(app.with_job("git fetch --prune"@), EffectView::Fetch)
    }
}

/// Asking to verify the branch that is checked out.
pub open spec fn verify_requested(app: StatusAppView) -> (StatusAppView, Seq<EffectView>) {
    if app.running {
        quiet(app.refusing())
    } else {
        match route_of(app.config, app.current_branch) {
            None => quiet(
                app.saying(
                    "'"@ + app.current_branch + "' is not promotable — check out "@
                        + app.config.rolling_branch + " or a "@ + app.config.roll_prefix
                        + "branch to verify"@,
                ),
            ),
            Some(route) => {
                let (source, target) = endpoints(app.config, route);
                asking(
                    app.with_job("rf verify "@ + source + " → "@ + target),
                    EffectView::Verify { source, into: target },
                )
            },
        }
    }
}

/// Opening the detail of the selected roll.
pub open spec fn detail_requested(app: StatusAppView) -> (StatusAppView, Seq<EffectView>) {
    match app.row() {
        Some(RowKind::Base(i)) => quiet(
            app.saying("'"@ + app.bases[i as int].branch + "' is a base branch"@),
        ),
        _ => match app.roll() {
            None => quiet(app),
            Some(roll) => {
                let opened = app.in_mode(ModeView::Detail { roll, ahead_behind: None });
                if roll.location is Both {
                    asking(opened, EffectView::Compare { branch: roll.branch })
                } else {
                    quiet(opened)
                }
            },
        },
    }
}

/// Asking for lazygit.
pub open spec fn lazygit_requested(app: StatusAppView) -> (StatusAppView, Seq<EffectView>) {
    if app.running {
        quiet(app.refusing())
    } else {
        asking(app, EffectView::Lazygit)
    }
}

/// Dismissing the panel, or quitting where there is none.
pub open spec fn dismissed(app: StatusAppView) -> (StatusAppView, Seq<EffectView>) {
    match app.panel {
        Some(_) => if app.running {
            quiet(app)
        } else {
            quiet(StatusAppView { panel: None, ..app })
        },
        None => asking(app, EffectView::Quit),
    }
}

/// Naming a new roll.
pub open spec fn create_requested(app: StatusAppView) -> StatusAppView {
    if app.running {
        app.refusing()
    } else {
        app.in_mode(ModeView::CreateInput { slug: ""@ })
    }
}

/// What a key does in the table, once a pending `g` is settled.
pub open spec fn plain_key(app: StatusAppView, code: KeyCode) -> (StatusAppView, Seq<EffectView>) {
    let rows = app.bases.len() + app.rolls.len();
    match code {
        KeyCode::Esc => dismissed(app),
        KeyCode::Down => quiet(
            StatusAppView { selected: row_below(app.selected, rows as int), ..app },
        ),
        KeyCode::Up => quiet(
            StatusAppView { selected: row_above(app.selected, rows as int), ..app },
        ),
        KeyCode::PageUp => quiet(StatusAppView { panel: scrolled(app.panel, code), ..app }),
        KeyCode::PageDown => quiet(StatusAppView { panel: scrolled(app.panel, code), ..app }),
        KeyCode::End => quiet(StatusAppView { panel: scrolled(app.panel, code), ..app }),
        KeyCode::Enter => detail_requested(app),
        KeyCode::Char(c) => if c == 'q' {
            asking(app, EffectView::Quit)
        } else if c == 'j' {
            quiet(StatusAppView { selected: row_below(app.selected, rows as int), ..app })
        } else if c == 'k' {
            quiet(StatusAppView { selected: row_above(app.selected, rows as int), ..app })
        } else if c == 'r' {
            asking(app.saying("refreshed"@), EffectView::Reload)
        } else if c == 'c' {
            quiet(create_requested(app))
        } else if c == ' ' {
            switch_requested(app)
        } else if c == 'p' {
            pull_requested(app)
        } else if c == 'P' {
            push_requested(app)
        } else if c == 'f' {
            fetch_requested(app)
        } else if c == 'v' {
            verify_requested(app)
        } else if c == 'G' {
            quiet(requested(app, Action::Graduate))
        } else if c == 'i' {
            quiet(integrate_requested(app))
        } else if c == 'b' {
            quiet(bump_requested(app))
        } else if c == 'm' {
            quiet(requested(app, Action::Promote))
        } else if c == 'u' {
            quiet(requested(app, Action::Update))
        } else if c == 'x' {
            quiet(requested(app, Action::Prune))
        } else if c == 't' {
            quiet(requested(app, Action::Tidy))
        } else if c == 'd' {
            delete_requested(app)
        } else if c == '?' {
            quiet(app.in_mode(ModeView::Help { query: ""@, cursor: 0 }))
        } else {
            quiet(app)
        },
        _ => quiet(app),
    }
}

/// What a key does in the table. A `g` waits for another; `gg` asks for
/// lazygit, and any other key counts as itself.
pub open spec fn browsing_key(app: StatusAppView, code: KeyCode) -> (
    StatusAppView,
    Seq<EffectView>,
) {
    let clear = StatusAppView { message: None, pending_g: false, ..app };
    if code == KeyCode::Char('g') {
        if app.pending_g {
            lazygit_requested(clear)
        } else {
            quiet(StatusAppView { pending_g: true, ..clear })
        }
    } else {
        plain_key(clear, code)
    }
}

/// What keys do in the table one after another, up to one that quits.
pub open spec fn replayed(app: StatusAppView, keys: Seq<KeyCode>) -> (
    StatusAppView,
    Seq<EffectView>,
)
    decreases keys.len(),
{
    if keys.len() == 0 {
        quiet(app)
    } else {
        let (before, effects) = replayed(app, keys.drop_last());
        if effects.contains(EffectView::Quit) {
            (before, effects)
        } else {
            let (after, more) = browsing_key(before, keys.last());
            (after, effects + more)
        }
    }
}

/// Where a branch that is named by an open prompt is now.
pub open spec fn place_of_branch(app: StatusAppView, branch: Seq<char>) -> BranchLocation {
    match roll_at(app.rolls, branch, 0) {
        Some(i) => app.rolls[i].location,
        None => match base_at(app.bases, branch, 0) {
            Some(i) => app.bases[i].location,
            None => BranchLocation::Local,
        },
    }
}

/// The first roll with this branch, from `from` on.
pub open spec fn roll_at(rolls: Seq<RollView>, branch: Seq<char>, from: int) -> Option<int>
    decreases rolls.len() - from,
{
    if from < 0 || from >= rolls.len() {
        None
    } else if rolls[from].branch == branch {
        Some(from)
    } else {
        roll_at(rolls, branch, from + 1)
    }
}

/// The first base branch with this name, from `from` on.
pub open spec fn base_at(bases: Seq<BaseBranchView>, branch: Seq<char>, from: int) -> Option<int>
    decreases bases.len() - from,
{
    if from < 0 || from >= bases.len() {
        None
    } else if bases[from].branch == branch {
        Some(from)
    } else {
        base_at(bases, branch, from + 1)
    }
}

/// What a key does in the deletion prompt. A confirmation that may lose commits
/// is asked for once more, and only the second one forces.
pub open spec fn delete_key_step(app: StatusAppView, p: DeletePreviewView, code: KeyCode) -> (
    StatusAppView,
    Seq<EffectView>,
) {
    match delete_answer(p.prompt, code) {
        DeleteOutcome::Ignore => quiet(app),
        DeleteOutcome::Cancel => quiet(app.in_mode(ModeView::Browsing)),
        DeleteOutcome::Confirm(scope) => {
            let forced = p.prompt is ForceConfirm;
            if !forced && asks_twice(scope, p) {
                quiet(
                    app.in_mode(
                        ModeView::Delete {
                            preview: DeletePreviewView {
                                prompt: DeletePrompt::ForceConfirm(scope),
                                ..p
                            },
                        },
                    ),
                )
            } else {
                asking(
                    app.in_mode(ModeView::Browsing).with_job("rf delete "@ + p.branch),
                    EffectView::Delete { branch: p.branch, scope, force: forced },
                )
            }
        },
    }
}

/// What a key does, whatever is open.
pub open spec fn key_step(app: StatusAppView, code: KeyCode) -> (StatusAppView, Seq<EffectView>) {
    let closed = app.in_mode(ModeView::Browsing);
    match app.mode {
        ModeView::Browsing => browsing_key(app, code),
        ModeView::Confirm { action, target } => if accepts(code) {
            asking(closed.with_job(action.title(target)), EffectView::Run { action, target })
        } else if declines(code) {
            quiet(closed)
        } else {
            quiet(app)
        },
        ModeView::ForcePush { branch, remote } => match force_answer(code) {
            ForcePushOutcome::Ignore => quiet(app),
            ForcePushOutcome::Cancel => quiet(closed),
            ForcePushOutcome::Force => pushing(
                closed,
                target_for(
                    branch,
                    app.current_branch,
                    place_of_branch(app, branch),
                    details_of(app.tracking, branch),
                ),
                true,
            ),
        },
        ModeView::Bump { current } => match bump_answer(code) {
            BumpOutcome::Ignore => quiet(app),
            BumpOutcome::Cancel => quiet(closed),
            BumpOutcome::Level(level) => asking(
                closed.with_job("rf bump "@ + level.text()),
                EffectView::Bump { level },
            ),
        },
        ModeView::Detail { roll, ahead_behind } => if code == KeyCode::Char('q') || code
            == KeyCode::Esc {
            quiet(closed)
        } else {
            quiet(app)
        },
        ModeView::CreateInput { slug } => {
            let (text, outcome) = input_step(slug, code);
            match outcome {
                InputOutcome::Continue => quiet(
                    app.in_mode(ModeView::CreateInput { slug: text }),
                ),
                InputOutcome::Cancel => quiet(closed),
                InputOutcome::Submit => if trimmed(text).len() > 0 {
                    asking(closed.with_job("rf create"@), EffectView::Create { slug: text })
                } else {
                    quiet(closed.saying("slug cannot be empty"@))
                },
            }
        },
        ModeView::Delete { preview } => delete_key_step(app, preview, code),
        ModeView::Help { query, cursor } => {
            let (q, c, outcome) = help_step(query, cursor, code);
            match outcome {
                HelpOutcome::Continue => quiet(
                    app.in_mode(ModeView::Help { query: q, cursor: c }),
                ),
                HelpOutcome::Close => quiet(closed),
                HelpOutcome::Run(i) => replayed(closed, keymap()[i as int].replay),
            }
        },
    }
}

// ── The state itself ────────────────────────────────────────────────────────

impl StatusApp {
    /// Whether no row is beyond what an index can say.
    pub open spec fn fits(&self) -> bool {
        self.bases@.len() + self.rolls@.len() <= usize::MAX
    }

    /// The row that is selected.
    pub fn selected_row(&self) -> (r: Option<RowKind>)
        ensures
            r == self.deep_view().row(),
    {
        match self.selected {
            Some(i) => row_at(i, self.bases.len(), self.rolls.len()),
            None => None,
        }
    }

    /// The roll that is selected; none on the row of a base branch.
    pub fn selected_roll(&self) -> (r: Option<&RollInfo>)
        ensures
            roll_view(r) == self.deep_view().roll(),
    {
        match self.selected_row() {
            Some(RowKind::Roll(i)) => {
                assert(self.rolls.deep_view()[i as int] == self.rolls@[i as int].deep_view());
                Some(&self.rolls[i])
            },
            _ => None,
        }
    }

    fn say(&mut self, message: String)
        ensures
            final(self).deep_view() == old(self).deep_view().saying(message@),
    {
        self.message = Some(message);
    }

    fn set_mode(&mut self, mode: Mode)
        ensures
            final(self).deep_view() == old(self).deep_view().in_mode(mode.deep_view()),
    {
        self.mode = mode;
    }

    fn start_job(&mut self, title: String)
        ensures
            final(self).deep_view() == old(self).deep_view().with_job(title@),
    {
        self.panel = Some(Panel::new(title));
        self.running = true;
    }

    /// Whether a job runs; if so, that is said.
    fn busy(&mut self) -> (r: bool)
        ensures
            r == old(self).running,
            final(self).deep_view() == (if r {
                old(self).deep_view().refusing()
            } else {
                old(self).deep_view()
            }),
    {
        if self.running {
            self.say("a git command is already running".to_owned());
            return true;
        }
        false
    }

    /// What to synchronise for the selected row.
    pub fn sync_target(&self) -> (r: Option<SyncTarget>)
        ensures
            r.deep_view() == self.deep_view().sync_target(),
    {
        match self.selected_row() {
            Some(RowKind::Roll(i)) => {
                assert(self.rolls.deep_view()[i as int] == self.rolls@[i as int].deep_view());
                let roll = &self.rolls[i];
                Some(
                    SyncTarget::resolve(
                        roll.branch.as_str(),
                        self.current_branch.as_str(),
                        roll.location,
                        find_details(&self.tracking, roll.branch.as_str()),
                    ),
                )
            },
            Some(RowKind::Base(i)) => {
                assert(self.bases.deep_view()[i as int] == self.bases@[i as int].deep_view());
                let base = &self.bases[i];
                Some(
                    SyncTarget::resolve(
                        base.branch.as_str(),
                        self.current_branch.as_str(),
                        base.location,
                        find_details(&self.tracking, base.branch.as_str()),
                    ),
                )
            },
            None => None,
        }
    }

    fn request(&mut self, action: Action)
        ensures
            final(self).deep_view() == requested(old(self).deep_view(), action),
    {
        if self.busy() {
            return;
        }
        let selected = self.selected_roll();
        let verdict = validate_action(
            action,
            selected,
            &self.rolls,
            self.current_branch.as_str(),
            self.config.roll_prefix.as_str(),
        );
        let target: Option<String> = match action {
            Action::Graduate => match selected {
                Some(r) => Some(r.branch.clone()),
                None => None,
            },
            Action::Integrate => match integrate_target_for(
                self.current_branch.as_str(),
                self.config.roll_prefix.as_str(),
                selected,
            ) {
                Ok(b) => Some(b),
                Err(_) => None,
            },
            Action::Promote => match promote_target_for(selected, &self.rolls) {
                Ok(t) => t,
                Err(_) => None,
            },
            _ => None,
        };
        match verdict {
            Ok(()) => self.set_mode(Mode::Confirm { action, target }),
            Err(why) => self.say(why),
        }
    }

    fn request_integrate(&mut self)
        ensures
            final(self).deep_view() == integrate_requested(old(self).deep_view()),
    {
        if self.busy() {
            return;
        }
        match self.selected_row() {
            Some(RowKind::Base(i)) => {
                assert(self.bases.deep_view()[i as int] == self.bases@[i as int].deep_view());
                let text = cat3(
                    "'",
                    self.bases[i].branch.as_str(),
                    "' is a base branch — [u]pdate brings stable into your rolls",
                );
                self.say(text);
            },
            _ => {
                let verdict = integrate_target_for(
                    self.current_branch.as_str(),
                    self.config.roll_prefix.as_str(),
                    self.selected_roll(),
                );
                match verdict {
                    Ok(branch) => self.set_mode(
                        Mode::Confirm { action: Action::Integrate, target: Some(branch) },
                    ),
                    Err(why) => self.say(why),
                }
            },
        }
    }

    fn request_bump(&mut self)
        ensures
            final(self).deep_view() == bump_requested(old(self).deep_view()),
    {
        if self.busy() {
            return;
        }
        match bump_gate(self.version) {
            Ok(current) => self.set_mode(Mode::Bump { current }),
            Err(why) => self.say(why),
        }
    }

    fn request_delete(&mut self) -> (r: Vec<Effect>)
        ensures
            (final(self).deep_view(), r.deep_view()) == delete_requested(old(self).deep_view()),
    {
        if self.busy() {
            return nothing();
        }
        let (preview, branch) = match self.selected_roll() {
            None => {
                self.say("no roll selected".to_owned());
                return nothing();
            },
            Some(roll) => match delete_prompt(roll) {
                Err(why) => {
                    self.say(why);
                    return nothing();
                },
                Ok(prompt) => (
                    DeletePreview {
                        branch: roll.branch.clone(),
                        prompt,
                        local_unmerged: None,
                        remote_unmerged: None,
                        local_is_checked_out: roll.is_current && matches!(
                            roll.location,
                            BranchLocation::Both
                        ),
                    },
                    roll.branch.clone(),
                ),
            },
        };
        self.set_mode(Mode::Delete { preview });
        just(Effect::CountUnmerged { branch })
    }

    fn execute_switch(&mut self) -> (r: Vec<Effect>)
        ensures
            (final(self).deep_view(), r.deep_view()) == switch_requested(old(self).deep_view()),
    {
        if self.busy() {
            return nothing();
        }
        match self.selected_row() {
            Some(RowKind::Roll(i)) => {
                assert(self.rolls.deep_view()[i as int] == self.rolls@[i as int].deep_view());
                let branch = self.rolls[i].branch.clone();
                let location = self.rolls[i].location;
                self.start_job(cat("git switch ", branch.as_str()));
                just(Effect::Switch { branch, location })
            },
            Some(RowKind::Base(i)) => {
                assert(self.bases.deep_view()[i as int] == self.bases@[i as int].deep_view());
                let branch = self.bases[i].branch.clone();
                let location = self.bases[i].location;
                self.start_job(cat("git switch ", branch.as_str()));
                just(Effect::Switch { branch, location })
            },
            None => {
                self.say("no branch selected".to_owned());
                nothing()
            },
        }
    }

    fn start_pull(&mut self) -> (r: Vec<Effect>)
        ensures
            (final(self).deep_view(), r.deep_view()) == pull_requested(old(self).deep_view()),
    {
        if self.busy() {
            return nothing();
        }
        match self.sync_target() {
            None => {
                self.say("no branch selected".to_owned());
                nothing()
            },
            Some(target) => match pull_plan(&target, self.config.pull_mode) {
                PullPlan::Refused { reason } => {
                    self.say(reason);
                    nothing()
                },
                PullPlan::Pull { args } => {
                    self.start_job(cat("git pull ", target.branch.as_str()));
                    just(Effect::Pull { args })
                },
                PullPlan::FastForward { args } => {
                    self.start_job(cat("fast-forward ", target.branch.as_str()));
                    just(Effect::Pull { args })
                },
                PullPlan::FetchRemote { args } => {
                    self.start_job(cat("git fetch ", target.branch.as_str()));
                    just(Effect::Pull { args })
                },
            },
        }
    }

    fn push_job(&mut self, target: SyncTarget, force: bool) -> (r: Vec<Effect>)
        ensures
            (final(self).deep_view(), r.deep_view()) == pushing(
                old(self).deep_view(),
                target.deep_view(),
                force,
            ),
    {
        let title = if force {
            cat("git push --force-with-lease ", target.branch.as_str())
        } else {
            cat("git push ", target.branch.as_str())
        };
        self.start_job(title);
        just(Effect::Push { sync: target, force })
    }

    fn start_push(&mut self) -> (r: Vec<Effect>)
        ensures
            (final(self).deep_view(), r.deep_view()) == push_requested(old(self).deep_view()),
    {
        if self.busy() {
            return nothing();
        }
        match self.sync_target() {
            None => {
                self.say("no branch selected".to_owned());
                nothing()
            },
            Some(target) => {
                let local = matches!(
                    target.location,
                    BranchLocation::Local | BranchLocation::Both
                );
                if !local {
                    self.say(
                        cat3(
                            "'",
                            target.branch.as_str(),
                            "' exists only on origin — nothing local to push",
                        ),
                    );
                    return nothing();
                }
                if needs_force_prompt(&target) {
                    self.set_mode(
                        Mode::ForcePush {
                            branch: target.branch.clone(),
                            remote: target.remote.clone(),
                        },
                    );
                    return nothing();
                }
                self.push_job(target, false)
            },
        }
    }

    fn start_fetch(&mut self) -> (r: Vec<Effect>)
        ensures
            (final(self).deep_view(), r.deep_view()) == fetch_requested(old(self).deep_view()),
    {
        if self.busy() {
            return nothing();
        }
        self.start_job("git fetch --prune".to_owned());
        just(Effect::Fetch)
    }

    fn start_verify(&mut self) -> (r: Vec<Effect>)
        ensures
            (final(self).deep_view(), r.deep_view()) == verify_requested(old(self).deep_view()),
    {
        if self.busy() {
            return nothing();
        }
        match verify_route_for(&self.config, self.current_branch.as_str()) {
            None => {
                let front = cat5(
                    "'",
                    self.current_branch.as_str(),
                    "' is not promotable — check out ",
                    self.config.rolling_branch.as_str(),
                    " or a ",
                );
                let text = cat3(
                    front.as_str(),
                    self.config.roll_prefix.as_str(),
                    "branch to verify",
                );
                self.say(text);
                nothing()
            },
            Some(ends) => {
                let (source, target) = ends;
                self.start_job(cat4("rf verify ", source.as_str(), " → ", target.as_str()));
                just(Effect::Verify { source, into: target })
            },
        }
    }

    fn open_detail(&mut self) -> (r: Vec<Effect>)
        ensures
            (final(self).deep_view(), r.deep_view()) == detail_requested(old(self).deep_view()),
    {
        match self.selected_row() {
            Some(RowKind::Base(i)) => {
                assert(self.bases.deep_view()[i as int] == self.bases@[i as int].deep_view());
                let text = cat3("'", self.bases[i].branch.as_str(), "' is a base branch");
                self.say(text);
                nothing()
            },
            _ => {
                let roll = match self.selected_roll() {
                    None => {
                        return nothing();
                    },
                    Some(r) => r.copy(),
                };
                let both = matches!(roll.location, BranchLocation::Both);
                let branch = roll.branch.clone();
                self.set_mode(Mode::Detail { roll, ahead_behind: None });
                if both {
                    just(Effect::Compare { branch })
                } else {
                    nothing()
                }
            },
        }
    }

    fn select_next(&mut self)
        requires
            old(self).fits(),
        ensures
            final(self).deep_view() == (StatusAppView {
                selected: row_below(
                    old(self).selected,
                    (old(self).bases@.len() + old(self).rolls@.len()) as int,
                ),
                ..old(self).deep_view()
            }),
    {
        let rows = self.bases.len() + self.rolls.len();
        if rows == 0 {
            return;
        }
        let next: usize = match self.selected {
            Some(i) => if i < rows - 1 {
                i + 1
            } else {
                rows - 1
            },
            None => 0,
        };
        self.selected = Some(next);
    }

    fn select_prev(&mut self)
        requires
            old(self).fits(),
        ensures
            final(self).deep_view() == (StatusAppView {
                selected: row_above(
                    old(self).selected,
                    (old(self).bases@.len() + old(self).rolls@.len()) as int,
                ),
                ..old(self).deep_view()
            }),
    {
        let rows = self.bases.len() + self.rolls.len();
        if rows == 0 {
            return;
        }
        let prev: usize = match self.selected {
            Some(i) => if i == 0 {
                0
            } else {
                i - 1
            },
            None => 0,
        };
        self.selected = Some(prev);
    }

    fn scroll_panel(&mut self, code: KeyCode)
        ensures
            final(self).deep_view() == (StatusAppView {
                panel: scrolled(old(self).panel.deep_view(), code),
                ..old(self).deep_view()
            }),
    {
        let panel = self.panel.take();
        self.panel = match panel {
            None => None,
            Some(p) => {
                let mut p = p;
                match code {
                    KeyCode::PageUp => p.scroll_up(PANEL_SCROLL_STEP),
                    KeyCode::PageDown => p.scroll_down(PANEL_SCROLL_STEP),
                    _ => p.scroll_to_end(),
                }
                Some(p)
            },
        };
    }

    fn dismiss(&mut self) -> (r: Vec<Effect>)
        ensures
            (final(self).deep_view(), r.deep_view()) == dismissed(old(self).deep_view()),
    {
        if self.panel.is_some() {
            if !self.running {
                self.panel = None;
            }
            nothing()
        } else {
            just(Effect::Quit)
        }
    }

    fn handle_plain(&mut self, code: KeyCode) -> (r: Vec<Effect>)
        requires
            old(self).fits(),
        ensures
            (final(self).deep_view(), r.deep_view()) == plain_key(old(self).deep_view(), code),
    {
        match code {
            KeyCode::Esc => {
                return self.dismiss();
            },
            KeyCode::Down => self.select_next(),
            KeyCode::Up => self.select_prev(),
            KeyCode::PageUp => self.scroll_panel(code),
            KeyCode::PageDown => self.scroll_panel(code),
            KeyCode::End => self.scroll_panel(code),
            KeyCode::Enter => {
                return self.open_detail();
            },
            KeyCode::Char(c) => {
                return self.handle_char(c);
            },
            _ => {},
        }
        nothing()
    }

    fn handle_char(&mut self, c: char) -> (r: Vec<Effect>)
        requires
            old(self).fits(),
        ensures
            (final(self).deep_view(), r.deep_view()) == plain_key(
                old(self).deep_view(),
                KeyCode::Char(c),
            ),
    {
        if c == 'q' {
            return just(Effect::Quit);
        } else if c == 'j' {
            self.select_next();
        } else if c == 'k' {
            self.select_prev();
        } else if c == 'r' {
            self.say("refreshed".to_owned());
            return just(Effect::Reload);
        } else if c == 'c' {
            if !self.busy() {
                self.set_mode(Mode::CreateInput { slug: "".to_owned() });
            }
        } else if c == ' ' {
            return self.execute_switch();
        } else if c == 'p' {
            return self.start_pull();
        } else if c == 'P' {
            return self.start_push();
        } else if c == 'f' {
            return self.start_fetch();
        } else if c == 'v' {
            return self.start_verify();
        } else if c == 'G' {
            self.request(Action::Graduate);
        } else if c == 'i' {
            self.request_integrate();
        } else if c == 'b' {
            self.request_bump();
        } else if c == 'm' {
            self.request(Action::Promote);
        } else if c == 'u' {
            self.request(Action::Update);
        } else if c == 'x' {
            self.request(Action::Prune);
        } else if c == 't' {
            self.request(Action::Tidy);
        } else if c == 'd' {
            return self.request_delete();
        } else if c == '?' {
            self.set_mode(Mode::Help { query: "".to_owned(), cursor: 0 });
        }
        nothing()
    }

    /// Applies a key to the table.
    pub fn handle_browsing(&mut self, code: KeyCode) -> (r: Vec<Effect>)
        requires
            old(self).fits(),
        ensures
            (final(self).deep_view(), r.deep_view()) == browsing_key(old(self).deep_view(), code),
            final(self).fits(),
    {
        proof {
            lemma_browsing_key_keeps_rows(self.deep_view(), code);
        }
        let pending = self.pending_g;
        self.message = None;
        self.pending_g = false;
        if code == KeyCode::Char('g') {
            if pending {
                if self.busy() {
                    return nothing();
                }
                return just(Effect::Lazygit);
            }
            self.pending_g = true;
            return nothing();
        }
        self.handle_plain(code)
    }

    fn replay(&mut self, keys: &Vec<KeyCode>) -> (r: Vec<Effect>)
        requires
            old(self).fits(),
        ensures
            (final(self).deep_view(), r.deep_view()) == replayed(old(self).deep_view(), keys@),
    {
        let ghost start = self.deep_view();
        let mut effects = nothing();
        let mut i: usize = 0;
        while i < keys.len()
            invariant
                i <= keys@.len(),
                self.fits(),
                (self.deep_view(), effects.deep_view()) == replayed(
                    start,
                    keys@.take(i as int),
                ),
            decreases keys@.len() - i,
        {
            let ghost keys_now = keys@.take(i + 1);
            assert(keys_now.drop_last() =~= keys@.take(i as int));
            assert(keys_now.last() == keys@[i as int]);
            let ghost now = self.deep_view();
            let ghost done = effects.deep_view();
            if !asks_to_quit(&effects) {
                let more = self.handle_browsing(keys[i]);
                let ghost added = more.deep_view();
                proof {
                    lemma_keys_keep_rows(now, keys@[i as int]);
                    assert(self.deep_view().bases.len() == self.bases@.len());
                    assert(self.deep_view().rolls.len() == self.rolls@.len());
                    assert(now.bases.len() + now.rolls.len() <= usize::MAX);
                }
                effects = joined_effects(effects, more);
                assert(effects.deep_view() == done + added);
            }
            i += 1;
        }
        assert(keys@.take(keys@.len() as int) =~= keys@);
        effects
    }

    fn location_of(&self, branch: &str) -> (r: BranchLocation)
        ensures
            r == place_of_branch(self.deep_view(), branch@),
    {
        let ghost rv = self.rolls.deep_view();
        let ghost bv = self.bases.deep_view();
        let mut i: usize = 0;
        while i < self.rolls.len()
            invariant
                i <= self.rolls@.len(),
                rv == self.rolls.deep_view(),
                roll_at(rv, branch@, 0) == roll_at(rv, branch@, i as int),
            decreases self.rolls@.len() - i,
        {
            assert(rv[i as int] == self.rolls@[i as int].deep_view());
            if same(self.rolls[i].branch.as_str(), branch) {
                return self.rolls[i].location;
            }
            i += 1;
        }
        let mut k: usize = 0;
        while k < self.bases.len()
            invariant
                k <= self.bases@.len(),
                rv == self.rolls.deep_view(),
                bv == self.bases.deep_view(),
                roll_at(rv, branch@, 0) is None,
                base_at(bv, branch@, 0) == base_at(bv, branch@, k as int),
            decreases self.bases@.len() - k,
        {
            assert(bv[k as int] == self.bases@[k as int].deep_view());
            if same(self.bases[k].branch.as_str(), branch) {
                return self.bases[k].location;
            }
            k += 1;
        }
        BranchLocation::Local
    }

    fn handle_delete(&mut self, preview: DeletePreview, code: KeyCode) -> (r: Vec<Effect>)
        requires
            old(self).mode is Browsing,
        ensures
            (final(self).deep_view(), r.deep_view()) == delete_key_step(
                old(self).deep_view().in_mode(
                    ModeView::Delete { preview: preview.deep_view() },
                ),
                preview.deep_view(),
                code,
            ),
    {
        match handle_delete_key(preview.prompt, code) {
            DeleteOutcome::Ignore => {
                self.set_mode(Mode::Delete { preview });
                nothing()
            },
            DeleteOutcome::Cancel => nothing(),
            DeleteOutcome::Confirm(scope) => {
                let forced = matches!(preview.prompt, DeletePrompt::ForceConfirm(_));
                if !forced && needs_force_confirm(scope, &preview) {
                    let mut again = preview;
                    again.prompt = DeletePrompt::ForceConfirm(scope);
                    self.set_mode(Mode::Delete { preview: again });
                    return nothing();
                }
                self.start_job(cat("rf delete ", preview.branch.as_str()));
                just(Effect::Delete { branch: preview.branch, scope, force: forced })
            },
        }
    }

    fn handle_force_push(&mut self, branch: String, remote: String, code: KeyCode) -> (r: Vec<
        Effect,
    >)
        requires
            old(self).mode is Browsing,
        ensures
            (final(self).deep_view(), r.deep_view()) == key_step(
                old(self).deep_view().in_mode(
                    ModeView::ForcePush { branch: branch@, remote: remote@ },
                ),
                code,
            ),
    {
        match force_push_key(code) {
            ForcePushOutcome::Ignore => {
                self.set_mode(Mode::ForcePush { branch, remote });
                nothing()
            },
            ForcePushOutcome::Cancel => nothing(),
            ForcePushOutcome::Force => {
                let location = self.location_of(branch.as_str());
                let target = SyncTarget::resolve(
                    branch.as_str(),
                    self.current_branch.as_str(),
                    location,
                    find_details(&self.tracking, branch.as_str()),
                );
                self.push_job(target, true)
            },
        }
    }

    fn handle_create_input(&mut self, slug: String, code: KeyCode) -> (r: Vec<Effect>)
        requires
            old(self).mode is Browsing,
        ensures
            (final(self).deep_view(), r.deep_view()) == key_step(
                old(self).deep_view().in_mode(ModeView::CreateInput { slug: slug@ }),
                code,
            ),
    {
        let mut slug = slug;
        match handle_create_key(&mut slug, code) {
            InputOutcome::Continue => {
                self.set_mode(Mode::CreateInput { slug });
                nothing()
            },
            InputOutcome::Cancel => nothing(),
            InputOutcome::Submit => {
                if is_submittable_slug(slug.as_str()) {
                    self.start_job("rf create".to_owned());
                    just(Effect::Create { slug })
                } else {
                    self.say("slug cannot be empty".to_owned());
                    nothing()
                }
            },
        }
    }

    fn handle_help(&mut self, query: String, cursor: usize, code: KeyCode) -> (r: Vec<Effect>)
        requires
            old(self).mode is Browsing,
            old(self).fits(),
        ensures
            (final(self).deep_view(), r.deep_view()) == key_step(
                old(self).deep_view().in_mode(ModeView::Help { query: query@, cursor }),
                code,
            ),
    {
        let ghost q0 = query@;
        let mut query = query;
        let mut cursor = cursor;
        match handle_help_key(&mut query, &mut cursor, code) {
            HelpOutcome::Continue => {
                self.set_mode(Mode::Help { query, cursor });
                nothing()
            },
            HelpOutcome::Close => nothing(),
            HelpOutcome::Run(i) => {
                proof {
                    lemma_matching_in_range(q0);
                }
                let all = bindings();
                assert(all.deep_view()[i as int] == all@[i as int].deep_view());
                self.replay(&all[i].replay)
            },
        }
    }

    /// Applies a key to whatever is open.
    pub fn handle_key(&mut self, code: KeyCode) -> (r: Vec<Effect>)
        requires
            old(self).fits(),
        ensures
            (final(self).deep_view(), r.deep_view()) == key_step(old(self).deep_view(), code),
            final(self).fits(),
    {
        let ghost before = self.deep_view();
        proof {
            law_keys_stay_within_the_rows(before, code);
        }
        let mut mode = Mode::Browsing;
        core::mem::swap(&mut self.mode, &mut mode);
        assert(self.deep_view() == before.in_mode(ModeView::Browsing));
        assert(mode.deep_view() == before.mode);
        assert(self.deep_view().in_mode(mode.deep_view()) == before);
        match mode {
            Mode::Browsing => self.handle_browsing(code),
            Mode::Confirm { action, target } => match code {
                KeyCode::Char('y') | KeyCode::Char('Y') => {
                    let title = match &target {
                        Some(t) => action.job_title(Some(t.as_str())),
                        None => action.job_title(None),
                    };
                    self.start_job(title);
                    just(Effect::Run { action, target })
                },
                KeyCode::Char('n') | KeyCode::Char('N') | KeyCode::Esc => nothing(),
                _ => {
                    self.set_mode(Mode::Confirm { action, target });
                    nothing()
                },
            },
            Mode::ForcePush { branch, remote } => self.handle_force_push(branch, remote, code),
            Mode::Bump { current } => match bump_key(code) {
                BumpOutcome::Ignore => {
                    self.set_mode(Mode::Bump { current });
                    nothing()
                },
                BumpOutcome::Cancel => nothing(),
                BumpOutcome::Level(level) => {
                    let word = level.to_string();
                    self.start_job(cat("rf bump ", word.as_str()));
                    just(Effect::Bump { level })
                },
            },
            Mode::Detail { roll, ahead_behind } => {
                if code != KeyCode::Char('q') && code != KeyCode::Esc {
                    self.set_mode(Mode::Detail { roll, ahead_behind });
                }
                nothing()
            },
            Mode::CreateInput { slug } => self.handle_create_input(slug, code),
            Mode::Delete { preview } => self.handle_delete(preview, code),
            Mode::Help { query, cursor } => self.handle_help(query, cursor, code),
        }
    }

    /// Takes in how many commits each copy of the branch to delete holds.
    pub fn counted(&mut self, local: Option<u32>, remote: Option<u32>)
        ensures
            final(self).deep_view() == with_counts(old(self).deep_view(), local, remote),
    {
        let mut mode = Mode::Browsing;
        core::mem::swap(&mut self.mode, &mut mode);
        let mode = match mode {
            Mode::Delete { preview } => {
                let mut p = preview;
                p.local_unmerged = local;
                p.remote_unmerged = remote;
                Mode::Delete { preview: p }
            },
            other => other,
        };
        self.mode = mode;
    }

    /// Takes in how the roll shown in detail stands to its copy on `origin`.
    pub fn compared(&mut self, counts: Option<(u32, u32)>)
        ensures
            final(self).deep_view() == with_divergence(old(self).deep_view(), counts),
    {
        let mut mode = Mode::Browsing;
        core::mem::swap(&mut self.mode, &mut mode);
        let mode = match mode {
            Mode::Detail { roll, ahead_behind: _ } => Mode::Detail { roll, ahead_behind: counts },
            other => other,
        };
        self.mode = mode;
    }

    /// Takes in the repository as it is now, keeping the selection in bounds.
    pub fn reload(
        &mut self,
        current_branch: String,
        refs: &Vec<String>,
        rolls: Vec<RollInfo>,
        tracking: Vec<LocalBranch>,
        version: Option<Semver>,
    )
        requires
            rolls@.len() <= usize::MAX - 2,
        ensures
            final(self).deep_view() == reloaded(
                old(self).deep_view(),
                current_branch@,
                refs.deep_view(),
                rolls.deep_view(),
                tracking.deep_view(),
                version,
            ),
            final(self).fits(),
    {
        let bases = base_branches(&self.config, current_branch.as_str(), refs);
        assert(bases.deep_view().len() == bases@.len());
        assert(bases@.len() <= 2);
        assert(rolls.deep_view().len() == rolls@.len());
        let len = bases.len() + rolls.len();
        self.current_branch = current_branch;
        self.bases = bases;
        self.rolls = rolls;
        self.tracking = tracking;
        self.version = version;
        self.selected = if len == 0 {
            None
        } else {
            let at: usize = match self.selected {
                Some(i) => i,
                None => 0,
            };
            if at <= len - 1 {
                Some(at)
            } else {
                Some(len - 1)
            }
        };
    }

    /// Marks the job as over.
    pub fn job_over(&mut self)
        ensures
            final(self).deep_view() == (StatusAppView { running: false, ..old(self).deep_view() }),
    {
        self.running = false;
    }

    /// Does what a finished job asked for, once the repository was read again.
    pub fn follow(&mut self, next: Option<Followup>)
        requires
            old(self).fits(),
        ensures
            final(self).deep_view() == followed_up(old(self).deep_view(), next.deep_view()),
            final(self).fits(),
    {
        match next {
            None => {},
            Some(Followup::SelectBranch(branch)) => {
                let ghost rv = self.rolls.deep_view();
                let n = self.bases.len();
                let mut found: Option<usize> = None;
                let mut i: usize = 0;
                while i < self.rolls.len() && found.is_none()
                    invariant
                        i <= self.rolls@.len(),
                        n == self.bases@.len(),
                        self.fits(),
                        self.deep_view() == old(self).deep_view(),
                        rv == self.rolls.deep_view(),
                        match found {
                            Some(k) => roll_at(rv, branch@, 0) == Some(k as int) && k
                                < self.rolls@.len(),
                            None => roll_at(rv, branch@, 0) == roll_at(rv, branch@, i as int),
                        },
                    decreases self.rolls@.len() - i,
                {
                    assert(rv[i as int] == self.rolls@[i as int].deep_view());
                    if same(self.rolls[i].branch.as_str(), branch.as_str()) {
                        found = Some(i);
                    }
                    i += 1;
                }
                match found {
                    Some(k) => {
                        self.selected = Some(n + k);
                    },
                    None => {},
                }
            },
            Some(Followup::OfferForcePush { branch, remote }) => {
                self.set_mode(Mode::ForcePush { branch, remote });
            },
        }
    }

    /// Takes in how lazygit ended.
    pub fn lazygit_ended(&mut self, exit: LazygitExit)
        ensures
            final(self).deep_view() == after_lazygit(old(self).deep_view(), exit.deep_view()),
    {
        match exit {
            LazygitExit::Clean => {
                self.message = None;
            },
            LazygitExit::Status(status) => {
                let text = cat3(
                    self.config.lazygit_command.as_str(),
                    " exited with ",
                    status.as_str(),
                );
                self.say(text);
            },
            LazygitExit::NotRun(err) => {
                let command = self.config.lazygit_command.clone();
                let first = cat4("could not run '", command.as_str(), "': ", err.as_str());
                let lines = vec![
                    first,
                    "set lazygit_command in .roll-flow.toml to override".to_owned(),
                ];
                assert(lines.deep_view() =~= seq![
                    "could not run '"@ + command@ + "': "@ + err@,
                    "set lazygit_command in .roll-flow.toml to override"@,
                ]);
                let mut panel = Panel::new(command);
                panel.fail(lines);
                self.panel = Some(panel);
            },
        }
    }

    /// The state of the view when it opens.
    pub fn new(
        config: Config,
        current_branch: String,
        refs: &Vec<String>,
        rolls: Vec<RollInfo>,
        tracking: Vec<LocalBranch>,
        version: Option<Semver>,
        show_deps: bool,
    ) -> (r: StatusApp)
        requires
            rolls@.len() <= usize::MAX - 2,
        ensures
            r.deep_view() == opened(
                config.deep_view(),
                current_branch@,
                refs.deep_view(),
                rolls.deep_view(),
                tracking.deep_view(),
                version,
                show_deps,
            ),
            r.fits(),
    {
        let bases = base_branches(&config, current_branch.as_str(), refs);
        assert(bases.deep_view().len() == bases@.len());
        assert(bases@.len() <= 2);
        let selected = initial_selection(&bases, &rolls);
        StatusApp {
            config,
            current_branch,
            bases,
            rolls,
            show_deps,
            tracking,
            version,
            selected,
            mode: Mode::Browsing,
            message: None,
            running: false,
            panel: None,
            pending_g: false,
        }
    }
}

fn asks_to_quit(effects: &Vec<Effect>) -> (r: bool)
    ensures
        r == effects.deep_view().contains(EffectView::Quit),
{
    let ghost all = effects.deep_view();
    let mut i: usize = 0;
    while i < effects.len()
        invariant
            i <= effects@.len(),
            all == effects.deep_view(),
            forall|k: int| 0 <= k < i ==> all[k] != EffectView::Quit,
        decreases effects@.len() - i,
    {
        assert(all[i as int] == effects@[i as int].deep_view());
        if matches!(effects[i], Effect::Quit) {
            return true;
        }
        i += 1;
    }
    false
}

fn joined_effects(first: Vec<Effect>, second: Vec<Effect>) -> (r: Vec<Effect>)
    ensures
        r.deep_view() == first.deep_view() + second.deep_view(),
{
    let ghost a = first@;
    let ghost b = second@;
    let mut r = first;
    let mut rest = second;
    r.append(&mut rest);
    assert(r@ == a + b);
    assert(r.deep_view() =~= first.deep_view() + second.deep_view());
    r
}

/// How lazygit ended.
#[derive(Debug)]
pub enum LazygitExit {
    Clean,
    /// It ran and reported this status.
    Status(String),
    /// It could not be run.
    NotRun(String),
}

/// [`LazygitExit`] by its characters.
pub enum LazygitExitView {
    Clean,
    Status(Seq<char>),
    NotRun(Seq<char>),
}

impl DeepView for LazygitExit {
    type V = LazygitExitView;

    open spec fn deep_view(&self) -> LazygitExitView {
        match self {
            LazygitExit::Clean => LazygitExitView::Clean,
            LazygitExit::Status(s) => LazygitExitView::Status(s@),
            LazygitExit::NotRun(e) => LazygitExitView::NotRun(e@),
        }
    }
}

/// The state once lazygit has ended.
pub open spec fn after_lazygit(app: StatusAppView, exit: LazygitExitView) -> StatusAppView {
    match exit {
        LazygitExitView::Clean => StatusAppView { message: None, ..app },
        LazygitExitView::Status(status) => app.saying(
            app.config.lazygit_command + " exited with "@ + status,
        ),
        LazygitExitView::NotRun(err) => StatusAppView {
            panel: Some(
                fresh_panel(app.config.lazygit_command).failed(
                    seq![
                        "could not run '"@ + app.config.lazygit_command + "': "@ + err,
                        "set lazygit_command in .roll-flow.toml to override"@,
                    ],
                ),
            ),
            ..app
        },
    }
}

/// The state once the commits of a branch to delete were counted.
pub open spec fn with_counts(
    app: StatusAppView,
    local: Option<u32>,
    remote: Option<u32>,
) -> StatusAppView {
    match app.mode {
        ModeView::Delete { preview } => app.in_mode(
            ModeView::Delete {
                preview: DeletePreviewView {
                    local_unmerged: local,
                    remote_unmerged: remote,
                    ..preview
                },
            },
        ),
        _ => app,
    }
}

/// The state once a roll shown in detail was compared with `origin`.
pub open spec fn with_divergence(app: StatusAppView, counts: Option<(u32, u32)>) -> StatusAppView {
    match app.mode {
        ModeView::Detail { roll, ahead_behind } => app.in_mode(
            ModeView::Detail { roll, ahead_behind: counts },
        ),
        _ => app,
    }
}

/// A selection held within `rows` rows.
pub open spec fn in_bounds(selected: Option<usize>, rows: int) -> Option<usize> {
    if rows == 0 {
        None
    } else {
        let at = match selected {
            Some(i) => i,
            None => 0,
        };
        if at <= rows - 1 {
            Some(at)
        } else {
            Some((rows - 1) as usize)
        }
    }
}

/// The state once the repository was read again.
pub open spec fn reloaded(
    app: StatusAppView,
    current_branch: Seq<char>,
    refs: Seq<Seq<char>>,
    rolls: Seq<RollView>,
    tracking: Seq<LocalBranchView>,
    version: Option<Semver>,
) -> StatusAppView {
    let bases = base_rows(app.config, current_branch, refs);
    StatusAppView {
        current_branch,
        bases,
        rolls,
        tracking,
        version,
        selected: in_bounds(app.selected, (bases.len() + rolls.len()) as int),
        ..app
    }
}

/// The state once a finished job's wish was done.
pub open spec fn followed_up(app: StatusAppView, next: Option<FollowupView>) -> StatusAppView {
    match next {
        None => app,
        Some(FollowupView::SelectBranch(branch)) => match roll_at(app.rolls, branch, 0) {
            Some(i) => StatusAppView { selected: Some((app.bases.len() + i) as usize), ..app },
            None => app,
        },
        Some(FollowupView::OfferForcePush { branch, remote }) => app.in_mode(
            ModeView::ForcePush { branch, remote },
        ),
    }
}

/// The state of the view when it opens.
pub open spec fn opened(
    config: ConfigView,
    current_branch: Seq<char>,
    refs: Seq<Seq<char>>,
    rolls: Seq<RollView>,
    tracking: Seq<LocalBranchView>,
    version: Option<Semver>,
    show_deps: bool,
) -> StatusAppView {
    let bases = base_rows(config, current_branch, refs);
    StatusAppView {
        config,
        current_branch,
        bases,
        rolls,
        show_deps,
        tracking,
        version,
        selected: match first_selection(bases, rolls) {
            Some(i) => Some(i as usize),
            None => None,
        },
        mode: ModeView::Browsing,
        message: None,
        running: false,
        panel: None,
        pending_g: false,
    }
}

// ── Laws ────────────────────────────────────────────────────────────────────

/// A key in the table changes no row.
proof fn lemma_keys_keep_rows(app: StatusAppView, code: KeyCode)
    ensures
        browsing_key(app, code).0.bases == app.bases,
        browsing_key(app, code).0.rolls == app.rolls,
{
}

/// Whether what is open could start a job.
pub open spec fn can_start(mode: ModeView) -> bool {
    mode is Confirm || mode is Delete || mode is Bump || mode is ForcePush || mode is CreateInput
}

/// Whether no prompt that could start a job is open while one runs.
pub open spec fn orderly(app: StatusAppView) -> bool {
    app.running ==> !can_start(app.mode)
}

proof fn lemma_browsing_is_orderly(app: StatusAppView, code: KeyCode)
    requires
        orderly(app),
        app.mode is Browsing,
    ensures
        orderly(browsing_key(app, code).0),
        app.running ==> browsing_key(app, code).0.running,
        app.running ==> forall|k: int|
            0 <= k < browsing_key(app, code).1.len()
                ==> !(#[trigger] browsing_key(app, code).1[k]).is_job(),
        browsing_key(app, code).0.mode is Browsing || browsing_key(app, code).1.len() <= 1,
{
}

/// Every binding is run by one key at most, or by `g` twice.
proof fn lemma_replays_are_short(i: int)
    requires
        0 <= i < keymap().len(),
    ensures
        keymap()[i].replay.len() <= 1 || keymap()[i].replay == seq![
            KeyCode::Char('g'),
            KeyCode::Char('g'),
        ],
{
}

proof fn lemma_replay_is_orderly(app: StatusAppView, i: int)
    requires
        orderly(app),
        app.mode is Browsing,
        0 <= i < keymap().len(),
    ensures
        orderly(replayed(app, keymap()[i].replay).0),
        app.running ==> forall|k: int|
            0 <= k < replayed(app, keymap()[i].replay).1.len()
                ==> !(#[trigger] replayed(app, keymap()[i].replay).1[k]).is_job(),
{
    reveal_with_fuel(replayed, 3);
    lemma_replays_are_short(i);
    let keys = keymap()[i].replay;
    if keys.len() > 0 {
        assert(keys.drop_last().len() == keys.len() - 1);
        if keys.len() == 1 {
            let (after, more) = browsing_key(app, keys.last());
            lemma_browsing_is_orderly(app, keys.last());
            assert(Seq::<EffectView>::empty() + more =~= more);
        } else {
            let g = KeyCode::Char('g');
            assert(keys.drop_last() =~= seq![g]);
            let (mid, first) = browsing_key(app, g);
            lemma_browsing_is_orderly(app, g);
            assert(Seq::<EffectView>::empty() + first =~= first);
            if !first.contains(EffectView::Quit) {
                let (after, more) = browsing_key(mid, g);
                lemma_browsing_is_orderly(mid, g);
            }
        }
    }
}

proof fn lemma_help_is_orderly(app: StatusAppView, code: KeyCode)
    requires
        orderly(app),
    ensures
        app.mode is Help ==> orderly(key_step(app, code).0),
        app.mode is Help && app.running ==> forall|k: int|
            0 <= k < key_step(app, code).1.len() ==> !(#[trigger] key_step(
                app,
                code,
            ).1[k]).is_job(),
{
    match app.mode {
        ModeView::Help { query, cursor } => {
            let (q, c, outcome) = help_step(query, cursor, code);
            match outcome {
                HelpOutcome::Run(i) => {
                    lemma_matching_in_range(query);
                    lemma_replay_is_orderly(app.in_mode(ModeView::Browsing), i as int);
                },
                _ => {},
            }
        },
        _ => {},
    }
}

/// While a job runs no key starts another, so that two commands never race on
/// one repository.
pub proof fn law_one_job_at_a_time(app: StatusAppView, code: KeyCode, k: int)
    requires
        orderly(app),
        app.running,
        0 <= k < key_step(app, code).1.len(),
    ensures
        !key_step(app, code).1[k].is_job(),
{
    if app.mode is Browsing {
        lemma_browsing_is_orderly(app, code);
    }
    lemma_help_is_orderly(app, code);
}

/// A key never leaves a prompt open that could start a job beside a running
/// one.
pub proof fn law_keys_keep_order(app: StatusAppView, code: KeyCode)
    requires
        orderly(app),
    ensures
        orderly(key_step(app, code).0),
{
    if app.mode is Browsing {
        lemma_browsing_is_orderly(app, code);
    }
    lemma_help_is_orderly(app, code);
}

/// Only the second confirmation of a deletion forces it, and a deletion that may
/// lose commits is never done without force having been confirmed.
pub proof fn law_force_needs_a_second_yes(
    app: StatusAppView,
    p: DeletePreviewView,
    code: KeyCode,
    k: int,
)
    requires
        app.mode == (ModeView::Delete { preview: p }),
        0 <= k < key_step(app, code).1.len(),
    ensures
        key_step(app, code).1[k] matches EffectView::Delete { branch, scope, force } && branch
            == p.branch && (force <==> p.prompt is ForceConfirm) && (asks_twice(scope, p)
            ==> force),
{
}

/// Whether the selection is on a row, where there is one.
pub open spec fn selection_in_bounds(app: StatusAppView) -> bool {
    app.selected matches Some(i) ==> i < app.bases.len() + app.rolls.len()
}

/// Whether a state has the rows of another, and a selection on them where the
/// other has.
pub open spec fn keeps_rows(before: StatusAppView, after: StatusAppView) -> bool {
    &&& after.bases == before.bases
    &&& after.rolls == before.rolls
    &&& selection_in_bounds(before) ==> selection_in_bounds(after)
}

proof fn lemma_requests_keep_rows(app: StatusAppView, action: Action)
    ensures
        keeps_rows(app, create_requested(app)),
        keeps_rows(app, requested(app, action)),
        keeps_rows(app, integrate_requested(app)),
        keeps_rows(app, bump_requested(app)),
        keeps_rows(app, delete_requested(app).0),
        keeps_rows(app, detail_requested(app).0),
        keeps_rows(app, dismissed(app).0),
{
}

proof fn lemma_jobs_keep_rows(app: StatusAppView)
    ensures
        keeps_rows(app, switch_requested(app).0),
        keeps_rows(app, pull_requested(app).0),
        keeps_rows(app, push_requested(app).0),
        keeps_rows(app, fetch_requested(app).0),
        keeps_rows(app, verify_requested(app).0),
{
}

#[verifier::spinoff_prover]
#[verifier::rlimit(40)]
proof fn lemma_plain_key_keeps_rows(app: StatusAppView, code: KeyCode)
    ensures
        keeps_rows(app, plain_key(app, code).0),
{
    lemma_jobs_keep_rows(app);
    lemma_requests_keep_rows(app, Action::Graduate);
    lemma_requests_keep_rows(app, Action::Promote);
    lemma_requests_keep_rows(app, Action::Update);
    lemma_requests_keep_rows(app, Action::Prune);
    lemma_requests_keep_rows(app, Action::Tidy);
}

/// No key changes the rows, or takes the selection beyond them.
pub proof fn law_keys_stay_within_the_rows(app: StatusAppView, code: KeyCode)
    ensures
        keeps_rows(app, key_step(app, code).0),
{
    match app.mode {
        ModeView::Browsing => {
            lemma_browsing_key_keeps_rows(app, code);
        },
        ModeView::Help { query, cursor } => {
            let (q, c, outcome) = help_step(query, cursor, code);
            match outcome {
                HelpOutcome::Run(i) => {
                    lemma_replayed_keeps_rows(
                        app.in_mode(ModeView::Browsing),
                        keymap()[i as int].replay,
                    );
                },
                _ => {},
            }
        },
        _ => {},
    }
}

proof fn lemma_browsing_key_keeps_rows(app: StatusAppView, code: KeyCode)
    ensures
        keeps_rows(app, browsing_key(app, code).0),
{
    let clear = StatusAppView { message: None, pending_g: false, ..app };
    lemma_plain_key_keeps_rows(clear, code);
}

proof fn lemma_replayed_keeps_rows(app: StatusAppView, keys: Seq<KeyCode>)
    ensures
        keeps_rows(app, replayed(app, keys).0),
    decreases keys.len(),
{
    if keys.len() > 0 {
        lemma_replayed_keeps_rows(app, keys.drop_last());
        lemma_browsing_key_keeps_rows(replayed(app, keys.drop_last()).0, keys.last());
    }
}

/// The selection stays within the rows after every reload.
pub proof fn law_selection_stays_in_bounds(
    app: StatusAppView,
    current_branch: Seq<char>,
    refs: Seq<Seq<char>>,
    rolls: Seq<RollView>,
    tracking: Seq<LocalBranchView>,
    version: Option<Semver>,
)
    ensures
        ({
            let r = reloaded(app, current_branch, refs, rolls, tracking, version);
            r.selected matches Some(i) ==> i < r.bases.len() + r.rolls.len()
        }),
{
}

/// Whether the table takes keys as they are: nothing is open, no job runs and no
/// `g` waits.
pub open spec fn at_rest(app: StatusAppView) -> bool {
    app.mode is Browsing && !app.running && !app.pending_g
}

/// The keys that ask for one thing whatever is selected: quitting, reading the
/// repository again, fetching, and lazygit behind a second `g`.
pub proof fn law_plain_keys_ask_for_one_thing(app: StatusAppView)
    requires
        at_rest(app),
    ensures
        key_step(app, KeyCode::Char('q')).1 == seq![EffectView::Quit],
        key_step(app, KeyCode::Char('r')).1 == seq![EffectView::Reload],
        key_step(app, KeyCode::Char('f')).1 == seq![EffectView::Fetch],
        key_step(app, KeyCode::Char('f')).0.running,
        key_step(app, KeyCode::Char('g')).1.len() == 0,
        key_step(app, KeyCode::Char('g')).0.pending_g,
        key_step(key_step(app, KeyCode::Char('g')).0, KeyCode::Char('g')).1
            == seq![EffectView::Lazygit],
        key_step(app, KeyCode::Char('c')).1.len() == 0,
        key_step(app, KeyCode::Char('c')).0.mode == (ModeView::CreateInput { slug: ""@ }),
        key_step(app, KeyCode::Char('?')).1.len() == 0,
        key_step(app, KeyCode::Char('?')).0.mode == (ModeView::Help { query: ""@, cursor: 0 }),
{
}

/// The key that an action is asked for with.
pub open spec fn key_of(action: Action) -> KeyCode {
    match action {
        Action::Graduate => KeyCode::Char('G'),
        Action::Integrate => KeyCode::Char('i'),
        Action::Promote => KeyCode::Char('m'),
        Action::Update => KeyCode::Char('u'),
        Action::Prune => KeyCode::Char('x'),
        Action::Tidy => KeyCode::Char('t'),
    }
}

/// The key of an action asks for a confirmation of that action, where nothing
/// speaks against it, and otherwise says what does; it runs nothing itself.
pub proof fn law_action_keys_ask_first(app: StatusAppView, action: Action)
    requires
        at_rest(app),
        action is Integrate ==> !(app.row() matches Some(RowKind::Base(_))),
    ensures
        ({
            let (next, effects) = key_step(app, key_of(action));
            let against = objection(
                action,
                app.roll(),
                app.rolls,
                app.current_branch,
                app.config.roll_prefix,
            );
            &&& effects.len() == 0
            &&& against is None <==> next.mode is Confirm
            &&& next.mode is Confirm ==> next.mode->Confirm_action == action
            &&& against is Some ==> next.mode is Browsing && next.message == against
        }),
{
}

/// What a confirmation is about: the selected roll where the action is about one
/// roll, and none where it is about all of them.
pub proof fn law_confirmations_name_the_selected_roll(app: StatusAppView, action: Action)
    requires
        at_rest(app),
        key_step(app, key_of(action)).0.mode is Confirm,
    ensures
        ({
            let target = key_step(app, key_of(action)).0.mode->Confirm_target;
            &&& action is Graduate || action is Integrate ==> app.roll() is Some && target == Some(
                app.roll()->0.branch,
            )
            &&& action is Promote ==> target == (match app.roll() {
                Some(r) => Some(r.branch),
                None => None,
            })
            &&& action is Update || action is Prune || action is Tidy ==> target is None
        }),
{
}

/// In a confirmation `y` runs the action with its target, `n` and Esc drop it, and
/// every other key leaves it open.
pub proof fn law_confirmations_need_a_yes(
    app: StatusAppView,
    action: Action,
    target: Option<Seq<char>>,
    code: KeyCode,
)
    requires
        app.mode == (ModeView::Confirm { action, target }),
    ensures
        ({
            let (next, effects) = key_step(app, code);
            let yes = code == KeyCode::Char('y') || code == KeyCode::Char('Y');
            let no = code == KeyCode::Char('n') || code == KeyCode::Char('N') || code is Esc;
            &&& yes ==> effects == seq![EffectView::Run { action, target }] && next.running
                && next.mode is Browsing
            &&& no ==> effects.len() == 0 && next.mode is Browsing
            &&& !yes && !no ==> effects.len() == 0 && next == app
        }),
{
}

/// The selection moves by one row, and stays at either end.
pub proof fn law_moving_keys_move_by_one(app: StatusAppView, i: usize)
    requires
        at_rest(app),
        app.selected == Some(i),
        i < app.bases.len() + app.rolls.len() <= usize::MAX,
    ensures
        ({
            let last = app.bases.len() + app.rolls.len() - 1;
            let down = key_step(app, KeyCode::Down).0.selected;
            let up = key_step(app, KeyCode::Up).0.selected;
            &&& i < last ==> down == Some((i + 1) as usize)
            &&& i == last ==> down == Some(i)
            &&& i > 0 ==> up == Some((i - 1) as usize)
            &&& i == 0 ==> up == Some(i)
            &&& key_step(app, KeyCode::Char('j')).0.selected == down
            &&& key_step(app, KeyCode::Char('k')).0.selected == up
        }),
{
}

/// Space switches to the branch of the selected row, from wherever that branch is.
pub proof fn law_space_switches(app: StatusAppView, i: usize)
    requires
        at_rest(app),
        app.selected == Some(i),
        app.bases.len() + app.rolls.len() <= usize::MAX,
    ensures
        i < app.bases.len() ==> key_step(app, KeyCode::Char(' ')).1 == seq![
            EffectView::Switch {
                branch: app.bases[i as int].branch,
                location: app.bases[i as int].location,
            },
        ],
        app.bases.len() <= i < app.bases.len() + app.rolls.len() ==> key_step(
            app,
            KeyCode::Char(' '),
        ).1 == seq![
            EffectView::Switch {
                branch: app.rolls[i - app.bases.len()].branch,
                location: app.rolls[i - app.bases.len()].location,
            },
        ],
        i >= app.bases.len() + app.rolls.len() ==> key_step(app, KeyCode::Char(' ')).1.len() == 0,
{
}

/// The key for pushing pushes a branch that is here without force, except where its
/// upstream is known to have commits that are missing here, which is asked about
/// first. A branch that is not here is not pushed.
pub proof fn law_pushing_asks_before_forcing(app: StatusAppView)
    requires
        at_rest(app),
        app.sync_target() is Some,
    ensures
        ({
            let t = app.sync_target()->0;
            let (next, effects) = key_step(app, KeyCode::Char('P'));
            let here = t.location is Local || t.location is Both;
            let behind = t.track matches Some(s) && (s is Behind || s is Diverged);
            &&& here && !behind ==> effects == seq![EffectView::Push { sync: t, force: false }]
            &&& here && behind ==> effects.len() == 0 && next.mode == (ModeView::ForcePush {
                branch: t.branch,
                remote: t.remote,
            })
            &&& !here ==> effects.len() == 0 && next.mode is Browsing
        }),
{
}

/// The key for pulling runs what is planned for the selected branch, in the
/// configured mode, and nothing where that is refused.
pub proof fn law_pulling_runs_the_plan(app: StatusAppView)
    requires
        at_rest(app),
        app.sync_target() is Some,
    ensures
        ({
            let plan = pull_of(app.sync_target()->0, app.config.pull_mode);
            let effects = key_step(app, KeyCode::Char('p')).1;
            &&& plan matches PullPlanView::Refused { reason } ==> effects.len() == 0
            &&& plan matches PullPlanView::Pull { args } ==> effects == seq![
                EffectView::Pull { args },
            ]
            &&& plan matches PullPlanView::FastForward { args } ==> effects == seq![
                EffectView::Pull { args },
            ]
            &&& plan matches PullPlanView::FetchRemote { args } ==> effects == seq![
                EffectView::Pull { args },
            ]
        }),
{
}

/// The key for verifying verifies the merge that the branch which is checked out
/// stands for: rolling into stable, or a roll into rolling.
pub proof fn law_verifying_follows_the_branch(app: StatusAppView)
    requires
        at_rest(app),
    ensures
        ({
            let effects = key_step(app, KeyCode::Char('v')).1;
            let on_rolling = app.current_branch == app.config.rolling_branch;
            let on_roll = begins(app.current_branch, app.config.roll_prefix);
            &&& on_rolling ==> effects == seq![
                EffectView::Verify {
                    source: app.config.rolling_branch,
                    into: app.config.stable_branch,
                },
            ]
            &&& !on_rolling && on_roll ==> effects == seq![
                EffectView::Verify {
                    source: app.current_branch,
                    into: app.config.rolling_branch,
                },
            ]
            &&& !on_rolling && !on_roll ==> effects.len() == 0
        }),
{
}

/// The key for deleting opens the prompt about the selected roll and has its
/// commits counted; nothing is deleted by it.
pub proof fn law_deleting_asks_first(app: StatusAppView)
    requires
        at_rest(app),
        app.roll() is Some,
    ensures
        ({
            let (next, effects) = key_step(app, KeyCode::Char('d'));
            let roll = app.roll()->0;
            let prompt = prompt_for(roll);
            &&& prompt is Ok ==> effects == seq![
                EffectView::CountUnmerged { branch: roll.branch },
            ] && next.mode is Delete && next.mode->preview.branch == roll.branch
                && next.mode->preview.prompt == prompt->Ok_0
            &&& prompt is Err ==> effects.len() == 0 && next.mode is Browsing
        }),
{
}

/// A confirmed deletion goes ahead at once where every copy in scope is known to
/// lose nothing, and otherwise asks once more; the second yes forces it.
pub proof fn law_second_confirmations_force(
    app: StatusAppView,
    p: DeletePreviewView,
    scope: DeleteScope,
)
    requires
        app.mode == (ModeView::Delete { preview: p }),
        p.prompt == DeletePrompt::Single(scope) || p.prompt == DeletePrompt::ForceConfirm(scope),
    ensures
        ({
            let (next, effects) = key_step(app, KeyCode::Char('y'));
            let safe = (scope is Remote || p.local_unmerged == Some(0u32)) && (scope is Local
                || p.remote_unmerged == Some(0u32));
            &&& p.prompt is Single && safe ==> effects == seq![
                EffectView::Delete { branch: p.branch, scope, force: false },
            ]
            &&& p.prompt is Single && !safe ==> effects.len() == 0 && next.mode is Delete
                && next.mode->preview.prompt == DeletePrompt::ForceConfirm(scope)
                && next.mode->preview.branch == p.branch
            &&& p.prompt is ForceConfirm ==> effects == seq![
                EffectView::Delete { branch: p.branch, scope, force: true },
            ]
        }),
{
}

/// A name is submitted with Enter, and only where it holds more than white space;
/// Esc drops it.
pub proof fn law_names_are_submitted_with_enter(app: StatusAppView, slug: Seq<char>)
    requires
        app.mode == (ModeView::CreateInput { slug }),
    ensures
        trimmed(slug).len() > 0 ==> key_step(app, KeyCode::Enter).1 == seq![
            EffectView::Create { slug },
        ],
        trimmed(slug).len() == 0 ==> key_step(app, KeyCode::Enter).1.len() == 0,
        key_step(app, KeyCode::Enter).0.mode is Browsing,
        key_step(app, KeyCode::Esc).1.len() == 0,
        key_step(app, KeyCode::Esc).0.mode is Browsing,
{
}

/// The bump prompt raises the level that its digit names.
pub proof fn law_bump_digits_bump(app: StatusAppView, current: Semver)
    requires
        app.mode == (ModeView::Bump { current }),
    ensures
        key_step(app, KeyCode::Char('1')).1 == seq![EffectView::Bump { level: BumpLevel::Patch }],
        key_step(app, KeyCode::Char('2')).1 == seq![EffectView::Bump { level: BumpLevel::Minor }],
        key_step(app, KeyCode::Char('3')).1 == seq![EffectView::Bump { level: BumpLevel::Major }],
        key_step(app, KeyCode::Esc).1.len() == 0,
        key_step(app, KeyCode::Esc).0.mode is Browsing,
{
}

/// Esc closes the panel of a job that is over before it quits; while the job runs it
/// does neither.
pub proof fn law_esc_closes_before_it_quits(app: StatusAppView)
    requires
        app.mode is Browsing,
    ensures
        ({
            let (next, effects) = key_step(app, KeyCode::Esc);
            &&& app.panel is None ==> effects == seq![EffectView::Quit]
            &&& app.panel is Some ==> effects.len() == 0
            &&& app.panel is Some && !app.running ==> next.panel is None
            &&& app.panel is Some && app.running ==> next.panel == app.panel
        }),
{
}

/// Enter opens the detail of the selected roll, and has it compared with its copy on
/// `origin` exactly where it has both.
pub proof fn law_enter_opens_the_detail(app: StatusAppView)
    requires
        at_rest(app),
        app.roll() is Some,
    ensures
        ({
            let (next, effects) = key_step(app, KeyCode::Enter);
            let roll = app.roll()->0;
            &&& next.mode == (ModeView::Detail { roll, ahead_behind: None })
            &&& roll.location is Both ==> effects == seq![
                EffectView::Compare { branch: roll.branch },
            ]
            &&& roll.location !is Both ==> effects.len() == 0
        }),
{
}

/// What is selected is the row at the index: a base branch among the first ones, a
/// roll behind them, and nothing beyond.
pub proof fn law_selection_picks_the_row(app: StatusAppView, i: usize)
    requires
        app.selected == Some(i),
        app.bases.len() + app.rolls.len() <= usize::MAX,
    ensures
        i < app.bases.len() ==> app.roll() is None && (app.sync_target() matches Some(t)
            && t.branch == app.bases[i as int].branch && t.location
            == app.bases[i as int].location),
        app.bases.len() <= i < app.bases.len() + app.rolls.len() ==> app.roll() == Some(
            app.rolls[i - app.bases.len()],
        ) && (app.sync_target() matches Some(t) && t.branch == app.rolls[i
            - app.bases.len()].branch && t.location == app.rolls[i - app.bases.len()].location),
        i >= app.bases.len() + app.rolls.len() ==> app.roll() is None && app.sync_target() is None,
        app.sync_target() matches Some(t) ==> (t.is_current <==> t.branch == app.current_branch),
{
}

/// Counts are taken in by an open deletion prompt, each for its own copy, and by
/// nothing else; how a roll stands to `origin` is taken in by its open detail.
pub proof fn law_answers_reach_what_is_open(
    app: StatusAppView,
    local: Option<u32>,
    remote: Option<u32>,
    counts: Option<(u32, u32)>,
)
    ensures
        app.mode is Delete ==> with_counts(app, local, remote).mode is Delete && with_counts(
            app,
            local,
            remote,
        ).mode->preview.local_unmerged == local && with_counts(
            app,
            local,
            remote,
        ).mode->preview.remote_unmerged == remote && with_counts(
            app,
            local,
            remote,
        ).mode->preview.branch == app.mode->preview.branch && with_counts(
            app,
            local,
            remote,
        ).mode->preview.prompt == app.mode->preview.prompt,
        app.mode !is Delete ==> with_counts(app, local, remote) == app,
        app.mode is Detail ==> with_divergence(app, counts).mode == (ModeView::Detail {
            roll: app.mode->roll,
            ahead_behind: counts,
        }),
        app.mode !is Detail ==> with_divergence(app, counts) == app,
{
}

/// Reading the repository again takes in everything that was read, and keeps the
/// selection where there is still a row for it.
pub proof fn law_reloading_takes_everything_in(
    app: StatusAppView,
    current_branch: Seq<char>,
    refs: Seq<Seq<char>>,
    rolls: Seq<RollView>,
    tracking: Seq<LocalBranchView>,
    version: Option<Semver>,
    i: usize,
)
    requires
        app.selected == Some(i),
        rolls.len() <= usize::MAX - 2,
    ensures
        ({
            let r = reloaded(app, current_branch, refs, rolls, tracking, version);
            let rows = r.bases.len() + r.rolls.len();
            &&& r.current_branch == current_branch
            &&& r.rolls == rolls
            &&& r.tracking == tracking
            &&& r.version == version
            &&& r.mode == app.mode && r.running == app.running && r.panel == app.panel
            &&& i < rows ==> r.selected == Some(i)
            &&& i >= rows && rows > 0 ==> r.selected == Some((rows - 1) as usize)
            &&& rows == 0 ==> r.selected is None
        }),
{
}

proof fn lemma_roll_at(rolls: Seq<RollView>, branch: Seq<char>, from: int, k: int)
    requires
        0 <= from <= k <= rolls.len(),
        k < rolls.len() ==> rolls[k].branch == branch,
        forall|j: int| from <= j < k ==> (#[trigger] rolls[j]).branch != branch,
    ensures
        roll_at(rolls, branch, from) == (if k < rolls.len() {
            Some(k)
        } else {
            None
        }),
    decreases k - from,
{
    if from < k {
        assert(rolls[from].branch != branch);
        lemma_roll_at(rolls, branch, from + 1, k);
    }
}

/// A finished job may ask for a roll to be selected, which is done where the roll is
/// listed, or for a forced push to be offered, which only opens the prompt. `k` is
/// the place of the roll, or the number of the rolls where it is not listed.
pub proof fn law_followups_select_or_offer(
    app: StatusAppView,
    branch: Seq<char>,
    remote: Seq<char>,
    k: int,
)
    requires
        app.bases.len() + app.rolls.len() <= usize::MAX,
        0 <= k <= app.rolls.len(),
        k < app.rolls.len() ==> app.rolls[k].branch == branch,
        forall|j: int| 0 <= j < k ==> (#[trigger] app.rolls[j]).branch != branch,
    ensures
        k < app.rolls.len() ==> followed_up(
            app,
            Some(FollowupView::SelectBranch(branch)),
        ).selected == Some((app.bases.len() + k) as usize),
        k == app.rolls.len() ==> followed_up(app, Some(FollowupView::SelectBranch(branch))) == app,
        followed_up(app, Some(FollowupView::OfferForcePush { branch, remote })).mode == (
        ModeView::ForcePush { branch, remote }),
        !app.running ==> !followed_up(
            app,
            Some(FollowupView::OfferForcePush { branch, remote }),
        ).running,
        followed_up(app, None) == app,
{
    lemma_roll_at(app.rolls, branch, 0, k);
}

/// The view opens on the table, with nothing running, nothing said and no panel.
pub proof fn law_the_view_opens_at_rest(
    config: ConfigView,
    current_branch: Seq<char>,
    refs: Seq<Seq<char>>,
    rolls: Seq<RollView>,
    tracking: Seq<LocalBranchView>,
    version: Option<Semver>,
    show_deps: bool,
)
    ensures
        ({
            let app = opened(config, current_branch, refs, rolls, tracking, version, show_deps);
            &&& at_rest(app)
            &&& app.message is None && app.panel is None
            &&& app.rolls == rolls && app.tracking == tracking && app.version == version
            &&& app.current_branch == current_branch && app.show_deps == show_deps && app.config
                == config
        }),
{
}

/// A forced push is only ever made behind a yes in its prompt, to the branch that
/// the prompt names.
pub proof fn law_forced_pushes_are_confirmed(
    app: StatusAppView,
    branch: Seq<char>,
    remote: Seq<char>,
    code: KeyCode,
)
    requires
        app.mode == (ModeView::ForcePush { branch, remote }),
    ensures
        ({
            let (next, effects) = key_step(app, code);
            let yes = code == KeyCode::Char('y') || code == KeyCode::Char('Y');
            &&& yes ==> effects.len() == 1 && (effects[0] matches EffectView::Push { sync, force }
                && force && sync.branch == branch)
            &&& !yes ==> effects.len() == 0
        }),
{
}

} // verus!
