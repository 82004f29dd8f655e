//! What the keys of the view may do, and to what.
use vstd::prelude::*;

use crate::branches::{BranchLocation, RollInfo, RollState, RollView};
use crate::config::{Config, ConfigView};
use crate::failure::Failure;
use crate::git::TrackState;
use crate::num::{decimal, to_decimal};
use crate::ops::prune::{is_local, PruneScope};
use crate::ops::release::{render_version_check, version_line_of};
use crate::ops::route::{endpoints, infer_route, route_endpoints, route_of};
use crate::seqs::{kept, lemma_kept_ends, lemma_kept_step};
use crate::sync::SyncFailure;
use crate::text::{
    begins, cat, cat3, cat4, cat5, has_text, owned, same, starts_with, told, trim, trimmed,
};
use crate::tui::keymap::drop_last_char;
use crate::tui::style::{control, is_control, Color, KeyCode};
use crate::version::{BumpLevel, Semver, VersionCheck};

verus! {

// ── Actions ─────────────────────────────────────────────────────────────────

/// An operation that is confirmed before it runs.
#[derive(Debug, Clone, Copy, PartialEq, Eq, Structural)]
pub enum Action {
    /// Graduate the selected roll into the rolling branch.
    Graduate,
    /// Merge the selected roll into the one that is checked out.
    Integrate,
    /// Promote to stable.
    Promote,
    /// Update all active local rolls from stable.
    Update,
    /// Delete every promoted roll branch, here and on `origin`.
    Prune,
    /// Delete the local branch of every graduated or promoted roll.
    Tidy,
}

impl Action {
    /// The word for the action.
    pub open spec fn verb(self) -> Seq<char> {
        match self {
            Action::Graduate => "graduate"@,
            Action::Integrate => "integrate"@,
            Action::Promote => "promote"@,
            Action::Update => "update"@,
            Action::Prune => "prune"@,
            Action::Tidy => "tidy"@,
        }
    }

    /// The title of the panel for this action.
    pub open spec fn title(self, target: Option<Seq<char>>) -> Seq<char> {
        match target {
            Some(t) => "rf "@ + self.verb() + " "@ + t,
            None => "rf "@ + self.verb(),
        }
    }

    /// The title of the panel for this action, with the roll it targets.
    pub fn job_title(&self, target: Option<&str>) -> (r: String)
        ensures
            r@ == self.title(
                match target {
                    Some(t) => Some(t@),
                    None => None,
                },
            ),
    {
        let verb = match self {
            Action::Graduate => "graduate",
            Action::Integrate => "integrate",
            Action::Promote => "promote",
            Action::Update => "update",
            Action::Prune => "prune",
            Action::Tidy => "tidy",
        };
        match target {
            Some(t) => cat4("rf ", verb, " ", t),
            None => cat("rf ", verb),
        }
    }
}

// ── Keys of the small prompts ───────────────────────────────────────────────

/// What a key in the force-push prompt asks for.
#[derive(Debug, Clone, Copy, PartialEq, Eq, Structural)]
pub enum ForcePushOutcome {
    Ignore,
    Cancel,
    Force,
}

/// What a key in the bump prompt asks for.
#[derive(Debug, Clone, Copy, PartialEq, Eq, Structural)]
pub enum BumpOutcome {
    Ignore,
    Cancel,
    Level(BumpLevel),
}

/// Whether a key says no.
pub open spec fn declines(code: KeyCode) -> bool {
    code == KeyCode::Char('n') || code == KeyCode::Char('N') || code == KeyCode::Esc
}

/// Whether a key says yes.
pub open spec fn accepts(code: KeyCode) -> bool {
    code == KeyCode::Char('y') || code == KeyCode::Char('Y')
}

/// What a key in the bump prompt asks for: digits, from the least up.
pub open spec fn bump_answer(code: KeyCode) -> BumpOutcome {
    if code == KeyCode::Char('1') {
        BumpOutcome::Level(BumpLevel::Patch)
    } else if code == KeyCode::Char('2') {
        BumpOutcome::Level(BumpLevel::Minor)
    } else if code == KeyCode::Char('3') {
        BumpOutcome::Level(BumpLevel::Major)
    } else if declines(code) {
        BumpOutcome::Cancel
    } else {
        BumpOutcome::Ignore
    }
}

/// What a key in the bump prompt asks for.
pub fn bump_key(code: KeyCode) -> (r: BumpOutcome)
    ensures
        r == bump_answer(code),
{
    match code {
        KeyCode::Char('1') => BumpOutcome::Level(BumpLevel::Patch),
        KeyCode::Char('2') => BumpOutcome::Level(BumpLevel::Minor),
        KeyCode::Char('3') => BumpOutcome::Level(BumpLevel::Major),
        KeyCode::Char('n') => BumpOutcome::Cancel,
        KeyCode::Char('N') => BumpOutcome::Cancel,
        KeyCode::Esc => BumpOutcome::Cancel,
        _ => BumpOutcome::Ignore,
    }
}

/// The three levels and what each would make of a version.
pub fn bump_previews(current: Semver) -> (r: [(BumpLevel, Semver); 3])
    requires
        current.can_bump(BumpLevel::Patch),
        current.can_bump(BumpLevel::Minor),
        current.can_bump(BumpLevel::Major),
    ensures
        r@ == seq![
            (BumpLevel::Patch, current.bumped(BumpLevel::Patch)),
            (BumpLevel::Minor, current.bumped(BumpLevel::Minor)),
            (BumpLevel::Major, current.bumped(BumpLevel::Major)),
        ],
{
    let r = [
        (BumpLevel::Patch, current.bump(BumpLevel::Patch)),
        (BumpLevel::Minor, current.bump(BumpLevel::Minor)),
        (BumpLevel::Major, current.bump(BumpLevel::Major)),
    ];
    assert(r@ =~= seq![
        (BumpLevel::Patch, current.bumped(BumpLevel::Patch)),
        (BumpLevel::Minor, current.bumped(BumpLevel::Minor)),
        (BumpLevel::Major, current.bumped(BumpLevel::Major)),
    ]);
    r
}

/// The version that a bump would raise, or why there is none.
pub fn bump_gate(current: Option<Semver>) -> (r: Result<Semver, String>)
    ensures
        match current {
            Some(v) => r == Ok::<Semver, String>(v),
            None => r matches Err(e) && e@
                == "no readable version in Cargo.toml — nothing to bump"@,
        },
{
    match current {
        Some(v) => Ok(v),
        None => Err("no readable version in Cargo.toml — nothing to bump".to_owned()),
    }
}

/// What a key in the force-push prompt asks for: only an explicit yes forces.
pub open spec fn force_answer(code: KeyCode) -> ForcePushOutcome {
    if accepts(code) {
        ForcePushOutcome::Force
    } else if declines(code) {
        ForcePushOutcome::Cancel
    } else {
        ForcePushOutcome::Ignore
    }
}

/// What a key in the force-push prompt asks for.
pub fn force_push_key(code: KeyCode) -> (r: ForcePushOutcome)
    ensures
        r == force_answer(code),
{
    match code {
        KeyCode::Char('y') => ForcePushOutcome::Force,
        KeyCode::Char('Y') => ForcePushOutcome::Force,
        KeyCode::Char('n') => ForcePushOutcome::Cancel,
        KeyCode::Char('N') => ForcePushOutcome::Cancel,
        KeyCode::Esc => ForcePushOutcome::Cancel,
        _ => ForcePushOutcome::Ignore,
    }
}

/// A failed synchronisation as a failure: git's own text, then the advice.
pub fn sync_error(err: &SyncFailure) -> (r: Failure)
    ensures
        r.deep_view() == seq![
            match err.hint.deep_view() {
                Some(h) => err.failure.text() + "\n"@ + h,
                None => err.failure.text(),
            },
        ],
{
    let text = err.failure.to_string();
    match &err.hint {
        Some(h) => Failure::msg(cat3(text.as_str(), "\n", h.as_str())),
        None => Failure::msg(text),
    }
}

// ── Cells ───────────────────────────────────────────────────────────────────

/// The text and colour that say how a branch stands to its upstream.
pub open spec fn sync_look(track: Option<TrackState>) -> (Seq<char>, Color) {
    match track {
        None => ("—"@, Color::DarkGray),
        Some(TrackState::NoUpstream) => ("—"@, Color::DarkGray),
        Some(TrackState::Gone) => ("gone"@, Color::Red),
        Some(TrackState::InSync) => ("✓"@, Color::Green),
        Some(TrackState::Ahead(n)) => ("↑"@ + decimal(n as nat), Color::Yellow),
        Some(TrackState::Behind(n)) => ("↓"@ + decimal(n as nat), Color::Yellow),
        Some(TrackState::Diverged { ahead, behind }) => (
            "↑"@ + decimal(ahead as nat) + "↓"@ + decimal(behind as nat),
            Color::Yellow,
        ),
    }
}

/// The text and colour that say how a branch stands to its upstream.
pub fn sync_cell(track: Option<TrackState>) -> (r: (String, Color))
    ensures
        r.0@ == sync_look(track).0,
        r.1 == sync_look(track).1,
{
    match track {
        None => ("—".to_owned(), Color::DarkGray),
        Some(TrackState::NoUpstream) => ("—".to_owned(), Color::DarkGray),
        Some(TrackState::Gone) => ("gone".to_owned(), Color::Red),
        Some(TrackState::InSync) => ("✓".to_owned(), Color::Green),
        Some(TrackState::Ahead(n)) => {
            let t = to_decimal(n as u64);
            (cat("↑", t.as_str()), Color::Yellow)
        },
        Some(TrackState::Behind(n)) => {
            let t = to_decimal(n as u64);
            (cat("↓", t.as_str()), Color::Yellow)
        },
        Some(TrackState::Diverged { ahead, behind }) => {
            let a = to_decimal(ahead as u64);
            let b = to_decimal(behind as u64);
            (cat4("↑", a.as_str(), "↓", b.as_str()), Color::Yellow)
        },
    }
}

/// The mark of the branch that is checked out.
pub open spec fn marker(is_current: bool) -> Seq<char> {
    if is_current {
        "›"@
    } else {
        ""@
    }
}

/// The mark of the branch that is checked out.
pub fn current_marker(is_current: bool) -> (r: &'static str)
    ensures
        r@ == marker(is_current),
{
    if is_current {
        "›"
    } else {
        ""
    }
}

/// The colour of a state.
pub open spec fn state_hue(state: RollState) -> Color {
    match state {
        RollState::Active => Color::Yellow,
        RollState::Graduated => Color::Green,
        RollState::Diverged => Color::Red,
        RollState::Promoted => Color::DarkGray,
        RollState::Blocked => Color::Magenta,
    }
}

/// The colour of a state.
pub fn state_color(state: &RollState) -> (r: Color)
    ensures
        r == state_hue(*state),
{
    match state {
        RollState::Active => Color::Yellow,
        RollState::Graduated => Color::Green,
        RollState::Diverged => Color::Red,
        RollState::Promoted => Color::DarkGray,
        RollState::Blocked => Color::Magenta,
    }
}

/// The divergence of a roll from `origin` in words.
pub open spec fn divergence_text(ahead_behind: Option<(u32, u32)>) -> Option<Seq<char>> {
    match ahead_behind {
        Some(n) => Some(
            "ahead "@ + decimal(n.0 as nat) + " / behind "@ + decimal(n.1 as nat) + " vs origin"@,
        ),
        None => None,
    }
}

/// The divergence of a roll from `origin` in words; none where it is unknown.
pub fn format_ahead_behind(ahead_behind: Option<(u32, u32)>) -> (r: Option<String>)
    ensures
        r.deep_view() == divergence_text(ahead_behind),
{
    match ahead_behind {
        Some(n) => {
            let a = to_decimal(n.0 as u64);
            let b = to_decimal(n.1 as u64);
            Some(cat5("ahead ", a.as_str(), " / behind ", b.as_str(), " vs origin"))
        },
        None => None,
    }
}

// ── Rows ────────────────────────────────────────────────────────────────────

/// Which of the two long-lived branches a row is.
#[derive(Debug, Clone, Copy, PartialEq, Eq, Structural)]
pub enum BaseRole {
    Stable,
    Rolling,
}

impl BaseRole {
    /// The role in a word.
    pub open spec fn label_text(self) -> Seq<char> {
        match self {
            BaseRole::Stable => "stable"@,
            BaseRole::Rolling => "rolling"@,
        }
    }

    /// The role in a word.
    pub fn label(&self) -> (r: &'static str)
        ensures
            r@ == self.label_text(),
    {
        match self {
            BaseRole::Stable => "stable",
            BaseRole::Rolling => "rolling",
        }
    }

    /// The colour of the role.
    pub open spec fn hue(self) -> Color {
        match self {
            BaseRole::Stable => Color::Green,
            BaseRole::Rolling => Color::Cyan,
        }
    }

    /// The colour of the role.
    pub fn color(&self) -> (r: Color)
        ensures
            r == self.hue(),
    {
        match self {
            BaseRole::Stable => Color::Green,
            BaseRole::Rolling => Color::Cyan,
        }
    }
}

/// A row for stable or rolling.
#[derive(Debug)]
pub struct BaseBranch {
    pub role: BaseRole,
    pub branch: String,
    pub location: BranchLocation,
    pub is_current: bool,
}

/// [`BaseBranch`] by its characters.
pub struct BaseBranchView {
    pub role: BaseRole,
    pub branch: Seq<char>,
    pub location: BranchLocation,
    pub is_current: bool,
}

impl DeepView for BaseBranch {
    type V = BaseBranchView;

    open spec fn deep_view(&self) -> BaseBranchView {
        BaseBranchView {
            role: self.role,
            branch: self.branch@,
            location: self.location,
            is_current: self.is_current,
        }
    }
}

/// Which row an index lands on.
#[derive(Debug, Clone, Copy, PartialEq, Eq, Structural)]
pub enum RowKind {
    Base(usize),
    Roll(usize),
}

/// The row at an index: the base branches come first, then the rolls.
pub open spec fn row_of(index: int, base_count: int, roll_count: int) -> Option<RowKind> {
    if index < base_count {
        Some(RowKind::Base(index as usize))
    } else if index - base_count < roll_count {
        Some(RowKind::Roll((index - base_count) as usize))
    } else {
        None
    }
}

/// The row at an index; none past the last.
pub fn row_at(index: usize, base_count: usize, roll_count: usize) -> (r: Option<RowKind>)
    ensures
        r == row_of(index as int, base_count as int, roll_count as int),
{
    if index < base_count {
        Some(RowKind::Base(index))
    } else if index - base_count < roll_count {
        Some(RowKind::Roll(index - base_count))
    } else {
        None
    }
}

/// The row for a base branch, if it exists anywhere. `refs` are the names that
/// resolve.
pub open spec fn base_row(
    role: BaseRole,
    name: Seq<char>,
    current: Seq<char>,
    refs: Seq<Seq<char>>,
) -> Option<BaseBranchView> {
    let here = refs.contains(name);
    let there = refs.contains("origin/"@ + name);
    if name.len() == 0 || (!here && !there) {
        None
    } else {
        Some(
            BaseBranchView {
                role,
                branch: name,
                location: BranchLocation::at(here, there),
                is_current: current == name,
            },
        )
    }
}

/// The rows for the base branches: stable, then rolling if it is another.
pub open spec fn base_rows(config: ConfigView, current: Seq<char>, refs: Seq<Seq<char>>) -> Seq<
    BaseBranchView,
> {
    let stable = base_row(BaseRole::Stable, config.stable_branch, current, refs);
    let rolling = base_row(BaseRole::Rolling, config.rolling_branch, current, refs);
    let first = match stable {
        Some(b) => seq![b],
        None => seq![],
    };
    match rolling {
        Some(b) => if first.len() > 0 && config.stable_branch == config.rolling_branch {
            first
        } else {
            first.push(b)
        },
        None => first,
    }
}

fn base_row_for(role: BaseRole, name: &str, current: &str, refs: &Vec<String>) -> (r: Option<
    BaseBranch,
>)
    ensures
        r.deep_view() == base_row(role, name@, current@, refs.deep_view()),
{
    if name.unicode_len() == 0 {
        return None;
    }
    let there_name = cat("origin/", name);
    let here = has_text(refs, name);
    let there = has_text(refs, there_name.as_str());
    if !here && !there {
        return None;
    }
    Some(
        BaseBranch {
            role,
            branch: owned(name),
            location: BranchLocation::from_presence(here, there),
            is_current: same(current, name),
        },
    )
}

/// The rows for the base branches.
pub fn base_branches(config: &Config, current_branch: &str, refs: &Vec<String>) -> (r: Vec<
    BaseBranch,
>)
    ensures
        r.deep_view() == base_rows(config.deep_view(), current_branch@, refs.deep_view()),
{
    let mut out: Vec<BaseBranch> = Vec::new();
    assert(out.deep_view() =~= seq![]);
    match base_row_for(
        BaseRole::Stable,
        config.stable_branch.as_str(),
        current_branch,
        refs,
    ) {
        Some(b) => {
            let ghost view = b.deep_view();
            out.push(b);
            assert(out.deep_view() =~= seq![view]);
        },
        None => {},
    }
    assert(out.deep_view().len() == out@.len());
    if !out.is_empty() && same(config.stable_branch.as_str(), config.rolling_branch.as_str()) {
        return out;
    }
    match base_row_for(
        BaseRole::Rolling,
        config.rolling_branch.as_str(),
        current_branch,
        refs,
    ) {
        Some(b) => {
            let ghost before = out.deep_view();
            let ghost view = b.deep_view();
            out.push(b);
            assert(out.deep_view() =~= before.push(view));
        },
        None => {},
    }
    out
}

/// The first base branch that is checked out.
pub open spec fn current_base(bases: Seq<BaseBranchView>, from: int) -> Option<int>
    decreases bases.len() - from,
{
    if from < 0 || from >= bases.len() {
        None
    } else if bases[from].is_current {
        Some(from)
    } else {
        current_base(bases, from + 1)
    }
}

/// The first roll that is checked out.
pub open spec fn current_roll(rolls: Seq<RollView>, from: int) -> Option<int>
    decreases rolls.len() - from,
{
    if from < 0 || from >= rolls.len() {
        None
    } else if rolls[from].is_current {
        Some(from)
    } else {
        current_roll(rolls, from + 1)
    }
}

/// The row to start on: that of the branch that is checked out, or else the
/// first; none where there is none.
pub open spec fn first_selection(bases: Seq<BaseBranchView>, rolls: Seq<RollView>) -> Option<int> {
    if bases.len() == 0 && rolls.len() == 0 {
        None
    } else {
        match current_base(bases, 0) {
            Some(i) => Some(i),
            None => match current_roll(rolls, 0) {
                Some(i) => Some(bases.len() + i),
                None => Some(0),
            },
        }
    }
}

/// The row to start on.
pub fn initial_selection(bases: &Vec<BaseBranch>, rolls: &Vec<RollInfo>) -> (r: Option<usize>)
    requires
        bases@.len() + rolls@.len() <= usize::MAX,
    ensures
        match r {
            Some(i) => first_selection(bases.deep_view(), rolls.deep_view()) == Some(i as int),
            None => first_selection(bases.deep_view(), rolls.deep_view()) is None,
        },
{
    let ghost bv = bases.deep_view();
    let ghost rv = rolls.deep_view();
    if bases.is_empty() && rolls.is_empty() {
        return None;
    }
    let mut i: usize = 0;
    while i < bases.len()
        invariant
            i <= bases@.len(),
            bv == bases.deep_view(),
            current_base(bv, 0) == current_base(bv, i as int),
            bv.len() + rv.len() > 0,
        decreases bases@.len() - i,
    {
        assert(bv[i as int] == bases@[i as int].deep_view());
        if bases[i].is_current {
            return Some(i);
        }
        i += 1;
    }
    let n = bases.len();
    let mut k: usize = 0;
    while k < rolls.len()
        invariant
            k <= rolls@.len(),
            n == bases@.len(),
            bv == bases.deep_view(),
            rv == rolls.deep_view(),
            bases@.len() + rolls@.len() <= usize::MAX,
            current_base(bv, 0) is None,
            current_roll(rv, 0) == current_roll(rv, k as int),
        decreases rolls@.len() - k,
    {
        assert(rv[k as int] == rolls@[k as int].deep_view());
        if rolls[k].is_current {
            return Some(n + k);
        }
        k += 1;
    }
    Some(0)
}

// ── What an action needs ────────────────────────────────────────────────────

/// Whether a roll in this state may graduate.
pub fn can_graduate(state: &RollState) -> (r: bool)
    ensures
        r == (*state is Active || *state is Diverged),
{
    matches!(state, RollState::Active | RollState::Diverged)
}

/// Whether a roll is on rolling and not on stable.
pub open spec fn promotable(r: RollView) -> bool {
    r.state is Graduated || r.state is Diverged
}

/// Whether a roll is brought up to date by an update.
pub open spec fn updates(r: RollView) -> bool {
    (r.state is Active || r.state is Blocked) && is_local(r.location)
}

/// Whether a roll is pruned.
pub open spec fn prunable(r: RollView) -> bool {
    r.state is Promoted
}

/// Whether a roll is tidied.
pub open spec fn tidyable(r: RollView) -> bool {
    tidied_states().contains(r.state) && is_local(r.location)
}

/// How many rolls there are of a kind.
pub open spec fn tally(rolls: Seq<RollView>, f: spec_fn(RollView) -> bool) -> nat
    decreases rolls.len(),
{
    if rolls.len() == 0 {
        0
    } else {
        tally(rolls.drop_last(), f) + (if f(rolls.last()) {
            1nat
        } else {
            0
        })
    }
}

/// The states whose rolls are tidied.
pub open spec fn tidied_states() -> Seq<RollState> {
    seq![RollState::Graduated, RollState::Promoted]
}

/// The states whose rolls are tidied.
pub fn tidy_states() -> (r: Vec<RollState>)
    ensures
        r@ == tidied_states(),
{
    let r = vec![RollState::Graduated, RollState::Promoted];
    assert(r@ =~= tidied_states());
    r
}

fn is_promotable(r: &RollInfo) -> (b: bool)
    ensures
        b == promotable(r.deep_view()),
{
    matches!(r.state, RollState::Graduated | RollState::Diverged)
}

fn is_updated(r: &RollInfo) -> (b: bool)
    ensures
        b == updates(r.deep_view()),
{
    matches!(r.state, RollState::Active | RollState::Blocked) && matches!(
        r.location,
        BranchLocation::Local | BranchLocation::Both
    )
}

fn is_prunable(r: &RollInfo) -> (b: bool)
    ensures
        b == prunable(r.deep_view()),
{
    matches!(r.state, RollState::Promoted)
}

fn is_tidy_candidate(r: &RollInfo) -> (b: bool)
    ensures
        b == tidyable(r.deep_view()),
{
    assert(tidied_states()[0] == RollState::Graduated);
    assert(tidied_states()[1] == RollState::Promoted);
    matches!(r.state, RollState::Graduated | RollState::Promoted) && matches!(
        r.location,
        BranchLocation::Local | BranchLocation::Both
    )
}

/// Whether rolling has something to carry to stable.
pub fn can_promote(rolls: &Vec<RollInfo>) -> (r: bool)
    ensures
        r == exists|i: int|
            0 <= i < rolls@.len() && promotable(#[trigger] rolls.deep_view()[i]),
{
    let ghost all = rolls.deep_view();
    let mut i: usize = 0;
    while i < rolls.len()
        invariant
            i <= rolls@.len(),
            all == rolls.deep_view(),
            forall|k: int| 0 <= k < i ==> !promotable(#[trigger] all[k]),
        decreases rolls@.len() - i,
    {
        assert(all[i as int] == rolls@[i as int].deep_view());
        if is_promotable(&rolls[i]) {
            return true;
        }
        i += 1;
    }
    false
}

/// Whether there is a local roll to bring up to date.
pub fn can_update(rolls: &Vec<RollInfo>) -> (r: bool)
    ensures
        r == exists|i: int| 0 <= i < rolls@.len() && updates(#[trigger] rolls.deep_view()[i]),
{
    let ghost all = rolls.deep_view();
    let mut i: usize = 0;
    while i < rolls.len()
        invariant
            i <= rolls@.len(),
            all == rolls.deep_view(),
            forall|k: int| 0 <= k < i ==> !updates(#[trigger] all[k]),
        decreases rolls@.len() - i,
    {
        assert(all[i as int] == rolls@[i as int].deep_view());
        if is_updated(&rolls[i]) {
            return true;
        }
        i += 1;
    }
    false
}

/// How many rolls a prune would look at.
pub fn prunable_count(rolls: &Vec<RollInfo>) -> (r: usize)
    ensures
        r == tally(rolls.deep_view(), |x: RollView| prunable(x)),
{
    let ghost all = rolls.deep_view();
    let ghost f = |x: RollView| prunable(x);
    let mut n: usize = 0;
    let mut i: usize = 0;
    while i < rolls.len()
        invariant
            i <= rolls@.len(),
            n <= i,
            all == rolls.deep_view(),
            f == (|x: RollView| prunable(x)),
            n == tally(all.take(i as int), f),
        decreases rolls@.len() - i,
    {
        assert(all.take(i + 1).drop_last() =~= all.take(i as int));
        assert(all[i as int] == rolls@[i as int].deep_view());
        if is_prunable(&rolls[i]) {
            n += 1;
        }
        i += 1;
    }
    assert(all.take(all.len() as int) =~= all);
    n
}

/// How many rolls a tidy would look at.
pub fn tidyable_count(rolls: &Vec<RollInfo>) -> (r: usize)
    ensures
        r == tally(rolls.deep_view(), |x: RollView| tidyable(x)),
{
    let ghost all = rolls.deep_view();
    let ghost f = |x: RollView| tidyable(x);
    let mut n: usize = 0;
    let mut i: usize = 0;
    while i < rolls.len()
        invariant
            i <= rolls@.len(),
            n <= i,
            all == rolls.deep_view(),
            f == (|x: RollView| tidyable(x)),
            n == tally(all.take(i as int), f),
        decreases rolls@.len() - i,
    {
        assert(all.take(i + 1).drop_last() =~= all.take(i as int));
        assert(all[i as int] == rolls@[i as int].deep_view());
        if is_tidy_candidate(&rolls[i]) {
            n += 1;
        }
        i += 1;
    }
    assert(all.take(all.len() as int) =~= all);
    n
}

proof fn lemma_tally(rolls: Seq<RollView>, f: spec_fn(RollView) -> bool)
    ensures
        tally(rolls, f) > 0 <==> exists|i: int| 0 <= i < rolls.len() && f(#[trigger] rolls[i]),
    decreases rolls.len(),
{
    if rolls.len() > 0 {
        let w = rolls.drop_last();
        lemma_tally(w, f);
        if exists|i: int| 0 <= i < rolls.len() && f(#[trigger] rolls[i]) {
            let i = choose|i: int| 0 <= i < rolls.len() && f(#[trigger] rolls[i]);
            if i < w.len() {
                assert(f(w[i]));
            }
        }
        if tally(rolls, f) > 0 {
            if f(rolls.last()) {
                assert(f(rolls[rolls.len() - 1]));
            } else {
                let i = choose|i: int| 0 <= i < w.len() && f(#[trigger] w[i]);
                assert(f(rolls[i]));
            }
        }
    }
}

/// Whether there is a promoted roll to prune.
pub fn can_prune(rolls: &Vec<RollInfo>) -> (r: bool)
    ensures
        r == exists|i: int| 0 <= i < rolls@.len() && prunable(#[trigger] rolls.deep_view()[i]),
{
    let n = prunable_count(rolls);
    proof {
        lemma_tally(rolls.deep_view(), |x: RollView| prunable(x));
        let f = |x: RollView| prunable(x);
        assert(forall|i: int| f(#[trigger] rolls.deep_view()[i]) == prunable(rolls.deep_view()[i]));
    }
    n > 0
}

/// Whether there is a local roll to tidy.
pub fn can_tidy(rolls: &Vec<RollInfo>) -> (r: bool)
    ensures
        r == exists|i: int| 0 <= i < rolls@.len() && tidyable(#[trigger] rolls.deep_view()[i]),
{
    let n = tidyable_count(rolls);
    proof {
        lemma_tally(rolls.deep_view(), |x: RollView| tidyable(x));
        let f = |x: RollView| tidyable(x);
        assert(forall|i: int| f(#[trigger] rolls.deep_view()[i]) == tidyable(rolls.deep_view()[i]));
    }
    n > 0
}

/// A roll that may be selected, by its characters.
pub open spec fn roll_view(selected: Option<&RollInfo>) -> Option<RollView> {
    match selected {
        Some(r) => Some(r.deep_view()),
        None => None,
    }
}

/// What a promotion carries, given the selection: the selected roll if it has
/// graduated, all of rolling if no roll is selected, and otherwise nothing.
pub open spec fn promotion_target(selected: Option<RollView>, rolls: Seq<RollView>) -> Result<
    Option<Seq<char>>,
    Seq<char>,
> {
    match selected {
        None => if exists|i: int| 0 <= i < rolls.len() && promotable(#[trigger] rolls[i]) {
            Ok(None)
        } else {
            Err("nothing to promote — no graduated rolls on rolling"@)
        },
        Some(sel) => match sel.state {
            RollState::Graduated => Ok(Some(sel.branch)),
            RollState::Diverged => Ok(Some(sel.branch)),
            RollState::Promoted => Err(sel.branch + " is already promoted"@),
            _ => Err(
                sel.branch + " is "@ + sel.state.label_text()
                    + " — only graduated rolls can be promoted"@,
            ),
        },
    }
}

/// What a promotion carries, given the selection.
pub fn promote_target_for(selected: Option<&RollInfo>, rolls: &Vec<RollInfo>) -> (r: Result<
    Option<String>,
    String,
>)
    ensures
        told(r) == promotion_target(roll_view(selected), rolls.deep_view()),
{
    match selected {
        None => {
            if can_promote(rolls) {
                Ok(None)
            } else {
                Err("nothing to promote — no graduated rolls on rolling".to_owned())
            }
        },
        Some(sel) => match sel.state {
            RollState::Graduated => Ok(Some(sel.branch.clone())),
            RollState::Diverged => Ok(Some(sel.branch.clone())),
            RollState::Promoted => Err(cat(sel.branch.as_str(), " is already promoted")),
            _ => Err(
                cat4(
                    sel.branch.as_str(),
                    " is ",
                    sel.state.label(),
                    " — only graduated rolls can be promoted",
                ),
            ),
        },
    }
}

/// The roll that would be merged into the branch that is checked out, or why
/// none is.
pub open spec fn integration_target(
    current: Seq<char>,
    roll_prefix: Seq<char>,
    selected: Option<RollView>,
) -> Result<Seq<char>, Seq<char>> {
    if !begins(current, roll_prefix) {
        Err("'"@ + current + "' is not a roll branch — integrate merges into a roll"@)
    } else {
        match selected {
            None => Err("no roll selected"@),
            Some(sel) => if sel.branch == current {
                Err("'"@ + sel.branch + "' is already the current branch"@)
            } else if !is_local(sel.location) {
                Err(
                    "'"@ + sel.branch
                        + "' exists only on origin — press [space] or [p] to get it locally first"@,
                )
            } else {
                Ok(sel.branch)
            },
        }
    }
}

/// The roll that would be merged into the branch that is checked out.
pub fn integrate_target_for(
    current_branch: &str,
    roll_prefix: &str,
    selected: Option<&RollInfo>,
) -> (r: Result<String, String>)
    ensures
        told(r) == integration_target(current_branch@, roll_prefix@, roll_view(selected)),
{
    if !starts_with(current_branch, roll_prefix) {
        return Err(
            cat3(
                "'",
                current_branch,
                "' is not a roll branch — integrate merges into a roll",
            ),
        );
    }
    match selected {
        None => Err("no roll selected".to_owned()),
        Some(sel) => {
            if same(sel.branch.as_str(), current_branch) {
                return Err(
                    cat3("'", sel.branch.as_str(), "' is already the current branch"),
                );
            }
            let local = matches!(sel.location, BranchLocation::Local | BranchLocation::Both);
            if !local {
                return Err(
                    cat3(
                        "'",
                        sel.branch.as_str(),
                        "' exists only on origin — press [space] or [p] to get it locally first",
                    ),
                );
            }
            Ok(sel.branch.clone())
        },
    }
}

/// Why an action may not go ahead; none where it may.
pub open spec fn objection(
    action: Action,
    selected: Option<RollView>,
    rolls: Seq<RollView>,
    current: Seq<char>,
    roll_prefix: Seq<char>,
) -> Option<Seq<char>> {
    match action {
        Action::Graduate => match selected {
            None => Some("no roll selected"@),
            Some(sel) => if sel.state is Active || sel.state is Diverged {
                None
            } else {
                Some(
                    sel.branch + " is "@ + sel.state.label_text()
                        + " — only active or diverged rolls can graduate"@,
                )
            },
        },
        Action::Integrate => match integration_target(current, roll_prefix, selected) {
            Ok(_) => None,
            Err(e) => Some(e),
        },
        Action::Promote => match promotion_target(selected, rolls) {
            Ok(_) => None,
            Err(e) => Some(e),
        },
        Action::Update => if exists|i: int| 0 <= i < rolls.len() && updates(#[trigger] rolls[i]) {
            None
        } else {
            Some("no active local rolls to update"@)
        },
        Action::Prune => if exists|i: int| 0 <= i < rolls.len() && prunable(#[trigger] rolls[i]) {
            None
        } else {
            Some("nothing to prune — no promoted roll branches"@)
        },
        Action::Tidy => if exists|i: int| 0 <= i < rolls.len() && tidyable(#[trigger] rolls[i]) {
            None
        } else {
            Some("nothing to tidy — no local graduated or promoted roll branches"@)
        },
    }
}

/// Decides whether an action may go ahead, and says why if not.
pub fn validate_action(
    action: Action,
    selected: Option<&RollInfo>,
    rolls: &Vec<RollInfo>,
    current_branch: &str,
    roll_prefix: &str,
) -> (r: Result<(), String>)
    ensures
        match objection(
            action,
            roll_view(selected),
            rolls.deep_view(),
            current_branch@,
            roll_prefix@,
        ) {
            None => r is Ok,
            Some(why) => r matches Err(e) && e@ == why,
        },
{
    match action {
        Action::Graduate => match selected {
            None => Err("no roll selected".to_owned()),
            Some(sel) => {
                if can_graduate(&sel.state) {
                    Ok(())
                } else {
                    Err(
                        cat4(
                            sel.branch.as_str(),
                            " is ",
                            sel.state.label(),
                            " — only active or diverged rolls can graduate",
                        ),
                    )
                }
            },
        },
        Action::Integrate => match integrate_target_for(current_branch, roll_prefix, selected) {
            Ok(_) => Ok(()),
            Err(e) => Err(e),
        },
        Action::Promote => match promote_target_for(selected, rolls) {
            Ok(_) => Ok(()),
            Err(e) => Err(e),
        },
        Action::Update => {
            if can_update(rolls) {
                Ok(())
            } else {
                Err("no active local rolls to update".to_owned())
            }
        },
        Action::Prune => {
            if can_prune(rolls) {
                Ok(())
            } else {
                Err("nothing to prune — no promoted roll branches".to_owned())
            }
        },
        Action::Tidy => {
            if can_tidy(rolls) {
                Ok(())
            } else {
                Err(
                    "nothing to tidy — no local graduated or promoted roll branches".to_owned(),
                )
            }
        },
    }
}

/// What a verification of the branch that is checked out would merge into
/// what; none where it is on no route.
pub fn verify_route_for(config: &Config, current_branch: &str) -> (r: Option<(String, String)>)
    ensures
        r.deep_view() == (match route_of(config.deep_view(), current_branch@) {
            Some(route) => Some(endpoints(config.deep_view(), route)),
            None => None,
        }),
{
    match infer_route(config, current_branch) {
        Some(route) => Some(route_endpoints(config, &route)),
        None => None,
    }
}

/// Adds the line that reports a version comparison, if there is one.
pub fn push_version_check(
    lines: &mut Vec<String>,
    check: &VersionCheck,
    source: &str,
    target: &str,
)
    ensures
        final(lines).deep_view() == old(lines).deep_view() + (match version_line_of(
            *check,
            source@,
            target@,
        ) {
            Some(l) => seq![l],
            None => seq![],
        }),
{
    let ghost before = lines.deep_view();
    match render_version_check(check, source, target) {
        Some(l) => {
            let ghost view = l@;
            lines.push(l);
            assert(lines.deep_view() =~= before + seq![view]);
        },
        None => {
            assert(before =~= before + Seq::<Seq<char>>::empty());
        },
    }
}

// ── Dependencies ────────────────────────────────────────────────────────────

/// One dependency in the detail view.
#[derive(Debug)]
pub struct DepRow {
    pub number: u32,
    pub branch: String,
    pub state: RollState,
    pub is_blocker: bool,
}

/// [`DepRow`] by its characters.
pub struct DepRowView {
    pub number: u32,
    pub branch: Seq<char>,
    pub state: RollState,
    pub is_blocker: bool,
}

impl DeepView for DepRow {
    type V = DepRowView;

    open spec fn deep_view(&self) -> DepRowView {
        DepRowView {
            number: self.number,
            branch: self.branch@,
            state: self.state,
            is_blocker: self.is_blocker,
        }
    }
}

/// Whether a roll has reached rolling for good.
pub open spec fn settled(state: RollState) -> bool {
    state is Graduated || state is Promoted
}

/// The first roll with this number.
pub open spec fn roll_numbered(rolls: Seq<RollView>, number: u32) -> Option<RollView>
    decreases rolls.len(),
{
    if rolls.len() == 0 {
        None
    } else if rolls[0].number == number {
        Some(rolls[0])
    } else {
        roll_numbered(rolls.skip(1), number)
    }
}

/// The first roll with this number.
pub fn find_number<'a>(rolls: &'a Vec<RollInfo>, number: u32) -> (r: Option<&'a RollInfo>)
    ensures
        roll_view(r) == roll_numbered(rolls.deep_view(), number),
{
    let ghost all = rolls.deep_view();
    let mut i: usize = 0;
    assert(all.skip(0) =~= all);
    while i < rolls.len()
        invariant
            i <= rolls@.len(),
            all == rolls.deep_view(),
            roll_numbered(all, number) == roll_numbered(all.skip(i as int), number),
        decreases rolls@.len() - i,
    {
        assert(all.skip(i as int).skip(1) =~= all.skip(i + 1));
        assert(all.skip(i as int)[0] == rolls@[i as int].deep_view());
        if rolls[i].number == number {
            return Some(&rolls[i]);
        }
        i += 1;
    }
    None
}

/// The row of a dependency.
pub open spec fn dep_row(all: Seq<RollView>, number: u32) -> Option<DepRowView> {
    match roll_numbered(all, number) {
        Some(d) => Some(
            DepRowView {
                number: d.number,
                branch: d.branch,
                state: d.state,
                is_blocker: !settled(d.state),
            },
        ),
        None => None,
    }
}

/// The rows of a roll's dependencies; numbers that are not listed are left out.
pub fn dep_rows(selected: &RollInfo, all: &Vec<RollInfo>) -> (r: Vec<DepRow>)
    ensures
        r.deep_view() == kept(
            selected.deep_view().deps,
            |n: u32| dep_row(all.deep_view(), n),
        ),
{
    let ghost nums = selected.deps@;
    let ghost av = all.deep_view();
    let ghost f = |n: u32| dep_row(av, n);
    let mut r: Vec<DepRow> = Vec::new();
    let mut i: usize = 0;
    proof {
        lemma_kept_ends(nums, f);
    }
    assert(r.deep_view() =~= seq![]);
    while i < selected.deps.len()
        invariant
            i <= selected.deps@.len(),
            nums == selected.deps@,
            av == all.deep_view(),
            f == (|n: u32| dep_row(av, n)),
            r.deep_view() == kept(nums.take(i as int), f),
        decreases selected.deps@.len() - i,
    {
        proof {
            lemma_kept_step(nums, i as int, f);
        }
        let ghost before = r.deep_view();
        match find_number(all, selected.deps[i]) {
            Some(d) => {
                let row = DepRow {
                    number: d.number,
                    branch: d.branch.clone(),
                    state: d.state,
                    is_blocker: !matches!(d.state, RollState::Graduated | RollState::Promoted),
                };
                let ghost view = row.deep_view();
                r.push(row);
                assert(r.deep_view() =~= before.push(view));
            },
            None => {},
        }
        i += 1;
    }
    r
}

/// The row of a dependent of `target`: while the target is not settled, it
/// holds the dependent back. A roll is never its own dependent.
pub open spec fn dependent_row(target: RollView, all: Seq<RollView>, number: u32) -> Option<
    DepRowView,
> {
    if number == target.number {
        None
    } else {
        match roll_numbered(all, number) {
            Some(d) => Some(
                DepRowView {
                    number: d.number,
                    branch: d.branch,
                    state: d.state,
                    is_blocker: !settled(target.state),
                },
            ),
            None => None,
        }
    }
}

/// The rows of the rolls that depend on a roll.
pub fn dependent_rows(target: &RollInfo, all: &Vec<RollInfo>) -> (r: Vec<DepRow>)
    ensures
        r.deep_view() == kept(
            target.deep_view().dependents,
            |n: u32| dependent_row(target.deep_view(), all.deep_view(), n),
        ),
{
    let ghost nums = target.dependents@;
    let ghost av = all.deep_view();
    let ghost tv = target.deep_view();
    let ghost f = |n: u32| dependent_row(tv, av, n);
    let gates = !matches!(target.state, RollState::Graduated | RollState::Promoted);
    let mut r: Vec<DepRow> = Vec::new();
    let mut i: usize = 0;
    proof {
        lemma_kept_ends(nums, f);
    }
    assert(r.deep_view() =~= seq![]);
    while i < target.dependents.len()
        invariant
            i <= target.dependents@.len(),
            nums == target.dependents@,
            av == all.deep_view(),
            tv == target.deep_view(),
            gates == !settled(tv.state),
            f == (|n: u32| dependent_row(tv, av, n)),
            r.deep_view() == kept(nums.take(i as int), f),
        decreases target.dependents@.len() - i,
    {
        proof {
            lemma_kept_step(nums, i as int, f);
        }
        let ghost before = r.deep_view();
        let n = target.dependents[i];
        if n != target.number {
            match find_number(all, n) {
                Some(d) => {
                    let row = DepRow {
                        number: d.number,
                        branch: d.branch.clone(),
                        state: d.state,
                        is_blocker: gates,
                    };
                    let ghost view = row.deep_view();
                    r.push(row);
                    assert(r.deep_view() =~= before.push(view));
                },
                None => {},
            }
        }
        i += 1;
    }
    r
}

// ── Naming a new roll ───────────────────────────────────────────────────────

/// What a key in the naming prompt asks for.
#[derive(Debug, Clone, Copy, PartialEq, Eq, Structural)]
pub enum InputOutcome {
    Continue,
    Cancel,
    Submit,
}

/// What a key in the naming prompt does to the text, and asks for.
pub open spec fn input_step(buffer: Seq<char>, code: KeyCode) -> (Seq<char>, InputOutcome) {
    match code {
        KeyCode::Esc => (buffer, InputOutcome::Cancel),
        KeyCode::Enter => (buffer, InputOutcome::Submit),
        KeyCode::Backspace => (
            if buffer.len() == 0 {
                buffer
            } else {
                buffer.drop_last()
            },
            InputOutcome::Continue,
        ),
        KeyCode::Char(c) => (
            if control(c) {
                buffer
            } else {
                buffer.push(c)
            },
            InputOutcome::Continue,
        ),
        _ => (buffer, InputOutcome::Continue),
    }
}

/// Applies a key to the naming prompt.
pub fn handle_create_key(buffer: &mut String, code: KeyCode) -> (r: InputOutcome)
    ensures
        (final(buffer)@, r) == input_step(old(buffer)@, code),
{
    match code {
        KeyCode::Esc => InputOutcome::Cancel,
        KeyCode::Enter => InputOutcome::Submit,
        KeyCode::Backspace => {
            drop_last_char(buffer);
            InputOutcome::Continue
        },
        KeyCode::Char(c) => {
            if !is_control(c) {
                buffer.push(c);
            }
            InputOutcome::Continue
        },
        _ => InputOutcome::Continue,
    }
}

/// Whether a text holds more than white space.
pub fn is_submittable_slug(buffer: &str) -> (r: bool)
    ensures
        r == (trimmed(buffer@).len() > 0),
{
    !trim(buffer).is_empty()
}

// ── Deleting a branch ───────────────────────────────────────────────────────

/// Which copies of a branch a deletion is about.
#[derive(Debug, Clone, Copy, PartialEq, Eq, Structural)]
pub enum DeleteScope {
    Local,
    Remote,
    Both,
}

/// What the deletion prompt asks.
#[derive(Debug, Clone, Copy, PartialEq, Eq, Structural)]
pub enum DeletePrompt {
    /// Yes or no, about one copy.
    Single(DeleteScope),
    /// Which of the two copies.
    Choice,
    /// Yes or no once more, because commits would be lost.
    ForceConfirm(DeleteScope),
}

/// What a key in the deletion prompt asks for.
#[derive(Debug, Clone, Copy, PartialEq, Eq, Structural)]
pub enum DeleteOutcome {
    Ignore,
    Cancel,
    Confirm(DeleteScope),
}

/// What the deletion prompt shows and decides by.
#[derive(Debug, Clone, PartialEq, Eq)]
pub struct DeletePreview {
    pub branch: String,
    pub prompt: DeletePrompt,
    /// How many commits the local copy holds that stable lacks; `None` where
    /// that is unknown.
    pub local_unmerged: Option<u32>,
    /// The same for the copy on `origin`.
    pub remote_unmerged: Option<u32>,
    /// Whether the local copy stays because it is checked out.
    pub local_is_checked_out: bool,
}

/// [`DeletePreview`] by its characters.
pub struct DeletePreviewView {
    pub branch: Seq<char>,
    pub prompt: DeletePrompt,
    pub local_unmerged: Option<u32>,
    pub remote_unmerged: Option<u32>,
    pub local_is_checked_out: bool,
}

impl DeepView for DeletePreview {
    type V = DeletePreviewView;

    open spec fn deep_view(&self) -> DeletePreviewView {
        DeletePreviewView {
            branch: self.branch@,
            prompt: self.prompt,
            local_unmerged: self.local_unmerged,
            remote_unmerged: self.remote_unmerged,
            local_is_checked_out: self.local_is_checked_out,
        }
    }
}

/// What the deletion prompt asks about a roll, or why there is none. The local
/// copy of the checked-out branch is never on offer.
pub open spec fn prompt_for(roll: RollView) -> Result<DeletePrompt, Seq<char>> {
    match roll.location {
        BranchLocation::Neither => Err(roll.branch + " no longer exists"@),
        BranchLocation::Local => if roll.is_current {
            Err(roll.branch + " is checked out — switch away before deleting it"@)
        } else {
            Ok(DeletePrompt::Single(DeleteScope::Local))
        },
        BranchLocation::Remote => Ok(DeletePrompt::Single(DeleteScope::Remote)),
        BranchLocation::Both => if roll.is_current {
            Ok(DeletePrompt::Single(DeleteScope::Remote))
        } else {
            Ok(DeletePrompt::Choice)
        },
    }
}

/// What the deletion prompt asks about a roll.
pub fn delete_prompt(roll: &RollInfo) -> (r: Result<DeletePrompt, String>)
    ensures
        match r {
            Ok(p) => prompt_for(roll.deep_view()) == Ok::<DeletePrompt, Seq<char>>(p),
            Err(e) => prompt_for(roll.deep_view()) == Err::<DeletePrompt, Seq<char>>(e@),
        },
{
    match roll.location {
        BranchLocation::Neither => Err(cat(roll.branch.as_str(), " no longer exists")),
        BranchLocation::Local => {
            if roll.is_current {
                Err(
                    cat(
                        roll.branch.as_str(),
                        " is checked out — switch away before deleting it",
                    ),
                )
            } else {
                Ok(DeletePrompt::Single(DeleteScope::Local))
            }
        },
        BranchLocation::Remote => Ok(DeletePrompt::Single(DeleteScope::Remote)),
        BranchLocation::Both => {
            if roll.is_current {
                Ok(DeletePrompt::Single(DeleteScope::Remote))
            } else {
                Ok(DeletePrompt::Choice)
            }
        },
    }
}

/// Whether a copy may hold commits that would be lost. Not knowing counts.
pub open spec fn may_lose(count: Option<u32>) -> bool {
    match count {
        Some(n) => n > 0,
        None => true,
    }
}

/// Whether deleting these copies needs a second confirmation.
pub open spec fn asks_twice(scope: DeleteScope, p: DeletePreviewView) -> bool {
    match scope {
        DeleteScope::Local => may_lose(p.local_unmerged),
        DeleteScope::Remote => may_lose(p.remote_unmerged),
        DeleteScope::Both => may_lose(p.local_unmerged) || may_lose(p.remote_unmerged),
    }
}

fn loses(count: Option<u32>) -> (r: bool)
    ensures
        r == may_lose(count),
{
    match count {
        Some(n) => n > 0,
        None => true,
    }
}

/// Whether deleting these copies needs a second confirmation.
pub fn needs_force_confirm(scope: DeleteScope, preview: &DeletePreview) -> (r: bool)
    ensures
        r == asks_twice(scope, preview.deep_view()),
{
    match scope {
        DeleteScope::Local => loses(preview.local_unmerged),
        DeleteScope::Remote => loses(preview.remote_unmerged),
        DeleteScope::Both => loses(preview.local_unmerged) || loses(preview.remote_unmerged),
    }
}

/// The larger of two counts, as far as they are known.
pub open spec fn worst(a: Option<u32>, b: Option<u32>) -> Option<u32> {
    match (a, b) {
        (Some(x), Some(y)) => if x > y {
            Some(x)
        } else {
            Some(y)
        },
        (Some(x), None) => Some(x),
        (None, _) => b,
    }
}

/// The most commits that a copy in scope would lose, as far as known.
pub fn unmerged_for_scope(scope: DeleteScope, preview: &DeletePreview) -> (r: Option<u32>)
    ensures
        r == (match scope {
            DeleteScope::Local => preview.deep_view().local_unmerged,
            DeleteScope::Remote => preview.deep_view().remote_unmerged,
            DeleteScope::Both => worst(
                preview.deep_view().local_unmerged,
                preview.deep_view().remote_unmerged,
            ),
        }),
{
    match scope {
        DeleteScope::Local => preview.local_unmerged,
        DeleteScope::Remote => preview.remote_unmerged,
        DeleteScope::Both => match (preview.local_unmerged, preview.remote_unmerged) {
            (Some(x), Some(y)) => if x > y {
                Some(x)
            } else {
                Some(y)
            },
            (Some(x), None) => Some(x),
            (None, b) => b,
        },
    }
}

/// What a key in the deletion prompt asks for. Nothing happens without a
/// deliberate yes; where there are two copies, a bare yes means nothing.
pub open spec fn delete_answer(prompt: DeletePrompt, code: KeyCode) -> DeleteOutcome {
    if declines(code) {
        DeleteOutcome::Cancel
    } else {
        match prompt {
            DeletePrompt::Choice => if code == KeyCode::Char('l') || code == KeyCode::Char('L') {
                DeleteOutcome::Confirm(DeleteScope::Local)
            } else if code == KeyCode::Char('r') || code == KeyCode::Char('R') {
                DeleteOutcome::Confirm(DeleteScope::Remote)
            } else if code == KeyCode::Char('b') || code == KeyCode::Char('B') {
                DeleteOutcome::Confirm(DeleteScope::Both)
            } else {
                DeleteOutcome::Ignore
            },
            DeletePrompt::Single(scope) => if accepts(code) {
                DeleteOutcome::Confirm(scope)
            } else {
                DeleteOutcome::Ignore
            },
            DeletePrompt::ForceConfirm(scope) => if accepts(code) {
                DeleteOutcome::Confirm(scope)
            } else {
                DeleteOutcome::Ignore
            },
        }
    }
}

/// What a key in the deletion prompt asks for.
pub fn handle_delete_key(prompt: DeletePrompt, code: KeyCode) -> (r: DeleteOutcome)
    ensures
        r == delete_answer(prompt, code),
{
    match code {
        KeyCode::Esc => DeleteOutcome::Cancel,
        KeyCode::Char('n') => DeleteOutcome::Cancel,
        KeyCode::Char('N') => DeleteOutcome::Cancel,
        KeyCode::Char(c) => match prompt {
            DeletePrompt::Choice => {
                if c == 'l' || c == 'L' {
                    DeleteOutcome::Confirm(DeleteScope::Local)
                } else if c == 'r' || c == 'R' {
                    DeleteOutcome::Confirm(DeleteScope::Remote)
                } else if c == 'b' || c == 'B' {
                    DeleteOutcome::Confirm(DeleteScope::Both)
                } else {
                    DeleteOutcome::Ignore
                }
            },
            DeletePrompt::Single(scope) => {
                if c == 'y' || c == 'Y' {
                    DeleteOutcome::Confirm(scope)
                } else {
                    DeleteOutcome::Ignore
                }
            },
            DeletePrompt::ForceConfirm(scope) => {
                if c == 'y' || c == 'Y' {
                    DeleteOutcome::Confirm(scope)
                } else {
                    DeleteOutcome::Ignore
                }
            },
        },
        _ => DeleteOutcome::Ignore,
    }
}

/// The scope of a deletion: remote refs are refreshed exactly when the remote
/// copy is in it.
pub open spec fn scope_for(scope: DeleteScope, force: bool) -> PruneScope {
    PruneScope {
        local: scope is Local || scope is Both,
        remote: scope is Remote || scope is Both,
        force,
        fetch: scope is Remote || scope is Both,
    }
}

/// The scope of a deletion.
pub fn prune_scope_for(scope: DeleteScope, force: bool) -> (r: PruneScope)
    ensures
        r == scope_for(scope, force),
{
    let remote = matches!(scope, DeleteScope::Remote | DeleteScope::Both);
    PruneScope {
        local: matches!(scope, DeleteScope::Local | DeleteScope::Both),
        remote,
        force,
        fetch: remote,
    }
}

/// The copies of a scope in words.
pub open spec fn scope_text(scope: DeleteScope) -> Seq<char> {
    match scope {
        DeleteScope::Local => "local"@,
        DeleteScope::Remote => "origin"@,
        DeleteScope::Both => "local + origin"@,
    }
}

/// The copies of a scope in words.
pub fn scope_label(scope: DeleteScope) -> (r: &'static str)
    ensures
        r@ == scope_text(scope),
{
    match scope {
        DeleteScope::Local => "local",
        DeleteScope::Remote => "origin",
        DeleteScope::Both => "local + origin",
    }
}

/// The ending that makes a word plural.
pub open spec fn plural_ending(n: int) -> Seq<char> {
    if n == 1 {
        ""@
    } else {
        "s"@
    }
}

/// The ending that makes a word plural.
pub fn plural(n: u32) -> (r: &'static str)
    ensures
        r@ == plural_ending(n as int),
{
    if n == 1 {
        ""
    } else {
        "s"
    }
}

// ── Switching and integrating ───────────────────────────────────────────────

/// The commands of a switch, and what is said after each.
pub open spec fn switch_steps(current: Seq<char>, branch: Seq<char>, location: BranchLocation) -> (
    Seq<Seq<Seq<char>>>,
    Seq<Seq<char>>,
) {
    let fetch = seq!["fetch"@, "origin"@, branch];
    let switch = seq!["switch"@, branch];
    if branch == current {
        (seq![], seq!["Already on '"@ + branch + "'"@])
    } else if location is Remote {
        (
            seq![fetch, switch],
            seq!["Fetched origin/"@ + branch, "Switched to '"@ + branch + "'"@],
        )
    } else {
        (seq![switch], seq!["Switched to '"@ + branch + "'"@])
    }
}

/// The commands of a switch, and what is said once they have run. A branch that
/// is only on `origin` is fetched first.
pub fn run_switch(current_branch: &str, branch: &str, location: &BranchLocation) -> (r: (
    Vec<Vec<String>>,
    Vec<String>,
))
    ensures
        r.0.deep_view() == switch_steps(current_branch@, branch@, *location).0,
        r.1.deep_view() == switch_steps(current_branch@, branch@, *location).1,
{
    let mut commands: Vec<Vec<String>> = Vec::new();
    let mut lines: Vec<String> = Vec::new();
    if same(branch, current_branch) {
        lines.push(cat3("Already on '", branch, "'"));
        assert(commands.deep_view() =~= seq![]);
        assert(lines.deep_view() =~= seq!["Already on '"@ + branch@ + "'"@]);
        return (commands, lines);
    }
    let ghost steps = switch_steps(current_branch@, branch@, *location);
    if matches!(location, BranchLocation::Remote) {
        let fetch = vec!["fetch".to_owned(), "origin".to_owned(), owned(branch)];
        assert(fetch.deep_view() =~= seq!["fetch"@, "origin"@, branch@]);
        commands.push(fetch);
        lines.push(cat("Fetched origin/", branch));
    }
    let switch = vec!["switch".to_owned(), owned(branch)];
    assert(switch.deep_view() =~= seq!["switch"@, branch@]);
    commands.push(switch);
    lines.push(cat3("Switched to '", branch, "'"));
    assert(commands.deep_view() =~= steps.0);
    assert(lines.deep_view() =~= steps.1);
    (commands, lines)
}

/// A failed integration as a failure: where it left a merge open, how to go on.
pub fn integrate_error(err: &Failure, merge_open: bool) -> (r: Failure)
    ensures
        r.deep_view() == (if merge_open {
            seq![
                crate::failure::headline(err.deep_view())
                    + "\nmerge left conflicts — resolve them and commit,\npress gg for lazygit, or run `git merge --abort`"@,
            ]
        } else {
            err.deep_view()
        }),
{
    if merge_open {
        let text = err.to_string();
        return Failure::msg(
            cat(
                text.as_str(),
                "\nmerge left conflicts — resolve them and commit,\npress gg for lazygit, or run `git merge --abort`",
            ),
        );
    }
    err.copy()
}

// ── Laws ────────────────────────────────────────────────────────────────────

/// A promotion that was asked for on a roll never widens to all of rolling.
pub proof fn law_promotion_never_widens(sel: RollView, rolls: Seq<RollView>)
    ensures
        promotion_target(Some(sel), rolls) is Ok ==> promotion_target(Some(sel), rolls) == Ok::<
            Option<Seq<char>>,
            Seq<char>,
        >(Some(sel.branch)),
{
}

/// Only a yes deletes where there is one copy, and never a bare yes where there
/// are two; Enter deletes nothing.
pub proof fn law_deleting_needs_a_deliberate_key(prompt: DeletePrompt, code: KeyCode)
    ensures
        delete_answer(prompt, code) is Confirm && prompt !is Choice ==> accepts(code),
        delete_answer(DeletePrompt::Choice, code) is Confirm ==> !accepts(code),
        delete_answer(prompt, KeyCode::Enter) is Ignore,
{
}

/// The prompt never offers the local copy of the checked-out branch.
pub proof fn law_checked_out_copy_is_not_offered(roll: RollView)
    requires
        roll.is_current,
    ensures
        prompt_for(roll) is Err || prompt_for(roll) == Ok::<DeletePrompt, Seq<char>>(
            DeletePrompt::Single(DeleteScope::Remote),
        ),
{
}

/// Only an explicit yes forces a push.
pub proof fn law_forcing_needs_a_yes(code: KeyCode)
    ensures
        force_answer(code) is Force <==> accepts(code),
{
}

/// A dependency that has graduated or been promoted is no blocker, and any
/// other is.
pub proof fn law_blockers_are_unsettled(all: Seq<RollView>, number: u32)
    requires
        dep_row(all, number) is Some,
    ensures
        dep_row(all, number)->Some_0.is_blocker <==> !settled(dep_row(all, number)->Some_0.state),
{
}

/// What an action needs. Graduating needs a selected roll that is active or has
/// diverged; an update a local roll that has not graduated; a prune a promoted
/// roll; a tidy a local roll that has graduated or been promoted.
pub proof fn law_actions_need_fitting_rolls(
    selected: Option<RollView>,
    rolls: Seq<RollView>,
    current: Seq<char>,
    roll_prefix: Seq<char>,
)
    ensures
        objection(Action::Graduate, selected, rolls, current, roll_prefix) is None <==> (
        selected matches Some(sel) && (sel.state is Active || sel.state is Diverged)),
        objection(Action::Update, selected, rolls, current, roll_prefix) is None <==> exists|i: int|
            0 <= i < rolls.len() && ((#[trigger] rolls[i]).state is Active
                || rolls[i].state is Blocked) && (rolls[i].location is Local
                || rolls[i].location is Both),
        objection(Action::Prune, selected, rolls, current, roll_prefix) is None <==> exists|i: int|
            0 <= i < rolls.len() && (#[trigger] rolls[i]).state is Promoted,
        objection(Action::Tidy, selected, rolls, current, roll_prefix) is None <==> exists|i: int|
            0 <= i < rolls.len() && ((#[trigger] rolls[i]).state is Graduated
                || rolls[i].state is Promoted) && (rolls[i].location is Local
                || rolls[i].location is Both),
{
    let states = tidied_states();
    assert(states[0] == RollState::Graduated && states[1] == RollState::Promoted);
    assert forall|i: int| 0 <= i < rolls.len() implies tidyable(#[trigger] rolls[i]) == ((
    rolls[i].state is Graduated || rolls[i].state is Promoted) && (rolls[i].location is Local
        || rolls[i].location is Both)) by {
        if states.contains(rolls[i].state) {
            let k = choose|k: int| 0 <= k < states.len() && states[k] == rolls[i].state;
            assert(k == 0 || k == 1);
        }
        if rolls[i].state is Graduated {
            assert(states[0] == rolls[i].state);
        }
        if rolls[i].state is Promoted {
            assert(states[1] == rolls[i].state);
        }
    }
    assert(forall|i: int|
        0 <= i < rolls.len() ==> updates(#[trigger] rolls[i]) == ((rolls[i].state is Active
            || rolls[i].state is Blocked) && (rolls[i].location is Local
            || rolls[i].location is Both)));
    assert(forall|i: int|
        0 <= i < rolls.len() ==> prunable(#[trigger] rolls[i]) == (rolls[i].state is Promoted));
    if exists|i: int|
        0 <= i < rolls.len() && ((#[trigger] rolls[i]).state is Active || rolls[i].state is Blocked)
            && (rolls[i].location is Local || rolls[i].location is Both) {
        let i = choose|i: int|
            0 <= i < rolls.len() && ((#[trigger] rolls[i]).state is Active
                || rolls[i].state is Blocked) && (rolls[i].location is Local
                || rolls[i].location is Both);
        assert(updates(rolls[i]));
    }
    if exists|i: int| 0 <= i < rolls.len() && (#[trigger] rolls[i]).state is Promoted {
        let i = choose|i: int| 0 <= i < rolls.len() && (#[trigger] rolls[i]).state is Promoted;
        assert(prunable(rolls[i]));
    }
    if exists|i: int|
        0 <= i < rolls.len() && ((#[trigger] rolls[i]).state is Graduated
            || rolls[i].state is Promoted) && (rolls[i].location is Local
            || rolls[i].location is Both) {
        let i = choose|i: int|
            0 <= i < rolls.len() && ((#[trigger] rolls[i]).state is Graduated
                || rolls[i].state is Promoted) && (rolls[i].location is Local
                || rolls[i].location is Both);
        assert(tidyable(rolls[i]));
    }
}

/// A promotion carries the selected roll if it is on rolling and not on stable, and
/// all of rolling if no roll is selected and rolling has one to carry; otherwise it
/// carries nothing.
pub proof fn law_promotions_carry_graduated_rolls(
    selected: Option<RollView>,
    rolls: Seq<RollView>,
)
    ensures
        promotion_target(selected, rolls) is Ok <==> (match selected {
            Some(sel) => sel.state is Graduated || sel.state is Diverged,
            None => exists|i: int|
                0 <= i < rolls.len() && ((#[trigger] rolls[i]).state is Graduated
                    || rolls[i].state is Diverged),
        }),
        promotion_target(selected, rolls) matches Ok(t) ==> t == (match selected {
            Some(sel) => Some(sel.branch),
            None => None,
        }),
{
    assert(forall|i: int|
        0 <= i < rolls.len() ==> promotable(#[trigger] rolls[i]) == (rolls[i].state is Graduated
            || rolls[i].state is Diverged));
    if exists|i: int|
        0 <= i < rolls.len() && ((#[trigger] rolls[i]).state is Graduated
            || rolls[i].state is Diverged) {
        let i = choose|i: int|
            0 <= i < rolls.len() && ((#[trigger] rolls[i]).state is Graduated
                || rolls[i].state is Diverged);
        assert(promotable(rolls[i]));
    }
}

/// A roll is integrated exactly when a roll branch is checked out and the selected
/// roll is another one with a local copy.
pub proof fn law_integration_is_from_another_local_roll(
    current: Seq<char>,
    roll_prefix: Seq<char>,
    selected: Option<RollView>,
)
    ensures
        integration_target(current, roll_prefix, selected) is Ok <==> current.len()
            >= roll_prefix.len() && current.take(roll_prefix.len() as int) == roll_prefix && (
        selected matches Some(sel) && sel.branch != current && (sel.location is Local
            || sel.location is Both)),
        integration_target(current, roll_prefix, selected) matches Ok(b) ==> b
            == selected->0.branch,
{
}

/// The prompt offers the copies that there are: a choice between the two where both
/// exist and neither is checked out, and one alone where only one can go.
pub proof fn law_prompts_offer_the_copies(roll: RollView)
    ensures
        ({
            let p = prompt_for(roll);
            &&& p is Err <==> roll.location is Neither || (roll.location is Local
                && roll.is_current)
            &&& p == Ok::<DeletePrompt, Seq<char>>(DeletePrompt::Choice) <==> roll.location is Both
                && !roll.is_current
            &&& p == Ok::<DeletePrompt, Seq<char>>(DeletePrompt::Single(DeleteScope::Local))
                <==> roll.location is Local && !roll.is_current
            &&& p == Ok::<DeletePrompt, Seq<char>>(DeletePrompt::Single(DeleteScope::Remote))
                <==> roll.location is Remote || (roll.location is Both && roll.is_current)
        }),
{
}

/// The keys of the deletion prompt: `n` and Esc cancel, `y` confirms what was
/// asked, and where there are two copies `l`, `r` and `b` say which; every other key
/// is ignored.
pub proof fn law_deletion_keys(code: KeyCode, scope: DeleteScope)
    ensures
        ({
            let is = |a: char, b: char| code == KeyCode::Char(a) || code == KeyCode::Char(b);
            let no = is('n', 'N') || code is Esc;
            let yes = is('y', 'Y');
            let choice = delete_answer(DeletePrompt::Choice, code);
            let single = delete_answer(DeletePrompt::Single(scope), code);
            let again = delete_answer(DeletePrompt::ForceConfirm(scope), code);
            &&& choice is Cancel <==> no
            &&& single is Cancel <==> no
            &&& again is Cancel <==> no
            &&& choice == DeleteOutcome::Confirm(DeleteScope::Local) <==> is('l', 'L')
            &&& choice == DeleteOutcome::Confirm(DeleteScope::Remote) <==> is('r', 'R')
            &&& choice == DeleteOutcome::Confirm(DeleteScope::Both) <==> is('b', 'B')
            &&& single is Confirm <==> yes
            &&& again is Confirm <==> yes
            &&& yes ==> single == DeleteOutcome::Confirm(scope) && again == DeleteOutcome::Confirm(
                scope,
            )
        }),
{
}

/// A deletion is asked about twice where a copy that would go holds commits which
/// stable lacks, or where that is not known.
pub proof fn law_lost_commits_are_asked_about(p: DeletePreviewView)
    ensures
        asks_twice(DeleteScope::Local, p) <==> p.local_unmerged != Some(0u32),
        asks_twice(DeleteScope::Remote, p) <==> p.remote_unmerged != Some(0u32),
        asks_twice(DeleteScope::Both, p) <==> p.local_unmerged != Some(0u32) || p.remote_unmerged
            != Some(0u32),
{
}

/// The scope of a deletion has the copies that were chosen, and refreshes the
/// remote's references exactly when its copy is one of them.
pub proof fn law_scopes_have_the_chosen_copies(scope: DeleteScope, force: bool)
    ensures
        scope_for(scope, force).force == force,
        scope_for(scope, force).local <==> scope is Local || scope is Both,
        scope_for(scope, force).remote <==> scope is Remote || scope is Both,
        scope_for(scope, force).fetch <==> scope_for(scope, force).remote,
{
}

/// The worse of two counts is the larger one, and the one that is known where only
/// one is.
pub proof fn law_worst_counts(a: Option<u32>, b: Option<u32>)
    ensures
        a is Some && b is Some ==> worst(a, b) is Some && worst(a, b)->0 >= a->0 && worst(a, b)->0
            >= b->0 && (worst(a, b) == a || worst(a, b) == b),
        a is None ==> worst(a, b) == b,
        b is None ==> worst(a, b) == a,
{
}

/// The keys of the bump prompt: the digits name the levels from the least up, `n`
/// and Esc cancel, and every other key is ignored.
pub proof fn law_bump_keys(code: KeyCode)
    ensures
        bump_answer(code) == BumpOutcome::Level(BumpLevel::Patch) <==> code == KeyCode::Char('1'),
        bump_answer(code) == BumpOutcome::Level(BumpLevel::Minor) <==> code == KeyCode::Char('2'),
        bump_answer(code) == BumpOutcome::Level(BumpLevel::Major) <==> code == KeyCode::Char('3'),
        bump_answer(code) is Cancel <==> code == KeyCode::Char('n') || code == KeyCode::Char('N')
            || code is Esc,
{
}

/// The keys of the force-push prompt: `y` forces, `n` and Esc cancel, and every
/// other key is ignored.
pub proof fn law_force_push_keys(code: KeyCode)
    ensures
        force_answer(code) is Force <==> code == KeyCode::Char('y') || code == KeyCode::Char('Y'),
        force_answer(code) is Cancel <==> code == KeyCode::Char('n') || code == KeyCode::Char('N')
            || code is Esc,
{
}

/// The keys of the naming prompt: Esc cancels, Enter submits, Backspace takes the
/// last character off, and a character that is no control character is put behind
/// the rest.
pub proof fn law_naming_keys(buffer: Seq<char>, code: KeyCode, c: char)
    ensures
        input_step(buffer, code).1 is Cancel <==> code is Esc,
        input_step(buffer, code).1 is Submit <==> code is Enter,
        code is Esc || code is Enter ==> input_step(buffer, code).0 == buffer,
        buffer.len() > 0 ==> input_step(buffer, KeyCode::Backspace).0 == buffer.take(
            buffer.len() - 1,
        ),
        !control(c) ==> input_step(buffer, KeyCode::Char(c)).0 == buffer.push(c),
        control(c) ==> input_step(buffer, KeyCode::Char(c)).0 == buffer,
{
    if buffer.len() > 0 {
        assert(buffer.drop_last() =~= buffer.take(buffer.len() - 1));
    }
}

/// A switch goes to the branch unless it is checked out already, and fetches it
/// first exactly when it is on `origin` alone.
pub proof fn law_switches_end_on_the_branch(
    current: Seq<char>,
    branch: Seq<char>,
    location: BranchLocation,
)
    ensures
        ({
            let (commands, said) = switch_steps(current, branch, location);
            &&& branch == current ==> commands.len() == 0
            &&& branch != current ==> commands.last() == seq!["switch"@, branch]
            &&& branch != current && location is Remote ==> commands.len() == 2 && commands[0]
                == seq!["fetch"@, "origin"@, branch]
            &&& branch != current && location !is Remote ==> commands.len() == 1
        }),
{
}

/// A number finds the first roll that has it: `k` is its place, or the number of the
/// rolls where none has it.
pub proof fn law_rolls_are_found_by_number(rolls: Seq<RollView>, number: u32, k: int)
    requires
        0 <= k <= rolls.len(),
        k < rolls.len() ==> rolls[k].number == number,
        forall|j: int| 0 <= j < k ==> (#[trigger] rolls[j]).number != number,
    ensures
        k < rolls.len() ==> roll_numbered(rolls, number) == Some(rolls[k]),
        k == rolls.len() ==> roll_numbered(rolls, number) is None,
    decreases k,
{
    if k > 0 {
        assert(rolls[0].number != number);
        assert forall|j: int| 0 <= j < k - 1 implies (#[trigger] rolls.skip(1)[j]).number
            != number by {
            assert(rolls[j + 1].number != number);
        }
        law_rolls_are_found_by_number(rolls.skip(1), number, k - 1);
    }
}

/// A dependency is shown as the first roll with its number, and as a blocker
/// exactly when that roll has neither graduated nor been promoted. A dependent is
/// shown likewise, held back exactly when the roll it depends on has not; a roll is
/// never its own dependent. `k` is the place of the first roll with the number, or
/// the number of the rolls where there is none.
pub proof fn law_dependencies_are_shown(target: RollView, all: Seq<RollView>, number: u32, k: int)
    requires
        0 <= k <= all.len(),
        k < all.len() ==> all[k].number == number,
        forall|j: int| 0 <= j < k ==> (#[trigger] all[j]).number != number,
    ensures
        dep_row(all, number) is Some <==> k < all.len(),
        dep_row(all, number) matches Some(row) ==> row.branch == all[k].branch && row.state
            == all[k].state && row.number == number && (row.is_blocker <==> !(
        all[k].state is Graduated || all[k].state is Promoted)),
        dependent_row(target, all, number) is Some <==> k < all.len() && number != target.number,
        dependent_row(target, all, number) matches Some(row) ==> row.branch == all[k].branch
            && row.state == all[k].state && row.number == number && (row.is_blocker <==> !(
        target.state is Graduated || target.state is Promoted)),
{
    law_rolls_are_found_by_number(all, number, k);
}

/// A base branch has a row exactly when it has a name and exists here or on
/// `origin`, and the row says where.
pub proof fn law_base_branches_have_rows(
    role: BaseRole,
    name: Seq<char>,
    current: Seq<char>,
    refs: Seq<Seq<char>>,
)
    ensures
        ({
            let row = base_row(role, name, current, refs);
            let here = refs.contains(name);
            let there = refs.contains("origin/"@ + name);
            &&& row is Some <==> name.len() > 0 && (here || there)
            &&& row matches Some(b) ==> {
                &&& b.role == role && b.branch == name
                &&& b.is_current <==> current == name
                &&& b.location is Both <==> here && there
                &&& b.location is Local <==> here && !there
                &&& b.location is Remote <==> !here && there
            }
        }),
{
}

/// The rows are stable, then rolling where that is another branch, then the rolls;
/// an index past them lands nowhere.
pub proof fn law_rows_come_in_order(
    config: ConfigView,
    current: Seq<char>,
    refs: Seq<Seq<char>>,
    index: usize,
    base_count: usize,
    roll_count: usize,
)
    requires
        base_count + roll_count <= usize::MAX,
    ensures
        ({
            let rows = base_rows(config, current, refs);
            let stable = base_row(BaseRole::Stable, config.stable_branch, current, refs);
            let rolling = base_row(BaseRole::Rolling, config.rolling_branch, current, refs);
            &&& stable is Some ==> rows.len() > 0 && rows[0] == stable->0
            &&& rolling is Some && config.stable_branch != config.rolling_branch ==> rows.len() > 0
                && rows.last() == rolling->0
            &&& stable is None && rolling is None ==> rows.len() == 0
            &&& config.stable_branch == config.rolling_branch ==> rows.len() <= 1
        }),
        ({
            let row = row_of(index as int, base_count as int, roll_count as int);
            &&& index < base_count ==> row == Some(RowKind::Base(index))
            &&& base_count <= index < base_count + roll_count ==> row == Some(
                RowKind::Roll((index - base_count) as usize),
            )
            &&& row is None <==> index >= base_count + roll_count
        }),
{
}

proof fn lemma_current_base(bases: Seq<BaseBranchView>, from: int, k: int)
    requires
        0 <= from <= k <= bases.len(),
        k < bases.len() ==> bases[k].is_current,
        forall|j: int| from <= j < k ==> !(#[trigger] bases[j]).is_current,
    ensures
        current_base(bases, from) == (if k < bases.len() {
            Some(k)
        } else {
            None
        }),
    decreases k - from,
{
    if from < k {
        assert(!bases[from].is_current);
        lemma_current_base(bases, from + 1, k);
    }
}

proof fn lemma_current_roll(rolls: Seq<RollView>, from: int, k: int)
    requires
        0 <= from <= k <= rolls.len(),
        k < rolls.len() ==> rolls[k].is_current,
        forall|j: int| from <= j < k ==> !(#[trigger] rolls[j]).is_current,
    ensures
        current_roll(rolls, from) == (if k < rolls.len() {
            Some(k)
        } else {
            None
        }),
    decreases k - from,
{
    if from < k {
        assert(!rolls[from].is_current);
        lemma_current_roll(rolls, from + 1, k);
    }
}

/// The selection starts on the first row whose branch is checked out, and on the
/// first row of all where none is. `b` and `k` are the first such places among the
/// base branches and the rolls, or their numbers where there is none.
pub proof fn law_selection_starts_on_the_current_branch(
    bases: Seq<BaseBranchView>,
    rolls: Seq<RollView>,
    b: int,
    k: int,
)
    requires
        0 <= b <= bases.len(),
        b < bases.len() ==> bases[b].is_current,
        forall|j: int| 0 <= j < b ==> !(#[trigger] bases[j]).is_current,
        0 <= k <= rolls.len(),
        k < rolls.len() ==> rolls[k].is_current,
        forall|j: int| 0 <= j < k ==> !(#[trigger] rolls[j]).is_current,
    ensures
        b < bases.len() ==> first_selection(bases, rolls) == Some(b),
        b == bases.len() && k < rolls.len() ==> first_selection(bases, rolls) == Some(
            bases.len() + k,
        ),
        b == bases.len() && k == rolls.len() && bases.len() + rolls.len() > 0 ==> first_selection(
            bases,
            rolls,
        ) == Some(0int),
        bases.len() + rolls.len() == 0 ==> first_selection(bases, rolls) is None,
{
    lemma_current_base(bases, 0, b);
    lemma_current_roll(rolls, 0, k);
}

/// Rolls of a kind are counted, no more and no fewer: those that have been promoted
/// for a prune, and the local ones that have graduated or been promoted for a tidy.
pub proof fn law_candidates_are_counted(rolls: Seq<RollView>, r: RollView)
    ensures
        ({
            let prune = |x: RollView| prunable(x);
            let tidy = |x: RollView| tidyable(x);
            let local = r.location is Local || r.location is Both;
            &&& tally(seq![], prune) == 0 && tally(seq![], tidy) == 0
            &&& r.state is Promoted ==> tally(rolls.push(r), prune) == tally(rolls, prune) + 1
            &&& r.state !is Promoted ==> tally(rolls.push(r), prune) == tally(rolls, prune)
            &&& (r.state is Promoted || r.state is Graduated) && local ==> tally(rolls.push(r), tidy)
                == tally(rolls, tidy) + 1
            &&& !((r.state is Promoted || r.state is Graduated) && local) ==> tally(
                rolls.push(r),
                tidy,
            ) == tally(rolls, tidy)
        }),
{
    assert(rolls.push(r).drop_last() =~= rolls);
    let states = tidied_states();
    assert(states[0] == RollState::Graduated && states[1] == RollState::Promoted);
    if states.contains(r.state) {
        let k = choose|k: int| 0 <= k < states.len() && states[k] == r.state;
        assert(k == 0 || k == 1);
    }
    if r.state is Graduated {
        assert(states[0] == r.state);
    }
    if r.state is Promoted {
        assert(states[1] == r.state);
    }
}

} // verus!
