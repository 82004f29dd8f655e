//! What the commands decide and say around the operations they run.
use vstd::prelude::*;

use crate::clean::{CleanOutcome, CleanOutcomeView};
use crate::config::{mode_named, Config, ConfigView, Mode};
use crate::error::{RfError, RfErrorView};
use crate::failure::{outcome, Failure};
use crate::ops::prune::{PrunePlan, PrunePlanView};
use crate::ops::route::{
    infer_route, not_promotable, not_promotable_error, route_of, Route, RouteView,
};
use crate::proc::{Confirm, OutLine, OutLineView};
use crate::report::clean::{
    clean_plan_lines, clean_skip_lines, could_not_delete, dropped_total, note_lines, prune_lines,
    render_notes, render_plan, render_prune, render_skips,
};
use crate::report::lines::{
    as_out, extend_out, plan_lines, render_prune_plan, render_prune_skips, skips_lines, to_out,
};
use crate::seqs::{kept, lemma_kept_contains, lemma_kept_ends, lemma_kept_step};
use crate::text::{
    begins, cat, cat3, cat5, extend, has_text, joined, lines, lines_of, same, starts_with,
};

verus! {

// ── Initialising a repository ───────────────────────────────────────────────

/// What a repository needs before it is configured: a stable branch, and a
/// rolling branch, which is created from stable where it is missing.
pub fn init_branches(config: &Config, stable_exists: bool, rolling_exists: bool) -> (r: Result<
    Option<Vec<String>>,
    Failure,
>)
    ensures
        outcome(r) == (if !stable_exists {
            Err(seq!["stable branch '"@ + config.stable_branch@ + "' not found"@])
        } else if rolling_exists {
            Ok(None)
        } else {
            Ok(Some(seq!["branch"@, config.rolling_branch@, config.stable_branch@]))
        }),
{
    if !stable_exists {
        return Err(
            Failure::msg(cat3("stable branch '", config.stable_branch.as_str(), "' not found")),
        );
    }
    if rolling_exists {
        return Ok(None);
    }
    let args = vec![
        "branch".to_owned(),
        config.rolling_branch.clone(),
        config.stable_branch.clone(),
    ];
    assert(args.deep_view() =~= seq!["branch"@, config.rolling_branch@, config.stable_branch@]);
    Ok(Some(args))
}

/// The lines of one rendering that another lacks, each behind a sign.
pub open spec fn only_in(here: Seq<Seq<char>>, there: Seq<Seq<char>>, sign: Seq<char>) -> Seq<
    Seq<char>,
> {
    kept(
        here,
        |l: Seq<char>|
            if there.contains(l) {
                None
            } else {
                Some(sign + l + "\n"@)
            },
    )
}

/// How two renderings of a configuration differ, line by line: what only the
/// first has, then what only the second has.
pub open spec fn differences(current: Seq<char>, detected: Seq<char>) -> Seq<char> {
    let a = lines_of(current);
    let b = lines_of(detected);
    joined(only_in(a, b, "-"@) + only_in(b, a, "+"@), ""@)
}

fn find_only_in(here: &Vec<String>, there: &Vec<String>, sign: &str) -> (r: Vec<String>)
    ensures
        r.deep_view() == only_in(here.deep_view(), there.deep_view(), sign@),
{
    let ghost all = here.deep_view();
    let ghost others = there.deep_view();
    let ghost f = |l: Seq<char>|
        if others.contains(l) {
            None
        } else {
            Some(sign@ + l + "\n"@)
        };
    let mut r: Vec<String> = Vec::new();
    let mut i: usize = 0;
    proof {
        lemma_kept_ends(all, f);
    }
    assert(r.deep_view() =~= kept(all.take(0), f));
    while i < here.len()
        invariant
            i <= here@.len(),
            all == here.deep_view(),
            others == there.deep_view(),
            f == (|l: Seq<char>|
                if others.contains(l) {
                    None
                } else {
                    Some(sign@ + l + "\n"@)
                }),
            r.deep_view() == kept(all.take(i as int), f),
        decreases here@.len() - i,
    {
        proof {
            lemma_kept_step(all, i as int, f);
        }
        assert(all[i as int] == here@[i as int]@);
        if !has_text(there, here[i].as_str()) {
            let line = cat3(sign, here[i].as_str(), "\n");
            let ghost before = r.deep_view();
            let ghost view = line@;
            r.push(line);
            assert(r.deep_view() =~= before.push(view));
        }
        i += 1;
    }
    proof {
        lemma_kept_ends(all, f);
    }
    r
}

/// How two renderings of a configuration differ, line by line.
pub fn config_diff(current: &str, detected: &str) -> (r: String)
    ensures
        r@ == differences(current@, detected@),
{
    let a = lines(current);
    let b = lines(detected);
    let mut all = find_only_in(&a, &b, "-");
    extend(&mut all, find_only_in(&b, &a, "+"));
    crate::text::join(&all, "")
}

/// The mode that initialising settles on: the one that was named, else the one
/// that the configuration on disk has, else the detected one.
pub fn init_mode(named: &Option<String>, existing: Option<Mode>, detected: Mode) -> (r: Result<
    Mode,
    RfError,
>)
    ensures
        match named {
            Some(m) => match mode_named(
                crate::text::ascii_smalls(crate::text::trimmed(m@)),
            ) {
                Some(mode) => r == Ok::<Mode, RfError>(mode),
                None => r is Err && r->Err_0.deep_view() == RfErrorView::Config(
                    "invalid --mode '"@ + crate::text::ascii_smalls(crate::text::trimmed(m@))
                        + "' (expected 'manage' or 'assist')"@,
                ),
            },
            None => r == Ok::<Mode, RfError>(
                match existing {
                    Some(mode) => mode,
                    None => detected,
                },
            ),
        },
{
    match named {
        Some(m) => Mode::parse(m.as_str()),
        None => match existing {
            Some(mode) => Ok(mode),
            None => Ok(detected),
        },
    }
}

/// What initialising does to the configuration file.
#[derive(Debug, Clone, Copy, PartialEq, Eq, Structural)]
pub enum InitAction {
    /// The file is written.
    Write,
    /// The file is left alone.
    Keep,
    /// The user is asked which of the two it is to be.
    Ask,
}

impl DeepView for InitAction {
    type V = InitAction;

    open spec fn deep_view(&self) -> InitAction {
        *self
    }
}

/// What initialising says and does.
#[derive(Debug)]
pub struct InitPlan {
    /// What is said first.
    pub shown: Vec<String>,
    /// The differences, which are shown as they are.
    pub diff: String,
    /// What becomes of the file.
    pub action: InitAction,
    /// What is said once the file is written.
    pub written: String,
    /// What is said where the file is left alone.
    pub kept: Vec<String>,
}

/// [`InitPlan`] by its characters.
pub struct InitPlanView {
    pub shown: Seq<Seq<char>>,
    pub diff: Seq<char>,
    pub action: InitAction,
    pub written: Seq<char>,
    pub kept: Seq<Seq<char>>,
}

impl DeepView for InitPlan {
    type V = InitPlanView;

    open spec fn deep_view(&self) -> InitPlanView {
        InitPlanView {
            shown: self.shown.deep_view(),
            diff: self.diff@,
            action: self.action,
            written: self.written@,
            kept: self.kept.deep_view(),
        }
    }
}

/// What initialising says and does, given what the configuration file holds and
/// what it would be given.
pub open spec fn init_plan(
    path: Seq<char>,
    existing: Option<Seq<char>>,
    regenerated: Seq<char>,
    force: bool,
    yes: bool,
    terminal: bool,
) -> InitPlanView {
    let updated = "Updated "@ + path + " from detected state"@;
    match existing {
        None => InitPlanView {
            shown: seq![],
            diff: ""@,
            action: InitAction::Write,
            written: "Initialized roll-flow at "@ + path,
            kept: seq![],
        },
        Some(text) => if text == regenerated {
            InitPlanView {
                shown: seq![],
                diff: ""@,
                action: if force {
                    InitAction::Write
                } else {
                    InitAction::Keep
                },
                written: updated,
                kept: seq!["roll-flow config already up to date (no changes)"@],
            }
        } else {
            InitPlanView {
                shown: seq!["Detected config changes for "@ + path + ":"@],
                diff: differences(text, regenerated),
                action: if force || yes {
                    InitAction::Write
                } else if terminal {
                    InitAction::Ask
                } else {
                    InitAction::Keep
                },
                written: updated,
                kept: (if terminal {
                    seq![]
                } else {
                    seq![
                        "Changes detected but not applied. Run with --yes to apply, or --force."@,
                    ]
                }) + seq!["Kept existing config at "@ + path],
            }
        },
    }
}

/// What initialising says and does.
pub fn plan_init(
    path: &str,
    existing: &Option<String>,
    regenerated: &str,
    force: bool,
    yes: bool,
    terminal: bool,
) -> (r: InitPlan)
    ensures
        r.deep_view() == init_plan(
            path@,
            existing.deep_view(),
            regenerated@,
            force,
            yes,
            terminal,
        ),
{
    let ghost done = init_plan(path@, existing.deep_view(), regenerated@, force, yes, terminal);
    match existing {
        None => {
            let shown: Vec<String> = Vec::new();
            let kept: Vec<String> = Vec::new();
            assert(shown.deep_view() =~= done.shown);
            assert(kept.deep_view() =~= done.kept);
            InitPlan {
                shown,
                diff: "".to_owned(),
                action: InitAction::Write,
                written: cat("Initialized roll-flow at ", path),
                kept,
            }
        },
        Some(text) => {
            let written = cat3("Updated ", path, " from detected state");
            if same(text.as_str(), regenerated) {
                let shown: Vec<String> = Vec::new();
                let kept = vec!["roll-flow config already up to date (no changes)".to_owned()];
                assert(shown.deep_view() =~= done.shown);
                assert(kept.deep_view() =~= done.kept);
                return InitPlan {
                    shown,
                    diff: "".to_owned(),
                    action: if force {
                        InitAction::Write
                    } else {
                        InitAction::Keep
                    },
                    written,
                    kept,
                };
            }
            let shown = vec![cat3("Detected config changes for ", path, ":")];
            let mut kept: Vec<String> = Vec::new();
            if !terminal {
                kept.push(
                    "Changes detected but not applied. Run with --yes to apply, or --force.".to_owned(),
                );
            }
            kept.push(cat("Kept existing config at ", path));
            assert(shown.deep_view() =~= done.shown);
            assert(kept.deep_view() =~= done.kept);
            InitPlan {
                shown,
                diff: config_diff(text.as_str(), regenerated),
                action: if force || yes {
                    InitAction::Write
                } else if terminal {
                    InitAction::Ask
                } else {
                    InitAction::Keep
                },
                written,
                kept,
            }
        },
    }
}

/// Initialising again changes nothing where nothing changed: without force, a
/// configuration file that already holds what it would be given is left alone,
/// and its rendering differs from itself in no line.
pub proof fn law_initialising_again_changes_nothing(
    path: Seq<char>,
    text: Seq<char>,
    yes: bool,
    terminal: bool,
)
    ensures
        init_plan(path, Some(text), text, false, yes, terminal).action is Keep,
        differences(text, text) == ""@,
{
    let a = lines_of(text);
    lemma_nothing_only_in(a, a, "-"@);
    lemma_nothing_only_in(a, a, "+"@);
    assert(only_in(a, a, "-"@) + only_in(a, a, "+"@) =~= Seq::<Seq<char>>::empty());
    reveal_strlit("");
    assert(joined(Seq::<Seq<char>>::empty(), ""@) =~= ""@);
}

/// A configuration that differs from the file's is written only where the user
/// agreed, beforehand or when asked, or forced it.
pub proof fn law_differing_configurations_are_not_overwritten(
    path: Seq<char>,
    text: Seq<char>,
    regenerated: Seq<char>,
    force: bool,
    yes: bool,
    terminal: bool,
)
    requires
        text != regenerated,
    ensures
        init_plan(path, Some(text), regenerated, force, yes, terminal).action is Write
            <==> force || yes,
        init_plan(path, Some(text), regenerated, force, yes, terminal).action is Ask <==> terminal
            && !force && !yes,
{
}

proof fn lemma_nothing_only_in(here: Seq<Seq<char>>, there: Seq<Seq<char>>, sign: Seq<char>)
    requires
        forall|l: Seq<char>| #[trigger] here.contains(l) ==> there.contains(l),
    ensures
        only_in(here, there, sign) == Seq::<Seq<char>>::empty(),
    decreases here.len(),
{
    if here.len() > 0 {
        let rest = here.drop_last();
        assert(here.contains(here.last())) by {
            assert(here[here.len() - 1] == here.last());
        }
        assert forall|l: Seq<char>| #[trigger] rest.contains(l) implies there.contains(l) by {
            let i = choose|i: int| 0 <= i < rest.len() && rest[i] == l;
            assert(here[i] == l);
            assert(here.contains(l));
        }
        lemma_nothing_only_in(rest, there, sign);
    }
}

// ── Deleting branches ───────────────────────────────────────────────────────

/// What a command that deletes branches says before it does so.
#[derive(Debug)]
pub struct Deletion {
    /// What is said.
    pub lines: Vec<OutLine>,
    /// What the user is asked; without a question nothing is deleted.
    pub question: Option<String>,
}

/// [`Deletion`] by its characters.
pub struct DeletionView {
    pub lines: Seq<OutLineView>,
    pub question: Option<Seq<char>>,
}

impl DeepView for Deletion {
    type V = DeletionView;

    open spec fn deep_view(&self) -> DeletionView {
        DeletionView {
            lines: self.lines.deep_view(),
            question: self.question.deep_view(),
        }
    }
}

/// What is said before branches are deleted, given what is said where there is
/// nothing to delete, the title of the plan, and the question.
pub open spec fn deletion(
    plan: PrunePlanView,
    nothing: Seq<char>,
    title: Seq<char>,
    question: Seq<char>,
    dry_run: bool,
) -> DeletionView {
    let skips = skips_lines(plan.skipped);
    if plan.candidates.len() == 0 {
        DeletionView { lines: as_out(seq![nothing] + skips), question: None }
    } else if dry_run {
        DeletionView {
            lines: as_out(plan_lines(plan, title) + skips + seq!["\nDry-run: nothing deleted"@]),
            question: None,
        }
    } else {
        DeletionView { lines: as_out(plan_lines(plan, title) + skips), question: Some(question) }
    }
}

fn start_deletion(
    plan: &PrunePlan,
    nothing: String,
    title: &str,
    question: String,
    dry_run: bool,
) -> (r: Deletion)
    ensures
        r.deep_view() == deletion(plan.deep_view(), nothing@, title@, question@, dry_run),
{
    if plan.is_empty() {
        let ghost view = nothing@;
        let mut said = vec![nothing];
        assert(said.deep_view() =~= seq![view]);
        extend(&mut said, render_prune_skips(&plan.skipped));
        return Deletion { lines: to_out(said), question: None };
    }
    let mut said = render_prune_plan(plan, title);
    extend(&mut said, render_prune_skips(&plan.skipped));
    if dry_run {
        let ghost before = said.deep_view();
        said.push("\nDry-run: nothing deleted".to_owned());
        assert(said.deep_view() =~= before + seq!["\nDry-run: nothing deleted"@]);
        return Deletion { lines: to_out(said), question: None };
    }
    Deletion { lines: to_out(said), question: Some(question) }
}

/// What is said before promoted rolls are deleted.
pub fn start_prune(plan: &PrunePlan, dry_run: bool) -> (r: Deletion)
    ensures
        r.deep_view() == deletion(
            plan.deep_view(),
            "no promoted roll branches to prune"@,
            "Promoted roll branches to prune:"@,
            "\nDelete these branches? [y/N] "@,
            dry_run,
        ),
{
    start_deletion(
        plan,
        "no promoted roll branches to prune".to_owned(),
        "Promoted roll branches to prune:",
        "\nDelete these branches? [y/N] ".to_owned(),
        dry_run,
    )
}

/// What is said before one branch is deleted.
pub fn start_delete(branch: &str, plan: &PrunePlan, dry_run: bool) -> (r: Deletion)
    ensures
        r.deep_view() == deletion(
            plan.deep_view(),
            "nothing to delete for '"@ + branch@ + "'"@,
            "Branch to delete:"@,
            "\nDelete '"@ + branch@ + "'? [y/N] "@,
            dry_run,
        ),
{
    start_deletion(
        plan,
        cat3("nothing to delete for '", branch, "'"),
        "Branch to delete:",
        cat3("\nDelete '", branch, "'? [y/N] "),
        dry_run,
    )
}

/// What is said before a repository is cleaned.
pub open spec fn clean_start(o: CleanOutcomeView, dry_run: bool) -> DeletionView {
    let front = prune_lines(o) + note_lines(o);
    let skips = clean_skip_lines(o.skipped);
    if o.items.len() == 0 {
        DeletionView {
            lines: front + as_out(
                (if dropped_total(o) == 0 {
                    seq!["nothing to clean"@]
                } else {
                    seq![]
                }) + skips,
            ),
            question: None,
        }
    } else if dry_run {
        DeletionView {
            lines: front + as_out(
                clean_plan_lines(o.items) + skips + (if dropped_total(o) > 0 {
                    seq!["\nnote: remote-tracking refs were refreshed; no branches deleted"@]
                } else {
                    seq![]
                }) + seq!["\nDry-run: nothing deleted"@],
            ),
            question: None,
        }
    } else {
        DeletionView {
            lines: front + as_out(clean_plan_lines(o.items) + skips),
            question: Some("\nDelete these branches? [y/N] "@),
        }
    }
}

/// What is said before a repository is cleaned.
pub fn start_clean(o: &CleanOutcome, dry_run: bool) -> (r: Deletion)
    ensures
        r.deep_view() == clean_start(o.deep_view(), dry_run),
{
    let mut said = render_prune(o);
    extend_out(&mut said, render_notes(o));
    let dropped = o.pruned_count();
    if o.is_empty() {
        let mut rest: Vec<String> = Vec::new();
        if dropped == 0 {
            rest.push("nothing to clean".to_owned());
        }
        assert(rest.deep_view() =~= if dropped == 0 {
            seq!["nothing to clean"@]
        } else {
            seq![]
        });
        extend(&mut rest, render_skips(&o.skipped));
        extend_out(&mut said, to_out(rest));
        return Deletion { lines: said, question: None };
    }
    let mut rest = render_plan(o);
    extend(&mut rest, render_skips(&o.skipped));
    if dry_run {
        let ghost before = rest.deep_view();
        if dropped > 0 {
            rest.push(
                "\nnote: remote-tracking refs were refreshed; no branches deleted".to_owned(),
            );
        }
        rest.push("\nDry-run: nothing deleted".to_owned());
        assert(rest.deep_view() =~= before + (if dropped > 0 {
            seq!["\nnote: remote-tracking refs were refreshed; no branches deleted"@]
        } else {
            seq![]
        }) + seq!["\nDry-run: nothing deleted"@]);
        extend_out(&mut said, to_out(rest));
        return Deletion { lines: said, question: None };
    }
    extend_out(&mut said, to_out(rest));
    Deletion { lines: said, question: Some("\nDelete these branches? [y/N] ".to_owned()) }
}

/// What is said where a confirmation came out against deleting; `None` where it
/// did not.
pub fn declined(c: Confirm) -> (r: Option<String>)
    ensures
        r.deep_view() == (match c {
            Confirm::Yes => None,
            Confirm::Declined => Some("Nothing deleted."@),
            Confirm::Unattended => Some("\nNothing deleted. Re-run with --yes to apply."@),
        }),
{
    match c {
        Confirm::Yes => None,
        Confirm::Declined => Some("Nothing deleted.".to_owned()),
        Confirm::Unattended => Some(
            "\nNothing deleted. Re-run with --yes to apply.".to_owned(),
        ),
    }
}

/// How deleting several branches ends.
pub fn branches_deleted(failures: usize) -> (r: Result<(), Failure>)
    ensures
        outcome(r) is Ok <==> failures == 0,
        outcome(r) is Err ==> outcome(r)->Err_0 == seq![
            crate::num::decimal(failures as nat) + " branch"@ + crate::tui::view::branch_ending(
                failures as nat,
            ) + " could not be deleted"@,
        ],
{
    if failures == 0 {
        Ok(())
    } else {
        Err(Failure::msg(could_not_delete(failures)))
    }
}

/// How deleting one branch ends.
pub fn branch_deleted(branch: &str, failures: usize) -> (r: Result<(), Failure>)
    ensures
        outcome(r) is Ok <==> failures == 0,
        outcome(r) is Err ==> outcome(r)->Err_0 == seq![
            "'"@ + branch@ + "' could not be deleted"@,
        ],
{
    if failures == 0 {
        Ok(())
    } else {
        Err(Failure::msg(cat3("'", branch, "' could not be deleted")))
    }
}

/// A dry run deletes nothing: neither pruning, nor deleting a branch, nor
/// cleaning gets as far as asking, and where there is nothing to delete nobody
/// is asked either.
pub proof fn law_dry_runs_delete_nothing(
    plan: PrunePlanView,
    nothing: Seq<char>,
    title: Seq<char>,
    question: Seq<char>,
    o: CleanOutcomeView,
    dry_run: bool,
)
    ensures
        deletion(plan, nothing, title, question, dry_run).question is Some <==> !dry_run
            && plan.candidates.len() > 0,
        clean_start(o, dry_run).question is Some <==> !dry_run && o.items.len() > 0,
{
}

// ── Which operation a command runs ──────────────────────────────────────────

/// What the hotfix command does.
#[derive(Debug)]
pub enum HotfixCommand {
    /// Lands the checked-out hotfix.
    Land,
    /// Creates a hotfix under this slug.
    Create(String),
}

/// What the hotfix command does, with texts as character sequences.
pub enum HotfixCommandView {
    Land,
    Create(Seq<char>),
}

impl DeepView for HotfixCommand {
    type V = HotfixCommandView;

    open spec fn deep_view(&self) -> HotfixCommandView {
        match self {
            HotfixCommand::Land => HotfixCommandView::Land,
            HotfixCommand::Create(slug) => HotfixCommandView::Create(slug@),
        }
    }
}

/// What the hotfix command does: a slug is needed unless a hotfix is landed.
pub fn hotfix_command(land: bool, slug: &Option<String>) -> (r: Result<HotfixCommand, Failure>)
    ensures
        outcome(r) == (if land {
            Ok(HotfixCommandView::Land)
        } else {
            match slug {
                Some(s) => Ok(HotfixCommandView::Create(s@)),
                None => Err(
                    seq![
                        "rf hotfix requires a <slug> (or pass --land to land the current hotfix)"@,
                    ],
                ),
            }
        }),
{
    if land {
        return Ok(HotfixCommand::Land);
    }
    match slug {
        Some(s) => Ok(HotfixCommand::Create(s.clone())),
        None => Err(
            Failure::msg(
                "rf hotfix requires a <slug> (or pass --land to land the current hotfix)".to_owned(),
            ),
        ),
    }
}

/// Whether the graduate command may run: only from a roll.
pub fn ensure_on_roll(config: &Config, current: &str) -> (r: Result<(), Failure>)
    ensures
        outcome(r) is Ok <==> begins(current@, config.roll_prefix@),
        outcome(r) is Err ==> outcome(r)->Err_0 == seq![
            "rf graduate must be run from a roll branch (current: '"@ + current@
                + "'); to promote '"@ + config.rolling_branch@ + "' -> '"@ + config.stable_branch@
                + "' use rf promote"@,
        ],
{
    if starts_with(current, config.roll_prefix.as_str()) {
        return Ok(());
    }
    let front = cat5(
        "rf graduate must be run from a roll branch (current: '",
        current,
        "'); to promote '",
        config.rolling_branch.as_str(),
        "' -> '",
    );
    Err(
        Failure::msg(
            cat3(front.as_str(), config.stable_branch.as_str(), "' use rf promote"),
        ),
    )
}

/// What the promote command does.
#[derive(Debug)]
pub enum PromoteCommand {
    /// Promotes the named rolls.
    Rolls {
        /// What is said first.
        warning: Option<String>,
    },
    /// Graduates the checked-out roll.
    Graduate {
        /// The roll.
        roll: String,
        /// What is said first.
        note: String,
    },
    /// Promotes rolling.
    Rolling,
}

/// What the promote command does, with texts as character sequences.
pub enum PromoteCommandView {
    Rolls { warning: Option<Seq<char>> },
    Graduate { roll: Seq<char>, note: Seq<char> },
    Rolling,
}

impl DeepView for PromoteCommand {
    type V = PromoteCommandView;

    open spec fn deep_view(&self) -> PromoteCommandView {
        match self {
            PromoteCommand::Rolls { warning } => PromoteCommandView::Rolls {
                warning: warning.deep_view(),
            },
            PromoteCommand::Graduate { roll, note } => PromoteCommandView::Graduate {
                roll: roll@,
                note: note@,
            },
            PromoteCommand::Rolling => PromoteCommandView::Rolling,
        }
    }
}

/// What the promote command does: named rolls are promoted from wherever it is
/// run, else the checked-out branch decides.
pub open spec fn promotion(
    config: ConfigView,
    named: nat,
    bump: bool,
    current: Seq<char>,
) -> Result<PromoteCommandView, Seq<Seq<char>>> {
    if named > 0 {
        Ok(
            PromoteCommandView::Rolls {
                warning: if bump {
                    Some(
                        "warning: --bump is ignored with --roll; a roll's version is whatever its graduation commit already carries"@,
                    )
                } else {
                    None
                },
            },
        )
    } else {
        match route_of(config, current) {
            Some(RouteView::Graduate { roll }) => Ok(
                PromoteCommandView::Graduate {
                    roll,
                    note: "note: '"@ + roll + "' is a roll branch; graduating into '"@
                        + config.rolling_branch + "' — use rf graduate directly next time"@,
                },
            ),
            Some(RouteView::Promote) => Ok(PromoteCommandView::Rolling),
            None => Err(seq![not_promotable(config, current)]),
        }
    }
}

/// What the promote command does.
pub fn promote_command(config: &Config, rolls: &Vec<String>, bump: bool, current: &str) -> (r:
    Result<PromoteCommand, Failure>)
    ensures
        outcome(r) == promotion(config.deep_view(), rolls@.len(), bump, current@),
{
    if rolls.len() > 0 {
        return Ok(
            PromoteCommand::Rolls {
                warning: if bump {
                    Some(
                        "warning: --bump is ignored with --roll; a roll's version is whatever its graduation commit already carries".to_owned(),
                    )
                } else {
                    None
                },
            },
        );
    }
    match infer_route(config, current) {
        Some(Route::Graduate { roll }) => {
            let note = cat5(
                "note: '",
                roll.as_str(),
                "' is a roll branch; graduating into '",
                config.rolling_branch.as_str(),
                "' — use rf graduate directly next time",
            );
            Ok(PromoteCommand::Graduate { roll, note })
        },
        Some(Route::Promote) => Ok(PromoteCommand::Rolling),
        None => Err(Failure::msg(not_promotable_error(config, current))),
    }
}

/// The promote command promotes the rolls that are named; with none named it does
/// what the branch that is checked out stands for.
pub proof fn law_promote_command_follows_the_branch(
    config: ConfigView,
    named: nat,
    bump: bool,
    current: Seq<char>,
)
    ensures
        ({
            let r = promotion(config, named, bump, current);
            let on_rolling = current == config.rolling_branch;
            let on_roll = begins(current, config.roll_prefix);
            &&& named > 0 ==> (r matches Ok(PromoteCommandView::Rolls { warning }) && (
            warning is Some <==> bump))
            &&& named == 0 && on_rolling ==> r == Ok::<PromoteCommandView, Seq<Seq<char>>>(
                PromoteCommandView::Rolling,
            )
            &&& named == 0 && !on_rolling && on_roll ==> (r matches Ok(
                PromoteCommandView::Graduate { roll, note },
            ) && roll == current)
            &&& r is Err <==> named == 0 && !on_rolling && !on_roll
        }),
{
}

/// Initialising writes a configuration where there is none, and over an equal one
/// only by force.
pub proof fn law_missing_configurations_are_written(
    path: Seq<char>,
    text: Seq<char>,
    force: bool,
    yes: bool,
    terminal: bool,
)
    ensures
        init_plan(path, None, text, force, yes, terminal).action is Write,
        init_plan(path, Some(text), text, force, yes, terminal).action is Write <==> force,
        init_plan(path, Some(text), text, force, yes, terminal).action !is Ask,
{
}

/// A line is shown as a difference exactly when the other rendering lacks it.
pub proof fn law_differences_are_the_lines_of_one(
    here: Seq<Seq<char>>,
    there: Seq<Seq<char>>,
    sign: Seq<char>,
    shown: Seq<char>,
)
    ensures
        only_in(here, there, sign).contains(shown) <==> exists|i: int|
            0 <= i < here.len() && !there.contains(#[trigger] here[i]) && shown == sign + here[i]
                + "\n"@,
{
    let g = |l: Seq<char>|
        if there.contains(l) {
            None
        } else {
            Some(sign + l + "\n"@)
        };
    lemma_kept_contains(here, g, shown);
    if only_in(here, there, sign).contains(shown) {
        let i = choose|i: int| 0 <= i < here.len() && g(#[trigger] here[i]) == Some(shown);
        assert(!there.contains(here[i]));
    }
    if exists|i: int|
        0 <= i < here.len() && !there.contains(#[trigger] here[i]) && shown == sign + here[i]
            + "\n"@ {
        let i = choose|i: int|
            0 <= i < here.len() && !there.contains(#[trigger] here[i]) && shown == sign + here[i]
                + "\n"@;
        assert(g(here[i]) == Some(shown));
    }
}

} // verus!
