//! Versions and release tags on the way to stable.
use vstd::prelude::*;

use crate::config::{Config, ConfigView};
use crate::error::error_text;
use crate::failure::{outcome, Failure};
use crate::ops::route::{infer_route, route_of, Route, RouteView};
use crate::text::{cat, cat3, cat4, cat5, same, trim, trimmed};
use crate::version::{
    check, check_of, law_order_is_total, law_release_check_is_the_order, no_version_key, read_version, version_of, with_version, write_version,
    BumpLevel, Semver, VersionCheck, VersionStatus,
};

verus! {

// ── The check ────────────────────────────────────────────────────────────────

/// What the version gate compares: nothing where it is switched off.
pub open spec fn gate_check(
    config: ConfigView,
    head: Option<Seq<char>>,
    base: Option<Seq<char>>,
) -> VersionCheck {
    if config.version_gate {
        check_of(head is Some, version_of(head), base is Some, version_of(base))
    } else {
        VersionCheck { head: None, base: None, status: VersionStatus::NotApplicable }
    }
}

/// Compares the manifests of a source and a target, where they have any.
pub fn version_check(config: &Config, head: &Option<String>, base: &Option<String>) -> (r:
    VersionCheck)
    ensures
        r == gate_check(config.deep_view(), head.deep_view(), base.deep_view()),
{
    if config.version_gate {
        check(head, base)
    } else {
        VersionCheck::not_applicable()
    }
}

/// The version of a source in words.
pub open spec fn head_text(c: VersionCheck) -> Seq<char> {
    match c.head {
        Some(v) => v.text(),
        None => "<unreadable>"@,
    }
}

/// The version of a target in words.
pub open spec fn base_text(c: VersionCheck) -> Seq<char> {
    match c.base {
        Some(v) => v.text(),
        None => "none"@,
    }
}

fn say_head(c: &VersionCheck) -> (r: String)
    ensures
        r@ == head_text(*c),
{
    match c.head {
        Some(v) => v.to_string(),
        None => "<unreadable>".to_owned(),
    }
}

fn say_base(c: &VersionCheck) -> (r: String)
    ensures
        r@ == base_text(*c),
{
    match c.base {
        Some(v) => v.to_string(),
        None => "none".to_owned(),
    }
}

/// The verdict of a check in a word; none where there is nothing to say.
pub open spec fn verdict_text(status: VersionStatus) -> Option<Seq<char>> {
    match status {
        VersionStatus::Raised => Some("OK"@),
        VersionStatus::Unchanged => Some("UNCHANGED"@),
        VersionStatus::Lower => Some("LOWER"@),
        VersionStatus::DevVersion => Some("DEV"@),
        VersionStatus::Unreadable => Some("UNREADABLE"@),
        VersionStatus::NotApplicable => None,
    }
}

fn say_verdict(status: VersionStatus) -> (r: Option<String>)
    ensures
        r.deep_view() == verdict_text(status),
{
    match status {
        VersionStatus::Raised => Some("OK".to_owned()),
        VersionStatus::Unchanged => Some("UNCHANGED".to_owned()),
        VersionStatus::Lower => Some("LOWER".to_owned()),
        VersionStatus::DevVersion => Some("DEV".to_owned()),
        VersionStatus::Unreadable => Some("UNREADABLE".to_owned()),
        VersionStatus::NotApplicable => None,
    }
}

/// The line that reports a comparison; none where the repository is not
/// versioned this way.
pub open spec fn version_line_of(c: VersionCheck, source: Seq<char>, target: Seq<char>) -> Option<
    Seq<char>,
> {
    match verdict_text(c.status) {
        None => None,
        Some(verdict) => Some(
            "Version: "@ + head_text(c) + " on '"@ + source + "' (base '"@ + target + "' "@
                + base_text(c) + ") "@ + verdict,
        ),
    }
}

/// The line that reports a comparison.
pub fn render_version_check(c: &VersionCheck, source: &str, target: &str) -> (r: Option<String>)
    ensures
        r.deep_view() == version_line_of(*c, source@, target@),
{
    match say_verdict(c.status) {
        None => None,
        Some(verdict) => {
            let head = say_head(c);
            let base = say_base(c);
            let a = cat5("Version: ", head.as_str(), " on '", source, "' (base '");
            let b = cat4(a.as_str(), target, "' ", base.as_str());
            Some(cat3(b.as_str(), ") ", verdict.as_str()))
        },
    }
}

/// Why a version blocks a merge.
pub open spec fn gate_refusal(c: VersionCheck, source: Seq<char>, target: Seq<char>) -> Seq<char> {
    let what = match c.status {
        VersionStatus::Lower => "is lower than "@ + base_text(c) + " on '"@ + target + "'"@,
        VersionStatus::DevVersion => "is a dev version, which '"@ + target
            + "' never receives"@,
        VersionStatus::Unreadable => "cannot be compared with '"@ + target + "'"@,
        _ => "is not greater than "@ + base_text(c) + " on '"@ + target
            + "'; a bump is required (rf promote --bump <patch|minor|major>)"@,
    };
    "version "@ + head_text(c) + " on '"@ + source + "' "@ + what
}

/// Why a version blocks a merge.
pub fn version_gate_error(c: &VersionCheck, source: &str, target: &str) -> (r: Failure)
    ensures
        r.deep_view() == seq![gate_refusal(*c, source@, target@)],
{
    let base = say_base(c);
    let what = match c.status {
        VersionStatus::Lower => cat5("is lower than ", base.as_str(), " on '", target, "'"),
        VersionStatus::DevVersion => cat3(
            "is a dev version, which '",
            target,
            "' never receives",
        ),
        VersionStatus::Unreadable => cat3("cannot be compared with '", target, "'"),
        _ => cat5(
            "is not greater than ",
            base.as_str(),
            " on '",
            target,
            "'; a bump is required (rf promote --bump <patch|minor|major>)",
        ),
    };
    let head = say_head(c);
    let front = cat5("version ", head.as_str(), " on '", source, "' ");
    Failure::msg(cat(front.as_str(), what.as_str()))
}

/// Whether a step may go ahead with the version it carries. A rehearsal only
/// looks, and force overrides.
pub fn step_version_gate(
    c: &VersionCheck,
    source: &str,
    target: &str,
    dry_run: bool,
    forced: bool,
) -> (r: Result<(), Failure>)
    ensures
        r is Ok <==> dry_run || forced || c.status is Raised || c.status is NotApplicable,
        r matches Err(e) ==> e.deep_view() == seq![gate_refusal(*c, source@, target@)],
{
    if dry_run || forced || c.is_satisfied() {
        Ok(())
    } else {
        Err(version_gate_error(c, source, target))
    }
}

/// The merge whose version the check is about, when standing on `current`: only
/// the way from rolling to stable carries the requirement.
pub open spec fn gated_merge(config: ConfigView, current: Seq<char>) -> Option<
    (Seq<char>, Seq<char>),
> {
    match route_of(config, current) {
        Some(RouteView::Promote) => Some((config.rolling_branch, config.stable_branch)),
        _ => None,
    }
}

/// The merge whose version the check is about.
pub fn version_gated_merge(config: &Config, current: &str) -> (r: Option<(String, String)>)
    ensures
        r.deep_view() == gated_merge(config.deep_view(), current@),
{
    match infer_route(config, current) {
        Some(Route::Promote) => Some(
            (config.rolling_branch.clone(), config.stable_branch.clone()),
        ),
        _ => None,
    }
}

/// What to do about the version before a merge.
#[derive(Debug)]
pub enum VersionStep {
    /// Nothing; the merge goes ahead.
    Proceed,
    /// A rehearsal: say what is missing, and go ahead.
    Report { line: String },
    /// Say what is missing, then raise this number.
    Bump { line: String, level: BumpLevel },
    /// Say what is missing, then ask which number to raise.
    Ask { line: String },
    /// Say what is missing, warn that force is used, and go ahead.
    Warn { line: String },
    /// Refuse, having said what is missing if there is anything to say.
    Refuse { said: Option<String>, failure: Failure },
}

/// [`VersionStep`] by its characters.
pub enum VersionStepView {
    Proceed,
    Report { line: Seq<char> },
    Bump { line: Seq<char>, level: BumpLevel },
    Ask { line: Seq<char> },
    Warn { line: Seq<char> },
    Refuse { said: Option<Seq<char>>, failure: Seq<Seq<char>> },
}

impl DeepView for VersionStep {
    type V = VersionStepView;

    open spec fn deep_view(&self) -> VersionStepView {
        match self {
            VersionStep::Proceed => VersionStepView::Proceed,
            VersionStep::Report { line } => VersionStepView::Report { line: line@ },
            VersionStep::Bump { line, level } => VersionStepView::Bump {
                line: line@,
                level: *level,
            },
            VersionStep::Ask { line } => VersionStepView::Ask { line: line@ },
            VersionStep::Warn { line } => VersionStepView::Warn { line: line@ },
            VersionStep::Refuse { said, failure } => VersionStepView::Refuse {
                said: said.deep_view(),
                failure: failure.deep_view(),
            },
        }
    }
}

/// What a caller asked for about the version.
#[derive(Debug, Clone, Copy, PartialEq, Eq, Structural)]
pub struct VersionAsk {
    pub bump: Option<BumpLevel>,
    pub yes: bool,
    pub forced: bool,
    pub dry_run: bool,
    /// Whether someone is there to be asked.
    pub terminal: bool,
}

/// What is said of a version that was not raised.
pub open spec fn unchanged_line(c: VersionCheck, source: Seq<char>, target: Seq<char>) -> Seq<char> {
    "Version: "@ + head_text(c) + " on '"@ + source + "' is unchanged from '"@ + target
        + "'; a bump is required"@
}

/// What to do about the version before a merge of `source` into `target`. A
/// version below the target's is refused outright; a missing bump is made where
/// the caller asked for it, asked about where someone is there, and refused
/// otherwise, unless force is used.
pub open spec fn version_step(
    c: VersionCheck,
    current: Seq<char>,
    source: Seq<char>,
    target: Seq<char>,
    ask: VersionAsk,
) -> VersionStepView {
    let line = unchanged_line(c, source, target);
    let refusal = seq![gate_refusal(c, source, target)];
    if c.status is Raised || c.status is NotApplicable {
        VersionStepView::Proceed
    } else if c.status is Lower {
        VersionStepView::Refuse { said: None, failure: refusal }
    } else if ask.dry_run {
        VersionStepView::Report { line }
    } else if current != source {
        VersionStepView::Refuse {
            said: Some(line),
            failure: seq![
                "refusing to bump the version: expected to be on '"@ + source + "' but '"@
                    + current + "' is checked out"@,
            ],
        }
    } else {
        match ask.bump {
            Some(level) => VersionStepView::Bump { line, level },
            None => if ask.yes {
                VersionStepView::Bump { line, level: BumpLevel::Patch }
            } else if ask.terminal {
                VersionStepView::Ask { line }
            } else if ask.forced {
                VersionStepView::Warn { line }
            } else {
                VersionStepView::Refuse { said: Some(line), failure: refusal }
            },
        }
    }
}

/// Decides what to do about the version before a merge.
pub fn resolve_version_gate(
    c: &VersionCheck,
    current: &str,
    source: &str,
    target: &str,
    ask: &VersionAsk,
) -> (r: VersionStep)
    ensures
        r.deep_view() == version_step(*c, current@, source@, target@, *ask),
{
    if c.is_satisfied() {
        return VersionStep::Proceed;
    }
    let failure = version_gate_error(c, source, target);
    if matches!(c.status, VersionStatus::Lower) {
        return VersionStep::Refuse { said: None, failure };
    }
    let head = say_head(c);
    let front = cat5("Version: ", head.as_str(), " on '", source, "' is unchanged from '");
    let line = cat3(front.as_str(), target, "'; a bump is required");
    if ask.dry_run {
        return VersionStep::Report { line };
    }
    if !same(current, source) {
        let why = cat5(
            "refusing to bump the version: expected to be on '",
            source,
            "' but '",
            current,
            "' is checked out",
        );
        return VersionStep::Refuse { said: Some(line), failure: Failure::msg(why) };
    }
    match ask.bump {
        Some(level) => VersionStep::Bump { line, level },
        None => {
            if ask.yes {
                VersionStep::Bump { line, level: BumpLevel::Patch }
            } else if ask.terminal {
                VersionStep::Ask { line }
            } else if ask.forced {
                VersionStep::Warn { line }
            } else {
                VersionStep::Refuse { said: Some(line), failure }
            }
        },
    }
}

/// What a rehearsal says of a bump that is missing.
pub const NOT_BUMPED: &'static str = "Dry-run: not bumping the version";

/// What is said where force stands in for a bump.
pub const FORCED_PAST: &'static str = "warning: version not bumped, continuing under --force";

/// What is said of a version that was raised by a commit on `branch`.
pub fn bumped_line(from: Semver, to: Semver, branch: &str) -> (r: String)
    ensures
        r@ == "Bumped version "@ + from.text() + " -> "@ + to.text()
            + " (chore(release) commit on '"@ + branch@ + "')"@,
{
    let a = from.to_string();
    let b = to.to_string();
    let front = cat4("Bumped version ", a.as_str(), " -> ", b.as_str());
    cat4(front.as_str(), " (chore(release) commit on '", branch, "')")
}

/// The number that an answer asks to raise; none where it declines. Capital and
/// small letters differ here.
pub open spec fn answered_level(answer: Seq<char>) -> Option<BumpLevel> {
    let a = trimmed(answer);
    if a == "p"@ || a == "patch"@ || a == ""@ {
        Some(BumpLevel::Patch)
    } else if a == "m"@ || a == "minor"@ {
        Some(BumpLevel::Minor)
    } else if a == "M"@ || a == "major"@ || a == "MAJOR"@ {
        Some(BumpLevel::Major)
    } else {
        None
    }
}

/// The number that an answer asks to raise.
pub fn prompt_bump_level(answer: &str) -> (r: Option<BumpLevel>)
    ensures
        r == answered_level(answer@),
{
    let a = trim(answer);
    if same(a, "p") || same(a, "patch") || same(a, "") {
        return Some(BumpLevel::Patch);
    }
    if same(a, "m") || same(a, "minor") {
        return Some(BumpLevel::Minor);
    }
    if same(a, "M") || same(a, "major") || same(a, "MAJOR") {
        return Some(BumpLevel::Major);
    }
    None
}

// ── Raising the version ─────────────────────────────────────────────────────

/// A raised version, ready to be written and committed.
#[derive(Debug)]
pub struct BumpPlan {
    pub from: Semver,
    pub to: Semver,
    /// The new text of the manifest.
    pub text: String,
    /// The message of the commit.
    pub message: String,
}

/// [`BumpPlan`] by its characters.
pub struct BumpPlanView {
    pub from: Semver,
    pub to: Semver,
    pub text: Seq<char>,
    pub message: Seq<char>,
}

impl DeepView for BumpPlan {
    type V = BumpPlanView;

    open spec fn deep_view(&self) -> BumpPlanView {
        BumpPlanView {
            from: self.from,
            to: self.to,
            text: self.text@,
            message: self.message@,
        }
    }
}

/// What raising the version declared in `text` comes to. A manifest without a
/// readable version is refused, and so is a number that cannot rise further.
pub open spec fn bump_of(
    text: Option<Seq<char>>,
    level: BumpLevel,
    branch: Seq<char>,
    path: Seq<char>,
) -> Result<BumpPlanView, Seq<Seq<char>>> {
    match (text, version_of(text)) {
        (Some(t), Some(from)) => if !from.can_bump(level) {
            Err(seq!["the version "@ + from.text() + " cannot be raised further"@])
        } else {
            let to = from.bumped(level);
            match with_version(t, to) {
                None => Err(seq![error_text(no_version_key(path))]),
                Some(new) => Ok(
                    BumpPlanView {
                        from,
                        to,
                        text: new,
                        message: "chore(release): bump version to "@ + to.text() + " for "@
                            + branch,
                    },
                ),
            }
        },
        _ => Err(seq!["no readable version in "@ + path]),
    }
}

fn can_rise(v: Semver, level: BumpLevel) -> (r: bool)
    ensures
        r == v.can_bump(level),
{
    match level {
        BumpLevel::Patch => v.patch < u64::MAX,
        BumpLevel::Minor => v.minor < u64::MAX,
        BumpLevel::Major => v.major < u64::MAX,
    }
}

/// Plans raising the version that a manifest declares.
pub fn apply_version_bump(
    text: &Option<String>,
    level: BumpLevel,
    branch: &str,
    path: &str,
) -> (r: Result<BumpPlan, Failure>)
    ensures
        outcome(r) == bump_of(text.deep_view(), level, branch@, path@),
{
    match text {
        None => {},
        Some(t) => match read_version(text) {
            None => {},
            Some(from) => {
                if !can_rise(from, level) {
                    let v = from.to_string();
                    return Err(
                        Failure::msg(
                            cat3("the version ", v.as_str(), " cannot be raised further"),
                        ),
                    );
                }
                let to = from.bump(level);
                return match write_version(t.as_str(), to, path) {
                    Err(e) => Err(Failure::from_error(&e)),
                    Ok(new) => {
                        let v = to.to_string();
                        let message = cat4(
                            "chore(release): bump version to ",
                            v.as_str(),
                            " for ",
                            branch,
                        );
                        Ok(BumpPlan { from, to, text: new, message })
                    },
                };
            },
        },
    }
    Err(Failure::msg(cat("no readable version in ", path)))
}

// ── Tags ────────────────────────────────────────────────────────────────────

/// What became of a release tag.
#[derive(Debug)]
pub enum TagOutcome {
    /// No tag was asked for, or there is no version to tag.
    Skipped,
    /// The tag is to be created.
    Planned { tag: String },
    Created { tag: String },
    /// The tag was there before, and was left alone.
    Exists { tag: String },
}

/// [`TagOutcome`] by its characters.
pub enum TagOutcomeView {
    Skipped,
    Planned { tag: Seq<char> },
    Created { tag: Seq<char> },
    Exists { tag: Seq<char> },
}

impl DeepView for TagOutcome {
    type V = TagOutcomeView;

    open spec fn deep_view(&self) -> TagOutcomeView {
        match self {
            TagOutcome::Skipped => TagOutcomeView::Skipped,
            TagOutcome::Planned { tag } => TagOutcomeView::Planned { tag: tag@ },
            TagOutcome::Created { tag } => TagOutcomeView::Created { tag: tag@ },
            TagOutcome::Exists { tag } => TagOutcomeView::Exists { tag: tag@ },
        }
    }
}

/// What to do about the tag of a promotion that carries `head`.
pub open spec fn tag_plan(
    config: ConfigView,
    asked: bool,
    head: Option<Semver>,
    exists_already: bool,
    dry_run: bool,
) -> TagOutcomeView {
    match head {
        Some(v) => {
            let tag = "v"@ + v.text();
            if !asked || !config.tag_on_promote {
                TagOutcomeView::Skipped
            } else if exists_already {
                TagOutcomeView::Exists { tag }
            } else if dry_run {
                TagOutcomeView::Planned { tag }
            } else {
                TagOutcomeView::Created { tag }
            }
        },
        None => TagOutcomeView::Skipped,
    }
}

/// Decides what to do about the tag of a promotion. A tag that exists is left
/// alone.
pub fn plan_tag(
    config: &Config,
    asked: bool,
    head: Option<Semver>,
    exists_already: bool,
    dry_run: bool,
) -> (r: TagOutcome)
    ensures
        r.deep_view() == tag_plan(config.deep_view(), asked, head, exists_already, dry_run),
{
    match head {
        None => TagOutcome::Skipped,
        Some(v) => {
            if !asked || !config.tag_on_promote {
                return TagOutcome::Skipped;
            }
            let tag = v.tag();
            if exists_already {
                TagOutcome::Exists { tag }
            } else if dry_run {
                TagOutcome::Planned { tag }
            } else {
                TagOutcome::Created { tag }
            }
        },
    }
}

/// The message of a release tag: its name, then what was promoted.
pub open spec fn tag_text(tag: Seq<char>, body: Option<Seq<char>>) -> Seq<char> {
    match body {
        Some(b) => "Release "@ + tag + "\n\n"@ + b,
        None => "Release "@ + tag,
    }
}

/// The message of a release tag.
pub fn tag_message(tag: &str, body: &Option<String>) -> (r: String)
    ensures
        r@ == tag_text(tag@, body.deep_view()),
{
    match body {
        Some(b) => cat4("Release ", tag, "\n\n", b.as_str()),
        None => cat("Release ", tag),
    }
}

impl TagOutcome {
    /// What became of the tag, in words; none where there is nothing to say.
    pub open spec fn described(o: TagOutcomeView) -> Option<Seq<char>> {
        match o {
            TagOutcomeView::Skipped => None,
            TagOutcomeView::Planned { tag } => Some("Dry-run: would create tag "@ + tag),
            TagOutcomeView::Created { tag } => Some("Created tag "@ + tag),
            TagOutcomeView::Exists { tag } => Some("Tag "@ + tag + " already exists; left alone"@),
        }
    }

    /// What became of the tag, in words.
    pub fn describe(&self) -> (r: Option<String>)
        ensures
            r.deep_view() == TagOutcome::described(self.deep_view()),
    {
        match self {
            TagOutcome::Skipped => None,
            TagOutcome::Planned { tag } => Some(cat("Dry-run: would create tag ", tag.as_str())),
            TagOutcome::Created { tag } => Some(cat("Created tag ", tag.as_str())),
            TagOutcome::Exists { tag } => Some(
                cat3("Tag ", tag.as_str(), " already exists; left alone"),
            ),
        }
    }

    /// The tag that was created.
    pub fn created_tag(&self) -> (r: Option<String>)
        ensures
            r.deep_view() == (match self.deep_view() {
                TagOutcomeView::Created { tag } => Some(tag),
                _ => None,
            }),
    {
        match self {
            TagOutcome::Created { tag } => Some(tag.clone()),
            _ => None,
        }
    }
}

/// What to do about pushing a tag.
#[derive(Debug)]
pub enum TagPush {
    /// Nothing.
    Leave,
    /// Push it.
    Push,
    /// Ask this first.
    Ask { question: String },
    /// Only say this.
    Say { line: String },
}

/// [`TagPush`] by its characters.
pub enum TagPushView {
    Leave,
    Push,
    Ask { question: Seq<char> },
    Say { line: Seq<char> },
}

impl DeepView for TagPush {
    type V = TagPushView;

    open spec fn deep_view(&self) -> TagPushView {
        match self {
            TagPush::Leave => TagPushView::Leave,
            TagPush::Push => TagPushView::Push,
            TagPush::Ask { question } => TagPushView::Ask { question: question@ },
            TagPush::Say { line } => TagPushView::Say { line: line@ },
        }
    }
}

/// What to do about pushing a freshly created tag: never without being told or
/// asked.
pub open spec fn push_plan(
    config: ConfigView,
    tag: Seq<char>,
    has_remote: bool,
    yes: bool,
    terminal: bool,
) -> TagPushView {
    if !config.push_tag || !has_remote {
        TagPushView::Leave
    } else if yes {
        TagPushView::Push
    } else if terminal {
        TagPushView::Ask { question: "Push tag "@ + tag + " to origin? [y/N] "@ }
    } else {
        TagPushView::Say {
            line: "note: tag "@ + tag + " was not pushed (run with --yes, or: git push origin "@
                + tag + ")"@,
        }
    }
}

/// Decides what to do about pushing a freshly created tag.
pub fn offer_tag_push(config: &Config, tag: &str, has_remote: bool, yes: bool, terminal: bool) -> (r:
    TagPush)
    ensures
        r.deep_view() == push_plan(config.deep_view(), tag@, has_remote, yes, terminal),
{
    if !config.push_tag || !has_remote {
        return TagPush::Leave;
    }
    if yes {
        return TagPush::Push;
    }
    if terminal {
        return TagPush::Ask { question: cat3("Push tag ", tag, " to origin? [y/N] ") };
    }
    TagPush::Say {
        line: cat5(
            "note: tag ",
            tag,
            " was not pushed (run with --yes, or: git push origin ",
            tag,
            ")",
        ),
    }
}

/// What is said once a tag was pushed, or kept after asking.
pub fn tag_push_line(tag: &str, pushed: bool) -> (r: String)
    ensures
        r@ == (if pushed {
            "Pushed tag "@ + tag@ + " to origin"@
        } else {
            "note: tag "@ + tag@ + " kept local (push later with: git push origin "@ + tag@ + ")"@
        }),
{
    if pushed {
        cat3("Pushed tag ", tag, " to origin")
    } else {
        cat5("note: tag ", tag, " kept local (push later with: git push origin ", tag, ")")
    }
}

// ── Laws ────────────────────────────────────────────────────────────────────

/// A version below the target's is always refused, whatever was asked for.
pub proof fn law_lower_version_is_refused(
    c: VersionCheck,
    current: Seq<char>,
    source: Seq<char>,
    target: Seq<char>,
    ask: VersionAsk,
)
    requires
        c.status is Lower,
    ensures
        version_step(c, current, source, target, ask) is Refuse,
{
}

/// A bump is only ever made on the branch that is merged from, and never in a
/// rehearsal.
pub proof fn law_bump_lands_on_the_source(
    c: VersionCheck,
    current: Seq<char>,
    source: Seq<char>,
    target: Seq<char>,
    ask: VersionAsk,
)
    requires
        version_step(c, current, source, target, ask) is Bump || version_step(
            c,
            current,
            source,
            target,
            ask,
        ) is Ask,
    ensures
        current == source,
        !ask.dry_run,
{
}

/// A repository without a manifest, or with the check switched off, is not held
/// up and has nothing reported.
pub proof fn law_unversioned_repositories_are_silent(
    config: ConfigView,
    head: Option<Seq<char>>,
    base: Option<Seq<char>>,
    source: Seq<char>,
    target: Seq<char>,
)
    requires
        !config.version_gate || head is None && base is None,
    ensures
        gate_check(config, head, base).status is NotApplicable,
        version_line_of(gate_check(config, head, base), source, target) is None,
{
}

/// A tag is never pushed without confirmation or an explicit yes.
pub proof fn law_tags_are_pushed_on_demand(
    config: ConfigView,
    tag: Seq<char>,
    has_remote: bool,
    yes: bool,
    terminal: bool,
)
    ensures
        push_plan(config, tag, has_remote, yes, terminal) is Push ==> yes,
{
}

/// Only from the rolling branch does a merge answer for its version, and then it is
/// the merge of rolling into stable.
pub proof fn law_rolling_answers_for_its_version(config: ConfigView, current: Seq<char>)
    ensures
        gated_merge(config, current) is Some <==> current == config.rolling_branch,
        gated_merge(config, current) matches Some(m) ==> m == (
            config.rolling_branch,
            config.stable_branch,
        ),
{
}

/// With the check switched on, what the source's manifest declares is held against
/// what the target's does: a release passes exactly when it is above what the
/// target declares, or when the target has no manifest.
pub proof fn law_the_check_compares_the_manifests(
    config: ConfigView,
    head: Seq<char>,
    base: Option<Seq<char>>,
)
    requires
        config.version_gate,
        version_of(Some(head)) matches Some(h) && h.dev_roll is None,
        base matches Some(t) ==> version_of(Some(t)) is Some,
    ensures
        gate_check(config, Some(head), base).head == version_of(Some(head)),
        base is None ==> gate_check(config, Some(head), base).status is Raised,
        base matches Some(t) ==> (gate_check(config, Some(head), base).status is Raised
            <==> version_of(Some(t))->0.below(version_of(Some(head))->0)),
        base matches Some(t) ==> gate_check(config, Some(head), base).base == version_of(Some(t)),
{
    match base {
        Some(t) => {
            law_release_check_is_the_order(version_of(Some(head))->0, version_of(Some(t))->0);
            law_order_is_total(version_of(Some(head))->0, version_of(Some(t))->0);
        },
        None => {},
    }
}

/// What is done about a version before a merge follows from the verdict and from
/// what was asked for, one case at a time.
pub proof fn law_every_verdict_is_dealt_with(
    c: VersionCheck,
    current: Seq<char>,
    source: Seq<char>,
    target: Seq<char>,
    ask: VersionAsk,
)
    ensures
        ({
            let step = version_step(c, current, source, target, ask);
            let passes = c.status is Raised || c.status is NotApplicable;
            let open = !passes && c.status !is Lower;
            let here = open && !ask.dry_run && current == source;
            &&& step is Proceed <==> passes
            &&& step is Report <==> open && ask.dry_run
            &&& step is Bump <==> here && (ask.bump is Some || ask.yes)
            &&& step is Bump && ask.bump is Some ==> step->Bump_level == ask.bump->0
            &&& step is Bump && ask.bump is None ==> step->Bump_level is Patch
            &&& step is Ask <==> here && ask.bump is None && !ask.yes && ask.terminal
            &&& step is Warn <==> here && ask.bump is None && !ask.yes && !ask.terminal
                && ask.forced
            &&& step is Refuse <==> c.status is Lower || (open && !ask.dry_run && current != source)
                || (here && ask.bump is None && !ask.yes && !ask.terminal && !ask.forced)
        }),
{
}

/// A bump raises one number by one and keeps those above it; those below it start
/// again from zero.
pub proof fn law_bumps_raise_one_number(
    text: Option<Seq<char>>,
    level: BumpLevel,
    branch: Seq<char>,
    path: Seq<char>,
)
    ensures
        bump_of(text, level, branch, path) matches Ok(plan) ==> {
            &&& version_of(text) == Some(plan.from)
            &&& plan.to.dev_roll == plan.from.dev_roll
            &&& level is Patch ==> plan.to.major == plan.from.major && plan.to.minor
                == plan.from.minor && plan.to.patch == plan.from.patch + 1
            &&& level is Minor ==> plan.to.major == plan.from.major && plan.to.minor
                == plan.from.minor + 1 && plan.to.patch == 0
            &&& level is Major ==> plan.to.major == plan.from.major + 1 && plan.to.minor == 0
                && plan.to.patch == 0
            &&& with_version(text->0, plan.to) == Some(plan.text)
        },
{
}

/// A promotion is tagged exactly when a tag was asked for, the configuration wants
/// one and there is a version to tag. A tag that exists is left alone, and a
/// rehearsal only plans one.
pub proof fn law_tags_are_made_when_wanted(
    config: ConfigView,
    asked: bool,
    head: Option<Semver>,
    exists_already: bool,
    dry_run: bool,
)
    ensures
        ({
            let r = tag_plan(config, asked, head, exists_already, dry_run);
            let wanted = asked && config.tag_on_promote && head is Some;
            let tag = "v"@ + head->0.text();
            &&& r is Skipped <==> !wanted
            &&& wanted && exists_already ==> r == TagOutcomeView::Exists { tag }
            &&& wanted && !exists_already && dry_run ==> r == TagOutcomeView::Planned { tag }
            &&& wanted && !exists_already && !dry_run ==> r == TagOutcomeView::Created { tag }
        }),
{
}

/// A new tag is pushed, asked about or only mentioned exactly where the
/// configuration wants it pushed and there is a remote: pushed on a yes, asked about
/// where someone is there, mentioned otherwise.
pub proof fn law_new_tags_are_offered(
    config: ConfigView,
    tag: Seq<char>,
    has_remote: bool,
    yes: bool,
    terminal: bool,
)
    ensures
        ({
            let r = push_plan(config, tag, has_remote, yes, terminal);
            let offered = config.push_tag && has_remote;
            &&& r is Leave <==> !offered
            &&& r is Push <==> offered && yes
            &&& r is Ask <==> offered && !yes && terminal
            &&& r is Say <==> offered && !yes && !terminal
        }),
{
}

/// An answer names the level by its word or its letter, of which only the capital
/// one stands for a major bump; an empty answer is a patch, and any other declines.
pub proof fn law_answers_name_a_level(answer: Seq<char>)
    ensures
        ({
            let a = trimmed(answer);
            let patch = a.len() == 0 || a == "p"@ || a == "patch"@;
            let minor = a == "m"@ || a == "minor"@;
            let major = a == "M"@ || a == "major"@ || a == "MAJOR"@;
            &&& patch ==> answered_level(answer) == Some(BumpLevel::Patch)
            &&& minor ==> answered_level(answer) == Some(BumpLevel::Minor)
            &&& major ==> answered_level(answer) == Some(BumpLevel::Major)
            &&& answered_level(answer) is None <==> !patch && !minor && !major
        }),
{
    reveal_strlit("");
    reveal_strlit("p");
    reveal_strlit("patch");
    reveal_strlit("m");
    reveal_strlit("minor");
    reveal_strlit("M");
    reveal_strlit("major");
    reveal_strlit("MAJOR");
    let a = trimmed(answer);
    if a.len() == 0 {
        assert(a =~= ""@);
    }
    assert("p"@[0] == 'p' && "m"@[0] == 'm' && "M"@[0] == 'M');
    assert("patch"@[0] == 'p' && "minor"@[0] == 'm' && "major"@[0] == 'm' && "MAJOR"@[0] == 'M');
    assert("minor"@[1] == 'i' && "major"@[1] == 'a');
    assert("m"@.len() == 1 && "minor"@.len() == 5);
}

/// A comparison is reported exactly where there is something to compare, and only a
/// raised version is reported as good.
pub proof fn law_comparisons_are_reported(c: VersionCheck, source: Seq<char>, target: Seq<char>)
    ensures
        version_line_of(c, source, target) is None <==> c.status is NotApplicable,
        verdict_text(c.status) == Some("OK"@) <==> c.status is Raised,
{
    reveal_strlit("OK");
    reveal_strlit("UNCHANGED");
    reveal_strlit("LOWER");
    reveal_strlit("DEV");
    reveal_strlit("UNREADABLE");
    assert("OK"@.len() == 2 && "UNCHANGED"@.len() == 9 && "LOWER"@.len() == 5 && "DEV"@.len() == 3
        && "UNREADABLE"@.len() == 10);
}

/// A tag is spoken of exactly where one was wanted.
pub proof fn law_wanted_tags_are_spoken_of(o: TagOutcomeView)
    ensures
        TagOutcome::described(o) is None <==> o is Skipped,
{
}

} // verus!
