//! Where a branch can be merged, and whether it is ready.
use vstd::prelude::*;

use crate::config::{Config, ConfigView, CONFIG_NAME};
use crate::failure::{headline, outcome, Failure};
use crate::text::{
    begins, cat, cat3, cat4, cat5, lines, lines_of, owned, same, starts_with, trim, trimmed,
};

verus! {

/// The prefix of hotfix branches.
pub const HOTFIX_PREFIX: &'static str = "hotfix/";

// ── Clean state ─────────────────────────────────────────────────────────────

/// Whether what `git status --porcelain` printed leaves the workflow alone:
/// nothing, or nothing but an untracked configuration file.
pub open spec fn clean_enough(status: Seq<char>) -> bool {
    trimmed(status).len() == 0 || forall|i: int|
        0 <= i < lines_of(status).len() ==> trimmed(#[trigger] lines_of(status)[i]) == "?? "@
            + CONFIG_NAME@
}

/// Whether the working tree is clean enough for the workflow.
pub fn workflow_clean(status: &str) -> (r: bool)
    ensures
        r == clean_enough(status@),
{
    if trim(status).is_empty() {
        return true;
    }
    let allowed = cat("?? ", CONFIG_NAME);
    let all = lines(status);
    let mut i: usize = 0;
    while i < all.len()
        invariant
            i <= all@.len(),
            trimmed(status@).len() > 0,
            all.deep_view() == lines_of(status@),
            allowed@ == "?? "@ + CONFIG_NAME@,
            forall|k: int|
                0 <= k < i ==> trimmed(#[trigger] lines_of(status@)[k]) == "?? "@ + CONFIG_NAME@,
        decreases all@.len() - i,
    {
        assert(lines_of(status@)[i as int] == all@[i as int]@);
        if !same(trim(all[i].as_str()), allowed.as_str()) {
            return false;
        }
        i += 1;
    }
    true
}

/// Refuses a detached head and a working tree that is not clean enough.
pub fn ensure_clean_state(detached: bool, status: &str) -> (r: Result<(), Failure>)
    ensures
        outcome(r) == (if detached {
            Err(seq!["detached HEAD is not supported"@])
        } else if !clean_enough(status@) {
            Err(seq!["working tree must be clean"@])
        } else {
            Ok(())
        }),
{
    if detached {
        return Err(Failure::msg("detached HEAD is not supported".to_owned()));
    }
    if !workflow_clean(status) {
        return Err(Failure::msg("working tree must be clean".to_owned()));
    }
    Ok(())
}

// ── Routes ──────────────────────────────────────────────────────────────────

/// Where a merge goes from a branch.
#[derive(Debug)]
pub enum Route {
    /// A roll goes to the rolling branch.
    Graduate { roll: String },
    /// The rolling branch goes to the stable branch.
    Promote,
}

/// [`Route`] by its characters.
pub enum RouteView {
    Graduate { roll: Seq<char> },
    Promote,
}

impl DeepView for Route {
    type V = RouteView;

    open spec fn deep_view(&self) -> RouteView {
        match self {
            Route::Graduate { roll } => RouteView::Graduate { roll: roll@ },
            Route::Promote => RouteView::Promote,
        }
    }
}

/// Where a merge goes from `current`.
pub open spec fn route_of(config: ConfigView, current: Seq<char>) -> Option<RouteView> {
    if current == config.rolling_branch {
        Some(RouteView::Promote)
    } else if begins(current, config.roll_prefix) {
        Some(RouteView::Graduate { roll: current })
    } else {
        None
    }
}

/// Infers where a merge goes from the current branch.
pub fn infer_route(config: &Config, current: &str) -> (r: Option<Route>)
    ensures
        r.deep_view() == route_of(config.deep_view(), current@),
{
    if same(current, config.rolling_branch.as_str()) {
        Some(Route::Promote)
    } else if starts_with(current, config.roll_prefix.as_str()) {
        Some(Route::Graduate { roll: owned(current) })
    } else {
        None
    }
}

/// What is said of a branch that a merge cannot start from.
pub open spec fn not_promotable(config: ConfigView, current: Seq<char>) -> Seq<char> {
    "branch '"@ + current + "' is not promotable; expected '"@ + config.rolling_branch + "' or '"@
        + config.roll_prefix + "*'"@
}

/// What is said of a branch that a merge cannot start from.
pub fn not_promotable_error(config: &Config, current: &str) -> (r: String)
    ensures
        r@ == not_promotable(config.deep_view(), current@),
{
    let front = cat4(
        "branch '",
        current,
        "' is not promotable; expected '",
        config.rolling_branch.as_str(),
    );
    cat4(front.as_str(), "' or '", config.roll_prefix.as_str(), "*'")
}

/// What is said of a target that does not exist locally.
pub open spec fn target_missing(target: Seq<char>, on_origin: bool) -> Seq<char> {
    if on_origin {
        "target branch '"@ + target + "' not found locally; create it with `git branch "@ + target
            + " origin/"@ + target + "`"@
    } else {
        "target branch '"@ + target + "' not found"@
    }
}

/// What is said of a target that does not exist locally.
pub fn target_missing_error(target: &str, on_origin: bool) -> (r: String)
    ensures
        r@ == target_missing(target@, on_origin),
{
    if on_origin {
        let front = cat4(
            "target branch '",
            target,
            "' not found locally; create it with `git branch ",
            target,
        );
        cat4(front.as_str(), " origin/", target, "`")
    } else {
        cat3("target branch '", target, "' not found")
    }
}

/// What makes a target usable.
#[derive(Debug)]
pub enum LocalTarget {
    /// The reference to merge into as it stands.
    Use { reference: String },
    /// The arguments that create the local branch first, and what to say if
    /// that fails.
    Create { args: Vec<String>, reference: String, on_failure: String },
}

/// [`LocalTarget`] by its characters.
pub enum LocalTargetView {
    Use { reference: Seq<char> },
    Create { args: Seq<Seq<char>>, reference: Seq<char>, on_failure: Seq<char> },
}

impl DeepView for LocalTarget {
    type V = LocalTargetView;

    open spec fn deep_view(&self) -> LocalTargetView {
        match self {
            LocalTarget::Use { reference } => LocalTargetView::Use { reference: reference@ },
            LocalTarget::Create { args, reference, on_failure } => LocalTargetView::Create {
                args: args.deep_view(),
                reference: reference@,
                on_failure: on_failure@,
            },
        }
    }
}

/// How a target becomes usable: as it is where it exists locally; created from
/// the remote where it only exists there, unless nothing may change, in which
/// case the remote's copy stands in; and not at all where it exists nowhere.
pub open spec fn local_target(
    target: Seq<char>,
    local: bool,
    on_origin: bool,
    dry_run: bool,
) -> Result<LocalTargetView, Seq<Seq<char>>> {
    let remote = "origin/"@ + target;
    if local {
        Ok(LocalTargetView::Use { reference: target })
    } else if on_origin && dry_run {
        Ok(LocalTargetView::Use { reference: remote })
    } else if on_origin {
        Ok(
            LocalTargetView::Create {
                args: seq!["branch"@, target, remote],
                reference: target,
                on_failure: "failed to create local branch '"@ + target + "' from '"@ + remote
                    + "'"@,
            },
        )
    } else {
        Err(seq![target_missing(target, on_origin)])
    }
}

/// Decides how a target becomes usable as a local branch.
pub fn ensure_local_target(target: &str, local: bool, on_origin: bool, dry_run: bool) -> (r: Result<
    LocalTarget,
    Failure,
>)
    ensures
        outcome(r) == local_target(target@, local, on_origin, dry_run),
{
    if local {
        return Ok(LocalTarget::Use { reference: owned(target) });
    }
    let remote = cat("origin/", target);
    if on_origin {
        if dry_run {
            return Ok(LocalTarget::Use { reference: remote });
        }
        let on_failure = cat5(
            "failed to create local branch '",
            target,
            "' from '",
            remote.as_str(),
            "'",
        );
        let args = vec!["branch".to_owned(), owned(target), remote];
        assert(args.deep_view() =~= seq!["branch"@, target@, "origin/"@ + target@]);
        return Ok(LocalTarget::Create { args, reference: owned(target), on_failure });
    }
    Err(Failure::msg(target_missing_error(target, on_origin)))
}

// ── Topology ────────────────────────────────────────────────────────────────

/// How a source stands to a target.
#[derive(Debug, Clone, Copy, PartialEq, Eq, Structural)]
pub enum MergeState {
    /// The target is strictly behind the source.
    FastForwardable,
    /// Both sides have commits of their own.
    Diverged,
    /// The source has nothing that the target lacks.
    NothingToMerge,
    /// There is no local target branch.
    TargetMissing,
    /// The two share no history.
    UnrelatedHistories,
}

impl DeepView for MergeState {
    type V = MergeState;

    open spec fn deep_view(&self) -> MergeState {
        *self
    }
}

/// What git says of a source and a target.
pub struct MergeFacts {
    pub target_exists: bool,
    pub source_sha: Result<String, Failure>,
    pub target_sha: Result<String, Failure>,
    /// Whether the source is an ancestor of the target.
    pub source_in_target: Result<bool, Failure>,
    /// Whether the target is an ancestor of the source.
    pub target_in_source: Result<bool, Failure>,
    /// Whether the two have a common ancestor.
    pub has_base: bool,
}

/// [`MergeFacts`] by its characters.
pub struct MergeFactsView {
    pub target_exists: bool,
    pub source_sha: Result<Seq<char>, Seq<Seq<char>>>,
    pub target_sha: Result<Seq<char>, Seq<Seq<char>>>,
    pub source_in_target: Result<bool, Seq<Seq<char>>>,
    pub target_in_source: Result<bool, Seq<Seq<char>>>,
    pub has_base: bool,
}

impl DeepView for MergeFacts {
    type V = MergeFactsView;

    open spec fn deep_view(&self) -> MergeFactsView {
        MergeFactsView {
            target_exists: self.target_exists,
            source_sha: outcome(self.source_sha),
            target_sha: outcome(self.target_sha),
            source_in_target: outcome(self.source_in_target),
            target_in_source: outcome(self.target_in_source),
            has_base: self.has_base,
        }
    }
}

/// How a source stands to a target, from what git says. What fails first is
/// reported.
pub open spec fn merge_state(source: Seq<char>, f: MergeFactsView) -> Result<
    MergeState,
    Seq<Seq<char>>,
> {
    if !f.target_exists {
        Ok(MergeState::TargetMissing)
    } else {
        match f.source_sha {
            Err(e) => Err(seq!["source branch '"@ + source + "' not found"@] + e),
            Ok(s) => match f.target_sha {
                Err(e) => Err(e),
                Ok(t) => if s == t {
                    Ok(MergeState::NothingToMerge)
                } else {
                    match f.source_in_target {
                        Err(e) => Err(e),
                        Ok(true) => Ok(MergeState::NothingToMerge),
                        Ok(false) => match f.target_in_source {
                            Err(e) => Err(e),
                            Ok(true) => Ok(MergeState::FastForwardable),
                            Ok(false) => if f.has_base {
                                Ok(MergeState::Diverged)
                            } else {
                                Ok(MergeState::UnrelatedHistories)
                            },
                        },
                    }
                },
            },
        }
    }
}

/// Classifies a prospective merge.
pub fn classify_merge(source: &str, facts: &MergeFacts) -> (r: Result<MergeState, Failure>)
    ensures
        outcome(r) == merge_state(source@, facts.deep_view()),
{
    if !facts.target_exists {
        return Ok(MergeState::TargetMissing);
    }
    match &facts.source_sha {
        Err(e) => {
            let copy = e.copy();
            Err(copy.context(cat3("source branch '", source, "' not found")))
        },
        Ok(s) => match &facts.target_sha {
            Err(e) => Err(e.copy()),
            Ok(t) => {
                if same(s.as_str(), t.as_str()) {
                    return Ok(MergeState::NothingToMerge);
                }
                match &facts.source_in_target {
                    Err(e) => Err(e.copy()),
                    Ok(true) => Ok(MergeState::NothingToMerge),
                    Ok(false) => match &facts.target_in_source {
                        Err(e) => Err(e.copy()),
                        Ok(true) => Ok(MergeState::FastForwardable),
                        Ok(false) => {
                            if facts.has_base {
                                Ok(MergeState::Diverged)
                            } else {
                                Ok(MergeState::UnrelatedHistories)
                            }
                        },
                    },
                }
            },
        },
    }
}

/// The tier of a branch, in a word.
pub open spec fn tier_of(config: ConfigView, current: Seq<char>, detached: bool) -> Seq<char> {
    if detached {
        "detached"@
    } else if current == config.stable_branch {
        "main"@
    } else if current == config.rolling_branch {
        "rolling"@
    } else if begins(current, config.roll_prefix) {
        "roll"@
    } else if begins(current, HOTFIX_PREFIX@) {
        "hotfix"@
    } else {
        "other"@
    }
}

/// The tier of a branch, in a word.
pub fn branch_tier(config: &Config, current: &str, detached: bool) -> (r: String)
    ensures
        r@ == tier_of(config.deep_view(), current@, detached),
{
    if detached {
        return "detached".to_owned();
    }
    if same(current, config.stable_branch.as_str()) {
        return "main".to_owned();
    }
    if same(current, config.rolling_branch.as_str()) {
        return "rolling".to_owned();
    }
    if starts_with(current, config.roll_prefix.as_str()) {
        return "roll".to_owned();
    }
    if starts_with(current, HOTFIX_PREFIX) {
        return "hotfix".to_owned();
    }
    "other".to_owned()
}

// ── Whether a merge may go ahead ────────────────────────────────────────────

/// Which word an operation uses for having nothing to do.
#[derive(Debug, Clone, Copy, PartialEq, Eq, Structural)]
pub enum MergeVerb {
    Merge,
    Land,
    Graduate,
    Promote,
}

impl MergeVerb {
    /// The verb.
    pub open spec fn text(self) -> Seq<char> {
        match self {
            MergeVerb::Merge => "merge"@,
            MergeVerb::Land => "land"@,
            MergeVerb::Graduate => "graduate"@,
            MergeVerb::Promote => "promote"@,
        }
    }

    fn word(self) -> (r: &'static str)
        ensures
            r@ == self.text(),
    {
        match self {
            MergeVerb::Merge => "merge",
            MergeVerb::Land => "land",
            MergeVerb::Graduate => "graduate",
            MergeVerb::Promote => "promote",
        }
    }
}

/// Whether a merge of `source` into `target` may go ahead, and if so whether
/// the two have diverged.
pub open spec fn viable(
    verb: MergeVerb,
    source: Seq<char>,
    target: Seq<char>,
    on_origin: bool,
    f: MergeFactsView,
) -> Result<bool, Seq<Seq<char>>> {
    match merge_state(source, f) {
        Err(e) => Err(e),
        Ok(MergeState::TargetMissing) => Err(seq![target_missing(target, on_origin)]),
        Ok(MergeState::UnrelatedHistories) => Err(
            seq!["'"@ + source + "' and '"@ + target + "' share no common history"@],
        ),
        Ok(MergeState::NothingToMerge) => Err(
            seq![
                "nothing to "@ + verb.text() + ": '"@ + source + "' has no commits that '"@
                    + target + "' lacks (already up to date)"@,
            ],
        ),
        Ok(MergeState::Diverged) => Ok(true),
        Ok(MergeState::FastForwardable) => Ok(false),
    }
}

/// Decides whether a merge may go ahead.
pub fn check_merge(
    verb: MergeVerb,
    source: &str,
    target: &str,
    on_origin: bool,
    facts: &MergeFacts,
) -> (r: Result<bool, Failure>)
    ensures
        outcome(r) == viable(verb, source@, target@, on_origin, facts.deep_view()),
{
    match classify_merge(source, facts) {
        Err(e) => Err(e),
        Ok(MergeState::TargetMissing) => Err(
            Failure::msg(target_missing_error(target, on_origin)),
        ),
        Ok(MergeState::UnrelatedHistories) => Err(
            Failure::msg(cat5("'", source, "' and '", target, "' share no common history")),
        ),
        Ok(MergeState::NothingToMerge) => {
            let front = cat5(
                "nothing to ",
                verb.word(),
                ": '",
                source,
                "' has no commits that '",
            );
            Err(
                Failure::msg(
                    cat3(front.as_str(), target, "' lacks (already up to date)"),
                ),
            )
        },
        Ok(MergeState::Diverged) => Ok(true),
        Ok(MergeState::FastForwardable) => Ok(false),
    }
}

/// What a route merges into what.
pub open spec fn endpoints(config: ConfigView, route: RouteView) -> (Seq<char>, Seq<char>) {
    match route {
        RouteView::Graduate { roll } => (roll, config.rolling_branch),
        RouteView::Promote => (config.rolling_branch, config.stable_branch),
    }
}

/// What a route merges into what.
pub fn route_endpoints(config: &Config, route: &Route) -> (r: (String, String))
    ensures
        r.deep_view() == endpoints(config.deep_view(), route.deep_view()),
{
    match route {
        Route::Graduate { roll } => (roll.clone(), config.rolling_branch.clone()),
        Route::Promote => (config.rolling_branch.clone(), config.stable_branch.clone()),
    }
}

/// The gates of a route.
pub open spec fn gates_of(config: ConfigView, route: RouteView) -> Seq<Seq<char>> {
    match route {
        RouteView::Graduate { roll } => config.roll_to_rolling_gates,
        RouteView::Promote => config.rolling_to_main_gates,
    }
}

/// The gates of a route.
pub fn route_gates<'a>(config: &'a Config, route: &Route) -> (r: &'a Vec<String>)
    ensures
        r.deep_view() == gates_of(config.deep_view(), route.deep_view()),
        route is Graduate ==> r.deep_view() == config.deep_view().roll_to_rolling_gates,
        route is Promote ==> r.deep_view() == config.deep_view().rolling_to_main_gates,
{
    match route {
        Route::Graduate { roll: _ } => &config.roll_to_rolling_gates,
        Route::Promote => &config.rolling_to_main_gates,
    }
}

/// What a verification starts from: the merge it stands for, and whether the
/// target has commits that the source lacks.
#[derive(Debug)]
pub struct VerifyStart {
    pub source: String,
    pub target: String,
    pub diverged_note: bool,
}

/// [`VerifyStart`] by its characters.
pub struct VerifyStartView {
    pub source: Seq<char>,
    pub target: Seq<char>,
    pub diverged_note: bool,
}

impl DeepView for VerifyStart {
    type V = VerifyStartView;

    open spec fn deep_view(&self) -> VerifyStartView {
        VerifyStartView {
            source: self.source@,
            target: self.target@,
            diverged_note: self.diverged_note,
        }
    }
}

/// What a verification of `current` starts from, or why it cannot.
pub open spec fn verify_start(
    config: ConfigView,
    current: Seq<char>,
    on_origin: bool,
    f: MergeFactsView,
) -> Result<VerifyStartView, Seq<Seq<char>>> {
    match route_of(config, current) {
        None => Err(seq![not_promotable(config, current)]),
        Some(route) => {
            let (source, target) = endpoints(config, route);
            match viable(MergeVerb::Merge, source, target, on_origin, f) {
                Err(e) => Err(e),
                Ok(diverged) => Ok(VerifyStartView { source, target, diverged_note: diverged }),
            }
        },
    }
}

/// Decides what a verification of the current branch starts from. `on_origin`
/// says whether the target exists on the remote.
pub fn verify(config: &Config, current: &str, on_origin: bool, facts: &MergeFacts) -> (r: Result<
    VerifyStart,
    Failure,
>)
    ensures
        outcome(r) == verify_start(config.deep_view(), current@, on_origin, facts.deep_view()),
{
    match infer_route(config, current) {
        None => Err(Failure::msg(not_promotable_error(config, current))),
        Some(route) => {
            let (source, target) = route_endpoints(config, &route);
            match check_merge(
                MergeVerb::Merge,
                source.as_str(),
                target.as_str(),
                on_origin,
                facts,
            ) {
                Err(e) => Err(e),
                Ok(diverged) => Ok(VerifyStart { source, target, diverged_note: diverged }),
            }
        },
    }
}

// ── Readiness ───────────────────────────────────────────────────────────────

/// Whether the current branch is ready to be merged on.
#[derive(Debug)]
pub struct PromotionReadinessData {
    pub description: String,
    pub ready: bool,
    pub reason: Option<String>,
}

/// [`PromotionReadinessData`] by its characters.
pub struct ReadinessView {
    pub description: Seq<char>,
    pub ready: bool,
    pub reason: Option<Seq<char>>,
}

impl DeepView for PromotionReadinessData {
    type V = ReadinessView;

    open spec fn deep_view(&self) -> ReadinessView {
        ReadinessView {
            description: self.description@,
            ready: self.ready,
            reason: self.reason.deep_view(),
        }
    }
}

/// What git says of the current branch, for [`promotion_readiness`].
pub struct ReadinessFacts {
    pub clean: bool,
    pub detached: bool,
    /// Whether the current roll has been promoted.
    pub promoted: bool,
    /// Whether the current roll has a graduation merge on the rolling branch.
    pub graduated: bool,
    /// Whether the target exists on the remote.
    pub target_on_origin: bool,
    pub merge: MergeFacts,
}

/// [`ReadinessFacts`] by its characters.
pub struct ReadinessFactsView {
    pub clean: bool,
    pub detached: bool,
    pub promoted: bool,
    pub graduated: bool,
    pub target_on_origin: bool,
    pub merge: MergeFactsView,
}

impl DeepView for ReadinessFacts {
    type V = ReadinessFactsView;

    open spec fn deep_view(&self) -> ReadinessFactsView {
        ReadinessFactsView {
            clean: self.clean,
            detached: self.detached,
            promoted: self.promoted,
            graduated: self.graduated,
            target_on_origin: self.target_on_origin,
            merge: self.merge.deep_view(),
        }
    }
}

/// Not ready, and why.
pub open spec fn unready(description: Seq<char>, reason: Seq<char>) -> ReadinessView {
    ReadinessView { description, ready: false, reason: Some(reason) }
}

/// The command of a route.
pub open spec fn route_verb(route: RouteView) -> Seq<char> {
    match route {
        RouteView::Graduate { roll } => "graduate"@,
        RouteView::Promote => "promote"@,
    }
}

/// Why a merge in this state is not ready.
pub open spec fn state_reason(
    route: RouteView,
    source: Seq<char>,
    target: Seq<char>,
    f: ReadinessFactsView,
    state: MergeState,
) -> Seq<char> {
    match state {
        MergeState::TargetMissing => target_missing(target, f.target_on_origin),
        MergeState::UnrelatedHistories => "'"@ + source + "' and '"@ + target
            + "' share no common history"@,
        MergeState::NothingToMerge => if route is Graduate && f.graduated {
            "'"@ + source + "' is already graduated into '"@ + target
                + "' — nothing new to merge"@
        } else {
            "nothing to merge: '"@ + source + "' has no commits that '"@ + target + "' lacks"@
        },
        MergeState::Diverged => "'"@ + target + "' has commits not in '"@ + source + "'; rf "@
            + route_verb(route) + " will create a --no-ff merge"@,
        MergeState::FastForwardable => seq![],
    }
}

/// Whether the current branch is ready to be merged on. Only a target strictly
/// behind the source is; a target with commits of its own is not called ready
/// although the merge would go through.
pub open spec fn readiness(
    config: ConfigView,
    current: Seq<char>,
    f: ReadinessFactsView,
) -> ReadinessView {
    if f.detached {
        unready("none"@, "detached HEAD is not supported"@)
    } else {
        match route_of(config, current) {
            None => unready("none"@, not_promotable(config, current)),
            Some(route) => {
                let (source, target) = endpoints(config, route);
                let description = source + " -> "@ + target;
                if !f.clean {
                    unready(description, "working tree must be clean"@)
                } else if route is Graduate && f.promoted {
                    unready(
                        description,
                        "'"@ + source + "' has already been promoted to '"@ + config.stable_branch
                            + "'"@,
                    )
                } else {
                    match merge_state(source, f.merge) {
                        Err(e) => unready(description, headline(e)),
                        Ok(MergeState::FastForwardable) => ReadinessView {
                            description,
                            ready: true,
                            reason: None,
                        },
                        Ok(state) => unready(
                            description,
                            state_reason(route, source, target, f, state),
                        ),
                    }
                }
            },
        }
    }
}

fn say_unready(description: String, reason: String) -> (r: PromotionReadinessData)
    ensures
        r.deep_view() == unready(description@, reason@),
{
    PromotionReadinessData { description, ready: false, reason: Some(reason) }
}

/// Whether the current branch is ready to be merged on; if not, the reason
/// says why.
pub fn promotion_readiness(config: &Config, current: &str, facts: &ReadinessFacts) -> (r:
    PromotionReadinessData)
    ensures
        r.deep_view() == readiness(config.deep_view(), current@, facts.deep_view()),
{
    if facts.detached {
        return say_unready("none".to_owned(), "detached HEAD is not supported".to_owned());
    }
    let route = match infer_route(config, current) {
        None => {
            return say_unready("none".to_owned(), not_promotable_error(config, current));
        },
        Some(route) => route,
    };
    let (source, target) = route_endpoints(config, &route);
    let s = source.as_str();
    let t = target.as_str();
    let description = cat3(s, " -> ", t);
    if !facts.clean {
        return say_unready(description, "working tree must be clean".to_owned());
    }
    let graduating = match &route {
        Route::Graduate { roll: _ } => true,
        Route::Promote => false,
    };
    if graduating && facts.promoted {
        return say_unready(
            description,
            cat5(
                "'",
                s,
                "' has already been promoted to '",
                config.stable_branch.as_str(),
                "'",
            ),
        );
    }
    match classify_merge(s, &facts.merge) {
        Err(e) => {
            let reason = e.to_string();
            say_unready(description, reason)
        },
        Ok(MergeState::FastForwardable) => PromotionReadinessData {
            description,
            ready: true,
            reason: None,
        },
        Ok(MergeState::TargetMissing) => say_unready(
            description,
            target_missing_error(t, facts.target_on_origin),
        ),
        Ok(MergeState::UnrelatedHistories) => say_unready(
            description,
            cat5("'", s, "' and '", t, "' share no common history"),
        ),
        Ok(MergeState::NothingToMerge) => {
            if graduating && facts.graduated {
                say_unready(
                    description,
                    cat5(
                        "'",
                        s,
                        "' is already graduated into '",
                        t,
                        "' — nothing new to merge",
                    ),
                )
            } else {
                say_unready(
                    description,
                    cat5("nothing to merge: '", s, "' has no commits that '", t, "' lacks"),
                )
            }
        },
        Ok(MergeState::Diverged) => {
            let verb = if graduating {
                "graduate"
            } else {
                "promote"
            };
            let front = cat5("'", t, "' has commits not in '", s, "'; rf ");
            say_unready(description, cat3(front.as_str(), verb, " will create a --no-ff merge"))
        },
    }
}

/// A branch that is not ready always comes with a reason, one that is ready
/// never does, and only a clean, attached branch with a route and a target
/// strictly behind it is ready.
pub proof fn law_readiness_is_explained(
    config: ConfigView,
    current: Seq<char>,
    f: ReadinessFactsView,
)
    ensures
        ({
            let r = readiness(config, current, f);
            &&& r.ready <==> r.reason is None
            &&& r.ready ==> f.clean && !f.detached && route_of(config, current) is Some
            &&& r.ready ==> merge_state(
                endpoints(config, route_of(config, current)->0).0,
                f.merge,
            ) == Ok::<MergeState, Seq<Seq<char>>>(MergeState::FastForwardable)
        }),
{
}

/// From the rolling branch a merge goes to the stable branch, and from any other
/// branch under the roll prefix to the rolling branch; from everywhere else it goes
/// nowhere.
pub proof fn law_branches_go_up_one_tier(config: ConfigView, current: Seq<char>)
    ensures
        ({
            let route = route_of(config, current);
            let is_roll = current.len() >= config.roll_prefix.len() && current.take(
                config.roll_prefix.len() as int,
            ) == config.roll_prefix;
            &&& current == config.rolling_branch ==> (route matches Some(r) && endpoints(config, r)
                == (config.rolling_branch, config.stable_branch))
            &&& current != config.rolling_branch && is_roll ==> (route matches Some(r)
                && endpoints(config, r) == (current, config.rolling_branch))
            &&& route is None <==> current != config.rolling_branch && !is_roll
        }),
{
}

/// The gates of a merge are those of the step it takes: what goes from the rolling
/// branch to the stable one passes the gates configured for that step, and what
/// goes from a roll to the rolling branch passes the gates configured for the
/// other.
pub proof fn law_gates_follow_the_merge(config: ConfigView, current: Seq<char>, roll: Seq<char>)
    ensures
        gates_of(config, RouteView::Promote) == config.rolling_to_main_gates,
        endpoints(config, RouteView::Promote).1 == config.stable_branch,
        gates_of(config, RouteView::Graduate { roll }) == config.roll_to_rolling_gates,
        endpoints(config, RouteView::Graduate { roll }).1 == config.rolling_branch,
        current == config.rolling_branch ==> gates_of(config, route_of(config, current)->0)
            == config.rolling_to_main_gates,
        current != config.rolling_branch && route_of(config, current) is Some ==> gates_of(
            config,
            route_of(config, current)->0,
        ) == config.roll_to_rolling_gates,
{
}

/// Where git answers every question, a merge may go ahead exactly when the target
/// exists, the source has commits that the target lacks, and the two share
/// history; and it is diverged exactly when the target has commits that the source
/// lacks as well.
pub proof fn law_merges_carry_new_commits(
    verb: MergeVerb,
    source: Seq<char>,
    target: Seq<char>,
    on_origin: bool,
    f: MergeFactsView,
)
    requires
        f.source_sha is Ok,
        f.target_sha is Ok,
        f.source_in_target is Ok,
        f.target_in_source is Ok,
    ensures
        ({
            let r = viable(verb, source, target, on_origin, f);
            let state = merge_state(source, f);
            let news = f.source_sha->Ok_0 != f.target_sha->Ok_0 && !f.source_in_target->Ok_0;
            let behind = f.target_in_source->Ok_0;
            &&& r is Ok <==> f.target_exists && news && (behind || f.has_base)
            &&& r matches Ok(diverged) ==> diverged == !behind
            &&& state is Ok
            &&& state->Ok_0 is TargetMissing <==> !f.target_exists
            &&& state->Ok_0 is NothingToMerge <==> f.target_exists && !news
            &&& state->Ok_0 is FastForwardable <==> f.target_exists && news && behind
            &&& state->Ok_0 is Diverged <==> f.target_exists && news && !behind && f.has_base
            &&& state->Ok_0 is UnrelatedHistories <==> f.target_exists && news && !behind
                && !f.has_base
        }),
{
}

/// What git could not answer is reported rather than guessed: a merge whose facts
/// failed, up to the first that decides it, never goes ahead.
pub proof fn law_unanswered_questions_stop_a_merge(
    verb: MergeVerb,
    source: Seq<char>,
    target: Seq<char>,
    on_origin: bool,
    f: MergeFactsView,
)
    ensures
        viable(verb, source, target, on_origin, f) is Ok ==> f.target_exists && f.source_sha is Ok
            && f.target_sha is Ok && f.source_in_target == Ok::<bool, Seq<Seq<char>>>(false)
            && f.target_in_source is Ok,
        f.target_exists && (f.source_sha is Err || f.target_sha is Err) ==> merge_state(source, f)
            is Err,
{
}

/// A branch is ready exactly when the head is attached, the branch has somewhere to
/// go, the working tree is clean, the roll has not been promoted, and its target is
/// strictly behind it. What it is ready for is read from one branch to the other.
pub proof fn law_ready_branches_can_go(
    config: ConfigView,
    current: Seq<char>,
    f: ReadinessFactsView,
)
    ensures
        ({
            let r = readiness(config, current, f);
            let on_rolling = current == config.rolling_branch;
            let on_roll = !on_rolling && begins(current, config.roll_prefix);
            let m = f.merge;
            let behind = m.target_exists && m.target_in_source == Ok::<bool, Seq<Seq<char>>>(true)
                && m.source_in_target == Ok::<bool, Seq<Seq<char>>>(false) && m.source_sha is Ok
                && m.target_sha is Ok && m.source_sha != m.target_sha;
            &&& r.ready <==> !f.detached && (on_rolling || on_roll) && f.clean && !(on_roll
                && f.promoted) && behind
            &&& !f.detached && on_rolling ==> r.description == config.rolling_branch + " -> "@
                + config.stable_branch
            &&& !f.detached && on_roll ==> r.description == current + " -> "@
                + config.rolling_branch
        }),
{
}

/// A target is used under its own name where it exists here; only a dry run may
/// stand on the remote's copy, and a real one creates the branch from it. Where it
/// is nowhere there is no target.
pub proof fn law_targets_become_local(target: Seq<char>, local: bool, on_origin: bool, dry_run: bool)
    ensures
        ({
            let r = local_target(target, local, on_origin, dry_run);
            &&& r is Err <==> !local && !on_origin
            &&& local ==> r == Ok::<LocalTargetView, Seq<Seq<char>>>(
                LocalTargetView::Use { reference: target },
            )
            &&& !local && on_origin && dry_run ==> r == Ok::<LocalTargetView, Seq<Seq<char>>>(
                LocalTargetView::Use { reference: "origin/"@ + target },
            )
            &&& !local && on_origin && !dry_run ==> (r matches Ok(
                LocalTargetView::Create { args, reference, on_failure },
            ) && reference == target && args == seq!["branch"@, target, "origin/"@ + target])
        }),
{
}

/// A status that prints nothing leaves the workflow alone, and so does one whose
/// lines all show the configuration as untracked; any other line, whatever stands
/// beside it, does not.
pub proof fn law_any_other_change_is_unclean(status: Seq<char>, i: int)
    requires
        0 <= i < lines_of(status).len(),
        trimmed(status).len() > 0,
        trimmed(lines_of(status)[i]) != "?? "@ + CONFIG_NAME@,
    ensures
        !clean_enough(status),
{
}

/// The tier of a branch goes by its name: a detached head comes first, then the two
/// long-lived branches, then the prefixes.
pub proof fn law_tiers_go_by_the_name(config: ConfigView, current: Seq<char>, detached: bool)
    ensures
        ({
            let t = tier_of(config, current, detached);
            let stable = current == config.stable_branch;
            let rolling = current == config.rolling_branch;
            let roll = begins(current, config.roll_prefix);
            let hotfix = begins(current, "hotfix/"@);
            &&& detached ==> t == "detached"@
            &&& !detached && stable ==> t == "main"@
            &&& !detached && !stable && rolling ==> t == "rolling"@
            &&& !detached && !stable && !rolling && roll ==> t == "roll"@
            &&& !detached && !stable && !rolling && !roll && hotfix ==> t == "hotfix"@
            &&& !detached && !stable && !rolling && !roll && !hotfix ==> t == "other"@
        }),
{
}

/// A verification starts exactly from a branch whose merge may go ahead, and stands
/// for that merge; it notes where the target has commits that the source lacks.
pub proof fn law_verifications_stand_for_a_merge(
    config: ConfigView,
    current: Seq<char>,
    on_origin: bool,
    f: MergeFactsView,
)
    ensures
        ({
            let r = verify_start(config, current, on_origin, f);
            let on_rolling = current == config.rolling_branch;
            let on_roll = !on_rolling && begins(current, config.roll_prefix);
            let target = if on_rolling {
                config.stable_branch
            } else {
                config.rolling_branch
            };
            let may = viable(MergeVerb::Merge, current, target, on_origin, f);
            &&& r is Ok <==> (on_rolling || on_roll) && may is Ok
            &&& r matches Ok(start) ==> start.source == current && start.target == target
                && start.diverged_note == may->Ok_0
        }),
{
}

/// What holds a merge back is told: a roll that is already in the rolling branch is
/// called graduated, any other branch without new commits has nothing to merge, and
/// a target with commits of its own names the command that merges it all the same.
pub proof fn law_unready_states_say_why(
    roll: Seq<char>,
    source: Seq<char>,
    target: Seq<char>,
    f: ReadinessFactsView,
)
    ensures
        ({
            let graduate = RouteView::Graduate { roll };
            let already = "'"@ + source + "' is already graduated into '"@ + target
                + "' — nothing new to merge"@;
            let nothing = "nothing to merge: '"@ + source + "' has no commits that '"@ + target
                + "' lacks"@;
            let idle = MergeState::NothingToMerge;
            let apart = MergeState::Diverged;
            let own = "'"@ + target + "' has commits not in '"@ + source + "'; rf "@;
            &&& f.graduated ==> state_reason(graduate, source, target, f, idle) == already
            &&& !f.graduated ==> state_reason(graduate, source, target, f, idle) == nothing
            &&& state_reason(RouteView::Promote, source, target, f, idle) == nothing
            &&& state_reason(graduate, source, target, f, apart) == own + "graduate"@
                + " will create a --no-ff merge"@
            &&& state_reason(RouteView::Promote, source, target, f, apart) == own + "promote"@
                + " will create a --no-ff merge"@
        }),
{
}

} // verus!
