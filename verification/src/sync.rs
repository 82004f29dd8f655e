//! Pulling, pushing and fetching one branch: which git command a request turns
//! into, and what git's refusal means.
use vstd::prelude::*;

use crate::branches::BranchLocation;
use crate::config::PullMode;
use crate::error::{RfError, RfErrorView};
use crate::git::{
    run_git_capturing_stderr, track_of, track_state, GitFailure, GitReply, LocalBranch,
    LocalBranchView, TrackState,
};
use crate::text::{
    after_prefix, ascii_smalls, cat, cat3, cat4, contains, join, joined, occurs, owned, same,
    strip_prefix, to_ascii_smalls,
};

verus! {

/// What the planners need to know of a branch.
#[derive(Debug, Clone, PartialEq, Eq)]
pub struct SyncTarget {
    pub branch: String,
    /// Whether the branch is checked out.
    pub is_current: bool,
    pub location: BranchLocation,
    /// How the branch stands to its upstream; `None` without a local copy.
    pub track: Option<TrackState>,
    /// The remote to talk to.
    pub remote: String,
    /// The branch's name on the remote; `None` without an upstream.
    pub upstream_branch: Option<String>,
}

/// [`SyncTarget`] by its characters.
pub struct SyncTargetView {
    pub branch: Seq<char>,
    pub is_current: bool,
    pub location: BranchLocation,
    pub track: Option<TrackState>,
    pub remote: Seq<char>,
    pub upstream_branch: Option<Seq<char>>,
}

impl DeepView for SyncTarget {
    type V = SyncTargetView;

    open spec fn deep_view(&self) -> SyncTargetView {
        SyncTargetView {
            branch: self.branch@,
            is_current: self.is_current,
            location: self.location,
            track: self.track,
            remote: self.remote@,
            upstream_branch: self.upstream_branch.deep_view(),
        }
    }
}

/// The remote of an upstream: the one that is named, or `origin`.
pub open spec fn upstream_remote(remote_name: Seq<char>) -> Seq<char> {
    if remote_name.len() == 0 {
        "origin"@
    } else {
        remote_name
    }
}

/// An upstream without the remote before it.
pub open spec fn short_upstream(upstream: Seq<char>, remote: Seq<char>) -> Seq<char> {
    match after_prefix(upstream, remote + "/"@) {
        Some(short) => short,
        None => upstream,
    }
}

/// The target for a branch, from its details where it has a local copy. The
/// upstream is split into its remote and its name there, which may itself hold
/// slashes; without an upstream the remote is `origin`.
pub open spec fn target_for(
    branch: Seq<char>,
    current: Seq<char>,
    location: BranchLocation,
    details: Option<LocalBranchView>,
) -> SyncTargetView {
    SyncTargetView {
        branch,
        is_current: branch == current,
        location,
        track: match details {
            Some(d) => Some(track_of(d)),
            None => None,
        },
        remote: match details {
            Some(d) => if d.upstream.len() > 0 {
                upstream_remote(d.remote_name)
            } else {
                "origin"@
            },
            None => "origin"@,
        },
        upstream_branch: match details {
            Some(d) => if d.upstream.len() > 0 {
                Some(short_upstream(d.upstream, upstream_remote(d.remote_name)))
            } else {
                None
            },
            None => None,
        },
    }
}

impl SyncTarget {
    /// The target for a branch, from its details where it has a local copy. The
    /// upstream is split into its remote and its name there, which may itself
    /// hold slashes; without an upstream the remote is `origin`.
    pub fn resolve(
        branch: &str,
        current_branch: &str,
        location: BranchLocation,
        details: Option<&LocalBranch>,
    ) -> (r: SyncTarget)
        ensures
            r.deep_view() == target_for(
                branch@,
                current_branch@,
                location,
                match details {
                    Some(d) => Some(d.deep_view()),
                    None => None,
                },
            ),
    {
        let track = match details {
            Some(d) => Some(track_state(d)),
            None => None,
        };
        let (remote, upstream_branch) = match details {
            Some(d) => {
                if !d.upstream.as_str().is_empty() {
                    let remote = if d.remote_name.as_str().is_empty() {
                        "origin".to_owned()
                    } else {
                        d.remote_name.clone()
                    };
                    let prefix = cat(remote.as_str(), "/");
                    let short = match strip_prefix(d.upstream.as_str(), prefix.as_str()) {
                        Some(s) => owned(s),
                        None => d.upstream.clone(),
                    };
                    (remote, Some(short))
                } else {
                    ("origin".to_owned(), None)
                }
            },
            None => ("origin".to_owned(), None),
        };
        SyncTarget {
            branch: owned(branch),
            is_current: same(branch, current_branch),
            location,
            track,
            remote,
            upstream_branch,
        }
    }

    fn has_local_copy(&self) -> (r: bool)
        ensures
            r == (self.location is Local || self.location is Both),
    {
        matches!(self.location, BranchLocation::Local | BranchLocation::Both)
    }
}

/// What pulling a branch means.
#[derive(Debug, Clone, PartialEq, Eq)]
pub enum PullPlan {
    /// The branch is checked out: a real pull.
    Pull { args: Vec<String> },
    /// The branch exists locally but is not checked out: a fetch that only
    /// moves it forward.
    FastForward { args: Vec<String> },
    /// No local copy: only the remote-tracking reference is updated.
    FetchRemote { args: Vec<String> },
    /// Nothing to pull from, with the reason to show.
    Refused { reason: String },
}

/// [`PullPlan`] by its characters.
pub enum PullPlanView {
    Pull { args: Seq<Seq<char>> },
    FastForward { args: Seq<Seq<char>> },
    FetchRemote { args: Seq<Seq<char>> },
    Refused { reason: Seq<char> },
}

impl DeepView for PullPlan {
    type V = PullPlanView;

    open spec fn deep_view(&self) -> PullPlanView {
        match self {
            PullPlan::Pull { args } => PullPlanView::Pull { args: args.deep_view() },
            PullPlan::FastForward { args } => PullPlanView::FastForward { args: args.deep_view() },
            PullPlan::FetchRemote { args } => PullPlanView::FetchRemote { args: args.deep_view() },
            PullPlan::Refused { reason } => PullPlanView::Refused { reason: reason@ },
        }
    }
}

/// What pulling a branch means. Without a local copy only the remote's state is
/// fetched. An upstream that is gone and one that was never set are refused, in
/// different words. The checked-out branch is pulled in the mode that is
/// configured; any other is only moved forward, whatever the mode.
pub open spec fn pull_of(t: SyncTargetView, mode: PullMode) -> PullPlanView {
    if !(t.location is Local || t.location is Both) {
        PullPlanView::FetchRemote {
            args: seq!["fetch"@, "--no-write-fetch-head"@, t.remote, t.branch],
        }
    } else if t.track == Some(TrackState::Gone) {
        PullPlanView::Refused {
            reason: "upstream of '"@ + t.branch + "' is gone — press P to push it again"@,
        }
    } else if t.upstream_branch is None || t.track == Some(TrackState::NoUpstream) {
        PullPlanView::Refused {
            reason: "'"@ + t.branch + "' has no upstream — press P to push and set one"@,
        }
    } else {
        let upstream = t.upstream_branch->0;
        if t.is_current {
            let flag = match mode.flag_text() {
                Some(f) => seq![f],
                None => seq![],
            };
            PullPlanView::Pull {
                args: seq!["pull"@, "--no-edit"@] + flag + seq![
                    t.remote,
                    "refs/heads/"@ + upstream,
                ],
            }
        } else {
            PullPlanView::FastForward {
                args: seq![
                    "fetch"@,
                    "--no-write-fetch-head"@,
                    t.remote,
                    "refs/heads/"@ + upstream + ":"@ + t.branch,
                ],
            }
        }
    }
}

/// Decides what pulling a branch means.
pub fn pull_plan(target: &SyncTarget, mode: PullMode) -> (r: PullPlan)
    ensures
        r.deep_view() == pull_of(target.deep_view(), mode),
{
    let ghost t = target.deep_view();
    if !target.has_local_copy() {
        let args = vec![
            "fetch".to_owned(),
            "--no-write-fetch-head".to_owned(),
            target.remote.clone(),
            target.branch.clone(),
        ];
        assert(args.deep_view() =~= seq!["fetch"@, "--no-write-fetch-head"@, t.remote, t.branch]);
        return PullPlan::FetchRemote { args };
    }
    if let Some(TrackState::Gone) = target.track {
        return PullPlan::Refused {
            reason: cat3(
                "upstream of '",
                target.branch.as_str(),
                "' is gone — press P to push it again",
            ),
        };
    }
    let no_upstream = match target.track {
        Some(TrackState::NoUpstream) => true,
        _ => false,
    };
    if no_upstream {
        return PullPlan::Refused {
            reason: cat3(
                "'",
                target.branch.as_str(),
                "' has no upstream — press P to push and set one",
            ),
        };
    }
    match &target.upstream_branch {
        None => PullPlan::Refused {
            reason: cat3(
                "'",
                target.branch.as_str(),
                "' has no upstream — press P to push and set one",
            ),
        },
        Some(upstream) => {
            if target.is_current {
                let mut args = vec!["pull".to_owned(), "--no-edit".to_owned()];
                if let Some(flag) = mode.flag() {
                    args.push(owned(flag));
                }
                args.push(target.remote.clone());
                args.push(cat("refs/heads/", upstream.as_str()));
                proof {
                    let flag = match mode.flag_text() {
                        Some(f) => seq![f],
                        None => seq![],
                    };
                    assert(args.deep_view() =~= seq!["pull"@, "--no-edit"@] + flag + seq![
                        t.remote,
                        "refs/heads/"@ + upstream@,
                    ]);
                }
                PullPlan::Pull { args }
            } else {
                let args = vec![
                    "fetch".to_owned(),
                    "--no-write-fetch-head".to_owned(),
                    target.remote.clone(),
                    cat4("refs/heads/", upstream.as_str(), ":", target.branch.as_str()),
                ];
                assert(args.deep_view() =~= seq![
                    "fetch"@,
                    "--no-write-fetch-head"@,
                    t.remote,
                    "refs/heads/"@ + upstream@ + ":"@ + t.branch,
                ]);
                PullPlan::FastForward { args }
            }
        },
    }
}

/// Only the checked-out branch is pulled in a mode: for every other branch the
/// mode makes no difference.
pub proof fn law_mode_only_matters_when_checked_out(
    t: SyncTargetView,
    a: PullMode,
    b: PullMode,
)
    requires
        !t.is_current,
    ensures
        pull_of(t, a) == pull_of(t, b),
{
}

/// The arguments of a push. The local side is fully qualified; force comes
/// first and always as a bare lease; without an upstream the push sets one.
pub open spec fn push_of(t: SyncTargetView, force: bool) -> Seq<Seq<char>> {
    let lease = if force {
        seq!["--force-with-lease"@]
    } else {
        seq![]
    };
    let rest = match t.upstream_branch {
        Some(upstream) => seq![t.remote, "refs/heads/"@ + t.branch + ":"@ + upstream],
        None => seq![
            "--set-upstream"@,
            t.remote,
            "refs/heads/"@ + t.branch + ":"@ + t.branch,
        ],
    };
    seq!["push"@] + lease + rest
}

/// The arguments of a push.
pub fn push_args(target: &SyncTarget, force: bool) -> (r: Vec<String>)
    ensures
        r.deep_view() == push_of(target.deep_view(), force),
{
    let ghost t = target.deep_view();
    let mut args = vec!["push".to_owned()];
    if force {
        args.push("--force-with-lease".to_owned());
    }
    match &target.upstream_branch {
        Some(upstream) => {
            args.push(target.remote.clone());
            args.push(cat4("refs/heads/", target.branch.as_str(), ":", upstream.as_str()));
        },
        None => {
            args.push("--set-upstream".to_owned());
            args.push(target.remote.clone());
            args.push(cat4("refs/heads/", target.branch.as_str(), ":", target.branch.as_str()));
        },
    }
    assert(args.deep_view() =~= push_of(t, force));
    args
}

/// Forcing a push changes nothing but the lease right behind `push`.
pub proof fn law_force_only_adds_the_lease(t: SyncTargetView)
    ensures
        push_of(t, true)[0] == "push"@,
        push_of(t, true)[1] == "--force-with-lease"@,
        push_of(t, true).remove(1) == push_of(t, false),
{
    assert(push_of(t, true).remove(1) =~= push_of(t, false));
}

/// Whether a plain push of the branch is known to be rejected.
pub open spec fn force_prompted(track: Option<TrackState>) -> bool {
    track matches Some(t) && t.needs_force()
}

/// Whether a plain push of the branch is known to be rejected.
pub fn needs_force_prompt(target: &SyncTarget) -> (r: bool)
    ensures
        r == force_prompted(target.track),
{
    match target.track {
        Some(t) => t.needs_force_to_push(),
        None => false,
    }
}

// ── What git's refusal means ────────────────────────────────────────────────

/// Whether git refused a push as no fast-forward.
pub open spec fn rejects(stderr: Seq<char>) -> bool {
    let s = ascii_smalls(stderr);
    occurs(s, "updates were rejected"@) || occurs(s, "non-fast-forward"@) || occurs(
        s,
        "fetch first"@,
    )
}

/// Whether git refused a push as no fast-forward.
pub fn is_rejection(stderr: &str) -> (r: bool)
    ensures
        r == rejects(stderr@),
{
    let s = to_ascii_smalls(stderr);
    contains(s.as_str(), "updates were rejected") || contains(s.as_str(), "non-fast-forward")
        || contains(s.as_str(), "fetch first")
}

/// Whether a push under a lease was refused because the lease is out of date.
pub open spec fn lease_stale(stderr: Seq<char>) -> bool {
    occurs(ascii_smalls(stderr), "stale info"@)
}

/// Whether a push under a lease was refused because the lease is out of date.
pub fn is_stale_lease(stderr: &str) -> (r: bool)
    ensures
        r == lease_stale(stderr@),
{
    let s = to_ascii_smalls(stderr);
    contains(s.as_str(), "stale info")
}

/// Whether git could not authenticate.
pub open spec fn lacks_credentials(stderr: Seq<char>) -> bool {
    let s = ascii_smalls(stderr);
    occurs(s, "terminal prompts disabled"@) || occurs(s, "could not read username"@) || occurs(
        s,
        "could not read password"@,
    ) || occurs(s, "authentication failed"@)
}

/// Whether git could not authenticate.
pub fn is_credential_failure(stderr: &str) -> (r: bool)
    ensures
        r == lacks_credentials(stderr@),
{
    let s = to_ascii_smalls(stderr);
    contains(s.as_str(), "terminal prompts disabled") || contains(
        s.as_str(),
        "could not read username",
    ) || contains(s.as_str(), "could not read password") || contains(
        s.as_str(),
        "authentication failed",
    )
}

/// The advice for a failure; none where there is none to give.
pub open spec fn advice(stderr: Seq<char>) -> Option<Seq<char>> {
    if lease_stale(stderr) {
        Some("remote ref is stale — press f to fetch, then retry"@)
    } else if lacks_credentials(stderr) {
        Some("needs credentials — run it in a shell, or press gg for lazygit"@)
    } else if rejects(stderr) {
        Some("rejected as non-fast-forward — press p to pull first"@)
    } else {
        None
    }
}

/// Turns a failure into one line of advice, or nothing.
pub fn hint_for(stderr: &str) -> (r: Option<String>)
    ensures
        r.deep_view() == advice(stderr@),
{
    if is_stale_lease(stderr) {
        Some("remote ref is stale — press f to fetch, then retry".to_owned())
    } else if is_credential_failure(stderr) {
        Some("needs credentials — run it in a shell, or press gg for lazygit".to_owned())
    } else if is_rejection(stderr) {
        Some("rejected as non-fast-forward — press p to pull first".to_owned())
    } else {
        None
    }
}

/// A failed synchronisation, with the advice that makes it actionable.
pub struct SyncFailure {
    pub failure: GitFailure,
    pub hint: Option<String>,
}

impl SyncFailure {
    /// The failure with the advice that its standard error suggests.
    pub fn new(failure: GitFailure) -> (r: SyncFailure)
        ensures
            r.failure == failure,
            r.hint.deep_view() == advice(failure.stderr@),
    {
        let hint = hint_for(failure.stderr.as_str());
        SyncFailure { failure, hint }
    }

    /// The failure as an error of the library.
    pub fn into_error(&self) -> (r: RfError)
        ensures
            r.deep_view() == RfErrorView::Git(self.failure.text()),
    {
        self.failure.into_error()
    }
}

/// What became of a push.
#[derive(Debug, Clone, PartialEq, Eq)]
pub enum PushOutcome {
    Pushed,
    /// Refused as no fast-forward; forcing is the user's call.
    Rejected { stderr: String },
}

/// The command line of an invocation.
pub open spec fn label_of(args: Seq<Seq<char>>) -> Seq<char> {
    "git "@ + joined(args, " "@)
}

/// What became of a push that git answered with `reply`. A plain push that was
/// refused as no fast-forward is no failure; a forced one is.
pub fn run_push(target: &SyncTarget, force: bool, reply: &GitReply) -> (r: Result<
    PushOutcome,
    SyncFailure,
>)
    ensures
        reply.success ==> (r matches Ok(o) && o is Pushed),
        !reply.success && !force && rejects(reply.stderr@) ==> (r matches Ok(
            PushOutcome::Rejected { stderr },
        ) && stderr@ == reply.stderr@),
        !reply.success && (force || !rejects(reply.stderr@)) ==> (r matches Err(f)
            && f.failure.stderr@ == reply.stderr@ && f.failure.message@ == "`"@ + label_of(
            push_of(target.deep_view(), force),
        ) + "` exited with "@ + reply.status@ && f.hint.deep_view() == advice(reply.stderr@)),
{
    let args = push_args(target, force);
    let line = join(&args, " ");
    let label = cat("git ", line.as_str());
    match run_git_capturing_stderr(label.as_str(), reply) {
        Ok(()) => Ok(PushOutcome::Pushed),
        Err(failure) => {
            if !force && is_rejection(failure.stderr.as_str()) {
                Ok(PushOutcome::Rejected { stderr: failure.stderr })
            } else {
                Err(SyncFailure::new(failure))
            }
        },
    }
}

/// What became of a pull, a fast-forward or a fetch that git answered with
/// `reply`.
pub fn run_pull(args: &Vec<String>, reply: &GitReply) -> (r: Result<(), SyncFailure>)
    ensures
        r is Ok <==> reply.success,
        r matches Err(f) ==> f.failure.stderr@ == reply.stderr@ && f.failure.message@ == "`"@
            + label_of(args.deep_view()) + "` exited with "@ + reply.status@
            && f.hint.deep_view() == advice(reply.stderr@),
{
    let line = join(args, " ");
    let label = cat("git ", line.as_str());
    match run_git_capturing_stderr(label.as_str(), reply) {
        Ok(()) => Ok(()),
        Err(failure) => Err(SyncFailure::new(failure)),
    }
}

/// The arguments that fetch every remote-tracking reference and drop those
/// whose upstream is gone.
pub fn run_fetch(remote: &str) -> (r: Vec<String>)
    ensures
        r.deep_view() == seq!["fetch"@, "--prune"@, "--no-write-fetch-head"@, remote@],
{
    let r = vec![
        "fetch".to_owned(),
        "--prune".to_owned(),
        "--no-write-fetch-head".to_owned(),
        owned(remote),
    ];
    assert(r.deep_view() =~= seq!["fetch"@, "--prune"@, "--no-write-fetch-head"@, remote@]);
    r
}

/// The environment that keeps a synchronisation from asking anything: no
/// prompts on the terminal, and no editor for a rebase.
pub fn sync_environment() -> (r: Vec<(String, String)>)
    ensures
        r.deep_view() == seq![
            ("GIT_TERMINAL_PROMPT"@, "0"@),
            ("GIT_SEQUENCE_EDITOR"@, ":"@),
        ],
{
    let r = vec![
        ("GIT_TERMINAL_PROMPT".to_owned(), "0".to_owned()),
        ("GIT_SEQUENCE_EDITOR".to_owned(), ":".to_owned()),
    ];
    assert(r.deep_view() =~= seq![
        ("GIT_TERMINAL_PROMPT"@, "0"@),
        ("GIT_SEQUENCE_EDITOR"@, ":"@),
    ]);
    r
}

/// A pull does one of four things, decided by where the branch is and what is known
/// of its upstream: a branch that is not here is fetched; one whose upstream is
/// gone or that has none is refused; the current one is pulled and any other
/// fast-forwarded.
pub proof fn law_every_pull_has_its_case(t: SyncTargetView, mode: PullMode)
    ensures
        ({
            let r = pull_of(t, mode);
            let here = t.location is Local || t.location is Both;
            let tracks = t.upstream_branch is Some && t.track != Some(TrackState::Gone) && t.track
                != Some(TrackState::NoUpstream);
            &&& r is FetchRemote <==> t.location is Remote || t.location is Neither
            &&& r is Refused <==> here && !tracks
            &&& r is Pull <==> here && tracks && t.is_current
            &&& r is FastForward <==> here && tracks && !t.is_current
        }),
{
}

/// A pull names the remote and the upstream branch, and nothing but its mode
/// besides; a fast-forward writes that branch to the local one of its own name
/// without forcing it.
pub proof fn law_pulls_name_the_upstream(t: SyncTargetView, mode: PullMode)
    ensures
        pull_of(t, mode) matches PullPlanView::Pull { args } ==> {
            &&& args[0] == "pull"@
            &&& args[args.len() - 2] == t.remote
            &&& args.last() == "refs/heads/"@ + t.upstream_branch->0
            &&& mode is FfOnly ==> args.len() == 5 && args[2] == "--ff-only"@
            &&& mode is Rebase ==> args.len() == 5 && args[2] == "--rebase"@
            &&& mode is Merge ==> args.len() == 4
        },
        pull_of(t, mode) matches PullPlanView::FastForward { args } ==> {
            &&& args[0] == "fetch"@
            &&& args[args.len() - 2] == t.remote
            &&& args.last() == "refs/heads/"@ + t.upstream_branch->0 + ":"@ + t.branch
        },
        pull_of(t, mode) matches PullPlanView::FetchRemote { args } ==> args[0] == "fetch"@
            && args[args.len() - 2] == t.remote && args.last() == t.branch,
{
}

/// A push goes from the local branch to the branch that it tracks, or to one of its
/// own name where it tracks none, which it then sets as its upstream.
pub proof fn law_pushes_name_both_sides(t: SyncTargetView, force: bool)
    ensures
        ({
            let args = push_of(t, force);
            &&& args[args.len() - 2] == t.remote
            &&& t.upstream_branch matches Some(u) ==> args.last() == "refs/heads/"@ + t.branch
                + ":"@ + u
            &&& t.upstream_branch is None ==> args.last() == "refs/heads/"@ + t.branch + ":"@
                + t.branch && args[args.len() - 3] == "--set-upstream"@
            &&& args.len() == 3 + (if force {
                1int
            } else {
                0
            }) + (if t.upstream_branch is None {
                1int
            } else {
                0
            })
        }),
{
}

/// The target of a synchronisation is read off the branch's details: its upstream
/// without the remote in front, on that remote. Without an upstream it is `origin`,
/// and no branch there.
pub proof fn law_targets_follow_the_upstream(
    branch: Seq<char>,
    current: Seq<char>,
    location: BranchLocation,
    d: LocalBranchView,
    upstream: Seq<char>,
)
    requires
        d.remote_name.len() > 0,
        d.upstream == d.remote_name + "/"@ + upstream || d.upstream.len() == 0,
    ensures
        ({
            let t = target_for(branch, current, location, Some(d));
            &&& t.branch == branch
            &&& t.location == location
            &&& t.is_current <==> branch == current
            &&& d.upstream.len() > 0 ==> t.remote == d.remote_name && t.upstream_branch == Some(
                upstream,
            )
            &&& d.upstream.len() == 0 ==> t.remote == "origin"@ && t.upstream_branch is None
                && t.track == Some(TrackState::NoUpstream)
        }),
{
    let p = d.remote_name + "/"@;
    if d.upstream.len() > 0 {
        assert(d.upstream.take(p.len() as int) =~= p);
        assert(d.upstream.skip(p.len() as int) =~= upstream);
    }
}

/// Force is asked about exactly where the upstream is known to have commits that
/// are missing here.
pub proof fn law_force_is_asked_about_when_behind(track: Option<TrackState>)
    ensures
        force_prompted(track) <==> (track matches Some(t) && (t is Behind || t is Diverged)),
{
}

/// A failure earns advice exactly when git's words name a cause that is known. A
/// stale lease comes before missing credentials, and those before a rejection.
pub proof fn law_advice_follows_the_cause(stderr: Seq<char>)
    ensures
        ({
            let s = ascii_smalls(stderr);
            let stale = occurs(s, "stale info"@);
            let locked = occurs(s, "terminal prompts disabled"@) || occurs(
                s,
                "could not read username"@,
            ) || occurs(s, "could not read password"@) || occurs(s, "authentication failed"@);
            let rejected = occurs(s, "updates were rejected"@) || occurs(s, "non-fast-forward"@)
                || occurs(s, "fetch first"@);
            &&& advice(stderr) is None <==> !stale && !locked && !rejected
            &&& stale ==> advice(stderr) == Some(
                "remote ref is stale — press f to fetch, then retry"@,
            )
            &&& !stale && locked ==> advice(stderr) == Some(
                "needs credentials — run it in a shell, or press gg for lazygit"@,
            )
            &&& !stale && !locked && rejected ==> advice(stderr) == Some(
                "rejected as non-fast-forward — press p to pull first"@,
            )
            &&& rejects(stderr) <==> rejected
        }),
{
}

} // verus!
