//! Git as the library sees it: the arguments of its invocations, and what its
//! output means.
//!
//! Nothing here runs git. A function that takes a reply, or a text that git
//! printed, interprets it; a function that returns arguments says what to run.
use vstd::prelude::*;

use crate::error::{RfError, RfErrorView};
use crate::num::{
    decimal, law_decimal_reads_back, lemma_decimal_value, number_in, parse_number, parse_u32,
};
use crate::seqs::{kept, lemma_kept_contains, lemma_kept_ends, lemma_kept_step};
use crate::text::{
    after_prefix, begins, cat, cat3, cat4, contains, cut, debug_quoted, decode_lossy, digit, ends,
    ends_with, first_parts, has_text, join, joined, last_cut, lemma_first_parts_cat,
    lemma_parts_cat, lemma_parts_single, lemma_trimmed_as_is, lemma_white_pos_cat, lines, lines_of,
    lossy, occurs, owned, parts_on, pieces_of, quote, same, split_first, split_last, split_on,
    split_once, split_text, starts_with, strip_prefix, trim, trimmed, trimmed_start, white, words,
    words_of,
};

verus! {

// ── Replies ─────────────────────────────────────────────────────────────────

/// What one git invocation left behind.
pub struct GitReply {
    /// Whether git exited with status zero.
    pub success: bool,
    /// The exit status in words.
    pub status: String,
    pub stdout: String,
    pub stderr: String,
}

/// The arguments that run `git args...` in `repo`.
pub fn git_command(repo: &str, args: &Vec<String>) -> (r: Vec<String>)
    ensures
        r.deep_view() == seq!["-C"@, repo@] + args.deep_view(),
{
    let front = vec!["-C".to_owned(), owned(repo)];
    assert(front.deep_view() =~= seq!["-C"@, repo@]);
    followed_by(front, args)
}

/// The error of an invocation that only its exit status explains.
pub open spec fn exit_error(args: Seq<Seq<char>>, status: Seq<char>) -> RfErrorView {
    RfErrorView::Git("`git "@ + joined(args, " "@) + "` exited with "@ + status)
}

/// The outcome of running `git args...` for its effect.
pub fn run_git(args: &Vec<String>, reply: &GitReply) -> (r: Result<(), RfError>)
    ensures
        r is Ok <==> reply.success,
        r matches Err(e) ==> e.deep_view() == exit_error(args.deep_view(), reply.status@),
{
    if reply.success {
        Ok(())
    } else {
        let a = join(args, " ");
        Err(RfError::Git(cat4("`git ", a.as_str(), "` exited with ", reply.status.as_str())))
    }
}

/// The error of an invocation whose output was captured.
pub open spec fn capture_error(args: Seq<Seq<char>>, stderr: Seq<char>) -> RfErrorView {
    RfErrorView::Git("`git "@ + joined(args, " "@) + "` failed: "@ + trimmed(stderr))
}

/// The trimmed output of running `git args...`.
pub fn capture_git(args: &Vec<String>, reply: &GitReply) -> (r: Result<String, RfError>)
    ensures
        r is Ok <==> reply.success,
        r matches Ok(out) ==> out@ == trimmed(reply.stdout@),
        r matches Err(e) ==> e.deep_view() == capture_error(args.deep_view(), reply.stderr@),
{
    if reply.success {
        Ok(owned(trim(reply.stdout.as_str())))
    } else {
        let a = join(args, " ");
        Err(RfError::Git(cat4("`git ", a.as_str(), "` failed: ", trim(reply.stderr.as_str()))))
    }
}

/// A failed invocation, with the standard error that explains it.
pub struct GitFailure {
    /// Everything git wrote to standard error.
    pub stderr: String,
    /// A summary, used when `stderr` says nothing.
    pub message: String,
}

impl GitFailure {
    /// What the failure is shown as.
    pub open spec fn text(&self) -> Seq<char> {
        if trimmed(self.stderr@).len() == 0 {
            self.message@
        } else {
            trimmed(self.stderr@)
        }
    }

    /// What the failure is shown as.
    pub fn to_string(&self) -> (r: String)
        ensures
            r@ == self.text(),
    {
        let t = trim(self.stderr.as_str());
        if t.is_empty() {
            self.message.clone()
        } else {
            owned(t)
        }
    }

    /// The failure as an error of the library.
    pub fn into_error(&self) -> (r: RfError)
        ensures
            r.deep_view() == RfErrorView::Git(self.text()),
    {
        RfError::Git(self.to_string())
    }
}

/// The outcome of an invocation shown as `label`, with its standard error kept.
pub fn run_git_capturing_stderr(label: &str, reply: &GitReply) -> (r: Result<(), GitFailure>)
    ensures
        r is Ok <==> reply.success,
        r matches Err(f) ==> f.stderr@ == reply.stderr@ && f.message@ == "`"@ + label@
            + "` exited with "@ + reply.status@,
{
    if reply.success {
        Ok(())
    } else {
        Err(
            GitFailure {
                stderr: reply.stderr.clone(),
                message: cat4("`", label, "` exited with ", reply.status.as_str()),
            },
        )
    }
}

/// The failure of an invocation shown as `label` that could not even be started.
pub fn git_not_run(label: &str, why: &str) -> (r: GitFailure)
    ensures
        r.stderr@ == ""@,
        r.message@ == "`"@ + label@ + "` could not run: "@ + why@,
{
    GitFailure {
        stderr: "".to_owned(),
        message: cat4("`", label, "` could not run: ", why),
    }
}

/// The arguments behind [`repo_root`].
pub fn repo_root_args() -> (r: Vec<String>)
    ensures
        r.deep_view() == seq!["rev-parse"@, "--show-toplevel"@],
{
    let r = vec!["rev-parse".to_owned(), "--show-toplevel".to_owned()];
    assert(r.deep_view() =~= seq!["rev-parse"@, "--show-toplevel"@]);
    r
}

/// The root of the repository, from the reply to `rev-parse --show-toplevel`.
pub fn repo_root(reply: &GitReply) -> (r: Result<String, RfError>)
    ensures
        r is Ok <==> reply.success,
        r matches Ok(root) ==> root@ == trimmed(reply.stdout@),
        r matches Err(e) ==> e.deep_view() == RfErrorView::Git("not inside a git repository"@),
{
    if reply.success {
        Ok(owned(trim(reply.stdout.as_str())))
    } else {
        Err(RfError::Git("not inside a git repository".to_owned()))
    }
}

// ── Branches ────────────────────────────────────────────────────────────────

/// The arguments that print the name of the checked-out branch.
pub fn current_branch() -> (r: Vec<String>)
    ensures
        r.deep_view() == seq!["branch"@, "--show-current"@],
{
    let r = vec!["branch".to_owned(), "--show-current".to_owned()];
    assert(r.deep_view() =~= seq!["branch"@, "--show-current"@]);
    r
}

/// The arguments behind [`is_detached_head`].
pub fn is_detached_head_args() -> (r: Vec<String>)
    ensures
        r.deep_view() == seq!["symbolic-ref"@, "--quiet"@, "--short"@, "HEAD"@],
{
    let r = vec![
        "symbolic-ref".to_owned(),
        "--quiet".to_owned(),
        "--short".to_owned(),
        "HEAD".to_owned(),
    ];
    assert(r.deep_view() =~= seq!["symbolic-ref"@, "--quiet"@, "--short"@, "HEAD"@]);
    r
}

/// Whether the head is detached: `symbolic-ref` then has nothing to say.
pub fn is_detached_head(symbolic_ref: &GitReply) -> (r: bool)
    ensures
        r == !symbolic_ref.success,
{
    !symbolic_ref.success
}

/// The arguments behind [`working_tree_clean`].
pub fn working_tree_clean_args() -> (r: Vec<String>)
    ensures
        r.deep_view() == seq!["status"@, "--porcelain"@],
{
    let r = vec!["status".to_owned(), "--porcelain".to_owned()];
    assert(r.deep_view() =~= seq!["status"@, "--porcelain"@]);
    r
}

/// Whether the working tree is clean, from what `status --porcelain` printed.
pub fn working_tree_clean(status: &str) -> (r: bool)
    ensures
        r == (trimmed(status@).len() == 0),
{
    trim(status).is_empty()
}

/// The arguments that succeed exactly when a reference exists.
pub fn ref_exists(refspec: &str) -> (r: Vec<String>)
    ensures
        r.deep_view() == seq!["rev-parse"@, "--verify"@, refspec@],
{
    let r = vec!["rev-parse".to_owned(), "--verify".to_owned(), owned(refspec)];
    assert(r.deep_view() =~= seq!["rev-parse"@, "--verify"@, refspec@]);
    r
}

/// The name of a branch's copy on `origin`.
pub fn on_origin(branch: &str) -> (r: String)
    ensures
        r@ == "origin/"@ + branch@,
{
    cat("origin/", branch)
}

/// Where a branch resolves to: its own name if it exists locally, its name
/// under `origin/` if it only exists there.
pub open spec fn resolved(branch: Seq<char>, local: bool, remote: bool) -> Option<Seq<char>> {
    if local {
        Some(branch)
    } else if remote {
        Some("origin/"@ + branch)
    } else {
        None
    }
}

/// Resolves a branch, given where it exists.
pub fn resolve_branch(branch: &str, local: bool, remote: bool) -> (r: Option<String>)
    ensures
        r.deep_view() == resolved(branch@, local, remote),
{
    if local {
        Some(owned(branch))
    } else if remote {
        Some(cat("origin/", branch))
    } else {
        None
    }
}

/// The arguments behind [`local_branches`], for the branches that match a pattern.
pub fn local_branches_args(pattern: &str) -> (r: Vec<String>)
    ensures
        r.deep_view() == seq!["branch"@, "--list"@, pattern@],
{
    let r = vec!["branch".to_owned(), "--list".to_owned(), owned(pattern)];
    assert(r.deep_view() =~= seq!["branch"@, "--list"@, pattern@]);
    r
}

/// What a line of `git branch --list` holds behind its marker, if it has one:
/// `* ` stands before the branch that is checked out here, and `+ ` before one
/// that is checked out in another worktree.
pub open spec fn listed_branch(line: Seq<char>) -> Seq<char> {
    let t = trimmed(line);
    if begins(t, "* "@) || begins(t, "+ "@) {
        trimmed(t.skip(2))
    } else {
        t
    }
}

/// What a line of `git branch --list` holds behind its marker.
pub fn read_listed_branch(line: &str) -> (r: &str)
    ensures
        r@ == listed_branch(line@),
{
    let t = trim(line);
    proof {
        reveal_strlit("* ");
        reveal_strlit("+ ");
    }
    match strip_prefix(t, "* ") {
        Some(name) => trim(name),
        None => match strip_prefix(t, "+ ") {
            Some(name) => trim(name),
            None => t,
        },
    }
}

/// The branch that a line of `git branch --list` names.
pub open spec fn local_name(line: Seq<char>) -> Option<Seq<char>> {
    let name = listed_branch(line);
    if name.len() == 0 {
        None
    } else {
        Some(name)
    }
}

/// The local branches that `git branch --list` printed.
pub open spec fn local_names(out: Seq<char>) -> Seq<Seq<char>> {
    kept(lines_of(out), |l: Seq<char>| local_name(l))
}

/// Reads the local branches that `git branch --list` printed.
pub fn local_branches(out: &str) -> (r: Vec<String>)
    ensures
        r.deep_view() == local_names(out@),
{
    let all = lines(out);
    let mut r: Vec<String> = Vec::new();
    let mut i: usize = 0;
    let ghost f = |l: Seq<char>| local_name(l);
    proof {
        lemma_kept_ends(all.deep_view(), f);
    }
    assert(r.deep_view() =~= seq![]);
    while i < all.len()
        invariant
            i <= all@.len(),
            f == (|l: Seq<char>| local_name(l)),
            r.deep_view() == kept(all.deep_view().take(i as int), f),
        decreases all@.len() - i,
    {
        proof {
            lemma_kept_step(all.deep_view(), i as int, f);
        }
        let ghost before = r.deep_view();
        assert(all.deep_view()[i as int] == all@[i as int]@);
        let name = read_listed_branch(all[i].as_str());
        if !name.is_empty() {
            r.push(owned(name));
            assert(r.deep_view() =~= before.push(name@));
        }
        i += 1;
    }
    r
}

/// The arguments behind [`remote_branches`], for the branches of `origin` that match
/// a pattern.
pub fn remote_branches_args(pattern: &str) -> (r: Vec<String>)
    ensures
        r.deep_view() == seq!["branch"@, "-r"@, "--list"@, "origin/"@ + pattern@],
{
    let r = vec![
        "branch".to_owned(),
        "-r".to_owned(),
        "--list".to_owned(),
        cat("origin/", pattern),
    ];
    assert(r.deep_view() =~= seq!["branch"@, "-r"@, "--list"@, "origin/"@ + pattern@]);
    r
}

/// The branch that a line of `git branch -r --list` names: the line without the
/// `origin/` in front, which is taken off once. A symbolic reference is none.
pub open spec fn remote_name(line: Seq<char>) -> Option<Seq<char>> {
    let name = trimmed(line);
    if name.len() == 0 || occurs(name, "->"@) {
        None
    } else {
        Some(
            match after_prefix(name, "origin/"@) {
                Some(bare) => bare,
                None => name,
            },
        )
    }
}

/// The remote branches that `git branch -r --list` printed.
pub open spec fn remote_names(out: Seq<char>) -> Seq<Seq<char>> {
    kept(lines_of(out), |l: Seq<char>| remote_name(l))
}

/// Reads the remote branches that `git branch -r --list` printed.
pub fn remote_branches(out: &str) -> (r: Vec<String>)
    ensures
        r.deep_view() == remote_names(out@),
{
    let all = lines(out);
    let mut r: Vec<String> = Vec::new();
    let mut i: usize = 0;
    let ghost f = |l: Seq<char>| remote_name(l);
    proof {
        lemma_kept_ends(all.deep_view(), f);
    }
    assert(r.deep_view() =~= seq![]);
    while i < all.len()
        invariant
            i <= all@.len(),
            f == (|l: Seq<char>| remote_name(l)),
            r.deep_view() == kept(all.deep_view().take(i as int), f),
        decreases all@.len() - i,
    {
        proof {
            lemma_kept_step(all.deep_view(), i as int, f);
        }
        let ghost before = r.deep_view();
        assert(all.deep_view()[i as int] == all@[i as int]@);
        let name = trim(all[i].as_str());
        if !name.is_empty() && !contains(name, "->") {
            let bare = match strip_prefix(name, "origin/") {
                Some(bare) => bare,
                None => name,
            };
            r.push(owned(bare));
            assert(r.deep_view() =~= before.push(bare@));
        }
        i += 1;
    }
    r
}

/// The arguments behind [`remotes`].
pub fn remotes_args() -> (r: Vec<String>)
    ensures
        r.deep_view() == seq!["remote"@],
{
    let r = vec!["remote".to_owned()];
    assert(r.deep_view() =~= seq!["remote"@]);
    r
}

/// The text of a line that holds more than white space.
pub open spec fn filled(line: Seq<char>) -> Option<Seq<char>> {
    let t = trimmed(line);
    if t.len() == 0 {
        None
    } else {
        Some(t)
    }
}

/// The remotes that `git remote` printed.
pub open spec fn remote_list(out: Seq<char>) -> Seq<Seq<char>> {
    kept(lines_of(out), |l: Seq<char>| filled(l))
}

/// Reads the remotes that `git remote` printed, in git's own order.
pub fn remotes(out: &str) -> (r: Vec<String>)
    ensures
        r.deep_view() == remote_list(out@),
{
    let all = lines(out);
    let mut r: Vec<String> = Vec::new();
    let mut i: usize = 0;
    let ghost f = |l: Seq<char>| filled(l);
    proof {
        lemma_kept_ends(all.deep_view(), f);
    }
    assert(r.deep_view() =~= seq![]);
    while i < all.len()
        invariant
            i <= all@.len(),
            f == (|l: Seq<char>| filled(l)),
            r.deep_view() == kept(all.deep_view().take(i as int), f),
        decreases all@.len() - i,
    {
        proof {
            lemma_kept_step(all.deep_view(), i as int, f);
        }
        let ghost before = r.deep_view();
        assert(all.deep_view()[i as int] == all@[i as int]@);
        let t = trim(all[i].as_str());
        if !t.is_empty() {
            r.push(owned(t));
            assert(r.deep_view() =~= before.push(t@));
        }
        i += 1;
    }
    r
}

/// Whether a remote is configured; `remotes` is `None` where git could not say.
pub fn has_remote(remotes: &Option<Vec<String>>, name: &str) -> (r: bool)
    ensures
        r == (remotes matches Some(v) && v.deep_view().contains(name@)),
{
    match remotes {
        Some(v) => has_text(v, name),
        None => false,
    }
}

/// The arguments behind [`remote_tracking_refs`], for one remote.
pub fn remote_tracking_refs_args(remote: &str) -> (r: Vec<String>)
    ensures
        r.deep_view() == seq![
            "for-each-ref"@,
            "--format=%(refname:short)"@,
            "refs/remotes/"@ + remote@ + "/"@,
        ],
{
    let r = vec![
        "for-each-ref".to_owned(),
        "--format=%(refname:short)".to_owned(),
        cat3("refs/remotes/", remote, "/"),
    ];
    assert(r.deep_view() =~= seq![
        "for-each-ref"@,
        "--format=%(refname:short)"@,
        "refs/remotes/"@ + remote@ + "/"@,
    ]);
    r
}

/// The remote-tracking reference on a line of `for-each-ref`, with the name of
/// its remote in front. The remote's symbolic `HEAD` is none, whether git writes
/// it out or shortens it to the name of the remote.
pub open spec fn tracking_ref(line: Seq<char>, remote: Seq<char>) -> Option<Seq<char>> {
    let t = trimmed(line);
    if begins(t, remote + "/"@) && !ends(t, "/HEAD"@) {
        Some(t)
    } else {
        None
    }
}

/// The references of one remote that `for-each-ref` printed.
pub open spec fn tracking_refs(out: Seq<char>, remote: Seq<char>) -> Seq<Seq<char>> {
    kept(lines_of(out), |l: Seq<char>| tracking_ref(l, remote))
}

/// Reads the references of one remote that `for-each-ref` printed.
pub fn remote_tracking_refs(out: &str, remote: &str) -> (r: Vec<String>)
    ensures
        r.deep_view() == tracking_refs(out@, remote@),
{
    let all = lines(out);
    let front = cat(remote, "/");
    let mut r: Vec<String> = Vec::new();
    let mut i: usize = 0;
    let ghost f = |l: Seq<char>| tracking_ref(l, remote@);
    proof {
        lemma_kept_ends(all.deep_view(), f);
    }
    assert(r.deep_view() =~= seq![]);
    while i < all.len()
        invariant
            i <= all@.len(),
            front@ == remote@ + "/"@,
            f == (|l: Seq<char>| tracking_ref(l, remote@)),
            r.deep_view() == kept(all.deep_view().take(i as int), f),
        decreases all@.len() - i,
    {
        proof {
            lemma_kept_step(all.deep_view(), i as int, f);
        }
        let ghost before = r.deep_view();
        assert(all.deep_view()[i as int] == all@[i as int]@);
        let t = trim(all[i].as_str());
        if starts_with(t, front.as_str()) && !ends_with(t, "/HEAD") {
            r.push(owned(t));
            assert(r.deep_view() =~= before.push(t@));
        }
        i += 1;
    }
    r
}

/// The arguments behind [`remote_head_branch`].
pub fn remote_head_branch_args(remote: &str) -> (r: Vec<String>)
    ensures
        r.deep_view() == seq![
            "symbolic-ref"@,
            "--quiet"@,
            "--short"@,
            "refs/remotes/"@ + remote@ + "/HEAD"@,
        ],
{
    let r = vec![
        "symbolic-ref".to_owned(),
        "--quiet".to_owned(),
        "--short".to_owned(),
        cat3("refs/remotes/", remote, "/HEAD"),
    ];
    assert(r.deep_view() =~= seq![
        "symbolic-ref"@,
        "--quiet"@,
        "--short"@,
        "refs/remotes/"@ + remote@ + "/HEAD"@,
    ]);
    r
}

/// The branch that `<remote>/HEAD` points at, from what `symbolic-ref` printed.
pub fn remote_head_branch(out: &str, remote: &str) -> (r: Option<String>)
    ensures
        r.deep_view() == after_prefix(out@, remote@ + "/"@),
{
    let prefix = cat(remote, "/");
    match strip_prefix(out, prefix.as_str()) {
        Some(b) => Some(owned(b)),
        None => None,
    }
}

// ── Tracking ────────────────────────────────────────────────────────────────

/// One local branch, as a single `for-each-ref` reports it.
#[derive(Debug, Clone, PartialEq, Eq)]
pub struct LocalBranch {
    pub name: String,
    /// The upstream, such as `origin/main`; empty when none is configured.
    pub upstream: String,
    /// The remote of the upstream; empty when none is configured.
    pub remote_name: String,
    /// `gone`, `ahead 2`, `behind 1` or `ahead 1, behind 3`; empty both when in
    /// sync and when there is no upstream.
    pub track: String,
    /// The worktree that has the branch checked out; empty when none has.
    pub worktree: String,
}

/// [`LocalBranch`] by its characters.
pub struct LocalBranchView {
    pub name: Seq<char>,
    pub upstream: Seq<char>,
    pub remote_name: Seq<char>,
    pub track: Seq<char>,
    pub worktree: Seq<char>,
}

impl DeepView for LocalBranch {
    type V = LocalBranchView;

    open spec fn deep_view(&self) -> LocalBranchView {
        LocalBranchView {
            name: self.name@,
            upstream: self.upstream@,
            remote_name: self.remote_name@,
            track: self.track@,
            worktree: self.worktree@,
        }
    }
}

/// Whether a track text says that the upstream is gone.
pub open spec fn says_gone(track: Seq<char>) -> bool {
    trimmed(track) == "gone"@ || trimmed(track) == "[gone]"@
}

impl LocalBranchView {
    /// Whether the branch tracks an upstream that no longer exists.
    pub open spec fn gone(self) -> bool {
        self.upstream.len() > 0 && says_gone(self.track)
    }
}

impl LocalBranch {
    /// A copy of the branch.
    pub fn copy(&self) -> (r: LocalBranch)
        ensures
            r.deep_view() == self.deep_view(),
    {
        LocalBranch {
            name: self.name.clone(),
            upstream: self.upstream.clone(),
            remote_name: self.remote_name.clone(),
            track: self.track.clone(),
            worktree: self.worktree.clone(),
        }
    }

    /// Whether the branch tracks an upstream that no longer exists.
    pub fn upstream_gone(&self) -> (r: bool)
        ensures
            r == self.deep_view().gone(),
    {
        let t = trim(self.track.as_str());
        !self.upstream.as_str().is_empty() && (same(t, "gone") || same(t, "[gone]"))
    }

    /// Whether some worktree has the branch checked out.
    pub fn is_checked_out(&self) -> (r: bool)
        ensures
            r == (self.worktree@.len() > 0),
    {
        !self.worktree.as_str().is_empty()
    }
}

/// How a local branch stands to its upstream.
#[derive(Debug, Clone, Copy, PartialEq, Eq, Structural)]
pub enum TrackState {
    /// No upstream is configured.
    NoUpstream,
    /// The upstream that is configured is gone.
    Gone,
    /// In sync with the upstream.
    InSync,
    /// Commits here that the upstream lacks.
    Ahead(u32),
    /// Commits on the upstream that are missing here.
    Behind(u32),
    /// Both.
    Diverged { ahead: u32, behind: u32 },
}

impl DeepView for TrackState {
    type V = TrackState;

    open spec fn deep_view(&self) -> TrackState {
        *self
    }
}

impl TrackState {
    /// Whether a push would be rejected as no fast-forward.
    pub open spec fn needs_force(self) -> bool {
        self is Behind || self is Diverged
    }

    /// Whether a push would be rejected as no fast-forward.
    pub fn needs_force_to_push(&self) -> (r: bool)
        ensures
            r == self.needs_force(),
    {
        matches!(self, TrackState::Behind(_) | TrackState::Diverged { .. })
    }
}

/// The number behind `keyword` in a part of a track text.
pub open spec fn count_in(part: Seq<char>, keyword: Seq<char>) -> Option<nat> {
    match after_prefix(trimmed(part), keyword) {
        Some(rest) => number_in(trimmed(rest), u32::MAX as nat),
        None => None,
    }
}

/// The number in the first of `parts` that holds one behind `keyword`.
pub open spec fn first_count(parts: Seq<Seq<char>>, keyword: Seq<char>) -> nat
    decreases parts.len(),
{
    if parts.len() == 0 {
        0
    } else {
        match count_in(parts[0], keyword) {
            Some(n) => n,
            None => first_count(parts.skip(1), keyword),
        }
    }
}

/// The number that a track text gives behind `keyword`, or zero.
pub open spec fn track_count(track: Seq<char>, keyword: Seq<char>) -> nat {
    first_count(parts_on(track, ','), keyword)
}

/// Reads the number behind `keyword` in a track text; zero where there is none.
fn parse_track_count(track: &str, keyword: &str) -> (r: u32)
    ensures
        r == track_count(track@, keyword@),
{
    let parts = split_on(track, ',');
    let mut i: usize = 0;
    let ghost all = parts.deep_view();
    assert(all.skip(0) =~= all);
    while i < parts.len()
        invariant
            i <= parts@.len(),
            all == parts.deep_view(),
            track_count(track@, keyword@) == first_count(all.skip(i as int), keyword@),
        decreases parts@.len() - i,
    {
        assert(all[i as int] == parts@[i as int]@);
        assert(all.skip(i as int).skip(1) =~= all.skip(i + 1));
        match strip_prefix(trim(parts[i].as_str()), keyword) {
            Some(rest) => match parse_u32(trim(rest)) {
                Some(n) => {
                    return n;
                },
                None => {},
            },
            None => {},
        }
        i += 1;
    }
    0
}

/// How a branch stands to its upstream. The track text is empty both in sync
/// and without an upstream; the upstream tells the two apart. A text that says
/// neither `gone` nor a number reads as in sync.
pub open spec fn track_of(b: LocalBranchView) -> TrackState {
    let t = trimmed(b.track);
    let ahead = track_count(t, "ahead"@);
    let behind = track_count(t, "behind"@);
    if b.upstream.len() == 0 {
        TrackState::NoUpstream
    } else if says_gone(b.track) {
        TrackState::Gone
    } else if ahead == 0 && behind == 0 {
        TrackState::InSync
    } else if behind == 0 {
        TrackState::Ahead(ahead as u32)
    } else if ahead == 0 {
        TrackState::Behind(behind as u32)
    } else {
        TrackState::Diverged { ahead: ahead as u32, behind: behind as u32 }
    }
}

/// Classifies a branch's relation to its upstream.
pub fn track_state(branch: &LocalBranch) -> (r: TrackState)
    ensures
        r == track_of(branch.deep_view()),
{
    if branch.upstream.as_str().is_empty() {
        return TrackState::NoUpstream;
    }
    let t = trim(branch.track.as_str());
    if same(t, "gone") || same(t, "[gone]") {
        return TrackState::Gone;
    }
    let ahead = parse_track_count(t, "ahead");
    let behind = parse_track_count(t, "behind");
    if ahead == 0 && behind == 0 {
        TrackState::InSync
    } else if behind == 0 {
        TrackState::Ahead(ahead)
    } else if ahead == 0 {
        TrackState::Behind(behind)
    } else {
        TrackState::Diverged { ahead, behind }
    }
}

/// The field `i` of a line, or nothing where the line is too short.
pub open spec fn field(fields: Seq<Seq<char>>, i: int) -> Seq<char> {
    if i < fields.len() {
        fields[i]
    } else {
        seq![]
    }
}

/// The branch on a line of tab-separated fields. The worktree's path comes last
/// and takes the rest of the line: it alone may hold a tab.
pub open spec fn branch_on(line: Seq<char>) -> Option<LocalBranchView> {
    let f = first_parts(line, '\t', 5);
    if trimmed(f[0]).len() == 0 {
        None
    } else {
        Some(
            LocalBranchView {
                name: trimmed(f[0]),
                upstream: trimmed(field(f, 1)),
                remote_name: trimmed(field(f, 2)),
                track: trimmed(field(f, 3)),
                worktree: field(f, 4),
            },
        )
    }
}

fn field_of(fields: &Vec<String>, i: usize) -> (r: String)
    ensures
        r@ == field(fields.deep_view(), i as int),
{
    if i < fields.len() {
        fields[i].clone()
    } else {
        String::new()
    }
}

/// Reads one line of [`local_branch_details`].
pub fn parse_local_branch_line(line: &str) -> (r: Option<LocalBranch>)
    ensures
        r.deep_view() == branch_on(line@),
{
    let f = split_first(line, '\t', 5);
    assert(f.deep_view().len() >= 1);
    assert(f.deep_view()[0] == f@[0]@);
    let name = trim(f[0].as_str());
    if name.is_empty() {
        return None;
    }
    let upstream = field_of(&f, 1);
    let remote_name = field_of(&f, 2);
    let track = field_of(&f, 3);
    let worktree = field_of(&f, 4);
    Some(
        LocalBranch {
            name: owned(name),
            upstream: owned(trim(upstream.as_str())),
            remote_name: owned(trim(remote_name.as_str())),
            track: owned(trim(track.as_str())),
            worktree,
        },
    )
}

/// The branches that `for-each-ref` printed, one to a line.
pub open spec fn branches_in(out: Seq<char>) -> Seq<LocalBranchView> {
    kept(lines_of(out), |l: Seq<char>| branch_on(l))
}

/// Reads every local branch with its tracking and worktree state.
pub fn local_branch_details(out: &str) -> (r: Vec<LocalBranch>)
    ensures
        r.deep_view() == branches_in(out@),
{
    let all = lines(out);
    let mut r: Vec<LocalBranch> = Vec::new();
    let mut i: usize = 0;
    let ghost f = |l: Seq<char>| branch_on(l);
    proof {
        lemma_kept_ends(all.deep_view(), f);
    }
    assert(r.deep_view() =~= seq![]);
    while i < all.len()
        invariant
            i <= all@.len(),
            f == (|l: Seq<char>| branch_on(l)),
            r.deep_view() == kept(all.deep_view().take(i as int), f),
        decreases all@.len() - i,
    {
        proof {
            lemma_kept_step(all.deep_view(), i as int, f);
        }
        let ghost before = r.deep_view();
        assert(all.deep_view()[i as int] == all@[i as int]@);
        match parse_local_branch_line(all[i].as_str()) {
            Some(b) => {
                let ghost v = b.deep_view();
                r.push(b);
                assert(r.deep_view() =~= before.push(v));
            },
            None => {},
        }
        i += 1;
    }
    r
}

/// The arguments of the one call behind [`local_branch_details`].
pub fn local_branch_details_args() -> (r: Vec<String>)
    ensures
        r.deep_view() == seq![
            "for-each-ref"@,
            "--format=%(refname:short)\t%(upstream:short)\t%(upstream:remotename)\t%(upstream:track,nobracket)\t%(worktreepath)"@,
            "refs/heads/"@,
        ],
{
    let r = vec![
        "for-each-ref".to_owned(),
        "--format=%(refname:short)\t%(upstream:short)\t%(upstream:remotename)\t%(upstream:track,nobracket)\t%(worktreepath)".to_owned(),
        "refs/heads/".to_owned(),
    ];
    assert(r.deep_view() =~= seq![
        "for-each-ref"@,
        "--format=%(refname:short)\t%(upstream:short)\t%(upstream:remotename)\t%(upstream:track,nobracket)\t%(worktreepath)"@,
        "refs/heads/"@,
    ]);
    r
}

/// A branch whose upstream is gone reads as gone, and one without an upstream
/// never does.
pub proof fn law_gone_needs_an_upstream(b: LocalBranchView)
    ensures
        b.gone() <==> track_of(b) is Gone,
        b.upstream.len() == 0 <==> track_of(b) is NoUpstream,
{
}

/// The arguments behind [`is_shallow`].
pub fn is_shallow_args() -> (r: Vec<String>)
    ensures
        r.deep_view() == seq!["rev-parse"@, "--is-shallow-repository"@],
{
    let r = vec!["rev-parse".to_owned(), "--is-shallow-repository".to_owned()];
    assert(r.deep_view() =~= seq!["rev-parse"@, "--is-shallow-repository"@]);
    r
}

/// Whether history is truncated, from what `--is-shallow-repository` printed;
/// `None` where git could not say.
pub fn is_shallow(out: &Option<String>) -> (r: bool)
    ensures
        r == (out matches Some(t) && trimmed(t@) == "true"@),
{
    match out {
        Some(t) => same(trim(t.as_str()), "true"),
        None => false,
    }
}

// ── Commands that change branches ───────────────────────────────────────────

/// The arguments that refresh remote-tracking references and drop stale ones.
pub fn fetch_prune(remote: &str) -> (r: Vec<String>)
    ensures
        r.deep_view() == seq!["fetch"@, "--prune"@, remote@],
{
    let r = vec!["fetch".to_owned(), "--prune".to_owned(), owned(remote)];
    assert(r.deep_view() =~= seq!["fetch"@, "--prune"@, remote@]);
    r
}

/// [`fetch_prune`] without git's own report.
pub fn fetch_prune_quiet(remote: &str) -> (r: Vec<String>)
    ensures
        r.deep_view() == seq!["fetch"@, "--prune"@, "--quiet"@, remote@],
{
    let r = vec!["fetch".to_owned(), "--prune".to_owned(), "--quiet".to_owned(), owned(remote)];
    assert(r.deep_view() =~= seq!["fetch"@, "--prune"@, "--quiet"@, remote@]);
    r
}

/// The arguments that delete a local branch, whatever is checked out.
pub fn delete_local_branch(branch: &str) -> (r: Vec<String>)
    ensures
        r.deep_view() == seq!["branch"@, "-D"@, branch@],
{
    let r = vec!["branch".to_owned(), "-D".to_owned(), owned(branch)];
    assert(r.deep_view() =~= seq!["branch"@, "-D"@, branch@]);
    r
}

/// `front` followed by copies of `rest`.
fn followed_by(front: Vec<String>, rest: &Vec<String>) -> (r: Vec<String>)
    ensures
        r.deep_view() == front.deep_view() + rest.deep_view(),
{
    let mut r = front;
    let ghost start = r.deep_view();
    let mut i: usize = 0;
    assert(start + rest.deep_view().take(0) =~= start);
    while i < rest.len()
        invariant
            i <= rest@.len(),
            r.deep_view() == start + rest.deep_view().take(i as int),
        decreases rest@.len() - i,
    {
        let ghost before = r.deep_view();
        r.push(rest[i].clone());
        assert(r.deep_view() =~= before.push(rest@[i as int]@));
        assert(before.push(rest@[i as int]@) =~= start + rest.deep_view().take(i + 1));
        i += 1;
    }
    assert(rest.deep_view().take(rest@.len() as int) =~= rest.deep_view());
    r
}

/// The arguments that delete branches on a remote in one push; `None` where
/// there is nothing to delete.
pub fn delete_remote_branches(remote: &str, branches: &Vec<String>) -> (r: Option<Vec<String>>)
    ensures
        r.deep_view() == (if branches@.len() == 0 {
            None
        } else {
            Some(seq!["push"@, remote@, "--delete"@] + branches.deep_view())
        }),
{
    if branches.is_empty() {
        return None;
    }
    let front = vec!["push".to_owned(), owned(remote), "--delete".to_owned()];
    assert(front.deep_view() =~= seq!["push"@, remote@, "--delete"@]);
    Some(followed_by(front, branches))
}

// ── Logs ────────────────────────────────────────────────────────────────────

/// The arguments that print commit subjects, with `extra` behind them.
pub fn log_subjects_args(extra: &Vec<String>) -> (r: Vec<String>)
    ensures
        r.deep_view() == seq!["log"@, "--format=%s"@] + extra.deep_view(),
{
    let front = vec!["log".to_owned(), "--format=%s".to_owned()];
    assert(front.deep_view() =~= seq!["log"@, "--format=%s"@]);
    followed_by(front, extra)
}

/// A line that is not empty.
pub open spec fn nonempty(line: Seq<char>) -> Option<Seq<char>> {
    if line.len() == 0 {
        None
    } else {
        Some(line)
    }
}

/// The subjects that `log --format=%s` printed.
pub open spec fn subjects_in(out: Seq<char>) -> Seq<Seq<char>> {
    kept(lines_of(out), |l: Seq<char>| nonempty(l))
}

/// Reads the subjects that `log --format=%s` printed.
pub fn log_subjects(out: &str) -> (r: Vec<String>)
    ensures
        r.deep_view() == subjects_in(out@),
{
    let all = lines(out);
    let mut r: Vec<String> = Vec::new();
    let mut i: usize = 0;
    let ghost f = |l: Seq<char>| nonempty(l);
    proof {
        lemma_kept_ends(all.deep_view(), f);
    }
    assert(r.deep_view() =~= seq![]);
    while i < all.len()
        invariant
            i <= all@.len(),
            f == (|l: Seq<char>| nonempty(l)),
            r.deep_view() == kept(all.deep_view().take(i as int), f),
        decreases all@.len() - i,
    {
        proof {
            lemma_kept_step(all.deep_view(), i as int, f);
        }
        let ghost before = r.deep_view();
        assert(all.deep_view()[i as int] == all@[i as int]@);
        if !all[i].as_str().is_empty() {
            r.push(all[i].clone());
            assert(r.deep_view() =~= before.push(all@[i as int]@));
        }
        i += 1;
    }
    r
}

/// The separator between the records of [`log_with_body`].
pub const RECORD_SEP: &'static str = "\x1eRF\x1e";

/// The arguments behind [`log_with_body`], with `extra` behind them.
pub fn log_with_body_args(extra: &Vec<String>) -> (r: Vec<String>)
    ensures
        r.deep_view() == seq!["log"@, "--format=%s%n%b"@ + RECORD_SEP@] + extra.deep_view(),
{
    let front = vec!["log".to_owned(), cat("--format=%s%n%b", RECORD_SEP)];
    assert(front.deep_view() =~= seq!["log"@, "--format=%s%n%b"@ + RECORD_SEP@]);
    followed_by(front, extra)
}

/// The subject and the body of one record.
pub open spec fn commit_in(record: Seq<char>) -> Option<(Seq<char>, Seq<char>)> {
    let t = trimmed(record);
    if t.len() == 0 {
        None
    } else {
        match cut(t, "\n"@) {
            Some((s, b)) => Some((trimmed(s), trimmed(b))),
            None => Some((t, seq![])),
        }
    }
}

/// The commits, by subject and body, that a log printed.
pub open spec fn commits_in(out: Seq<char>) -> Seq<(Seq<char>, Seq<char>)> {
    kept(pieces_of(out, RECORD_SEP@), |t: Seq<char>| commit_in(t))
}

/// Reads the subjects and bodies that a log printed.
pub fn log_with_body(out: &str) -> (r: Vec<(String, String)>)
    ensures
        r.deep_view() == commits_in(out@),
{
    proof {
        reveal_strlit("\x1eRF\x1e");
    }
    let all = split_text(out, RECORD_SEP);
    let mut r: Vec<(String, String)> = Vec::new();
    let mut i: usize = 0;
    let ghost f = |t: Seq<char>| commit_in(t);
    proof {
        lemma_kept_ends(all.deep_view(), f);
    }
    assert(r.deep_view() =~= seq![]);
    while i < all.len()
        invariant
            i <= all@.len(),
            f == (|t: Seq<char>| commit_in(t)),
            r.deep_view() == kept(all.deep_view().take(i as int), f),
        decreases all@.len() - i,
    {
        proof {
            lemma_kept_step(all.deep_view(), i as int, f);
        }
        let ghost before = r.deep_view();
        assert(all.deep_view()[i as int] == all@[i as int]@);
        let t = trim(all[i].as_str());
        if !t.is_empty() {
            match split_once(t, "\n") {
                Some((s, b)) => {
                    let x = (owned(trim(s)), owned(trim(b)));
                    r.push(x);
                    assert(r.deep_view() =~= before.push((trimmed(s@), trimmed(b@))));
                },
                None => {
                    r.push((owned(t), String::new()));
                    assert(r.deep_view() =~= before.push((t@, seq![])));
                },
            }
        }
        i += 1;
    }
    r
}

// ── Counting commits ────────────────────────────────────────────────────────

/// The arguments that count the commits of `tip` that none of `excludes` holds;
/// `None` where nothing is excluded: the count would then be the whole history,
/// and no honest claim about lost commits can be made.
pub fn commits_not_in_args(tip: &str, excludes: &Vec<String>) -> (r: Option<Vec<String>>)
    ensures
        r.deep_view() == (if excludes@.len() == 0 {
            None
        } else {
            Some(seq!["rev-list"@, "--count"@, tip@, "--not"@] + excludes.deep_view())
        }),
{
    if excludes.is_empty() {
        return None;
    }
    let front = vec![
        "rev-list".to_owned(),
        "--count".to_owned(),
        owned(tip),
        "--not".to_owned(),
    ];
    assert(front.deep_view() =~= seq!["rev-list"@, "--count"@, tip@, "--not"@]);
    Some(followed_by(front, excludes))
}

/// Reads the count that `rev-list --count` printed; zero where nothing was asked.
pub fn commits_not_in(out: &Option<String>) -> (r: Result<u32, RfError>)
    ensures
        match out {
            None => r == Ok::<u32, RfError>(0),
            Some(t) => match number_in(trimmed(t@), u32::MAX as nat) {
                Some(n) => r == Ok::<u32, RfError>(n as u32),
                None => r matches Err(e) && e.deep_view() == RfErrorView::Git(
                    "could not parse commit count from "@ + debug_quoted(t@),
                ),
            },
        },
{
    match out {
        None => Ok(0),
        Some(t) => match parse_u32(trim(t.as_str())) {
            Some(n) => Ok(n),
            None => {
                let q = quote(t.as_str());
                Err(RfError::Git(cat("could not parse commit count from ", q.as_str())))
            },
        },
    }
}

/// The arguments that succeed exactly when `descendant` holds `candidate`.
pub fn is_ancestor(candidate: &str, descendant: &str) -> (r: Vec<String>)
    ensures
        r.deep_view() == seq!["merge-base"@, "--is-ancestor"@, candidate@, descendant@],
{
    let r = vec![
        "merge-base".to_owned(),
        "--is-ancestor".to_owned(),
        owned(candidate),
        owned(descendant),
    ];
    assert(r.deep_view() =~= seq!["merge-base"@, "--is-ancestor"@, candidate@, descendant@]);
    r
}

/// The arguments that count the commits of a range.
pub fn commit_count_args(range: &str) -> (r: Vec<String>)
    ensures
        r.deep_view() == seq!["rev-list"@, "--count"@, range@],
{
    let r = vec!["rev-list".to_owned(), "--count".to_owned(), owned(range)];
    assert(r.deep_view() =~= seq!["rev-list"@, "--count"@, range@]);
    r
}

/// The arguments that print the best common ancestor.
pub fn merge_base(a: &str, b: &str) -> (r: Vec<String>)
    ensures
        r.deep_view() == seq!["merge-base"@, a@, b@],
{
    let r = vec!["merge-base".to_owned(), owned(a), owned(b)];
    assert(r.deep_view() =~= seq!["merge-base"@, a@, b@]);
    r
}

/// The arguments that print the commit a reference resolves to.
pub fn rev_parse(refspec: &str) -> (r: Vec<String>)
    ensures
        r.deep_view() == seq!["rev-parse"@, refspec@],
{
    let r = vec!["rev-parse".to_owned(), owned(refspec)];
    assert(r.deep_view() =~= seq!["rev-parse"@, refspec@]);
    r
}

/// The arguments that count commits on either side of a branch and its remote.
pub fn ahead_behind_args(branch: &str) -> (r: Vec<String>)
    ensures
        r.deep_view() == seq![
            "rev-list"@,
            "--left-right"@,
            "--count"@,
            branch@ + "...origin/"@ + branch@,
        ],
{
    let r = vec![
        "rev-list".to_owned(),
        "--left-right".to_owned(),
        "--count".to_owned(),
        cat3(branch, "...origin/", branch),
    ];
    assert(r.deep_view() =~= seq![
        "rev-list"@,
        "--left-right"@,
        "--count"@,
        branch@ + "...origin/"@ + branch@,
    ]);
    r
}

/// The two counts that `rev-list --left-right --count` printed: ahead, behind.
pub open spec fn counts_in(out: Seq<char>) -> Option<(u32, u32)> {
    let w = words_of(out);
    if w.len() < 2 {
        None
    } else {
        match (number_in(w[0], u32::MAX as nat), number_in(w[1], u32::MAX as nat)) {
            (Some(a), Some(b)) => Some((a as u32, b as u32)),
            _ => None,
        }
    }
}

/// Reads the two counts that `rev-list --left-right --count` printed.
pub fn parse_ahead_behind(out: &str) -> (r: Option<(u32, u32)>)
    ensures
        r == counts_in(out@),
{
    let w = words(out);
    assert(w.deep_view().len() == w@.len());
    if w.len() < 2 {
        return None;
    }
    assert(w.deep_view()[0] == w@[0]@ && w.deep_view()[1] == w@[1]@);
    match (parse_u32(w[0].as_str()), parse_u32(w[1].as_str())) {
        (Some(a), Some(b)) => Some((a, b)),
        _ => None,
    }
}

/// Commits that a branch is ahead of and behind its remote.
pub fn ahead_behind(out: &str) -> (r: Result<(u32, u32), RfError>)
    ensures
        match counts_in(out@) {
            Some(c) => r == Ok::<(u32, u32), RfError>(c),
            None => r matches Err(e) && e.deep_view() == RfErrorView::Git(
                "could not parse ahead/behind counts from "@ + debug_quoted(out@),
            ),
        },
{
    match parse_ahead_behind(out) {
        Some(c) => Ok(c),
        None => {
            let q = quote(out);
            Err(RfError::Git(cat("could not parse ahead/behind counts from ", q.as_str())))
        },
    }
}

// ── Files at references ─────────────────────────────────────────────────────

/// The place of the first line feed, or the length.
pub open spec fn newline_pos(s: Seq<u8>) -> nat
    decreases s.len(),
{
    if s.len() == 0 || s[0] == 10 {
        0
    } else {
        1 + newline_pos(s.skip(1))
    }
}

/// `newline_pos` is a place in the bytes.
pub proof fn lemma_newline_pos(s: Seq<u8>)
    ensures
        newline_pos(s) <= s.len(),
    decreases s.len(),
{
    if s.len() > 0 && s[0] != 10 {
        lemma_newline_pos(s.skip(1));
    }
}

/// The size that a header `<oid> <type> <size>` announces. A header of any
/// other form, such as `<spec> missing`, announces no content.
pub open spec fn announced_size(header: Seq<char>) -> Option<nat> {
    match last_cut(header, ' ') {
        Some((rest, size)) => if occurs(rest, " "@) {
            number_in(size, usize::MAX as nat)
        } else {
            None
        },
        None => None,
    }
}

/// The answers in the output of `cat-file --batch` to `specs`, taken in order.
/// A header announces how many bytes of content follow; the content is stepped
/// over by that count, so nothing in it is ever read as a header. A stream that
/// ends early gives the answers that are complete.
pub open spec fn batch_answers(stdout: Seq<u8>, specs: Seq<Seq<char>>) -> Seq<
    (Seq<char>, Seq<char>),
>
    decreases specs.len(),
{
    let k = newline_pos(stdout) as int;
    let rest = stdout.skip(k + 1);
    if k >= stdout.len() || specs.len() == 0 {
        seq![]
    } else {
        match announced_size(lossy(stdout.take(k))) {
            None => batch_answers(rest, specs.skip(1)),
            Some(n) => if n > rest.len() {
                seq![]
            } else {
                let after = if n == rest.len() {
                    seq![]
                } else {
                    rest.skip(n as int + 1)
                };
                seq![(specs[0], lossy(rest.take(n as int)))] + batch_answers(after, specs.skip(1))
            },
        }
    }
}

fn newline_from(v: &Vec<u8>, from: usize) -> (r: usize)
    requires
        from <= v@.len(),
    ensures
        r == from + newline_pos(v@.skip(from as int)),
        from <= r <= v@.len(),
{
    let mut i: usize = from;
    while i < v.len() && v[i] != 10
        invariant
            from <= i <= v@.len(),
            newline_pos(v@.skip(from as int)) == (i - from) + newline_pos(v@.skip(i as int)),
        decreases v@.len() - i,
    {
        assert(v@.skip(i as int).skip(1) =~= v@.skip(i + 1));
        i += 1;
    }
    i
}

fn bytes_of(v: &Vec<u8>, from: usize, to: usize) -> (r: Vec<u8>)
    requires
        from <= to <= v@.len(),
    ensures
        r@ == v@.subrange(from as int, to as int),
{
    let mut r: Vec<u8> = Vec::new();
    let mut i: usize = from;
    while i < to
        invariant
            from <= i <= to <= v@.len(),
            r@ == v@.subrange(from as int, i as int),
        decreases to - i,
    {
        r.push(v[i]);
        i += 1;
        assert(v@.subrange(from as int, i as int) =~= v@.subrange(from as int, i - 1).push(
            v@[i - 1],
        ));
    }
    r
}

fn header_size(header: &str) -> (r: Option<usize>)
    ensures
        match announced_size(header@) {
            Some(n) => r == Some(n as usize) && n <= usize::MAX,
            None => r is None,
        },
{
    match split_last(header, ' ') {
        Some((rest, size)) => if contains(rest, " ") {
            match parse_number(size, usize::MAX as u64) {
                Some(n) => Some(n as usize),
                None => None,
            }
        } else {
            None
        },
        None => None,
    }
}

/// Splits the output of `cat-file --batch` into one entry per answered spec.
pub fn parse_cat_file_batch(stdout: &Vec<u8>, specs: &Vec<String>) -> (r: Vec<(String, String)>)
    ensures
        r.deep_view() == batch_answers(stdout@, specs.deep_view()),
{
    let n = stdout.len();
    let mut r: Vec<(String, String)> = Vec::new();
    let mut at: usize = 0;
    let mut i: usize = 0;
    let ghost all = batch_answers(stdout@, specs.deep_view());
    assert(stdout@.skip(0) =~= stdout@);
    assert(specs.deep_view().skip(0) =~= specs.deep_view());
    assert(r.deep_view() + all =~= all);
    while at < n && i < specs.len()
        invariant_except_break
            n == stdout@.len(),
            at <= n,
            i <= specs@.len(),
            all == r.deep_view() + batch_answers(
                stdout@.skip(at as int),
                specs.deep_view().skip(i as int),
            ),
        ensures
            all == r.deep_view(),
        decreases specs@.len() - i,
    {
        let ghost s = stdout@.skip(at as int);
        let ghost asked = specs.deep_view().skip(i as int);
        let ghost before = r.deep_view();
        let k = newline_from(stdout, at);
        if k == n {
            assert(r.deep_view() + batch_answers(s, asked) =~= r.deep_view());
            break;
        }
        let head = bytes_of(stdout, at, k);
        let header = decode_lossy(head.as_slice());
        let ghost rest = s.skip(k - at + 1);
        assert(head@ =~= s.take(k - at));
        assert(rest =~= stdout@.skip(k + 1));
        assert(asked.skip(1) =~= specs.deep_view().skip(i + 1));
        assert(asked[0] == specs@[i as int]@);
        at = k + 1;
        match header_size(header.as_str()) {
            None => {},
            Some(size) => {
                if size > n - at {
                    assert(r.deep_view() + batch_answers(s, asked) =~= r.deep_view());
                    break;
                }
                let body = bytes_of(stdout, at, at + size);
                assert(body@ =~= rest.take(size as int));
                let text = decode_lossy(body.as_slice());
                let ghost t = text@;
                r.push((specs[i].clone(), text));
                assert(r.deep_view() =~= before.push((asked[0], t)));
                let ghost after = if size == rest.len() {
                    seq![]
                } else {
                    rest.skip(size as int + 1)
                };
                if size == n - at {
                    at = n;
                    assert(stdout@.skip(at as int) =~= after);
                } else {
                    at = at + size + 1;
                    assert(stdout@.skip(at as int) =~= after);
                }
                proof {
                    let tail = batch_answers(after, asked.skip(1));
                    assert(r.deep_view() + tail =~= before + (seq![(asked[0], t)] + tail));
                }
            },
        }
        i += 1;
    }
    r
}

/// A complete answer is read whole, whatever its content holds: behind a header
/// that announces its size come exactly its bytes, and the next answer starts
/// behind the line feed that follows them.
pub proof fn law_batch_steps_over_content(
    header: Seq<u8>,
    content: Seq<u8>,
    rest: Seq<u8>,
    spec_name: Seq<char>,
    specs: Seq<Seq<char>>,
)
    requires
        forall|i: int| 0 <= i < header.len() ==> header[i] != 10,
        announced_size(lossy(header)) == Some(content.len()),
    ensures
        batch_answers(
            header + seq![10u8] + content + seq![10u8] + rest,
            seq![spec_name] + specs,
        ) == seq![(spec_name, lossy(content))] + batch_answers(rest, specs),
{
    let s = header + seq![10u8] + content + seq![10u8] + rest;
    lemma_newline_pos_cat(header, seq![10u8] + content + seq![10u8] + rest);
    assert(s =~= header + (seq![10u8] + content + seq![10u8] + rest));
    let h = header.len() as int;
    assert(s.take(h) =~= header);
    let body = s.skip(h + 1);
    assert(body =~= content + seq![10u8] + rest);
    assert(body.take(content.len() as int) =~= content);
    assert(body.skip(content.len() as int + 1) =~= rest);
    assert((seq![spec_name] + specs).skip(1) =~= specs);
}

proof fn lemma_newline_pos_cat(a: Seq<u8>, b: Seq<u8>)
    requires
        forall|i: int| 0 <= i < a.len() ==> a[i] != 10,
        b.len() > 0 && b[0] == 10,
    ensures
        newline_pos(a + b) == a.len(),
    decreases a.len(),
{
    if a.len() > 0 {
        assert((a + b).skip(1) =~= a.skip(1) + b);
        lemma_newline_pos_cat(a.skip(1), b);
    } else {
        assert(a + b =~= b);
    }
}

/// The arguments behind [`show_files_at_refs`].
pub fn show_files_at_refs_args() -> (r: Vec<String>)
    ensures
        r.deep_view() == seq!["cat-file"@, "--batch"@],
{
    let r = vec!["cat-file".to_owned(), "--batch".to_owned()];
    assert(r.deep_view() =~= seq!["cat-file"@, "--batch"@]);
    r
}

/// The text to write to `cat-file --batch`: one spec to a line.
pub fn batch_request(specs: &Vec<String>) -> (r: Option<String>)
    ensures
        r.deep_view() == (if specs@.len() == 0 {
            None
        } else {
            Some(joined(specs.deep_view(), "\n"@) + "\n"@)
        }),
{
    if specs.is_empty() {
        return None;
    }
    let body = join(specs, "\n");
    Some(cat(body.as_str(), "\n"))
}

/// The answers to a batch that git ended with or without success.
pub fn show_files_at_refs(success: bool, stdout: &Vec<u8>, specs: &Vec<String>) -> (r: Result<
    Vec<(String, String)>,
    RfError,
>)
    ensures
        r is Ok <==> success || specs@.len() == 0,
        r matches Ok(v) ==> v.deep_view() == (if specs@.len() == 0 {
            seq![]
        } else {
            batch_answers(stdout@, specs.deep_view())
        }),
        r matches Err(e) ==> e.deep_view() == RfErrorView::Git("`git cat-file --batch` failed"@),
{
    if specs.is_empty() {
        let none: Vec<(String, String)> = Vec::new();
        assert(none.deep_view() =~= seq![]);
        return Ok(none);
    }
    if !success {
        return Err(RfError::Git("`git cat-file --batch` failed".to_owned()));
    }
    Ok(parse_cat_file_batch(stdout, specs))
}

/// The name of a file at a reference.
pub fn blob_spec(refspec: &str, path: &str) -> (r: String)
    ensures
        r@ == refspec@ + ":"@ + path@,
{
    cat3(refspec, ":", path)
}

/// The arguments behind [`show_file_at_ref`].
pub fn show_file_at_ref_args(spec_name: &str) -> (r: Vec<String>)
    ensures
        r.deep_view() == seq!["show"@, spec_name@],
{
    let r = vec!["show".to_owned(), owned(spec_name)];
    assert(r.deep_view() =~= seq!["show"@, spec_name@]);
    r
}

/// Whether standard error says that a path does not exist at a reference.
pub open spec fn says_absent(stderr: Seq<char>) -> bool {
    occurs(stderr, "does not exist"@) || occurs(stderr, "exists on disk, but not in"@)
}

/// The content of a file at a reference, from the reply to `git show`. A path
/// that does not exist there is no error; any other failure is. The content is
/// not trimmed.
pub fn show_file_at_ref(spec_name: &str, reply: &GitReply) -> (r: Result<Option<String>, RfError>)
    ensures
        r is Ok <==> reply.success || says_absent(reply.stderr@),
        r matches Ok(v) ==> v.deep_view() == (if reply.success {
            Some(reply.stdout@)
        } else {
            None
        }),
        r matches Err(e) ==> e.deep_view() == RfErrorView::Git(
            "`git show "@ + spec_name@ + "` failed: "@ + reply.stderr@,
        ),
{
    if reply.success {
        return Ok(Some(reply.stdout.clone()));
    }
    let err = reply.stderr.as_str();
    if contains(err, "does not exist") || contains(err, "exists on disk, but not in") {
        return Ok(None);
    }
    Err(RfError::Git(cat4("`git show ", spec_name, "` failed: ", err)))
}

// ── Tags and commits ────────────────────────────────────────────────────────

/// The reference that exists exactly when the tag does. A branch or a commit of
/// the same name is not taken for it.
pub fn tag_exists(tag: &str) -> (r: String)
    ensures
        r@ == "refs/tags/"@ + tag@,
{
    cat("refs/tags/", tag)
}

/// The arguments that create an annotated tag at `target`.
pub fn create_annotated_tag(tag: &str, message: &str, target: &str) -> (r: Vec<String>)
    ensures
        r.deep_view() == seq!["tag"@, "-a"@, tag@, "-m"@, message@, target@],
{
    let r = vec![
        "tag".to_owned(),
        "-a".to_owned(),
        owned(tag),
        "-m".to_owned(),
        owned(message),
        owned(target),
    ];
    assert(r.deep_view() =~= seq!["tag"@, "-a"@, tag@, "-m"@, message@, target@]);
    r
}

/// The arguments that push a single tag.
pub fn push_tag(remote: &str, tag: &str) -> (r: Vec<String>)
    ensures
        r.deep_view() == seq!["push"@, remote@, "refs/tags/"@ + tag@],
{
    let r = vec!["push".to_owned(), owned(remote), cat("refs/tags/", tag)];
    assert(r.deep_view() =~= seq!["push"@, remote@, "refs/tags/"@ + tag@]);
    r
}

/// The paths that exist.
pub open spec fn present_paths(paths: Seq<(Seq<char>, bool)>) -> Seq<Seq<char>> {
    kept(
        paths,
        |p: (Seq<char>, bool)|
            if p.1 {
                Some(p.0)
            } else {
                None
            },
    )
}

/// The two invocations that stage the paths that exist and commit them with
/// `message`. Paths that do not exist are skipped; if none does, there is
/// nothing to commit.
pub fn commit_paths(paths: &Vec<(String, bool)>, message: &str) -> (r: Result<
    (Vec<String>, Vec<String>),
    RfError,
>)
    ensures
        r is Ok <==> present_paths(paths.deep_view()).len() > 0,
        r matches Ok((add, commit)) ==> add.deep_view() == seq!["add"@, "--"@] + present_paths(
            paths.deep_view(),
        ) && commit.deep_view() == seq!["commit"@, "-m"@, message@],
        r matches Err(e) ==> e.deep_view() == RfErrorView::Git(
            "nothing to commit: none of the requested paths exist"@,
        ),
{
    let mut present: Vec<String> = Vec::new();
    let mut i: usize = 0;
    let ghost f = |p: (Seq<char>, bool)|
        if p.1 {
            Some(p.0)
        } else {
            None
        };
    proof {
        lemma_kept_ends(paths.deep_view(), f);
    }
    assert(present.deep_view() =~= seq![]);
    while i < paths.len()
        invariant
            i <= paths@.len(),
            f == (|p: (Seq<char>, bool)|
                if p.1 {
                    Some(p.0)
                } else {
                    None
                }),
            present.deep_view() == kept(paths.deep_view().take(i as int), f),
        decreases paths@.len() - i,
    {
        proof {
            lemma_kept_step(paths.deep_view(), i as int, f);
        }
        let ghost before = present.deep_view();
        if paths[i].1 {
            present.push(paths[i].0.clone());
            assert(present.deep_view() =~= before.push(paths@[i as int].0@));
        }
        i += 1;
    }
    assert(present@.len() == present.deep_view().len());
    if present.is_empty() {
        return Err(
            RfError::Git("nothing to commit: none of the requested paths exist".to_owned()),
        );
    }
    let front = vec!["add".to_owned(), "--".to_owned()];
    assert(front.deep_view() =~= seq!["add"@, "--"@]);
    let commit = vec!["commit".to_owned(), "-m".to_owned(), owned(message)];
    assert(commit.deep_view() =~= seq!["commit"@, "-m"@, message@]);
    Ok((followed_by(front, &present), commit))
}

proof fn lemma_behind_a_space(s: Seq<char>)
    requires
        s.len() > 0,
        !white(s[0]),
        !white(s.last()),
    ensures
        trimmed(" "@ + s) == s,
        trimmed(s) == s,
{
    reveal_strlit(" ");
    assert(white(' '));
    let t = " "@ + s;
    assert(t[0] == ' ');
    assert(t.skip(1) =~= s);
    reveal_with_fuel(trimmed_start, 2);
}

proof fn lemma_counted(keyword: Seq<char>, n: u32)
    requires
        keyword.len() > 0,
        !white(keyword[0]),
    ensures
        ({
            let t = keyword + " "@ + decimal(n as nat);
            &&& trimmed(t) == t
            &&& trimmed(" "@ + t) == t
            &&& count_in(t, keyword) == Some(n as nat)
            &&& count_in(" "@ + t, keyword) == Some(n as nat)
        }),
{
    reveal_strlit(" ");
    let d = decimal(n as nat);
    lemma_decimal_value(n as nat);
    law_decimal_reads_back(n as nat, u32::MAX as nat);
    assert(digit(d[0]) && digit(d[d.len() - 1]));
    let t = keyword + " "@ + d;
    assert(t[0] == keyword[0]);
    assert(t.last() == d.last());
    lemma_behind_a_space(t);
    lemma_behind_a_space(d);
    assert(t.take(keyword.len() as int) =~= keyword);
    assert(t.skip(keyword.len() as int) =~= " "@ + d);
}

/// The track text that git prints reads back: `ahead` with a number, `behind` with
/// a number, or both with a comma between them; and a branch with an upstream and
/// nothing printed is in sync.
pub proof fn law_track_text_reads_back(b: LocalBranchView, ahead: u32, behind: u32)
    requires
        b.upstream.len() > 0,
        ahead > 0,
        behind > 0,
    ensures
        b.track.len() == 0 ==> track_of(b) is InSync,
        b.track == "ahead "@ + decimal(ahead as nat) ==> track_of(b) == TrackState::Ahead(ahead),
        b.track == "behind "@ + decimal(behind as nat) ==> track_of(b) == TrackState::Behind(
            behind,
        ),
        b.track == "ahead "@ + decimal(ahead as nat) + ", behind "@ + decimal(behind as nat)
            ==> track_of(b) == (TrackState::Diverged { ahead, behind }),
        b.track == "gone"@ ==> track_of(b) is Gone,
{
    reveal_strlit("ahead");
    reveal_strlit("behind");
    reveal_strlit("ahead ");
    reveal_strlit("behind ");
    reveal_strlit(", behind ");
    reveal_strlit(" ");
    reveal_strlit("gone");
    reveal_strlit("[gone]");
    let da = decimal(ahead as nat);
    let db = decimal(behind as nat);
    let a = "ahead"@ + " "@ + da;
    let c = "behind"@ + " "@ + db;
    lemma_decimal_value(ahead as nat);
    lemma_decimal_value(behind as nat);
    lemma_counted("ahead"@, ahead);
    lemma_counted("behind"@, behind);
    assert(forall|i: int| 0 <= i < da.len() ==> digit(#[trigger] da[i]));
    assert(forall|i: int| 0 <= i < db.len() ==> digit(#[trigger] db[i]));
    assert("ahead "@ + da =~= a);
    assert("behind "@ + db =~= c);
    assert(a[0] == 'a');
    assert(c[0] == 'b');
    assert("gone"@[0] == 'g' && "[gone]"@[0] == '[');
    lemma_parts_single(a, ',');
    lemma_parts_single(c, ',');
    assert(parts_on(a, ',').skip(1) =~= seq![]);
    assert(parts_on(c, ',').skip(1) =~= seq![]);
    assert(!begins(a, "behind"@)) by {
        assert(a.take("behind"@.len() as int)[0] != "behind"@[0]);
    }
    assert(!begins(c, "ahead"@)) by {
        assert(c.take("ahead"@.len() as int)[0] != "ahead"@[0]);
    }
    reveal_with_fuel(first_count, 3);
    if b.track.len() == 0 {
        assert(trimmed(b.track) =~= seq![]);
        lemma_parts_single(seq![], ',');
        assert(parts_on(seq![], ',').skip(1) =~= seq![]);
    }
    if b.track == "ahead "@ + da + ", behind "@ + db {
        let t = b.track;
        let s = " "@ + c;
        assert(t =~= a + seq![','] + s);
        assert(t[0] == 'a');
        assert(t.last() == db.last());
        assert(digit(db[db.len() - 1]));
        lemma_trimmed_as_is(t);
        lemma_parts_cat(a, s, ',');
        lemma_parts_single(s, ',');
        let p = parts_on(t, ',');
        assert(p =~= seq![a, s]);
        assert(p.skip(1) =~= seq![s]);
        assert(p.skip(1).skip(1) =~= seq![]);
    }
    if b.track == "gone"@ {
        assert(b.track.last() == 'e');
        lemma_trimmed_as_is(b.track);
    }
}

/// A push would be rejected exactly when the upstream has commits that are missing
/// here.
pub proof fn law_missing_commits_reject_a_push(b: LocalBranchView)
    ensures
        track_of(b).needs_force() <==> b.upstream.len() > 0 && !says_gone(b.track) && track_count(
            trimmed(b.track),
            "behind"@,
        ) > 0,
        forall|t: TrackState| #[trigger] t.needs_force() <==> t is Behind || t is Diverged,
{
}

/// A branch reads back from the line that is asked for: five fields with tabs
/// between them, of which the last, the worktree, is taken as it stands.
pub proof fn law_branch_line_reads_back(b: LocalBranchView)
    requires
        b.name.len() > 0,
        trimmed(b.name) == b.name,
        trimmed(b.upstream) == b.upstream,
        trimmed(b.remote_name) == b.remote_name,
        trimmed(b.track) == b.track,
        forall|i: int| 0 <= i < b.name.len() ==> #[trigger] b.name[i] != '\t',
        forall|i: int| 0 <= i < b.upstream.len() ==> #[trigger] b.upstream[i] != '\t',
        forall|i: int| 0 <= i < b.remote_name.len() ==> #[trigger] b.remote_name[i] != '\t',
        forall|i: int| 0 <= i < b.track.len() ==> #[trigger] b.track[i] != '\t',
    ensures
        branch_on(
            b.name + seq!['\t'] + (b.upstream + seq!['\t'] + (b.remote_name + seq!['\t'] + (b.track
                + seq!['\t'] + b.worktree))),
        ) == Some(b),
{
    let tab = seq!['\t'];
    let d = b.track + tab + b.worktree;
    let c = b.remote_name + tab + d;
    let e = b.upstream + tab + c;
    let line = b.name + tab + e;
    lemma_first_parts_cat(b.name, e, '\t', 5);
    lemma_first_parts_cat(b.upstream, c, '\t', 4);
    lemma_first_parts_cat(b.remote_name, d, '\t', 3);
    lemma_first_parts_cat(b.track, b.worktree, '\t', 2);
    assert(first_parts(b.worktree, '\t', 1) =~= seq![b.worktree]);
    assert(first_parts(line, '\t', 5) =~= seq![
        b.name,
        b.upstream,
        b.remote_name,
        b.track,
        b.worktree,
    ]);
}

/// A line of a branch listing names its branch, whatever marker git puts before it:
/// the one for the current branch, the one for another worktree, or none.
pub proof fn law_markers_are_not_read(name: Seq<char>)
    requires
        name.len() > 0,
        !white(name[0]),
        !white(name.last()),
        name[0] != '*',
        name[0] != '+',
    ensures
        local_name("* "@ + name) == Some(name),
        local_name("+ "@ + name) == Some(name),
        local_name("  "@ + name) == Some(name),
        local_name(name) == Some(name),
{
    reveal_strlit("* ");
    reveal_strlit("+ ");
    reveal_strlit("  ");
    reveal_strlit(" ");
    let here = "* "@ + name;
    let there = "+ "@ + name;
    assert(here[0] == '*' && here.last() == name.last());
    assert(there[0] == '+' && there.last() == name.last());
    lemma_trimmed_as_is(here);
    lemma_trimmed_as_is(there);
    lemma_trimmed_as_is(name);
    assert(here.take(2) =~= "* "@);
    assert(there.take(2) =~= "+ "@);
    assert(here.skip(2) =~= name);
    assert(there.skip(2) =~= name);
    let plain = "  "@ + name;
    assert(plain[0] == ' ' && plain.skip(1)[0] == ' ');
    assert(plain.skip(1).skip(1) =~= name);
    reveal_with_fuel(trimmed_start, 3);
    assert(trimmed(plain) == name);
    if name.len() >= 2 {
        assert(name.take(2)[0] == name[0]);
    }
}

/// A line of a listing of remote branches names its branch without the `origin/` in
/// front, which is taken off once; a symbolic reference is none.
pub proof fn law_remote_listings_name_branches(name: Seq<char>, line: Seq<char>)
    requires
        name.len() > 0,
        !white(name.last()),
    ensures
        !occurs("origin/"@ + name, "->"@) ==> remote_name("origin/"@ + name) == Some(name),
        occurs(trimmed(line), "->"@) ==> remote_name(line) is None,
{
    reveal_strlit("origin/");
    let t = "origin/"@ + name;
    assert(t[0] == 'o' && t.last() == name.last());
    lemma_trimmed_as_is(t);
    assert(t.take("origin/"@.len() as int) =~= "origin/"@);
    assert(t.skip("origin/"@.len() as int) =~= name);
}

/// A branch resolves to its own name wherever it exists here, and to the remote's
/// copy only where it exists there alone.
pub proof fn law_local_copies_come_first(branch: Seq<char>, local: bool, remote: bool)
    ensures
        local ==> resolved(branch, local, remote) == Some(branch),
        !local && remote ==> resolved(branch, local, remote) == Some("origin/"@ + branch),
        resolved(branch, local, remote) is None <==> !local && !remote,
{
}

/// The references of a remote are the lines that begin with its name and a slash,
/// without its symbolic head.
pub proof fn law_tracking_refs_are_the_remotes(out: Seq<char>, remote: Seq<char>, name: Seq<char>)
    ensures
        tracking_refs(out, remote).contains(name) <==> begins(name, remote + "/"@) && !ends(
            name,
            "/HEAD"@,
        ) && exists|i: int|
            0 <= i < lines_of(out).len() && trimmed(#[trigger] lines_of(out)[i]) == name,
{
    let g = |l: Seq<char>| tracking_ref(l, remote);
    let all = lines_of(out);
    lemma_kept_contains(all, g, name);
    if tracking_refs(out, remote).contains(name) {
        let i = choose|i: int| 0 <= i < all.len() && g(#[trigger] all[i]) == Some(name);
        assert(trimmed(all[i]) == name);
    }
    if begins(name, remote + "/"@) && !ends(name, "/HEAD"@) && exists|i: int|
        0 <= i < all.len() && trimmed(#[trigger] all[i]) == name {
        let i = choose|i: int| 0 <= i < all.len() && trimmed(#[trigger] all[i]) == name;
        assert(g(all[i]) == Some(name));
    }
}

/// The remotes are the lines that hold more than white space, and the subjects of a
/// log the lines that are not empty.
pub proof fn law_filled_lines_are_read(out: Seq<char>, text: Seq<char>)
    ensures
        remote_list(out).contains(text) <==> text.len() > 0 && exists|i: int|
            0 <= i < lines_of(out).len() && trimmed(#[trigger] lines_of(out)[i]) == text,
        subjects_in(out).contains(text) <==> text.len() > 0 && lines_of(out).contains(text),
{
    let f = |l: Seq<char>| filled(l);
    let g = |l: Seq<char>| nonempty(l);
    let all = lines_of(out);
    lemma_kept_contains(all, f, text);
    lemma_kept_contains(all, g, text);
    if remote_list(out).contains(text) {
        let i = choose|i: int| 0 <= i < all.len() && f(#[trigger] all[i]) == Some(text);
        assert(trimmed(all[i]) == text);
    }
    if text.len() > 0 && exists|i: int| 0 <= i < all.len() && trimmed(#[trigger] all[i]) == text {
        let i = choose|i: int| 0 <= i < all.len() && trimmed(#[trigger] all[i]) == text;
        assert(f(all[i]) == Some(text));
    }
    if subjects_in(out).contains(text) {
        let i = choose|i: int| 0 <= i < all.len() && g(#[trigger] all[i]) == Some(text);
        assert(all[i] == text);
    }
    if text.len() > 0 && all.contains(text) {
        let i = choose|i: int| 0 <= i < all.len() && all[i] == text;
        assert(g(all[i]) == Some(text));
    }
}

/// Only paths that exist are committed, and all of those.
pub proof fn law_existing_paths_are_committed(paths: Seq<(Seq<char>, bool)>, path: Seq<char>)
    ensures
        present_paths(paths).contains(path) <==> paths.contains((path, true)),
{
    let g = |p: (Seq<char>, bool)|
        if p.1 {
            Some(p.0)
        } else {
            None
        };
    lemma_kept_contains(paths, g, path);
    if present_paths(paths).contains(path) {
        let i = choose|i: int| 0 <= i < paths.len() && g(#[trigger] paths[i]) == Some(path);
        assert(paths[i] == (path, true));
    }
    if paths.contains((path, true)) {
        let i = choose|i: int| 0 <= i < paths.len() && paths[i] == (path, true);
        assert(g(paths[i]) == Some(path));
    }
}

/// The counts of commits on either side read back: ahead first, then behind, with a
/// tab between them.
pub proof fn law_counts_on_both_sides_read_back(ahead: u32, behind: u32)
    ensures
        counts_in(decimal(ahead as nat) + seq!['\t'] + decimal(behind as nat)) == Some(
            (ahead, behind),
        ),
{
    let a = decimal(ahead as nat);
    let b = decimal(behind as nat);
    lemma_decimal_value(ahead as nat);
    lemma_decimal_value(behind as nat);
    law_decimal_reads_back(ahead as nat, u32::MAX as nat);
    law_decimal_reads_back(behind as nat, u32::MAX as nat);
    assert(forall|i: int| 0 <= i < a.len() ==> digit(#[trigger] a[i]));
    assert(forall|i: int| 0 <= i < b.len() ==> digit(#[trigger] b[i]));
    assert(forall|c: char| digit(c) ==> !#[trigger] white(c));
    let tail = seq!['\t'] + b;
    let s = a + seq!['\t'] + b;
    assert(s =~= a + tail);
    assert(white('\t'));
    lemma_white_pos_cat(a, tail);
    assert(s[0] == a[0]);
    assert(trimmed_start(s) == s);
    assert(s.take(a.len() as int) =~= a);
    assert(s.skip(a.len() as int) =~= tail);
    assert(tail.skip(1) =~= b);
    assert(tail[0] == '\t');
    assert(b.skip(0) =~= b);
    reveal_with_fuel(trimmed_start, 3);
    assert(trimmed_start(tail) == b);
    lemma_white_pos_cat(b, seq![]);
    assert(b + Seq::<char>::empty() =~= b);
    assert(b.take(b.len() as int) =~= b);
    reveal_with_fuel(words_of, 3);
    let w = words_of(s);
    assert(w =~= seq![a] + words_of(tail));
    assert(words_of(tail) =~= seq![b] + words_of(b.skip(b.len() as int)));
    assert(w[0] == a && w[1] == b);
}

} // verus!
