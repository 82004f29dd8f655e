//! The branch janitor: which branches of a repository can go.
//!
//! Everything is computed from facts that were gathered beforehand, so the plan
//! can be shown, confirmed, and then applied unchanged. A configuration is
//! optional: without one, conventions take its place.
use vstd::prelude::*;

use crate::branches::{RollInfo, RollState, RollView};
use crate::git::{says_gone, LocalBranch, LocalBranchView};
use crate::seqs::{
    find_value, has_pair, kept, law_lookup_finds_the_first, law_ordered, law_text_order_is_total,
    lemma_kept_contains, lemma_kept_ends, lemma_kept_step, lookup, ordered, sort_dedup_texts,
};
use crate::text::{cat, cat3, copy_opt, copy_texts, has_text, owned, same, trim, trimmed};

verus! {

// ── Types ───────────────────────────────────────────────────────────────────

/// How far a clean may go.
#[derive(Debug, Clone, Copy, PartialEq, Eq, Structural)]
pub struct CleanScope {
    /// Also delete the branches on their remote.
    pub with_remote: bool,
    /// Delete even when a branch holds commits that the base lacks.
    pub force: bool,
    /// Refresh remote-tracking references before planning.
    pub fetch: bool,
}

/// Why a branch is cleanup material.
#[derive(Debug, Clone, Copy, PartialEq, Eq, Structural)]
pub enum CleanReason {
    /// A roll that has been promoted to stable.
    Promoted,
    /// The upstream that the branch tracked has been deleted.
    UpstreamGone,
    /// Fully contained in the base branch.
    Merged,
}

impl CleanReason {
    /// The reason in a word.
    pub open spec fn label_text(self) -> Seq<char> {
        match self {
            CleanReason::Promoted => "promoted"@,
            CleanReason::UpstreamGone => "gone"@,
            CleanReason::Merged => "merged"@,
        }
    }

    /// The reason in a word.
    pub fn label(&self) -> (r: &'static str)
        ensures
            r@ == self.label_text(),
    {
        match self {
            CleanReason::Promoted => "promoted",
            CleanReason::UpstreamGone => "gone",
            CleanReason::Merged => "merged",
        }
    }
}

/// A branch to delete, and which copies of it.
#[derive(Debug)]
pub struct CleanItem {
    pub branch: String,
    pub reason: CleanReason,
    pub delete_local: bool,
    pub delete_remote: bool,
    /// The remote that `delete_remote` targets.
    pub remote: Option<String>,
    /// Commits that would be lost, where force overrode containment.
    pub unmerged: Option<u32>,
}

/// [`CleanItem`] by its characters.
pub struct CleanItemView {
    pub branch: Seq<char>,
    pub reason: CleanReason,
    pub delete_local: bool,
    pub delete_remote: bool,
    pub remote: Option<Seq<char>>,
    pub unmerged: Option<u32>,
}

impl DeepView for CleanItem {
    type V = CleanItemView;

    open spec fn deep_view(&self) -> CleanItemView {
        CleanItemView {
            branch: self.branch@,
            reason: self.reason,
            delete_local: self.delete_local,
            delete_remote: self.delete_remote,
            remote: self.remote.deep_view(),
            unmerged: self.unmerged,
        }
    }
}

/// A branch that is left alone, with the reason to show.
#[derive(Debug)]
pub struct CleanSkip {
    pub branch: String,
    pub reason: String,
}

/// [`CleanSkip`] by its characters.
pub struct CleanSkipView {
    pub branch: Seq<char>,
    pub reason: Seq<char>,
}

impl DeepView for CleanSkip {
    type V = CleanSkipView;

    open spec fn deep_view(&self) -> CleanSkipView {
        CleanSkipView { branch: self.branch@, reason: self.reason@ }
    }
}

/// What pruning one remote did.
#[derive(Debug)]
pub struct PrunedRemote {
    pub remote: String,
    /// The remote-tracking references that the prune dropped.
    pub removed: Vec<String>,
    /// Why the fetch failed, if it did.
    pub error: Option<String>,
}

/// [`PrunedRemote`] by its characters.
pub struct PrunedRemoteView {
    pub remote: Seq<char>,
    pub removed: Seq<Seq<char>>,
    pub error: Option<Seq<char>>,
}

impl DeepView for PrunedRemote {
    type V = PrunedRemoteView;

    open spec fn deep_view(&self) -> PrunedRemoteView {
        PrunedRemoteView {
            remote: self.remote@,
            removed: self.removed.deep_view(),
            error: self.error.deep_view(),
        }
    }
}

impl PrunedRemote {
    /// A copy of the record.
    pub fn copy(&self) -> (r: PrunedRemote)
        ensures
            r.deep_view() == self.deep_view(),
    {
        PrunedRemote {
            remote: self.remote.clone(),
            removed: copy_texts(&self.removed),
            error: copy_opt(&self.error),
        }
    }
}

/// How the base branch was found.
#[derive(Debug, Clone, Copy, PartialEq, Eq, Structural)]
pub enum BaseSource {
    Config,
    RemoteHead,
    Conventional,
    CurrentBranch,
}

impl BaseSource {
    /// The source in words.
    pub open spec fn label_text(self) -> Seq<char> {
        match self {
            BaseSource::Config => "from .roll-flow.toml"@,
            BaseSource::RemoteHead => "from remote HEAD"@,
            BaseSource::Conventional => "conventional name"@,
            BaseSource::CurrentBranch => "current branch"@,
        }
    }

    /// The source in words.
    pub fn label(&self) -> (r: &'static str)
        ensures
            r@ == self.label_text(),
    {
        match self {
            BaseSource::Config => "from .roll-flow.toml",
            BaseSource::RemoteHead => "from remote HEAD",
            BaseSource::Conventional => "conventional name",
            BaseSource::CurrentBranch => "current branch",
        }
    }
}

/// The branch that everything is measured against.
#[derive(Debug)]
pub struct CleanBase {
    pub name: String,
    /// The references that count as being in the base: the local branch and its
    /// remote-tracking counterparts, as far as they resolve.
    pub refs: Vec<String>,
    pub source: BaseSource,
}

/// [`CleanBase`] by its characters.
pub struct CleanBaseView {
    pub name: Seq<char>,
    pub refs: Seq<Seq<char>>,
    pub source: BaseSource,
}

impl DeepView for CleanBase {
    type V = CleanBaseView;

    open spec fn deep_view(&self) -> CleanBaseView {
        CleanBaseView { name: self.name@, refs: self.refs.deep_view(), source: self.source }
    }
}

/// The part of a configuration that a clean reads.
#[derive(Debug)]
pub struct CleanConfig {
    pub stable_branch: String,
    pub rolling_branch: String,
    pub clean_protect: Vec<String>,
}

/// [`CleanConfig`] by its characters.
pub struct CleanConfigView {
    pub stable_branch: Seq<char>,
    pub rolling_branch: Seq<char>,
    pub clean_protect: Seq<Seq<char>>,
}

impl DeepView for CleanConfig {
    type V = CleanConfigView;

    open spec fn deep_view(&self) -> CleanConfigView {
        CleanConfigView {
            stable_branch: self.stable_branch@,
            rolling_branch: self.rolling_branch@,
            clean_protect: self.clean_protect.deep_view(),
        }
    }
}

/// Everything that a plan is computed from.
pub struct CleanFacts {
    /// `None` in a repository without a configuration.
    pub config: Option<CleanConfig>,
    pub remotes: Vec<String>,
    /// The default branch of each remote that records one.
    pub remote_heads: Vec<(String, String)>,
    /// The references that resolve.
    pub refs: Vec<String>,
    pub details: Vec<LocalBranch>,
    /// The checked-out branch; empty where there is none.
    pub current: String,
    /// The roll branches that have been promoted.
    pub promoted: Vec<String>,
    /// Pairs of references of which the first is an ancestor of the second.
    pub ancestry: Vec<(String, String)>,
    /// How many commits of a branch the base lacks, where git could count them.
    pub unmerged: Vec<(String, u32)>,
    pub pruned: Vec<PrunedRemote>,
    /// Whether history is truncated.
    pub shallow: bool,
}

/// [`CleanFacts`] by its characters.
pub struct CleanFactsView {
    pub config: Option<CleanConfigView>,
    pub remotes: Seq<Seq<char>>,
    pub remote_heads: Seq<(Seq<char>, Seq<char>)>,
    pub refs: Seq<Seq<char>>,
    pub details: Seq<LocalBranchView>,
    pub current: Seq<char>,
    pub promoted: Seq<Seq<char>>,
    pub ancestry: Seq<(Seq<char>, Seq<char>)>,
    pub unmerged: Seq<(Seq<char>, u32)>,
    pub pruned: Seq<PrunedRemoteView>,
    pub shallow: bool,
}

impl DeepView for CleanFacts {
    type V = CleanFactsView;

    open spec fn deep_view(&self) -> CleanFactsView {
        CleanFactsView {
            config: self.config.deep_view(),
            remotes: self.remotes.deep_view(),
            remote_heads: self.remote_heads.deep_view(),
            refs: self.refs.deep_view(),
            details: self.details.deep_view(),
            current: self.current@,
            promoted: self.promoted.deep_view(),
            ancestry: self.ancestry.deep_view(),
            unmerged: self.unmerged.deep_view(),
            pruned: self.pruned.deep_view(),
            shallow: self.shallow,
        }
    }
}

/// What a clean would do.
#[derive(Debug)]
pub struct CleanOutcome {
    pub pruned: Vec<PrunedRemote>,
    pub items: Vec<CleanItem>,
    pub skipped: Vec<CleanSkip>,
    pub base: Option<CleanBase>,
    /// Whether there is a configuration.
    pub had_config: bool,
    /// Whether there are no remotes at all.
    pub no_remotes: bool,
    pub shallow: bool,
}

/// [`CleanOutcome`] by its characters.
pub struct CleanOutcomeView {
    pub pruned: Seq<PrunedRemoteView>,
    pub items: Seq<CleanItemView>,
    pub skipped: Seq<CleanSkipView>,
    pub base: Option<CleanBaseView>,
    pub had_config: bool,
    pub no_remotes: bool,
    pub shallow: bool,
}

impl DeepView for CleanOutcome {
    type V = CleanOutcomeView;

    open spec fn deep_view(&self) -> CleanOutcomeView {
        CleanOutcomeView {
            pruned: self.pruned.deep_view(),
            items: self.items.deep_view(),
            skipped: self.skipped.deep_view(),
            base: self.base.deep_view(),
            had_config: self.had_config,
            no_remotes: self.no_remotes,
            shallow: self.shallow,
        }
    }
}

/// How many references the prunes dropped.
pub open spec fn dropped_refs(pruned: Seq<PrunedRemoteView>) -> nat
    decreases pruned.len(),
{
    if pruned.len() == 0 {
        0
    } else {
        dropped_refs(pruned.drop_last()) + pruned.last().removed.len()
    }
}

impl CleanOutcome {
    /// Whether there is nothing to delete.
    pub fn is_empty(&self) -> (r: bool)
        ensures
            r == (self.deep_view().items.len() == 0),
    {
        self.items.is_empty()
    }

    /// How many stale references were dropped, over all remotes.
    pub fn pruned_count(&self) -> (r: usize)
        ensures
            r == count_up_to(dropped_refs(self.deep_view().pruned), usize::MAX as nat),
    {
        let mut n: usize = 0;
        let mut i: usize = 0;
        let ghost all = self.pruned.deep_view();
        while i < self.pruned.len()
            invariant
                i <= self.pruned@.len(),
                all == self.pruned.deep_view(),
                n == count_up_to(dropped_refs(all.take(i as int)), usize::MAX as nat),
            decreases self.pruned@.len() - i,
        {
            assert(all.take(i + 1).drop_last() =~= all.take(i as int));
            assert(all[i as int].removed.len() == self.pruned@[i as int].removed@.len());
            n = n.saturating_add(self.pruned[i].removed.len());
            i += 1;
        }
        assert(all.take(all.len() as int) =~= all);
        n
    }
}

/// `n`, or `max` where `n` is above it.
pub open spec fn count_up_to(n: nat, max: nat) -> nat {
    if n <= max {
        n
    } else {
        max
    }
}

// ── Classification ──────────────────────────────────────────────────────────

/// Why a branch must not be touched, however cleanable it looks. Being the
/// current branch outranks being checked out elsewhere, and that outranks being
/// protected.
pub open spec fn guarded(
    branch: LocalBranchView,
    current: Seq<char>,
    protected: Seq<Seq<char>>,
) -> Option<Seq<char>> {
    if branch.name == current {
        Some("checked out — switch away to clean it"@)
    } else if branch.worktree.len() > 0 {
        Some("checked out in worktree at "@ + trimmed(branch.worktree))
    } else if protected.contains(branch.name) {
        Some("protected branch"@)
    } else {
        None
    }
}

/// Why a branch must not be touched, however cleanable it looks.
pub fn guard(branch: &LocalBranch, current: &str, protected: &Vec<String>) -> (r: Option<String>)
    ensures
        r.deep_view() == guarded(branch.deep_view(), current@, protected.deep_view()),
{
    if same(branch.name.as_str(), current) {
        return Some("checked out — switch away to clean it".to_owned());
    }
    if branch.is_checked_out() {
        return Some(cat("checked out in worktree at ", trim(branch.worktree.as_str())));
    }
    if has_text(protected, branch.name.as_str()) {
        return Some("protected branch".to_owned());
    }
    None
}

/// Which category a branch falls into; the most informative one counts.
pub open spec fn category(branch: LocalBranchView, is_promoted: bool, merged: bool) -> Option<
    CleanReason,
> {
    if is_promoted {
        Some(CleanReason::Promoted)
    } else if branch.gone() {
        Some(CleanReason::UpstreamGone)
    } else if merged {
        Some(CleanReason::Merged)
    } else {
        None
    }
}

/// Which category a branch falls into.
pub fn categorize(branch: &LocalBranch, is_promoted: bool, merged: bool) -> (r: Option<CleanReason>)
    ensures
        r == category(branch.deep_view(), is_promoted, merged),
{
    if is_promoted {
        return Some(CleanReason::Promoted);
    }
    if branch.upstream_gone() {
        return Some(CleanReason::UpstreamGone);
    }
    if merged {
        return Some(CleanReason::Merged);
    }
    None
}

// ── The base ────────────────────────────────────────────────────────────────

/// The remote-tracking reference of a branch.
pub open spec fn tracking_name(remote: Seq<char>, branch: Seq<char>) -> Seq<char> {
    remote + "/"@ + branch
}

/// The references for `name` that resolve: the local branch, then its
/// counterpart on each remote.
pub open spec fn containment(
    refs: Seq<Seq<char>>,
    name: Seq<char>,
    remotes: Seq<Seq<char>>,
) -> Seq<Seq<char>> {
    let local = if refs.contains(name) {
        seq![name]
    } else {
        seq![]
    };
    local + kept(
        remotes,
        |r: Seq<char>|
            if refs.contains(tracking_name(r, name)) {
                Some(tracking_name(r, name))
            } else {
                None
            },
    )
}

/// The references for `name` that resolve.
pub fn containment_refs(refs: &Vec<String>, name: &str, remotes: &Vec<String>) -> (r: Vec<String>)
    ensures
        r.deep_view() == containment(refs.deep_view(), name@, remotes.deep_view()),
{
    let mut r: Vec<String> = Vec::new();
    let ghost known = refs.deep_view();
    let ghost all = remotes.deep_view();
    let ghost mut local = Seq::<Seq<char>>::empty();
    if has_text(refs, name) {
        r.push(owned(name));
        proof {
            local = seq![name@];
        }
    }
    assert(r.deep_view() =~= local);
    let ghost f = |t: Seq<char>|
        if known.contains(tracking_name(t, name@)) {
            Some(tracking_name(t, name@))
        } else {
            None
        };
    let mut i: usize = 0;
    proof {
        lemma_kept_ends(all, f);
        assert(local + Seq::<Seq<char>>::empty() =~= local);
    }
    while i < remotes.len()
        invariant
            i <= remotes@.len(),
            known == refs.deep_view(),
            all == remotes.deep_view(),
            f == (|t: Seq<char>|
                if known.contains(tracking_name(t, name@)) {
                    Some(tracking_name(t, name@))
                } else {
                    None
                }),
            r.deep_view() == local + kept(all.take(i as int), f),
        decreases remotes@.len() - i,
    {
        proof {
            lemma_kept_step(all, i as int, f);
        }
        let ghost before = r.deep_view();
        let ghost done = kept(all.take(i as int), f);
        let tracking = cat3(remotes[i].as_str(), "/", name);
        if has_text(refs, tracking.as_str()) {
            let ghost t = tracking@;
            r.push(tracking);
            assert(r.deep_view() =~= before.push(t));
            assert(before.push(t) =~= local + done.push(t));
        }
        i += 1;
    }
    r
}

/// The base `name`, if any reference for it resolves.
pub open spec fn base_named(f: CleanFactsView, name: Seq<char>, source: BaseSource) -> Option<
    CleanBaseView,
> {
    let refs = containment(f.refs, name, f.remotes);
    if refs.len() > 0 {
        Some(CleanBaseView { name, refs, source })
    } else {
        None
    }
}

/// The default branch of the first of `order` that records a usable one.
pub open spec fn head_base(f: CleanFactsView, order: Seq<Seq<char>>) -> Option<CleanBaseView>
    decreases order.len(),
{
    if order.len() == 0 {
        None
    } else {
        let here = match lookup(f.remote_heads, order[0]) {
            Some(head) => base_named(f, head, BaseSource::RemoteHead),
            None => None,
        };
        if here is Some {
            here
        } else {
            head_base(f, order.skip(1))
        }
    }
}

/// The remotes with `origin` in front.
pub open spec fn origin_first(remotes: Seq<Seq<char>>) -> Seq<Seq<char>> {
    kept(
        remotes,
        |r: Seq<char>|
            if r == "origin"@ {
                Some(r)
            } else {
                None
            },
    ) + kept(
        remotes,
        |r: Seq<char>|
            if r != "origin"@ {
                Some(r)
            } else {
                None
            },
    )
}

/// The first of the conventional names that is usable.
pub open spec fn conventional_base(f: CleanFactsView, names: Seq<Seq<char>>) -> Option<
    CleanBaseView,
>
    decreases names.len(),
{
    if names.len() == 0 {
        None
    } else {
        let here = base_named(f, names[0], BaseSource::Conventional);
        if here is Some {
            here
        } else {
            conventional_base(f, names.skip(1))
        }
    }
}

/// The conventional names of a base branch, in order of preference.
pub open spec fn conventional_names() -> Seq<Seq<char>> {
    seq!["main"@, "master"@, "develop"@, "trunk"@]
}

/// What counts as merged: the configured stable branch, else a remote's default
/// branch with `origin` preferred, else a conventional name, else what is
/// checked out. The first that is usable counts.
pub open spec fn base_of(f: CleanFactsView) -> Option<CleanBaseView> {
    let configured = match f.config {
        Some(c) => base_named(f, c.stable_branch, BaseSource::Config),
        None => None,
    };
    let head = head_base(f, origin_first(f.remotes));
    let conventional = conventional_base(f, conventional_names());
    if configured is Some {
        configured
    } else if head is Some {
        head
    } else if conventional is Some {
        conventional
    } else if f.current.len() > 0 {
        Some(
            CleanBaseView {
                name: f.current,
                refs: seq![f.current],
                source: BaseSource::CurrentBranch,
            },
        )
    } else {
        None
    }
}

fn try_base(facts: &CleanFacts, name: &str, source: BaseSource) -> (r: Option<CleanBase>)
    ensures
        r.deep_view() == base_named(facts.deep_view(), name@, source),
{
    let refs = containment_refs(&facts.refs, name, &facts.remotes);
    assert(refs.deep_view().len() == refs@.len());
    if refs.is_empty() {
        None
    } else {
        Some(CleanBase { name: owned(name), refs, source })
    }
}

fn order_remotes(remotes: &Vec<String>) -> (r: Vec<String>)
    ensures
        r.deep_view() == origin_first(remotes.deep_view()),
{
    let mut r: Vec<String> = Vec::new();
    let ghost all = remotes.deep_view();
    let ghost f = |t: Seq<char>|
        if t == "origin"@ {
            Some(t)
        } else {
            None
        };
    let ghost g = |t: Seq<char>|
        if t != "origin"@ {
            Some(t)
        } else {
            None
        };
    let mut i: usize = 0;
    proof {
        lemma_kept_ends(all, f);
        lemma_kept_ends(all, g);
    }
    assert(r.deep_view() =~= seq![]);
    while i < remotes.len()
        invariant
            i <= remotes@.len(),
            all == remotes.deep_view(),
            f == (|t: Seq<char>|
                if t == "origin"@ {
                    Some(t)
                } else {
                    None
                }),
            r.deep_view() == kept(all.take(i as int), f),
        decreases remotes@.len() - i,
    {
        proof {
            lemma_kept_step(all, i as int, f);
        }
        let ghost before = r.deep_view();
        if same(remotes[i].as_str(), "origin") {
            r.push(remotes[i].clone());
            assert(r.deep_view() =~= before.push(remotes@[i as int]@));
        }
        i += 1;
    }
    let ghost front = kept(all, f);
    let mut j: usize = 0;
    assert(front + Seq::<Seq<char>>::empty() =~= front);
    while j < remotes.len()
        invariant
            j <= remotes@.len(),
            all == remotes.deep_view(),
            g == (|t: Seq<char>|
                if t != "origin"@ {
                    Some(t)
                } else {
                    None
                }),
            r.deep_view() == front + kept(all.take(j as int), g),
        decreases remotes@.len() - j,
    {
        proof {
            lemma_kept_step(all, j as int, g);
        }
        let ghost before = r.deep_view();
        let ghost done = kept(all.take(j as int), g);
        if !same(remotes[j].as_str(), "origin") {
            r.push(remotes[j].clone());
            assert(r.deep_view() =~= before.push(remotes@[j as int]@));
            assert(before.push(remotes@[j as int]@) =~= front + done.push(remotes@[j as int]@));
        }
        j += 1;
    }
    r
}

/// Determines what counts as merged.
pub fn resolve_base(facts: &CleanFacts) -> (r: Option<CleanBase>)
    ensures
        r.deep_view() == base_of(facts.deep_view()),
{
    let ghost f = facts.deep_view();
    match &facts.config {
        Some(c) => {
            let b = try_base(facts, c.stable_branch.as_str(), BaseSource::Config);
            if b.is_some() {
                return b;
            }
        },
        None => {},
    }
    let order = order_remotes(&facts.remotes);
    let ghost all = order.deep_view();
    let mut i: usize = 0;
    assert(all.skip(0) =~= all);
    while i < order.len()
        invariant
            i <= order@.len(),
            f == facts.deep_view(),
            all == order.deep_view(),
            all == origin_first(f.remotes),
            f.config matches Some(c) ==> base_named(f, c.stable_branch, BaseSource::Config) is None,
            head_base(f, all) == head_base(f, all.skip(i as int)),
        decreases order@.len() - i,
    {
        assert(all.skip(i as int).skip(1) =~= all.skip(i + 1));
        match find_value(&facts.remote_heads, order[i].as_str()) {
            Some(head) => {
                let b = try_base(facts, head.as_str(), BaseSource::RemoteHead);
                if b.is_some() {
                    return b;
                }
            },
            None => {},
        }
        i += 1;
    }
    let names = vec!["main".to_owned(), "master".to_owned(), "develop".to_owned(), "trunk".to_owned()];
    let ghost conv = names.deep_view();
    assert(conv =~= conventional_names());
    let mut j: usize = 0;
    assert(conv.skip(0) =~= conv);
    while j < names.len()
        invariant
            j <= names@.len(),
            f == facts.deep_view(),
            conv == names.deep_view(),
            conv == conventional_names(),
            f.config matches Some(c) ==> base_named(f, c.stable_branch, BaseSource::Config) is None,
            head_base(f, origin_first(f.remotes)) is None,
            conventional_base(f, conv) == conventional_base(f, conv.skip(j as int)),
        decreases names@.len() - j,
    {
        assert(conv.skip(j as int).skip(1) =~= conv.skip(j + 1));
        let b = try_base(facts, names[j].as_str(), BaseSource::Conventional);
        if b.is_some() {
            return b;
        }
        j += 1;
    }
    if !facts.current.as_str().is_empty() {
        let refs = vec![facts.current.clone()];
        assert(refs.deep_view() =~= seq![f.current]);
        return Some(
            CleanBase {
                name: facts.current.clone(),
                refs,
                source: BaseSource::CurrentBranch,
            },
        );
    }
    None
}

// ── What is protected, contained and promoted ───────────────────────────────

/// The default branches that the remotes record.
pub open spec fn recorded_heads(f: CleanFactsView) -> Seq<Seq<char>> {
    kept(f.remotes, |r: Seq<char>| lookup(f.remote_heads, r))
}

/// The branches that are never deleted: the configured ones, or else the
/// conventional ones, and the default branch of every remote.
pub open spec fn protected_of(f: CleanFactsView) -> Seq<Seq<char>> {
    let named = match f.config {
        Some(c) => seq![c.stable_branch, c.rolling_branch] + c.clean_protect,
        None => seq!["main"@, "master"@, "develop"@],
    };
    ordered(named + recorded_heads(f))
}

fn append_copies(r: &mut Vec<String>, v: &Vec<String>)
    ensures
        final(r).deep_view() == old(r).deep_view() + v.deep_view(),
{
    let ghost start = r.deep_view();
    let mut i: usize = 0;
    assert(start + v.deep_view().take(0) =~= start);
    while i < v.len()
        invariant
            i <= v@.len(),
            r.deep_view() == start + v.deep_view().take(i as int),
        decreases v@.len() - i,
    {
        let ghost before = r.deep_view();
        r.push(v[i].clone());
        assert(r.deep_view() =~= before.push(v@[i as int]@));
        assert(before.push(v@[i as int]@) =~= start + v.deep_view().take(i + 1));
        i += 1;
    }
    assert(v.deep_view().take(v@.len() as int) =~= v.deep_view());
}

/// The branches that are never deleted.
pub fn protected_branches(facts: &CleanFacts) -> (r: Vec<String>)
    ensures
        r.deep_view() == protected_of(facts.deep_view()),
{
    let ghost f = facts.deep_view();
    let mut all = match &facts.config {
        Some(c) => {
            let mut v = vec![c.stable_branch.clone(), c.rolling_branch.clone()];
            assert(v.deep_view() =~= seq![c.stable_branch@, c.rolling_branch@]);
            append_copies(&mut v, &c.clean_protect);
            v
        },
        None => {
            let v = vec!["main".to_owned(), "master".to_owned(), "develop".to_owned()];
            assert(v.deep_view() =~= seq!["main"@, "master"@, "develop"@]);
            v
        },
    };
    let ghost named = all.deep_view();
    let ghost g = |r: Seq<char>| lookup(f.remote_heads, r);
    let mut i: usize = 0;
    proof {
        lemma_kept_ends(f.remotes, g);
        assert(named + Seq::<Seq<char>>::empty() =~= named);
    }
    while i < facts.remotes.len()
        invariant
            i <= facts.remotes@.len(),
            f == facts.deep_view(),
            g == (|r: Seq<char>| lookup(f.remote_heads, r)),
            all.deep_view() == named + kept(f.remotes.take(i as int), g),
        decreases facts.remotes@.len() - i,
    {
        proof {
            lemma_kept_step(f.remotes, i as int, g);
        }
        let ghost before = all.deep_view();
        let ghost done = kept(f.remotes.take(i as int), g);
        match find_value(&facts.remote_heads, facts.remotes[i].as_str()) {
            Some(head) => {
                all.push(head.clone());
                assert(all.deep_view() =~= before.push(head@));
                assert(before.push(head@) =~= named + done.push(head@));
            },
            None => {},
        }
        i += 1;
    }
    sort_dedup_texts(&all)
}

/// Whether one of `refs` has `tip` for an ancestor.
pub open spec fn contained(
    ancestry: Seq<(Seq<char>, Seq<char>)>,
    tip: Seq<char>,
    refs: Seq<Seq<char>>,
) -> bool {
    exists|k: int| 0 <= k < refs.len() && ancestry.contains((tip, #[trigger] refs[k]))
}

/// Whether every commit of `tip` is in one of `refs`.
pub fn contained_in(ancestry: &Vec<(String, String)>, tip: &str, refs: &Vec<String>) -> (r: bool)
    ensures
        r == contained(ancestry.deep_view(), tip@, refs.deep_view()),
{
    let mut i: usize = 0;
    while i < refs.len()
        invariant
            i <= refs@.len(),
            forall|k: int|
                0 <= k < i ==> !ancestry.deep_view().contains(
                    (tip@, #[trigger] refs.deep_view()[k]),
                ),
        decreases refs@.len() - i,
    {
        assert(refs.deep_view()[i as int] == refs@[i as int]@);
        if has_pair(ancestry, tip, refs[i].as_str()) {
            return true;
        }
        i += 1;
    }
    false
}

/// The branches of the promoted rolls, each once, in order.
pub open spec fn promoted_branches(rolls: Seq<RollView>) -> Seq<Seq<char>> {
    ordered(
        kept(
            rolls,
            |r: RollView|
                if r.state is Promoted {
                    Some(r.branch)
                } else {
                    None
                },
        ),
    )
}

/// The branches of the promoted rolls.
pub fn promoted_rolls(rolls: &Vec<RollInfo>) -> (r: Vec<String>)
    ensures
        r.deep_view() == promoted_branches(rolls.deep_view()),
{
    let mut found: Vec<String> = Vec::new();
    let ghost all = rolls.deep_view();
    let ghost f = |r: RollView|
        if r.state is Promoted {
            Some(r.branch)
        } else {
            None
        };
    let mut i: usize = 0;
    proof {
        lemma_kept_ends(all, f);
    }
    assert(found.deep_view() =~= seq![]);
    while i < rolls.len()
        invariant
            i <= rolls@.len(),
            all == rolls.deep_view(),
            f == (|r: RollView|
                if r.state is Promoted {
                    Some(r.branch)
                } else {
                    None
                }),
            found.deep_view() == kept(all.take(i as int), f),
        decreases rolls@.len() - i,
    {
        proof {
            lemma_kept_step(all, i as int, f);
        }
        assert(all[i as int] == rolls@[i as int].deep_view());
        let ghost before = found.deep_view();
        if matches!(rolls[i].state, RollState::Promoted) {
            found.push(rolls[i].branch.clone());
            assert(found.deep_view() =~= before.push(rolls@[i as int].branch@));
        }
        i += 1;
    }
    sort_dedup_texts(&found)
}

// ── Planning ────────────────────────────────────────────────────────────────

/// The first remote that has a copy of the branch.
pub open spec fn remote_with(
    refs: Seq<Seq<char>>,
    remotes: Seq<Seq<char>>,
    branch: Seq<char>,
) -> Option<Seq<char>>
    decreases remotes.len(),
{
    if remotes.len() == 0 {
        None
    } else if refs.contains(tracking_name(remotes[0], branch)) {
        Some(remotes[0])
    } else {
        remote_with(refs, remotes.skip(1), branch)
    }
}

/// The remote whose copy of the branch goes too: its own upstream's remote, or
/// else the first that has a copy. An upstream that is gone has none, and
/// without force the copy itself must be contained in the base.
pub open spec fn remote_copy(
    f: CleanFactsView,
    branch: LocalBranchView,
    base: CleanBaseView,
    scope: CleanScope,
) -> Option<Seq<char>> {
    let remote = if branch.remote_name.len() > 0 {
        Some(branch.remote_name)
    } else {
        remote_with(f.refs, f.remotes, branch.name)
    };
    if !scope.with_remote || branch.gone() {
        None
    } else {
        match remote {
            Some(r) => {
                let tracking = tracking_name(r, branch.name);
                if f.refs.contains(tracking) && (scope.force || contained(
                    f.ancestry,
                    tracking,
                    base.refs,
                )) {
                    Some(r)
                } else {
                    None
                }
            },
            None => None,
        }
    }
}

fn first_remote_with(refs: &Vec<String>, remotes: &Vec<String>, branch: &str) -> (r: Option<String>)
    ensures
        r.deep_view() == remote_with(refs.deep_view(), remotes.deep_view(), branch@),
{
    let ghost all = remotes.deep_view();
    let mut i: usize = 0;
    assert(all.skip(0) =~= all);
    while i < remotes.len()
        invariant
            i <= remotes@.len(),
            all == remotes.deep_view(),
            remote_with(refs.deep_view(), all, branch@) == remote_with(
                refs.deep_view(),
                all.skip(i as int),
                branch@,
            ),
        decreases remotes@.len() - i,
    {
        assert(all.skip(i as int).skip(1) =~= all.skip(i + 1));
        let tracking = cat3(remotes[i].as_str(), "/", branch);
        if has_text(refs, tracking.as_str()) {
            return Some(remotes[i].clone());
        }
        i += 1;
    }
    None
}

/// The remote whose copy of the branch goes too.
pub fn remote_target(
    facts: &CleanFacts,
    branch: &LocalBranch,
    base: &CleanBase,
    scope: &CleanScope,
) -> (r: Option<String>)
    ensures
        r.deep_view() == remote_copy(
            facts.deep_view(),
            branch.deep_view(),
            base.deep_view(),
            *scope,
        ),
{
    if !scope.with_remote || branch.upstream_gone() {
        return None;
    }
    let remote = if !branch.remote_name.as_str().is_empty() {
        Some(branch.remote_name.clone())
    } else {
        first_remote_with(&facts.refs, &facts.remotes, branch.name.as_str())
    };
    match remote {
        Some(r) => {
            let tracking = cat3(r.as_str(), "/", branch.name.as_str());
            if !has_text(&facts.refs, tracking.as_str()) {
                return None;
            }
            if !scope.force && !contained_in(&facts.ancestry, tracking.as_str(), &base.refs) {
                return None;
            }
            Some(r)
        },
        None => None,
    }
}

/// What becomes of a branch.
pub enum VerdictView {
    /// Nothing is said of it.
    Pass,
    Skip(CleanSkipView),
    Delete(CleanItemView),
}

/// Whether a branch is contained in the base, if there is one.
pub open spec fn in_base(f: CleanFactsView, base: Option<CleanBaseView>, name: Seq<char>) -> bool {
    base matches Some(b) && contained(f.ancestry, name, b.refs)
}

/// Why a branch is cleanup material, if it is.
pub open spec fn reason_of(
    f: CleanFactsView,
    base: Option<CleanBaseView>,
    branch: LocalBranchView,
) -> Option<CleanReason> {
    category(branch, f.promoted.contains(branch.name), in_base(f, base, branch.name))
}

/// What becomes of a branch. The base and what is no cleanup material pass
/// unmentioned; what would go but is guarded is skipped. What is left must be
/// contained in the base, whatever made it cleanup material, unless force is
/// given.
pub open spec fn verdict(
    f: CleanFactsView,
    base: Option<CleanBaseView>,
    protected: Seq<Seq<char>>,
    scope: CleanScope,
    branch: LocalBranchView,
) -> VerdictView {
    let name = branch.name;
    let is_base = base matches Some(b) && b.name == name;
    match reason_of(f, base, branch) {
        Some(reason) => if is_base {
            VerdictView::Pass
        } else {
            match guarded(branch, f.current, protected) {
                Some(why) => VerdictView::Skip(CleanSkipView { branch: name, reason: why }),
                None => match base {
                    Some(b) => if contained(f.ancestry, name, b.refs) || scope.force {
                        let remote = remote_copy(f, branch, b, scope);
                        VerdictView::Delete(
                            CleanItemView {
                                branch: name,
                                reason,
                                delete_local: true,
                                delete_remote: remote is Some,
                                remote,
                                unmerged: if contained(f.ancestry, name, b.refs) {
                                    None
                                } else {
                                    lookup(f.unmerged, name)
                                },
                            },
                        )
                    } else {
                        VerdictView::Skip(
                            CleanSkipView {
                                branch: name,
                                reason: "not fully merged into '"@ + b.name
                                    + "' — rerun with --force"@,
                            },
                        )
                    },
                    None => if scope.force {
                        VerdictView::Delete(
                            CleanItemView {
                                branch: name,
                                reason,
                                delete_local: true,
                                delete_remote: false,
                                remote: None,
                                unmerged: None,
                            },
                        )
                    } else {
                        VerdictView::Skip(
                            CleanSkipView {
                                branch: name,
                                reason: "no base branch to verify against — rerun with --force"@,
                            },
                        )
                    },
                },
            }
        },
        None => VerdictView::Pass,
    }
}

enum Verdict {
    Pass,
    Skip(CleanSkip),
    Delete(CleanItem),
}

impl DeepView for Verdict {
    type V = VerdictView;

    closed spec fn deep_view(&self) -> VerdictView {
        match self {
            Verdict::Pass => VerdictView::Pass,
            Verdict::Skip(s) => VerdictView::Skip(s.deep_view()),
            Verdict::Delete(d) => VerdictView::Delete(d.deep_view()),
        }
    }
}

fn judge(
    facts: &CleanFacts,
    base: &Option<CleanBase>,
    protected: &Vec<String>,
    scope: &CleanScope,
    branch: &LocalBranch,
) -> (r: Verdict)
    ensures
        r.deep_view() == verdict(
            facts.deep_view(),
            base.deep_view(),
            protected.deep_view(),
            *scope,
            branch.deep_view(),
        ),
{
    let name = branch.name.as_str();
    let is_promoted = has_text(&facts.promoted, name);
    let merged = match base {
        Some(b) => contained_in(&facts.ancestry, name, &b.refs),
        None => false,
    };
    let reason = match categorize(branch, is_promoted, merged) {
        Some(reason) => reason,
        None => {
            return Verdict::Pass;
        },
    };
    match base {
        Some(b) => {
            if same(b.name.as_str(), name) {
                return Verdict::Pass;
            }
        },
        None => {},
    }
    match guard(branch, facts.current.as_str(), protected) {
        Some(why) => {
            return Verdict::Skip(CleanSkip { branch: owned(name), reason: why });
        },
        None => {},
    }
    match base {
        Some(b) => {
            if !merged && !scope.force {
                return Verdict::Skip(
                    CleanSkip {
                        branch: owned(name),
                        reason: cat3(
                            "not fully merged into '",
                            b.name.as_str(),
                            "' — rerun with --force",
                        ),
                    },
                );
            }
            let unmerged = if merged {
                None
            } else {
                match find_value(&facts.unmerged, name) {
                    Some(n) => Some(*n),
                    None => None,
                }
            };
            let remote = remote_target(facts, branch, b, scope);
            Verdict::Delete(
                CleanItem {
                    branch: owned(name),
                    reason,
                    delete_local: true,
                    delete_remote: remote.is_some(),
                    remote,
                    unmerged,
                },
            )
        },
        None => {
            if !scope.force {
                return Verdict::Skip(
                    CleanSkip {
                        branch: owned(name),
                        reason: "no base branch to verify against — rerun with --force".to_owned(),
                    },
                );
            }
            Verdict::Delete(
                CleanItem {
                    branch: owned(name),
                    reason,
                    delete_local: true,
                    delete_remote: false,
                    remote: None,
                    unmerged: None,
                },
            )
        },
    }
}

/// What is to be deleted of a branch, if anything.
pub open spec fn item_of(v: VerdictView) -> Option<CleanItemView> {
    match v {
        VerdictView::Delete(d) => Some(d),
        _ => None,
    }
}

/// How a branch is mentioned as skipped, if it is.
pub open spec fn skip_of(v: VerdictView) -> Option<CleanSkipView> {
    match v {
        VerdictView::Skip(s) => Some(s),
        _ => None,
    }
}

/// What a clean would do.
pub open spec fn plan_of(f: CleanFactsView, scope: CleanScope) -> CleanOutcomeView {
    let base = base_of(f);
    let protected = protected_of(f);
    CleanOutcomeView {
        pruned: f.pruned,
        items: kept(
            f.details,
            |b: LocalBranchView| item_of(verdict(f, base, protected, scope, b)),
        ),
        skipped: kept(
            f.details,
            |b: LocalBranchView| skip_of(verdict(f, base, protected, scope, b)),
        ),
        base,
        had_config: f.config is Some,
        no_remotes: f.remotes.len() == 0,
        shallow: f.shallow,
    }
}

fn copy_pruned(v: &Vec<PrunedRemote>) -> (r: Vec<PrunedRemote>)
    ensures
        r.deep_view() == v.deep_view(),
{
    let mut r: Vec<PrunedRemote> = Vec::new();
    let mut i: usize = 0;
    while i < v.len()
        invariant
            i <= v@.len(),
            r@.len() == i,
            forall|k: int| 0 <= k < i ==> (#[trigger] r@[k]).deep_view() == v@[k].deep_view(),
        decreases v@.len() - i,
    {
        r.push(v[i].copy());
        i += 1;
    }
    assert(r.deep_view() =~= v.deep_view());
    r
}

/// Decides what a clean would delete, without deleting anything.
pub fn plan(facts: &CleanFacts, scope: &CleanScope) -> (r: CleanOutcome)
    ensures
        r.deep_view() == plan_of(facts.deep_view(), *scope),
{
    let base = resolve_base(facts);
    let protected = protected_branches(facts);
    let mut items: Vec<CleanItem> = Vec::new();
    let mut skipped: Vec<CleanSkip> = Vec::new();
    let ghost f = facts.deep_view();
    let ghost bv = base.deep_view();
    let ghost pv = protected.deep_view();
    let ghost sc = *scope;
    let ghost gi = |b: LocalBranchView| item_of(verdict(f, bv, pv, sc, b));
    let ghost gs = |b: LocalBranchView| skip_of(verdict(f, bv, pv, sc, b));
    let mut i: usize = 0;
    proof {
        lemma_kept_ends(f.details, gi);
        lemma_kept_ends(f.details, gs);
    }
    assert(items.deep_view() =~= seq![]);
    assert(skipped.deep_view() =~= seq![]);
    while i < facts.details.len()
        invariant
            i <= facts.details@.len(),
            f == facts.deep_view(),
            bv == base.deep_view(),
            pv == protected.deep_view(),
            sc == *scope,
            gi == (|b: LocalBranchView| item_of(verdict(f, bv, pv, sc, b))),
            gs == (|b: LocalBranchView| skip_of(verdict(f, bv, pv, sc, b))),
            items.deep_view() == kept(f.details.take(i as int), gi),
            skipped.deep_view() == kept(f.details.take(i as int), gs),
        decreases facts.details@.len() - i,
    {
        proof {
            lemma_kept_step(f.details, i as int, gi);
            lemma_kept_step(f.details, i as int, gs);
        }
        assert(f.details[i as int] == facts.details@[i as int].deep_view());
        let ghost items_before = items.deep_view();
        let ghost skips_before = skipped.deep_view();
        match judge(facts, &base, &protected, scope, &facts.details[i]) {
            Verdict::Pass => {},
            Verdict::Skip(s) => {
                let ghost v = s.deep_view();
                skipped.push(s);
                assert(skipped.deep_view() =~= skips_before.push(v));
            },
            Verdict::Delete(d) => {
                let ghost v = d.deep_view();
                items.push(d);
                assert(items.deep_view() =~= items_before.push(v));
            },
        }
        i += 1;
    }
    CleanOutcome {
        pruned: copy_pruned(&facts.pruned),
        items,
        skipped,
        base,
        had_config: facts.config.is_some(),
        no_remotes: facts.remotes.is_empty(),
        shallow: facts.shallow,
    }
}

/// The references of `before` that are not among `after`.
pub open spec fn dropped(before: Seq<Seq<char>>, after: Seq<Seq<char>>) -> Seq<Seq<char>> {
    kept(
        before,
        |r: Seq<char>|
            if after.contains(r) {
                None
            } else {
                Some(r)
            },
    )
}

/// What pruning a remote did: the references that were there before the fetch
/// and are not there after it, or why the fetch failed.
pub fn prune_remote(
    remote: &str,
    before: &Vec<String>,
    error: Option<String>,
    after: &Vec<String>,
) -> (r: PrunedRemote)
    ensures
        r.deep_view() == (PrunedRemoteView {
            remote: remote@,
            removed: if error is Some {
                seq![]
            } else {
                dropped(before.deep_view(), after.deep_view())
            },
            error: error.deep_view(),
        }),
{
    let mut removed: Vec<String> = Vec::new();
    assert(removed.deep_view() =~= seq![]);
    if error.is_some() {
        return PrunedRemote { remote: owned(remote), removed, error };
    }
    let ghost all = before.deep_view();
    let ghost now = after.deep_view();
    let ghost f = |r: Seq<char>|
        if now.contains(r) {
            None
        } else {
            Some(r)
        };
    let mut i: usize = 0;
    proof {
        lemma_kept_ends(all, f);
    }
    while i < before.len()
        invariant
            i <= before@.len(),
            all == before.deep_view(),
            now == after.deep_view(),
            f == (|r: Seq<char>|
                if now.contains(r) {
                    None
                } else {
                    Some(r)
                }),
            removed.deep_view() == kept(all.take(i as int), f),
        decreases before@.len() - i,
    {
        proof {
            lemma_kept_step(all, i as int, f);
        }
        let ghost done = removed.deep_view();
        if !has_text(after, before[i].as_str()) {
            removed.push(before[i].clone());
            assert(removed.deep_view() =~= done.push(before@[i as int]@));
        }
        i += 1;
    }
    PrunedRemote { remote: owned(remote), removed, error }
}

// ── What to ask git ─────────────────────────────────────────────────────────

/// The counterparts of a branch on the remotes.
pub open spec fn counterparts(name: Seq<char>, remotes: Seq<Seq<char>>) -> Seq<Seq<char>> {
    Seq::new(remotes.len(), |i: int| tracking_name(remotes[i], name))
}

fn append_counterparts(r: &mut Vec<String>, name: &str, remotes: &Vec<String>)
    ensures
        final(r).deep_view() == old(r).deep_view() + counterparts(name@, remotes.deep_view()),
{
    let ghost start = r.deep_view();
    let ghost all = counterparts(name@, remotes.deep_view());
    let mut i: usize = 0;
    assert(start + all.take(0) =~= start);
    while i < remotes.len()
        invariant
            i <= remotes@.len(),
            all == counterparts(name@, remotes.deep_view()),
            r.deep_view() == start + all.take(i as int),
        decreases remotes@.len() - i,
    {
        let ghost before = r.deep_view();
        let t = cat3(remotes[i].as_str(), "/", name);
        let ghost tv = t@;
        r.push(t);
        assert(r.deep_view() =~= before.push(tv));
        assert(before.push(tv) =~= start + all.take(i + 1));
        i += 1;
    }
    assert(all.take(remotes@.len() as int) =~= all);
}

/// The references that must be looked at for base candidates.
pub open spec fn asked_for_names(names: Seq<Seq<char>>, remotes: Seq<Seq<char>>) -> Seq<Seq<char>>
    decreases names.len(),
{
    if names.len() == 0 {
        seq![]
    } else {
        asked_for_names(names.drop_last(), remotes).push(names.last()) + counterparts(
            names.last(),
            remotes,
        )
    }
}

/// The references that must be looked at for the copies of a branch.
pub open spec fn asked_for_copies(b: LocalBranchView, remotes: Seq<Seq<char>>) -> Seq<Seq<char>> {
    if b.remote_name.len() > 0 {
        seq![tracking_name(b.remote_name, b.name)]
    } else {
        counterparts(b.name, remotes)
    }
}

/// The references that must be looked at for the copies of all branches.
pub open spec fn asked_for_branches(details: Seq<LocalBranchView>, remotes: Seq<Seq<char>>) -> Seq<
    Seq<char>,
>
    decreases details.len(),
{
    if details.len() == 0 {
        seq![]
    } else {
        asked_for_branches(details.drop_last(), remotes) + asked_for_copies(details.last(), remotes)
    }
}

/// The names that may turn out to be the base.
pub open spec fn base_candidates(f: CleanFactsView) -> Seq<Seq<char>> {
    let configured = match f.config {
        Some(c) => seq![c.stable_branch],
        None => seq![],
    };
    configured + recorded_heads(f) + conventional_names()
}

/// Every reference whose existence a plan depends on.
pub fn asked_refs(facts: &CleanFacts) -> (r: Vec<String>)
    ensures
        r.deep_view() == asked_for_names(
            base_candidates(facts.deep_view()),
            facts.deep_view().remotes,
        ) + asked_for_branches(facts.deep_view().details, facts.deep_view().remotes),
{
    let ghost f = facts.deep_view();
    let mut names: Vec<String> = Vec::new();
    match &facts.config {
        Some(c) => {
            names.push(c.stable_branch.clone());
            assert(names.deep_view() =~= seq![c.stable_branch@]);
        },
        None => {
            assert(names.deep_view() =~= seq![]);
        },
    }
    let ghost configured = names.deep_view();
    let ghost g = |r: Seq<char>| lookup(f.remote_heads, r);
    let mut i: usize = 0;
    proof {
        lemma_kept_ends(f.remotes, g);
        assert(configured + Seq::<Seq<char>>::empty() =~= configured);
    }
    while i < facts.remotes.len()
        invariant
            i <= facts.remotes@.len(),
            f == facts.deep_view(),
            g == (|r: Seq<char>| lookup(f.remote_heads, r)),
            names.deep_view() == configured + kept(f.remotes.take(i as int), g),
        decreases facts.remotes@.len() - i,
    {
        proof {
            lemma_kept_step(f.remotes, i as int, g);
        }
        let ghost before = names.deep_view();
        let ghost done = kept(f.remotes.take(i as int), g);
        match find_value(&facts.remote_heads, facts.remotes[i].as_str()) {
            Some(head) => {
                names.push(head.clone());
                assert(names.deep_view() =~= before.push(head@));
                assert(before.push(head@) =~= configured + done.push(head@));
            },
            None => {},
        }
        i += 1;
    }
    let conventional = vec![
        "main".to_owned(),
        "master".to_owned(),
        "develop".to_owned(),
        "trunk".to_owned(),
    ];
    assert(conventional.deep_view() =~= conventional_names());
    append_copies(&mut names, &conventional);
    let ghost all = names.deep_view();
    assert(all == base_candidates(f));
    let mut r: Vec<String> = Vec::new();
    let mut j: usize = 0;
    assert(r.deep_view() =~= asked_for_names(all.take(0), f.remotes));
    while j < names.len()
        invariant
            j <= names@.len(),
            f == facts.deep_view(),
            all == names.deep_view(),
            r.deep_view() == asked_for_names(all.take(j as int), f.remotes),
        decreases names@.len() - j,
    {
        assert(all.take(j + 1).drop_last() =~= all.take(j as int));
        let ghost before = r.deep_view();
        r.push(names[j].clone());
        assert(r.deep_view() =~= before.push(all[j as int]));
        append_counterparts(&mut r, names[j].as_str(), &facts.remotes);
        j += 1;
    }
    assert(all.take(all.len() as int) =~= all);
    let ghost front = asked_for_names(all, f.remotes);
    let mut k: usize = 0;
    assert(front + asked_for_branches(f.details.take(0), f.remotes) =~= front);
    while k < facts.details.len()
        invariant
            k <= facts.details@.len(),
            f == facts.deep_view(),
            r.deep_view() == front + asked_for_branches(f.details.take(k as int), f.remotes),
        decreases facts.details@.len() - k,
    {
        let ghost done = asked_for_branches(f.details.take(k as int), f.remotes);
        let ghost before = r.deep_view();
        let ghost b = f.details[k as int];
        assert(b == facts.details@[k as int].deep_view());
        assert(f.details.take(k + 1).drop_last() =~= f.details.take(k as int));
        if !facts.details[k].remote_name.as_str().is_empty() {
            let t = cat3(
                facts.details[k].remote_name.as_str(),
                "/",
                facts.details[k].name.as_str(),
            );
            let ghost tv = t@;
            r.push(t);
            assert(r.deep_view() =~= before + seq![tv]);
        } else {
            append_counterparts(&mut r, facts.details[k].name.as_str(), &facts.remotes);
        }
        assert(before + asked_for_copies(b, f.remotes) =~= front + (done + asked_for_copies(
            b,
            f.remotes,
        )));
        k += 1;
    }
    assert(f.details.take(f.details.len() as int) =~= f.details);
    r
}

// ── Applying ────────────────────────────────────────────────────────────────

/// What became of one branch.
#[derive(Debug)]
pub struct CleanResult {
    pub branch: String,
    pub local_deleted: bool,
    pub remote_deleted: bool,
    pub errors: Vec<String>,
}

/// [`CleanResult`] by its characters.
pub struct CleanResultView {
    pub branch: Seq<char>,
    pub local_deleted: bool,
    pub remote_deleted: bool,
    pub errors: Seq<Seq<char>>,
}

impl DeepView for CleanResult {
    type V = CleanResultView;

    open spec fn deep_view(&self) -> CleanResultView {
        CleanResultView {
            branch: self.branch@,
            local_deleted: self.local_deleted,
            remote_deleted: self.remote_deleted,
            errors: self.errors.deep_view(),
        }
    }
}

/// The remote that an item's remote copy is deleted on.
pub open spec fn deletes_on(item: CleanItemView) -> Option<Seq<char>> {
    if item.delete_remote {
        item.remote
    } else {
        None
    }
}

/// The branches to delete on `remote`.
pub open spec fn batch_for(items: Seq<CleanItemView>, remote: Seq<char>) -> Seq<Seq<char>> {
    kept(
        items,
        |i: CleanItemView|
            if deletes_on(i) == Some(remote) {
                Some(i.branch)
            } else {
                None
            },
    )
}

/// The remotes to push deletions to, in order.
pub open spec fn batch_remotes(items: Seq<CleanItemView>) -> Seq<Seq<char>> {
    ordered(kept(items, |i: CleanItemView| deletes_on(i)))
}

/// The deletions, grouped by the remote they go to.
pub open spec fn batches_of(items: Seq<CleanItemView>) -> Seq<(Seq<char>, Seq<Seq<char>>)> {
    Seq::new(
        batch_remotes(items).len(),
        |k: int| (batch_remotes(items)[k], batch_for(items, batch_remotes(items)[k])),
    )
}

fn batch_on(items: &Vec<CleanItem>, remote: &str) -> (r: Vec<String>)
    ensures
        r.deep_view() == batch_for(items.deep_view(), remote@),
{
    let mut r: Vec<String> = Vec::new();
    let ghost all = items.deep_view();
    let ghost f = |i: CleanItemView|
        if deletes_on(i) == Some(remote@) {
            Some(i.branch)
        } else {
            None
        };
    let mut i: usize = 0;
    proof {
        lemma_kept_ends(all, f);
    }
    assert(r.deep_view() =~= seq![]);
    while i < items.len()
        invariant
            i <= items@.len(),
            all == items.deep_view(),
            f == (|i: CleanItemView|
                if deletes_on(i) == Some(remote@) {
                    Some(i.branch)
                } else {
                    None
                }),
            r.deep_view() == kept(all.take(i as int), f),
        decreases items@.len() - i,
    {
        proof {
            lemma_kept_step(all, i as int, f);
        }
        assert(all[i as int] == items@[i as int].deep_view());
        let ghost before = r.deep_view();
        if items[i].delete_remote {
            match &items[i].remote {
                Some(to) => {
                    if same(to.as_str(), remote) {
                        r.push(items[i].branch.clone());
                        assert(r.deep_view() =~= before.push(items@[i as int].branch@));
                    }
                },
                None => {},
            }
        }
        i += 1;
    }
    r
}

/// The branches to delete, grouped by the remote they live on: one push for
/// each remote.
pub fn remote_batches(outcome: &CleanOutcome) -> (r: Vec<(String, Vec<String>)>)
    ensures
        r.deep_view() == batches_of(outcome.deep_view().items),
{
    let items = &outcome.items;
    let ghost all = items.deep_view();
    let ghost f = |i: CleanItemView| deletes_on(i);
    let mut named: Vec<String> = Vec::new();
    let mut i: usize = 0;
    proof {
        lemma_kept_ends(all, f);
    }
    assert(named.deep_view() =~= seq![]);
    while i < items.len()
        invariant
            i <= items@.len(),
            all == items.deep_view(),
            f == (|i: CleanItemView| deletes_on(i)),
            named.deep_view() == kept(all.take(i as int), f),
        decreases items@.len() - i,
    {
        proof {
            lemma_kept_step(all, i as int, f);
        }
        assert(all[i as int] == items@[i as int].deep_view());
        let ghost before = named.deep_view();
        if items[i].delete_remote {
            match &items[i].remote {
                Some(to) => {
                    named.push(to.clone());
                    assert(named.deep_view() =~= before.push(to@));
                },
                None => {},
            }
        }
        i += 1;
    }
    let remotes = sort_dedup_texts(&named);
    let mut r: Vec<(String, Vec<String>)> = Vec::new();
    let ghost done = batches_of(all);
    assert(remotes.deep_view() == batch_remotes(all));
    let mut k: usize = 0;
    while k < remotes.len()
        invariant
            k <= remotes@.len(),
            all == items.deep_view(),
            remotes.deep_view() == batch_remotes(all),
            done == batches_of(all),
            r@.len() == k,
            forall|j: int| 0 <= j < k ==> (#[trigger] r@[j]).deep_view() == done[j],
        decreases remotes@.len() - k,
    {
        assert(remotes.deep_view()[k as int] == remotes@[k as int]@);
        let batch = batch_on(items, remotes[k].as_str());
        r.push((remotes[k].clone(), batch));
        assert(r@[k as int].deep_view() == done[k as int]);
        k += 1;
    }
    assert(r.deep_view() =~= done);
    r
}

/// What became of an item, given which pushes failed and whether deleting the
/// local copy did.
pub open spec fn result_of(
    item: CleanItemView,
    remote_errors: Seq<(Seq<char>, Seq<char>)>,
    local_error: Option<Seq<char>>,
) -> CleanResultView {
    let pushed = match deletes_on(item) {
        Some(r) => lookup(remote_errors, r),
        None => None,
    };
    let remote_part = match pushed {
        Some(e) => seq![e],
        None => seq![],
    };
    let local_part = match local_error {
        Some(e) => if item.delete_local {
            seq![e]
        } else {
            seq![]
        },
        None => seq![],
    };
    CleanResultView {
        branch: item.branch,
        local_deleted: item.delete_local && local_error is None,
        remote_deleted: item.delete_remote && pushed is None,
        errors: remote_part + local_part,
    }
}

/// Reports what became of an item.
pub fn apply_item(
    item: &CleanItem,
    remote_errors: &Vec<(String, String)>,
    local_error: &Option<String>,
) -> (r: CleanResult)
    ensures
        r.deep_view() == result_of(
            item.deep_view(),
            remote_errors.deep_view(),
            local_error.deep_view(),
        ),
{
    let mut errors: Vec<String> = Vec::new();
    let mut remote_deleted = false;
    if item.delete_remote {
        remote_deleted = true;
        match &item.remote {
            Some(r) => match find_value(remote_errors, r.as_str()) {
                Some(e) => {
                    errors.push(e.clone());
                    remote_deleted = false;
                },
                None => {},
            },
            None => {},
        }
    }
    let mut local_deleted = false;
    if item.delete_local {
        match local_error {
            Some(e) => errors.push(e.clone()),
            None => {
                local_deleted = true;
            },
        }
    }
    let r = CleanResult { branch: item.branch.clone(), local_deleted, remote_deleted, errors };
    assert(r.deep_view().errors =~= result_of(
        item.deep_view(),
        remote_errors.deep_view(),
        local_error.deep_view(),
    ).errors);
    r
}

/// Reports what became of every item, in order.
pub fn apply(
    items: &Vec<CleanItem>,
    remote_errors: &Vec<(String, String)>,
    local_errors: &Vec<Option<String>>,
) -> (r: Vec<CleanResult>)
    requires
        local_errors@.len() == items@.len(),
    ensures
        r.deep_view() == Seq::new(
            items@.len(),
            |i: int|
                result_of(
                    items.deep_view()[i],
                    remote_errors.deep_view(),
                    local_errors.deep_view()[i],
                ),
        ),
{
    let mut r: Vec<CleanResult> = Vec::new();
    let mut i: usize = 0;
    while i < items.len()
        invariant
            i <= items@.len(),
            local_errors@.len() == items@.len(),
            r@.len() == i,
            forall|k: int|
                0 <= k < i ==> (#[trigger] r@[k]).deep_view() == result_of(
                    items.deep_view()[k],
                    remote_errors.deep_view(),
                    local_errors.deep_view()[k],
                ),
        decreases items@.len() - i,
    {
        r.push(apply_item(&items[i], remote_errors, &local_errors[i]));
        i += 1;
    }
    assert(r.deep_view() =~= Seq::new(
        items@.len(),
        |i: int|
            result_of(
                items.deep_view()[i],
                remote_errors.deep_view(),
                local_errors.deep_view()[i],
            ),
    ));
    r
}

// ── Laws ────────────────────────────────────────────────────────────────────

/// A branch is only ever deleted for a reason, and never when it is the base,
/// the current branch, checked out in another worktree or protected. Without
/// force it is contained in the base. Its remote copy only goes when that was
/// asked for, and without force only when that copy is contained as well.
pub proof fn law_deletions_are_safe(f: CleanFactsView, scope: CleanScope, item: CleanItemView)
    requires
        plan_of(f, scope).items.contains(item),
    ensures
        exists|i: int|
            #![trigger f.details[i]]
            {
                let b = f.details[i];
                let base = base_of(f);
                &&& 0 <= i < f.details.len()
                &&& b.name == item.branch
                &&& reason_of(f, base, b) == Some(item.reason)
                &&& b.name != f.current
                &&& b.worktree.len() == 0
                &&& !protected_of(f).contains(b.name)
                &&& base matches Some(x) ==> x.name != b.name
                &&& scope.force || in_base(f, base, b.name)
                &&& item.delete_remote ==> {
                    &&& scope.with_remote
                    &&& !b.gone()
                    &&& item.remote matches Some(r) && (scope.force || (base matches Some(x)
                        && contained(f.ancestry, tracking_name(r, b.name), x.refs)))
                }
            },
{
    let base = base_of(f);
    let protected = protected_of(f);
    let g = |b: LocalBranchView| item_of(verdict(f, base, protected, scope, b));
    lemma_kept_contains(f.details, g, item);
    let i = choose|i: int| 0 <= i < f.details.len() && g(#[trigger] f.details[i]) == Some(item);
    let b = f.details[i];
    assert(item_of(verdict(f, base, protected, scope, b)) == Some(item));
}

/// Nothing that looks like cleanup material is dropped silently: apart from the
/// base itself, each such branch is either deleted or mentioned as skipped.
pub proof fn law_nothing_is_dropped_silently(f: CleanFactsView, scope: CleanScope, i: int)
    requires
        0 <= i < f.details.len(),
        reason_of(f, base_of(f), f.details[i]) is Some,
        base_of(f) matches Some(b) ==> b.name != f.details[i].name,
    ensures
        (exists|k: int|
            0 <= k < plan_of(f, scope).items.len() && (#[trigger] plan_of(f, scope).items[k]).branch
                == f.details[i].name) || (exists|k: int|
            0 <= k < plan_of(f, scope).skipped.len() && (#[trigger] plan_of(
                f,
                scope,
            ).skipped[k]).branch == f.details[i].name),
{
    let base = base_of(f);
    let protected = protected_of(f);
    let b = f.details[i];
    let gi = |x: LocalBranchView| item_of(verdict(f, base, protected, scope, x));
    let gs = |x: LocalBranchView| skip_of(verdict(f, base, protected, scope, x));
    match verdict(f, base, protected, scope, b) {
        VerdictView::Delete(d) => {
            lemma_kept_contains(f.details, gi, d);
            assert(gi(f.details[i]) == Some(d));
            assert(plan_of(f, scope).items.contains(d));
            let k = choose|k: int|
                0 <= k < plan_of(f, scope).items.len() && plan_of(f, scope).items[k] == d;
            assert(plan_of(f, scope).items[k].branch == b.name);
        },
        VerdictView::Skip(s) => {
            lemma_kept_contains(f.details, gs, s);
            assert(gs(f.details[i]) == Some(s));
            assert(plan_of(f, scope).skipped.contains(s));
            let k = choose|k: int|
                0 <= k < plan_of(f, scope).skipped.len() && plan_of(f, scope).skipped[k] == s;
            assert(plan_of(f, scope).skipped[k].branch == b.name);
        },
        VerdictView::Pass => {},
    }
}

/// What a configuration names is never deleted: not its stable branch, not its
/// rolling branch, and nothing that it lists for protection. Without a
/// configuration the conventional branches stay.
pub proof fn law_configured_branches_stay(f: CleanFactsView, scope: CleanScope, item: CleanItemView)
    requires
        plan_of(f, scope).items.contains(item),
    ensures
        f.config matches Some(c) ==> item.branch != c.stable_branch && item.branch
            != c.rolling_branch && !c.clean_protect.contains(item.branch),
        f.config is None ==> item.branch != "main"@ && item.branch != "master"@ && item.branch
            != "develop"@,
{
    law_deletions_are_safe(f, scope, item);
    let named = match f.config {
        Some(c) => seq![c.stable_branch, c.rolling_branch] + c.clean_protect,
        None => seq!["main"@, "master"@, "develop"@],
    };
    let all = named + recorded_heads(f);
    law_ordered(all);
    assert(!all.contains(item.branch));
    assert forall|i: int| 0 <= i < named.len() implies #[trigger] named[i] != item.branch by {
        assert(all[i] == named[i]);
    }
    match f.config {
        Some(c) => {
            assert(named[0] == c.stable_branch && named[1] == c.rolling_branch);
            if c.clean_protect.contains(item.branch) {
                let k = choose|k: int|
                    0 <= k < c.clean_protect.len() && c.clean_protect[k] == item.branch;
                assert(named[k + 2] == c.clean_protect[k]);
            }
        },
        None => {
            assert(named[0] == "main"@ && named[1] == "master"@ && named[2] == "develop"@);
        },
    }
}

/// The default branch that a remote records is never deleted. `k` is the first
/// record for that remote.
pub proof fn law_default_branches_stay(
    f: CleanFactsView,
    scope: CleanScope,
    item: CleanItemView,
    k: int,
)
    requires
        plan_of(f, scope).items.contains(item),
        0 <= k < f.remote_heads.len(),
        f.remotes.contains(f.remote_heads[k].0),
        forall|j: int| 0 <= j < k ==> (#[trigger] f.remote_heads[j]).0 != f.remote_heads[k].0,
    ensures
        item.branch != f.remote_heads[k].1,
{
    law_deletions_are_safe(f, scope, item);
    let (remote, head) = f.remote_heads[k];
    let named = match f.config {
        Some(c) => seq![c.stable_branch, c.rolling_branch] + c.clean_protect,
        None => seq!["main"@, "master"@, "develop"@],
    };
    let heads = recorded_heads(f);
    law_ordered(named + heads);
    law_lookup_finds_the_first(f.remote_heads, remote, k);
    let g = |r: Seq<char>| lookup(f.remote_heads, r);
    lemma_kept_contains(f.remotes, g, head);
    let i = choose|i: int| 0 <= i < f.remotes.len() && f.remotes[i] == remote;
    assert(g(f.remotes[i]) == Some(head));
    let j = choose|j: int| 0 <= j < heads.len() && heads[j] == head;
    assert((named + heads)[named.len() + j] == head);
}

/// Whether git calls `tip` an ancestor of one of the base's references.
pub open spec fn reaches_base(f: CleanFactsView, base: CleanBaseView, tip: Seq<char>) -> bool {
    exists|k: int| 0 <= k < base.refs.len() && f.ancestry.contains((tip, #[trigger] base.refs[k]))
}

/// Every branch to delete is a local one, and the reason given for it is the
/// first that holds: its roll has been promoted, its upstream is gone, or git
/// calls it an ancestor of the base. Without force all of them are ancestors of
/// the base, and none is checked out anywhere.
pub proof fn law_reasons_are_true(f: CleanFactsView, scope: CleanScope, item: CleanItemView)
    requires
        plan_of(f, scope).items.contains(item),
    ensures
        item.delete_local,
        item.branch != f.current,
        plan_of(f, scope).base matches Some(base) ==> item.branch != base.name,
        !scope.force ==> (plan_of(f, scope).base matches Some(base) && reaches_base(
            f,
            base,
            item.branch,
        )),
        item.reason is Promoted <==> f.promoted.contains(item.branch),
        item.reason is Merged ==> (plan_of(f, scope).base matches Some(base) && reaches_base(
            f,
            base,
            item.branch,
        )),
        exists|i: int|
            0 <= i < f.details.len() && (#[trigger] f.details[i]).name == item.branch
                && f.details[i].worktree.len() == 0 && (item.reason is UpstreamGone
                <==> !f.promoted.contains(item.branch) && f.details[i].upstream.len() > 0
                && says_gone(f.details[i].track)),
{
    let base = base_of(f);
    let protected = protected_of(f);
    let g = |b: LocalBranchView| item_of(verdict(f, base, protected, scope, b));
    lemma_kept_contains(f.details, g, item);
    let i = choose|i: int| 0 <= i < f.details.len() && g(#[trigger] f.details[i]) == Some(item);
    assert(item_of(verdict(f, base, protected, scope, f.details[i])) == Some(item));
}

/// Every local branch goes whose roll has been promoted, whose upstream is gone or
/// that git calls an ancestor of the base, provided that git calls it one or force
/// is given, and that it is neither the base nor checked out nor protected. With
/// its remote copy asked for, that copy goes with it where its upstream's remote
/// has one that git calls an ancestor of the base too, or where force is given.
pub proof fn law_cleanable_branches_go(f: CleanFactsView, scope: CleanScope, i: int)
    requires
        0 <= i < f.details.len(),
        plan_of(f, scope).base is Some,
        f.details[i].name != plan_of(f, scope).base->0.name,
        f.details[i].name != f.current,
        f.details[i].worktree.len() == 0,
        !protected_of(f).contains(f.details[i].name),
        f.promoted.contains(f.details[i].name) || (f.details[i].upstream.len() > 0 && says_gone(
            f.details[i].track,
        )) || reaches_base(f, plan_of(f, scope).base->0, f.details[i].name),
        scope.force || reaches_base(f, plan_of(f, scope).base->0, f.details[i].name),
    ensures
        exists|k: int|
            0 <= k < plan_of(f, scope).items.len() && {
                let b = f.details[i];
                let base = plan_of(f, scope).base->0;
                let item = #[trigger] plan_of(f, scope).items[k];
                &&& item.branch == b.name
                &&& item.delete_local
                &&& item.unmerged is Some ==> scope.force && !reaches_base(f, base, b.name)
                &&& item.delete_remote ==> scope.with_remote && (item.remote matches Some(r)
                    && f.refs.contains(r + "/"@ + b.name))
                &&& (scope.with_remote && b.upstream.len() == 0 && b.remote_name.len() == 0
                    && f.remotes.len() > 0 && f.refs.contains(f.remotes[0] + "/"@ + b.name) && (
                scope.force || reaches_base(f, base, f.remotes[0] + "/"@ + b.name)))
                    ==> item.delete_remote && item.remote == Some(f.remotes[0])
                &&& (scope.with_remote && !says_gone(b.track) && b.remote_name.len() > 0
                    && f.refs.contains(b.remote_name + "/"@ + b.name) && (scope.force
                    || reaches_base(f, base, b.remote_name + "/"@ + b.name)))
                    ==> item.delete_remote && item.remote == Some(b.remote_name)
            },
{
    let base = base_of(f);
    let protected = protected_of(f);
    let b = f.details[i];
    let g = |x: LocalBranchView| item_of(verdict(f, base, protected, scope, x));
    assert(contained(f.ancestry, b.name, base->0.refs) == reaches_base(f, base->0, b.name));
    assert(forall|t: Seq<char>| #[trigger]
        reaches_base(f, base->0, t) == contained(f.ancestry, t, base->0.refs));
    let d = item_of(verdict(f, base, protected, scope, b))->0;
    assert(g(f.details[i]) == Some(d));
    lemma_kept_contains(f.details, g, d);
    let k = choose|k: int| 0 <= k < plan_of(f, scope).items.len() && plan_of(f, scope).items[k] == d;
    assert(plan_of(f, scope).items[k] == d);
}

proof fn lemma_containment(f: CleanFactsView, name: Seq<char>)
    ensures
        forall|x: Seq<char>| #[trigger]
            containment(f.refs, name, f.remotes).contains(x) <==> (f.refs.contains(x) && (x == name
                || exists|i: int|
                0 <= i < f.remotes.len() && x == #[trigger] f.remotes[i] + "/"@ + name)),
        containment(f.refs, name, f.remotes).len() > 0 <==> resolves(f, name),
{
    let local: Seq<Seq<char>> = if f.refs.contains(name) {
        seq![name]
    } else {
        seq![]
    };
    let g = |r: Seq<char>|
        if f.refs.contains(tracking_name(r, name)) {
            Some(tracking_name(r, name))
        } else {
            None
        };
    let there = kept(f.remotes, g);
    let all = containment(f.refs, name, f.remotes);
    assert(all =~= local + there);
    assert forall|x: Seq<char>| #[trigger] all.contains(x) <==> (f.refs.contains(x) && (x == name
        || exists|i: int|
        0 <= i < f.remotes.len() && x == #[trigger] f.remotes[i] + "/"@ + name)) by {
        lemma_kept_contains(f.remotes, g, x);
        if all.contains(x) {
            let k = choose|k: int| 0 <= k < all.len() && all[k] == x;
            if k >= local.len() {
                assert(there[k - local.len()] == x);
                assert(there.contains(x));
                let i = choose|i: int|
                    0 <= i < f.remotes.len() && g(#[trigger] f.remotes[i]) == Some(x);
                assert(x == f.remotes[i] + "/"@ + name);
            }
        }
        if f.refs.contains(x) && x == name {
            assert(all[0] == x);
        }
        if f.refs.contains(x) && exists|i: int|
            0 <= i < f.remotes.len() && x == #[trigger] f.remotes[i] + "/"@ + name {
            let i = choose|i: int|
                0 <= i < f.remotes.len() && x == #[trigger] f.remotes[i] + "/"@ + name;
            assert(g(f.remotes[i]) == Some(x));
            assert(there.contains(x));
            let k = choose|k: int| 0 <= k < there.len() && there[k] == x;
            assert(all[local.len() + k] == x);
        }
    }
    if all.len() > 0 {
        assert(all.contains(all[0]));
    }
    if resolves(f, name) {
        if f.refs.contains(name) {
            assert(all.contains(name));
        } else {
            let i = choose|i: int|
                0 <= i < f.remotes.len() && f.refs.contains(#[trigger] f.remotes[i] + "/"@ + name);
            let x = f.remotes[i] + "/"@ + name;
            assert(all.contains(x));
        }
    }
}

/// Whether a branch exists here or on one of the remotes.
pub open spec fn resolves(f: CleanFactsView, name: Seq<char>) -> bool {
    f.refs.contains(name) || exists|i: int|
        0 <= i < f.remotes.len() && f.refs.contains(#[trigger] f.remotes[i] + "/"@ + name)
}

/// The base is the configured stable branch wherever that exists; it stands for
/// every copy of the branch, here and on each remote, and for nothing else.
pub proof fn law_configured_base_comes_first(f: CleanFactsView, x: Seq<char>)
    requires
        f.config is Some,
        resolves(f, f.config->0.stable_branch),
    ensures
        base_of(f) matches Some(base) && base.name == f.config->0.stable_branch
            && base.source is Config && (base.refs.contains(x) <==> f.refs.contains(x) && (x
            == base.name || exists|i: int|
            0 <= i < f.remotes.len() && x == #[trigger] f.remotes[i] + "/"@ + base.name)),
{
    lemma_containment(f, f.config->0.stable_branch);
}

proof fn lemma_head_base(f: CleanFactsView, order: Seq<Seq<char>>, k: int)
    requires
        0 <= k < order.len(),
        lookup(f.remote_heads, order[k]) is Some,
        resolves(f, lookup(f.remote_heads, order[k])->0),
        forall|j: int|
            0 <= j < k ==> (lookup(f.remote_heads, #[trigger] order[j]) matches Some(h)
                ==> !resolves(f, h)),
    ensures
        head_base(f, order) matches Some(base) && base.name == lookup(f.remote_heads, order[k])->0
            && base.source is RemoteHead,
    decreases k,
{
    if k == 0 {
        lemma_containment(f, lookup(f.remote_heads, order[0])->0);
    } else {
        match lookup(f.remote_heads, order[0]) {
            Some(h) => {
                lemma_containment(f, h);
            },
            None => {},
        }
        assert forall|j: int| 0 <= j < k - 1 implies (lookup(
            f.remote_heads,
            #[trigger] order.skip(1)[j],
        ) matches Some(h) ==> !resolves(f, h)) by {
            assert(order[j + 1] == order.skip(1)[j]);
        }
        lemma_head_base(f, order.skip(1), k - 1);
    }
}

/// Where no configured stable branch exists, the default branch that `origin`
/// records is the base wherever that exists. `k` is the record for `origin`.
pub proof fn law_default_branch_of_origin_comes_next(f: CleanFactsView, k: int)
    requires
        f.config matches Some(c) ==> !resolves(f, c.stable_branch),
        f.remotes.contains("origin"@),
        0 <= k < f.remote_heads.len(),
        f.remote_heads[k].0 == "origin"@,
        forall|j: int| 0 <= j < k ==> (#[trigger] f.remote_heads[j]).0 != "origin"@,
        resolves(f, f.remote_heads[k].1),
    ensures
        base_of(f) matches Some(base) && base.name == f.remote_heads[k].1
            && base.source is RemoteHead,
{
    match f.config {
        Some(c) => {
            lemma_containment(f, c.stable_branch);
        },
        None => {},
    }
    law_lookup_finds_the_first(f.remote_heads, "origin"@, k);
    let g = |r: Seq<char>|
        if r == "origin"@ {
            Some(r)
        } else {
            None
        };
    let front = kept(f.remotes, g);
    lemma_kept_contains(f.remotes, g, "origin"@);
    let i = choose|i: int| 0 <= i < f.remotes.len() && f.remotes[i] == "origin"@;
    assert(g(f.remotes[i]) == Some("origin"@));
    assert(front.len() > 0);
    lemma_kept_contains(f.remotes, g, front[0]);
    assert(front.contains(front[0]));
    let j = choose|j: int| 0 <= j < f.remotes.len() && g(#[trigger] f.remotes[j]) == Some(front[0]);
    assert(front[0] == "origin"@);
    let order = origin_first(f.remotes);
    assert(order[0] == front[0]);
    lemma_head_base(f, order, 0);
}

/// Without a configured stable branch and without recorded default branches, the
/// first of `main`, `master`, `develop` and `trunk` that exists is the base; where
/// none of them does, it is what is checked out, and with a detached head there is
/// none.
pub proof fn law_conventional_base_comes_last(f: CleanFactsView)
    requires
        f.config matches Some(c) ==> !resolves(f, c.stable_branch),
        f.remote_heads.len() == 0,
    ensures
        ({
            let names = seq!["main"@, "master"@, "develop"@, "trunk"@];
            let base = base_of(f);
            &&& forall|k: int|
                0 <= k < 4 && resolves(f, #[trigger] names[k]) && (forall|j: int|
                    0 <= j < k ==> !resolves(f, #[trigger] names[j])) ==> (base matches Some(b)
                    && b.name == names[k] && b.source is Conventional)
            &&& (forall|k: int| 0 <= k < 4 ==> !resolves(f, #[trigger] names[k])) ==> {
                &&& f.current.len() > 0 ==> (base matches Some(b) && b.name == f.current
                    && b.source is CurrentBranch && b.refs == seq![f.current])
                &&& f.current.len() == 0 ==> base is None
            }
        }),
{
    match f.config {
        Some(c) => {
            lemma_containment(f, c.stable_branch);
        },
        None => {},
    }
    lemma_no_head_base(f, origin_first(f.remotes));
    let names = seq!["main"@, "master"@, "develop"@, "trunk"@];
    assert(conventional_names() =~= names);
    assert(names.skip(1).skip(1) =~= names.skip(2));
    assert(names.skip(2).skip(1) =~= names.skip(3));
    assert(names.skip(3).skip(1) =~= seq![]);
    reveal_with_fuel(conventional_base, 5);
    assert forall|k: int| 0 <= k < 4 implies containment(
        f.refs,
        #[trigger] names[k],
        f.remotes,
    ).len() > 0 <==> resolves(f, names[k]) by {
        lemma_containment(f, names[k]);
    }
    assert(names.skip(1)[0] == names[1] && names.skip(2)[0] == names[2] && names.skip(3)[0]
        == names[3]);
}

proof fn lemma_no_head_base(f: CleanFactsView, order: Seq<Seq<char>>)
    requires
        f.remote_heads.len() == 0,
    ensures
        head_base(f, order) is None,
    decreases order.len(),
{
    if order.len() > 0 {
        lemma_no_head_base(f, order.skip(1));
    }
}

/// Deletions are pushed to the remotes that hold the copies: a branch is in the
/// push to a remote exactly when an item says that its copy there goes.
pub proof fn law_remote_copies_are_pushed(
    items: Seq<CleanItemView>,
    remote: Seq<char>,
    branch: Seq<char>,
)
    ensures
        (exists|k: int|
            0 <= k < batches_of(items).len() && (#[trigger] batches_of(items)[k]).0 == remote
                && batches_of(items)[k].1.contains(branch)) <==> exists|i: int|
            0 <= i < items.len() && (#[trigger] items[i]).branch == branch && items[i].delete_remote
                && items[i].remote == Some(remote),
        forall|k: int, m: int|
            0 <= k < m < batches_of(items).len() ==> (#[trigger] batches_of(items)[k]).0 != (
            #[trigger] batches_of(items)[m]).0,
{
    let on = |i: CleanItemView| deletes_on(i);
    let here = |i: CleanItemView|
        if deletes_on(i) == Some(remote) {
            Some(i.branch)
        } else {
            None
        };
    let remotes = batch_remotes(items);
    let batches = batches_of(items);
    law_ordered(kept(items, on));
    assert forall|k: int, m: int| 0 <= k < m < batches.len() implies (#[trigger] batches[k]).0 != (
    #[trigger] batches[m]).0 by {
        law_text_order_is_total(remotes[k], remotes[m]);
    }
    lemma_kept_contains(items, on, remote);
    lemma_kept_contains(items, here, branch);
    if exists|k: int|
        0 <= k < batches.len() && (#[trigger] batches[k]).0 == remote && batches[k].1.contains(
            branch,
        ) {
        let k = choose|k: int|
            0 <= k < batches.len() && (#[trigger] batches[k]).0 == remote
                && batches[k].1.contains(branch);
        assert(batches[k].1 == batch_for(items, remote));
        assert(kept(items, here).contains(branch));
        let i = choose|i: int| 0 <= i < items.len() && here(#[trigger] items[i]) == Some(branch);
        assert(items[i].branch == branch);
    }
    if exists|i: int|
        0 <= i < items.len() && (#[trigger] items[i]).branch == branch && items[i].delete_remote
            && items[i].remote == Some(remote) {
        let i = choose|i: int|
            0 <= i < items.len() && (#[trigger] items[i]).branch == branch
                && items[i].delete_remote && items[i].remote == Some(remote);
        assert(on(items[i]) == Some(remote));
        assert(here(items[i]) == Some(branch));
        assert(remotes.contains(remote));
        let k = choose|k: int| 0 <= k < remotes.len() && remotes[k] == remote;
        assert(batches[k] == (remote, batch_for(items, remote)));
    }
}

/// What became of an item: a copy counts as deleted exactly when it was to go and
/// nothing failed, and every failure is among the errors. `k` is the first failure
/// recorded for the item's remote, or their number where there is none.
pub proof fn law_results_tell_the_failures(
    item: CleanItemView,
    remote_errors: Seq<(Seq<char>, Seq<char>)>,
    local_error: Option<Seq<char>>,
    k: int,
)
    requires
        item.delete_remote ==> item.remote is Some,
        0 <= k <= remote_errors.len(),
        k < remote_errors.len() ==> item.remote == Some(remote_errors[k].0),
        forall|j: int| 0 <= j < k ==> Some((#[trigger] remote_errors[j]).0) != item.remote,
    ensures
        ({
            let r = result_of(item, remote_errors, local_error);
            &&& r.branch == item.branch
            &&& r.local_deleted <==> item.delete_local && local_error is None
            &&& r.remote_deleted <==> item.delete_remote && k == remote_errors.len()
            &&& item.delete_remote && k < remote_errors.len() ==> r.errors.contains(
                remote_errors[k].1,
            )
            &&& item.delete_local && local_error is Some ==> r.errors.contains(local_error->0)
            &&& r.errors.len() == (if item.delete_remote && k < remote_errors.len() {
                1int
            } else {
                0
            }) + (if item.delete_local && local_error is Some {
                1int
            } else {
                0
            })
        }),
{
    let r = result_of(item, remote_errors, local_error);
    if item.remote is Some {
        law_lookup_finds_the_first(remote_errors, item.remote->0, k);
    }
    if r.errors.len() > 0 {
        assert(r.errors.contains(r.errors[0]));
        assert(r.errors.contains(r.errors[r.errors.len() - 1]));
    }
}

/// The promoted branches are those of the rolls that have been promoted.
pub proof fn law_promoted_branches_are_the_promoted_rolls(rolls: Seq<RollView>, branch: Seq<char>)
    ensures
        promoted_branches(rolls).contains(branch) <==> exists|i: int|
            0 <= i < rolls.len() && (#[trigger] rolls[i]).branch == branch
                && rolls[i].state is Promoted,
{
    let g = |r: RollView|
        if r.state is Promoted {
            Some(r.branch)
        } else {
            None
        };
    law_ordered(kept(rolls, g));
    lemma_kept_contains(rolls, g, branch);
    if promoted_branches(rolls).contains(branch) {
        let i = choose|i: int| 0 <= i < rolls.len() && g(#[trigger] rolls[i]) == Some(branch);
        assert(rolls[i].branch == branch);
    }
    if exists|i: int|
        0 <= i < rolls.len() && (#[trigger] rolls[i]).branch == branch && rolls[i].state
            is Promoted {
        let i = choose|i: int|
            0 <= i < rolls.len() && (#[trigger] rolls[i]).branch == branch && rolls[i].state
                is Promoted;
        assert(g(rolls[i]) == Some(branch));
    }
}

/// A fetch dropped exactly the references that were there before it and are not
/// there after it.
pub proof fn law_dropped_refs_are_gone(
    before: Seq<Seq<char>>,
    after: Seq<Seq<char>>,
    name: Seq<char>,
)
    ensures
        dropped(before, after).contains(name) <==> before.contains(name) && !after.contains(name),
{
    let g = |r: Seq<char>|
        if after.contains(r) {
            None
        } else {
            Some(r)
        };
    lemma_kept_contains(before, g, name);
    if dropped(before, after).contains(name) {
        let i = choose|i: int| 0 <= i < before.len() && g(#[trigger] before[i]) == Some(name);
        assert(before[i] == name);
    }
    if before.contains(name) && !after.contains(name) {
        let i = choose|i: int| 0 <= i < before.len() && before[i] == name;
        assert(g(before[i]) == Some(name));
    }
}

/// What is skipped is told with the reason that holds first: it is checked out
/// here, it is checked out in a worktree, it is protected, or the base lacks it.
pub proof fn law_skips_say_why(f: CleanFactsView, scope: CleanScope, skip: CleanSkipView)
    requires
        plan_of(f, scope).skipped.contains(skip),
    ensures
        exists|i: int|
            0 <= i < f.details.len() && {
                let b = #[trigger] f.details[i];
                &&& b.name == skip.branch
                &&& b.name == f.current ==> skip.reason
                    == "checked out — switch away to clean it"@
                &&& b.name != f.current && b.worktree.len() > 0 ==> skip.reason
                    == "checked out in worktree at "@ + trimmed(b.worktree)
                &&& b.name != f.current && b.worktree.len() == 0 && protected_of(f).contains(b.name)
                    ==> skip.reason == "protected branch"@
                &&& b.name != f.current && b.worktree.len() == 0 && !protected_of(f).contains(
                    b.name,
                ) ==> !scope.force && (plan_of(f, scope).base matches Some(base)
                    ==> !reaches_base(f, base, b.name))
            },
{
    let base = base_of(f);
    let protected = protected_of(f);
    let g = |b: LocalBranchView| skip_of(verdict(f, base, protected, scope, b));
    lemma_kept_contains(f.details, g, skip);
    let i = choose|i: int| 0 <= i < f.details.len() && g(#[trigger] f.details[i]) == Some(skip);
    let b = f.details[i];
    assert(skip_of(verdict(f, base, protected, scope, b)) == Some(skip));
    if base is Some {
        assert(reaches_base(f, base->0, b.name) == contained(f.ancestry, b.name, base->0.refs));
    }
}

/// A remote's copy goes only from the remote that has it: the branch's own, or else
/// the first remote with a copy. `k` is the place of that remote, or the number of
/// the remotes where none has one.
pub proof fn law_copies_are_looked_for_in_order(
    refs: Seq<Seq<char>>,
    remotes: Seq<Seq<char>>,
    branch: Seq<char>,
    k: int,
)
    requires
        0 <= k <= remotes.len(),
        k < remotes.len() ==> refs.contains(remotes[k] + "/"@ + branch),
        forall|j: int| 0 <= j < k ==> !refs.contains(#[trigger] remotes[j] + "/"@ + branch),
    ensures
        k < remotes.len() ==> remote_with(refs, remotes, branch) == Some(remotes[k]),
        k == remotes.len() ==> remote_with(refs, remotes, branch) is None,
    decreases k,
{
    if k > 0 {
        assert(!refs.contains(remotes[0] + "/"@ + branch));
        assert forall|j: int| 0 <= j < k - 1 implies !refs.contains(
            #[trigger] remotes.skip(1)[j] + "/"@ + branch,
        ) by {
            assert(!refs.contains(remotes[j + 1] + "/"@ + branch));
        }
        law_copies_are_looked_for_in_order(refs, remotes.skip(1), branch, k - 1);
    }
}

proof fn lemma_asked_for_names(names: Seq<Seq<char>>, remotes: Seq<Seq<char>>, i: int, r: int)
    requires
        0 <= i < names.len(),
    ensures
        asked_for_names(names, remotes).contains(names[i]),
        0 <= r < remotes.len() ==> asked_for_names(names, remotes).contains(
            remotes[r] + "/"@ + names[i],
        ),
    decreases names.len(),
{
    let all = asked_for_names(names, remotes);
    let before = asked_for_names(names.drop_last(), remotes);
    let here = counterparts(names.last(), remotes);
    assert(all =~= before.push(names.last()) + here);
    if i == names.len() - 1 {
        assert(all[before.len() as int] == names[i]);
        if 0 <= r < remotes.len() {
            assert(here[r] == remotes[r] + "/"@ + names[i]);
            assert(all[before.len() + 1 + r] == here[r]);
        }
    } else {
        lemma_asked_for_names(names.drop_last(), remotes, i, r);
        assert(names.drop_last()[i] == names[i]);
        let k = choose|k: int| 0 <= k < before.len() && before[k] == names[i];
        assert(all[k] == names[i]);
        if 0 <= r < remotes.len() {
            let x = remotes[r] + "/"@ + names[i];
            let m = choose|m: int| 0 <= m < before.len() && before[m] == x;
            assert(all[m] == x);
        }
    }
}

/// Every name that may turn out to be the base is asked about, here and on each
/// remote: the configured stable branch and the conventional ones.
pub proof fn law_base_candidates_are_asked_about(f: CleanFactsView, r: int)
    ensures
        ({
            let asked = asked_for_names(base_candidates(f), f.remotes);
            &&& f.config matches Some(c) ==> asked.contains(c.stable_branch) && (0 <= r
                < f.remotes.len() ==> asked.contains(f.remotes[r] + "/"@ + c.stable_branch))
            &&& asked.contains("main"@) && asked.contains("master"@) && asked.contains("develop"@)
                && asked.contains("trunk"@)
        }),
{
    let names = base_candidates(f);
    let n = names.len();
    let conv = conventional_names();
    assert(conv.len() == 4);
    assert(names[n - 4] == conv[0] && names[n - 3] == conv[1] && names[n - 2] == conv[2] && names[n
        - 1] == conv[3]);
    lemma_asked_for_names(names, f.remotes, n - 4, r);
    lemma_asked_for_names(names, f.remotes, n - 3, r);
    lemma_asked_for_names(names, f.remotes, n - 2, r);
    lemma_asked_for_names(names, f.remotes, n - 1, r);
    if f.config is Some {
        assert(names[0] == f.config->0.stable_branch);
        lemma_asked_for_names(names, f.remotes, 0, r);
    }
}

/// Every copy of a branch that might go is asked about: the one on its own remote
/// where it has one, and otherwise one on each remote.
pub proof fn law_copies_are_asked_about(
    details: Seq<LocalBranchView>,
    remotes: Seq<Seq<char>>,
    i: int,
    r: int,
)
    requires
        0 <= i < details.len(),
    ensures
        details[i].remote_name.len() > 0 ==> asked_for_branches(details, remotes).contains(
            details[i].remote_name + "/"@ + details[i].name,
        ),
        details[i].remote_name.len() == 0 && 0 <= r < remotes.len() ==> asked_for_branches(
            details,
            remotes,
        ).contains(remotes[r] + "/"@ + details[i].name),
    decreases details.len(),
{
    let all = asked_for_branches(details, remotes);
    let rest = details.drop_last();
    let before = asked_for_branches(rest, remotes);
    let here = asked_for_copies(details.last(), remotes);
    assert(all =~= before + here);
    let b = details[i];
    let own = b.remote_name + "/"@ + b.name;
    let there = remotes[r] + "/"@ + b.name;
    if i == details.len() - 1 {
        if b.remote_name.len() > 0 {
            assert(here[0] == own);
            assert(all[before.len() as int] == own);
        } else if 0 <= r < remotes.len() {
            assert(here[r] == there);
            assert(all[before.len() + r] == there);
        }
    } else {
        assert(rest[i] == b);
        law_copies_are_asked_about(rest, remotes, i, r);
        if b.remote_name.len() > 0 {
            let k = choose|k: int| 0 <= k < before.len() && before[k] == own;
            assert(all[k] == own);
        } else if 0 <= r < remotes.len() {
            let k = choose|k: int| 0 <= k < before.len() && before[k] == there;
            assert(all[k] == there);
        }
    }
}

/// The references that the prunes dropped are counted over all remotes, as far as a
/// count can go.
pub proof fn law_dropped_refs_are_counted(
    pruned: Seq<PrunedRemoteView>,
    p: PrunedRemoteView,
    n: nat,
    max: nat,
)
    ensures
        dropped_refs(seq![]) == 0,
        dropped_refs(pruned.push(p)) == dropped_refs(pruned) + p.removed.len(),
        n <= max ==> count_up_to(n, max) == n,
        n > max ==> count_up_to(n, max) == max,
{
    assert(pruned.push(p).drop_last() =~= pruned);
}

/// Putting `origin` in front neither adds a remote nor drops one.
pub proof fn law_every_remote_is_looked_at(remotes: Seq<Seq<char>>, remote: Seq<char>)
    ensures
        origin_first(remotes).contains(remote) <==> remotes.contains(remote),
        remotes.contains("origin"@) ==> origin_first(remotes).len() > 0 && origin_first(remotes)[0]
            == "origin"@,
{
    let f = |r: Seq<char>|
        if r == "origin"@ {
            Some(r)
        } else {
            None
        };
    let g = |r: Seq<char>|
        if r != "origin"@ {
            Some(r)
        } else {
            None
        };
    let front = kept(remotes, f);
    let back = kept(remotes, g);
    let all = origin_first(remotes);
    assert(all =~= front + back);
    lemma_kept_contains(remotes, f, remote);
    lemma_kept_contains(remotes, g, remote);
    if remotes.contains(remote) {
        let i = choose|i: int| 0 <= i < remotes.len() && remotes[i] == remote;
        if remote == "origin"@ {
            assert(f(remotes[i]) == Some(remote));
            let k = choose|k: int| 0 <= k < front.len() && front[k] == remote;
            assert(all[k] == remote);
        } else {
            assert(g(remotes[i]) == Some(remote));
            let k = choose|k: int| 0 <= k < back.len() && back[k] == remote;
            assert(all[front.len() + k] == remote);
        }
    }
    if all.contains(remote) {
        let k = choose|k: int| 0 <= k < all.len() && all[k] == remote;
        if k < front.len() {
            assert(front[k] == remote);
            assert(front.contains(remote));
            let i = choose|i: int| 0 <= i < remotes.len() && f(#[trigger] remotes[i]) == Some(remote);
            assert(remotes[i] == remote);
        } else {
            assert(back[k - front.len()] == remote);
            assert(back.contains(remote));
            let i = choose|i: int| 0 <= i < remotes.len() && g(#[trigger] remotes[i]) == Some(remote);
            assert(remotes[i] == remote);
        }
    }
    if remotes.contains("origin"@) {
        lemma_kept_contains(remotes, f, "origin"@);
        let i = choose|i: int| 0 <= i < remotes.len() && remotes[i] == "origin"@;
        assert(f(remotes[i]) == Some("origin"@));
        assert(front.len() > 0);
        lemma_kept_contains(remotes, f, front[0]);
        assert(front.contains(front[0]));
        let j = choose|j: int| 0 <= j < remotes.len() && f(#[trigger] remotes[j]) == Some(front[0]);
        assert(all[0] == front[0]);
    }
}

} // verus!
