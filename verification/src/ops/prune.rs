//! Deleting roll branches: what is planned, and what became of it.
use vstd::prelude::*;

use crate::branches::{
    parse_roll_number, roll_number, BranchLocation, RollInfo, RollState, RollView,
};
use crate::clean::{contained, contained_in};
use crate::config::{Config, ConfigView};
use crate::failure::{outcome, Failure};
use crate::seqs::{kept, lemma_kept_contains, lemma_kept_ends, lemma_kept_step};
use crate::text::{cat, cat3, has_text, owned, same};

verus! {

/// Which copies of a branch may be deleted, and how strictly.
#[derive(Debug, Clone, Copy, PartialEq, Eq, Structural)]
pub struct PruneScope {
    pub local: bool,
    pub remote: bool,
    /// Delete even what holds commits found nowhere else.
    pub force: bool,
    /// Refresh the remote-tracking refs first. Only matters with `remote`.
    pub fetch: bool,
}

impl PruneScope {
    /// Both copies, without force, refreshing first.
    pub fn both() -> (r: PruneScope)
        ensures
            r == (PruneScope { local: true, remote: true, force: false, fetch: true }),
    {
        PruneScope { local: true, remote: true, force: false, fetch: true }
    }

    /// The local copy alone.
    pub fn tidy(force: bool) -> (r: PruneScope)
        ensures
            r == (PruneScope { local: true, remote: false, force, fetch: false }),
    {
        PruneScope { local: true, remote: false, force, fetch: false }
    }

    /// The scope that the flags of a command ask for: neither side named means
    /// both.
    pub fn from_flags(local: bool, remote: bool, force: bool, no_fetch: bool) -> (r: PruneScope)
        ensures
            r == (PruneScope {
                local: local || !remote,
                remote: remote || !local,
                force,
                fetch: !no_fetch,
            }),
    {
        PruneScope { local: local || !remote, remote: remote || !local, force, fetch: !no_fetch }
    }

    /// Whether the remote-tracking refs are refreshed before anything is
    /// decided.
    pub fn refreshes(&self, has_remote: bool) -> (r: bool)
        ensures
            r == (self.remote && has_remote && self.fetch),
    {
        self.remote && has_remote && self.fetch
    }
}

/// A branch to delete, and which copies of it.
#[derive(Debug)]
pub struct PruneCandidate {
    pub branch: String,
    pub number: u32,
    pub delete_local: bool,
    pub delete_remote: bool,
}

/// [`PruneCandidate`] by its characters.
pub struct PruneCandidateView {
    pub branch: Seq<char>,
    pub number: u32,
    pub delete_local: bool,
    pub delete_remote: bool,
}

impl DeepView for PruneCandidate {
    type V = PruneCandidateView;

    open spec fn deep_view(&self) -> PruneCandidateView {
        PruneCandidateView {
            branch: self.branch@,
            number: self.number,
            delete_local: self.delete_local,
            delete_remote: self.delete_remote,
        }
    }
}

/// A copy that was left alone, and why.
#[derive(Debug)]
pub struct PruneSkip {
    pub branch: String,
    pub reason: String,
}

/// [`PruneSkip`] by its characters.
pub struct PruneSkipView {
    pub branch: Seq<char>,
    pub reason: Seq<char>,
}

impl DeepView for PruneSkip {
    type V = PruneSkipView;

    open spec fn deep_view(&self) -> PruneSkipView {
        PruneSkipView {
            branch: self.branch@,
            reason: self.reason@,
        }
    }
}

/// What a deletion would do.
#[derive(Debug)]
pub struct PrunePlan {
    pub candidates: Vec<PruneCandidate>,
    pub skipped: Vec<PruneSkip>,
    /// Whether there is an `origin` at all.
    pub has_remote: bool,
}

/// [`PrunePlan`] by its characters.
pub struct PrunePlanView {
    pub candidates: Seq<PruneCandidateView>,
    pub skipped: Seq<PruneSkipView>,
    pub has_remote: bool,
}

impl DeepView for PrunePlan {
    type V = PrunePlanView;

    open spec fn deep_view(&self) -> PrunePlanView {
        PrunePlanView {
            candidates: self.candidates.deep_view(),
            skipped: self.skipped.deep_view(),
            has_remote: self.has_remote,
        }
    }
}

/// What became of one branch. One copy may be gone and the other not.
#[derive(Debug)]
pub struct PruneResult {
    pub branch: String,
    pub local_deleted: bool,
    pub remote_deleted: bool,
    pub errors: Vec<String>,
}

/// [`PruneResult`] by its characters.
pub struct PruneResultView {
    pub branch: Seq<char>,
    pub local_deleted: bool,
    pub remote_deleted: bool,
    pub errors: Seq<Seq<char>>,
}

impl DeepView for PruneResult {
    type V = PruneResultView;

    open spec fn deep_view(&self) -> PruneResultView {
        PruneResultView {
            branch: self.branch@,
            local_deleted: self.local_deleted,
            remote_deleted: self.remote_deleted,
            errors: self.errors.deep_view(),
        }
    }
}

/// What git says, as far as a deletion depends on it.
#[derive(Debug)]
pub struct PruneFacts {
    /// Whether there is an `origin` remote.
    pub has_remote: bool,
    /// The names that resolve, of those that matter.
    pub refs: Vec<String>,
    /// The pairs of which the first is an ancestor of the second.
    pub ancestry: Vec<(String, String)>,
    /// The branch that is checked out; empty if none is.
    pub current: String,
    pub rolls: Vec<RollInfo>,
}

/// [`PruneFacts`] by its characters.
pub struct PruneFactsView {
    pub has_remote: bool,
    pub refs: Seq<Seq<char>>,
    pub ancestry: Seq<(Seq<char>, Seq<char>)>,
    pub current: Seq<char>,
    pub rolls: Seq<RollView>,
}

impl DeepView for PruneFacts {
    type V = PruneFactsView;

    open spec fn deep_view(&self) -> PruneFactsView {
        PruneFactsView {
            has_remote: self.has_remote,
            refs: self.refs.deep_view(),
            ancestry: self.ancestry.deep_view(),
            current: self.current@,
            rolls: self.rolls.deep_view(),
        }
    }
}

/// The branches whose `origin` copy a plan deletes.
pub open spec fn remote_names(candidates: Seq<PruneCandidateView>) -> Seq<Seq<char>> {
    kept(
        candidates,
        |c: PruneCandidateView|
            if c.delete_remote {
                Some(c.branch)
            } else {
                None
            },
    )
}

impl PrunePlan {
    /// Whether there is nothing to delete.
    pub fn is_empty(&self) -> (r: bool)
        ensures
            r == (self.deep_view().candidates.len() == 0),
    {
        self.candidates.is_empty()
    }

    /// The branches whose `origin` copy this plan deletes.
    pub fn remote_targets(&self) -> (r: Vec<String>)
        ensures
            r.deep_view() == remote_names(self.deep_view().candidates),
    {
        let mut r: Vec<String> = Vec::new();
        let ghost all = self.candidates.deep_view();
        let ghost f = |c: PruneCandidateView|
            if c.delete_remote {
                Some(c.branch)
            } else {
                None
            };
        let mut i: usize = 0;
        proof {
            lemma_kept_ends(all, f);
        }
        assert(r.deep_view() =~= seq![]);
        while i < self.candidates.len()
            invariant
                i <= self.candidates@.len(),
                all == self.candidates.deep_view(),
                f == (|c: PruneCandidateView|
                    if c.delete_remote {
                        Some(c.branch)
                    } else {
                        None
                    }),
                r.deep_view() == kept(all.take(i as int), f),
            decreases self.candidates@.len() - i,
        {
            proof {
                lemma_kept_step(all, i as int, f);
            }
            assert(all[i as int] == self.candidates@[i as int].deep_view());
            let ghost before = r.deep_view();
            if self.candidates[i].delete_remote {
                r.push(self.candidates[i].branch.clone());
                assert(r.deep_view() =~= before.push(self.candidates@[i as int].branch@));
            }
            i += 1;
        }
        r
    }
}

// ── What may go ─────────────────────────────────────────────────────────────

/// The refs that a branch counts as safe in: stable, here and on `origin`,
/// whichever resolve.
pub open spec fn stable_refs(refs: Seq<Seq<char>>, stable: Seq<char>) -> Seq<Seq<char>> {
    let here = if refs.contains(stable) {
        seq![stable]
    } else {
        seq![]
    };
    let there = "origin/"@ + stable;
    if refs.contains(there) {
        here.push(there)
    } else {
        here
    }
}

/// The refs that a branch counts as safe in.
pub fn stable_containment_refs(refs: &Vec<String>, stable: &str) -> (r: Vec<String>)
    ensures
        r.deep_view() == stable_refs(refs.deep_view(), stable@),
{
    let mut r: Vec<String> = Vec::new();
    assert(r.deep_view() =~= seq![]);
    if has_text(refs, stable) {
        r.push(owned(stable));
        assert(r.deep_view() =~= seq![stable@]);
    }
    let there = cat("origin/", stable);
    if has_text(refs, there.as_str()) {
        let ghost before = r.deep_view();
        r.push(there);
        assert(r.deep_view() =~= before.push("origin/"@ + stable@));
    }
    r
}

/// Why a copy was left alone.
#[derive(Debug, Clone, Copy, PartialEq, Eq, Structural)]
pub enum SkipReason {
    /// The local copy is the checked-out branch.
    CheckedOut,
    /// The local tip holds commits found nowhere else.
    LocalUncontained,
    /// The `origin` tip holds commits found nowhere else.
    RemoteUncontained,
}

/// Whether a local copy goes.
pub open spec fn local_goes(
    scope: PruneScope,
    has_local: bool,
    is_current: bool,
    local_contained: bool,
) -> bool {
    scope.local && has_local && !is_current && (scope.force || local_contained)
}

/// Whether an `origin` copy goes.
pub open spec fn remote_goes(scope: PruneScope, has_remote_copy: bool, remote_contained: bool) -> bool {
    scope.remote && has_remote_copy && (scope.force || remote_contained)
}

/// Why copies were left alone, the local one first. What is out of scope or
/// does not exist was not refused.
pub open spec fn refusals(
    scope: PruneScope,
    has_local: bool,
    has_remote_copy: bool,
    is_current: bool,
    local_contained: bool,
    remote_contained: bool,
) -> Seq<SkipReason> {
    let here = if scope.local && has_local && is_current {
        seq![SkipReason::CheckedOut]
    } else if scope.local && has_local && !scope.force && !local_contained {
        seq![SkipReason::LocalUncontained]
    } else {
        seq![]
    };
    if scope.remote && has_remote_copy && !scope.force && !remote_contained {
        here.push(SkipReason::RemoteUncontained)
    } else {
        here
    }
}

/// Decides which copies a deletion may touch. The checked-out branch's local
/// copy never goes, not even by force.
pub fn decide_copies(
    scope: &PruneScope,
    has_local: bool,
    has_remote_copy: bool,
    is_current: bool,
    local_contained: bool,
    remote_contained: bool,
) -> (r: (bool, bool, Vec<SkipReason>))
    ensures
        r.0 == local_goes(*scope, has_local, is_current, local_contained),
        r.1 == remote_goes(*scope, has_remote_copy, remote_contained),
        r.2@ == refusals(
            *scope,
            has_local,
            has_remote_copy,
            is_current,
            local_contained,
            remote_contained,
        ),
{
    let mut skips: Vec<SkipReason> = Vec::new();
    let mut delete_local = false;
    let mut delete_remote = false;
    if scope.local && has_local {
        if is_current {
            skips.push(SkipReason::CheckedOut);
        } else if scope.force || local_contained {
            delete_local = true;
        } else {
            skips.push(SkipReason::LocalUncontained);
        }
    }
    if scope.remote && has_remote_copy {
        if scope.force || remote_contained {
            delete_remote = true;
        } else {
            skips.push(SkipReason::RemoteUncontained);
        }
    }
    assert(skips@ =~= refusals(
        *scope,
        has_local,
        has_remote_copy,
        is_current,
        local_contained,
        remote_contained,
    ));
    (delete_local, delete_remote, skips)
}

/// A refusal in words.
pub open spec fn refusal_text(reason: SkipReason, stable: Seq<char>) -> Seq<char> {
    match reason {
        SkipReason::CheckedOut => "checked out — switch away to delete the local copy"@,
        SkipReason::LocalUncontained => "local tip has commits not in '"@ + stable
            + "' — use --force to delete anyway"@,
        SkipReason::RemoteUncontained => "origin copy has commits not in '"@ + stable
            + "' — use --force to delete anyway"@,
    }
}

fn refusal(reason: SkipReason, stable: &str) -> (r: String)
    ensures
        r@ == refusal_text(reason, stable@),
{
    match reason {
        SkipReason::CheckedOut => {
            "checked out — switch away to delete the local copy".to_owned()
        },
        SkipReason::LocalUncontained => cat3(
            "local tip has commits not in '",
            stable,
            "' — use --force to delete anyway",
        ),
        SkipReason::RemoteUncontained => cat3(
            "origin copy has commits not in '",
            stable,
            "' — use --force to delete anyway",
        ),
    }
}

/// Whether a branch is here, and whether it is on `origin`.
pub open spec fn copies_of(f: PruneFactsView, branch: Seq<char>) -> (bool, bool) {
    (f.refs.contains(branch), f.has_remote && f.refs.contains("origin/"@ + branch))
}

/// The branch as something to delete, if a copy of it goes. `safe` are the refs
/// that the local copy counts as safe in, `remote_safe` those for the `origin`
/// copy.
pub open spec fn candidate_of(
    f: PruneFactsView,
    branch: Seq<char>,
    number: u32,
    scope: PruneScope,
    safe: Seq<Seq<char>>,
    remote_safe: Seq<Seq<char>>,
) -> Option<PruneCandidateView> {
    let (here, there) = copies_of(f, branch);
    let delete_local = local_goes(
        scope,
        here,
        branch == f.current,
        contained(f.ancestry, branch, safe),
    );
    let delete_remote = remote_goes(
        scope,
        there,
        contained(f.ancestry, "origin/"@ + branch, remote_safe),
    );
    if delete_local || delete_remote {
        Some(PruneCandidateView { branch, number, delete_local, delete_remote })
    } else {
        None
    }
}

/// The copies of the branch that are left alone, each with its reason.
pub open spec fn skips_of(
    f: PruneFactsView,
    branch: Seq<char>,
    scope: PruneScope,
    stable: Seq<char>,
    safe: Seq<Seq<char>>,
    remote_safe: Seq<Seq<char>>,
) -> Seq<PruneSkipView> {
    let (here, there) = copies_of(f, branch);
    let reasons = refusals(
        scope,
        here,
        there,
        branch == f.current,
        contained(f.ancestry, branch, safe),
        contained(f.ancestry, "origin/"@ + branch, remote_safe),
    );
    Seq::new(
        reasons.len(),
        |i: int| PruneSkipView { branch, reason: refusal_text(reasons[i], stable) },
    )
}

/// Plans the deletion of one branch, adding a reason for every copy that is
/// left alone.
pub fn plan_branch_deletion(
    branch: &str,
    number: u32,
    scope: &PruneScope,
    stable: &str,
    facts: &PruneFacts,
    safe: &Vec<String>,
    remote_safe: &Vec<String>,
    skipped: &mut Vec<PruneSkip>,
) -> (r: Option<PruneCandidate>)
    ensures
        r.deep_view() == candidate_of(
            facts.deep_view(),
            branch@,
            number,
            *scope,
            safe.deep_view(),
            remote_safe.deep_view(),
        ),
        final(skipped).deep_view() == old(skipped).deep_view() + skips_of(
            facts.deep_view(),
            branch@,
            *scope,
            stable@,
            safe.deep_view(),
            remote_safe.deep_view(),
        ),
{
    let remote_ref = cat("origin/", branch);
    let has_local = has_text(&facts.refs, branch);
    let has_remote_copy = facts.has_remote && has_text(&facts.refs, remote_ref.as_str());
    let is_current = same(branch, facts.current.as_str());
    let local_contained = contained_in(&facts.ancestry, branch, safe);
    let remote_contained = contained_in(&facts.ancestry, remote_ref.as_str(), remote_safe);
    let (delete_local, delete_remote, reasons) = decide_copies(
        scope,
        has_local,
        has_remote_copy,
        is_current,
        local_contained,
        remote_contained,
    );
    let ghost start = skipped.deep_view();
    let ghost all = skips_of(
        facts.deep_view(),
        branch@,
        *scope,
        stable@,
        safe.deep_view(),
        remote_safe.deep_view(),
    );
    let mut i: usize = 0;
    assert(start + all.take(0) =~= start);
    while i < reasons.len()
        invariant
            i <= reasons@.len(),
            all.len() == reasons@.len(),
            forall|k: int|
                0 <= k < reasons@.len() ==> #[trigger] all[k] == (PruneSkipView {
                    branch: branch@,
                    reason: refusal_text(reasons@[k], stable@),
                }),
            skipped.deep_view() == start + all.take(i as int),
        decreases reasons@.len() - i,
    {
        let ghost before = skipped.deep_view();
        let skip = PruneSkip { branch: owned(branch), reason: refusal(reasons[i], stable) };
        let ghost view = skip.deep_view();
        skipped.push(skip);
        assert(skipped.deep_view() =~= before.push(view));
        assert(view == all[i as int]);
        assert(before.push(view) =~= start + all.take(i + 1));
        i += 1;
    }
    assert(all.take(all.len() as int) =~= all);
    if delete_local || delete_remote {
        Some(PruneCandidate { branch: owned(branch), number, delete_local, delete_remote })
    } else {
        None
    }
}

// ── Plans ───────────────────────────────────────────────────────────────────

/// What the rolls to consider come to: those to delete, and those left alone.
pub open spec fn rolls_plan(
    f: PruneFactsView,
    scope: PruneScope,
    stable: Seq<char>,
    rolls: Seq<RollView>,
    picked: spec_fn(RollView) -> bool,
    safe: spec_fn(Seq<char>) -> Seq<Seq<char>>,
) -> (Seq<PruneCandidateView>, Seq<PruneSkipView>)
    decreases rolls.len(),
{
    if rolls.len() == 0 {
        (seq![], seq![])
    } else {
        let (candidates, skipped) = rolls_plan(f, scope, stable, rolls.drop_last(), picked, safe);
        let roll = rolls.last();
        if !picked(roll) {
            (candidates, skipped)
        } else {
            let more = skipped + skips_of(
                f,
                roll.branch,
                scope,
                stable,
                safe(roll.branch),
                safe(roll.branch),
            );
            match candidate_of(
                f,
                roll.branch,
                roll.number,
                scope,
                safe(roll.branch),
                safe(roll.branch),
            ) {
                Some(c) => (candidates.push(c), more),
                None => (candidates, more),
            }
        }
    }
}

/// What a prune deletes: the promoted rolls whose copies are in stable.
pub open spec fn prune_of(f: PruneFactsView, config: ConfigView, scope: PruneScope) -> PrunePlanView {
    let safe = stable_refs(f.refs, config.stable_branch);
    let (candidates, skipped) = rolls_plan(
        f,
        scope,
        config.stable_branch,
        f.rolls,
        |r: RollView| r.state is Promoted,
        |b: Seq<char>| safe,
    );
    PrunePlanView { candidates, skipped, has_remote: f.has_remote }
}

/// Decides what a prune would delete, without deleting anything. Being promoted
/// is not enough: every copy is also held against stable.
pub fn prune_plan(config: &Config, scope: &PruneScope, facts: &PruneFacts) -> (r: PrunePlan)
    ensures
        r.deep_view() == prune_of(facts.deep_view(), config.deep_view(), *scope),
{
    let safe = stable_containment_refs(&facts.refs, config.stable_branch.as_str());
    let ghost all = facts.rolls.deep_view();
    let ghost fv = facts.deep_view();
    let ghost stable = config.stable_branch@;
    let ghost refs = stable_refs(fv.refs, stable);
    let ghost picked = |r: RollView| r.state is Promoted;
    let ghost safe_in = |b: Seq<char>| refs;
    let mut candidates: Vec<PruneCandidate> = Vec::new();
    let mut skipped: Vec<PruneSkip> = Vec::new();
    let mut i: usize = 0;
    assert(candidates.deep_view() =~= seq![]);
    assert(skipped.deep_view() =~= seq![]);
    while i < facts.rolls.len()
        invariant
            i <= facts.rolls@.len(),
            all == facts.rolls.deep_view(),
            fv == facts.deep_view(),
            stable == config.stable_branch@,
            refs == safe.deep_view(),
            picked == (|r: RollView| r.state is Promoted),
            safe_in == (|b: Seq<char>| refs),
            (candidates.deep_view(), skipped.deep_view()) == rolls_plan(
                fv,
                *scope,
                stable,
                all.take(i as int),
                picked,
                safe_in,
            ),
        decreases facts.rolls@.len() - i,
    {
        assert(all.take(i + 1).drop_last() =~= all.take(i as int));
        assert(all[i as int] == facts.rolls@[i as int].deep_view());
        let roll = &facts.rolls[i];
        if matches!(roll.state, RollState::Promoted) {
            let ghost before = candidates.deep_view();
            match plan_branch_deletion(
                roll.branch.as_str(),
                roll.number,
                scope,
                config.stable_branch.as_str(),
                facts,
                &safe,
                &safe,
                &mut skipped,
            ) {
                Some(c) => {
                    let ghost view = c.deep_view();
                    candidates.push(c);
                    assert(candidates.deep_view() =~= before.push(view));
                },
                None => {},
            }
        }
        i += 1;
    }
    assert(all.take(all.len() as int) =~= all);
    PrunePlan { candidates, skipped, has_remote: facts.has_remote }
}

/// The refs that a local roll counts as safe in when it is tidied away: stable,
/// rolling, and its own copy on `origin`, whichever resolve.
pub open spec fn tidy_refs(refs: Seq<Seq<char>>, config: ConfigView, branch: Seq<char>) -> Seq<
    Seq<char>,
> {
    let own = "origin/"@ + branch;
    stable_refs(refs, config.stable_branch) + stable_refs(refs, config.rolling_branch) + (
    if refs.contains(own) {
        seq![own]
    } else {
        seq![]
    })
}

/// Whether a roll has a local branch.
pub open spec fn is_local(location: BranchLocation) -> bool {
    location is Local || location is Both
}

/// What a tidy deletes: the local branches of rolls in the given states.
pub open spec fn tidy_of(
    f: PruneFactsView,
    config: ConfigView,
    scope: PruneScope,
    states: Seq<RollState>,
) -> PrunePlanView {
    let (candidates, skipped) = rolls_plan(
        f,
        scope,
        config.stable_branch,
        f.rolls,
        |r: RollView| states.contains(r.state) && is_local(r.location),
        |b: Seq<char>| tidy_refs(f.refs, config, b),
    );
    PrunePlanView { candidates, skipped, has_remote: f.has_remote }
}

fn refs_for_tidy(refs: &Vec<String>, config: &Config, branch: &str) -> (r: Vec<String>)
    ensures
        r.deep_view() == tidy_refs(refs.deep_view(), config.deep_view(), branch@),
{
    let mut r = stable_containment_refs(refs, config.stable_branch.as_str());
    let ghost start = r.deep_view();
    let more = stable_containment_refs(refs, config.rolling_branch.as_str());
    let ghost added = more.deep_view();
    let mut i: usize = 0;
    assert(start + added.take(0) =~= start);
    while i < more.len()
        invariant
            i <= more@.len(),
            added == more.deep_view(),
            r.deep_view() == start + added.take(i as int),
        decreases more@.len() - i,
    {
        let ghost before = r.deep_view();
        r.push(more[i].clone());
        assert(r.deep_view() =~= before.push(added[i as int]));
        assert(before.push(added[i as int]) =~= start + added.take(i + 1));
        i += 1;
    }
    assert(added.take(added.len() as int) =~= added);
    let own = cat("origin/", branch);
    let ghost before = r.deep_view();
    if has_text(refs, own.as_str()) {
        r.push(own);
        assert(r.deep_view() =~= before + seq!["origin/"@ + branch@]);
    } else {
        assert(before =~= before + Seq::<Seq<char>>::empty());
    }
    r
}

fn has_state(states: &Vec<RollState>, state: RollState) -> (r: bool)
    ensures
        r == states@.contains(state),
{
    let mut i: usize = 0;
    while i < states.len()
        invariant
            i <= states@.len(),
            forall|k: int| 0 <= k < i ==> states@[k] != state,
        decreases states@.len() - i,
    {
        if states[i] == state {
            return true;
        }
        i += 1;
    }
    false
}

/// Decides what a tidy would delete: local branches only, of rolls in the given
/// states.
pub fn tidy_plan(
    config: &Config,
    scope: &PruneScope,
    states: &Vec<RollState>,
    facts: &PruneFacts,
) -> (r: PrunePlan)
    ensures
        r.deep_view() == tidy_of(facts.deep_view(), config.deep_view(), *scope, states@),
{
    let ghost all = facts.rolls.deep_view();
    let ghost fv = facts.deep_view();
    let ghost cv = config.deep_view();
    let ghost ss = states@;
    let ghost picked = |r: RollView| ss.contains(r.state) && is_local(r.location);
    let ghost safe_in = |b: Seq<char>| tidy_refs(fv.refs, cv, b);
    let mut candidates: Vec<PruneCandidate> = Vec::new();
    let mut skipped: Vec<PruneSkip> = Vec::new();
    let mut i: usize = 0;
    assert(candidates.deep_view() =~= seq![]);
    assert(skipped.deep_view() =~= seq![]);
    while i < facts.rolls.len()
        invariant
            i <= facts.rolls@.len(),
            all == facts.rolls.deep_view(),
            fv == facts.deep_view(),
            cv == config.deep_view(),
            ss == states@,
            picked == (|r: RollView| ss.contains(r.state) && is_local(r.location)),
            safe_in == (|b: Seq<char>| tidy_refs(fv.refs, cv, b)),
            (candidates.deep_view(), skipped.deep_view()) == rolls_plan(
                fv,
                *scope,
                cv.stable_branch,
                all.take(i as int),
                picked,
                safe_in,
            ),
        decreases facts.rolls@.len() - i,
    {
        assert(all.take(i + 1).drop_last() =~= all.take(i as int));
        assert(all[i as int] == facts.rolls@[i as int].deep_view());
        let roll = &facts.rolls[i];
        let local = matches!(roll.location, BranchLocation::Local | BranchLocation::Both);
        if has_state(states, roll.state) && local {
            let safe = refs_for_tidy(&facts.refs, config, roll.branch.as_str());
            let ghost before = candidates.deep_view();
            match plan_branch_deletion(
                roll.branch.as_str(),
                roll.number,
                scope,
                config.stable_branch.as_str(),
                facts,
                &safe,
                &safe,
                &mut skipped,
            ) {
                Some(c) => {
                    let ghost view = c.deep_view();
                    candidates.push(c);
                    assert(candidates.deep_view() =~= before.push(view));
                },
                None => {},
            }
        }
        i += 1;
    }
    assert(all.take(all.len() as int) =~= all);
    PrunePlan { candidates, skipped, has_remote: facts.has_remote }
}

/// What deleting one named branch comes to. The workflow branches are refused;
/// a branch with no copy in scope is reported as such.
pub open spec fn deletion_of(
    f: PruneFactsView,
    config: ConfigView,
    branch: Seq<char>,
    scope: PruneScope,
) -> Result<PrunePlanView, Seq<Seq<char>>> {
    if branch == config.stable_branch || branch == config.rolling_branch {
        Err(
            seq![
                "refusing to delete '"@ + branch
                    + "' — it is a workflow branch, not a roll"@,
            ],
        )
    } else {
        let safe = stable_refs(f.refs, config.stable_branch);
        let number = match roll_number(branch, config.roll_prefix) {
            Some(n) => n,
            None => 0u32,
        };
        let skips = skips_of(f, branch, scope, config.stable_branch, safe, safe);
        let plan = match candidate_of(f, branch, number, scope, safe, safe) {
            Some(c) => PrunePlanView {
                candidates: seq![c],
                skipped: skips,
                has_remote: f.has_remote,
            },
            None => PrunePlanView {
                candidates: seq![],
                skipped: if skips.len() == 0 {
                    seq![
                        PruneSkipView {
                            branch,
                            reason: "no matching branch in the requested scope"@,
                        },
                    ]
                } else {
                    skips
                },
                has_remote: f.has_remote,
            },
        };
        Ok(plan)
    }
}

/// Plans the deletion of a single named branch, whatever its state.
pub fn delete_branch_plan(
    config: &Config,
    branch: &str,
    scope: &PruneScope,
    facts: &PruneFacts,
) -> (r: Result<PrunePlan, Failure>)
    ensures
        outcome(r) == deletion_of(facts.deep_view(), config.deep_view(), branch@, *scope),
{
    if same(branch, config.stable_branch.as_str()) || same(
        branch,
        config.rolling_branch.as_str(),
    ) {
        return Err(
            Failure::msg(
                cat3(
                    "refusing to delete '",
                    branch,
                    "' — it is a workflow branch, not a roll",
                ),
            ),
        );
    }
    let safe = stable_containment_refs(&facts.refs, config.stable_branch.as_str());
    let number: u32 = match parse_roll_number(branch, config.roll_prefix.as_str()) {
        Some(n) => n,
        None => 0,
    };
    let mut skipped: Vec<PruneSkip> = Vec::new();
    assert(skipped.deep_view() =~= seq![]);
    let ghost skips = skips_of(
        facts.deep_view(),
        branch@,
        *scope,
        config.stable_branch@,
        safe.deep_view(),
        safe.deep_view(),
    );
    let mut candidates: Vec<PruneCandidate> = Vec::new();
    assert(candidates.deep_view() =~= seq![]);
    let found = plan_branch_deletion(
        branch,
        number,
        scope,
        config.stable_branch.as_str(),
        facts,
        &safe,
        &safe,
        &mut skipped,
    );
    assert(skipped.deep_view() =~= skips);
    match found {
        Some(c) => {
            let ghost view = c.deep_view();
            candidates.push(c);
            assert(candidates.deep_view() =~= seq![view]);
        },
        None => {
            assert(skipped.deep_view().len() == skipped@.len());
            if skipped.is_empty() {
                skipped.push(
                    PruneSkip {
                        branch: owned(branch),
                        reason: "no matching branch in the requested scope".to_owned(),
                    },
                );
                assert(skipped.deep_view() =~= seq![
                    PruneSkipView {
                        branch: branch@,
                        reason: "no matching branch in the requested scope"@,
                    },
                ]);
            }
        },
    }
    Ok(PrunePlan { candidates, skipped, has_remote: facts.has_remote })
}

// ── Applying ────────────────────────────────────────────────────────────────

/// What became of a candidate, given whether the push failed and whether
/// deleting the local copy did.
pub open spec fn pruned(
    c: PruneCandidateView,
    remote_error: Option<Seq<char>>,
    local_error: Option<Seq<char>>,
) -> PruneResultView {
    let here = match local_error {
        Some(e) => if c.delete_local {
            seq![e]
        } else {
            seq![]
        },
        None => seq![],
    };
    let there = match remote_error {
        Some(e) => if c.delete_remote {
            seq![e]
        } else {
            seq![]
        },
        None => seq![],
    };
    PruneResultView {
        branch: c.branch,
        local_deleted: c.delete_local && local_error is None,
        remote_deleted: c.delete_remote && remote_error is None,
        errors: here + there,
    }
}

/// What became of every candidate.
pub open spec fn all_pruned(
    candidates: Seq<PruneCandidateView>,
    remote_error: Option<Seq<char>>,
    local_errors: Seq<Option<Seq<char>>>,
) -> Seq<PruneResultView> {
    Seq::new(candidates.len(), |i: int| pruned(candidates[i], remote_error, local_errors[i]))
}

fn prune_one(c: &PruneCandidate, remote_error: &Option<String>, local_error: &Option<String>) -> (r:
    PruneResult)
    ensures
        r.deep_view() == pruned(c.deep_view(), remote_error.deep_view(), local_error.deep_view()),
{
    let mut errors: Vec<String> = Vec::new();
    let mut local_deleted = false;
    let mut remote_deleted = false;
    if c.delete_local {
        match local_error {
            None => {
                local_deleted = true;
            },
            Some(e) => errors.push(e.clone()),
        }
    }
    if c.delete_remote {
        match remote_error {
            None => {
                remote_deleted = true;
            },
            Some(e) => errors.push(e.clone()),
        }
    }
    let r = PruneResult { branch: c.branch.clone(), local_deleted, remote_deleted, errors };
    assert(r.deep_view().errors =~= pruned(
        c.deep_view(),
        remote_error.deep_view(),
        local_error.deep_view(),
    ).errors);
    r
}

/// Reports what became of a plan. The remote deletions are one push, which
/// fails or succeeds as a whole; the local ones run one by one.
pub fn prune_apply(
    plan: &PrunePlan,
    remote_error: &Option<String>,
    local_errors: &Vec<Option<String>>,
) -> (r: Vec<PruneResult>)
    requires
        local_errors@.len() == plan.candidates@.len(),
    ensures
        r.deep_view() == all_pruned(
            plan.deep_view().candidates,
            remote_error.deep_view(),
            local_errors.deep_view(),
        ),
{
    let mut r: Vec<PruneResult> = Vec::new();
    let ghost done = all_pruned(
        plan.deep_view().candidates,
        remote_error.deep_view(),
        local_errors.deep_view(),
    );
    let mut i: usize = 0;
    while i < plan.candidates.len()
        invariant
            i <= plan.candidates@.len(),
            local_errors@.len() == plan.candidates@.len(),
            done == all_pruned(
                plan.deep_view().candidates,
                remote_error.deep_view(),
                local_errors.deep_view(),
            ),
            r@.len() == i,
            forall|k: int| 0 <= k < i ==> (#[trigger] r@[k]).deep_view() == done[k],
        decreases plan.candidates@.len() - i,
    {
        assert(plan.deep_view().candidates[i as int] == plan.candidates@[i as int].deep_view());
        r.push(prune_one(&plan.candidates[i], remote_error, &local_errors[i]));
        i += 1;
    }
    assert(r.deep_view() =~= done);
    r
}

/// How many commits each copy of a branch holds that stable lacks: nothing is
/// known of a copy that does not exist, or whose commits could not be counted.
pub fn unmerged_commit_counts(
    refs: &Vec<String>,
    branch: &str,
    local_count: Option<u32>,
    remote_count: Option<u32>,
) -> (r: (Option<u32>, Option<u32>))
    ensures
        r.0 == (if refs.deep_view().contains(branch@) {
            local_count
        } else {
            None
        }),
        r.1 == (if refs.deep_view().contains("origin/"@ + branch@) {
            remote_count
        } else {
            None
        }),
{
    let remote_ref = cat("origin/", branch);
    let local = if has_text(refs, branch) {
        local_count
    } else {
        None
    };
    let remote = if has_text(refs, remote_ref.as_str()) {
        remote_count
    } else {
        None
    };
    (local, remote)
}

// ── Laws ────────────────────────────────────────────────────────────────────

/// The checked-out branch's local copy is never deleted, by force or otherwise.
pub proof fn law_force_spares_the_checked_out_branch(
    scope: PruneScope,
    has_local: bool,
    local_contained: bool,
)
    ensures
        !local_goes(scope, has_local, true, local_contained),
{
}

/// Without force, a copy only goes if it is contained; out of scope, it neither
/// goes nor is refused.
pub proof fn law_copies_go_in_scope_only(
    scope: PruneScope,
    has_local: bool,
    has_remote_copy: bool,
    is_current: bool,
    local_contained: bool,
    remote_contained: bool,
)
    ensures
        local_goes(scope, has_local, is_current, local_contained) ==> scope.local && has_local && (
        scope.force || local_contained),
        remote_goes(scope, has_remote_copy, remote_contained) ==> scope.remote && has_remote_copy
            && (scope.force || remote_contained),
        !(scope.local && has_local) ==> !refusals(
            scope,
            has_local,
            has_remote_copy,
            is_current,
            local_contained,
            remote_contained,
        ).contains(SkipReason::CheckedOut) && !refusals(
            scope,
            has_local,
            has_remote_copy,
            is_current,
            local_contained,
            remote_contained,
        ).contains(SkipReason::LocalUncontained),
        !(scope.remote && has_remote_copy) ==> !refusals(
            scope,
            has_local,
            has_remote_copy,
            is_current,
            local_contained,
            remote_contained,
        ).contains(SkipReason::RemoteUncontained),
{
}

/// Nothing is skipped silently: a copy in scope either goes or is refused with
/// a reason, never both.
pub proof fn law_every_copy_goes_or_is_explained(
    scope: PruneScope,
    has_local: bool,
    has_remote_copy: bool,
    is_current: bool,
    local_contained: bool,
    remote_contained: bool,
)
    ensures
        ({
            let reasons = refusals(
                scope,
                has_local,
                has_remote_copy,
                is_current,
                local_contained,
                remote_contained,
            );
            let refused_here = reasons.contains(SkipReason::CheckedOut) || reasons.contains(
                SkipReason::LocalUncontained,
            );
            &&& scope.local && has_local ==> (refused_here <==> !local_goes(
                scope,
                has_local,
                is_current,
                local_contained,
            ))
            &&& scope.remote && has_remote_copy ==> (reasons.contains(
                SkipReason::RemoteUncontained,
            ) <==> !remote_goes(scope, has_remote_copy, remote_contained))
        }),
{
    let reasons = refusals(
        scope,
        has_local,
        has_remote_copy,
        is_current,
        local_contained,
        remote_contained,
    );
    if scope.local && has_local && is_current {
        assert(reasons[0] == SkipReason::CheckedOut);
    } else if scope.local && has_local && !scope.force && !local_contained {
        assert(reasons[0] == SkipReason::LocalUncontained);
    }
    if scope.remote && has_remote_copy && !scope.force && !remote_contained {
        assert(reasons.last() == SkipReason::RemoteUncontained);
    }
}

/// What a plan over rolls deletes is one of the picked rolls, its copies exist,
/// the local one is not checked out, and without force each is contained.
proof fn lemma_rolls_plan(
    f: PruneFactsView,
    scope: PruneScope,
    stable: Seq<char>,
    rolls: Seq<RollView>,
    picked: spec_fn(RollView) -> bool,
    safe: spec_fn(Seq<char>) -> Seq<Seq<char>>,
    c: PruneCandidateView,
)
    requires
        rolls_plan(f, scope, stable, rolls, picked, safe).0.contains(c),
    ensures
        exists|i: int|
            0 <= i < rolls.len() && picked(#[trigger] rolls[i]) && rolls[i].branch == c.branch
                && candidate_of(
                f,
                c.branch,
                rolls[i].number,
                scope,
                safe(c.branch),
                safe(c.branch),
            ) == Some(c),
    decreases rolls.len(),
{
    let plan = rolls_plan(f, scope, stable, rolls, picked, safe).0;
    let j = choose|j: int| 0 <= j < plan.len() && plan[j] == c;
    let before = rolls_plan(f, scope, stable, rolls.drop_last(), picked, safe).0;
    if j < before.len() {
        assert(before[j] == c);
        lemma_rolls_plan(f, scope, stable, rolls.drop_last(), picked, safe, c);
        let i = choose|i: int|
            0 <= i < rolls.drop_last().len() && picked(#[trigger] rolls.drop_last()[i])
                && rolls.drop_last()[i].branch == c.branch && candidate_of(
                f,
                c.branch,
                rolls.drop_last()[i].number,
                scope,
                safe(c.branch),
                safe(c.branch),
            ) == Some(c);
        assert(rolls[i] == rolls.drop_last()[i]);
    } else {
        assert(rolls[rolls.len() - 1] == rolls.last());
    }
}

/// A prune only deletes promoted rolls. It never deletes the local copy of the
/// checked-out branch, and without force it deletes no copy that holds a commit
/// outside stable.
pub proof fn law_prune_is_safe(
    f: PruneFactsView,
    config: ConfigView,
    scope: PruneScope,
    c: PruneCandidateView,
)
    requires
        prune_of(f, config, scope).candidates.contains(c),
    ensures
        exists|i: int|
            0 <= i < f.rolls.len() && (#[trigger] f.rolls[i]).branch == c.branch
                && f.rolls[i].state is Promoted,
        c.delete_local ==> c.branch != f.current && f.refs.contains(c.branch),
        c.delete_remote ==> f.has_remote && f.refs.contains("origin/"@ + c.branch),
        !scope.force && c.delete_local ==> contained(
            f.ancestry,
            c.branch,
            stable_refs(f.refs, config.stable_branch),
        ),
        !scope.force && c.delete_remote ==> contained(
            f.ancestry,
            "origin/"@ + c.branch,
            stable_refs(f.refs, config.stable_branch),
        ),
{
    let safe = stable_refs(f.refs, config.stable_branch);
    lemma_rolls_plan(
        f,
        scope,
        config.stable_branch,
        f.rolls,
        |r: RollView| r.state is Promoted,
        |b: Seq<char>| safe,
        c,
    );
}

/// A tidy never touches `origin`, and without force never deletes a branch whose
/// commits are in none of stable, rolling and its own copy on `origin`.
pub proof fn law_tidy_is_local_and_safe(
    f: PruneFactsView,
    config: ConfigView,
    states: Seq<RollState>,
    force: bool,
    c: PruneCandidateView,
)
    requires
        tidy_of(
            f,
            config,
            (PruneScope { local: true, remote: false, force, fetch: false }),
            states,
        ).candidates.contains(c),
    ensures
        !c.delete_remote,
        c.delete_local,
        c.branch != f.current,
        !force ==> contained(f.ancestry, c.branch, tidy_refs(f.refs, config, c.branch)),
        exists|i: int|
            0 <= i < f.rolls.len() && (#[trigger] f.rolls[i]).branch == c.branch
                && states.contains(f.rolls[i].state) && is_local(f.rolls[i].location),
{
    lemma_rolls_plan(
        f,
        (PruneScope { local: true, remote: false, force, fetch: false }),
        config.stable_branch,
        f.rolls,
        |r: RollView| states.contains(r.state) && is_local(r.location),
        |b: Seq<char>| tidy_refs(f.refs, config, b),
        c,
    );
}

/// A workflow branch is never deleted by name.
pub proof fn law_workflow_branches_are_kept(
    f: PruneFactsView,
    config: ConfigView,
    branch: Seq<char>,
    scope: PruneScope,
)
    ensures
        deletion_of(f, config, branch, scope) is Err <==> branch == config.stable_branch || branch
            == config.rolling_branch,
{
}

/// Whether git calls `tip` an ancestor of the branch `of`, here or on `origin`.
pub open spec fn held_by(f: PruneFactsView, tip: Seq<char>, of: Seq<char>) -> bool {
    ||| f.refs.contains(of) && f.ancestry.contains((tip, of))
    ||| f.refs.contains("origin/"@ + of) && f.ancestry.contains((tip, "origin/"@ + of))
}

proof fn lemma_held_by(f: PruneFactsView, tip: Seq<char>, of: Seq<char>)
    ensures
        contained(f.ancestry, tip, stable_refs(f.refs, of)) == held_by(f, tip, of),
{
    let refs = stable_refs(f.refs, of);
    let there = "origin/"@ + of;
    if held_by(f, tip, of) {
        if f.refs.contains(of) && f.ancestry.contains((tip, of)) {
            assert(refs[0] == of);
        } else {
            assert(refs[refs.len() - 1] == there);
        }
    }
    if contained(f.ancestry, tip, refs) {
        let k = choose|k: int| 0 <= k < refs.len() && f.ancestry.contains((tip, #[trigger] refs[k]));
        assert(refs[k] == of || refs[k] == there);
    }
}

proof fn lemma_tidy_refs(f: PruneFactsView, config: ConfigView, branch: Seq<char>)
    ensures
        contained(f.ancestry, branch, tidy_refs(f.refs, config, branch)) <==> held_by(
            f,
            branch,
            config.stable_branch,
        ) || held_by(f, branch, config.rolling_branch) || (f.refs.contains("origin/"@ + branch)
            && f.ancestry.contains((branch, "origin/"@ + branch))),
{
    let a = stable_refs(f.refs, config.stable_branch);
    let b = stable_refs(f.refs, config.rolling_branch);
    let own = "origin/"@ + branch;
    let c: Seq<Seq<char>> = if f.refs.contains(own) {
        seq![own]
    } else {
        seq![]
    };
    let all = tidy_refs(f.refs, config, branch);
    assert(all =~= a + b + c);
    lemma_held_by(f, branch, config.stable_branch);
    lemma_held_by(f, branch, config.rolling_branch);
    if contained(f.ancestry, branch, a) {
        let k = choose|k: int| 0 <= k < a.len() && f.ancestry.contains((branch, #[trigger] a[k]));
        assert(all[k] == a[k]);
    }
    if contained(f.ancestry, branch, b) {
        let k = choose|k: int| 0 <= k < b.len() && f.ancestry.contains((branch, #[trigger] b[k]));
        assert(all[a.len() + k] == b[k]);
    }
    if f.refs.contains(own) && f.ancestry.contains((branch, own)) {
        assert(all[(a.len() + b.len()) as int] == own);
    }
    if contained(f.ancestry, branch, all) {
        let k = choose|k: int|
            0 <= k < all.len() && f.ancestry.contains((branch, #[trigger] all[k]));
        if k < a.len() {
            assert(a[k] == all[k]);
        } else if k < a.len() + b.len() {
            assert(b[k - a.len()] == all[k]);
        } else {
            assert(all[k] == own);
        }
    }
}

proof fn lemma_picked_rolls_go(
    f: PruneFactsView,
    scope: PruneScope,
    stable: Seq<char>,
    rolls: Seq<RollView>,
    picked: spec_fn(RollView) -> bool,
    safe: spec_fn(Seq<char>) -> Seq<Seq<char>>,
    i: int,
    c: PruneCandidateView,
)
    requires
        0 <= i < rolls.len(),
        picked(rolls[i]),
        candidate_of(
            f,
            rolls[i].branch,
            rolls[i].number,
            scope,
            safe(rolls[i].branch),
            safe(rolls[i].branch),
        ) == Some(c),
    ensures
        rolls_plan(f, scope, stable, rolls, picked, safe).0.contains(c),
    decreases rolls.len(),
{
    let out = rolls_plan(f, scope, stable, rolls, picked, safe).0;
    let rest = rolls.drop_last();
    let before = rolls_plan(f, scope, stable, rest, picked, safe).0;
    if i == rolls.len() - 1 {
        assert(out[out.len() - 1] == c);
    } else {
        assert(rest[i] == rolls[i]);
        lemma_picked_rolls_go(f, scope, stable, rest, picked, safe, i, c);
        let k = choose|k: int| 0 <= k < before.len() && before[k] == c;
        assert(out[k] == c);
    }
}

/// A prune deletes each copy of a promoted roll that is in scope, that exists and
/// that stable holds, here or on `origin`; by force also the copies that stable
/// lacks. The local copy stays where it is checked out.
pub proof fn law_prune_takes_what_stable_has(
    f: PruneFactsView,
    config: ConfigView,
    scope: PruneScope,
    i: int,
)
    requires
        0 <= i < f.rolls.len(),
        f.rolls[i].state is Promoted,
    ensures
        ({
            let branch = f.rolls[i].branch;
            let copy = "origin/"@ + branch;
            let delete_local = scope.local && f.refs.contains(branch) && branch != f.current && (
            scope.force || held_by(f, branch, config.stable_branch));
            let delete_remote = scope.remote && f.has_remote && f.refs.contains(copy) && (
            scope.force || held_by(f, copy, config.stable_branch));
            delete_local || delete_remote ==> prune_of(f, config, scope).candidates.contains(
                PruneCandidateView {
                    branch,
                    number: f.rolls[i].number,
                    delete_local,
                    delete_remote,
                },
            )
        }),
{
    let branch = f.rolls[i].branch;
    let copy = "origin/"@ + branch;
    let safe = stable_refs(f.refs, config.stable_branch);
    lemma_held_by(f, branch, config.stable_branch);
    lemma_held_by(f, copy, config.stable_branch);
    let picked = |r: RollView| r.state is Promoted;
    let refs = |b: Seq<char>| safe;
    match candidate_of(f, branch, f.rolls[i].number, scope, safe, safe) {
        Some(c) => {
            lemma_picked_rolls_go(
                f,
                scope,
                config.stable_branch,
                f.rolls,
                picked,
                refs,
                i,
                c,
            );
        },
        None => {},
    }
}

/// What a prune deletes is a promoted roll's, in scope, and not the checked-out
/// copy; without force stable holds it, here or on `origin`.
pub proof fn law_prune_takes_nothing_else(
    f: PruneFactsView,
    config: ConfigView,
    scope: PruneScope,
    c: PruneCandidateView,
)
    requires
        prune_of(f, config, scope).candidates.contains(c),
    ensures
        exists|i: int|
            0 <= i < f.rolls.len() && (#[trigger] f.rolls[i]).branch == c.branch
                && f.rolls[i].state is Promoted && f.rolls[i].number == c.number,
        c.delete_local || c.delete_remote,
        c.delete_local ==> scope.local && f.refs.contains(c.branch) && c.branch != f.current && (
        scope.force || held_by(f, c.branch, config.stable_branch)),
        c.delete_remote ==> scope.remote && f.has_remote && f.refs.contains("origin/"@ + c.branch)
            && (scope.force || held_by(f, "origin/"@ + c.branch, config.stable_branch)),
{
    let safe = stable_refs(f.refs, config.stable_branch);
    let picked = |r: RollView| r.state is Promoted;
    let refs = |b: Seq<char>| safe;
    lemma_rolls_plan(f, scope, config.stable_branch, f.rolls, picked, refs, c);
    lemma_held_by(f, c.branch, config.stable_branch);
    lemma_held_by(f, "origin/"@ + c.branch, config.stable_branch);
}

/// A tidy deletes the local copy of every roll in one of the given states that has
/// one, that is not checked out, and whose commits are also in stable, in rolling
/// or in its own copy on `origin`; by force whatever its commits are in.
pub proof fn law_tidy_takes_what_is_kept_elsewhere(
    f: PruneFactsView,
    config: ConfigView,
    states: Seq<RollState>,
    force: bool,
    i: int,
)
    requires
        0 <= i < f.rolls.len(),
        states.contains(f.rolls[i].state),
        f.rolls[i].location is Local || f.rolls[i].location is Both,
        f.refs.contains(f.rolls[i].branch),
        f.rolls[i].branch != f.current,
        force || held_by(f, f.rolls[i].branch, config.stable_branch) || held_by(
            f,
            f.rolls[i].branch,
            config.rolling_branch,
        ) || (f.refs.contains("origin/"@ + f.rolls[i].branch) && f.ancestry.contains(
            (f.rolls[i].branch, "origin/"@ + f.rolls[i].branch),
        )),
    ensures
        tidy_of(
            f,
            config,
            (PruneScope { local: true, remote: false, force, fetch: false }),
            states,
        ).candidates.contains(
            PruneCandidateView {
                branch: f.rolls[i].branch,
                number: f.rolls[i].number,
                delete_local: true,
                delete_remote: false,
            },
        ),
{
    let branch = f.rolls[i].branch;
    let scope = PruneScope { local: true, remote: false, force, fetch: false };
    lemma_tidy_refs(f, config, branch);
    let picked = |r: RollView| states.contains(r.state) && is_local(r.location);
    let refs = |b: Seq<char>| tidy_refs(f.refs, config, b);
    let c = PruneCandidateView {
        branch,
        number: f.rolls[i].number,
        delete_local: true,
        delete_remote: false,
    };
    lemma_picked_rolls_go(f, scope, config.stable_branch, f.rolls, picked, refs, i, c);
}

/// What a tidy deletes is the local copy of a roll in one of the given states that
/// has one; without force its commits are in stable, in rolling or in its own copy
/// on `origin`.
pub proof fn law_tidy_takes_nothing_else(
    f: PruneFactsView,
    config: ConfigView,
    states: Seq<RollState>,
    force: bool,
    c: PruneCandidateView,
)
    requires
        tidy_of(
            f,
            config,
            (PruneScope { local: true, remote: false, force, fetch: false }),
            states,
        ).candidates.contains(c),
    ensures
        exists|i: int|
            0 <= i < f.rolls.len() && (#[trigger] f.rolls[i]).branch == c.branch && states.contains(
                f.rolls[i].state,
            ) && (f.rolls[i].location is Local || f.rolls[i].location is Both),
        c.delete_local && !c.delete_remote,
        c.branch != f.current,
        force || held_by(f, c.branch, config.stable_branch) || held_by(
            f,
            c.branch,
            config.rolling_branch,
        ) || (f.refs.contains("origin/"@ + c.branch) && f.ancestry.contains(
            (c.branch, "origin/"@ + c.branch),
        )),
{
    law_tidy_is_local_and_safe(f, config, states, force, c);
    lemma_tidy_refs(f, config, c.branch);
}

/// Deleting a branch by name touches that branch alone: each copy in scope that
/// exists goes where stable holds it or force is given, except a checked-out one.
/// What is left alone is mentioned.
pub proof fn law_named_deletion_takes_that_branch(
    f: PruneFactsView,
    config: ConfigView,
    branch: Seq<char>,
    scope: PruneScope,
)
    requires
        branch != config.stable_branch,
        branch != config.rolling_branch,
    ensures
        ({
            let r = deletion_of(f, config, branch, scope);
            let copy = "origin/"@ + branch;
            let delete_local = scope.local && f.refs.contains(branch) && branch != f.current && (
            scope.force || held_by(f, branch, config.stable_branch));
            let delete_remote = scope.remote && f.has_remote && f.refs.contains(copy) && (
            scope.force || held_by(f, copy, config.stable_branch));
            &&& r matches Ok(plan)
            &&& delete_local || delete_remote ==> plan.candidates.len() == 1
                && plan.candidates[0].branch == branch && plan.candidates[0].delete_local
                == delete_local && plan.candidates[0].delete_remote == delete_remote
            &&& !delete_local && !delete_remote ==> plan.candidates.len() == 0 && plan.skipped.len()
                > 0
            &&& forall|k: int|
                0 <= k < plan.skipped.len() ==> (#[trigger] plan.skipped[k]).branch == branch
        }),
{
    lemma_held_by(f, branch, config.stable_branch);
    lemma_held_by(f, "origin/"@ + branch, config.stable_branch);
}

/// What became of a candidate: a copy counts as deleted exactly when it was to go
/// and its deletion did not fail, and every failure of one is among the errors.
pub proof fn law_pruned_copies_are_told(
    c: PruneCandidateView,
    remote_error: Option<Seq<char>>,
    local_error: Option<Seq<char>>,
)
    ensures
        ({
            let r = pruned(c, remote_error, local_error);
            &&& r.branch == c.branch
            &&& r.local_deleted <==> c.delete_local && local_error is None
            &&& r.remote_deleted <==> c.delete_remote && remote_error is None
            &&& c.delete_local && local_error is Some ==> r.errors.contains(local_error->0)
            &&& c.delete_remote && remote_error is Some ==> r.errors.contains(remote_error->0)
            &&& (!c.delete_local || local_error is None) && (!c.delete_remote
                || remote_error is None) ==> r.errors.len() == 0
        }),
{
    let r = pruned(c, remote_error, local_error);
    if r.errors.len() > 0 {
        assert(r.errors.contains(r.errors[0]));
        assert(r.errors.contains(r.errors[r.errors.len() - 1]));
    }
}

/// The push that deletes copies on `origin` names exactly the branches whose copy
/// there goes.
pub proof fn law_pushes_name_the_remote_copies(
    candidates: Seq<PruneCandidateView>,
    branch: Seq<char>,
)
    ensures
        remote_names(candidates).contains(branch) <==> exists|i: int|
            0 <= i < candidates.len() && (#[trigger] candidates[i]).branch == branch
                && candidates[i].delete_remote,
{
    let g = |c: PruneCandidateView|
        if c.delete_remote {
            Some(c.branch)
        } else {
            None
        };
    lemma_kept_contains(candidates, g, branch);
    if remote_names(candidates).contains(branch) {
        let i = choose|i: int| 0 <= i < candidates.len() && g(#[trigger] candidates[i]) == Some(
            branch,
        );
        assert(candidates[i].branch == branch);
    }
    if exists|i: int|
        0 <= i < candidates.len() && (#[trigger] candidates[i]).branch == branch
            && candidates[i].delete_remote {
        let i = choose|i: int|
            0 <= i < candidates.len() && (#[trigger] candidates[i]).branch == branch
                && candidates[i].delete_remote;
        assert(g(candidates[i]) == Some(branch));
    }
}

} // verus!
