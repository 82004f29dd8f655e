//! Carrying rolls along: into rolling, on to stable, and back up to date.
use vstd::prelude::*;

use crate::branches::{BranchLocation, RollInfo, RollState, RollView};
use crate::config::{Config, ConfigView};
use crate::failure::{outcome, Failure};
use crate::num::{decimal, law_decimal_reads_back, number_in, parse_number, to_decimal};
use crate::ops::gates::{
    failing_hosts, law_failing_hosts_have_failures, trailer_of, ForceOpts, GateBypass, GateNotice, GateNoticeView, GateReport,
    HostReport, HostResult, HostResultView,
};
use crate::ops::merge::{filled_line, MergeRun, MergeRunView, StageView};
use crate::ops::prune::is_local;
use crate::ops::release::{TagOutcome, TagOutcomeView};
use crate::ops::route::{
    check_merge, ensure_local_target, local_target, viable, LocalTarget, LocalTargetView,
    MergeFacts, MergeFactsView, MergeVerb,
};
use crate::seqs::{
    by_rank, kept, lemma_by_rank, lemma_kept_contains, lemma_kept_ends, lemma_kept_step, lemma_placed_before, placed_at,
    unranked,
};
use crate::text::{
    cat, cat3, cat4, cat5, copy_opt, has_text, join, joined, lines, lines_of, owned, same, trim,
    trimmed,
};
use crate::version::VersionCheck;

verus! {

// ── Graduating ──────────────────────────────────────────────────────────────

/// A graduation that may go ahead.
#[derive(Debug)]
pub struct GraduatePlan {
    pub roll: String,
    pub rolling: String,
    /// How the rolling branch becomes usable.
    pub target: LocalTarget,
}

/// [`GraduatePlan`] by its characters.
pub struct GraduatePlanView {
    pub roll: Seq<char>,
    pub rolling: Seq<char>,
    pub target: LocalTargetView,
}

impl DeepView for GraduatePlan {
    type V = GraduatePlanView;

    open spec fn deep_view(&self) -> GraduatePlanView {
        GraduatePlanView {
            roll: self.roll@,
            rolling: self.rolling@,
            target: self.target.deep_view(),
        }
    }
}

/// Whether `roll` may graduate, and into what. `promoted` says whether it
/// already reached stable; `local` and `on_origin` where rolling exists.
pub open spec fn graduation(
    config: ConfigView,
    roll: Seq<char>,
    promoted: bool,
    local: bool,
    on_origin: bool,
    dry_run: bool,
    f: MergeFactsView,
) -> Result<GraduatePlanView, Seq<Seq<char>>> {
    let rolling = config.rolling_branch;
    if promoted {
        Err(
            seq![
                "'"@ + roll + "' has already been promoted to '"@ + config.stable_branch + "'"@,
            ],
        )
    } else {
        match local_target(rolling, local, on_origin, dry_run) {
            Err(e) => Err(e),
            Ok(target) => match viable(MergeVerb::Graduate, roll, rolling, on_origin, f) {
                Err(e) => Err(e),
                Ok(_) => Ok(GraduatePlanView { roll, rolling, target }),
            },
        }
    }
}

/// Decides whether a roll may graduate into the rolling branch.
pub fn graduate(
    config: &Config,
    roll: &str,
    promoted: bool,
    local: bool,
    on_origin: bool,
    dry_run: bool,
    facts: &MergeFacts,
) -> (r: Result<GraduatePlan, Failure>)
    ensures
        outcome(r) == graduation(
            config.deep_view(),
            roll@,
            promoted,
            local,
            on_origin,
            dry_run,
            facts.deep_view(),
        ),
{
    if promoted {
        return Err(
            Failure::msg(
                cat5(
                    "'",
                    roll,
                    "' has already been promoted to '",
                    config.stable_branch.as_str(),
                    "'",
                ),
            ),
        );
    }
    let rolling = config.rolling_branch.as_str();
    match ensure_local_target(rolling, local, on_origin, dry_run) {
        Err(e) => Err(e),
        Ok(target) => match check_merge(MergeVerb::Graduate, roll, rolling, on_origin, facts) {
            Err(e) => Err(e),
            Ok(_) => Ok(
                GraduatePlan { roll: owned(roll), rolling: config.rolling_branch.clone(), target },
            ),
        },
    }
}

/// The subject of the merge that graduates a roll.
pub open spec fn graduation_subject(roll: Seq<char>, rolling: Seq<char>) -> Seq<char> {
    "Graduate "@ + roll + " into "@ + rolling
}

/// The merge that graduates a roll once its gates have passed: what was
/// bypassed is recorded in its message.
pub fn graduation_merge(
    roll: &str,
    rolling: &str,
    original: &str,
    force: &ForceOpts,
    report: &GateReport,
) -> (r: MergeRun)
    ensures
        r.deep_view() == (MergeRunView {
            source: roll@,
            target: rolling@,
            original: original@,
            subject: graduation_subject(roll@, rolling@),
            body: trailer_of(report.deep_view().bypassed, force.reason.deep_view()),
            gated: false,
            stage: StageView::Checkout,
        }),
{
    let subject = cat4("Graduate ", roll, " into ", rolling);
    let body = force.trailer(&report.bypassed);
    MergeRun::plain(roll, rolling, original, subject.as_str(), body)
}

// ── Promoting ───────────────────────────────────────────────────────────────

/// What a promotion carries to stable. Either way what is merged is on the
/// rolling branch; a roll's own branch never is.
#[derive(Debug)]
pub enum PromoteTarget {
    /// All of rolling, in one merge.
    Rolling,
    /// Named graduated rolls, one merge for each.
    Rolls(Vec<String>),
}

/// A named roll that needed no promotion, and why.
#[derive(Debug)]
pub struct SkippedRoll {
    pub roll: String,
    pub reason: String,
}

/// [`SkippedRoll`] by its characters.
pub struct SkippedRollView {
    pub roll: Seq<char>,
    pub reason: Seq<char>,
}

impl DeepView for SkippedRoll {
    type V = SkippedRollView;

    open spec fn deep_view(&self) -> SkippedRollView {
        SkippedRollView {
            roll: self.roll@,
            reason: self.reason@,
        }
    }
}

/// A merge that is ready to be made.
#[derive(Debug)]
pub struct PlannedStep {
    /// The roll it promotes; none where all of rolling is.
    pub roll: Option<String>,
    pub source: String,
    pub subject: String,
    pub body: Option<String>,
}

/// [`PlannedStep`] by its characters.
pub struct PlannedStepView {
    pub roll: Option<Seq<char>>,
    pub source: Seq<char>,
    pub subject: Seq<char>,
    pub body: Option<Seq<char>>,
}

impl DeepView for PlannedStep {
    type V = PlannedStepView;

    open spec fn deep_view(&self) -> PlannedStepView {
        PlannedStepView {
            roll: self.roll.deep_view(),
            source: self.source@,
            subject: self.subject@,
            body: self.body.deep_view(),
        }
    }
}

/// The merges of a promotion, and the rolls that need none.
#[derive(Debug)]
pub struct PromotePlan {
    pub steps: Vec<PlannedStep>,
    pub skipped: Vec<SkippedRoll>,
}

/// [`PromotePlan`] by its characters.
pub struct PromotePlanView {
    pub steps: Seq<PlannedStepView>,
    pub skipped: Seq<SkippedRollView>,
}

impl DeepView for PromotePlan {
    type V = PromotePlanView;

    open spec fn deep_view(&self) -> PromotePlanView {
        PromotePlanView {
            steps: self.steps.deep_view(),
            skipped: self.skipped.deep_view(),
        }
    }
}

/// The rolls that a whole promotion includes: those on rolling, not on stable.
pub open spec fn included_rolls(rolls: Seq<RollView>) -> Seq<Seq<char>> {
    kept(
        rolls,
        |r: RollView|
            if r.state is Graduated || r.state is Diverged {
                Some(r.branch)
            } else {
                None
            },
    )
}

/// The names, one to an indented line.
pub open spec fn listed(names: Seq<Seq<char>>) -> Seq<char>
    decreases names.len(),
{
    if names.len() == 0 {
        seq![]
    } else {
        listed(names.drop_last()) + "  "@ + names.last() + "\n"@
    }
}

/// The subject of a whole promotion: it names the roll where exactly one is
/// included.
pub open spec fn promotion_subject(config: ConfigView, rolls: Seq<RollView>) -> Seq<char> {
    let included = included_rolls(rolls);
    "Promote "@ + (if included.len() == 1 {
        included[0]
    } else {
        config.rolling_branch
    }) + " to "@ + config.stable_branch
}

/// The body of a whole promotion: the rolls it includes.
pub open spec fn promotion_body(rolls: Seq<RollView>) -> Option<Seq<char>> {
    let included = included_rolls(rolls);
    if included.len() == 0 {
        None
    } else {
        Some("Rolls:\n"@ + listed(included))
    }
}

/// The subject and body of a whole promotion.
pub fn promote_subject_and_body(config: &Config, rolls: &Vec<RollInfo>) -> (r: (
    String,
    Option<String>,
))
    ensures
        r.0@ == promotion_subject(config.deep_view(), rolls.deep_view()),
        r.1.deep_view() == promotion_body(rolls.deep_view()),
{
    let ghost all = rolls.deep_view();
    let ghost f = |r: RollView|
        if r.state is Graduated || r.state is Diverged {
            Some(r.branch)
        } else {
            None
        };
    let mut included: Vec<String> = Vec::new();
    let mut i: usize = 0;
    proof {
        lemma_kept_ends(all, f);
    }
    assert(included.deep_view() =~= seq![]);
    while i < rolls.len()
        invariant
            i <= rolls@.len(),
            all == rolls.deep_view(),
            f == (|r: RollView|
                if r.state is Graduated || r.state is Diverged {
                    Some(r.branch)
                } else {
                    None
                }),
            included.deep_view() == kept(all.take(i as int), f),
        decreases rolls@.len() - i,
    {
        proof {
            lemma_kept_step(all, i as int, f);
        }
        assert(all[i as int] == rolls@[i as int].deep_view());
        let ghost before = included.deep_view();
        if matches!(rolls[i].state, RollState::Graduated | RollState::Diverged) {
            included.push(rolls[i].branch.clone());
            assert(included.deep_view() =~= before.push(rolls@[i as int].branch@));
        }
        i += 1;
    }
    let ghost names = included.deep_view();
    assert(names == included_rolls(all));
    assert(names.len() == included@.len());
    let what = if included.len() == 1 {
        included[0].clone()
    } else {
        config.rolling_branch.clone()
    };
    let subject = cat4("Promote ", what.as_str(), " to ", config.stable_branch.as_str());
    if included.is_empty() {
        return (subject, None);
    }
    let mut body = "Rolls:\n".to_owned();
    let mut k: usize = 0;
    assert(body@ =~= "Rolls:\n"@ + listed(names.take(0)));
    while k < included.len()
        invariant
            k <= included@.len(),
            names == included.deep_view(),
            body@ == "Rolls:\n"@ + listed(names.take(k as int)),
        decreases included@.len() - k,
    {
        assert(names.take(k + 1).drop_last() =~= names.take(k as int));
        let line = cat3("  ", included[k].as_str(), "\n");
        body.append(line.as_str());
        assert(body@ =~= "Rolls:\n"@ + listed(names.take(k + 1)));
        k += 1;
    }
    assert(names.take(names.len() as int) =~= names);
    (subject, Some(body))
}

/// The single step of a whole promotion, or why it cannot be made.
pub open spec fn rolling_step(
    config: ConfigView,
    rolls: Seq<RollView>,
    on_origin: bool,
    f: MergeFactsView,
) -> Result<PlannedStepView, Seq<Seq<char>>> {
    match viable(
        MergeVerb::Promote,
        config.rolling_branch,
        config.stable_branch,
        on_origin,
        f,
    ) {
        Err(e) => Err(e),
        Ok(_) => Ok(
            PlannedStepView {
                roll: None,
                source: config.rolling_branch,
                subject: promotion_subject(config, rolls),
                body: promotion_body(rolls),
            },
        ),
    }
}

/// Plans the single step of a whole promotion.
pub fn plan_rolling_step(
    config: &Config,
    rolls: &Vec<RollInfo>,
    on_origin: bool,
    facts: &MergeFacts,
) -> (r: Result<PlannedStep, Failure>)
    ensures
        outcome(r) == rolling_step(
            config.deep_view(),
            rolls.deep_view(),
            on_origin,
            facts.deep_view(),
        ),
{
    match check_merge(
        MergeVerb::Promote,
        config.rolling_branch.as_str(),
        config.stable_branch.as_str(),
        on_origin,
        facts,
    ) {
        Err(e) => Err(e),
        Ok(_) => {
            let (subject, body) = promote_subject_and_body(config, rolls);
            Ok(PlannedStep { roll: None, source: config.rolling_branch.clone(), subject, body })
        },
    }
}

/// The commits of the rolling branch, newest first, from what `rev-list`
/// printed; none where it printed nothing.
pub open spec fn rolling_commits(out: Option<Seq<char>>) -> Seq<Seq<char>> {
    match out {
        Some(o) => kept(lines_of(o), |l: Seq<char>| filled_line(l)),
        None => seq![],
    }
}

/// Where a commit stands among `hashes`, which are newest first: the oldest
/// comes first, and what is not among them last. `total` is their number.
pub open spec fn place_of(hashes: Seq<Seq<char>>, total: int, hash: Seq<char>) -> int
    decreases hashes.len(),
{
    if hashes.len() == 0 {
        usize::MAX as int
    } else if hashes.last() == hash {
        total - hashes.len() + 1
    } else {
        place_of(hashes.drop_last(), total, hash)
    }
}

/// The arguments behind [`rolling_commit_order`].
pub fn rolling_commit_order_args(rolling: &str) -> (r: Vec<String>)
    ensures
        r.deep_view() == seq!["rev-list"@, "--first-parent"@, rolling@],
{
    let r = vec!["rev-list".to_owned(), "--first-parent".to_owned(), owned(rolling)];
    assert(r.deep_view() =~= seq!["rev-list"@, "--first-parent"@, rolling@]);
    r
}

/// The commits of the rolling branch, newest first.
pub fn rolling_commit_order(out: &Option<String>) -> (r: Vec<String>)
    ensures
        r.deep_view() == rolling_commits(out.deep_view()),
{
    let mut r: Vec<String> = Vec::new();
    assert(r.deep_view() =~= seq![]);
    match out {
        None => {},
        Some(o) => {
            let all = lines(o.as_str());
            let ghost ls = all.deep_view();
            let ghost f = |l: Seq<char>| filled_line(l);
            let mut i: usize = 0;
            proof {
                lemma_kept_ends(ls, f);
            }
            while i < all.len()
                invariant
                    i <= all@.len(),
                    ls == all.deep_view(),
                    f == (|l: Seq<char>| filled_line(l)),
                    r.deep_view() == kept(ls.take(i as int), f),
                decreases all@.len() - i,
            {
                proof {
                    lemma_kept_step(ls, i as int, f);
                }
                let ghost before = r.deep_view();
                if !trim(all[i].as_str()).is_empty() {
                    r.push(all[i].clone());
                    assert(r.deep_view() =~= before.push(all@[i as int]@));
                }
                i += 1;
            }
        },
    }
    r
}

fn find_place(hashes: &Vec<String>, hash: &str) -> (r: usize)
    ensures
        r == place_of(hashes.deep_view(), hashes@.len() as int, hash@),
{
    let ghost all = hashes.deep_view();
    let total = hashes.len();
    let mut i: usize = total;
    assert(all.take(i as int) =~= all);
    while i > 0
        invariant
            i <= total,
            total == hashes@.len(),
            all == hashes.deep_view(),
            place_of(all, total as int, hash@) == place_of(all.take(i as int), total as int, hash@),
        decreases i,
    {
        assert(all.take(i as int).drop_last() =~= all.take(i - 1));
        assert(all.take(i as int).last() == hashes@[i - 1]@);
        if same(hashes[i - 1].as_str(), hash) {
            return total - i + 1;
        }
        i -= 1;
    }
    usize::MAX
}

/// The first roll with this branch.
pub open spec fn roll_named(rolls: Seq<RollView>, name: Seq<char>) -> Option<RollView>
    decreases rolls.len(),
{
    if rolls.len() == 0 {
        None
    } else if rolls[0].branch == name {
        Some(rolls[0])
    } else {
        roll_named(rolls.skip(1), name)
    }
}

/// The first roll with this branch.
pub fn find_roll<'a>(rolls: &'a Vec<RollInfo>, name: &str) -> (r: Option<&'a RollInfo>)
    ensures
        match r {
            Some(x) => roll_named(rolls.deep_view(), name@) == Some(x.deep_view()),
            None => roll_named(rolls.deep_view(), name@) is None,
        },
{
    let ghost all = rolls.deep_view();
    let mut i: usize = 0;
    assert(all.skip(0) =~= all);
    while i < rolls.len()
        invariant
            i <= rolls@.len(),
            all == rolls.deep_view(),
            roll_named(all, name@) == roll_named(all.skip(i as int), name@),
        decreases rolls@.len() - i,
    {
        assert(all.skip(i as int).skip(1) =~= all.skip(i + 1));
        assert(all.skip(i as int)[0] == rolls@[i as int].deep_view());
        if same(rolls[i].branch.as_str(), name) {
            return Some(&rolls[i]);
        }
        i += 1;
    }
    None
}

/// What the named rolls come to, in the order they were named: steps with their
/// places on rolling, and rolls that need none. A name that stands twice counts
/// once; the first name that is no graduated roll ends it.
pub open spec fn steps_of(
    config: ConfigView,
    known: Seq<RollView>,
    order: Seq<Seq<char>>,
    in_stable: Seq<Seq<char>>,
    names: Seq<Seq<char>>,
) -> Result<(Seq<(int, PlannedStepView)>, Seq<SkippedRollView>), Seq<Seq<char>>>
    decreases names.len(),
{
    if names.len() == 0 {
        Ok((seq![], seq![]))
    } else {
        match steps_of(config, known, order, in_stable, names.drop_last()) {
            Err(e) => Err(e),
            Ok((planned, skipped)) => {
                let name = names.last();
                if names.drop_last().contains(name) {
                    Ok((planned, skipped))
                } else {
                    match roll_named(known, name) {
                        None => Err(seq![no_such_roll(name)]),
                        Some(info) => match info.graduation_commit {
                            None => Err(seq![not_graduated(config, name)]),
                            Some(hash) => if in_stable.contains(hash) {
                                Ok(
                                    (
                                        planned,
                                        skipped.push(
                                            SkippedRollView {
                                                roll: name,
                                                reason: "already contained in '"@
                                                    + config.stable_branch + "'"@,
                                            },
                                        ),
                                    ),
                                )
                            } else {
                                Ok(
                                    (
                                        planned.push(
                                            (
                                                place_of(order, order.len() as int, hash),
                                                roll_step(config, name, hash),
                                            ),
                                        ),
                                        skipped,
                                    ),
                                )
                            },
                        },
                    }
                }
            },
        }
    }
}

/// What is said of a name that is no roll.
pub open spec fn no_such_roll(name: Seq<char>) -> Seq<char> {
    "no such roll: '"@ + name
        + "'. Run `rf list` to see the roll branches roll-flow knows about"@
}

/// What is said of a roll that has not graduated.
pub open spec fn not_graduated(config: ConfigView, name: Seq<char>) -> Seq<char> {
    "'"@ + name + "' has not graduated, so there is nothing on '"@ + config.rolling_branch
        + "' to promote. Run `rf graduate` from it first"@
}

/// The step that promotes one roll, by its graduation commit.
pub open spec fn roll_step(config: ConfigView, name: Seq<char>, hash: Seq<char>) -> PlannedStepView {
    PlannedStepView {
        roll: Some(name),
        source: hash,
        subject: "Promote "@ + name + " to "@ + config.stable_branch,
        body: Some("Rolls:\n  "@ + name + "\n"@),
    }
}

/// The plan for named rolls: one step for each that stable lacks, oldest
/// graduation first.
pub open spec fn rolls_promotion(
    config: ConfigView,
    known: Seq<RollView>,
    order: Seq<Seq<char>>,
    in_stable: Seq<Seq<char>>,
    names: Seq<Seq<char>>,
) -> Result<PromotePlanView, Seq<Seq<char>>> {
    if names.len() == 0 {
        Err(seq!["no rolls named to promote"@])
    } else {
        match steps_of(config, known, order, in_stable, names) {
            Err(e) => Err(e),
            Ok((planned, skipped)) => Ok(
                PromotePlanView { steps: unranked(by_rank(planned)), skipped },
            ),
        }
    }
}

/// The places and views of steps.
pub open spec fn placed_views(places: Seq<usize>, steps: Seq<PlannedStepView>) -> Seq<
    (int, PlannedStepView),
> {
    Seq::new(steps.len(), |i: int| (places[i] as int, steps[i]))
}

fn insert_step(places: &mut Vec<usize>, steps: &mut Vec<PlannedStep>, place: usize, x: PlannedStep)
    requires
        old(places)@.len() == old(steps)@.len(),
    ensures
        final(places)@.len() == final(steps)@.len(),
        placed_views(final(places)@, final(steps).deep_view()) == placed_at(
            placed_views(old(places)@, old(steps).deep_view()),
            (place as int, x.deep_view()),
        ),
{
    let ghost s = placed_views(places@, steps.deep_view());
    let ghost y = (place as int, x.deep_view());
    let mut p: usize = places.len();
    assert(s.take(p as int) =~= s);
    assert(placed_at(s, y) =~= placed_at(s.take(p as int), y) + s.skip(p as int));
    while p > 0 && places[p - 1] > place
        invariant
            places@.len() == steps@.len(),
            s == placed_views(places@, steps.deep_view()),
            y == (place as int, x.deep_view()),
            p <= s.len(),
            s.len() == places@.len(),
            placed_at(s, y) == placed_at(s.take(p as int), y) + s.skip(p as int),
        decreases p,
    {
        proof {
            lemma_placed_before(s, y, p as int);
        }
        p -= 1;
    }
    let ghost before = steps.deep_view();
    let ghost view = x.deep_view();
    places.insert(p, place);
    steps.insert(p, x);
    assert(s.take(p as int).push(y) + s.skip(p as int) =~= s.insert(p as int, y));
    assert(steps.deep_view() =~= before.insert(p as int, view));
    assert(placed_views(places@, steps.deep_view()) =~= s.insert(p as int, y));
}

/// Plans the promotion of named rolls. `order` are the commits of rolling,
/// newest first; `in_stable` those graduation commits that stable contains.
pub fn plan_roll_steps(
    config: &Config,
    known: &Vec<RollInfo>,
    order: &Vec<String>,
    in_stable: &Vec<String>,
    names: &Vec<String>,
) -> (r: Result<PromotePlan, Failure>)
    ensures
        outcome(r) == rolls_promotion(
            config.deep_view(),
            known.deep_view(),
            order.deep_view(),
            in_stable.deep_view(),
            names.deep_view(),
        ),
{
    if names.is_empty() {
        return Err(Failure::msg("no rolls named to promote".to_owned()));
    }
    let ghost cv = config.deep_view();
    let ghost kv = known.deep_view();
    let ghost ov = order.deep_view();
    let ghost sv = in_stable.deep_view();
    let ghost all = names.deep_view();
    let mut places: Vec<usize> = Vec::new();
    let mut steps: Vec<PlannedStep> = Vec::new();
    let mut skipped: Vec<SkippedRoll> = Vec::new();
    let mut seen: Vec<String> = Vec::new();
    let ghost mut planned: Seq<(int, PlannedStepView)> = seq![];
    let mut i: usize = 0;
    assert(placed_views(places@, steps.deep_view()) =~= by_rank(planned));
    assert(skipped.deep_view() =~= seq![]);
    assert(seen.deep_view() =~= all.take(0));
    while i < names.len()
        invariant
            i <= names@.len(),
            cv == config.deep_view(),
            kv == known.deep_view(),
            ov == order.deep_view(),
            sv == in_stable.deep_view(),
            all == names.deep_view(),
            places@.len() == steps@.len(),
            placed_views(places@, steps.deep_view()) == by_rank(planned),
            seen.deep_view() == all.take(i as int),
            steps_of(cv, kv, ov, sv, all.take(i as int)) == Ok::<_, Seq<Seq<char>>>(
                (planned, skipped.deep_view()),
            ),
            all.len() > 0,
        decreases names@.len() - i,
    {
        let ghost now = all.take(i as int);
        assert(all.take(i + 1).drop_last() =~= now);
        assert(all.take(i + 1).last() == names@[i as int]@);
        assert(all.take(all.len() as int) =~= all);
        let name = names[i].as_str();
        if !has_text(&seen, name) {
            match find_roll(known, name) {
                None => {
                    proof {
                        lemma_error_stays(cv, kv, ov, sv, all, i + 1);
                    }
                    return Err(
                        Failure::msg(
                            cat3(
                                "no such roll: '",
                                name,
                                "'. Run `rf list` to see the roll branches roll-flow knows about",
                            ),
                        ),
                    );
                },
                Some(info) => match &info.graduation_commit {
                    None => {
                        proof {
                            lemma_error_stays(cv, kv, ov, sv, all, i + 1);
                        }
                        return Err(
                            Failure::msg(
                                cat5(
                                    "'",
                                    name,
                                    "' has not graduated, so there is nothing on '",
                                    config.rolling_branch.as_str(),
                                    "' to promote. Run `rf graduate` from it first",
                                ),
                            ),
                        );
                    },
                    Some(hash) => {
                        if has_text(in_stable, hash.as_str()) {
                            let ghost before = skipped.deep_view();
                            let skip = SkippedRoll {
                                roll: owned(name),
                                reason: cat3(
                                    "already contained in '",
                                    config.stable_branch.as_str(),
                                    "'",
                                ),
                            };
                            let ghost view = skip.deep_view();
                            skipped.push(skip);
                            assert(skipped.deep_view() =~= before.push(view));
                        } else {
                            let place = find_place(order, hash.as_str());
                            let step = PlannedStep {
                                roll: Some(owned(name)),
                                source: hash.clone(),
                                subject: cat4(
                                    "Promote ",
                                    name,
                                    " to ",
                                    config.stable_branch.as_str(),
                                ),
                                body: Some(cat3("Rolls:\n  ", name, "\n")),
                            };
                            let ghost next = planned.push((place as int, step.deep_view()));
                            assert(step.deep_view() == roll_step(cv, name@, hash@));
                            assert(next.drop_last() =~= planned);
                            insert_step(&mut places, &mut steps, place, step);
                            proof {
                                planned = next;
                            }
                        }
                    },
                },
            }
        }
        let ghost before = seen.deep_view();
        seen.push(names[i].clone());
        assert(seen.deep_view() =~= before.push(names@[i as int]@));
        assert(before.push(names@[i as int]@) =~= all.take(i + 1));
        i += 1;
    }
    assert(all.take(all.len() as int) =~= all);
    assert(steps.deep_view() =~= unranked(by_rank(planned))) by {
        assert(unranked(placed_views(places@, steps.deep_view())) =~= steps.deep_view());
    }
    Ok(PromotePlan { steps, skipped })
}

/// A name that ends a plan ends it whatever follows.
proof fn lemma_error_stays(
    config: ConfigView,
    known: Seq<RollView>,
    order: Seq<Seq<char>>,
    in_stable: Seq<Seq<char>>,
    names: Seq<Seq<char>>,
    i: int,
)
    requires
        0 <= i <= names.len(),
    ensures
        steps_of(config, known, order, in_stable, names.take(i)) is Err ==> steps_of(
            config,
            known,
            order,
            in_stable,
            names,
        ) == steps_of(config, known, order, in_stable, names.take(i)),
    decreases names.len() - i,
{
    if i == names.len() {
        assert(names.take(i) =~= names);
    } else {
        assert(names.take(i + 1).drop_last() =~= names.take(i));
        lemma_error_stays(config, known, order, in_stable, names, i + 1);
    }
}

/// Whether the hosts let a promotion go ahead: every active host passes, unless
/// force is used.
pub open spec fn hosts_allow(results: Seq<HostResultView>, force: bool) -> Result<
    (),
    Seq<Seq<char>>,
> {
    if !force && failing_hosts(results).len() > 0 {
        Err(seq!["host verification failed: "@ + joined(failing_hosts(results), ", "@)])
    } else {
        Ok(())
    }
}

/// Decides whether the hosts let a promotion go ahead.
pub fn host_verdict(report: &HostReport, force: bool) -> (r: Result<(), Failure>)
    ensures
        r is Ok <==> hosts_allow(report.deep_view().results, force) is Ok,
        r matches Err(e) ==> hosts_allow(report.deep_view().results, force) == Err::<
            (),
            Seq<Seq<char>>,
        >(e.deep_view()),
{
    if force {
        return Ok(());
    }
    let failed = report.failed_hosts();
    assert(failed.deep_view().len() == failed@.len());
    if failed.is_empty() {
        return Ok(());
    }
    let names = join(&failed, ", ");
    Err(Failure::msg(cat("host verification failed: ", names.as_str())))
}

/// The merge of a promotion step: it is staged, and committed only once the
/// gates have passed on the result.
pub fn promotion_merge(step: &PlannedStep, stable_ref: &str, original: &str) -> (r: MergeRun)
    ensures
        r.deep_view() == (MergeRunView {
            source: step.deep_view().source,
            target: stable_ref@,
            original: original@,
            subject: step.deep_view().subject,
            body: step.deep_view().body,
            gated: true,
            stage: StageView::Checkout,
        }),
{
    MergeRun::gated(
        step.source.as_str(),
        stable_ref,
        original,
        step.subject.as_str(),
        copy_opt(&step.body),
    )
}

fn copy_bypass(b: &GateBypass) -> (r: GateBypass)
    ensures
        r.deep_view() == b.deep_view(),
{
    GateBypass { gate: b.gate.clone(), code: b.code }
}

/// The trailer of a promotion: the route's bypassed gates, then the hosts'.
pub fn promotion_trailer(force: &ForceOpts, report: &GateReport, hosts: &HostReport) -> (r: Option<
    String,
>)
    ensures
        r.deep_view() == trailer_of(
            report.deep_view().bypassed + hosts.deep_view().bypassed,
            force.reason.deep_view(),
        ),
{
    let ghost first = report.bypassed.deep_view();
    let ghost second = hosts.bypassed.deep_view();
    let mut all: Vec<GateBypass> = Vec::new();
    let mut i: usize = 0;
    assert(all.deep_view() =~= first.take(0));
    while i < report.bypassed.len()
        invariant
            i <= report.bypassed@.len(),
            first == report.bypassed.deep_view(),
            all.deep_view() == first.take(i as int),
        decreases report.bypassed@.len() - i,
    {
        let ghost before = all.deep_view();
        all.push(copy_bypass(&report.bypassed[i]));
        assert(all.deep_view() =~= before.push(first[i as int]));
        assert(before.push(first[i as int]) =~= first.take(i + 1));
        i += 1;
    }
    assert(first.take(first.len() as int) =~= first);
    let mut k: usize = 0;
    assert(all.deep_view() =~= first + second.take(0));
    while k < hosts.bypassed.len()
        invariant
            k <= hosts.bypassed@.len(),
            second == hosts.bypassed.deep_view(),
            all.deep_view() == first + second.take(k as int),
        decreases hosts.bypassed@.len() - k,
    {
        let ghost before = all.deep_view();
        all.push(copy_bypass(&hosts.bypassed[k]));
        assert(all.deep_view() =~= before.push(second[k as int]));
        assert(before.push(second[k as int]) =~= first + second.take(k + 1));
        k += 1;
    }
    assert(second.take(second.len() as int) =~= second);
    force.trailer(&all)
}

/// One merge of a promotion, and what came of it.
#[derive(Debug)]
pub struct PromoteStep {
    /// The roll it promoted; none where all of rolling was.
    pub roll: Option<String>,
    pub source: String,
    pub version: VersionCheck,
    pub gate_notices: Vec<GateNotice>,
    pub host_results: Vec<HostResult>,
    pub host_notices: Vec<GateNotice>,
    pub tag: TagOutcome,
}

/// [`PromoteStep`] by its characters.
pub struct PromoteStepView {
    pub roll: Option<Seq<char>>,
    pub source: Seq<char>,
    pub version: VersionCheck,
    pub gate_notices: Seq<GateNoticeView>,
    pub host_results: Seq<HostResultView>,
    pub host_notices: Seq<GateNoticeView>,
    pub tag: TagOutcomeView,
}

impl DeepView for PromoteStep {
    type V = PromoteStepView;

    open spec fn deep_view(&self) -> PromoteStepView {
        PromoteStepView {
            roll: self.roll.deep_view(),
            source: self.source@,
            version: self.version,
            gate_notices: self.gate_notices.deep_view(),
            host_results: self.host_results.deep_view(),
            host_notices: self.host_notices.deep_view(),
            tag: self.tag.deep_view(),
        }
    }
}

/// What a promotion came to.
#[derive(Debug)]
pub struct PromoteOutcome {
    pub rolling: String,
    pub stable: String,
    pub dry_run: bool,
    pub steps: Vec<PromoteStep>,
    pub skipped: Vec<SkippedRoll>,
}

/// [`PromoteOutcome`] by its characters.
pub struct PromoteOutcomeView {
    pub rolling: Seq<char>,
    pub stable: Seq<char>,
    pub dry_run: bool,
    pub steps: Seq<PromoteStepView>,
    pub skipped: Seq<SkippedRollView>,
}

impl DeepView for PromoteOutcome {
    type V = PromoteOutcomeView;

    open spec fn deep_view(&self) -> PromoteOutcomeView {
        PromoteOutcomeView {
            rolling: self.rolling@,
            stable: self.stable@,
            dry_run: self.dry_run,
            steps: self.steps.deep_view(),
            skipped: self.skipped.deep_view(),
        }
    }
}

// ── Updating ────────────────────────────────────────────────────────────────

/// What became of one roll.
#[derive(Debug)]
pub enum UpdateItem {
    AlreadyUpToDate { roll: String },
    WouldMerge { roll: String, behind: u64 },
    Updated { roll: String },
}

/// [`UpdateItem`] by its characters.
pub enum UpdateItemView {
    AlreadyUpToDate { roll: Seq<char> },
    WouldMerge { roll: Seq<char>, behind: u64 },
    Updated { roll: Seq<char> },
}

impl DeepView for UpdateItem {
    type V = UpdateItemView;

    open spec fn deep_view(&self) -> UpdateItemView {
        match self {
            UpdateItem::AlreadyUpToDate { roll } => UpdateItemView::AlreadyUpToDate { roll: roll@ },
            UpdateItem::WouldMerge { roll, behind } => UpdateItemView::WouldMerge {
                roll: roll@,
                behind: *behind,
            },
            UpdateItem::Updated { roll } => UpdateItemView::Updated { roll: roll@ },
        }
    }
}

/// What an update came to.
#[derive(Debug)]
pub enum UpdateOutcome {
    NoActiveRolls,
    Ran { stable: String, items: Vec<UpdateItem> },
}

/// [`UpdateOutcome`] by its characters.
pub enum UpdateOutcomeView {
    NoActiveRolls,
    Ran { stable: Seq<char>, items: Seq<UpdateItemView> },
}

impl DeepView for UpdateOutcome {
    type V = UpdateOutcomeView;

    open spec fn deep_view(&self) -> UpdateOutcomeView {
        match self {
            UpdateOutcome::NoActiveRolls => UpdateOutcomeView::NoActiveRolls,
            UpdateOutcome::Ran { stable, items } => UpdateOutcomeView::Ran {
                stable: stable@,
                items: items.deep_view(),
            },
        }
    }
}

/// The branches of the rolls that an update brings up to date: those not yet
/// graduated that exist here.
pub open spec fn updatable(rolls: Seq<RollView>) -> Seq<Seq<char>> {
    kept(
        rolls,
        |r: RollView|
            if (r.state is Active || r.state is Blocked) && is_local(r.location) {
                Some(r.branch)
            } else {
                None
            },
    )
}

/// The branches of the rolls that an update brings up to date.
pub fn rolls_to_update(rolls: &Vec<RollInfo>) -> (r: Vec<String>)
    ensures
        r.deep_view() == updatable(rolls.deep_view()),
{
    let ghost all = rolls.deep_view();
    let ghost f = |r: RollView|
        if (r.state is Active || r.state is Blocked) && is_local(r.location) {
            Some(r.branch)
        } else {
            None
        };
    let mut r: Vec<String> = Vec::new();
    let mut i: usize = 0;
    proof {
        lemma_kept_ends(all, f);
    }
    assert(r.deep_view() =~= seq![]);
    while i < rolls.len()
        invariant
            i <= rolls@.len(),
            all == rolls.deep_view(),
            f == (|r: RollView|
                if (r.state is Active || r.state is Blocked) && is_local(r.location) {
                    Some(r.branch)
                } else {
                    None
                }),
            r.deep_view() == kept(all.take(i as int), f),
        decreases rolls@.len() - i,
    {
        proof {
            lemma_kept_step(all, i as int, f);
        }
        assert(all[i as int] == rolls@[i as int].deep_view());
        let ghost before = r.deep_view();
        let open = matches!(rolls[i].state, RollState::Active | RollState::Blocked);
        let local = matches!(rolls[i].location, BranchLocation::Local | BranchLocation::Both);
        if open && local {
            r.push(rolls[i].branch.clone());
            assert(r.deep_view() =~= before.push(rolls@[i as int].branch@));
        }
        i += 1;
    }
    r
}

/// The range whose commits a roll lacks.
pub fn behind_range(roll: &str, stable: &str) -> (r: String)
    ensures
        r@ == roll@ + ".."@ + stable@,
{
    cat3(roll, "..", stable)
}

/// The arguments that print the short name of the commit that a roll ends in.
pub fn short_tip_args(roll: &str) -> (r: Vec<String>)
    ensures
        r.deep_view() == seq!["rev-parse"@, "--short"@, roll@],
{
    let r = vec!["rev-parse".to_owned(), "--short".to_owned(), owned(roll)];
    assert(r.deep_view() =~= seq!["rev-parse"@, "--short"@, roll@]);
    r
}

/// How many commits a roll lacks, from what `rev-list --count` printed.
pub open spec fn lacking(count: Seq<char>) -> u64 {
    match number_in(trimmed(count), u64::MAX as nat) {
        Some(n) => n as u64,
        None => 0,
    }
}

/// What a roll's count of missing commits asks for.
#[derive(Debug)]
pub enum UpdateStep {
    /// Nothing but to report this.
    Report(UpdateItem),
    /// To merge stable, with this many commits.
    Merge { behind: u64 },
}

/// [`UpdateStep`] by its characters.
pub enum UpdateStepView {
    Report(UpdateItemView),
    Merge { behind: u64 },
}

impl DeepView for UpdateStep {
    type V = UpdateStepView;

    open spec fn deep_view(&self) -> UpdateStepView {
        match self {
            UpdateStep::Report(i) => UpdateStepView::Report(i.deep_view()),
            UpdateStep::Merge { behind } => UpdateStepView::Merge { behind: *behind },
        }
    }
}

/// What a roll's count of missing commits asks for.
pub open spec fn update_step(roll: Seq<char>, count: Seq<char>, dry_run: bool) -> UpdateStepView {
    let behind = lacking(count);
    if behind == 0 {
        UpdateStepView::Report(UpdateItemView::AlreadyUpToDate { roll })
    } else if dry_run {
        UpdateStepView::Report(UpdateItemView::WouldMerge { roll, behind })
    } else {
        UpdateStepView::Merge { behind }
    }
}

/// Decides what to do about one roll.
pub fn plan_update(roll: &str, count: &str, dry_run: bool) -> (r: UpdateStep)
    ensures
        r.deep_view() == update_step(roll@, count@, dry_run),
{
    let behind: u64 = match parse_number(trim(count), u64::MAX) {
        Some(n) => n,
        None => 0,
    };
    if behind == 0 {
        return UpdateStep::Report(UpdateItem::AlreadyUpToDate { roll: owned(roll) });
    }
    if dry_run {
        return UpdateStep::Report(UpdateItem::WouldMerge { roll: owned(roll), behind });
    }
    UpdateStep::Merge { behind }
}

/// The subject of the merge that brings a roll up to date with stable.
pub open spec fn update_subject(roll: Seq<char>, stable: Seq<char>) -> Seq<char> {
    "Update "@ + roll + " from "@ + stable
}

/// The merge that brings a roll up to date with stable. `before` is the short
/// name of the roll's tip, which the message records.
pub fn update_merge(roll: &str, stable: &str, original: &str, behind: u64, before: &str) -> (r:
    MergeRun)
    ensures
        r.deep_view() == (MergeRunView {
            source: stable@,
            target: roll@,
            original: original@,
            subject: update_subject(roll@, stable@),
            body: Some(
                "Brought in: "@ + decimal(behind as nat) + " commits since "@ + before@,
            ),
            gated: false,
            stage: StageView::Checkout,
        }),
{
    let subject = cat4("Update ", roll, " from ", stable);
    let n = to_decimal(behind);
    let body = cat4("Brought in: ", n.as_str(), " commits since ", before);
    MergeRun::plain(stable, roll, original, subject.as_str(), Some(body))
}

/// What an update of the rolls came to, given what became of each.
pub fn update(config: &Config, rolls: &Vec<RollInfo>, items: Vec<UpdateItem>) -> (r: UpdateOutcome)
    ensures
        r.deep_view() == (if updatable(rolls.deep_view()).len() == 0 {
            UpdateOutcomeView::NoActiveRolls
        } else {
            UpdateOutcomeView::Ran {
                stable: config.deep_view().stable_branch,
                items: items.deep_view(),
            }
        }),
{
    let active = rolls_to_update(rolls);
    assert(active.deep_view().len() == active@.len());
    if active.is_empty() {
        UpdateOutcome::NoActiveRolls
    } else {
        UpdateOutcome::Ran { stable: config.stable_branch.clone(), items }
    }
}

// ── Laws ────────────────────────────────────────────────────────────────────

/// Whether a step merges the graduation commit of one of the named rolls.
pub open spec fn merges_graduation(
    known: Seq<RollView>,
    names: Seq<Seq<char>>,
    step: PlannedStepView,
) -> bool {
    &&& step.roll is Some
    &&& names.contains(step.roll->0)
    &&& roll_named(known, step.roll->0) matches Some(info) && info.graduation_commit == Some(
        step.source,
    )
}

proof fn lemma_steps_of(
    config: ConfigView,
    known: Seq<RollView>,
    order: Seq<Seq<char>>,
    in_stable: Seq<Seq<char>>,
    names: Seq<Seq<char>>,
)
    requires
        steps_of(config, known, order, in_stable, names) is Ok,
    ensures
        ({
            let (planned, skipped) = steps_of(config, known, order, in_stable, names)->Ok_0;
            &&& forall|k: int|
                0 <= k < planned.len() ==> (#[trigger] planned[k]).0 == place_of(
                    order,
                    order.len() as int,
                    planned[k].1.source,
                ) && !in_stable.contains(planned[k].1.source) && merges_graduation(
                    known,
                    names,
                    planned[k].1,
                )
            &&& forall|n: Seq<char>| #[trigger]
                names.contains(n) ==> (exists|k: int|
                    0 <= k < planned.len() && (#[trigger] planned[k]).1.roll == Some(n)) || (
                exists|k: int| 0 <= k < skipped.len() && (#[trigger] skipped[k]).roll == n)
        }),
    decreases names.len(),
{
    if names.len() > 0 {
        let w = names.drop_last();
        lemma_steps_of(config, known, order, in_stable, w);
        let (p0, s0) = steps_of(config, known, order, in_stable, w)->Ok_0;
        let (planned, skipped) = steps_of(config, known, order, in_stable, names)->Ok_0;
        assert(names[names.len() - 1] == names.last());
        assert forall|k: int| 0 <= k < p0.len() implies merges_graduation(
            known,
            names,
            (#[trigger] p0[k]).1,
        ) by {
            let at = choose|at: int| 0 <= at < w.len() && w[at] == p0[k].1.roll->0;
            assert(names[at] == w[at]);
        }
        assert forall|n: Seq<char>| #[trigger] names.contains(n) implies (exists|k: int|
            0 <= k < planned.len() && (#[trigger] planned[k]).1.roll == Some(n)) || (exists|k: int|
            0 <= k < skipped.len() && (#[trigger] skipped[k]).roll == n) by {
            let at = choose|at: int| 0 <= at < names.len() && names[at] == n;
            if w.contains(n) || at < w.len() {
                if at < w.len() {
                    assert(w[at] == n);
                }
                assert(w.contains(n));
                if exists|k: int| 0 <= k < p0.len() && (#[trigger] p0[k]).1.roll == Some(n) {
                    let k = choose|k: int| 0 <= k < p0.len() && (#[trigger] p0[k]).1.roll == Some(n);
                    assert(planned[k] == p0[k]);
                } else {
                    let k = choose|k: int| 0 <= k < s0.len() && (#[trigger] s0[k]).roll == n;
                    assert(skipped[k] == s0[k]);
                }
            } else {
                if planned.len() > p0.len() {
                    assert(planned[planned.len() - 1].1.roll == Some(n));
                } else {
                    assert(skipped[skipped.len() - 1].roll == n);
                }
            }
        }
    }
}

/// The steps for named rolls come in the order in which the rolls graduated,
/// whatever order they were named in, and none merges what stable has. What each
/// merges is the graduation commit of a named roll, never a roll's own branch.
pub proof fn law_promotion_follows_graduation(
    config: ConfigView,
    known: Seq<RollView>,
    order: Seq<Seq<char>>,
    in_stable: Seq<Seq<char>>,
    names: Seq<Seq<char>>,
)
    requires
        rolls_promotion(config, known, order, in_stable, names) is Ok,
    ensures
        ({
            let steps = rolls_promotion(config, known, order, in_stable, names)->Ok_0.steps;
            let place = |k: int| place_of(order, order.len() as int, steps[k].source);
            &&& forall|i: int, j: int| 0 <= i < j < steps.len() ==> #[trigger] place(i)
                <= #[trigger] place(j)
            &&& forall|k: int|
                0 <= k < steps.len() ==> !in_stable.contains((#[trigger] steps[k]).source)
                    && merges_graduation(known, names, steps[k])
        }),
{
    broadcast use vstd::seq_lib::group_to_multiset_ensures;

    let (planned, skipped) = steps_of(config, known, order, in_stable, names)->Ok_0;
    lemma_steps_of(config, known, order, in_stable, names);
    lemma_by_rank(planned);
    let sorted = by_rank(planned);
    let steps = unranked(sorted);
    assert forall|k: int| 0 <= k < steps.len() implies (#[trigger] steps[k]) == sorted[k].1
        && sorted[k].0 == place_of(order, order.len() as int, steps[k].source)
        && !in_stable.contains(steps[k].source) && merges_graduation(
        known,
        names,
        steps[k],
    ) by {
        assert(sorted.to_multiset().count(sorted[k]) > 0) by {
            assert(sorted.contains(sorted[k]));
        }
        assert(planned.contains(sorted[k]));
        let at = choose|at: int| 0 <= at < planned.len() && planned[at] == sorted[k];
        assert(planned[at].0 == place_of(order, order.len() as int, planned[at].1.source));
    }
    let place = |k: int| place_of(order, order.len() as int, steps[k].source);
    assert forall|i: int, j: int| 0 <= i < j < steps.len() implies #[trigger] place(i)
        <= #[trigger] place(j) by {
        assert(steps[i] == sorted[i].1);
        assert(steps[j] == sorted[j].1);
        assert(sorted[i].0 <= sorted[j].0);
    }
}

/// Every roll that was named is promoted or reported as needing no promotion.
pub proof fn law_named_rolls_are_accounted_for(
    config: ConfigView,
    known: Seq<RollView>,
    order: Seq<Seq<char>>,
    in_stable: Seq<Seq<char>>,
    names: Seq<Seq<char>>,
    name: Seq<char>,
)
    requires
        rolls_promotion(config, known, order, in_stable, names) is Ok,
        names.contains(name),
    ensures
        ({
            let plan = rolls_promotion(config, known, order, in_stable, names)->Ok_0;
            (exists|k: int| 0 <= k < plan.steps.len() && (#[trigger] plan.steps[k]).roll == Some(name)) || (
            exists|k: int| 0 <= k < plan.skipped.len() && (#[trigger] plan.skipped[k]).roll == name)
        }),
{
    broadcast use vstd::seq_lib::group_to_multiset_ensures;

    let (planned, skipped) = steps_of(config, known, order, in_stable, names)->Ok_0;
    lemma_steps_of(config, known, order, in_stable, names);
    lemma_by_rank(planned);
    let sorted = by_rank(planned);
    let plan = rolls_promotion(config, known, order, in_stable, names)->Ok_0;
    if exists|k: int| 0 <= k < planned.len() && (#[trigger] planned[k]).1.roll == Some(name) {
        let k = choose|k: int| 0 <= k < planned.len() && (#[trigger] planned[k]).1.roll == Some(name);
        assert(planned.contains(planned[k]));
        assert(sorted.to_multiset().count(planned[k]) > 0);
        assert(sorted.contains(planned[k]));
        let at = choose|at: int| 0 <= at < sorted.len() && sorted[at] == planned[k];
        assert(plan.steps[at].roll == Some(name));
    } else {
        let k = choose|k: int| 0 <= k < skipped.len() && (#[trigger] skipped[k]).roll == name;
        assert(plan.skipped[k].roll == name);
    }
}


/// An update reaches exactly the branches of the rolls that have neither graduated
/// nor been promoted and that have a local copy, whether or not the remote has one
/// too.
pub proof fn law_updates_reach_every_local_roll(rolls: Seq<RollView>, branch: Seq<char>)
    ensures
        updatable(rolls).contains(branch) <==> exists|i: int|
            0 <= i < rolls.len() && (#[trigger] rolls[i]).branch == branch && (
            rolls[i].state is Active || rolls[i].state is Blocked) && (rolls[i].location is Local
                || rolls[i].location is Both),
{
    let f = |r: RollView|
        if (r.state is Active || r.state is Blocked) && is_local(r.location) {
            Some(r.branch)
        } else {
            None
        };
    lemma_kept_contains(rolls, f, branch);
    if updatable(rolls).contains(branch) {
        let i = choose|i: int| 0 <= i < rolls.len() && f(#[trigger] rolls[i]) == Some(branch);
        assert(rolls[i].branch == branch);
    }
    if exists|i: int|
        0 <= i < rolls.len() && (#[trigger] rolls[i]).branch == branch && (rolls[i].state is Active
            || rolls[i].state is Blocked) && (rolls[i].location is Local
            || rolls[i].location is Both) {
        let i = choose|i: int|
            0 <= i < rolls.len() && (#[trigger] rolls[i]).branch == branch && (
            rolls[i].state is Active || rolls[i].state is Blocked) && (rolls[i].location is Local
                || rolls[i].location is Both);
        assert(f(rolls[i]) == Some(branch));
    }
}

/// A whole promotion includes exactly the rolls that are on rolling and not yet on
/// stable, with or without commits behind their graduation.
pub proof fn law_promotions_include_what_graduated(rolls: Seq<RollView>, branch: Seq<char>)
    ensures
        included_rolls(rolls).contains(branch) <==> exists|i: int|
            0 <= i < rolls.len() && (#[trigger] rolls[i]).branch == branch && (
            rolls[i].state is Graduated || rolls[i].state is Diverged),
{
    let f = |r: RollView|
        if r.state is Graduated || r.state is Diverged {
            Some(r.branch)
        } else {
            None
        };
    lemma_kept_contains(rolls, f, branch);
    if included_rolls(rolls).contains(branch) {
        let i = choose|i: int| 0 <= i < rolls.len() && f(#[trigger] rolls[i]) == Some(branch);
        assert(rolls[i].branch == branch);
    }
    if exists|i: int|
        0 <= i < rolls.len() && (#[trigger] rolls[i]).branch == branch && (
        rolls[i].state is Graduated || rolls[i].state is Diverged) {
        let i = choose|i: int|
            0 <= i < rolls.len() && (#[trigger] rolls[i]).branch == branch && (
            rolls[i].state is Graduated || rolls[i].state is Diverged);
        assert(f(rolls[i]) == Some(branch));
    }
}

/// A whole promotion merges rolling into stable and nothing else, and goes ahead
/// exactly when that merge may. Its subject names the roll where one alone is
/// included, and rolling otherwise; it has a body exactly when it includes a roll.
pub proof fn law_whole_promotions_merge_rolling(
    config: ConfigView,
    rolls: Seq<RollView>,
    on_origin: bool,
    f: MergeFactsView,
)
    ensures
        ({
            let r = rolling_step(config, rolls, on_origin, f);
            let included = included_rolls(rolls);
            &&& r is Ok <==> viable(
                MergeVerb::Promote,
                config.rolling_branch,
                config.stable_branch,
                on_origin,
                f,
            ) is Ok
            &&& r matches Ok(step) ==> {
                &&& step.roll is None
                &&& step.source == config.rolling_branch
                &&& included.len() == 1 ==> step.subject == "Promote "@ + included[0] + " to "@
                    + config.stable_branch
                &&& included.len() != 1 ==> step.subject == "Promote "@ + config.rolling_branch
                    + " to "@ + config.stable_branch
                &&& step.body is Some <==> included.len() > 0
            }
        }),
{
}

/// A roll may graduate exactly when it has not been promoted, rolling exists here
/// or on the remote, and the merge may go ahead; it goes into rolling.
pub proof fn law_graduations_go_to_rolling(
    config: ConfigView,
    roll: Seq<char>,
    promoted: bool,
    local: bool,
    on_origin: bool,
    dry_run: bool,
    f: MergeFactsView,
)
    ensures
        ({
            let r = graduation(config, roll, promoted, local, on_origin, dry_run, f);
            &&& r is Ok <==> !promoted && (local || on_origin) && viable(
                MergeVerb::Graduate,
                roll,
                config.rolling_branch,
                on_origin,
                f,
            ) is Ok
            &&& r matches Ok(plan) ==> plan.roll == roll && plan.rolling == config.rolling_branch
        }),
{
}

/// A roll that lacks nothing is reported as up to date; one that lacks commits is
/// only reported in a dry run, and merged otherwise, with their number.
pub proof fn law_rolls_behind_are_merged(roll: Seq<char>, count: Seq<char>, n: u64, dry_run: bool)
    requires
        trimmed(count) == decimal(n as nat),
    ensures
        n == 0 ==> update_step(roll, count, dry_run) == UpdateStepView::Report(
            UpdateItemView::AlreadyUpToDate { roll },
        ),
        n > 0 && dry_run ==> update_step(roll, count, dry_run) == UpdateStepView::Report(
            UpdateItemView::WouldMerge { roll, behind: n },
        ),
        n > 0 && !dry_run ==> update_step(roll, count, dry_run) == (UpdateStepView::Merge {
            behind: n,
        }),
{
    law_decimal_reads_back(n as nat, u64::MAX as nat);
}

proof fn lemma_roll_named(rolls: Seq<RollView>, name: Seq<char>, k: int)
    requires
        0 <= k <= rolls.len(),
        k < rolls.len() ==> rolls[k].branch == name,
        forall|j: int| 0 <= j < k ==> (#[trigger] rolls[j]).branch != name,
    ensures
        k < rolls.len() ==> roll_named(rolls, name) == Some(rolls[k]),
        k == rolls.len() ==> roll_named(rolls, name) is None,
    decreases k,
{
    if k > 0 {
        assert(rolls[0].branch != name);
        assert forall|j: int| 0 <= j < k - 1 implies (#[trigger] rolls.skip(1)[j]).branch
            != name by {
            assert(rolls[j + 1].branch != name);
        }
        lemma_roll_named(rolls.skip(1), name, k - 1);
    }
}

/// A promotion of one named roll fails exactly when no roll has that name or the
/// roll has no graduation commit. It merges that commit into stable, unless stable
/// has it, in which case the roll is skipped. `k` is the first roll with the name,
/// or the number of the rolls where there is none.
pub proof fn law_one_named_roll(
    config: ConfigView,
    known: Seq<RollView>,
    order: Seq<Seq<char>>,
    in_stable: Seq<Seq<char>>,
    name: Seq<char>,
    k: int,
)
    requires
        0 <= k <= known.len(),
        k < known.len() ==> known[k].branch == name,
        forall|j: int| 0 <= j < k ==> (#[trigger] known[j]).branch != name,
    ensures
        ({
            let r = rolls_promotion(config, known, order, in_stable, seq![name]);
            &&& r is Ok <==> k < known.len() && known[k].graduation_commit is Some
            &&& r matches Ok(plan) ==> {
                let hash = known[k].graduation_commit->0;
                &&& in_stable.contains(hash) ==> plan.steps.len() == 0 && plan.skipped.len() == 1
                    && plan.skipped[0].roll == name
                &&& !in_stable.contains(hash) ==> plan.skipped.len() == 0 && plan.steps.len() == 1
                    && plan.steps[0].roll == Some(name) && plan.steps[0].source == hash
                    && plan.steps[0].subject == "Promote "@ + name + " to "@ + config.stable_branch
            }
        }),
{
    lemma_roll_named(known, name, k);
    let names = seq![name];
    assert(names.drop_last() =~= seq![]);
    assert(!names.drop_last().contains(name));
    reveal_with_fuel(steps_of, 2);
    match steps_of(config, known, order, in_stable, names) {
        Ok((planned, skipped)) => {
            lemma_by_rank(planned);
            assert(unranked(by_rank(planned)).len() == planned.len());
            if planned.len() == 1 {
                assert(planned.drop_last() =~= seq![]);
                reveal_with_fuel(by_rank, 2);
                reveal_with_fuel(placed_at, 2);
                assert(by_rank(planned) =~= planned);
            }
        },
        Err(_) => {},
    }
}


proof fn lemma_place_of(hashes: Seq<Seq<char>>, total: int, k: int)
    requires
        0 <= k < hashes.len() <= total,
        forall|j: int| k < j < hashes.len() ==> #[trigger] hashes[j] != hashes[k],
    ensures
        place_of(hashes, total, hashes[k]) == total - k,
    decreases hashes.len(),
{
    if k < hashes.len() - 1 {
        let rest = hashes.drop_last();
        assert(hashes[hashes.len() - 1] != hashes[k]);
        assert forall|j: int| k < j < rest.len() implies #[trigger] rest[j] != rest[k] by {
            assert(hashes[j] != hashes[k]);
        }
        lemma_place_of(rest, total, k);
        assert(rest[k] == hashes[k]);
    }
}

/// Of two commits on rolling the older one has the lower place. The commits come
/// newest first and none stands twice.
pub proof fn law_older_commits_come_first(order: Seq<Seq<char>>, i: int, j: int)
    requires
        0 <= i < j < order.len(),
        order.no_duplicates(),
    ensures
        place_of(order, order.len() as int, order[j]) < place_of(
            order,
            order.len() as int,
            order[i],
        ),
{
    lemma_place_of(order, order.len() as int, i);
    lemma_place_of(order, order.len() as int, j);
}

/// The hosts let a promotion go ahead exactly when none of them has a failure, or
/// force is used.
pub proof fn law_failing_hosts_hold_a_promotion(results: Seq<HostResultView>, force: bool)
    ensures
        hosts_allow(results, force) is Ok <==> force || forall|i: int|
            0 <= i < results.len() ==> (#[trigger] results[i]).failures.len() == 0,
{
    let failing = failing_hosts(results);
    if failing.len() > 0 {
        law_failing_hosts_have_failures(results, failing[0]);
        assert(failing.contains(failing[0]));
    }
    if exists|i: int| 0 <= i < results.len() && (#[trigger] results[i]).failures.len() != 0 {
        let i = choose|i: int| 0 <= i < results.len() && (#[trigger] results[i]).failures.len() != 0;
        law_failing_hosts_have_failures(results, results[i].host);
        assert(failing.contains(results[i].host));
    }
}

/// The commits of rolling are the lines that were printed, without those that hold
/// nothing but white space.
pub proof fn law_printed_commits_are_read(out: Seq<char>, hash: Seq<char>)
    ensures
        rolling_commits(Some(out)).contains(hash) <==> trimmed(hash).len() > 0 && lines_of(
            out,
        ).contains(hash),
        rolling_commits(None).len() == 0,
{
    let g = |l: Seq<char>| filled_line(l);
    let all = lines_of(out);
    lemma_kept_contains(all, g, hash);
    if rolling_commits(Some(out)).contains(hash) {
        let i = choose|i: int| 0 <= i < all.len() && g(#[trigger] all[i]) == Some(hash);
        assert(all[i] == hash);
    }
    if trimmed(hash).len() > 0 && all.contains(hash) {
        let i = choose|i: int| 0 <= i < all.len() && all[i] == hash;
        assert(g(all[i]) == Some(hash));
    }
}

/// A plan for named rolls fails exactly where a named roll does not exist or has no
/// graduation commit, or where none is named.
pub proof fn law_plans_need_graduated_rolls(
    config: ConfigView,
    known: Seq<RollView>,
    order: Seq<Seq<char>>,
    in_stable: Seq<Seq<char>>,
    names: Seq<Seq<char>>,
)
    ensures
        rolls_promotion(config, known, order, in_stable, names) is Ok <==> names.len() > 0
            && forall|i: int|
            0 <= i < names.len() ==> (roll_named(known, #[trigger] names[i]) matches Some(info)
                && info.graduation_commit is Some),
{
    lemma_steps_ok(config, known, order, in_stable, names);
}

proof fn lemma_steps_ok(
    config: ConfigView,
    known: Seq<RollView>,
    order: Seq<Seq<char>>,
    in_stable: Seq<Seq<char>>,
    names: Seq<Seq<char>>,
)
    ensures
        steps_of(config, known, order, in_stable, names) is Ok <==> forall|i: int|
            0 <= i < names.len() ==> (roll_named(known, #[trigger] names[i]) matches Some(info)
                && info.graduation_commit is Some),
    decreases names.len(),
{
    if names.len() > 0 {
        let rest = names.drop_last();
        let name = names[names.len() - 1];
        lemma_steps_ok(config, known, order, in_stable, rest);
        assert(forall|i: int| 0 <= i < rest.len() ==> #[trigger] rest[i] == names[i]);
        if steps_of(config, known, order, in_stable, names) is Ok {
            assert forall|i: int| 0 <= i < names.len() implies (roll_named(
                known,
                #[trigger] names[i],
            ) matches Some(info) && info.graduation_commit is Some) by {
                if i < rest.len() {
                    assert(roll_named(known, rest[i]) is Some);
                } else if rest.contains(name) {
                    let k = choose|k: int| 0 <= k < rest.len() && rest[k] == name;
                    assert(roll_named(known, rest[k]) is Some);
                }
            }
        }
        if forall|i: int|
            0 <= i < names.len() ==> (roll_named(known, #[trigger] names[i]) matches Some(info)
                && info.graduation_commit is Some) {
            assert(roll_named(known, name) is Some);
            assert forall|i: int| 0 <= i < rest.len() implies (roll_named(
                known,
                #[trigger] rest[i],
            ) matches Some(info) && info.graduation_commit is Some) by {
                assert(roll_named(known, names[i]) is Some);
            }
        }
    }
}

} // verus!
