//! Running a promotion step by step.
//!
//! A promotion is one merge into stable for each step of its plan, and the gates
//! run on the result of each. Behind a merge comes the trailer that records what
//! force bypassed, then the release tag. The first failure ends it; what was
//! promoted until then stays.
use vstd::prelude::*;

use crate::config::Config;
use crate::failure::{outcome, Failure};
use crate::ops::gates::{
    trailer_of, ForceOpts, GateReport, GateReportView, HostReport, HostReportView,
};
use crate::ops::promote::{
    promotion_trailer, PlannedStep, PlannedStepView, PromoteOutcome, PromoteOutcomeView,
    PromotePlan, PromoteStep, PromoteStepView, SkippedRoll, SkippedRollView,
};
use crate::ops::release::{TagOutcome, TagOutcomeView};
use crate::text::copy_opt;
use crate::version::VersionCheck;

verus! {

/// What running the checks of a step, and its merge, came to.
#[derive(Debug)]
pub struct StepRun {
    /// The version of what was merged, against that of stable.
    pub version: VersionCheck,
    /// What the gates came to.
    pub report: GateReport,
    /// What the gates of the hosts came to.
    pub hosts: HostReport,
    /// What becomes of the release tag.
    pub tag: TagOutcome,
}

/// [`StepRun`] by its characters.
pub struct StepRunView {
    pub version: VersionCheck,
    pub report: GateReportView,
    pub hosts: HostReportView,
    pub tag: TagOutcomeView,
}

impl DeepView for StepRun {
    type V = StepRunView;

    open spec fn deep_view(&self) -> StepRunView {
        StepRunView {
            version: self.version,
            report: self.report.deep_view(),
            hosts: self.hosts.deep_view(),
            tag: self.tag.deep_view(),
        }
    }
}

/// How far a promotion has come.
#[derive(Debug)]
pub enum PromotionStage {
    /// The next step is to be run.
    Step,
    /// What a step bypassed is to be recorded.
    Trailer { ran: StepRun, trailer: String },
    /// A step is to be tagged.
    Tag { ran: StepRun },
    Failed(Failure),
}

/// [`PromotionStage`] by its characters.
pub enum PromotionStageView {
    Step,
    Trailer { ran: StepRunView, trailer: Seq<char> },
    Tag { ran: StepRunView },
    Failed(Seq<Seq<char>>),
}

impl DeepView for PromotionStage {
    type V = PromotionStageView;

    open spec fn deep_view(&self) -> PromotionStageView {
        match self {
            PromotionStage::Step => PromotionStageView::Step,
            PromotionStage::Trailer { ran, trailer } => PromotionStageView::Trailer {
                ran: ran.deep_view(),
                trailer: trailer@,
            },
            PromotionStage::Tag { ran } => PromotionStageView::Tag { ran: ran.deep_view() },
            PromotionStage::Failed(e) => PromotionStageView::Failed(e.deep_view()),
        }
    }
}

/// A promotion that is under way.
#[derive(Debug)]
pub struct PromotionRun {
    pub rolling: String,
    pub stable: String,
    pub dry_run: bool,
    /// Why force is used.
    pub reason: Option<String>,
    pub steps: Vec<PlannedStep>,
    pub skipped: Vec<SkippedRoll>,
    /// The steps that went through.
    pub done: Vec<PromoteStep>,
    pub stage: PromotionStage,
}

/// [`PromotionRun`] by its characters.
pub struct PromotionRunView {
    pub rolling: Seq<char>,
    pub stable: Seq<char>,
    pub dry_run: bool,
    pub reason: Option<Seq<char>>,
    pub steps: Seq<PlannedStepView>,
    pub skipped: Seq<SkippedRollView>,
    pub done: Seq<PromoteStepView>,
    pub stage: PromotionStageView,
}

impl DeepView for PromotionRun {
    type V = PromotionRunView;

    open spec fn deep_view(&self) -> PromotionRunView {
        PromotionRunView {
            rolling: self.rolling@,
            stable: self.stable@,
            dry_run: self.dry_run,
            reason: self.reason.deep_view(),
            steps: self.steps.deep_view(),
            skipped: self.skipped.deep_view(),
            done: self.done.deep_view(),
            stage: self.stage.deep_view(),
        }
    }
}

/// What to do next in a promotion.
#[derive(Debug)]
pub enum PromotionAction {
    /// Run the checks of a step, and merge nothing.
    Check { step: usize },
    /// Merge a step, with its checks run on the staged result.
    Merge { step: usize },
    /// Amend stable's last commit with a trailer.
    Append { trailer: String },
    /// Put a tag on stable's last commit, with the body of the step's message.
    CreateTag { tag: String, body: Option<String> },
    Finished,
    Failed(Failure),
}

/// [`PromotionAction`] by its characters.
pub enum PromotionActionView {
    Check { step: nat },
    Merge { step: nat },
    Append { trailer: Seq<char> },
    CreateTag { tag: Seq<char>, body: Option<Seq<char>> },
    Finished,
    Failed(Seq<Seq<char>>),
}

impl DeepView for PromotionAction {
    type V = PromotionActionView;

    open spec fn deep_view(&self) -> PromotionActionView {
        match self {
            PromotionAction::Check { step } => PromotionActionView::Check { step: *step as nat },
            PromotionAction::Merge { step } => PromotionActionView::Merge { step: *step as nat },
            PromotionAction::Append { trailer } => PromotionActionView::Append {
                trailer: trailer@,
            },
            PromotionAction::CreateTag { tag, body } => PromotionActionView::CreateTag {
                tag: tag@,
                body: body.deep_view(),
            },
            PromotionAction::Finished => PromotionActionView::Finished,
            PromotionAction::Failed(e) => PromotionActionView::Failed(e.deep_view()),
        }
    }
}

/// What came of an action.
#[derive(Debug)]
pub enum PromotionEvent {
    /// A step was checked, or checked and merged.
    Ran(Result<StepRun, Failure>),
    /// A trailer was appended, or a tag created.
    Recorded(Result<(), Failure>),
}

/// [`PromotionEvent`] by its characters.
pub enum PromotionEventView {
    Ran(Result<StepRunView, Seq<Seq<char>>>),
    Recorded(Result<(), Seq<Seq<char>>>),
}

impl DeepView for PromotionEvent {
    type V = PromotionEventView;

    open spec fn deep_view(&self) -> PromotionEventView {
        match self {
            PromotionEvent::Ran(r) => PromotionEventView::Ran(outcome(*r)),
            PromotionEvent::Recorded(r) => PromotionEventView::Recorded(outcome(*r)),
        }
    }
}

/// Whether a promotion is in order: steps that went through answer to the first
/// steps of the plan, one for one; what comes behind a merge concerns a step
/// that is left, a tag that is to be created, and no dry run.
pub open spec fn in_order(run: PromotionRunView) -> bool {
    &&& run.done.len() <= run.steps.len()
    &&& forall|k: int|
        0 <= k < run.done.len() ==> (#[trigger] run.done[k]).roll == run.steps[k].roll
            && run.done[k].source == run.steps[k].source
    &&& run.stage is Trailer || run.stage is Tag ==> !run.dry_run && run.done.len()
        < run.steps.len()
    &&& run.stage is Tag ==> run.stage->Tag_ran.tag is Created
}

/// What to do in a promotion.
pub open spec fn promotion_action(run: PromotionRunView) -> PromotionActionView {
    match run.stage {
        PromotionStageView::Step => if run.done.len() >= run.steps.len() {
            PromotionActionView::Finished
        } else if run.dry_run {
            PromotionActionView::Check { step: run.done.len() }
        } else {
            PromotionActionView::Merge { step: run.done.len() }
        },
        PromotionStageView::Trailer { trailer, .. } => PromotionActionView::Append { trailer },
        PromotionStageView::Tag { ran } => PromotionActionView::CreateTag {
            tag: ran.tag->Created_tag,
            body: run.steps[run.done.len() as int].body,
        },
        PromotionStageView::Failed(e) => PromotionActionView::Failed(e),
    }
}

/// What is kept of a step that went through.
pub open spec fn step_done(step: PlannedStepView, ran: StepRunView) -> PromoteStepView {
    PromoteStepView {
        roll: step.roll,
        source: step.source,
        version: ran.version,
        gate_notices: ran.report.notices,
        host_results: ran.hosts.results,
        host_notices: ran.hosts.notices,
        tag: ran.tag,
    }
}

/// A promotion whose current step went through.
pub open spec fn with_step(run: PromotionRunView, ran: StepRunView) -> PromotionRunView {
    PromotionRunView {
        done: run.done.push(step_done(run.steps[run.done.len() as int], ran)),
        stage: PromotionStageView::Step,
        ..run
    }
}

/// A promotion whose current step was merged and recorded: a tag is created
/// where one is due, else the step went through.
pub open spec fn with_record(run: PromotionRunView, ran: StepRunView) -> PromotionRunView {
    if ran.tag is Created {
        PromotionRunView { stage: PromotionStageView::Tag { ran }, ..run }
    } else {
        with_step(run, ran)
    }
}

/// A promotion behind an event. An event that does not answer the action
/// changes nothing.
pub open spec fn promotion_next(run: PromotionRunView, event: PromotionEventView) -> PromotionRunView {
    match (run.stage, event) {
        (PromotionStageView::Step, PromotionEventView::Ran(r)) => if run.done.len()
            >= run.steps.len() {
            run
        } else {
            match r {
                Err(e) => PromotionRunView { stage: PromotionStageView::Failed(e), ..run },
                Ok(ran) => if run.dry_run {
                    with_step(run, ran)
                } else {
                    match trailer_of(ran.report.bypassed + ran.hosts.bypassed, run.reason) {
                        Some(trailer) => PromotionRunView {
                            stage: PromotionStageView::Trailer { ran, trailer },
                            ..run
                        },
                        None => with_record(run, ran),
                    }
                },
            }
        },
        (PromotionStageView::Trailer { ran, .. }, PromotionEventView::Recorded(r)) => match r {
            Err(e) => PromotionRunView { stage: PromotionStageView::Failed(e), ..run },
            Ok(_) => with_record(run, ran),
        },
        (PromotionStageView::Tag { ran }, PromotionEventView::Recorded(r)) => match r {
            Err(e) => PromotionRunView { stage: PromotionStageView::Failed(e), ..run },
            Ok(_) => with_step(run, ran),
        },
        _ => run,
    }
}

fn finish_step(step: &PlannedStep, ran: StepRun) -> (r: PromoteStep)
    ensures
        r.deep_view() == step_done(step.deep_view(), ran.deep_view()),
{
    PromoteStep {
        roll: copy_opt(&step.roll),
        source: step.source.clone(),
        version: ran.version,
        gate_notices: ran.report.notices,
        host_results: ran.hosts.results,
        host_notices: ran.hosts.notices,
        tag: ran.tag,
    }
}

impl PromotionRun {
    /// A promotion that carries out a plan.
    pub fn new(config: &Config, plan: PromotePlan, dry_run: bool, force: &ForceOpts) -> (r: PromotionRun)
        ensures
            r.deep_view() == (PromotionRunView {
                rolling: config.deep_view().rolling_branch,
                stable: config.deep_view().stable_branch,
                dry_run,
                reason: force.reason.deep_view(),
                steps: plan.deep_view().steps,
                skipped: plan.deep_view().skipped,
                done: seq![],
                stage: PromotionStageView::Step,
            }),
            in_order(r.deep_view()),
    {
        let done: Vec<PromoteStep> = Vec::new();
        assert(done.deep_view() =~= seq![]);
        PromotionRun {
            rolling: config.rolling_branch.clone(),
            stable: config.stable_branch.clone(),
            dry_run,
            reason: copy_opt(&force.reason),
            steps: plan.steps,
            skipped: plan.skipped,
            done,
            stage: PromotionStage::Step,
        }
    }

    /// What to do next.
    pub fn action(&self) -> (r: PromotionAction)
        requires
            in_order(self.deep_view()),
        ensures
            r.deep_view() == promotion_action(self.deep_view()),
    {
        let n = self.done.len();
        assert(self.deep_view().done.len() == n);
        assert(self.deep_view().steps.len() == self.steps@.len());
        match &self.stage {
            PromotionStage::Step => if n >= self.steps.len() {
                PromotionAction::Finished
            } else if self.dry_run {
                PromotionAction::Check { step: n }
            } else {
                PromotionAction::Merge { step: n }
            },
            PromotionStage::Trailer { trailer, .. } => PromotionAction::Append {
                trailer: trailer.clone(),
            },
            PromotionStage::Tag { ran } => {
                assert(self.deep_view().steps[n as int] == self.steps@[n as int].deep_view());
                let tag = match &ran.tag {
                    TagOutcome::Created { tag } => tag.clone(),
                    _ => {
                        assert(false);
                        "".to_owned()
                    },
                };
                PromotionAction::CreateTag { tag, body: copy_opt(&self.steps[n].body) }
            },
            PromotionStage::Failed(e) => PromotionAction::Failed(e.copy()),
        }
    }

    fn with_stage(self, stage: PromotionStage) -> (r: PromotionRun)
        ensures
            r.deep_view() == (PromotionRunView { stage: stage.deep_view(), ..self.deep_view() }),
    {
        PromotionRun {
            rolling: self.rolling,
            stable: self.stable,
            dry_run: self.dry_run,
            reason: self.reason,
            steps: self.steps,
            skipped: self.skipped,
            done: self.done,
            stage,
        }
    }

    fn step_through(self, ran: StepRun) -> (r: PromotionRun)
        requires
            self.done@.len() < self.steps@.len(),
        ensures
            r.deep_view() == with_step(self.deep_view(), ran.deep_view()),
    {
        let ghost before = self.done.deep_view();
        let mut done = self.done;
        let n = done.len();
        assert(self.steps.deep_view()[n as int] == self.steps@[n as int].deep_view());
        let step = finish_step(&self.steps[n], ran);
        let ghost view = step.deep_view();
        done.push(step);
        assert(done.deep_view() =~= before.push(view));
        PromotionRun {
            rolling: self.rolling,
            stable: self.stable,
            dry_run: self.dry_run,
            reason: self.reason,
            steps: self.steps,
            skipped: self.skipped,
            done,
            stage: PromotionStage::Step,
        }
    }

    fn record(self, ran: StepRun) -> (r: PromotionRun)
        requires
            self.done@.len() < self.steps@.len(),
        ensures
            r.deep_view() == with_record(self.deep_view(), ran.deep_view()),
    {
        let creates = match &ran.tag {
            TagOutcome::Created { .. } => true,
            _ => false,
        };
        if creates {
            self.with_stage(PromotionStage::Tag { ran })
        } else {
            self.step_through(ran)
        }
    }

    /// The promotion behind an event.
    pub fn advance(self, event: PromotionEvent) -> (r: PromotionRun)
        requires
            in_order(self.deep_view()),
        ensures
            r.deep_view() == promotion_next(self.deep_view(), event.deep_view()),
            in_order(r.deep_view()),
    {
        proof {
            law_promotions_stay_in_order(self.deep_view(), event.deep_view());
        }
        assert(self.deep_view().done.len() == self.done@.len());
        assert(self.deep_view().steps.len() == self.steps@.len());
        let PromotionRun { rolling, stable, dry_run, reason, steps, skipped, done, stage } = self;
        match (stage, event) {
            (PromotionStage::Step, PromotionEvent::Ran(r)) => {
                let run = PromotionRun {
                    rolling,
                    stable,
                    dry_run,
                    reason,
                    steps,
                    skipped,
                    done,
                    stage: PromotionStage::Step,
                };
                if run.done.len() >= run.steps.len() {
                    return run;
                }
                match r {
                    Err(e) => run.with_stage(PromotionStage::Failed(e)),
                    Ok(ran) => {
                        if run.dry_run {
                            return run.step_through(ran);
                        }
                        let force = ForceOpts { enabled: true, reason: copy_opt(&run.reason) };
                        match promotion_trailer(&force, &ran.report, &ran.hosts) {
                            Some(trailer) => run.with_stage(
                                PromotionStage::Trailer { ran, trailer },
                            ),
                            None => run.record(ran),
                        }
                    },
                }
            },
            (PromotionStage::Trailer { ran, trailer }, event) => {
                let run = PromotionRun {
                    rolling,
                    stable,
                    dry_run,
                    reason,
                    steps,
                    skipped,
                    done,
                    stage: PromotionStage::Step,
                };
                match event {
                    PromotionEvent::Recorded(Err(e)) => run.with_stage(PromotionStage::Failed(e)),
                    PromotionEvent::Recorded(Ok(_)) => run.record(ran),
                    PromotionEvent::Ran(_) => run.with_stage(
                        PromotionStage::Trailer { ran, trailer },
                    ),
                }
            },
            (PromotionStage::Tag { ran }, event) => {
                let run = PromotionRun {
                    rolling,
                    stable,
                    dry_run,
                    reason,
                    steps,
                    skipped,
                    done,
                    stage: PromotionStage::Step,
                };
                match event {
                    PromotionEvent::Recorded(Err(e)) => run.with_stage(PromotionStage::Failed(e)),
                    PromotionEvent::Recorded(Ok(_)) => run.step_through(ran),
                    PromotionEvent::Ran(_) => run.with_stage(PromotionStage::Tag { ran }),
                }
            },
            (stage, _) => PromotionRun {
                rolling,
                stable,
                dry_run,
                reason,
                steps,
                skipped,
                done,
                stage,
            },
        }
    }

    /// What the promotion came to, as far as it has come.
    pub fn into_outcome(self) -> (r: PromoteOutcome)
        ensures
            r.deep_view() == (PromoteOutcomeView {
                rolling: self.deep_view().rolling,
                stable: self.deep_view().stable,
                dry_run: self.dry_run,
                steps: self.deep_view().done,
                skipped: self.deep_view().skipped,
            }),
    {
        PromoteOutcome {
            rolling: self.rolling,
            stable: self.stable,
            dry_run: self.dry_run,
            steps: self.done,
            skipped: self.skipped,
        }
    }
}

// ── Laws ────────────────────────────────────────────────────────────────────

/// A promotion stays in order, whatever happens: what went through answers to
/// the first steps of the plan, one for one.
pub proof fn law_promotions_stay_in_order(run: PromotionRunView, event: PromotionEventView)
    requires
        in_order(run),
    ensures
        in_order(promotion_next(run, event)),
        promotion_next(run, event).steps == run.steps,
{
}

/// A step only goes through once it was checked and merged without a failure,
/// and no step goes through twice: at most one is added at a time, and a
/// failure adds none.
pub proof fn law_steps_go_through_one_by_one(run: PromotionRunView, event: PromotionEventView)
    requires
        in_order(run),
    ensures
        ({
            let next = promotion_next(run, event);
            &&& next.done == run.done || next.done == run.done.push(next.done.last())
            &&& next.stage is Failed ==> next.done == run.done
            &&& next.done != run.done ==> (event is Ran && event->Ran_0 is Ok) || (event is Recorded
                && event->Recorded_0 is Ok)
        }),
{
    let next = promotion_next(run, event);
    if next.done.len() > run.done.len() {
        assert(next.done =~= run.done.push(next.done.last()));
    }
}

/// The first failure ends a promotion: nothing is done behind it.
pub proof fn law_failed_promotions_end(run: PromotionRunView, event: PromotionEventView)
    requires
        run.stage is Failed,
    ensures
        promotion_next(run, event) == run,
        promotion_action(run) == PromotionActionView::Failed(run.stage->Failed_0),
{
}

/// A dry run merges nothing, amends nothing and tags nothing.
pub proof fn law_dry_promotions_change_nothing(run: PromotionRunView)
    requires
        in_order(run),
        run.dry_run,
    ensures
        promotion_action(run) !is Merge,
        promotion_action(run) !is Append,
        promotion_action(run) !is CreateTag,
{
}

/// What force bypassed is recorded before anything else is merged or tagged.
pub proof fn law_bypasses_are_recorded_first(run: PromotionRunView, ran: StepRunView)
    requires
        in_order(run),
        promotion_action(run) is Merge,
        ran.report.bypassed.len() + ran.hosts.bypassed.len() > 0,
    ensures
        promotion_action(promotion_next(run, PromotionEventView::Ran(Ok(ran)))) is Append,
{
}

/// A promotion is finished exactly when every step of the plan went through; until
/// then the next step in the plan is merged, or only checked in a dry run.
pub proof fn law_every_step_is_taken(run: PromotionRunView)
    requires
        in_order(run),
        run.stage is Step,
    ensures
        promotion_action(run) is Finished <==> run.done.len() == run.steps.len(),
        run.done.len() < run.steps.len() && run.dry_run ==> promotion_action(run)
            == (PromotionActionView::Check { step: run.done.len() }),
        run.done.len() < run.steps.len() && !run.dry_run ==> promotion_action(run)
            == (PromotionActionView::Merge { step: run.done.len() }),
{
}

/// A step that nothing was bypassed for goes through at once, unless a tag is due,
/// which is then created with the body of the step; in a dry run it always does.
/// What is kept of it is what its checks came to.
pub proof fn law_clean_steps_go_through(run: PromotionRunView, ran: StepRunView)
    requires
        in_order(run),
        run.stage is Step,
        run.done.len() < run.steps.len(),
    ensures
        ({
            let next = promotion_next(run, PromotionEventView::Ran(Ok(ran)));
            let clean = ran.report.bypassed.len() == 0 && ran.hosts.bypassed.len() == 0;
            let step = run.steps[run.done.len() as int];
            &&& run.dry_run || (clean && ran.tag !is Created) ==> next.stage is Step
                && next.done.len() == run.done.len() + 1 && next.done.last().version == ran.version
                && next.done.last().gate_notices == ran.report.notices
                && next.done.last().host_results == ran.hosts.results && next.done.last().tag
                == ran.tag && next.done.last().source == step.source
            &&& !run.dry_run && clean && ran.tag is Created ==> promotion_action(next) == (
            PromotionActionView::CreateTag { tag: ran.tag->Created_tag, body: step.body })
        }),
{
}

/// A failure ends a promotion wherever it comes: in the checks and the merge, in
/// the record of what was bypassed, and in the tag.
pub proof fn law_any_failure_ends_a_promotion(run: PromotionRunView, e: Seq<Seq<char>>)
    requires
        in_order(run),
    ensures
        run.stage is Step && run.done.len() < run.steps.len() ==> promotion_next(
            run,
            PromotionEventView::Ran(Err(e)),
        ).stage == PromotionStageView::Failed(e),
        run.stage is Trailer || run.stage is Tag ==> promotion_next(
            run,
            PromotionEventView::Recorded(Err(e)),
        ).stage == PromotionStageView::Failed(e),
{
}

/// Once what was bypassed is recorded the step is tagged where a tag is due, and
/// goes through where none is; once it is tagged it goes through.
pub proof fn law_recorded_steps_go_through(run: PromotionRunView)
    requires
        in_order(run),
        run.stage is Trailer || run.stage is Tag,
    ensures
        ({
            let next = promotion_next(run, PromotionEventView::Recorded(Ok(())));
            let ran = if run.stage is Trailer {
                run.stage->Trailer_ran
            } else {
                run.stage->Tag_ran
            };
            &&& run.stage is Trailer && ran.tag is Created ==> next.stage is Tag && next.done
                == run.done
            &&& run.stage is Tag || ran.tag !is Created ==> next.stage is Step && next.done.len()
                == run.done.len() + 1 && next.done.last().tag == ran.tag
        }),
{
}

} // verus!
