use roll_flow::branches::{BranchLocation, RollInfo, RollState};
use roll_flow::config::Config;
use roll_flow::failure::Failure;
use roll_flow::ops::gates::{
    ForceOpts, GateBypass, GateReport, HostReport, HostResult,
};
use roll_flow::ops::merge::MergeAction;
use roll_flow::ops::promote::{
    graduate, graduation_merge, host_verdict, plan_roll_steps, plan_rolling_step, plan_update,
    promotion_merge, rolling_commit_order, rolls_to_update, update, update_merge, UpdateItem,
    UpdateOutcome, UpdateStep,
};
use roll_flow::ops::promotion::{PromotionAction, PromotionEvent, PromotionRun, StepRun};
use roll_flow::ops::release::TagOutcome;
use roll_flow::ops::route::{LocalTarget, MergeFacts};
use roll_flow::version::VersionCheck;

fn config() -> Config {
    let text = "rolling_branch = \"rolling\"\nstable_branch = \"main\"\nroll_prefix = \"roll/\"\n";
    Config::parse(text, "/repo").expect("the required keys are there").0
}

fn texts(items: &[&str]) -> Vec<String> {
    items.iter().map(|s| s.to_string()).collect()
}

fn roll(number: u32, state: RollState, commit: Option<&str>) -> RollInfo {
    RollInfo {
        branch: format!("roll/{number}-x"),
        number,
        state,
        location: BranchLocation::Local,
        is_current: false,
        deps: Vec::new(),
        dependents: Vec::new(),
        graduation_commit: commit.map(str::to_string),
    }
}

fn diverged() -> MergeFacts {
    MergeFacts {
        target_exists: true,
        source_sha: Ok("s".to_string()),
        target_sha: Ok("t".to_string()),
        source_in_target: Ok(false),
        target_in_source: Ok(false),
        has_base: true,
    }
}

fn no_gates() -> GateReport {
    GateReport { bypassed: Vec::new(), notices: Vec::new() }
}

fn no_hosts() -> HostReport {
    HostReport { results: Vec::new(), notices: Vec::new(), bypassed: Vec::new() }
}

fn ran(bypassed: Vec<GateBypass>, tag: TagOutcome) -> StepRun {
    StepRun {
        version: VersionCheck::not_applicable(),
        report: GateReport { bypassed, notices: Vec::new() },
        hosts: no_hosts(),
        tag,
    }
}

#[test]
fn graduating_a_promoted_roll_is_refused() {
    let err = graduate(&config(), "roll/1-x", true, true, true, false, &diverged());
    assert_eq!(
        err.unwrap_err().to_string(),
        "'roll/1-x' has already been promoted to 'main'"
    );
}

#[test]
fn graduating_creates_a_missing_local_rolling() {
    let plan = graduate(&config(), "roll/1-x", false, false, true, false, &diverged())
        .expect("rolling is on origin");
    match plan.target {
        LocalTarget::Create { args, reference, .. } => {
            assert_eq!(args, ["branch", "rolling", "origin/rolling"]);
            assert_eq!(reference, "rolling");
        }
        LocalTarget::Use { .. } => panic!("there is no local rolling"),
    }
    assert!(graduate(&config(), "roll/1-x", false, false, false, false, &diverged()).is_err());
}

#[test]
fn graduating_needs_something_to_merge() {
    let merged = MergeFacts { source_in_target: Ok(true), ..diverged() };
    let err = graduate(&config(), "roll/1-x", false, true, true, false, &merged);
    assert_eq!(
        err.unwrap_err().to_string(),
        "nothing to graduate: 'roll/1-x' has no commits that 'rolling' lacks (already up to date)"
    );
    let unrelated = MergeFacts { has_base: false, ..diverged() };
    let err = graduate(&config(), "roll/1-x", false, true, true, false, &unrelated);
    assert_eq!(
        err.unwrap_err().to_string(),
        "'roll/1-x' and 'rolling' share no common history"
    );
    let gone = MergeFacts { source_sha: Err(Failure::msg("bad ref".to_string())), ..diverged() };
    let err = graduate(&config(), "roll/1-x", false, true, true, false, &gone);
    assert_eq!(
        err.unwrap_err().chain,
        ["source branch 'roll/1-x' not found", "bad ref"]
    );
}

#[test]
fn a_graduation_names_the_roll() {
    let run = graduation_merge("roll/1-x", "rolling", "roll/1-x", &ForceOpts::none(), &no_gates());
    assert_eq!(run.subject, "Graduate roll/1-x into rolling");
    assert_eq!(run.body, None);
    assert!(!run.gated);
}

#[test]
fn promoting_rolling_lists_what_graduated() {
    let rolls = vec![
        roll(1, RollState::Graduated, Some("a")),
        roll(2, RollState::Active, None),
        roll(3, RollState::Diverged, Some("b")),
    ];
    let step = plan_rolling_step(&config(), &rolls, true, &diverged()).expect("viable");
    assert_eq!(step.subject, "Promote rolling to main");
    assert_eq!(step.body.as_deref(), Some("Rolls:\n  roll/1-x\n  roll/3-x\n"));
    // With one roll the subject names it.
    let one = plan_rolling_step(&config(), &vec![roll(1, RollState::Graduated, None)], true, &diverged());
    assert_eq!(one.expect("viable").subject, "Promote roll/1-x to main");
    let none = plan_rolling_step(&config(), &Vec::new(), true, &diverged()).expect("viable");
    assert_eq!(none.body, None);
}

#[test]
fn named_rolls_are_promoted_in_the_order_they_graduated() {
    let known = vec![
        roll(1, RollState::Graduated, Some("aaa")),
        roll(2, RollState::Graduated, Some("bbb")),
        roll(3, RollState::Promoted, Some("ccc")),
    ];
    // Newest first, as git lists them.
    let order = rolling_commit_order(&Some("bbb\naaa\nccc\n".to_string()));
    let names = texts(&["roll/2-x", "roll/1-x", "roll/3-x", "roll/2-x"]);
    let plan = plan_roll_steps(&config(), &known, &order, &texts(&["ccc"]), &names)
        .expect("all have graduated");
    let sources: Vec<&str> = plan.steps.iter().map(|s| s.source.as_str()).collect();
    assert_eq!(sources, ["aaa", "bbb"]);
    assert_eq!(plan.steps[0].subject, "Promote roll/1-x to main");
    assert_eq!(plan.skipped.len(), 1);
    assert_eq!(plan.skipped[0].reason, "already contained in 'main'");
}

#[test]
fn rolls_that_cannot_be_promoted_are_refused() {
    let known = vec![roll(1, RollState::Active, None)];
    let plan = |names: &[&str]| {
        plan_roll_steps(&config(), &known, &Vec::new(), &Vec::new(), &texts(names))
            .expect_err("refused")
            .to_string()
    };
    assert_eq!(plan(&[]), "no rolls named to promote");
    assert!(plan(&["roll/1-x"]).contains("has not graduated"));
    assert!(plan(&["roll/9-x"]).contains("no such roll: 'roll/9-x'"));
}

#[test]
fn a_failing_host_blocks_unless_forced() {
    let failed = GateBypass { gate: "build wsl".to_string(), code: Some(1) };
    let report = HostReport {
        results: vec![HostResult { host: "wsl".to_string(), failures: vec![failed] }],
        notices: Vec::new(),
        bypassed: Vec::new(),
    };
    assert_eq!(
        host_verdict(&report, false).unwrap_err().to_string(),
        "host verification failed: wsl"
    );
    assert!(host_verdict(&report, true).is_ok());
}

#[test]
fn rolls_are_updated_where_they_are_behind() {
    let mut remote = roll(3, RollState::Active, None);
    remote.location = BranchLocation::Remote;
    let rolls = vec![
        roll(1, RollState::Active, None),
        roll(2, RollState::Graduated, None),
        remote,
        roll(4, RollState::Blocked, None),
    ];
    assert_eq!(rolls_to_update(&rolls), ["roll/1-x", "roll/4-x"]);
    assert!(matches!(
        plan_update("roll/1-x", "0\n", false),
        UpdateStep::Report(UpdateItem::AlreadyUpToDate { .. })
    ));
    assert!(matches!(
        plan_update("roll/1-x", "3", true),
        UpdateStep::Report(UpdateItem::WouldMerge { behind: 3, .. })
    ));
    assert!(matches!(plan_update("roll/1-x", "3", false), UpdateStep::Merge { behind: 3 }));
    let run = update_merge("roll/1-x", "main", "rolling", 3, "abc");
    assert_eq!(run.subject, "Update roll/1-x from main");
    assert_eq!(run.body.as_deref(), Some("Brought in: 3 commits since abc"));
    assert!(matches!(
        update(&config(), &vec![roll(2, RollState::Graduated, None)], Vec::new()),
        UpdateOutcome::NoActiveRolls
    ));
}

#[test]
fn a_promotion_merges_one_step_behind_the_other() {
    let known = vec![
        roll(1, RollState::Graduated, Some("aaa")),
        roll(2, RollState::Graduated, Some("bbb")),
    ];
    let order = texts(&["bbb", "aaa"]);
    let names = texts(&["roll/1-x", "roll/2-x"]);
    let plan = plan_roll_steps(&config(), &known, &order, &Vec::new(), &names).expect("planned");
    let merge = promotion_merge(&plan.steps[0], "main", "rolling");
    assert!(merge.gated);
    assert!(matches!(merge.action(), MergeAction::Git(_)));

    let force = ForceOpts::new(true, Some("why".to_string())).expect("a reason is given");
    let run = PromotionRun::new(&config(), plan, false, &force);
    assert!(matches!(run.action(), PromotionAction::Merge { step: 0 }));
    // The first step bypassed a gate, so a trailer comes before the tag.
    let bypass = GateBypass { gate: "make".to_string(), code: Some(2) };
    let created = TagOutcome::Created { tag: "v1.0.0".to_string() };
    let run = run.advance(PromotionEvent::Ran(Ok(ran(vec![bypass], created))));
    match run.action() {
        PromotionAction::Append { trailer } => assert!(trailer.ends_with("Force-Reason: why")),
        other => panic!("a trailer is due: {other:?}"),
    }
    let run = run.advance(PromotionEvent::Recorded(Ok(())));
    match run.action() {
        PromotionAction::CreateTag { tag, body } => {
            assert_eq!(tag, "v1.0.0");
            assert_eq!(body.as_deref(), Some("Rolls:\n  roll/1-x\n"));
        }
        other => panic!("a tag is due: {other:?}"),
    }
    let run = run.advance(PromotionEvent::Recorded(Ok(())));
    assert!(matches!(run.action(), PromotionAction::Merge { step: 1 }));
    // The second step has nothing to record.
    let run = run.advance(PromotionEvent::Ran(Ok(ran(Vec::new(), TagOutcome::Skipped))));
    assert!(matches!(run.action(), PromotionAction::Finished));
    let outcome = run.into_outcome();
    assert_eq!(outcome.steps.len(), 2);
    assert_eq!(outcome.steps[0].roll.as_deref(), Some("roll/1-x"));
    assert_eq!(outcome.steps[1].source, "bbb");
}

#[test]
fn the_first_failure_ends_a_promotion() {
    let rolls = vec![roll(1, RollState::Graduated, Some("a"))];
    let step = plan_rolling_step(&config(), &rolls, true, &diverged()).expect("viable");
    let plan = roll_flow::ops::promote::PromotePlan { steps: vec![step], skipped: Vec::new() };
    let run = PromotionRun::new(&config(), plan, false, &ForceOpts::none());
    let run = run.advance(PromotionEvent::Ran(Err(Failure::msg("gate failed: x".to_string()))));
    assert!(matches!(run.action(), PromotionAction::Failed(e) if e.to_string() == "gate failed: x"));
    let run = run.advance(PromotionEvent::Recorded(Ok(())));
    assert!(matches!(run.action(), PromotionAction::Failed(_)));
    assert!(run.into_outcome().steps.is_empty());
}

#[test]
fn a_dry_promotion_only_checks() {
    let rolls = vec![roll(1, RollState::Graduated, Some("a"))];
    let step = plan_rolling_step(&config(), &rolls, true, &diverged()).expect("viable");
    let plan = roll_flow::ops::promote::PromotePlan { steps: vec![step], skipped: Vec::new() };
    let run = PromotionRun::new(&config(), plan, true, &ForceOpts::none());
    assert!(matches!(run.action(), PromotionAction::Check { step: 0 }));
    let planned = TagOutcome::Planned { tag: "v1.0.0".to_string() };
    let run = run.advance(PromotionEvent::Ran(Ok(ran(Vec::new(), planned))));
    assert!(matches!(run.action(), PromotionAction::Finished));
}
