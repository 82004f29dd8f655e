use roll_flow::branches::{
    check_graduated, check_promoted, extract_graduated_branch, find_graduation_commit,
    scan_promoted, BranchLocation, RollInfo, RollState,
};
use roll_flow::config::Config;
use roll_flow::git::log_with_body;
use roll_flow::ops::gates::{ForceOpts, GateBypass, GateReport};
use roll_flow::ops::merge::{MergeAction, MergeEvent, MergeRun};
use roll_flow::ops::names::{landing_merges, LandPlan};
use roll_flow::ops::promote::{
    graduation_merge, plan_roll_steps, promote_subject_and_body, update_merge,
};
use roll_flow::ops::trailer::message_with_trailer;

fn config() -> Config {
    let text = "rolling_branch = \"rolling\"\nstable_branch = \"main\"\nroll_prefix = \"roll/\"\n";
    Config::parse(text, "/repo").expect("the required keys are there").0
}

fn roll(number: u32, state: RollState) -> RollInfo {
    RollInfo {
        branch: format!("roll/{number}-x"),
        number,
        state,
        location: BranchLocation::Both,
        is_current: false,
        deps: Vec::new(),
        dependents: Vec::new(),
        graduation_commit: Some(format!("abc{number}")),
    }
}

fn report() -> GateReport {
    GateReport { bypassed: Vec::new(), notices: Vec::new() }
}

/// The commits of a log that holds one with this message.
fn logged(subject: &str, body: &str) -> Vec<(String, String)> {
    log_with_body(&format!("Start\n\u{1e}RF\u{1e}\n{subject}\n{body}\n\u{1e}RF\u{1e}"))
}

fn merge_args(run: MergeRun) -> Vec<String> {
    match run.advance(MergeEvent::Git(Ok(()))).action() {
        MergeAction::Git(args) => args,
        _ => panic!("the merge should be made"),
    }
}

#[test]
fn graduations_are_read_back() {
    let run = graduation_merge("roll/1-x", "rolling", "main", &ForceOpts::none(), &report());
    assert_eq!(extract_graduated_branch(&run.subject).as_deref(), Some("roll/1-x"));
    let subjects = Some(vec!["Start".to_string(), run.subject.clone()]);
    assert!(check_graduated(&subjects, "roll/1-x"));
    assert!(!check_graduated(&subjects, "roll/2-x"));
    let log = Some(format!("fff\tStart\nabc\t{}\n", run.subject));
    assert_eq!(find_graduation_commit(&log, "roll/1-x").as_deref(), Some("abc"));
    assert!(check_promoted(&logged(&run.subject, ""), "roll/1-x"));
    assert_eq!(merge_args(run)[..2], ["merge", "--no-ff"]);
}

#[test]
fn promotions_of_a_roll_are_read_back() {
    let known = vec![roll(1, RollState::Graduated), roll(2, RollState::Graduated)];
    let order = vec!["abc2".to_string(), "abc1".to_string()];
    let names = vec!["roll/2-x".to_string(), "roll/1-x".to_string()];
    let plan = plan_roll_steps(&config(), &known, &order, &Vec::new(), &names).expect("a plan");
    for (step, number) in plan.steps.iter().zip([1, 2]) {
        // What is merged is the graduation, not the branch.
        assert_eq!(step.source, format!("abc{number}"));
        let body = step.body.as_deref().expect("the roll is listed");
        let commits = logged(&step.subject, body);
        assert!(check_promoted(&commits, &format!("roll/{number}-x")));
        assert!(!check_promoted(&commits, "roll/3-x"));
    }
}

#[test]
fn promotions_of_rolling_are_read_back_with_and_without_a_trailer() {
    let rolls = vec![
        roll(1, RollState::Graduated),
        roll(2, RollState::Active),
        roll(3, RollState::Diverged),
    ];
    let (subject, body) = promote_subject_and_body(&config(), &rolls);
    let body = body.expect("rolls are included");
    let force = ForceOpts::new(true, Some("hotfix".to_string())).expect("a reason is given");
    let bypassed = vec![GateBypass { gate: "check".to_string(), code: Some(1) }];
    let trailer = force.trailer(&bypassed).expect("something was bypassed");
    for body in [body.clone(), message_with_trailer(&body, &trailer)] {
        let promoted = scan_promoted(&logged(&subject, &body));
        assert!(promoted.contains(&"roll/1-x".to_string()), "{promoted:?}");
        assert!(promoted.contains(&"roll/3-x".to_string()), "{promoted:?}");
        assert!(!promoted.contains(&"roll/2-x".to_string()), "{promoted:?}");
    }
    assert_eq!(extract_graduated_branch(&subject), None);
}

#[test]
fn other_merges_name_no_branch() {
    let plan = LandPlan {
        current: "hotfix/3-0102-fix".to_string(),
        stable: "main".to_string(),
        rolling: "rolling".to_string(),
        land_subject: "Hotfix hotfix/3-fix into main".to_string(),
        reintegrate_subject: "Reintegrate main into rolling (hotfix hotfix/3-fix)".to_string(),
    };
    let (land, reintegrate) = landing_merges(&plan, "hotfix/3-0102-fix");
    let update = update_merge("roll/1-x", "main", "main", 2, "abc");
    for run in [&land, &reintegrate, &update] {
        assert_eq!(extract_graduated_branch(&run.subject), None);
        assert!(!check_promoted(&logged(&run.subject, "roll/1-x"), "roll/1-x"));
    }
    assert_eq!((land.source.as_str(), land.target.as_str()), ("hotfix/3-0102-fix", "main"));
    assert_eq!((reintegrate.source.as_str(), reintegrate.target.as_str()), ("main", "rolling"));
    assert!(!land.gated && !reintegrate.gated);
    assert_eq!(reintegrate.original, "hotfix/3-0102-fix");
    assert_eq!(
        merge_args(reintegrate),
        [
            "merge",
            "--no-ff",
            "--no-edit",
            "-m",
            "Reintegrate main into rolling (hotfix hotfix/3-fix)",
            "main",
        ]
    );
}
