use roll_flow::branches::{BranchLocation, RollInfo, RollState};
use roll_flow::config::{Config, Mode};
use roll_flow::error::RfError;
use roll_flow::failure::Failure;
use roll_flow::git::{git_not_run, GitReply};
use roll_flow::ops::gates::{GateNotice, HostResult};
use roll_flow::ops::promote::{PromoteOutcome, PromoteStep, SkippedRoll, UpdateItem, UpdateOutcome};
use roll_flow::ops::release::TagOutcome;
use roll_flow::proc::{pump_line, OutLine};
use roll_flow::report::commands::{
    config_diff, ensure_on_roll, hotfix_command, init_mode, plan_init, promote_command,
    HotfixCommand, InitAction, PromoteCommand,
};
use roll_flow::report::lines::{
    print_promote, print_update, render_gate_notices, render_verify, resolve_integrate_target,
    run_op, run_verify, OpOutcome, VerifyOutcome,
};
use roll_flow::report::tables::{list_text, print_rolls_table, rolls_for_json};
use roll_flow::sync::{run_push, PushOutcome, SyncTarget};
use roll_flow::version::{VersionCheck, VersionStatus};

fn config() -> Config {
    let text = "rolling_branch = \"rolling\"\nstable_branch = \"main\"\nroll_prefix = \"roll/\"\n";
    Config::parse(text, "/repo").expect("the required keys are there").0
}

fn roll(number: u32) -> RollInfo {
    RollInfo {
        branch: format!("roll/{number}-x"),
        number,
        state: RollState::Active,
        location: BranchLocation::Both,
        is_current: number == 1,
        deps: vec![2, 3],
        dependents: Vec::new(),
        graduation_commit: None,
    }
}

fn verified(status: VersionStatus, failed: &[&str]) -> VerifyOutcome {
    VerifyOutcome {
        source: "rolling".to_string(),
        target: "main".to_string(),
        diverged_note: true,
        version: VersionCheck { head: None, base: None, status },
        gate_notices: vec![GateNotice::NoGates],
        host_results: vec![HostResult { host: "wsl".to_string(), failures: Vec::new() }],
        host_notices: Vec::new(),
        failed_hosts: failed.iter().map(|s| s.to_string()).collect(),
    }
}

#[test]
fn output_is_decoded_and_stripped_of_its_line_end() {
    assert_eq!(pump_line(&b"caf\xc3\xa9\r\n".to_vec(), false), OutLine::Out("café".to_string()));
    assert_eq!(pump_line(&b"a\xff".to_vec(), true), OutLine::Error("a\u{fffd}".to_string()));
}

#[test]
fn differences_are_shown_line_by_line() {
    assert_eq!(config_diff("a = 1\nb = 2\n", "a = 1\nb = 3\nc = 4\n"), "-b = 2\n+b = 3\n+c = 4\n");
    assert_eq!(config_diff("a = 1\n", "a = 1\n"), "");
}

#[test]
fn initialising_again_keeps_an_unchanged_file() {
    let same = Some("a = 1\n".to_string());
    let plan = plan_init("/r/.roll-flow.toml", &same, "a = 1\n", false, true, true);
    assert_eq!(plan.action, InitAction::Keep);
    assert_eq!(plan.kept, ["roll-flow config already up to date (no changes)"]);
    assert_eq!(
        plan_init("/p", &same, "a = 1\n", true, false, false).action,
        InitAction::Write
    );
    let first = plan_init("/p", &None, "a = 1\n", false, false, false);
    assert_eq!(first.action, InitAction::Write);
    assert_eq!(first.written, "Initialized roll-flow at /p");
    // A differing file is only written with consent.
    assert_eq!(plan_init("/p", &same, "b = 1\n", false, false, true).action, InitAction::Ask);
    let unattended = plan_init("/p", &same, "b = 1\n", false, false, false);
    assert_eq!(unattended.action, InitAction::Keep);
    assert_eq!(unattended.diff, "-a = 1\n+b = 1\n");
    assert_eq!(unattended.kept.len(), 2);
    assert_eq!(plan_init("/p", &same, "b = 1\n", false, true, false).action, InitAction::Write);
}

#[test]
fn a_named_mode_wins_over_the_one_on_disk() {
    let named = Some(" Assist ".to_string());
    assert_eq!(init_mode(&named, Some(Mode::Manage), Mode::Manage).expect("a mode"), Mode::Assist);
    assert_eq!(init_mode(&None, Some(Mode::Assist), Mode::Manage).expect("a mode"), Mode::Assist);
    assert_eq!(init_mode(&None, None, Mode::Manage).expect("a mode"), Mode::Manage);
    let err = init_mode(&Some("boss".to_string()), None, Mode::Manage).expect_err("no mode");
    assert!(err.to_string().contains("invalid --mode 'boss'"));
}

#[test]
fn commands_are_directed_by_the_branch_they_run_on() {
    assert!(matches!(hotfix_command(true, &None), Ok(HotfixCommand::Land)));
    assert!(hotfix_command(false, &None).is_err());
    assert!(matches!(hotfix_command(false, &Some("x".to_string())),
        Ok(HotfixCommand::Create(s)) if s == "x"));
    assert!(ensure_on_roll(&config(), "roll/1-x").is_ok());
    assert!(ensure_on_roll(&config(), "rolling").is_err());
    let named = vec!["roll/1-x".to_string()];
    assert!(matches!(
        promote_command(&config(), &named, true, "main"),
        Ok(PromoteCommand::Rolls { warning: Some(_) })
    ));
    assert!(matches!(promote_command(&config(), &Vec::new(), false, "roll/1-x"),
        Ok(PromoteCommand::Graduate { roll, .. }) if roll == "roll/1-x"));
    assert!(matches!(
        promote_command(&config(), &Vec::new(), false, "rolling"),
        Ok(PromoteCommand::Rolling)
    ));
    assert!(promote_command(&config(), &Vec::new(), false, "main").is_err());
}

#[test]
fn verification_reports_and_fails_for_a_reason() {
    let (lines, failure) = render_verify(&verified(VersionStatus::Raised, &[]), false);
    assert!(failure.is_none());
    assert_eq!(lines.last().unwrap().text(), "Verification passed: rolling -> main");
    let (_, failure) = render_verify(&verified(VersionStatus::Raised, &["wsl"]), false);
    assert_eq!(failure.unwrap().to_string(), "host verification failed: wsl");
    let (_, failure) = render_verify(&verified(VersionStatus::Unchanged, &[]), false);
    assert!(failure.is_some());
    let (_, failure) = render_verify(&verified(VersionStatus::Unchanged, &[]), true);
    assert!(failure.is_none());
    assert!(run_verify(&verified(VersionStatus::Raised, &[])).is_ok());
    assert!(run_verify(&verified(VersionStatus::Lower, &[])).is_err());
}

#[test]
fn a_promotion_reports_every_roll() {
    let outcome = || PromoteOutcome {
        rolling: "rolling".to_string(),
        stable: "main".to_string(),
        dry_run: false,
        steps: vec![PromoteStep {
            roll: Some("roll/1-x".to_string()),
            source: "abc".to_string(),
            version: VersionCheck::not_applicable(),
            gate_notices: vec![GateNotice::NoGates],
            host_results: Vec::new(),
            host_notices: Vec::new(),
            tag: TagOutcome::Skipped,
        }],
        skipped: vec![SkippedRoll { roll: "roll/2-x".to_string(), reason: "done".to_string() }],
    };
    let said: Vec<String> =
        print_promote(&outcome()).iter().map(|l| l.text().to_string()).collect();
    assert_eq!(
        said,
        ["No gates configured", "Promoted 'roll/1-x' into 'main'", "skipped 'roll/2-x': done"]
    );
    let panel = run_op(&OpOutcome::Promoted(outcome()));
    assert!(panel.iter().any(|l| l.contains("roll/2-x")), "{panel:?}");
}

#[test]
fn updates_are_reported_roll_by_roll() {
    let o = UpdateOutcome::Ran {
        stable: "main".to_string(),
        items: vec![
            UpdateItem::AlreadyUpToDate { roll: "roll/1-x".to_string() },
            UpdateItem::WouldMerge { roll: "roll/2-x".to_string(), behind: 1 },
            UpdateItem::WouldMerge { roll: "roll/3-x".to_string(), behind: 2 },
            UpdateItem::Updated { roll: "roll/4-x".to_string() },
        ],
    };
    assert_eq!(
        print_update(&o, false),
        [
            "'roll/1-x' is already up to date with 'main'",
            "dry-run: would merge 'main' into 'roll/2-x' (1 commit ahead)",
            "dry-run: would merge 'main' into 'roll/3-x' (2 commits ahead)",
            "updated 'roll/4-x' with 'main'",
        ]
    );
    assert_eq!(
        print_update(&UpdateOutcome::NoActiveRolls, false),
        ["no active local rolls to update"]
    );
}

#[test]
fn notices_go_to_their_streams() {
    let notices = vec![
        GateNotice::DryRun("make".to_string()),
        GateNotice::Bypassed { gate: "make".to_string(), code: Some(2) },
    ];
    let lines = render_gate_notices(&notices);
    assert_eq!(lines[0], OutLine::Out("Dry-run gate: make".to_string()));
    assert!(lines[1].is_err());
}

#[test]
fn a_number_names_a_roll() {
    let rolls = vec![roll(1), roll(2)];
    assert_eq!(resolve_integrate_target("2", &rolls).expect("a roll"), "roll/2-x");
    assert_eq!(resolve_integrate_target("feature/a", &rolls).expect("a name"), "feature/a");
    assert_eq!(
        resolve_integrate_target("7", &rolls).unwrap_err().to_string(),
        "no roll with number 7"
    );
}

#[test]
fn tables_show_every_roll() {
    let rolls = vec![roll(1), roll(2)];
    for table in [list_text(&rolls, true), print_rolls_table(&rolls, &Vec::new(), true)] {
        for r in &rolls {
            assert!(table.iter().any(|l| l.contains(&r.branch)), "{table:?}");
        }
    }
    let json = rolls_for_json(&rolls);
    assert_eq!(json.len(), 2);
    assert_eq!(json[0].state, "active");
    assert_eq!(json[0].deps, [2, 3]);
}

#[test]
fn errors_say_what_they_are_about() {
    let errors = [
        RfError::Git("g".to_string()),
        RfError::Config("c".to_string()),
        RfError::BranchNotFound("b".to_string()),
        RfError::Parse("p".to_string()),
        RfError::Io("i".to_string()),
    ];
    for (e, inner) in errors.iter().zip(["g", "c", "b", "p", "i"]) {
        assert!(e.to_string().ends_with(inner), "{e:?}");
        assert_eq!(Failure::from_error(e).to_string(), e.to_string());
    }
}

#[test]
fn a_rejected_push_is_an_outcome_and_no_error() {
    let target = SyncTarget::resolve("roll/1", "roll/1", BranchLocation::Local, None);
    let reply = |success: bool, stderr: &str| GitReply {
        success,
        status: "exit status: 1".to_string(),
        stdout: String::new(),
        stderr: stderr.to_string(),
    };
    let rejected = reply(false, " ! [rejected] main -> main (non-fast-forward)");
    assert!(matches!(run_push(&target, false, &rejected), Ok(PushOutcome::Rejected { .. })));
    assert!(matches!(run_push(&target, false, &reply(true, "")), Ok(PushOutcome::Pushed)));
    assert!(run_push(&target, false, &reply(false, "fatal: no such remote")).is_err());
    assert_eq!(
        git_not_run("git push", "no git").to_string(),
        "`git push` could not run: no git"
    );
    // A lease that fails is no question to ask again.
    let stale = reply(false, " ! [rejected] main -> main (stale info)");
    assert!(run_push(&target, true, &stale).is_err());
}
