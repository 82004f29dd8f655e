use roll_flow::branches::{BranchLocation, RollInfo, RollState};
use roll_flow::config::Config;
use roll_flow::failure::Failure;
use roll_flow::proc::OutLine;
use roll_flow::tui::app::{Effect, LazygitExit, Mode, StatusApp};
use roll_flow::tui::output::{render, Followup, JobDone, Panel, Status};
use roll_flow::tui::rolls::{Action, DeletePrompt, DeleteScope};
use roll_flow::tui::style::{centered_rect, KeyCode, Rect};
use roll_flow::version::{BumpLevel, Semver};

fn roll(number: u32, state: RollState) -> RollInfo {
    RollInfo {
        branch: format!("roll/{number}-x"),
        number,
        state,
        location: BranchLocation::Both,
        is_current: false,
        deps: Vec::new(),
        dependents: Vec::new(),
        graduation_commit: None,
    }
}

fn refs() -> Vec<String> {
    ["main", "origin/main", "rolling"].iter().map(|s| s.to_string()).collect()
}

fn app() -> StatusApp {
    let text = "rolling_branch = \"rolling\"\nstable_branch = \"main\"\nroll_prefix = \"roll/\"\n";
    let config = Config::parse(text, "/repo").expect("the required keys are there").0;
    let rolls = vec![roll(1, RollState::Active), roll(2, RollState::Promoted)];
    let version = Semver::parse("1.2.3");
    StatusApp::new(config, "rolling".to_string(), &refs(), rolls, Vec::new(), version, true)
}

fn press(app: &mut StatusApp, keys: &str) -> Vec<Effect> {
    let mut effects = Vec::new();
    for c in keys.chars() {
        effects.extend(app.handle_key(KeyCode::Char(c)));
    }
    effects
}

#[test]
fn the_cursor_starts_on_the_branch_that_is_checked_out_and_stays_on_the_rows() {
    let mut a = app();
    assert_eq!(a.selected, Some(1));
    press(&mut a, "jjjjj");
    assert_eq!(a.selected, Some(3));
    press(&mut a, "kkkkkkk");
    assert_eq!(a.selected, Some(0));
}

#[test]
fn an_action_is_confirmed_before_it_runs() {
    let mut a = app();
    press(&mut a, "j");
    assert!(press(&mut a, "G").is_empty());
    assert!(matches!(&a.mode, Mode::Confirm { action: Action::Graduate, target: Some(t) } if t == "roll/1-x"));
    // Any other key leaves the question open.
    assert!(press(&mut a, "z").is_empty());
    let effects = press(&mut a, "y");
    assert!(matches!(&effects[..], [Effect::Run { action: Action::Graduate, .. }]));
    assert!(a.running);
    assert!(matches!(a.mode, Mode::Browsing));
}

#[test]
fn a_running_job_holds_back_others() {
    let mut a = app();
    press(&mut a, "x");
    press(&mut a, "y");
    assert!(a.running);
    for keys in ["f", "v", "P", "x", "d", "b", "c", "gg"] {
        assert!(press(&mut a, keys).is_empty(), "{keys}");
        assert!(matches!(a.mode, Mode::Browsing), "{keys}");
    }
    a.job_over();
    assert!(!press(&mut a, "f").is_empty());
}

#[test]
fn deleting_uncontained_commits_takes_a_second_yes() {
    let mut a = app();
    press(&mut a, "j");
    let effects = press(&mut a, "d");
    assert!(matches!(&effects[..], [Effect::CountUnmerged { branch }] if branch == "roll/1-x"));
    a.counted(Some(2), Some(0));
    assert!(press(&mut a, "b").is_empty());
    assert!(matches!(&a.mode,
        Mode::Delete { preview } if preview.prompt == DeletePrompt::ForceConfirm(DeleteScope::Both)));
    let effects = press(&mut a, "y");
    assert!(matches!(&effects[..],
        [Effect::Delete { scope: DeleteScope::Both, force: true, .. }]));
}

#[test]
fn a_bump_is_chosen_by_its_number() {
    let mut a = app();
    press(&mut a, "b");
    let effects = press(&mut a, "2");
    assert!(matches!(&effects[..], [Effect::Bump { level: BumpLevel::Minor }]));
}

#[test]
fn the_list_of_keys_runs_what_is_chosen() {
    let mut a = app();
    press(&mut a, "?");
    press(&mut a, "lazygit");
    let effects = a.handle_key(KeyCode::Enter);
    assert!(matches!(&effects[..], [Effect::Lazygit]));
}

#[test]
fn a_slug_is_asked_for() {
    let mut a = app();
    press(&mut a, "c");
    a.handle_key(KeyCode::Enter);
    assert_eq!(a.message.as_deref(), Some("slug cannot be empty"));
    press(&mut a, "cab");
    a.handle_key(KeyCode::Backspace);
    let effects = a.handle_key(KeyCode::Enter);
    assert!(matches!(&effects[..], [Effect::Create { slug }] if slug == "a"));
}

#[test]
fn a_reload_keeps_the_cursor_within_the_rows() {
    let mut a = app();
    press(&mut a, "jjj");
    a.reload("main".to_string(), &refs(), Vec::new(), Vec::new(), None);
    assert!(a.selected.is_none_or(|i| i < 2));
}

#[test]
fn a_rejected_push_asks_whether_to_force_it() {
    let mut a = app();
    a.follow(Some(Followup::OfferForcePush {
        branch: "roll/1-x".to_string(),
        remote: "origin".to_string(),
    }));
    assert!(matches!(&a.mode, Mode::ForcePush { branch, .. } if branch == "roll/1-x"));
    let effects = press(&mut a, "y");
    assert!(matches!(&effects[..], [Effect::Push { force: true, .. }]));
}

#[test]
fn a_lazygit_that_cannot_be_run_is_explained() {
    let mut a = app();
    a.lazygit_ended(LazygitExit::NotRun("no such file".to_string()));
    let panel = a.panel.as_ref().expect("a panel");
    assert_eq!(panel.status(), Status::Failed);
    a.lazygit_ended(LazygitExit::Status("exit status: 2".to_string()));
    assert_eq!(a.message.as_deref(), Some("lazygit exited with exit status: 2"));
}

#[test]
fn a_job_that_ends_leaves_its_result_in_the_panel() {
    let mut p = Panel::new("git push".to_string());
    p.push_out(&OutLine::Error("counting".to_string()));
    let next = p.finish(Some(Ok(JobDone::with_next(
        vec!["rejected".to_string()],
        Followup::SelectBranch("roll/1".to_string()),
    ))));
    assert_eq!(next, Some(Followup::SelectBranch("roll/1".to_string())));
    assert_eq!(p.status(), Status::Done);
    let mut failing = Panel::new("x".to_string());
    let cause = Failure::msg("no".to_string()).context("pushing".to_string());
    assert_eq!(failing.finish(Some(Err(cause))), None);
    assert_eq!(failing.status(), Status::Failed);
    let frame = render(&failing, 5);
    assert!(frame.lines.iter().any(|l| l.text().contains("caused by: no")));
    // A job that died without a word is a failure too.
    let mut silent = Panel::new("x".to_string());
    silent.finish(None);
    assert_eq!(silent.status(), Status::Failed);
}

#[test]
fn a_dialog_is_centred() {
    let area = Rect { x: 0, y: 0, width: 80, height: 24 };
    let r = centered_rect(area, 40, 10);
    assert_eq!((r.x, r.y, r.width, r.height), (20, 7, 40, 10));
}
