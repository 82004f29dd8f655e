use roll_flow::branches::{integration_log_args, merge_log_args};
use roll_flow::config::{branch_listing_args, git_name_args, Config};
use roll_flow::git;
use roll_flow::ops::merge::unstaged_tracked_changes_args;
use roll_flow::ops::promote::{rolling_commit_order_args, short_tip_args};
use roll_flow::ops::prune::PruneScope;
use roll_flow::ops::release::bumped_line;
use roll_flow::report::commands::init_branches;
use roll_flow::report::lines::{
    create_done, fetch_done, print_integrate, pull_done, start_op, OpCall,
};
use roll_flow::tui::output::Followup;
use roll_flow::tui::rolls::Action;
use roll_flow::version::Semver;

fn config() -> Config {
    let text = "rolling_branch = \"rolling\"\nstable_branch = \"main\"\nroll_prefix = \"roll/\"\n";
    Config::parse(text, "/repo").expect("the required keys are there").0
}

#[test]
fn git_runs_in_the_repository() {
    let args = vec!["status".to_string(), "--porcelain".to_string()];
    assert_eq!(git::git_command("/repo", &args), ["-C", "/repo", "status", "--porcelain"]);
    assert_eq!(git::working_tree_clean_args(), args);
    assert_eq!(git::repo_root_args(), ["rev-parse", "--show-toplevel"]);
}

#[test]
fn references_are_asked_about_by_name() {
    assert_eq!(git::ref_exists("roll/1-x"), ["rev-parse", "--verify", "roll/1-x"]);
    assert_eq!(git::on_origin("roll/1-x"), "origin/roll/1-x");
    assert_eq!(git::is_ancestor("a", "b"), ["merge-base", "--is-ancestor", "a", "b"]);
    assert_eq!(git::is_detached_head_args(), ["symbolic-ref", "--quiet", "--short", "HEAD"]);
    assert_eq!(git::is_shallow_args(), ["rev-parse", "--is-shallow-repository"]);
    assert_eq!(git::commit_count_args("a..b"), ["rev-list", "--count", "a..b"]);
}

#[test]
fn branches_and_remotes_are_listed() {
    assert_eq!(git::local_branches_args("roll/*"), ["branch", "--list", "roll/*"]);
    assert_eq!(git::local_branches("  main\n* roll/1-x\n\n"), ["main", "roll/1-x"]);
    // A branch that is checked out in another worktree has a marker of its own.
    assert_eq!(
        git::local_branches("* main\n+ roll/1-x\n  roll/2-y"),
        ["main", "roll/1-x", "roll/2-y"]
    );
    assert_eq!(
        git::remote_branches_args("roll/*"),
        ["branch", "-r", "--list", "origin/roll/*"]
    );
    assert_eq!(
        git::remote_branches("  origin/HEAD -> origin/main\n  origin/roll/1-x\n"),
        ["roll/1-x"]
    );
    // The remote's name comes off once: the branch may begin with it too.
    assert_eq!(git::remote_branches("  origin/origin/x\n"), ["origin/x"]);
    assert_eq!(git::remotes_args(), ["remote"]);
    assert_eq!(
        git::remote_tracking_refs_args("origin"),
        ["for-each-ref", "--format=%(refname:short)", "refs/remotes/origin/"]
    );
    // Every reference keeps the remote in front, and the remote's symbolic HEAD
    // is none of them, written out or shortened.
    assert_eq!(
        git::remote_tracking_refs("origin\norigin/main\norigin/roll/1-x", "origin"),
        ["origin/main", "origin/roll/1-x"]
    );
    assert_eq!(
        git::remote_tracking_refs("origin/HEAD\norigin/main\n", "origin"),
        ["origin/main"]
    );
    assert_eq!(
        git::remote_head_branch_args("origin"),
        ["symbolic-ref", "--quiet", "--short", "refs/remotes/origin/HEAD"]
    );
    assert_eq!(git::remote_head_branch("origin/main", "origin").as_deref(), Some("main"));
    assert_eq!(branch_listing_args(), ["branch", "--list"]);
    assert_eq!(git_name_args(), ["config", "user.name"]);
}

#[test]
fn a_clean_tree_prints_nothing() {
    assert!(git::working_tree_clean(" \n"));
    assert!(!git::working_tree_clean(" M src/lib.rs"));
}

#[test]
fn files_are_read_at_references() {
    let spec = git::blob_spec("main", "Cargo.toml");
    assert_eq!(spec, "main:Cargo.toml");
    assert_eq!(git::show_file_at_ref_args(&spec), ["show", "main:Cargo.toml"]);
    assert_eq!(git::show_files_at_refs_args(), ["cat-file", "--batch"]);
}

#[test]
fn merges_are_logged_with_their_hashes() {
    assert_eq!(
        merge_log_args("rolling", true),
        ["log", "--first-parent", "--merges", "--format=%H%x09%s", "rolling"]
    );
    assert_eq!(
        merge_log_args("rolling", false),
        ["log", "--merges", "--format=%H%x09%s", "rolling"]
    );
    assert_eq!(
        integration_log_args("abc^1", "roll/2-y"),
        ["log", "--format=%s", "--first-parent", "--merges", "abc^1..roll/2-y"]
    );
    assert_eq!(rolling_commit_order_args("rolling"), ["rev-list", "--first-parent", "rolling"]);
    assert_eq!(short_tip_args("roll/2-y"), ["rev-parse", "--short", "roll/2-y"]);
    assert_eq!(unstaged_tracked_changes_args(), ["diff", "--name-only"]);
}

#[test]
fn initialising_needs_stable_and_creates_rolling() {
    let missing = init_branches(&config(), false, false).unwrap_err();
    assert_eq!(missing.chain, ["stable branch 'main' not found"]);
    let created = init_branches(&config(), true, false).unwrap();
    assert_eq!(created.unwrap(), ["branch", "rolling", "main"]);
    assert!(init_branches(&config(), true, true).unwrap().is_none());
}

#[test]
fn actions_stand_for_operations() {
    let roll = || Some("roll/1-x".to_string());
    for action in [Action::Graduate, Action::Integrate] {
        let refused = start_op(action, None).unwrap_err();
        assert_eq!(refused.chain, ["no roll selected"]);
    }
    let graduate = start_op(Action::Graduate, roll()).unwrap();
    assert!(graduate.needs_clean());
    assert!(matches!(graduate, OpCall::Graduate { roll } if roll == "roll/1-x"));
    let integrate = start_op(Action::Integrate, roll()).unwrap();
    assert!(!integrate.needs_clean());
    assert!(matches!(integrate, OpCall::Integrate { branch } if branch == "roll/1-x"));
    let one = start_op(Action::Promote, roll()).unwrap();
    assert!(one.needs_clean());
    assert!(matches!(one, OpCall::PromoteRoll { roll } if roll == "roll/1-x"));
    let all = start_op(Action::Promote, None).unwrap();
    assert!(all.needs_clean());
    assert!(matches!(all, OpCall::PromoteRolling));
    assert!(matches!(start_op(Action::Update, None).unwrap(), OpCall::Update));
    let prune = start_op(Action::Prune, None).unwrap();
    assert!(matches!(prune, OpCall::Prune(scope) if scope == PruneScope::both()));
    let tidy = start_op(Action::Tidy, roll()).unwrap();
    assert!(matches!(tidy, OpCall::Tidy(scope) if scope == PruneScope::tidy(false)));
}

#[test]
fn finished_jobs_say_what_they_did() {
    assert_eq!(print_integrate("roll/1-x", "roll/2-y"), "integrated roll/1-x into roll/2-y");
    assert_eq!(pull_done().lines, ["up to date"]);
    assert_eq!(fetch_done("origin").lines, ["fetched origin"]);
    let created = create_done("roll/3-z");
    assert_eq!(created.lines, ["Created roll/3-z"]);
    assert!(matches!(created.next, Some(Followup::SelectBranch(b)) if b == "roll/3-z"));
    let from = Semver::parse("0.2.4").unwrap();
    let to = Semver::parse("0.3.0").unwrap();
    assert_eq!(
        bumped_line(from, to, "rolling"),
        "Bumped version 0.2.4 -> 0.3.0 (chore(release) commit on 'rolling')"
    );
}
