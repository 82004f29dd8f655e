use roll_flow::branches::BranchLocation;
use roll_flow::config::PullMode;
use roll_flow::git::{LocalBranch, TrackState};
use roll_flow::sync::{
    hint_for, is_credential_failure, is_rejection, is_stale_lease, needs_force_prompt, pull_plan,
    push_args, PullPlan, SyncTarget,
};

fn owned(args: &[&str]) -> Vec<String> {
    args.iter().map(|s| s.to_string()).collect()
}

fn target(is_current: bool, location: BranchLocation, track: Option<TrackState>) -> SyncTarget {
    SyncTarget {
        branch: "roll/1-alpha".to_string(),
        is_current,
        location,
        track,
        remote: "origin".to_string(),
        upstream_branch: match track {
            None | Some(TrackState::NoUpstream) => None,
            Some(_) => Some("roll/1-alpha".to_string()),
        },
    }
}

#[test]
fn pulling_the_checked_out_branch_runs_a_real_pull_with_the_configured_mode() {
    let t = target(true, BranchLocation::Both, Some(TrackState::Behind(2)));
    assert_eq!(
        pull_plan(&t, PullMode::FfOnly),
        PullPlan::Pull {
            args: owned(&[
                "pull",
                "--no-edit",
                "--ff-only",
                "origin",
                "refs/heads/roll/1-alpha"
            ])
        }
    );
    assert_eq!(
        pull_plan(&t, PullMode::Rebase),
        PullPlan::Pull {
            args: owned(&[
                "pull",
                "--no-edit",
                "--rebase",
                "origin",
                "refs/heads/roll/1-alpha"
            ])
        }
    );
    // Merge mode adds no flag at all, leaving git's own default in charge.
    assert_eq!(
        pull_plan(&t, PullMode::Merge),
        PullPlan::Pull {
            args: owned(&["pull", "--no-edit", "origin", "refs/heads/roll/1-alpha"])
        }
    );
}

#[test]
fn pulling_a_branch_that_is_not_checked_out_fast_forwards_its_ref() {
    let t = target(false, BranchLocation::Both, Some(TrackState::Behind(1)));
    assert_eq!(
        pull_plan(&t, PullMode::FfOnly),
        PullPlan::FastForward {
            args: owned(&[
                "fetch",
                "--no-write-fetch-head",
                "origin",
                "refs/heads/roll/1-alpha:roll/1-alpha"
            ])
        }
    );
}

#[test]
fn the_fast_forward_path_ignores_pull_mode_entirely() {
    // A fetch refspec cannot merge or rebase, so the mode is meaningless
    // here — and silently honouring it would imply otherwise.
    let t = target(false, BranchLocation::Both, Some(TrackState::Behind(1)));
    assert_eq!(
        pull_plan(&t, PullMode::Merge),
        pull_plan(&t, PullMode::Rebase)
    );
}

#[test]
fn pulling_a_remote_only_branch_just_updates_the_tracking_ref() {
    let t = target(false, BranchLocation::Remote, None);
    assert_eq!(
        pull_plan(&t, PullMode::FfOnly),
        PullPlan::FetchRemote {
            args: owned(&["fetch", "--no-write-fetch-head", "origin", "roll/1-alpha"])
        }
    );
}

#[test]
fn pulling_without_an_upstream_is_refused_with_advice() {
    let t = target(true, BranchLocation::Local, Some(TrackState::NoUpstream));
    match pull_plan(&t, PullMode::FfOnly) {
        PullPlan::Refused { reason } => assert!(reason.contains("no upstream"), "{reason}"),
        other => panic!("expected a refusal, got {other:?}"),
    }
}

#[test]
fn pulling_a_branch_whose_upstream_is_gone_is_refused_separately() {
    let t = target(true, BranchLocation::Both, Some(TrackState::Gone));
    match pull_plan(&t, PullMode::FfOnly) {
        PullPlan::Refused { reason } => assert!(reason.contains("gone"), "{reason}"),
        other => panic!("expected a refusal, got {other:?}"),
    }
}

#[test]
fn pushing_with_an_upstream_uses_a_fully_qualified_refspec() {
    let t = target(true, BranchLocation::Both, Some(TrackState::Ahead(1)));
    assert_eq!(
        push_args(&t, false),
        owned(&["push", "origin", "refs/heads/roll/1-alpha:roll/1-alpha"])
    );
}

#[test]
fn pushing_without_an_upstream_sets_one() {
    let t = target(true, BranchLocation::Local, Some(TrackState::NoUpstream));
    assert_eq!(
        push_args(&t, false),
        owned(&[
            "push",
            "--set-upstream",
            "origin",
            "refs/heads/roll/1-alpha:roll/1-alpha"
        ])
    );
}

#[test]
fn forcing_uses_force_with_lease_ahead_of_the_remote() {
    let t = target(
        true,
        BranchLocation::Both,
        Some(TrackState::Diverged {
            ahead: 1,
            behind: 2,
        }),
    );
    assert_eq!(
        push_args(&t, true),
        owned(&[
            "push",
            "--force-with-lease",
            "origin",
            "refs/heads/roll/1-alpha:roll/1-alpha"
        ])
    );
    // Never the explicit-expectation form: that would defeat the lease.
    assert!(!push_args(&t, true)
        .iter()
        .any(|a| a.contains("--force-with-lease=")));
}

#[test]
fn a_push_that_sets_upstream_can_still_be_forced() {
    let t = target(true, BranchLocation::Local, Some(TrackState::NoUpstream));
    assert_eq!(
        push_args(&t, true),
        owned(&[
            "push",
            "--force-with-lease",
            "--set-upstream",
            "origin",
            "refs/heads/roll/1-alpha:roll/1-alpha"
        ])
    );
}

#[test]
fn a_remote_named_something_other_than_origin_is_honoured() {
    let mut t = target(true, BranchLocation::Both, Some(TrackState::Ahead(1)));
    t.remote = "upstream".to_string();
    assert_eq!(
        push_args(&t, false),
        owned(&["push", "upstream", "refs/heads/roll/1-alpha:roll/1-alpha"])
    );
}

#[test]
fn a_remote_branch_name_that_differs_from_the_local_one_is_preserved() {
    let mut t = target(true, BranchLocation::Both, Some(TrackState::Ahead(1)));
    t.upstream_branch = Some("renamed".to_string());
    assert_eq!(
        push_args(&t, false),
        owned(&["push", "origin", "refs/heads/roll/1-alpha:renamed"])
    );
}

#[test]
fn only_a_branch_behind_its_upstream_prompts_for_force_up_front() {
    assert!(!needs_force_prompt(&target(
        true,
        BranchLocation::Both,
        Some(TrackState::Ahead(3))
    )));
    assert!(!needs_force_prompt(&target(
        true,
        BranchLocation::Both,
        Some(TrackState::InSync)
    )));
    assert!(needs_force_prompt(&target(
        true,
        BranchLocation::Both,
        Some(TrackState::Behind(1))
    )));
    assert!(needs_force_prompt(&target(
        true,
        BranchLocation::Both,
        Some(TrackState::Diverged {
            ahead: 1,
            behind: 1
        })
    )));
}

#[test]
fn real_git_rejection_text_is_recognised() {
    let stderr = " ! [rejected]        main -> main (non-fast-forward)\n\
        error: failed to push some refs to 'origin'\n\
        hint: Updates were rejected because the tip of your current branch is behind";
    assert!(is_rejection(stderr));
    assert!(!is_stale_lease(stderr));
    assert_eq!(
        hint_for(stderr).as_deref(),
        Some("rejected as non-fast-forward — press p to pull first")
    );
}

#[test]
fn a_fetch_first_rejection_is_recognised_too() {
    assert!(is_rejection(
        " ! [rejected]  main -> main (fetch first)\nerror: failed to push some refs"
    ));
}

#[test]
fn a_stale_lease_is_distinguished_from_a_plain_rejection() {
    let stderr = " ! [rejected]  main -> main (stale info)\nerror: failed to push some refs";
    assert!(is_stale_lease(stderr));
    assert_eq!(
        hint_for(stderr).as_deref(),
        Some("remote ref is stale — press f to fetch, then retry")
    );
}

#[test]
fn a_credential_failure_points_at_a_shell_rather_than_a_retry() {
    let stderr = "fatal: could not read Username for 'https://github.com': \
        terminal prompts disabled";
    assert!(is_credential_failure(stderr));
    assert_eq!(
        hint_for(stderr).as_deref(),
        Some("needs credentials — run it in a shell, or press gg for lazygit")
    );
}

#[test]
fn an_unrecognised_failure_gets_no_invented_advice() {
    assert_eq!(hint_for("fatal: the remote end hung up unexpectedly"), None);
}

#[test]
fn resolve_splits_the_upstream_into_remote_and_branch() {
    let details = LocalBranch {
        name: "roll/1-alpha".to_string(),
        upstream: "origin/roll/1-alpha".to_string(),
        remote_name: "origin".to_string(),
        track: "ahead 2".to_string(),
        worktree: String::new(),
    };
    let t = SyncTarget::resolve(
        "roll/1-alpha",
        "roll/1-alpha",
        BranchLocation::Both,
        Some(&details),
    );
    assert!(t.is_current);
    assert_eq!(t.remote, "origin");
    // The branch name contains a slash, so only the remote prefix may go.
    assert_eq!(t.upstream_branch.as_deref(), Some("roll/1-alpha"));
    assert_eq!(t.track, Some(TrackState::Ahead(2)));
}

#[test]
fn resolve_falls_back_to_origin_when_there_is_no_upstream() {
    let details = LocalBranch {
        name: "roll/2-beta".to_string(),
        upstream: String::new(),
        remote_name: String::new(),
        track: String::new(),
        worktree: String::new(),
    };
    let t = SyncTarget::resolve("roll/2-beta", "main", BranchLocation::Local, Some(&details));
    assert!(!t.is_current);
    assert_eq!(t.remote, "origin");
    assert_eq!(t.upstream_branch, None);
    assert_eq!(t.track, Some(TrackState::NoUpstream));
}

#[test]
fn a_remote_only_branch_resolves_without_local_details() {
    let t = SyncTarget::resolve("roll/3-gamma", "main", BranchLocation::Remote, None);
    assert_eq!(t.track, None);
    assert_eq!(t.remote, "origin");
    assert!(matches!(
        pull_plan(&t, PullMode::FfOnly),
        PullPlan::FetchRemote { .. }
    ));
}
