use roll_flow::clean::{categorize, guard, CleanReason};
use roll_flow::git::LocalBranch;

fn branch(name: &str) -> LocalBranch {
    LocalBranch {
        name: name.to_string(),
        upstream: String::new(),
        remote_name: String::new(),
        track: String::new(),
        worktree: String::new(),
    }
}

fn upstreamed(name: &str, track: &str) -> LocalBranch {
    LocalBranch {
        name: name.to_string(),
        upstream: format!("origin/{name}"),
        remote_name: "origin".to_string(),
        track: track.to_string(),
        worktree: String::new(),
    }
}

// ── guard ────────────────────────────────────────────────────────────────

#[test]
fn guards_nothing_by_default() {
    assert!(guard(&branch("feature/x"), "main", &Vec::new()).is_none());
}

#[test]
fn guards_a_branch_checked_out_in_a_worktree() {
    let mut b = branch("feature/x");
    b.worktree = "/tmp/wt".to_string();
    let reason = guard(&b, "main", &Vec::new()).expect("guarded");
    assert!(reason.contains("/tmp/wt"), "should name the path: {reason}");
}

#[test]
fn guards_the_current_branch() {
    assert!(guard(&branch("feature/x"), "feature/x", &Vec::new()).is_some());
}

#[test]
fn guards_protected_branches() {
    let protected = vec!["develop".to_string()];
    assert_eq!(
        guard(&branch("develop"), "main", &protected).as_deref(),
        Some("protected branch")
    );
    assert!(guard(&branch("feature/x"), "main", &protected).is_none());
}

#[test]
fn current_branch_guard_outranks_the_worktree_guard() {
    // The current branch is always in a worktree; the plain message is the
    // useful one.
    let mut b = branch("feature/x");
    b.worktree = "/tmp/wt".to_string();
    let reason = guard(&b, "feature/x", &Vec::new()).expect("guarded");
    assert!(reason.contains("switch away"), "got: {reason}");
}

#[test]
fn worktree_guard_outranks_the_protected_guard() {
    // Both apply to the same branch; the worktree path is the actionable
    // half, so it must be the reason shown.
    let mut b = branch("develop");
    b.worktree = "/tmp/wt".to_string();
    let reason = guard(&b, "main", &vec!["develop".to_string()]).expect("guarded");
    assert!(reason.contains("/tmp/wt"), "got: {reason}");
}

// ── categorize ───────────────────────────────────────────────────────────

#[test]
fn categorizes_nothing_when_no_signal_applies() {
    assert_eq!(categorize(&upstreamed("feature/x", ""), false, false), None);
    // Ahead of its upstream and not merged: active work, not cleanup.
    assert_eq!(
        categorize(&upstreamed("feature/x", "ahead 2"), false, false),
        None
    );
}

#[test]
fn categorizes_a_gone_upstream() {
    assert_eq!(
        categorize(&upstreamed("roll/101", "gone"), false, false),
        Some(CleanReason::UpstreamGone)
    );
}

#[test]
fn categorizes_a_merged_branch() {
    assert_eq!(
        categorize(&branch("feature/x"), false, true),
        Some(CleanReason::Merged)
    );
}

#[test]
fn promoted_outranks_gone_and_merged() {
    // A promoted roll whose branch was also deleted upstream is reported
    // once, under the most informative label.
    assert_eq!(
        categorize(&upstreamed("roll/101", "gone"), true, true),
        Some(CleanReason::Promoted)
    );
}

#[test]
fn gone_outranks_merged() {
    assert_eq!(
        categorize(&upstreamed("roll/101", "gone"), false, true),
        Some(CleanReason::UpstreamGone)
    );
}

#[test]
fn a_never_pushed_branch_is_not_gone() {
    // No upstream at all must not read as a deleted upstream: that is the
    // difference between unpushed work and cleanup material.
    assert_eq!(categorize(&branch("feature/x"), false, false), None);
}

#[test]
fn reason_labels_are_stable() {
    assert_eq!(CleanReason::Promoted.label(), "promoted");
    assert_eq!(CleanReason::UpstreamGone.label(), "gone");
    assert_eq!(CleanReason::Merged.label(), "merged");
}
