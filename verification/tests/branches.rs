use roll_flow::branches::{extract_graduated_branch, parse_roll_number};

#[test]
fn parses_roll_number() {
    assert_eq!(parse_roll_number("roll/12-0611-cli", "roll/"), Some(12));
    assert_eq!(parse_roll_number("roll/x-0611-cli", "roll/"), None);
    assert_eq!(parse_roll_number("feature/foo", "roll/"), None);
}

#[test]
fn extracts_branch_from_all_merge_subject_shapes() {
    // Local `git merge --no-ff`.
    assert_eq!(
        extract_graduated_branch("Merge branch 'roll/5-0611-theme' into develop").as_deref(),
        Some("roll/5-0611-theme")
    );
    // `rf graduate` structured merge.
    assert_eq!(
        extract_graduated_branch("Graduate roll/5-0611-theme into develop").as_deref(),
        Some("roll/5-0611-theme")
    );
    // GitHub PR merge — the format PR-based repos (and dogfooding) land through.
    assert_eq!(
        extract_graduated_branch(
            "Merge pull request #87 from gignsky/roll/16-0721-tui-dependents"
        )
        .as_deref(),
        Some("roll/16-0721-tui-dependents")
    );
    // A non-roll PR merge extracts the branch but won't parse as a roll number.
    assert_eq!(
        extract_graduated_branch("Merge pull request #99 from gignsky/fix/some-fix")
            .as_deref(),
        Some("fix/some-fix")
    );
    assert_eq!(parse_roll_number("fix/some-fix", "roll/"), None);
    // Unrelated subject.
    assert_eq!(extract_graduated_branch("chore: bump version"), None);
}
