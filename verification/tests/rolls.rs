use roll_flow::branches::{BranchLocation, RollInfo, RollState};
use roll_flow::config::Config;
use roll_flow::git::{GitFailure, LocalBranch, TrackState};
use roll_flow::sync::SyncFailure;
use roll_flow::tui::app::{Mode, StatusApp};
use roll_flow::tui::keymap::{
    basic_hints, bindings, filter_bindings, fuzzy_score, handle_help_key, render_help, HelpOutcome,
};
use roll_flow::tui::rolls::{
    base_branches, bump_gate, bump_key, bump_previews, can_graduate, can_promote, can_prune,
    can_tidy, can_update, current_marker, delete_prompt, dep_rows, dependent_rows,
    force_push_key, format_ahead_behind, handle_create_key, handle_delete_key, initial_selection,
    integrate_target_for, is_submittable_slug, needs_force_confirm, promote_target_for,
    prunable_count, prune_scope_for, push_version_check, row_at, sync_cell, sync_error,
    tidyable_count, unmerged_for_scope, validate_action, verify_route_for, Action, BaseBranch,
    BaseRole, BumpOutcome, DeleteOutcome, DeletePreview, DeletePrompt, DeleteScope,
    ForcePushOutcome, InputOutcome, RowKind,
};
use roll_flow::tui::style::{Color, KeyCode, Line};
use roll_flow::tui::view::{
    render_bump_modal, render_delete_modal, render_force_push_modal, render_header, render_modal,
    render_status_bar, render_table, Modal,
};
use roll_flow::version::{BumpLevel, Semver, VersionCheck, VersionStatus};

fn refs(names: &[&str]) -> Vec<String> {
    names.iter().map(|n| n.to_string()).collect()
}

fn roll(state: RollState, location: BranchLocation) -> RollInfo {
    RollInfo {
        branch: "roll/1-0101-x".to_string(),
        number: 1,
        state,
        location,
        is_current: false,
        deps: Vec::new(),
        dependents: Vec::new(),
        graduation_commit: None,
    }
}

fn config(stable: &str, rolling: &str) -> Config {
    Config {
        config_version: 1,
        repo_root: "/tmp/repo".to_string(),
        rolling_branch: rolling.to_string(),
        stable_branch: stable.to_string(),
        roll_prefix: "roll/".to_string(),
        mode: Default::default(),
        username: String::new(),
        hosts: Vec::new(),
        host_active: Default::default(),
        version_gate: true,
        tag_on_promote: true,
        push_tag: true,
        roll_to_rolling_gates: Vec::new(),
        rolling_to_main_gates: Vec::new(),
        host_gates: Vec::new(),
        clean_protect: Vec::new(),
        pull_mode: Default::default(),
        lazygit_command: "lazygit".to_string(),
    }
}

#[test]
fn base_rows_list_stable_then_rolling() {
    let cfg = config("main", "develop");
    // Both exist locally only.
    let bases = base_branches(&cfg, "roll/1-0101-x", &refs(&["main", "develop"]));
    assert_eq!(bases.len(), 2);
    assert_eq!(bases[0].role, BaseRole::Stable);
    assert_eq!(bases[0].branch, "main");
    assert_eq!(bases[0].location, BranchLocation::Local);
    assert_eq!(bases[1].role, BaseRole::Rolling);
    assert_eq!(bases[1].branch, "develop");
    // Neither is checked out here.
    assert!(bases.iter().all(|b| !b.is_current));
}

#[test]
fn base_rows_track_location_and_current_branch() {
    let cfg = config("main", "develop");
    // main on both sides, develop only on origin.
    let bases = base_branches(&cfg, "main", &refs(&["main", "origin/main", "origin/develop"]));
    assert_eq!(bases[0].location, BranchLocation::Both);
    assert!(bases[0].is_current);
    assert_eq!(bases[1].location, BranchLocation::Remote);
    assert!(!bases[1].is_current);
}

#[test]
fn base_rows_omit_missing_and_duplicate_branches() {
    let cfg = config("main", "develop");
    // develop exists nowhere → only stable is shown.
    let bases = base_branches(&cfg, "main", &refs(&["main"]));
    assert_eq!(bases.len(), 1);
    assert_eq!(bases[0].branch, "main");

    // Rolling configured the same as stable collapses to one row.
    let same = config("main", "main");
    let bases = base_branches(&same, "main", &refs(&["main", "develop", "origin/main", "origin/develop"]));
    assert_eq!(bases.len(), 1);
    assert_eq!(bases[0].role, BaseRole::Stable);

    // Nothing resolves at all → no pinned rows.
    assert!(base_branches(&cfg, "main", &refs(&[])).is_empty());
}

#[test]
fn row_at_maps_indices_over_bases_then_rolls() {
    assert_eq!(row_at(0, 2, 3), Some(RowKind::Base(0)));
    assert_eq!(row_at(1, 2, 3), Some(RowKind::Base(1)));
    assert_eq!(row_at(2, 2, 3), Some(RowKind::Roll(0)));
    assert_eq!(row_at(4, 2, 3), Some(RowKind::Roll(2)));
    // Past the last row.
    assert_eq!(row_at(5, 2, 3), None);
    // No bases → rolls start at 0; no rolls → only bases.
    assert_eq!(row_at(0, 0, 1), Some(RowKind::Roll(0)));
    assert_eq!(row_at(1, 1, 0), None);
    assert_eq!(row_at(0, 0, 0), None);
}

#[test]
fn initial_selection_prefers_the_current_branch() {
    let cfg = config("main", "develop");
    let bases = base_branches(&cfg, "develop", &refs(&["main", "develop", "origin/main", "origin/develop"]));
    let mut rolls = vec![roll_n(1, RollState::Active), roll_n(2, RollState::Active)];

    // Current branch is the rolling base → its own row.
    assert_eq!(initial_selection(&bases, &rolls), Some(1));

    // Current branch is a roll → offset past the bases.
    let off_bases = base_branches(&cfg, "roll/2-0101-x", &refs(&["main", "develop", "origin/main", "origin/develop"]));
    rolls[1].is_current = true;
    assert_eq!(initial_selection(&off_bases, &rolls), Some(3));

    // Nothing current → first row.
    rolls[1].is_current = false;
    assert_eq!(initial_selection(&off_bases, &rolls), Some(0));

    // Rolls but no bases still selects the first roll.
    assert_eq!(initial_selection(&Vec::new(), &rolls), Some(0));

    // Nothing at all → no selection.
    assert_eq!(initial_selection(&Vec::new(), &Vec::new()), None);
}

fn roll_n(number: u32, state: RollState) -> RollInfo {
    RollInfo {
        branch: format!("roll/{number}-0101-x"),
        number,
        state,
        location: BranchLocation::Local,
        is_current: false,
        deps: Vec::new(),
        dependents: Vec::new(),
        graduation_commit: None,
    }
}

#[test]
fn graduate_valid_only_for_active_or_diverged() {
    assert!(can_graduate(&RollState::Active));
    assert!(can_graduate(&RollState::Diverged));
    assert!(!can_graduate(&RollState::Graduated));
    assert!(!can_graduate(&RollState::Promoted));
    assert!(!can_graduate(&RollState::Blocked));
}

#[test]
fn prune_valid_only_when_a_promoted_roll_exists() {
    let unpromoted = vec![
        roll_n(1, RollState::Active),
        roll_n(2, RollState::Graduated),
        roll_n(3, RollState::Diverged),
        roll_n(4, RollState::Blocked),
    ];
    assert!(!can_prune(&unpromoted));
    assert_eq!(prunable_count(&unpromoted), 0);
    assert!(validate_action(Action::Prune, None, &unpromoted, "main", "roll/").is_err());

    let mut with_promoted = unpromoted.clone();
    with_promoted.push(roll_n(5, RollState::Promoted));
    with_promoted.push(roll_n(6, RollState::Promoted));
    assert!(can_prune(&with_promoted));
    assert_eq!(prunable_count(&with_promoted), 2);
    // Prune is repo-wide, so it validates with no selection.
    assert!(validate_action(Action::Prune, None, &with_promoted, "main", "roll/").is_ok());
}

#[test]
fn tidy_valid_only_for_local_graduated_or_promoted_rolls() {
    // States tidy does not clear, whatever their location.
    let wrong_state = vec![
        roll_n(1, RollState::Active),
        roll_n(2, RollState::Diverged),
        roll_n(3, RollState::Blocked),
    ];
    assert!(!can_tidy(&wrong_state));
    assert_eq!(tidyable_count(&wrong_state), 0);
    assert!(validate_action(Action::Tidy, None, &wrong_state, "main", "roll/").is_err());

    // Right state, but no local copy to delete — tidy never touches origin.
    let remote_only = vec![RollInfo {
        location: BranchLocation::Remote,
        ..roll_n(4, RollState::Graduated)
    }];
    assert!(!can_tidy(&remote_only));

    let mut tidyable = wrong_state.clone();
    tidyable.push(roll_n(5, RollState::Graduated));
    tidyable.push(RollInfo {
        location: BranchLocation::Both,
        ..roll_n(6, RollState::Promoted)
    });
    assert!(can_tidy(&tidyable));
    assert_eq!(tidyable_count(&tidyable), 2);
    // Repo-wide like prune, so it validates with no selection.
    assert!(validate_action(Action::Tidy, None, &tidyable, "main", "roll/").is_ok());
}

/// The keys of the bindings `query` matches, best first.
fn matched_keys(query: &str) -> Vec<String> {
    let all = bindings();
    filter_bindings(query)
        .into_iter()
        .map(|i| all[i].keys.clone())
        .collect()
}

#[test]
fn the_search_ranks_the_key_you_meant_first() {
    // The point of fuzzy over substring: a half-remembered word against a
    // label nobody read, with the right row at the top.
    assert_eq!(matched_keys("prune")[0], "x");
    assert_eq!(matched_keys("lazygit")[0], "gg");
    assert_eq!(matched_keys("bump")[0], "b");
    // By the key itself, which is the other way people search.
    assert_eq!(matched_keys("gg")[0], "gg");
    // A group name lists the whole group, and nothing outside it.
    let sync = matched_keys("sync");
    assert!(sync.len() >= 4, "{sync:?}");
    for keys in ["p", "P", "f", "gg"] {
        assert!(sync.contains(&keys.to_string()), "{keys} missing from {sync:?}");
    }
    // An empty query is everything, in table order.
    assert_eq!(matched_keys("").len(), bindings().len());
    assert_eq!(matched_keys("")[0], bindings()[0].keys);
    // And a query that matches nothing says so rather than falling back to
    // showing everything.
    assert!(matched_keys("zzzz").is_empty());
}

#[test]
fn fuzzy_scoring_prefers_runs_and_word_starts() {
    // A contiguous run beats the same letters scattered.
    let run = fuzzy_score("prune branches", "prune").unwrap();
    let scattered = fuzzy_score("push remote under new entry", "prune").unwrap();
    assert!(run > scattered, "run {run} !> scattered {scattered}");

    // Matching at the start of a word beats matching mid-word.
    let word_start = fuzzy_score("push branch", "pb").unwrap();
    let mid_word = fuzzy_score("supbar", "pb").unwrap();
    assert!(word_start > mid_word, "{word_start} !> {mid_word}");

    // Order is required — it is a subsequence match, not a bag of letters.
    assert!(fuzzy_score("push", "hsup").is_none());
    assert_eq!(fuzzy_score("anything", ""), Some(0));
}

#[test]
fn typing_in_the_list_filters_and_enter_runs_what_is_under_the_cursor() {
    let mut query = String::new();
    let mut cursor = 0;

    for c in "prune".chars() {
        assert_eq!(
            handle_help_key(&mut query, &mut cursor, KeyCode::Char(c)),
            HelpOutcome::Continue
        );
    }
    assert_eq!(query, "prune");

    let expected = filter_bindings("prune")[0];
    assert_eq!(
        handle_help_key(&mut query, &mut cursor, KeyCode::Enter),
        HelpOutcome::Run(expected)
    );
    assert_eq!(bindings()[expected].keys, "x");
}

#[test]
fn editing_the_query_puts_the_cursor_back_on_the_top_row() {
    // Otherwise enter runs whatever happens to be at index 3 of a list the
    // user has just changed out from under it.
    let mut query = "s".to_string();
    let mut cursor = 0;
    handle_help_key(&mut query, &mut cursor, KeyCode::Down);
    handle_help_key(&mut query, &mut cursor, KeyCode::Down);
    assert_eq!(cursor, 2);

    handle_help_key(&mut query, &mut cursor, KeyCode::Char('y'));
    assert_eq!(cursor, 0);

    handle_help_key(&mut query, &mut cursor, KeyCode::Down);
    handle_help_key(&mut query, &mut cursor, KeyCode::Backspace);
    assert_eq!(cursor, 0);
    assert_eq!(query, "s");
}

#[test]
fn the_cursor_cannot_leave_the_filtered_list() {
    let mut query = "lazygit".to_string();
    let mut cursor = 0;
    assert_eq!(filter_bindings(&query).len(), 1);

    // Past the end clamps to the last row rather than selecting nothing...
    for _ in 0..5 {
        handle_help_key(&mut query, &mut cursor, KeyCode::Down);
    }
    assert_eq!(cursor, 0);
    // ...and past the top clamps to the first.
    handle_help_key(&mut query, &mut cursor, KeyCode::Up);
    assert_eq!(cursor, 0);

    // Enter on a query that matches nothing closes rather than trapping.
    let mut empty = "zzzz".to_string();
    let mut at = 0;
    assert_eq!(
        handle_help_key(&mut empty, &mut at, KeyCode::Enter),
        HelpOutcome::Close
    );
}

#[test]
fn esc_closes_the_list_and_stray_keys_leave_it_open() {
    let mut query = String::new();
    let mut cursor = 0;
    assert_eq!(
        handle_help_key(&mut query, &mut cursor, KeyCode::Esc),
        HelpOutcome::Close
    );
    // A key the list has no use for must not close it — the query survives.
    query.push_str("push");
    assert_eq!(
        handle_help_key(&mut query, &mut cursor, KeyCode::Tab),
        HelpOutcome::Continue
    );
    assert_eq!(query, "push");
}

#[test]
fn the_list_shows_the_matches_and_the_keys_that_drive_it() {
    let out = text_of(&render_help("prune", 0, 24));
    assert!(out.contains("> prune"), "{out}");
    assert!(out.contains("prune promoted roll branches"), "{out}");
    assert!(out.contains("[enter] run"), "{out}");
    assert!(out.contains("[esc] close"), "{out}");

    // A query with no match says so rather than rendering an empty box.
    let none = text_of(&render_help("zzzz", 0, 24));
    assert!(none.contains("no key matches"), "{none}");
}

#[test]
fn verify_reads_head_and_resolves_the_route_from_its_tier() {
    let cfg = config("main", "rolling");

    // A roll branch checks its graduation into rolling...
    assert_eq!(
        verify_route_for(&cfg, "roll/4-0918-x"),
        Some(("roll/4-0918-x".to_string(), "rolling".to_string()))
    );
    // ...and rolling checks its promotion to stable.
    assert_eq!(
        verify_route_for(&cfg, "rolling"),
        Some(("rolling".to_string(), "main".to_string()))
    );
    // Stable itself has nowhere to go, and neither does anything off the
    // tiers — `[v]` says so rather than guessing a route.
    assert_eq!(verify_route_for(&cfg, "main"), None);
    assert_eq!(verify_route_for(&cfg, "feature/whatever"), None);
}

#[test]
fn the_version_line_matches_the_one_the_cli_prints() {
    let check = |status, head: Option<Semver>, base: Option<Semver>| {
        let mut lines = Vec::new();
        push_version_check(
            &mut lines,
            &VersionCheck { head, base, status },
            "rolling",
            "main",
        );
        lines
    };

    assert_eq!(
        check(VersionStatus::Unchanged, Some(v(0, 2, 3)), Some(v(0, 2, 3))),
        vec!["Version: 0.2.3 on 'rolling' (base 'main' 0.2.3) UNCHANGED"]
    );
    // A repo with no `Cargo.toml` says nothing at all, rather than reporting
    // a comparison it did not make.
    assert!(check(VersionStatus::NotApplicable, None, None).is_empty());
    // And an unreadable version still reports both sides, naming which one
    // could not be read.
    assert_eq!(
        check(VersionStatus::Unreadable, None, Some(v(1, 0, 0))),
        vec!["Version: <unreadable> on 'rolling' (base 'main' 1.0.0) UNREADABLE"]
    );
}

#[test]
fn promote_valid_when_a_graduated_roll_exists() {
    let none = vec![roll(RollState::Active, BranchLocation::Local)];
    assert!(!can_promote(&none));

    let graduated = vec![roll(RollState::Graduated, BranchLocation::Both)];
    assert!(can_promote(&graduated));

    let diverged = vec![roll(RollState::Diverged, BranchLocation::Both)];
    assert!(can_promote(&diverged));
}

#[test]
fn update_valid_for_local_active_rolls_only() {
    assert!(can_update(&vec![roll(
        RollState::Active,
        BranchLocation::Local
    )]));
    assert!(can_update(&vec![roll(
        RollState::Blocked,
        BranchLocation::Both
    )]));
    // Remote-only active roll cannot be updated locally.
    assert!(!can_update(&vec![roll(
        RollState::Active,
        BranchLocation::Remote
    )]));
    // Graduated rolls are not update candidates.
    assert!(!can_update(&vec![roll(
        RollState::Graduated,
        BranchLocation::Both
    )]));
}

#[test]
fn validate_action_reports_reasons() {
    let active = vec![roll(RollState::Active, BranchLocation::Local)];
    let graduated = vec![roll(RollState::Graduated, BranchLocation::Both)];

    // Graduate needs a valid selection.
    assert!(validate_action(Action::Graduate, None, &active, "main", "roll/").is_err());
    assert!(
        validate_action(Action::Graduate, Some(&active[0]), &active, "main", "roll/").is_ok()
    );
    assert!(validate_action(
        Action::Graduate,
        Some(&graduated[0]),
        &graduated,
        "main",
        "roll/"
    )
    .is_err());

    // Promote needs a graduated roll on rolling.
    assert!(validate_action(Action::Promote, None, &active, "main", "roll/").is_err());
    assert!(validate_action(Action::Promote, None, &graduated, "main", "roll/").is_ok());

    // Update needs a local active roll.
    assert!(validate_action(Action::Update, None, &active, "main", "roll/").is_ok());
    assert!(validate_action(Action::Update, None, &graduated, "main", "roll/").is_err());
}

#[test]
fn dep_rows_flag_only_ungraduated_as_blockers() {
    let all = vec![
        roll_n(1, RollState::Graduated),
        roll_n(2, RollState::Active),
        roll_n(3, RollState::Diverged),
        roll_n(4, RollState::Promoted),
    ];
    let mut selected = roll_n(5, RollState::Blocked);
    selected.deps = vec![1, 2, 3, 4];

    let rows = dep_rows(&selected, &all);
    assert_eq!(rows.len(), 4);
    // Graduated / promoted deps are satisfied — not blockers.
    assert!(!rows.iter().find(|r| r.number == 1).unwrap().is_blocker);
    assert!(!rows.iter().find(|r| r.number == 4).unwrap().is_blocker);
    // Active / diverged deps hold the roll back.
    assert!(rows.iter().find(|r| r.number == 2).unwrap().is_blocker);
    assert!(rows.iter().find(|r| r.number == 3).unwrap().is_blocker);

    let blockers: Vec<u32> = rows
        .iter()
        .filter(|r| r.is_blocker)
        .map(|r| r.number)
        .collect();
    assert_eq!(blockers, vec![2, 3]);
}

#[test]
fn dep_rows_empty_when_no_deps() {
    let all = vec![roll_n(1, RollState::Graduated)];
    let selected = roll_n(2, RollState::Active); // deps left empty
    assert!(dep_rows(&selected, &all).is_empty());
}

#[test]
fn dep_rows_all_graduated_has_zero_blockers() {
    let all = vec![
        roll_n(1, RollState::Graduated),
        roll_n(2, RollState::Promoted),
    ];
    let mut selected = roll_n(3, RollState::Active);
    selected.deps = vec![1, 2];

    let rows = dep_rows(&selected, &all);
    assert_eq!(rows.len(), 2);
    assert!(rows.iter().all(|r| !r.is_blocker));
}

#[test]
fn promote_target_is_the_selected_graduated_roll() {
    let rolls = vec![
        roll_n(1, RollState::Graduated),
        roll_n(2, RollState::Diverged),
    ];
    assert_eq!(
        promote_target_for(Some(&rolls[0]), &rolls),
        Ok(Some("roll/1-0101-x".to_string()))
    );
    // Diverged still has a graduation commit to advance stable to.
    assert_eq!(
        promote_target_for(Some(&rolls[1]), &rolls),
        Ok(Some("roll/2-0101-x".to_string()))
    );
}

#[test]
fn promote_target_is_the_whole_branch_without_a_roll_selected() {
    // A base-branch row resolves to `None` the same way an empty selection
    // does, which is how `[p]` on the rolling row promotes everything.
    let rolls = vec![roll_n(1, RollState::Graduated)];
    assert_eq!(promote_target_for(None, &rolls), Ok(None));
}

#[test]
fn promote_target_refuses_rolls_with_nothing_to_promote() {
    for state in [RollState::Active, RollState::Blocked, RollState::Promoted] {
        let rolls = vec![roll_n(1, state.clone())];
        let err =
            promote_target_for(Some(&rolls[0]), &rolls).expect_err("should refuse");
        assert!(
            err.contains("roll/1-0101-x"),
            "the message should name the roll: {err}"
        );
    }
}

#[test]
fn promote_target_refusal_does_not_widen_to_the_whole_branch() {
    // The dangerous failure mode: pressing [p] on an active roll must not
    // fall back to promoting everything, which is far more than was asked.
    let rolls = vec![
        roll_n(1, RollState::Graduated),
        roll_n(2, RollState::Active),
    ];
    assert!(promote_target_for(Some(&rolls[1]), &rolls).is_err());
    assert!(
        validate_action(Action::Promote, Some(&rolls[1]), &rolls, "main", "roll/").is_err()
    );
}

#[test]
fn promote_is_rejected_when_nothing_has_graduated() {
    let rolls = vec![roll_n(1, RollState::Active)];
    assert!(promote_target_for(None, &rolls).is_err());
}

#[test]
fn dependent_rows_lists_every_roll_that_integrated_target() {
    // rolls 17 and 18 both integrated roll 14 → both are 14's dependents.
    let mut r17 = roll_n(17, RollState::Active);
    r17.deps = vec![14];
    let mut r18 = roll_n(18, RollState::Blocked);
    r18.deps = vec![14, 15];
    let mut target = roll_n(14, RollState::Active);
    target.dependents = vec![17, 18];
    let all = vec![target.clone(), r17, r18, roll_n(15, RollState::Graduated)];

    let mut nums: Vec<u32> = dependent_rows(&target, &all)
        .iter()
        .map(|r| r.number)
        .collect();
    nums.sort_unstable();
    assert_eq!(nums, vec![17, 18]);
    // Target is ungraduated, so it still gates its dependents.
    assert!(dependent_rows(&target, &all).iter().all(|r| r.is_blocker));
}

#[test]
fn dependent_rows_lists_graduated_dependents_too() {
    // The regression this whole change exists for: a dependant that has
    // already graduated must still show up. Before deps were computed for
    // non-active rolls, `dependents` was empty here and the link vanished.
    let mut r2 = roll_n(2, RollState::Graduated);
    r2.deps = vec![3];
    let mut target = roll_n(3, RollState::Graduated);
    target.dependents = vec![2];
    let all = vec![r2, target.clone()];

    let rows = dependent_rows(&target, &all);
    assert_eq!(rows.len(), 1);
    assert_eq!(rows[0].number, 2);
    assert_eq!(rows[0].state, RollState::Graduated);
    // A graduated target no longer gates anything.
    assert!(!rows[0].is_blocker);
}

#[test]
fn dependent_rows_empty_when_nobody_depends() {
    let target = roll_n(14, RollState::Graduated);
    let all = vec![
        target.clone(),
        roll_n(15, RollState::Active), // no deps
        roll_n(16, RollState::Active), // no deps
    ];
    assert!(dependent_rows(&target, &all).is_empty());
}

#[test]
fn dependent_rows_skips_numbers_absent_from_the_list() {
    // A dependant that is not in `all` (filtered out, or a stale index)
    // must be skipped rather than rendered as a blank row.
    let mut target = roll_n(14, RollState::Active);
    target.dependents = vec![15, 99];
    let all = vec![target.clone(), roll_n(15, RollState::Active)];

    let rows = dependent_rows(&target, &all);
    assert_eq!(rows.len(), 1);
    assert_eq!(rows[0].number, 15);
}

#[test]
fn dependent_rows_never_lists_target_itself() {
    // A self-referential entry must not turn the roll into its own
    // dependent.
    let mut target = roll_n(14, RollState::Active);
    target.dependents = vec![14];
    let all = vec![target.clone()];
    assert!(dependent_rows(&target, &all).is_empty());
}

#[test]
fn create_key_edits_buffer_and_reports_intent() {
    let mut buf = String::new();
    // Printable chars append.
    assert_eq!(
        handle_create_key(&mut buf, KeyCode::Char('a')),
        InputOutcome::Continue
    );
    assert_eq!(
        handle_create_key(&mut buf, KeyCode::Char('b')),
        InputOutcome::Continue
    );
    assert_eq!(buf, "ab");
    // Backspace deletes the last char.
    assert_eq!(
        handle_create_key(&mut buf, KeyCode::Backspace),
        InputOutcome::Continue
    );
    assert_eq!(buf, "a");
    // Backspace on an empty buffer is harmless.
    buf.clear();
    assert_eq!(
        handle_create_key(&mut buf, KeyCode::Backspace),
        InputOutcome::Continue
    );
    assert_eq!(buf, "");
    // Enter submits, Esc cancels — neither mutates the buffer.
    buf.push_str("theme");
    assert_eq!(
        handle_create_key(&mut buf, KeyCode::Enter),
        InputOutcome::Submit
    );
    assert_eq!(
        handle_create_key(&mut buf, KeyCode::Esc),
        InputOutcome::Cancel
    );
    assert_eq!(buf, "theme");
    // Non-text keys are ignored without editing.
    assert_eq!(
        handle_create_key(&mut buf, KeyCode::Left),
        InputOutcome::Continue
    );
    assert_eq!(buf, "theme");
}

#[test]
fn submittable_slug_requires_non_blank() {
    assert!(!is_submittable_slug(""));
    assert!(!is_submittable_slug("   "));
    assert!(is_submittable_slug("theme"));
    assert!(is_submittable_slug("  theme  "));
}

#[test]
fn format_ahead_behind_wording() {
    assert_eq!(
        format_ahead_behind(Some((2, 1))).as_deref(),
        Some("ahead 2 / behind 1 vs origin")
    );
    assert_eq!(
        format_ahead_behind(Some((0, 0))).as_deref(),
        Some("ahead 0 / behind 0 vs origin")
    );
    // Nothing to show when the divergence is unknown / not applicable.
    assert_eq!(format_ahead_behind(None), None);
}

#[test]
fn dep_rows_skip_unknown_dep_numbers() {
    let all = vec![roll_n(1, RollState::Active)];
    let mut selected = roll_n(4, RollState::Blocked);
    selected.deps = vec![1, 99]; // 99 not present in `all`
    let rows = dep_rows(&selected, &all);
    assert_eq!(rows.len(), 1);
    assert_eq!(rows[0].number, 1);
}

// ── delete ──────────────────────────────────────────────────────────

/// A preview with the given per-copy unmerged counts, for the force-confirm
/// and key-handling tests.
fn preview(
    prompt: DeletePrompt,
    local_unmerged: Option<u32>,
    remote_unmerged: Option<u32>,
) -> DeletePreview {
    DeletePreview {
        branch: "roll/1-0101-x".to_string(),
        prompt,
        local_unmerged,
        remote_unmerged,
        local_is_checked_out: false,
    }
}

#[test]
fn delete_prompt_shape_follows_location() {
    let single = |loc| delete_prompt(&roll(RollState::Active, loc));
    assert_eq!(
        single(BranchLocation::Local),
        Ok(DeletePrompt::Single(DeleteScope::Local))
    );
    assert_eq!(
        single(BranchLocation::Remote),
        Ok(DeletePrompt::Single(DeleteScope::Remote))
    );
    assert_eq!(single(BranchLocation::Both), Ok(DeletePrompt::Choice));
    assert!(
        single(BranchLocation::Neither).is_err(),
        "a row with no copies anywhere has nothing to delete"
    );
}

#[test]
fn delete_offered_regardless_of_roll_state() {
    // The rule delete relaxes relative to prune: the user named this row.
    for state in [
        RollState::Active,
        RollState::Graduated,
        RollState::Diverged,
        RollState::Promoted,
        RollState::Blocked,
    ] {
        assert_eq!(
            delete_prompt(&roll(state.clone(), BranchLocation::Local)),
            Ok(DeletePrompt::Single(DeleteScope::Local)),
            "{state:?} should still be deletable"
        );
    }
}

#[test]
fn delete_prompt_never_offers_the_checked_out_local_copy() {
    let mut local = roll(RollState::Active, BranchLocation::Local);
    local.is_current = true;
    let err = delete_prompt(&local).expect_err("checked-out local-only roll");
    assert!(err.contains("checked out"), "should explain itself: {err}");

    // The origin copy of a checked-out roll is still fair game.
    let mut both = roll(RollState::Active, BranchLocation::Both);
    both.is_current = true;
    assert_eq!(
        delete_prompt(&both),
        Ok(DeletePrompt::Single(DeleteScope::Remote)),
        "a checked-out both-location roll degrades to origin-only"
    );
}

#[test]
fn delete_key_single_prompt_defaults_to_no() {
    let prompt = DeletePrompt::Single(DeleteScope::Local);
    for key in [KeyCode::Char('y'), KeyCode::Char('Y')] {
        assert_eq!(
            handle_delete_key(prompt, key),
            DeleteOutcome::Confirm(DeleteScope::Local)
        );
    }
    for key in [KeyCode::Char('n'), KeyCode::Char('N'), KeyCode::Esc] {
        assert_eq!(handle_delete_key(prompt, key), DeleteOutcome::Cancel);
    }
    // Nothing else acts — that is what "defaults to No" means here. Enter in
    // particular is not a shortcut for yes.
    for key in [
        KeyCode::Enter,
        KeyCode::Char(' '),
        KeyCode::Char('l'),
        KeyCode::Char('b'),
        KeyCode::Char('d'),
    ] {
        assert_eq!(
            handle_delete_key(prompt, key),
            DeleteOutcome::Ignore,
            "{key:?} must not delete anything"
        );
    }
}

#[test]
fn delete_key_choice_prompt_maps_l_r_b_n() {
    let p = DeletePrompt::Choice;
    assert_eq!(
        handle_delete_key(p, KeyCode::Char('l')),
        DeleteOutcome::Confirm(DeleteScope::Local)
    );
    assert_eq!(
        handle_delete_key(p, KeyCode::Char('R')),
        DeleteOutcome::Confirm(DeleteScope::Remote)
    );
    assert_eq!(
        handle_delete_key(p, KeyCode::Char('b')),
        DeleteOutcome::Confirm(DeleteScope::Both)
    );
    for key in [KeyCode::Char('n'), KeyCode::Esc] {
        assert_eq!(handle_delete_key(p, key), DeleteOutcome::Cancel);
    }
    // `y` is deliberately unbound here: mapping it to "both" would let
    // muscle memory delete more than the user was looking at.
    assert_eq!(
        handle_delete_key(p, KeyCode::Char('y')),
        DeleteOutcome::Ignore
    );
}

#[test]
fn delete_force_stage_requires_a_fresh_yes() {
    let p = DeletePrompt::ForceConfirm(DeleteScope::Both);
    assert_eq!(
        handle_delete_key(p, KeyCode::Char('y')),
        DeleteOutcome::Confirm(DeleteScope::Both)
    );
    for key in [KeyCode::Char('n'), KeyCode::Esc] {
        assert_eq!(handle_delete_key(p, key), DeleteOutcome::Cancel);
    }
    for key in [KeyCode::Char('l'), KeyCode::Char('r'), KeyCode::Char('b')] {
        assert_eq!(handle_delete_key(p, key), DeleteOutcome::Ignore);
    }
}

#[test]
fn needs_force_confirm_only_when_a_selected_copy_is_uncontained() {
    let clean = preview(DeletePrompt::Choice, Some(0), Some(0));
    assert!(!needs_force_confirm(DeleteScope::Local, &clean));
    assert!(!needs_force_confirm(DeleteScope::Remote, &clean));
    assert!(!needs_force_confirm(DeleteScope::Both, &clean));

    let dirty_local = preview(DeletePrompt::Choice, Some(3), Some(0));
    assert!(needs_force_confirm(DeleteScope::Local, &dirty_local));
    assert!(!needs_force_confirm(DeleteScope::Remote, &dirty_local));
    assert!(needs_force_confirm(DeleteScope::Both, &dirty_local));

    // The asymmetric case: a clean local copy must not launder a dirty
    // origin one when both are selected.
    let dirty_remote = preview(DeletePrompt::Choice, Some(0), Some(2));
    assert!(!needs_force_confirm(DeleteScope::Local, &dirty_remote));
    assert!(needs_force_confirm(DeleteScope::Remote, &dirty_remote));
    assert!(needs_force_confirm(DeleteScope::Both, &dirty_remote));

    // An unknown count warns rather than staying quiet: not knowing what a
    // delete costs is no reason to skip the confirmation.
    let unknown = preview(DeletePrompt::Choice, None, Some(0));
    assert!(needs_force_confirm(DeleteScope::Local, &unknown));
    assert!(needs_force_confirm(DeleteScope::Both, &unknown));
}

#[test]
fn unmerged_for_scope_reports_the_worst_selected_copy() {
    let p = preview(DeletePrompt::Choice, Some(1), Some(4));
    assert_eq!(unmerged_for_scope(DeleteScope::Local, &p), Some(1));
    assert_eq!(unmerged_for_scope(DeleteScope::Remote, &p), Some(4));
    assert_eq!(unmerged_for_scope(DeleteScope::Both, &p), Some(4));
    assert_eq!(
        unmerged_for_scope(
            DeleteScope::Both,
            &preview(DeletePrompt::Choice, None, None)
        ),
        None
    );
}

#[test]
fn prune_scope_for_fetches_only_when_remote_is_in_scope() {
    let local = prune_scope_for(DeleteScope::Local, false);
    assert!(local.local && !local.remote);
    assert!(
        !local.fetch,
        "a local-only delete must not touch the network"
    );

    let remote = prune_scope_for(DeleteScope::Remote, false);
    assert!(!remote.local && remote.remote);
    assert!(remote.fetch, "origin containment needs fresh refs");

    let both = prune_scope_for(DeleteScope::Both, true);
    assert!(both.local && both.remote && both.fetch);
    assert!(both.force, "force passes through to the plan");
    assert!(!prune_scope_for(DeleteScope::Both, false).force);
}

// ── rendering ───────────────────────────────────────────────────────

/// The text of lines, one below the other.
fn text_of(lines: &[Line]) -> String {
    lines.iter().map(|l| l.text()).collect::<Vec<_>>().join("\n")
}

/// The title and the text of a dialog.
fn draw(modal: Modal) -> String {
    format!("{}\n{}", modal.title, text_of(&modal.lines))
}

/// The header and the rows of a table.
fn draw_table(app: &StatusApp) -> String {
    let table = render_table(&app.bases, &app.rolls, &app.tracking, app.show_deps);
    format!("{}\n{}", table.header.text(), text_of(&table.rows))
}

/// A dashboard on the given rolls and tracking facts.
fn dashboard(
    config: Config,
    current: &str,
    bases: Vec<BaseBranch>,
    rolls: Vec<RollInfo>,
    tracking: Vec<LocalBranch>,
) -> StatusApp {
    let selected = initial_selection(&bases, &Vec::new());
    StatusApp {
        config,
        current_branch: current.to_string(),
        bases,
        rolls,
        show_deps: false,
        tracking,
        version: None,
        selected,
        mode: Mode::Browsing,
        message: None,
        running: false,
        panel: None,
        pending_g: false,
    }
}

/// A minimal config for the render tests — only the branch names are read.
fn test_config() -> Config {
    Config {
        config_version: 1,
        repo_root: "/nonexistent".to_string(),
        rolling_branch: "rolling".to_string(),
        stable_branch: "main".to_string(),
        roll_prefix: "roll/".to_string(),
        mode: Default::default(),
        username: "test".to_string(),
        hosts: Vec::new(),
        host_active: Default::default(),
        version_gate: true,
        tag_on_promote: true,
        push_tag: true,
        roll_to_rolling_gates: Vec::new(),
        rolling_to_main_gates: Vec::new(),
        host_gates: Vec::new(),
        clean_protect: Vec::new(),
        pull_mode: Default::default(),
        lazygit_command: "lazygit".to_string(),
    }
}

#[test]
fn delete_modal_offers_four_choices_for_a_both_location_roll() {
    let p = preview(DeletePrompt::Choice, Some(0), Some(0));
    let out = draw(render_delete_modal(&test_config(), &p));
    assert!(out.contains("delete"), "{out}");
    assert!(out.contains("exists locally and on origin"), "{out}");
    for hint in [
        "[l] local only",
        "[r] origin only",
        "[b] both",
        "[n] neither",
    ] {
        assert!(out.contains(hint), "missing {hint}:\n{out}");
    }
    assert!(
        !out.contains("[y]"),
        "the choice modal must not offer a bare yes:\n{out}"
    );
}

#[test]
fn delete_modal_single_copy_offers_y_n() {
    let p = preview(DeletePrompt::Single(DeleteScope::Local), Some(0), None);
    let out = draw(render_delete_modal(&test_config(), &p));
    assert!(out.contains("Delete local branch"), "{out}");
    assert!(out.contains("[y] delete"), "{out}");
    assert!(out.contains("[n] cancel"), "{out}");
}

#[test]
fn delete_modal_says_why_a_checked_out_roll_is_origin_only() {
    let mut p = preview(DeletePrompt::Single(DeleteScope::Remote), Some(0), Some(0));
    p.local_is_checked_out = true;
    let out = draw(render_delete_modal(&test_config(), &p));
    assert!(out.contains("Delete origin/"), "{out}");
    assert!(out.contains("checked out"), "should explain itself:\n{out}");
}

#[test]
fn delete_modal_force_stage_states_the_cost() {
    let p = preview(
        DeletePrompt::ForceConfirm(DeleteScope::Both),
        Some(1),
        Some(4),
    );
    let out = draw(render_delete_modal(&test_config(), &p));
    assert!(out.contains("force delete"), "{out}");
    // The worst selected copy, not the first one.
    assert!(out.contains("4 commits not in main"), "{out}");
    assert!(out.contains("cannot be undone"), "{out}");
    assert!(out.contains("[y] delete anyway"), "{out}");

    let one = preview(
        DeletePrompt::ForceConfirm(DeleteScope::Local),
        Some(1),
        None,
    );
    let out = draw(render_delete_modal(&test_config(), &one));
    assert!(out.contains("1 commit not in main"), "singular:\n{out}");
}

#[test]
fn the_status_bar_carries_only_the_basics_and_points_at_the_rest() {
    // The bar this replaced spelled out twenty bindings across four lines;
    // its whole failure mode was silently truncating the last one at 80
    // columns. One line now, and the way to everything else has to be on it.
    let out = text_of(&render_status_bar(&None));

    assert!(out.contains("[?] keys"), "no way to reach the rest:\n{out}");
    assert!(basic_hints().chars().count() < 80, "{}", basic_hints());
    // A hint per basic binding and not one more: the bar is built from the
    // keymap, so an over-eager `hint` on a new row shows up here.
    assert_eq!(bindings().iter().filter(|b| b.hint.is_some()).count(), 5);
    for absent in ["[x] prune", "[G]raduate", "[gg] lazygit"] {
        assert!(!out.contains(absent), "{absent} still on the bar:\n{out}");
    }
}

#[test]
fn the_status_bar_reserves_a_row_for_every_hint_line_it_writes() {
    // The layout hands `render_status_bar` a fixed height; one hint line
    // more than that and the last binding silently disappears.
    let lines = render_status_bar(&None);
    assert!(lines.len() <= 2, "{}", lines.len());
    let out = text_of(&lines);
    assert!(out.contains("[q] quit"), "hint line clipped:\n{out}");
}

#[test]
fn every_binding_is_declared_once_and_can_be_run() {
    // The table is the only place keys are declared, so this is where a
    // doubled-up or unlabelled binding has to be caught.
    let mut seen = Vec::new();
    for binding in bindings() {
        assert!(!binding.keys.is_empty(), "a binding with no keys");
        assert!(!binding.label.is_empty(), "{} has no label", binding.keys);
        assert!(
            !seen.contains(&binding.keys),
            "{} declared twice",
            binding.keys
        );
        seen.push(binding.keys);
    }
    // `?` is the one entry with nothing to replay — enter on it would only
    // reopen the list it is in.
    let unrunnable: Vec<_> = bindings()
        .iter()
        .filter(|b| b.replay.is_empty())
        .map(|b| b.keys.clone())
        .collect();
    assert_eq!(unrunnable, vec!["?"]);
}

#[test]
fn the_table_shows_the_chevron_and_the_sync_glyph_on_the_right_rows() {
    let cfg = config("main", "rolling");
    let mut rolls = vec![roll_n(1, RollState::Active), roll_n(2, RollState::Active)];
    rolls[0].branch = "roll/1-0101-ahead".to_string();
    rolls[0].is_current = true;
    rolls[1].branch = "roll/2-0102-diverged".to_string();
    rolls[1].is_current = false;

    let mut tracking = Vec::new();
    tracking.push(
        LocalBranch {
            name: "roll/1-0101-ahead".to_string(),
            upstream: "origin/roll/1-0101-ahead".to_string(),
            remote_name: "origin".to_string(),
            track: "ahead 2".to_string(),
            worktree: String::new(),
        },
    );
    tracking.push(
        LocalBranch {
            name: "roll/2-0102-diverged".to_string(),
            upstream: "origin/roll/2-0102-diverged".to_string(),
            remote_name: "origin".to_string(),
            track: "ahead 1, behind 3".to_string(),
            worktree: String::new(),
        },
    );

    let app = dashboard(cfg, "roll/1-0101-ahead", Vec::new(), rolls, tracking);

    let out = draw_table(&app);
    let ahead = out
        .lines()
        .find(|l| l.contains("roll/1-0101-ahead"))
        .expect("roll 1 row");
    let diverged = out
        .lines()
        .find(|l| l.contains("roll/2-0102-diverged"))
        .expect("roll 2 row");

    assert!(ahead.contains('›'), "chevron missing on HEAD: {ahead}");
    assert!(ahead.contains("↑2"), "{ahead}");
    // The chevron marks HEAD only — a second row must not claim it.
    assert!(
        !diverged.contains('›'),
        "chevron on a non-HEAD row: {diverged}"
    );
    assert!(diverged.contains("↑1↓3"), "{diverged}");
    assert!(out.contains("sync"), "the sync header is missing:\n{out}");
}

#[test]
fn a_branch_with_no_tracking_data_renders_a_dash_in_the_table() {
    // `load_tracking` degrades to an empty map when git fails, and the table
    // still has to draw. Every row shows a dash rather than a false ✓.
    let cfg = config("main", "rolling");
    let app = dashboard(cfg, "main", Vec::new(), vec![roll_n(1, RollState::Active)], Vec::new());
    let out = draw_table(&app);
    let row = out
        .lines()
        .find(|l| l.contains("roll/1-0101-x"))
        .expect("roll row");
    assert!(row.contains('—'), "{row}");
    assert!(!row.contains('✓'), "{row}");
}

#[test]
fn the_sync_column_maps_each_tracking_state_to_a_glyph() {
    assert_eq!(sync_cell(Some(TrackState::InSync)).0, "✓");
    assert_eq!(sync_cell(Some(TrackState::Ahead(2))).0, "↑2");
    assert_eq!(sync_cell(Some(TrackState::Behind(3))).0, "↓3");
    assert_eq!(
        sync_cell(Some(TrackState::Diverged {
            ahead: 2,
            behind: 1
        }))
        .0,
        "↑2↓1"
    );
    assert_eq!(sync_cell(Some(TrackState::Gone)).0, "gone");
}

#[test]
fn a_branch_with_nothing_to_compare_shows_a_dash_not_a_tick() {
    // A remote-only roll has no local copy, and a local branch may have no
    // upstream at all. Neither is "in sync", and rendering ✓ would say the
    // opposite of the truth.
    assert_eq!(sync_cell(None).0, "—");
    assert_eq!(sync_cell(Some(TrackState::NoUpstream)).0, "—");
}

#[test]
fn the_sync_column_is_green_in_sync_yellow_diverged_and_red_when_gone() {
    assert_eq!(sync_cell(Some(TrackState::InSync)).1, Color::Green);
    assert_eq!(sync_cell(Some(TrackState::Ahead(1))).1, Color::Yellow);
    assert_eq!(sync_cell(Some(TrackState::Behind(1))).1, Color::Yellow);
    assert_eq!(sync_cell(Some(TrackState::Gone)).1, Color::Red);
    assert_eq!(sync_cell(None).1, Color::DarkGray);
}

#[test]
fn the_chevron_marks_only_the_checked_out_branch() {
    assert_eq!(current_marker(true), "›");
    assert_eq!(current_marker(false), "");
}

fn v(major: u64, minor: u64, patch: u64) -> Semver {
    Semver {
        major,
        minor,
        patch,
        dev_roll: None,
    }
}

#[test]
fn the_bump_previews_cover_all_three_levels_in_ascending_order() {
    assert_eq!(
        bump_previews(v(0, 2, 0)),
        [
            (BumpLevel::Patch, v(0, 2, 1)),
            (BumpLevel::Minor, v(0, 3, 0)),
            (BumpLevel::Major, v(1, 0, 0)),
        ]
    );
}

#[test]
fn minor_and_major_bumps_reset_the_fields_below_them() {
    let [(_, patch), (_, minor), (_, major)] = bump_previews(v(1, 4, 7));
    assert_eq!(patch, v(1, 4, 8));
    assert_eq!(minor, v(1, 5, 0), "minor must zero the patch");
    assert_eq!(major, v(2, 0, 0), "major must zero minor and patch");
}

#[test]
fn the_bump_keys_are_digits_in_the_order_shown() {
    // The modal numbers its rows from `bump_previews`, so key N must select
    // preview N — a mismatch here would bump the wrong field silently.
    let previews = bump_previews(v(0, 2, 0));
    for (i, (level, _)) in previews.into_iter().enumerate() {
        let key = KeyCode::Char(char::from_digit(i as u32 + 1, 10).unwrap());
        assert_eq!(bump_key(key), BumpOutcome::Level(level), "row {}", i + 1);
    }
}

#[test]
fn the_bump_modal_cancels_and_ignores_everything_else() {
    for key in [KeyCode::Char('n'), KeyCode::Char('N'), KeyCode::Esc] {
        assert_eq!(bump_key(key), BumpOutcome::Cancel, "{key:?}");
    }
    // No Enter and no initials: `m`/`M` for minor/major would differ only by
    // the shift key, for choices an order of magnitude apart.
    for key in [
        KeyCode::Enter,
        KeyCode::Char(' '),
        KeyCode::Char('m'),
        KeyCode::Char('M'),
        KeyCode::Char('p'),
        KeyCode::Char('0'),
        KeyCode::Char('4'),
    ] {
        assert_eq!(bump_key(key), BumpOutcome::Ignore, "{key:?}");
    }
}

#[test]
fn bump_is_refused_in_a_repo_with_no_version() {
    let err = bump_gate(None).expect_err("a repo with no Cargo.toml has nothing to bump");
    assert!(err.contains("Cargo.toml"), "{err}");
    assert_eq!(bump_gate(Some(v(0, 1, 0))), Ok(v(0, 1, 0)));
}

#[test]
fn the_bump_modal_shows_every_resulting_version() {
    // "minor" is abstract; `0.2.0 → 0.3.0` is not. All three have to be
    // visible at once for the choice to be obvious.
    let out = draw(render_bump_modal(v(0, 2, 0), "roll/3-0918-x"));
    assert!(out.contains("bump version"), "{out}");
    assert!(out.contains("Current: 0.2.0"), "{out}");
    assert!(
        out.contains("roll/3-0918-x"),
        "names the branch it lands on: {out}"
    );
    assert!(out.contains("[1] patch → 0.2.1"), "{out}");
    assert!(out.contains("[2] minor → 0.3.0"), "{out}");
    assert!(out.contains("[3] major → 1.0.0"), "{out}");
    assert!(out.contains("[n] cancel"), "{out}");
}

#[test]
fn the_bump_modal_stays_readable_for_wide_versions() {
    let out = draw(render_bump_modal(v(12, 345, 6789), "roll/1-x"));
    assert!(out.contains("[3] major → 13.0.0"), "{out}");
    assert!(out.contains("[1] patch → 12.345.6790"), "{out}");
}

#[test]
fn the_header_shows_the_version_only_when_the_repo_has_one() {
    let header = |version| {
        let (line, corner) = render_header(&test_config(), "main", version);
        let corner = corner.map(|s| s.text).unwrap_or_default();
        format!("{corner}\n{}", line.text())
    };
    let with = header(Some(v(1, 2, 3)));
    assert!(with.contains("v1.2.3"), "{with}");

    let without = header(None);
    assert!(!without.contains("v1.2.3"), "{without}");
    // The rest of the header is unaffected either way.
    assert!(without.contains("Branch: main"), "{without}");
}

#[test]
fn the_version_sits_in_the_top_right_corner_clear_of_the_branch_name() {
    // The branch line grows with the branch name, so the version has to be
    // somewhere that length cannot push it out of: it is no part of that line.
    let branch = "roll/12-0918-a-deliberately-long-slug";
    let (line, corner) = render_header(&test_config(), branch, Some(v(1, 2, 3)));
    let corner = corner.expect("a version in the corner");
    assert!(corner.text.contains("v1.2.3"), "{}", corner.text);
    assert!(!line.text().contains("v1.2.3"), "{}", line.text());
    // And the branch it shares the header with is still intact below it.
    assert!(line.text().contains(branch), "{}", line.text());
}

#[test]
fn the_names_of_the_columns_are_underlined() {
    let table = render_table(&Vec::new(), &Vec::new(), &Vec::new(), true);
    assert_eq!(table.header.spans.len(), 8);
    assert!(table.header.spans.iter().all(|s| s.style.underlined));
    assert!(!table.header.spans[0].style.bold);
    assert!(table.header.spans[1..].iter().all(|s| s.style.bold));
}

#[test]
fn only_an_explicit_y_forces_a_push() {
    assert_eq!(force_push_key(KeyCode::Char('y')), ForcePushOutcome::Force);
    assert_eq!(force_push_key(KeyCode::Char('Y')), ForcePushOutcome::Force);
    for key in [KeyCode::Char('n'), KeyCode::Char('N'), KeyCode::Esc] {
        assert_eq!(force_push_key(key), ForcePushOutcome::Cancel, "{key:?}");
    }
    // Enter is deliberately unbound: this modal can open the instant `[P]`
    // lands on a branch that is behind, so a stray Enter must not overwrite a
    // remote.
    for key in [
        KeyCode::Enter,
        KeyCode::Char(' '),
        KeyCode::Char('P'),
        KeyCode::Char('f'),
    ] {
        assert_eq!(force_push_key(key), ForcePushOutcome::Ignore, "{key:?}");
    }
}

#[test]
fn the_force_push_modal_states_the_divergence_and_the_lease() {
    let details = LocalBranch {
        name: "roll/1-0101-x".to_string(),
        upstream: "origin/roll/1-0101-x".to_string(),
        remote_name: "origin".to_string(),
        track: "ahead 1, behind 2".to_string(),
        worktree: String::new(),
    };
    let out = draw(render_force_push_modal("roll/1-0101-x", "origin", Some(&details)));
    assert!(out.contains("force push"), "{out}");
    assert!(out.contains("2 commits you don't"), "{out}");
    assert!(out.contains("--force-with-lease"), "{out}");
    assert!(out.contains("[y] force"), "{out}");
}

#[test]
fn the_force_push_modal_says_something_sensible_without_counts() {
    // Reached when git refused a push we could not predict from the tracking
    // ref; inventing a number there would be worse than omitting one.
    let out = draw(render_force_push_modal("roll/1", "origin", None));
    assert!(out.contains("has commits you don't"), "{out}");
    assert!(!out.contains("0 commits"), "{out}");
}

#[test]
fn a_single_commit_reads_as_singular_in_the_force_prompt() {
    let details = LocalBranch {
        name: "roll/1".to_string(),
        upstream: "origin/roll/1".to_string(),
        remote_name: "origin".to_string(),
        track: "behind 1".to_string(),
        worktree: String::new(),
    };
    let out =
        draw(render_force_push_modal("roll/1", "origin", Some(&details)));
    assert!(out.contains("1 commit you don't"), "{out}");
    assert!(!out.contains("1 commits"), "{out}");
}

#[test]
fn integrate_merges_the_hovered_roll_into_the_checked_out_one() {
    let mut other = roll_n(1, RollState::Active);
    other.branch = "roll/1-0101-alpha".to_string();
    other.location = BranchLocation::Both;
    assert_eq!(
        integrate_target_for("roll/2-0102-beta", "roll/", Some(&other)),
        Ok("roll/1-0101-alpha".to_string())
    );
}

#[test]
fn integrate_needs_a_roll_branch_checked_out() {
    // `ops::integrate` refuses this too; catching it here means the message
    // names the branch instead of surfacing a core error after the modal.
    let other = roll_n(1, RollState::Active);
    for head in ["main", "rolling", "feature/x"] {
        let err = integrate_target_for(head, "roll/", Some(&other))
            .expect_err("should be refused");
        assert!(err.contains("not a roll branch"), "{head}: {err}");
    }
}

#[test]
fn integrate_refuses_a_roll_into_itself() {
    let mut same = roll_n(1, RollState::Active);
    same.branch = "roll/1-0101-alpha".to_string();
    let err = integrate_target_for("roll/1-0101-alpha", "roll/", Some(&same))
        .expect_err("self-merge should be refused");
    assert!(err.contains("already the current branch"), "{err}");
}

#[test]
fn integrate_refuses_a_remote_only_roll_with_advice() {
    // `ops::integrate` resolves the source with a bare `ref_exists`, so
    // without this the user would get "branch not found" for a roll plainly
    // listed on screen.
    let mut remote = roll_n(1, RollState::Active);
    remote.branch = "roll/1-0101-alpha".to_string();
    remote.location = BranchLocation::Remote;
    let err = integrate_target_for("roll/2-0102-beta", "roll/", Some(&remote))
        .expect_err("a remote-only roll should be refused");
    assert!(err.contains("only on origin"), "{err}");
}

#[test]
fn integrate_needs_something_selected() {
    let err = integrate_target_for("roll/2-0102-beta", "roll/", None)
        .expect_err("nothing selected should be refused");
    assert!(err.contains("no roll selected"), "{err}");
}

#[test]
fn integrate_accepts_an_already_graduated_roll() {
    // Merging a graduated roll into yours is legitimate — you want its code —
    // and the dependency it records is simply already satisfied.
    let mut graduated = roll_n(1, RollState::Graduated);
    graduated.branch = "roll/1-0101-alpha".to_string();
    graduated.location = BranchLocation::Local;
    assert!(integrate_target_for("roll/2-0102-beta", "roll/", Some(&graduated)).is_ok());
}

#[test]
fn integrate_honours_a_non_default_roll_prefix() {
    let mut other = roll_n(1, RollState::Active);
    other.branch = "batch/1-0101-alpha".to_string();
    other.location = BranchLocation::Local;
    assert!(integrate_target_for("batch/2-0102-beta", "batch/", Some(&other)).is_ok());
    assert!(integrate_target_for("batch/2-0102-beta", "roll/", Some(&other)).is_err());
}

#[test]
fn validate_action_gates_integrate_the_same_way() {
    // The single validation entry point must agree with the helper, or the
    // key and the modal could disagree about what is allowed.
    let mut rolls = vec![roll_n(1, RollState::Active)];
    rolls[0].branch = "roll/1-0101-alpha".to_string();
    rolls[0].location = BranchLocation::Both;
    assert!(validate_action(
        Action::Integrate,
        Some(&rolls[0]),
        &rolls,
        "roll/2-0102-beta",
        "roll/"
    )
    .is_ok());
    assert!(
        validate_action(Action::Integrate, Some(&rolls[0]), &rolls, "main", "roll/").is_err()
    );
}

#[test]
fn the_integrate_modal_names_both_the_source_and_the_destination() {
    // The direction is the whole point and the easiest thing to get backwards,
    // so the prompt has to spell it out.
    let cfg = config("main", "rolling");
    let out = draw(render_modal(
        &cfg,
        Action::Integrate,
        Some("roll/1-0101-alpha"),
        &Vec::new(),
        "roll/2-0102-beta",
    ));
    assert!(
        out.contains("Integrate roll/1-0101-alpha into roll/2-0102-beta?"),
        "{out}"
    );
}

#[test]
fn the_tidy_modal_says_local_only_where_prune_says_local_plus_origin() {
    // `[x]` and `[t]` are adjacent keys whose only difference is whether
    // origin is touched, so each prompt has to say which it is.
    let cfg = config("main", "rolling");
    let rolls = vec![
        roll_n(1, RollState::Graduated),
        roll_n(2, RollState::Promoted),
    ];

    let tidy = draw(render_modal(&cfg, Action::Tidy, None, &rolls, "main"));
    assert!(
        tidy.contains("Delete 2 local graduated/promoted roll branches (local only)?"),
        "{tidy}"
    );

    let prune =
        draw(render_modal(&cfg, Action::Prune, None, &rolls, "main"));
    assert!(
        prune.contains("Delete 1 promoted roll branch (local + origin)?"),
        "{prune}"
    );
}

#[test]
fn a_job_title_names_the_roll_it_targets() {
    assert_eq!(
        Action::Graduate.job_title(Some("roll/1-0101-x")),
        "rf graduate roll/1-0101-x"
    );
    assert_eq!(Action::Promote.job_title(None), "rf promote");
}

#[test]
fn a_sync_failure_carries_gits_text_and_the_hint_together() {
    let failure = SyncFailure::new(GitFailure {
        stderr: " ! [rejected] main -> main (stale info)".to_string(),
        message: "`git push` exited with 1".to_string(),
    });
    let rendered = sync_error(&failure).to_string();
    assert!(rendered.contains("stale info"), "{rendered}");
    assert!(rendered.contains("press f to fetch"), "{rendered}");
}

/// The pinned base rows render above the rolls, with the role in the
/// `state` column and no roll number, and the cursor starts on the checked
/// out base branch.
#[test]
fn base_rows_render_above_the_rolls() {
    let cfg = config("main", "develop");
    let bases = base_branches(&cfg, "develop", &refs(&["main", "develop", "origin/main", "origin/develop"]));
    let app = dashboard(cfg, "develop", bases, vec![roll_n(1, RollState::Active)], Vec::new());

    let table = render_table(&app.bases, &app.rolls, &app.tracking, app.show_deps);
    let line = |row: usize| -> String { table.rows[row].text() };

    // Stable, rolling, and the roll.
    assert_eq!(table.rows.len(), 3);
    assert!(line(0).contains("main"), "{}", line(0));
    assert!(line(0).contains("stable"), "{}", line(0));
    assert!(line(1).contains("develop"), "{}", line(1));
    assert!(line(1).contains("rolling"), "{}", line(1));
    assert!(line(2).contains("roll/1-0101-x"), "{}", line(2));
    // Cursor sits on the current branch (the rolling base), not the roll.
    assert_eq!(app.selected, Some(1));
}
