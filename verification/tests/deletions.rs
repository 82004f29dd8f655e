use roll_flow::branches::{
    list_rolls, scan_graduated, scan_promoted, BranchLocation, RollFacts, RollInfo, RollScan,
    RollState,
};
use roll_flow::clean::{
    apply, plan, prune_remote, remote_batches, CleanConfig, CleanFacts, CleanReason, CleanScope,
};
use roll_flow::config::Config;
use roll_flow::git::LocalBranch;
use roll_flow::ops::prune::{
    delete_branch_plan, prune_apply, prune_plan, tidy_plan, unmerged_commit_counts, PruneFacts,
    PruneScope,
};
use roll_flow::proc::{confirm, Confirm, OutLine};
use roll_flow::report::commands::{
    branch_deleted, branches_deleted, declined, start_clean, start_delete, start_prune,
};
use roll_flow::report::lines::render_prune_results;
use roll_flow::tui::rolls::tidy_states;

fn texts(items: &[&str]) -> Vec<String> {
    items.iter().map(|s| s.to_string()).collect()
}

fn pair(a: &str, b: &str) -> (String, String) {
    (a.to_string(), b.to_string())
}

fn config() -> Config {
    let text = "rolling_branch = \"rolling\"\nstable_branch = \"main\"\nroll_prefix = \"roll/\"\n";
    Config::parse(text, "/repo").expect("the required keys are there").0
}

fn roll(number: u32, state: RollState) -> RollInfo {
    RollInfo {
        branch: format!("roll/{number}-x"),
        number,
        state,
        location: BranchLocation::Both,
        is_current: false,
        deps: Vec::new(),
        dependents: Vec::new(),
        graduation_commit: None,
    }
}

fn facts() -> PruneFacts {
    PruneFacts {
        has_remote: true,
        refs: texts(&[
            "main",
            "origin/main",
            "rolling",
            "roll/1-x",
            "origin/roll/1-x",
            "roll/2-x",
            "roll/3-x",
        ]),
        ancestry: vec![
            pair("roll/1-x", "main"),
            pair("origin/roll/1-x", "origin/main"),
            pair("roll/3-x", "rolling"),
        ],
        current: "main".to_string(),
        rolls: vec![
            roll(1, RollState::Promoted),
            roll(2, RollState::Promoted),
            roll(3, RollState::Graduated),
        ],
    }
}

#[test]
fn pruning_takes_contained_copies_and_explains_the_rest() {
    let plan = prune_plan(&config(), &PruneScope::both(), &facts());
    assert_eq!(plan.candidates.len(), 1);
    assert!(plan.candidates[0].delete_local && plan.candidates[0].delete_remote);
    assert_eq!(plan.remote_targets(), ["roll/1-x"]);
    // The second roll holds commits that stable lacks.
    assert_eq!(plan.skipped.len(), 1);
    assert_eq!(plan.skipped[0].branch, "roll/2-x");
    assert!(plan.skipped[0].reason.contains("use --force"));
    // Force takes it too; the third roll was never promoted.
    let forced = prune_plan(&config(), &PruneScope::from_flags(false, false, true, true), &facts());
    assert_eq!(forced.candidates.len(), 2);
}

#[test]
fn pruning_never_takes_the_branch_that_is_checked_out() {
    let here = PruneFacts { current: "roll/1-x".to_string(), ..facts() };
    let plan = prune_plan(&config(), &PruneScope::from_flags(false, false, true, true), &here);
    let first = plan.candidates.iter().find(|c| c.branch == "roll/1-x").expect("on origin");
    assert!(!first.delete_local && first.delete_remote);
}

#[test]
fn tidying_stays_local_and_counts_rolling_as_safe() {
    let plan = tidy_plan(&config(), &PruneScope::tidy(false), &tidy_states(), &facts());
    assert!(plan.remote_targets().is_empty());
    let names: Vec<&str> = plan.candidates.iter().map(|c| c.branch.as_str()).collect();
    assert_eq!(names, ["roll/1-x", "roll/3-x"]);
}

#[test]
fn workflow_branches_are_never_deleted() {
    for branch in ["main", "rolling"] {
        let err = delete_branch_plan(&config(), branch, &PruneScope::both(), &facts());
        assert!(err.unwrap_err().to_string().starts_with("refusing to delete"));
    }
    let missing = delete_branch_plan(&config(), "roll/9-x", &PruneScope::both(), &facts());
    assert!(missing.map(|p| p.is_empty()).unwrap_or(true));
}

#[test]
fn what_could_not_be_deleted_is_reported() {
    let plan = prune_plan(&config(), &PruneScope::both(), &facts());
    let results = prune_apply(&plan, &Some("no network".to_string()), &vec![None]);
    assert!(results[0].local_deleted && !results[0].remote_deleted);
    assert_eq!(results[0].errors.len(), 1);
    let (lines, failures) = render_prune_results(&results, "Pruned");
    assert_eq!(failures, 1);
    assert!(lines.iter().any(|l| l.is_err() && l.text().contains("no network")), "{lines:?}");
    assert_eq!(
        branches_deleted(failures).unwrap_err().to_string(),
        "1 branch could not be deleted"
    );
    assert_eq!(
        branches_deleted(2).unwrap_err().to_string(),
        "2 branches could not be deleted"
    );
    assert!(branches_deleted(0).is_ok());
    assert_eq!(
        branch_deleted("roll/1-x", 1).unwrap_err().to_string(),
        "'roll/1-x' could not be deleted"
    );
}

#[test]
fn commits_are_counted_where_a_copy_is() {
    let refs = texts(&["roll/1-x"]);
    assert_eq!(unmerged_commit_counts(&refs, "roll/1-x", Some(2), Some(3)), (Some(2), None));
}

#[test]
fn deleting_asks_first() {
    let plan = prune_plan(&config(), &PruneScope::both(), &facts());
    let asked = start_prune(&plan, false);
    assert_eq!(asked.question.as_deref(), Some("\nDelete these branches? [y/N] "));
    assert_eq!(asked.lines[0], OutLine::Out("Promoted roll branches to prune:".to_string()));
    let dry = start_prune(&plan, true);
    assert_eq!(dry.question, None);
    assert_eq!(
        dry.lines.last(),
        Some(&OutLine::Out("\nDry-run: nothing deleted".to_string()))
    );
    let named = start_delete("roll/1-x", &plan, false);
    assert_eq!(named.question.as_deref(), Some("\nDelete 'roll/1-x'? [y/N] "));
    let none = PruneFacts { rolls: Vec::new(), ..facts() };
    let empty = start_prune(&prune_plan(&config(), &PruneScope::both(), &none), false);
    assert_eq!(empty.lines, [OutLine::Out("no promoted roll branches to prune".to_string())]);
    assert_eq!(empty.question, None);
}

#[test]
fn an_unattended_run_deletes_nothing() {
    assert_eq!(confirm(true, false, ""), Confirm::Yes);
    assert_eq!(confirm(false, false, "y"), Confirm::Unattended);
    assert_eq!(confirm(false, true, " YES\n"), Confirm::Yes);
    assert_eq!(confirm(false, true, "yep"), Confirm::Declined);
    assert_eq!(declined(Confirm::Yes), None);
    assert_eq!(declined(Confirm::Declined).as_deref(), Some("Nothing deleted."));
    assert_eq!(
        declined(Confirm::Unattended).as_deref(),
        Some("\nNothing deleted. Re-run with --yes to apply.")
    );
}

fn branch(name: &str, upstream: &str, track: &str) -> LocalBranch {
    LocalBranch {
        name: name.to_string(),
        upstream: upstream.to_string(),
        remote_name: if upstream.is_empty() { String::new() } else { "origin".to_string() },
        track: track.to_string(),
        worktree: String::new(),
    }
}

fn clean_facts() -> CleanFacts {
    CleanFacts {
        config: Some(CleanConfig {
            stable_branch: "main".to_string(),
            rolling_branch: "rolling".to_string(),
            clean_protect: Vec::new(),
        }),
        remotes: texts(&["origin"]),
        remote_heads: vec![pair("origin", "main")],
        refs: texts(&["main", "origin/main", "merged", "lost", "active"]),
        details: vec![
            branch("main", "origin/main", ""),
            branch("merged", "", ""),
            branch("lost", "origin/lost", "gone"),
            branch("active", "", ""),
        ],
        current: "active".to_string(),
        promoted: Vec::new(),
        ancestry: vec![pair("merged", "main")],
        unmerged: vec![("lost".to_string(), 2)],
        pruned: vec![prune_remote(
            "origin",
            &texts(&["origin/main", "origin/lost"]),
            None,
            &texts(&["origin/main"]),
        )],
        shallow: false,
    }
}

#[test]
fn cleaning_takes_what_is_contained_and_explains_the_rest() {
    let scope = CleanScope { with_remote: false, force: false, fetch: true };
    let o = plan(&clean_facts(), &scope);
    assert_eq!(o.pruned_count(), 1);
    assert_eq!(o.items.len(), 1);
    assert_eq!(o.items[0].branch, "merged");
    assert_eq!(o.items[0].reason, CleanReason::Merged);
    assert!(o.skipped.iter().any(|s| s.branch == "lost" && s.reason.contains("--force")));
    let forced = plan(&clean_facts(), &CleanScope { force: true, ..scope });
    let lost = forced.items.iter().find(|i| i.branch == "lost").expect("force takes it");
    assert_eq!(lost.unmerged, Some(2));
    assert!(remote_batches(&o).is_empty());
    let results = apply(&o.items, &Vec::new(), &vec![None]);
    assert!(results[0].local_deleted && results[0].errors.is_empty());
}

#[test]
fn cleaning_says_what_it_will_do() {
    let scope = CleanScope { with_remote: false, force: true, fetch: true };
    let o = plan(&clean_facts(), &scope);
    let asked = start_clean(&o, false);
    let said: Vec<&str> = asked.lines.iter().map(|l| l.text()).collect();
    assert_eq!(said[0], "Pruned 1 stale remote-tracking ref:");
    assert_eq!(said[1], "  origin/lost");
    assert!(said.contains(&"Branches to delete:"), "{said:?}");
    assert!(said.iter().any(|l| l.contains("gone (2 commits)")), "{said:?}");
    assert_eq!(asked.question.as_deref(), Some("\nDelete these branches? [y/N] "));
    let dry = start_clean(&o, true);
    assert_eq!(dry.question, None);
}

fn fact(branch: &str, subjects: &[&str]) -> RollFacts {
    RollFacts {
        branch: branch.to_string(),
        local: true,
        remote: false,
        diverged: false,
        dep_subjects: texts(subjects),
    }
}

#[test]
fn rolls_are_listed_by_number_with_their_dependencies() {
    let scan = RollScan {
        roll_prefix: "roll/".to_string(),
        current: "roll/2-b".to_string(),
        local: texts(&["main", "roll/10-c", "roll/2-b", "roll/1-a"]),
        remote: Vec::new(),
        graduated: scan_graduated(
            &Some("aaa\tGraduate roll/1-a into rolling\n".to_string()),
            &None,
        ),
        promoted: scan_promoted(&Vec::new()),
        facts: vec![
            fact("roll/10-c", &["Merge branch 'roll/2-b' into roll/10-c"]),
            fact("roll/2-b", &[]),
            fact("roll/1-a", &[]),
        ],
    };
    let rolls = list_rolls(&scan);
    let numbers: Vec<u32> = rolls.iter().map(|r| r.number).collect();
    assert_eq!(numbers, [1, 2, 10]);
    assert_eq!(rolls[0].state, RollState::Graduated);
    assert_eq!(rolls[0].graduation_commit.as_deref(), Some("aaa"));
    assert_eq!(rolls[1].dependents, [10]);
    assert_eq!(rolls[2].deps, [2]);
    // The roll it depends on has not graduated.
    assert_eq!(rolls[2].state, RollState::Blocked);
    assert!(rolls[1].is_current);
}
