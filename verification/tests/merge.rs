use roll_flow::failure::Failure;
use roll_flow::ops::merge::{
    unstaged_tracked_changes, MergeAction, MergeEvent, MergeRun,
};
use roll_flow::ops::trailer::{
    append_commit_trailer, message_with_trailer, TrailerAction, TrailerEvent, TrailerRun,
};

fn gated() -> MergeRun {
    MergeRun::gated(
        "rolling",
        "main",
        "roll/1-x",
        "Promote rolling to main",
        Some("Rolls:\n- roll/1-x".to_string()),
    )
}

fn plain() -> MergeRun {
    MergeRun::plain("roll/1-x", "rolling", "roll/1-x", "Graduate roll/1-x into rolling", None)
}

fn git(run: &MergeRun) -> Vec<String> {
    match run.action() {
        MergeAction::Git(args) => args,
        _ => panic!("git should be run"),
    }
}

fn refused(text: &str) -> MergeEvent {
    MergeEvent::Git(Err(Failure::msg(text.to_string())))
}

fn failure(run: &MergeRun) -> Failure {
    match run.action() {
        MergeAction::Failed(e) => e,
        _ => panic!("the merge should have failed"),
    }
}

fn done() -> MergeEvent {
    MergeEvent::Git(Ok(()))
}

#[test]
fn a_gated_merge_is_committed_after_its_gates() {
    let run = gated();
    assert_eq!(git(&run), ["checkout", "main"]);
    let run = run.advance(done());
    assert_eq!(git(&run), ["merge", "--no-ff", "--no-commit", "--no-edit", "rolling"]);
    let run = run.advance(done());
    assert!(matches!(run.action(), MergeAction::RunGates));
    let run = run.advance(MergeEvent::Gates(Ok(())));
    assert!(matches!(run.action(), MergeAction::ListUnstaged));
    let run = run.advance(MergeEvent::Unstaged(None));
    assert_eq!(
        git(&run),
        ["commit", "--no-edit", "-m", "Promote rolling to main", "-m", "Rolls:\n- roll/1-x"]
    );
    let run = run.advance(done());
    assert_eq!(git(&run), ["checkout", "roll/1-x"]);
    let run = run.advance(done());
    assert!(matches!(run.action(), MergeAction::Finished));
}

#[test]
fn a_plain_merge_is_committed_at_once() {
    let run = plain().advance(done());
    assert_eq!(
        git(&run),
        ["merge", "--no-ff", "--no-edit", "-m", "Graduate roll/1-x into rolling", "roll/1-x"]
    );
    let run = run.advance(done());
    assert_eq!(git(&run), ["checkout", "roll/1-x"]);
    assert!(matches!(run.advance(done()).action(), MergeAction::Finished));
}

#[test]
fn a_conflict_is_aborted_and_explained() {
    let run = plain().advance(done()).advance(refused("conflict in a.rs"));
    assert_eq!(git(&run), ["merge", "--abort"]);
    let run = run.advance(refused("nothing to abort"));
    assert_eq!(git(&run), ["checkout", "roll/1-x"]);
    let run = run.advance(done());
    assert_eq!(
        failure(&run).to_string(),
        "merge of 'roll/1-x' into 'rolling' failed (likely conflicts); the merge was aborted and \
         you are back on 'roll/1-x'. Resolve manually: git checkout rolling && git merge --no-ff \
         roll/1-x (conflict in a.rs)"
    );
}

#[test]
fn failing_gates_roll_a_merge_back() {
    let run = gated()
        .advance(done())
        .advance(done())
        .advance(MergeEvent::Gates(Err(Failure::msg("gate failed: make".to_string()))));
    assert_eq!(git(&run), ["merge", "--abort"]);
    let run = run.advance(done()).advance(done());
    assert_eq!(
        failure(&run).chain,
        [
            "promotion of 'rolling' into 'main' was rolled back; the merge was aborted and you are \
             back on 'roll/1-x'",
            "gate failed: make",
        ]
    );
}

#[test]
fn gates_that_change_tracked_files_roll_a_merge_back() {
    let run = gated()
        .advance(done())
        .advance(done())
        .advance(MergeEvent::Gates(Ok(())))
        .advance(MergeEvent::Unstaged(Some("Cargo.lock".to_string())))
        .advance(done())
        .advance(done());
    assert!(failure(&run).to_string().ends_with(
        "The merge was aborted and you are back on 'roll/1-x'. Modified: Cargo.lock"
    ));
}

#[test]
fn a_refused_commit_rolls_a_merge_back() {
    let run = gated()
        .advance(done())
        .advance(done())
        .advance(MergeEvent::Gates(Ok(())))
        .advance(MergeEvent::Unstaged(None))
        .advance(refused("hook"))
        .advance(done())
        .advance(done());
    assert_eq!(
        failure(&run).to_string(),
        "gates passed but committing the merge of 'rolling' into 'main' failed; the merge was \
         aborted and you are back on 'roll/1-x' (hook)"
    );
}

#[test]
fn a_target_that_cannot_be_checked_out_ends_a_merge() {
    let run = plain().advance(refused("dirty"));
    assert_eq!(failure(&run).chain, ["failed to check out 'rolling'", "dirty"]);
}

#[test]
fn a_barred_way_back_is_reported() {
    let run = plain().advance(done()).advance(done()).advance(refused("locked"));
    assert_eq!(
        failure(&run).chain,
        [
            "the merge into 'rolling' succeeded, but checking out 'roll/1-x' again failed",
            "locked",
        ]
    );
}

#[test]
fn an_event_out_of_turn_changes_nothing() {
    let run = gated().advance(MergeEvent::Gates(Ok(())));
    assert_eq!(git(&run), ["checkout", "main"]);
    let run = run.advance(MergeEvent::Unstaged(None));
    assert_eq!(git(&run), ["checkout", "main"]);
}

#[test]
fn unstaged_files_are_listed_on_one_line() {
    assert_eq!(unstaged_tracked_changes(""), None);
    assert_eq!(
        unstaged_tracked_changes("Cargo.lock\nsrc/lib.rs\n").as_deref(),
        Some("Cargo.lock, src/lib.rs")
    );
}

#[test]
fn a_trailer_goes_below_the_message() {
    assert_eq!(
        message_with_trailer("Promote rolling to main\n\n", "Forced-Bypass: x"),
        "Promote rolling to main\n\nForced-Bypass: x\n"
    );
}

fn trailer_git(run: &TrailerRun) -> Vec<String> {
    match run.action() {
        TrailerAction::Git(args) => args,
        _ => panic!("git should be run"),
    }
}

fn trailer_failure(run: &TrailerRun) -> Vec<String> {
    match run.action() {
        TrailerAction::Failed(e) => e.chain,
        _ => panic!("the recording should have failed"),
    }
}

fn no() -> Result<(), Failure> {
    Err(Failure::msg("no".to_string()))
}

fn amending() -> TrailerRun {
    append_commit_trailer("main", "roll/1", "Forced-Bypass: x")
        .advance(TrailerEvent::Git(Ok(())))
        .advance(TrailerEvent::Captured(Ok("Promote rolling to main\n".to_string())))
}

#[test]
fn recording_a_trailer_amends_and_returns() {
    let run = append_commit_trailer("main", "roll/1", "Forced-Bypass: x");
    assert_eq!(trailer_git(&run), ["checkout", "main"]);
    let run = run.advance(TrailerEvent::Git(Ok(())));
    match run.action() {
        TrailerAction::Capture(args) => assert_eq!(args, ["log", "-1", "--format=%B"]),
        _ => panic!("the message should be read"),
    }
    let run = amending();
    assert_eq!(
        trailer_git(&run),
        [
            "commit",
            "--amend",
            "--no-edit",
            "-m",
            "Promote rolling to main\n\nForced-Bypass: x\n",
        ]
    );
    let run = run.advance(TrailerEvent::Git(Ok(())));
    assert_eq!(trailer_git(&run), ["checkout", "roll/1"]);
    let run = run.advance(TrailerEvent::Git(Ok(())));
    assert!(matches!(run.action(), TrailerAction::Finished));
}

#[test]
fn recording_a_trailer_fails_where_a_step_fails() {
    let start = || append_commit_trailer("main", "roll/1", "Forced-Bypass: x");
    let at_checkout = start().advance(TrailerEvent::Git(no()));
    assert_eq!(
        trailer_failure(&at_checkout),
        ["failed to check out 'main' to record the force trailer", "no"]
    );
    let unread = start()
        .advance(TrailerEvent::Git(Ok(())))
        .advance(TrailerEvent::Captured(Err(Failure::msg("no log".to_string()))));
    assert_eq!(trailer_failure(&unread), ["no log"]);
    let at_amend = amending().advance(TrailerEvent::Git(no()));
    assert_eq!(trailer_git(&at_amend), ["checkout", "roll/1"]);
    assert_eq!(
        trailer_failure(&at_amend.advance(TrailerEvent::Git(Ok(())))),
        ["failed to record the force trailer on 'main'", "no"]
    );
    let on_the_way_back =
        amending().advance(TrailerEvent::Git(no())).advance(TrailerEvent::Git(no()));
    assert_eq!(
        trailer_failure(&on_the_way_back),
        ["recorded the force trailer, but checking out 'roll/1' again failed", "no"]
    );
}
