use roll_flow::ops::prune::{decide_copies, PruneScope, SkipReason};

/// A scope covering both copies, with `force` under test.
fn both(force: bool) -> PruneScope {
    PruneScope {
        local: true,
        remote: true,
        force,
        fetch: false,
    }
}

#[test]
fn deletes_both_copies_when_contained() {
    let (local, remote, skips) = decide_copies(&both(false), true, true, false, true, true);
    assert!(local && remote);
    assert!(skips.is_empty(), "nothing to explain: {skips:?}");
}

#[test]
fn uncontained_copies_need_force() {
    let (local, remote, skips) = decide_copies(&both(false), true, true, false, false, false);
    assert!(!local && !remote, "neither copy is safe without force");
    assert_eq!(
        skips,
        vec![SkipReason::LocalUncontained, SkipReason::RemoteUncontained]
    );

    let (local, remote, skips) = decide_copies(&both(true), true, true, false, false, false);
    assert!(local && remote, "force is the documented override");
    assert!(skips.is_empty());
}

#[test]
fn force_never_deletes_the_checked_out_local_copy() {
    // The load-bearing rule: the checked-out guard sits ahead of the force
    // check, so `--force` cannot reach past it. Origin is still fair game.
    for force in [false, true] {
        let (local, remote, skips) = decide_copies(&both(force), true, true, true, true, true);
        assert!(!local, "checked-out local copy must survive force={force}");
        assert!(remote, "the origin copy is not checked out anywhere");
        assert_eq!(skips, vec![SkipReason::CheckedOut]);
    }
}

#[test]
fn a_copy_that_does_not_exist_is_neither_deleted_nor_skipped() {
    let (local, remote, skips) = decide_copies(&both(false), false, true, false, false, true);
    assert!(!local && remote);
    assert!(
        skips.is_empty(),
        "a missing copy is not a refusal to explain: {skips:?}"
    );
}

#[test]
fn scope_flags_exclude_a_copy_entirely() {
    let local_only = PruneScope {
        local: true,
        remote: false,
        force: false,
        fetch: false,
    };
    // The origin copy is uncontained, but out of scope — so it is neither
    // deleted nor reported, rather than surfacing a confusing refusal.
    let (local, remote, skips) = decide_copies(&local_only, true, true, false, true, false);
    assert!(local && !remote);
    assert!(skips.is_empty(), "{skips:?}");

    let remote_only = PruneScope {
        local: false,
        remote: true,
        force: false,
        fetch: false,
    };
    let (local, remote, skips) = decide_copies(&remote_only, true, true, true, true, true);
    assert!(!local && remote);
    assert!(
        skips.is_empty(),
        "the checked-out local copy is out of scope, not refused: {skips:?}"
    );
}
