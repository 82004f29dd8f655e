use roll_flow::git::{
    parse_ahead_behind, parse_cat_file_batch, parse_local_branch_line, track_state, LocalBranch,
    TrackState,
};
use roll_flow::version::find_blob;

fn blob<'a>(found: &'a Vec<(String, String)>, key: &str) -> Option<&'a str> {
    find_blob(found, key).map(String::as_str)
}

#[test]
fn parses_left_right_counts() {
    assert_eq!(parse_ahead_behind("3\t5"), Some((3, 5)));
    assert_eq!(parse_ahead_behind("0\t0"), Some((0, 0)));
    // Spaces are tolerated too.
    assert_eq!(parse_ahead_behind("2 4"), Some((2, 4)));
    // Malformed / short input yields None rather than a panic.
    assert_eq!(parse_ahead_behind(""), None);
    assert_eq!(parse_ahead_behind("7"), None);
    assert_eq!(parse_ahead_behind("a\tb"), None);
}

// ── Branch detail parsing ─────────────────────────────────────────────────

#[test]
fn parses_a_branch_with_no_upstream() {
    let b = parse_local_branch_line("feature/x\t\t\t\t").expect("parse");
    assert_eq!(b.name, "feature/x");
    assert!(b.upstream.is_empty());
    assert!(b.remote_name.is_empty());
    assert!(b.track.is_empty());
    assert!(!b.is_checked_out());
    // An empty `track` must not read as "gone" when there is no upstream at
    // all — that is the difference between "never pushed" and "deleted
    // upstream", and only the latter is safe to treat as cleanup material.
    assert!(!b.upstream_gone());
}

#[test]
fn parses_a_gone_upstream() {
    let b =
        parse_local_branch_line("roll/101\torigin/roll/101\torigin\tgone\t").expect("parse");
    assert_eq!(b.remote_name, "origin");
    assert!(b.upstream_gone());
}

#[test]
fn parses_a_bracketed_gone_upstream() {
    // Defensive: `nobracket` yields bare `gone`, but accept the bracketed
    // form too rather than silently classifying the branch as in-sync.
    let b = parse_local_branch_line("x\torigin/x\torigin\t[gone]\t").expect("parse");
    assert!(b.upstream_gone());
}

#[test]
fn parses_a_diverged_branch_as_not_gone() {
    let b = parse_local_branch_line("main\torigin/main\torigin\tahead 5\t").expect("parse");
    assert_eq!(b.track, "ahead 5");
    assert!(!b.upstream_gone());
}

#[test]
fn parses_a_worktree_path_containing_a_tab() {
    // The path is the final field precisely so an embedded tab cannot shift
    // the tracking columns.
    let b = parse_local_branch_line("x\torigin/x\torigin\t\t/tmp/od\td/wt").expect("parse");
    assert_eq!(b.track, "");
    assert_eq!(b.worktree, "/tmp/od\td/wt");
    assert!(b.is_checked_out());
}

#[test]
fn skips_blank_lines() {
    assert!(parse_local_branch_line("").is_none());
    assert!(parse_local_branch_line("\t\t\t\t").is_none());
}

/// Build a `LocalBranch` carrying only the two fields `track_state` reads.
fn upstreamed(upstream: &str, track: &str) -> LocalBranch {
    LocalBranch {
        name: "feature/x".to_string(),
        upstream: upstream.to_string(),
        remote_name: if upstream.is_empty() {
            String::new()
        } else {
            "origin".to_string()
        },
        track: track.to_string(),
        worktree: String::new(),
    }
}

#[test]
fn an_empty_upstream_is_no_upstream_not_in_sync() {
    // `track` is empty in both cases; only the upstream field separates them.
    assert_eq!(track_state(&upstreamed("", "")), TrackState::NoUpstream);
    assert_eq!(
        track_state(&upstreamed("origin/feature/x", "")),
        TrackState::InSync
    );
}

#[test]
fn a_gone_upstream_is_reported_in_both_spellings() {
    assert_eq!(
        track_state(&upstreamed("origin/feature/x", "gone")),
        TrackState::Gone
    );
    assert_eq!(
        track_state(&upstreamed("origin/feature/x", "[gone]")),
        TrackState::Gone
    );
}

#[test]
fn ahead_behind_and_divergence_are_parsed_from_track() {
    assert_eq!(
        track_state(&upstreamed("origin/feature/x", "ahead 2")),
        TrackState::Ahead(2)
    );
    assert_eq!(
        track_state(&upstreamed("origin/feature/x", "behind 3")),
        TrackState::Behind(3)
    );
    assert_eq!(
        track_state(&upstreamed("origin/feature/x", "ahead 1, behind 4")),
        TrackState::Diverged {
            ahead: 1,
            behind: 4
        }
    );
}

#[test]
fn unrecognised_track_text_degrades_to_in_sync_rather_than_erroring() {
    // Never panics or misreports divergence on text we did not anticipate:
    // showing "in sync" is wrong but harmless, whereas a panic kills the TUI.
    assert_eq!(
        track_state(&upstreamed("origin/feature/x", "something new")),
        TrackState::InSync
    );
}

#[test]
fn only_behind_and_diverged_require_a_force_push() {
    assert!(!TrackState::NoUpstream.needs_force_to_push());
    assert!(!TrackState::InSync.needs_force_to_push());
    assert!(!TrackState::Ahead(3).needs_force_to_push());
    assert!(!TrackState::Gone.needs_force_to_push());
    assert!(TrackState::Behind(1).needs_force_to_push());
    assert!(TrackState::Diverged {
        ahead: 1,
        behind: 1
    }
    .needs_force_to_push());
}

#[test]
fn cat_file_batch_walks_by_byte_count_not_by_lines() {
    // The parse has to step over content by the size the header declares.
    // This blob deliberately contains a line that looks like a `missing`
    // answer — split the stream on newlines instead and that line is read
    // as an answer to the next spec.
    let content = "version = \"0.2.4\"\nb:Cargo.toml missing\n";
    let mut stdout = Vec::new();
    stdout.extend_from_slice(format!("abc123 blob {}\n", content.len()).as_bytes());
    stdout.extend_from_slice(content.as_bytes());
    stdout.push(b'\n');
    stdout.extend_from_slice(b"b:Cargo.toml missing\n");

    let specs = vec!["a:Cargo.toml".to_string(), "b:Cargo.toml".to_string()];
    let found = parse_cat_file_batch(&stdout, &specs);

    assert_eq!(blob(&found, "a:Cargo.toml"), Some(content));
    // The ref that genuinely has no manifest is absent, not empty.
    assert!(blob(&found, "b:Cargo.toml").is_none());
}

#[test]
fn cat_file_batch_reports_a_miss_as_absence() {
    let specs = vec!["nope:Cargo.toml".to_string()];
    let found = parse_cat_file_batch(&b"nope:Cargo.toml missing\n".to_vec(), &specs);
    assert!(found.is_empty());

    // A truncated stream (git killed mid-write) yields what was complete
    // rather than a panic on an out-of-range slice.
    let truncated = b"abc123 blob 99\nshort".to_vec();
    assert!(parse_cat_file_batch(&truncated, &specs).is_empty());
}
