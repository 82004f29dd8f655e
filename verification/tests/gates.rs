use roll_flow::failure::Failure;
use roll_flow::ops::gates::{
    exit_desc, next_gate, next_host_gate, plan_host_gates, run_gates, run_host_gates, ForceOpts,
    GateExit, GateNotice,
};

fn texts(items: &[&str]) -> Vec<String> {
    items.iter().map(|s| s.to_string()).collect()
}

fn forced() -> ForceOpts {
    ForceOpts::new(true, Some("hotfix".to_string())).expect("a reason is given")
}

#[test]
fn gates_run_one_behind_the_other_until_one_fails() {
    let gates = texts(&["make a", "make b", "make c"]);
    let mut exits = Vec::new();
    assert_eq!(next_gate(&gates, &exits, false).as_deref(), Some("make a"));
    exits.push(GateExit::Passed);
    assert_eq!(next_gate(&gates, &exits, false).as_deref(), Some("make b"));
    exits.push(GateExit::Failed(Some(2)));
    assert_eq!(next_gate(&gates, &exits, false), None);
    let err = run_gates(&gates, false, &ForceOpts::none(), &exits).expect_err("a gate failed");
    assert_eq!(err.chain, ["gate failed: make b"]);
    // Force goes on to the next one.
    assert_eq!(next_gate(&gates, &exits, true).as_deref(), Some("make c"));
}

#[test]
fn force_records_what_it_bypasses() {
    let gates = texts(&["make a", "make \"b\""]);
    let exits = vec![GateExit::Failed(None), GateExit::Failed(Some(-3))];
    let report = run_gates(&gates, false, &forced(), &exits).expect("force bypasses failures");
    assert_eq!(report.bypassed.len(), 2);
    assert_eq!(report.bypassed[1].gate, "make \"b\"");
    assert_eq!(report.bypassed[1].code, Some(-3));
    assert!(matches!(&report.notices[0], GateNotice::Bypassed { gate, code: None } if gate == "make a"));
    // The trailer quotes the commands.
    assert_eq!(
        forced().trailer(&report.bypassed).as_deref(),
        Some(
            format!(
                "Forced-Bypass:\n  gate: \"make a\" ({})\n  gate: \"make \\\"b\\\"\" ({})\n\
                 Force-Reason: hotfix",
                exit_desc(None),
                exit_desc(Some(-3))
            )
            .as_str()
        )
    );
    assert_eq!(forced().trailer(&Vec::new()), None);
}

#[test]
fn a_gate_that_cannot_be_run_blocks_even_under_force() {
    let gates = texts(&["make a"]);
    let exits = vec![GateExit::NotRun(Failure::msg("no shell".to_string()))];
    let err = run_gates(&gates, false, &forced(), &exits).expect_err("it did not run");
    assert_eq!(err.chain, ["failed to run gate: make a", "no shell"]);
}

#[test]
fn a_dry_run_lists_the_gates() {
    let gates = texts(&["make a", "make b"]);
    let report = run_gates(&gates, true, &ForceOpts::none(), &Vec::new()).expect("nothing runs");
    assert!(matches!(&report.notices[..],
        [GateNotice::DryRun(a), GateNotice::DryRun(b)] if a == "make a" && b == "make b"));
    let none = run_gates(&Vec::new(), false, &ForceOpts::none(), &Vec::new()).expect("no gates");
    assert!(matches!(&none.notices[..], [GateNotice::NoGates]));
}

#[test]
fn force_needs_a_reason_and_a_reason_needs_force() {
    assert!(ForceOpts::new(true, None).is_err());
    assert!(ForceOpts::new(true, Some("  ".to_string())).is_err());
    assert_eq!(
        ForceOpts::new(false, Some("why".to_string())).unwrap_err().to_string(),
        "--reason is only valid together with --force"
    );
    assert!(!ForceOpts::new(false, None).expect("no force").enabled);
}

#[test]
fn host_gates_run_for_every_active_host() {
    let mut runs = plan_host_gates(&texts(&["merlin", "wsl"]), &texts(&["build {host} on {host}"]));
    assert_eq!(runs.len(), 2);
    assert_eq!(runs[1].gates[0].command, "build wsl on wsl");
    // Without exits it is a dry run.
    let dry = run_host_gates(&runs, &ForceOpts::none()).expect("nothing runs");
    assert!(matches!(&dry.notices[0], GateNotice::DryRunHost(c) if c == "build merlin on merlin"));
    runs[0].gates[0].exit = Some(GateExit::Passed);
    runs[1].gates[0].exit = Some(GateExit::Failed(Some(1)));
    let report = run_host_gates(&runs, &ForceOpts::none()).expect("all ran");
    assert!(report.results[0].passed());
    assert!(!report.results[1].passed());
    assert_eq!(report.failed_hosts(), ["wsl"]);
    assert!(report.bypassed.is_empty());
    let bypassing = run_host_gates(&runs, &forced()).expect("all ran");
    assert_eq!(bypassing.bypassed[0].gate, "build wsl on wsl");
}

#[test]
fn host_gates_are_due_one_by_one_until_one_cannot_be_run() {
    let plan = || plan_host_gates(&texts(&["merlin", "wsl"]), &texts(&["build {host}", "lint"]));
    let mut runs = plan();
    let mut order = Vec::new();
    while let Some((host, gate)) = next_host_gate(&runs) {
        order.push((host, gate));
        // A failure holds nothing back.
        runs[host].gates[gate].exit = Some(GateExit::Failed(Some(1)));
    }
    assert_eq!(order, [(0, 0), (0, 1), (1, 0), (1, 1)]);
    assert_eq!(
        run_host_gates(&runs, &ForceOpts::none()).expect("all ran").failed_hosts(),
        ["merlin", "wsl"]
    );
    let mut runs = plan();
    runs[0].gates[0].exit = Some(GateExit::Passed);
    runs[0].gates[1].exit = Some(GateExit::NotRun(Failure::msg("no shell".to_string())));
    assert_eq!(next_host_gate(&runs), None);
    assert_eq!(
        run_host_gates(&runs, &ForceOpts::none()).unwrap_err().chain,
        ["failed to run host gate: lint", "no shell"]
    );
}
