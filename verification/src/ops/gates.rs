//! Gates: commands that must pass before a merge, and what is recorded when
//! they are passed by force.
use vstd::prelude::*;

use crate::failure::{outcome, Failure};
use crate::num::{decimal, to_decimal};
use crate::seqs::{kept, lemma_kept_contains, lemma_kept_ends, lemma_kept_step};
use crate::text::{
    cat, cat5, cut, debug_quoted, found, join, joined, law_cuts_are_at_the_first,
    lemma_found_bounds, lemma_joined_front, owned, pieces_of, quote, split_text, trim, trimmed,
};

verus! {

/// How a gate's command ended.
pub enum GateExit {
    Passed,
    /// The exit code, or `None` where a signal ended it.
    Failed(Option<i32>),
    /// The command could not be run at all.
    NotRun(Failure),
}

/// [`GateExit`] by its characters.
pub enum GateExitView {
    Passed,
    Failed(Option<i32>),
    NotRun(Seq<Seq<char>>),
}

impl DeepView for GateExit {
    type V = GateExitView;

    open spec fn deep_view(&self) -> GateExitView {
        match self {
            GateExit::Passed => GateExitView::Passed,
            GateExit::Failed(code) => GateExitView::Failed(*code),
            GateExit::NotRun(e) => GateExitView::NotRun(e.deep_view()),
        }
    }
}

/// A gate that failed and was passed by force.
#[derive(Debug)]
pub struct GateBypass {
    pub gate: String,
    pub code: Option<i32>,
}

/// [`GateBypass`] by its characters.
pub struct GateBypassView {
    pub gate: Seq<char>,
    pub code: Option<i32>,
}

impl DeepView for GateBypass {
    type V = GateBypassView;

    open spec fn deep_view(&self) -> GateBypassView {
        GateBypassView { gate: self.gate@, code: self.code }
    }
}

/// Something to say about a run of gates.
#[derive(Debug)]
pub enum GateNotice {
    /// No gates are configured.
    NoGates,
    /// A gate that would run.
    DryRun(String),
    /// A host's gate that would run.
    DryRunHost(String),
    /// A gate that failed and was passed by force.
    Bypassed { gate: String, code: Option<i32> },
}

/// [`GateNotice`] by its characters.
pub enum GateNoticeView {
    NoGates,
    DryRun(Seq<char>),
    DryRunHost(Seq<char>),
    Bypassed { gate: Seq<char>, code: Option<i32> },
}

impl DeepView for GateNotice {
    type V = GateNoticeView;

    open spec fn deep_view(&self) -> GateNoticeView {
        match self {
            GateNotice::NoGates => GateNoticeView::NoGates,
            GateNotice::DryRun(g) => GateNoticeView::DryRun(g@),
            GateNotice::DryRunHost(g) => GateNoticeView::DryRunHost(g@),
            GateNotice::Bypassed { gate, code } => GateNoticeView::Bypassed {
                gate: gate@,
                code: *code,
            },
        }
    }
}

/// What a run of gates came to.
#[derive(Debug)]
pub struct GateReport {
    pub bypassed: Vec<GateBypass>,
    pub notices: Vec<GateNotice>,
}

/// [`GateReport`] by its characters.
pub struct GateReportView {
    pub bypassed: Seq<GateBypassView>,
    pub notices: Seq<GateNoticeView>,
}

impl DeepView for GateReport {
    type V = GateReportView;

    open spec fn deep_view(&self) -> GateReportView {
        GateReportView { bypassed: self.bypassed.deep_view(), notices: self.notices.deep_view() }
    }
}

/// Whether a gate that ended this way ends the run.
pub open spec fn blocks(exit: GateExitView, force: bool) -> bool {
    match exit {
        GateExitView::Passed => false,
        GateExitView::Failed(_) => !force,
        GateExitView::NotRun(_) => true,
    }
}

/// Whether a gate that ended this way ends the run.
pub fn gate_blocks(exit: &GateExit, force: bool) -> (r: bool)
    ensures
        r == blocks(exit.deep_view(), force),
{
    match exit {
        GateExit::Passed => false,
        GateExit::Failed(_) => !force,
        GateExit::NotRun(_) => true,
    }
}

/// The report after one more gate.
pub open spec fn after_gate(
    report: GateReportView,
    gate: Seq<char>,
    exit: GateExitView,
    force: bool,
) -> Result<GateReportView, Seq<Seq<char>>> {
    match exit {
        GateExitView::Passed => Ok(report),
        GateExitView::Failed(code) => if force {
            Ok(
                GateReportView {
                    bypassed: report.bypassed.push(GateBypassView { gate, code }),
                    notices: report.notices.push(GateNoticeView::Bypassed { gate, code }),
                },
            )
        } else {
            Err(seq!["gate failed: "@ + gate])
        },
        GateExitView::NotRun(e) => Err(seq!["failed to run gate: "@ + gate] + e),
    }
}

/// The report on gates that ended as `exits` says: without force the first
/// failure ends the run; with force every gate runs and failures are recorded.
pub open spec fn gates_run(
    gates: Seq<Seq<char>>,
    exits: Seq<GateExitView>,
    force: bool,
) -> Result<GateReportView, Seq<Seq<char>>>
    decreases exits.len(),
{
    if exits.len() == 0 {
        Ok(GateReportView { bypassed: seq![], notices: seq![] })
    } else {
        match gates_run(gates, exits.drop_last(), force) {
            Ok(r) => after_gate(r, gates[exits.len() - 1], exits.last(), force),
            Err(e) => Err(e),
        }
    }
}

/// The report on a run of gates. Without gates that is all there is to say; a
/// dry run lists them and runs none.
pub open spec fn gates_report(
    gates: Seq<Seq<char>>,
    dry_run: bool,
    force: bool,
    exits: Seq<GateExitView>,
) -> Result<GateReportView, Seq<Seq<char>>> {
    if gates.len() == 0 {
        Ok(GateReportView { bypassed: seq![], notices: seq![GateNoticeView::NoGates] })
    } else if dry_run {
        Ok(
            GateReportView {
                bypassed: seq![],
                notices: Seq::new(gates.len(), |i: int| GateNoticeView::DryRun(gates[i])),
            },
        )
    } else {
        gates_run(gates, exits, force)
    }
}

fn record_gate(report: &mut GateReport, gate: &str, exit: &GateExit, force: bool) -> (r: Result<
    (),
    Failure,
>)
    ensures
        match after_gate(old(report).deep_view(), gate@, exit.deep_view(), force) {
            Ok(v) => r is Ok && final(report).deep_view() == v,
            Err(e) => outcome(r) == Err::<(), Seq<Seq<char>>>(e),
        },
{
    match exit {
        GateExit::Passed => Ok(()),
        GateExit::Failed(code) => {
            if !force {
                return Err(Failure::msg(cat("gate failed: ", gate)));
            }
            let ghost b = report.bypassed.deep_view();
            let ghost n = report.notices.deep_view();
            report.notices.push(GateNotice::Bypassed { gate: owned(gate), code: *code });
            report.bypassed.push(GateBypass { gate: owned(gate), code: *code });
            assert(report.bypassed.deep_view() =~= b.push(
                GateBypassView { gate: gate@, code: *code },
            ));
            assert(report.notices.deep_view() =~= n.push(
                GateNoticeView::Bypassed { gate: gate@, code: *code },
            ));
            Ok(())
        },
        GateExit::NotRun(e) => {
            let copy = e.copy();
            Err(copy.context(cat("failed to run gate: ", gate)))
        },
    }
}

proof fn lemma_gates_run_prefix(
    gates: Seq<Seq<char>>,
    exits: Seq<GateExitView>,
    force: bool,
    i: int,
)
    requires
        0 <= i <= exits.len(),
        gates_run(gates, exits.take(i), force) is Err,
    ensures
        gates_run(gates, exits, force) == gates_run(gates, exits.take(i), force),
    decreases exits.len() - i,
{
    if i < exits.len() {
        assert(exits.take(i + 1).drop_last() =~= exits.take(i));
        lemma_gates_run_prefix(gates, exits, force, i + 1);
    } else {
        assert(exits.take(i) =~= exits);
    }
}

/// Which gate to run next, behind those that ended as `exits` says: the first that
/// has not run, unless the last one that ran ended the run.
pub open spec fn gate_due(gates: Seq<Seq<char>>, exits: Seq<GateExitView>, force: bool) -> Option<
    Seq<char>,
> {
    if exits.len() >= gates.len() || (exits.len() > 0 && blocks(exits.last(), force)) {
        None
    } else {
        Some(gates[exits.len() as int])
    }
}

/// Which gate to run next; `None` once the run is over.
pub fn next_gate(gates: &Vec<String>, exits: &Vec<GateExit>, force: bool) -> (r: Option<String>)
    ensures
        r.deep_view() == gate_due(gates.deep_view(), exits.deep_view(), force),
{
    let n = exits.len();
    if n >= gates.len() {
        return None;
    }
    if n > 0 {
        assert(exits.deep_view().last() == exits@[n - 1].deep_view());
        if gate_blocks(&exits[n - 1], force) {
            return None;
        }
    }
    assert(gates.deep_view()[n as int] == gates@[n as int]@);
    Some(gates[n].clone())
}

/// Reports on a run of gates that is over, given how those that ran ended, in
/// order.
pub fn run_gates(gates: &Vec<String>, dry_run: bool, force: &ForceOpts, exits: &Vec<GateExit>) -> (r:
    Result<GateReport, Failure>)
    requires
        exits@.len() <= gates@.len(),
        dry_run || gate_due(gates.deep_view(), exits.deep_view(), force.enabled) is None,
    ensures
        outcome(r) == gates_report(
            gates.deep_view(),
            dry_run,
            force.enabled,
            exits.deep_view(),
        ),
{
    let mut report = GateReport { bypassed: Vec::new(), notices: Vec::new() };
    assert(report.bypassed.deep_view() =~= seq![]);
    assert(report.notices.deep_view() =~= seq![]);
    if gates.is_empty() {
        report.notices.push(GateNotice::NoGates);
        assert(report.notices.deep_view() =~= seq![GateNoticeView::NoGates]);
        return Ok(report);
    }
    let ghost gv = gates.deep_view();
    if dry_run {
        let mut i: usize = 0;
        while i < gates.len()
            invariant
                i <= gates@.len(),
                gv == gates.deep_view(),
                report.bypassed.deep_view() =~= seq![],
                report.notices@.len() == i,
                forall|k: int|
                    0 <= k < i ==> (#[trigger] report.notices@[k]).deep_view()
                        == GateNoticeView::DryRun(gv[k]),
            decreases gates@.len() - i,
        {
            assert(gv[i as int] == gates@[i as int]@);
            report.notices.push(GateNotice::DryRun(gates[i].clone()));
            i += 1;
        }
        assert(report.notices.deep_view() =~= Seq::new(
            gv.len(),
            |i: int| GateNoticeView::DryRun(gv[i]),
        ));
        return Ok(report);
    }
    let ghost ev = exits.deep_view();
    let ghost on = force.enabled;
    let mut i: usize = 0;
    while i < exits.len()
        invariant
            i <= exits@.len() <= gates@.len(),
            0 < gates@.len(),
            !dry_run,
            gv == gates.deep_view(),
            ev == exits.deep_view(),
            on == force.enabled,
            gates_run(gv, ev.take(i as int), on) == Ok::<GateReportView, Seq<Seq<char>>>(
                report.deep_view(),
            ),
        decreases exits@.len() - i,
    {
        assert(ev.take(i + 1).drop_last() =~= ev.take(i as int));
        assert(gv[i as int] == gates@[i as int]@);
        assert(ev[i as int] == exits@[i as int].deep_view());
        match record_gate(&mut report, gates[i].as_str(), &exits[i], force.enabled) {
            Ok(()) => {},
            Err(e) => {
                proof {
                    lemma_gates_run_prefix(gv, ev, on, i + 1);
                }
                return Err(e);
            },
        }
        i += 1;
    }
    assert(ev.take(ev.len() as int) =~= ev);
    Ok(report)
}

// ── Gates of the hosts ──────────────────────────────────────────────────────

/// A gate's template with the host's name for every `{host}`.
pub open spec fn for_host(template: Seq<char>, host: Seq<char>) -> Seq<char> {
    joined(pieces_of(template, "{host}"@), host)
}

/// A gate's template with the host's name for every `{host}`.
pub fn host_command(template: &str, host: &str) -> (r: String)
    ensures
        r@ == for_host(template@, host@),
{
    proof {
        reveal_strlit("{host}");
    }
    let parts = split_text(template, "{host}");
    join(&parts, host)
}

/// What a host's gates came to. The host passes if none failed.
#[derive(Debug)]
pub struct HostResult {
    pub host: String,
    pub failures: Vec<GateBypass>,
}

/// [`HostResult`] by its characters.
pub struct HostResultView {
    pub host: Seq<char>,
    pub failures: Seq<GateBypassView>,
}

impl DeepView for HostResult {
    type V = HostResultView;

    open spec fn deep_view(&self) -> HostResultView {
        HostResultView { host: self.host@, failures: self.failures.deep_view() }
    }
}

impl HostResult {
    /// Whether every gate of the host passed.
    pub fn passed(&self) -> (r: bool)
        ensures
            r == (self.deep_view().failures.len() == 0),
    {
        self.failures.is_empty()
    }
}

/// What the gates of all active hosts came to.
#[derive(Debug)]
pub struct HostReport {
    pub results: Vec<HostResult>,
    pub notices: Vec<GateNotice>,
    pub bypassed: Vec<GateBypass>,
}

/// [`HostReport`] by its characters.
pub struct HostReportView {
    pub results: Seq<HostResultView>,
    pub notices: Seq<GateNoticeView>,
    pub bypassed: Seq<GateBypassView>,
}

impl DeepView for HostReport {
    type V = HostReportView;

    open spec fn deep_view(&self) -> HostReportView {
        HostReportView {
            results: self.results.deep_view(),
            notices: self.notices.deep_view(),
            bypassed: self.bypassed.deep_view(),
        }
    }
}

/// The hosts whose gates failed.
pub open spec fn failing_hosts(results: Seq<HostResultView>) -> Seq<Seq<char>> {
    kept(
        results,
        |r: HostResultView|
            if r.failures.len() == 0 {
                None
            } else {
                Some(r.host)
            },
    )
}

impl HostReport {
    /// The hosts whose gates failed.
    pub fn failed_hosts(&self) -> (r: Vec<String>)
        ensures
            r.deep_view() == failing_hosts(self.deep_view().results),
    {
        let mut r: Vec<String> = Vec::new();
        let ghost all = self.results.deep_view();
        let ghost f = |r: HostResultView|
            if r.failures.len() == 0 {
                None
            } else {
                Some(r.host)
            };
        let mut i: usize = 0;
        proof {
            lemma_kept_ends(all, f);
        }
        assert(r.deep_view() =~= seq![]);
        while i < self.results.len()
            invariant
                i <= self.results@.len(),
                all == self.results.deep_view(),
                f == (|r: HostResultView|
                    if r.failures.len() == 0 {
                        None
                    } else {
                        Some(r.host)
                    }),
                r.deep_view() == kept(all.take(i as int), f),
            decreases self.results@.len() - i,
        {
            proof {
                lemma_kept_step(all, i as int, f);
            }
            assert(all[i as int] == self.results@[i as int].deep_view());
            let ghost before = r.deep_view();
            if !self.results[i].passed() {
                r.push(self.results[i].host.clone());
                assert(r.deep_view() =~= before.push(self.results@[i as int].host@));
            }
            i += 1;
        }
        r
    }
}

/// One command of a host's gates, with how it ended where it ran.
pub struct HostGate {
    pub command: String,
    /// `None` in a dry run.
    pub exit: Option<GateExit>,
}

/// [`HostGate`] by its characters.
pub struct HostGateView {
    pub command: Seq<char>,
    pub exit: Option<GateExitView>,
}

impl DeepView for HostGate {
    type V = HostGateView;

    open spec fn deep_view(&self) -> HostGateView {
        HostGateView { command: self.command@, exit: self.exit.deep_view() }
    }
}

/// A host with the commands of its gates.
pub struct HostRun {
    pub host: String,
    pub gates: Vec<HostGate>,
}

/// [`HostRun`] by its characters.
pub struct HostRunView {
    pub host: Seq<char>,
    pub gates: Seq<HostGateView>,
}

impl DeepView for HostRun {
    type V = HostRunView;

    open spec fn deep_view(&self) -> HostRunView {
        HostRunView { host: self.host@, gates: self.gates.deep_view() }
    }
}

/// A host's gates before any has run.
pub open spec fn planned_run(host: Seq<char>, templates: Seq<Seq<char>>) -> HostRunView {
    HostRunView {
        host,
        gates: Seq::new(
            templates.len(),
            |i: int| HostGateView { command: for_host(templates[i], host), exit: None },
        ),
    }
}

/// The gates of all hosts before any has run. Without gates there is nothing to
/// run for any host.
pub open spec fn planned_runs(hosts: Seq<Seq<char>>, templates: Seq<Seq<char>>) -> Seq<
    HostRunView,
> {
    if templates.len() == 0 {
        seq![]
    } else {
        Seq::new(hosts.len(), |i: int| planned_run(hosts[i], templates))
    }
}

/// The gates to run for the active hosts, host by host, in order.
pub fn plan_host_gates(hosts: &Vec<String>, templates: &Vec<String>) -> (r: Vec<HostRun>)
    ensures
        r.deep_view() == planned_runs(hosts.deep_view(), templates.deep_view()),
{
    let ghost hv = hosts.deep_view();
    let ghost tv = templates.deep_view();
    let mut r: Vec<HostRun> = Vec::new();
    if templates.is_empty() {
        assert(r.deep_view() =~= seq![]);
        return r;
    }
    let mut i: usize = 0;
    while i < hosts.len()
        invariant
            i <= hosts@.len(),
            hv == hosts.deep_view(),
            tv == templates.deep_view(),
            r@.len() == i,
            forall|k: int| 0 <= k < i ==> (#[trigger] r@[k]).deep_view() == planned_run(hv[k], tv),
        decreases hosts@.len() - i,
    {
        let ghost h = hv[i as int];
        assert(h == hosts@[i as int]@);
        let mut gates: Vec<HostGate> = Vec::new();
        let mut j: usize = 0;
        while j < templates.len()
            invariant
                i < hosts@.len(),
                h == hosts@[i as int]@,
                j <= templates@.len(),
                tv == templates.deep_view(),
                gates@.len() == j,
                forall|k: int|
                    0 <= k < j ==> (#[trigger] gates@[k]).deep_view() == planned_run(
                        h,
                        tv,
                    ).gates[k],
            decreases templates@.len() - j,
        {
            let command = host_command(templates[j].as_str(), hosts[i].as_str());
            gates.push(HostGate { command, exit: None });
            j += 1;
        }
        assert(gates.deep_view() =~= planned_run(h, tv).gates);
        r.push(HostRun { host: hosts[i].clone(), gates });
        i += 1;
    }
    assert(r.deep_view() =~= planned_runs(hv, tv));
    r
}

/// The failure of a host's gate, if it failed.
pub open spec fn gate_failure(g: HostGateView) -> Option<GateBypassView> {
    match g.exit {
        Some(GateExitView::Failed(code)) => Some(GateBypassView { gate: g.command, code }),
        _ => None,
    }
}

/// What is said of a host's gate: that it would run, or that its failure was
/// passed by force.
pub open spec fn gate_notice(g: HostGateView, force: bool) -> Option<GateNoticeView> {
    match g.exit {
        None => Some(GateNoticeView::DryRunHost(g.command)),
        Some(GateExitView::Failed(code)) => if force {
            Some(GateNoticeView::Bypassed { gate: g.command, code })
        } else {
            None
        },
        _ => None,
    }
}

/// What is recorded of a host's gate as passed by force.
pub open spec fn gate_bypass(g: HostGateView, force: bool) -> Option<GateBypassView> {
    if force {
        gate_failure(g)
    } else {
        None
    }
}

/// What is said of all hosts' gates.
pub open spec fn host_notices(runs: Seq<HostRunView>, force: bool) -> Seq<GateNoticeView>
    decreases runs.len(),
{
    if runs.len() == 0 {
        seq![]
    } else {
        host_notices(runs.drop_last(), force) + kept(
            runs.last().gates,
            |g: HostGateView| gate_notice(g, force),
        )
    }
}

/// What is recorded of all hosts' gates as passed by force.
pub open spec fn host_bypasses(runs: Seq<HostRunView>, force: bool) -> Seq<GateBypassView>
    decreases runs.len(),
{
    if runs.len() == 0 {
        seq![]
    } else {
        host_bypasses(runs.drop_last(), force) + kept(
            runs.last().gates,
            |g: HostGateView| gate_bypass(g, force),
        )
    }
}

/// The error of the first of a host's gates that could not be run at all.
pub open spec fn gate_not_run(gates: Seq<HostGateView>) -> Option<Seq<Seq<char>>>
    decreases gates.len(),
{
    if gates.len() == 0 {
        None
    } else {
        match gates[0].exit {
            Some(GateExitView::NotRun(e)) => Some(
                seq!["failed to run host gate: "@ + gates[0].command] + e,
            ),
            _ => gate_not_run(gates.skip(1)),
        }
    }
}

/// The error of the first gate of any host that could not be run at all.
pub open spec fn first_not_run(runs: Seq<HostRunView>) -> Option<Seq<Seq<char>>>
    decreases runs.len(),
{
    if runs.len() == 0 {
        None
    } else {
        match gate_not_run(runs[0].gates) {
            Some(e) => Some(e),
            None => first_not_run(runs.skip(1)),
        }
    }
}

/// The first of a host's gates that has not run.
pub open spec fn unrun_gate(gates: Seq<HostGateView>) -> Option<int>
    decreases gates.len(),
{
    if gates.len() == 0 {
        None
    } else if gates[0].exit is None {
        Some(0)
    } else {
        match unrun_gate(gates.skip(1)) {
            Some(k) => Some(k + 1),
            None => None,
        }
    }
}

/// The first gate of any host that has not run: the place of its host, and its
/// own among that host's.
pub open spec fn first_unrun(runs: Seq<HostRunView>) -> Option<(int, int)>
    decreases runs.len(),
{
    if runs.len() == 0 {
        None
    } else {
        match unrun_gate(runs[0].gates) {
            Some(k) => Some((0, k)),
            None => match first_unrun(runs.skip(1)) {
                Some((h, k)) => Some((h + 1, k)),
                None => None,
            },
        }
    }
}

/// Which gate of which host to run next: the first that has not run, unless one
/// could not be run at all. A gate that failed holds none of the others back.
pub open spec fn host_gate_due(runs: Seq<HostRunView>) -> Option<(int, int)> {
    if first_not_run(runs) is Some {
        None
    } else {
        first_unrun(runs)
    }
}

/// Whether one of a host's gates could not be run at all, and otherwise the first
/// that has not run.
fn look_at_gates(gates: &Vec<HostGate>) -> (r: (bool, Option<usize>))
    ensures
        r.0 == (gate_not_run(gates.deep_view()) is Some),
        match unrun_gate(gates.deep_view()) {
            Some(k) => r.1 == Some(k as usize) && 0 <= k < gates@.len(),
            None => r.1 is None,
        },
{
    let ghost all = gates.deep_view();
    let mut stopped = false;
    let mut due: Option<usize> = None;
    let mut i: usize = gates.len();
    assert(all.skip(i as int) =~= seq![]);
    while i > 0
        invariant
            i <= gates@.len(),
            all == gates.deep_view(),
            stopped == (gate_not_run(all.skip(i as int)) is Some),
            match unrun_gate(all.skip(i as int)) {
                Some(k) => due == Some((i + k) as usize) && 0 <= k < gates@.len() - i,
                None => due is None,
            },
        decreases i,
    {
        let ghost rest = all.skip(i as int);
        i -= 1;
        assert(all.skip(i as int).skip(1) =~= rest);
        assert(all.skip(i as int)[0] == gates@[i as int].deep_view());
        match &gates[i].exit {
            None => {
                due = Some(i);
            },
            Some(GateExit::NotRun(_)) => {
                stopped = true;
            },
            Some(_) => {},
        }
    }
    assert(all.skip(0) =~= all);
    (stopped, due)
}

/// Which gate of which host to run next, by the places of the two; `None` once
/// the run is over.
pub fn next_host_gate(runs: &Vec<HostRun>) -> (r: Option<(usize, usize)>)
    ensures
        match host_gate_due(runs.deep_view()) {
            Some((h, k)) => {
                &&& r == Some((h as usize, k as usize))
                &&& 0 <= h < runs@.len()
                &&& 0 <= k < runs@[h].gates@.len()
            },
            None => r is None,
        },
{
    let ghost all = runs.deep_view();
    let mut stopped = false;
    let mut due: Option<(usize, usize)> = None;
    let mut i: usize = runs.len();
    assert(all.skip(i as int) =~= seq![]);
    while i > 0
        invariant
            i <= runs@.len(),
            all == runs.deep_view(),
            stopped == (first_not_run(all.skip(i as int)) is Some),
            match first_unrun(all.skip(i as int)) {
                Some((h, k)) => {
                    &&& due == Some(((i + h) as usize, k as usize))
                    &&& 0 <= h < runs@.len() - i
                    &&& 0 <= k < runs@[i + h].gates@.len()
                },
                None => due is None,
            },
        decreases i,
    {
        let ghost rest = all.skip(i as int);
        i -= 1;
        assert(all.skip(i as int).skip(1) =~= rest);
        assert(all.skip(i as int)[0] == runs@[i as int].deep_view());
        let (not_run, first) = look_at_gates(&runs[i].gates);
        if not_run {
            stopped = true;
        }
        match first {
            Some(k) => {
                due = Some((i, k));
            },
            None => {},
        }
    }
    assert(all.skip(0) =~= all);
    if stopped {
        None
    } else {
        due
    }
}

/// What a host's gates came to.
pub open spec fn host_result(run: HostRunView) -> HostResultView {
    HostResultView {
        host: run.host,
        failures: kept(run.gates, |g: HostGateView| gate_failure(g)),
    }
}

/// What the gates of the hosts came to. A failing gate never ends the run: every
/// host is reported on. Only a command that cannot be run at all is an error.
pub open spec fn hosts_report(runs: Seq<HostRunView>, force: bool) -> Result<
    HostReportView,
    Seq<Seq<char>>,
> {
    match first_not_run(runs) {
        Some(e) => Err(e),
        None => Ok(
            HostReportView {
                results: Seq::new(runs.len(), |i: int| host_result(runs[i])),
                notices: host_notices(runs, force),
                bypassed: host_bypasses(runs, force),
            },
        ),
    }
}

fn record_host(
    run: &HostRun,
    force: bool,
    notices: &mut Vec<GateNotice>,
    bypassed: &mut Vec<GateBypass>,
) -> (r: Result<HostResult, Failure>)
    ensures
        match gate_not_run(run.deep_view().gates) {
            Some(e) => outcome(r) == Err::<HostResultView, Seq<Seq<char>>>(e),
            None => {
                &&& outcome(r) == Ok::<HostResultView, Seq<Seq<char>>>(host_result(run.deep_view()))
                &&& final(notices).deep_view() == old(notices).deep_view() + kept(
                    run.deep_view().gates,
                    |g: HostGateView| gate_notice(g, force),
                )
                &&& final(bypassed).deep_view() == old(bypassed).deep_view() + kept(
                    run.deep_view().gates,
                    |g: HostGateView| gate_bypass(g, force),
                )
            },
        },
{
    let ghost all = run.gates.deep_view();
    let ghost gn = |g: HostGateView| gate_notice(g, force);
    let ghost gb = |g: HostGateView| gate_bypass(g, force);
    let ghost gf = |g: HostGateView| gate_failure(g);
    let ghost n0 = notices.deep_view();
    let ghost b0 = bypassed.deep_view();
    let mut failures: Vec<GateBypass> = Vec::new();
    let mut i: usize = 0;
    proof {
        lemma_kept_ends(all, gn);
        lemma_kept_ends(all, gb);
        lemma_kept_ends(all, gf);
        assert(all.skip(0) =~= all);
        assert(n0 + Seq::<GateNoticeView>::empty() =~= n0);
        assert(b0 + Seq::<GateBypassView>::empty() =~= b0);
    }
    assert(failures.deep_view() =~= seq![]);
    while i < run.gates.len()
        invariant
            i <= run.gates@.len(),
            all == run.gates.deep_view(),
            gn == (|g: HostGateView| gate_notice(g, force)),
            gb == (|g: HostGateView| gate_bypass(g, force)),
            gf == (|g: HostGateView| gate_failure(g)),
            gate_not_run(all) == gate_not_run(all.skip(i as int)),
            notices.deep_view() == n0 + kept(all.take(i as int), gn),
            bypassed.deep_view() == b0 + kept(all.take(i as int), gb),
            failures.deep_view() == kept(all.take(i as int), gf),
        decreases run.gates@.len() - i,
    {
        proof {
            lemma_kept_step(all, i as int, gn);
            lemma_kept_step(all, i as int, gb);
            lemma_kept_step(all, i as int, gf);
            assert(all.skip(i as int).skip(1) =~= all.skip(i + 1));
        }
        assert(all[i as int] == run.gates@[i as int].deep_view());
        let ghost nb = notices.deep_view();
        let ghost bb = bypassed.deep_view();
        let ghost fb = failures.deep_view();
        let ghost nk = kept(all.take(i as int), gn);
        let ghost bk = kept(all.take(i as int), gb);
        match &run.gates[i].exit {
            None => {
                notices.push(GateNotice::DryRunHost(run.gates[i].command.clone()));
                let ghost v = GateNoticeView::DryRunHost(all[i as int].command);
                assert(notices.deep_view() =~= nb.push(v));
                assert(nb.push(v) =~= n0 + nk.push(v));
            },
            Some(GateExit::Passed) => {},
            Some(GateExit::Failed(code)) => {
                let ghost v = GateBypassView { gate: all[i as int].command, code: *code };
                if force {
                    let ghost w = GateNoticeView::Bypassed {
                        gate: all[i as int].command,
                        code: *code,
                    };
                    notices.push(
                        GateNotice::Bypassed { gate: run.gates[i].command.clone(), code: *code },
                    );
                    bypassed.push(
                        GateBypass { gate: run.gates[i].command.clone(), code: *code },
                    );
                    assert(notices.deep_view() =~= nb.push(w));
                    assert(nb.push(w) =~= n0 + nk.push(w));
                    assert(bypassed.deep_view() =~= bb.push(v));
                    assert(bb.push(v) =~= b0 + bk.push(v));
                }
                failures.push(GateBypass { gate: run.gates[i].command.clone(), code: *code });
                assert(failures.deep_view() =~= fb.push(v));
            },
            Some(GateExit::NotRun(e)) => {
                let copy = e.copy();
                return Err(
                    copy.context(
                        cat("failed to run host gate: ", run.gates[i].command.as_str()),
                    ),
                );
            },
        }
        i += 1;
    }
    Ok(HostResult { host: run.host.clone(), failures })
}

/// Reports on the gates of the hosts, given how their commands ended, host by
/// host.
pub fn run_host_gates(runs: &Vec<HostRun>, force: &ForceOpts) -> (r: Result<HostReport, Failure>)
    ensures
        outcome(r) == hosts_report(runs.deep_view(), force.enabled),
{
    let ghost all = runs.deep_view();
    let ghost on = force.enabled;
    let mut notices: Vec<GateNotice> = Vec::new();
    let mut bypassed: Vec<GateBypass> = Vec::new();
    let mut results: Vec<HostResult> = Vec::new();
    let mut i: usize = 0;
    assert(all.skip(0) =~= all);
    assert(notices.deep_view() =~= host_notices(all.take(0), on));
    assert(bypassed.deep_view() =~= host_bypasses(all.take(0), on));
    while i < runs.len()
        invariant
            i <= runs@.len(),
            all == runs.deep_view(),
            on == force.enabled,
            first_not_run(all) == first_not_run(all.skip(i as int)),
            notices.deep_view() == host_notices(all.take(i as int), on),
            bypassed.deep_view() == host_bypasses(all.take(i as int), on),
            results@.len() == i,
            forall|k: int|
                0 <= k < i ==> (#[trigger] results@[k]).deep_view() == host_result(all[k]),
        decreases runs@.len() - i,
    {
        assert(all.skip(i as int).skip(1) =~= all.skip(i + 1));
        assert(all.take(i + 1).drop_last() =~= all.take(i as int));
        assert(all[i as int] == runs@[i as int].deep_view());
        match record_host(&runs[i], force.enabled, &mut notices, &mut bypassed) {
            Ok(result) => results.push(result),
            Err(e) => {
                return Err(e);
            },
        }
        i += 1;
    }
    assert(all.take(all.len() as int) =~= all);
    assert(results.deep_view() =~= Seq::new(all.len(), |i: int| host_result(all[i])));
    Ok(HostReport { results, notices, bypassed })
}

/// How a gate ended, in words.
pub open spec fn exit_text(code: Option<i32>) -> Seq<char> {
    match code {
        Some(c) => "exit "@ + signed_text(c as int),
        None => "terminated by signal"@,
    }
}

/// A signed number as text.
pub open spec fn signed_text(n: int) -> Seq<char> {
    if n < 0 {
        "-"@ + decimal((-n) as nat)
    } else {
        decimal(n as nat)
    }
}

fn signed_to_text(n: i32) -> (r: String)
    ensures
        r@ == signed_text(n as int),
{
    if n < 0 {
        let d = to_decimal((-(n as i64)) as u64);
        cat("-", d.as_str())
    } else {
        to_decimal(n as u64)
    }
}

/// How a gate ended, in words.
pub fn exit_desc(code: Option<i32>) -> (r: String)
    ensures
        r@ == exit_text(code),
{
    match code {
        Some(c) => {
            let t = signed_to_text(c);
            cat("exit ", t.as_str())
        },
        None => "terminated by signal".to_owned(),
    }
}

// ── Force ───────────────────────────────────────────────────────────────────

/// Whether failing gates are passed by force, and why. Force always has a
/// reason, and a reason always has force.
#[derive(Debug)]
pub struct ForceOpts {
    pub enabled: bool,
    pub reason: Option<String>,
}

/// Whether there is a reason, with more than white space in it.
pub open spec fn gives_reason(reason: Option<Seq<char>>) -> bool {
    reason matches Some(r) && trimmed(r).len() > 0
}

/// The line of the trailer about one gate.
pub open spec fn bypass_line(b: GateBypassView) -> Seq<char> {
    "  gate: "@ + debug_quoted(b.gate) + " ("@ + exit_text(b.code) + ")\n"@
}

/// The lines of the trailer about the gates.
pub open spec fn bypass_lines(bypassed: Seq<GateBypassView>) -> Seq<char>
    decreases bypassed.len(),
{
    if bypassed.len() == 0 {
        seq![]
    } else {
        bypass_lines(bypassed.drop_last()) + bypass_line(bypassed.last())
    }
}

/// The trailer of a merge that gates were bypassed for; none where nothing was.
pub open spec fn trailer_of(bypassed: Seq<GateBypassView>, reason: Option<Seq<char>>) -> Option<
    Seq<char>,
> {
    if bypassed.len() == 0 {
        None
    } else {
        Some(
            "Forced-Bypass:\n"@ + bypass_lines(bypassed) + "Force-Reason: "@ + (match reason {
                Some(r) => r,
                None => "(none given)"@,
            }),
        )
    }
}

impl ForceOpts {
    /// Force with its reason. Force without one is refused, and so is a reason
    /// without force.
    pub fn new(enabled: bool, reason: Option<String>) -> (r: Result<ForceOpts, Failure>)
        ensures
            enabled && !gives_reason(reason.deep_view()) ==> (r matches Err(e) && e.deep_view()
                == seq![
                "--force requires --reason \"<why>\" (the reason is recorded in the merge commit)"@,
            ]),
            !enabled && reason is Some ==> (r matches Err(e) && e.deep_view() == seq![
                "--reason is only valid together with --force"@,
            ]),
            (enabled && gives_reason(reason.deep_view())) || (!enabled && reason is None) ==> (
            r matches Ok(o) && o.enabled == enabled && o.reason == reason),
    {
        if enabled {
            let given = match &reason {
                Some(t) => !trim(t.as_str()).is_empty(),
                None => false,
            };
            if !given {
                return Err(
                    Failure::msg(
                        "--force requires --reason \"<why>\" (the reason is recorded in the merge commit)".to_owned(),
                    ),
                );
            }
        }
        if !enabled && reason.is_some() {
            return Err(
                Failure::msg("--reason is only valid together with --force".to_owned()),
            );
        }
        Ok(ForceOpts { enabled, reason })
    }

    /// No force.
    pub fn none() -> (r: ForceOpts)
        ensures
            !r.enabled,
            r.reason is None,
    {
        ForceOpts { enabled: false, reason: None }
    }

    /// The trailer that records what was bypassed; none where nothing was.
    pub fn trailer(&self, bypassed: &Vec<GateBypass>) -> (r: Option<String>)
        ensures
            r.deep_view() == trailer_of(bypassed.deep_view(), self.reason.deep_view()),
    {
        if bypassed.is_empty() {
            return None;
        }
        let ghost all = bypassed.deep_view();
        let mut s = "Forced-Bypass:\n".to_owned();
        let mut i: usize = 0;
        assert(s@ =~= "Forced-Bypass:\n"@ + bypass_lines(all.take(0)));
        while i < bypassed.len()
            invariant
                i <= bypassed@.len(),
                all == bypassed.deep_view(),
                s@ == "Forced-Bypass:\n"@ + bypass_lines(all.take(i as int)),
            decreases bypassed@.len() - i,
        {
            assert(all.take(i + 1).drop_last() =~= all.take(i as int));
            assert(all[i as int] == bypassed@[i as int].deep_view());
            let q = quote(bypassed[i].gate.as_str());
            let d = exit_desc(bypassed[i].code);
            let line = cat5("  gate: ", q.as_str(), " (", d.as_str(), ")\n");
            s.append(line.as_str());
            assert(s@ =~= "Forced-Bypass:\n"@ + bypass_lines(all.take(i + 1)));
            i += 1;
        }
        assert(all.take(all.len() as int) =~= all);
        s.append("Force-Reason: ");
        match &self.reason {
            Some(t) => s.append(t.as_str()),
            None => s.append("(none given)"),
        }
        Some(s)
    }
}

// ── Laws ────────────────────────────────────────────────────────────────────

/// No gate is left out: a run that is over and went through has run them all.
pub proof fn law_every_gate_runs(gates: Seq<Seq<char>>, exits: Seq<GateExitView>, force: bool)
    requires
        exits.len() <= gates.len(),
        gate_due(gates, exits, force) is None,
        gates_run(gates, exits, force) is Ok,
    ensures
        exits.len() == gates.len(),
{
}

proof fn lemma_unrun_gate(gates: Seq<HostGateView>, k: int)
    requires
        unrun_gate(gates) is None,
        0 <= k < gates.len(),
    ensures
        gates[k].exit is Some,
    decreases gates.len(),
{
    if k > 0 {
        lemma_unrun_gate(gates.skip(1), k - 1);
        assert(gates.skip(1)[k - 1] == gates[k]);
    }
}

proof fn lemma_first_unrun(runs: Seq<HostRunView>, h: int, k: int)
    requires
        first_unrun(runs) is None,
        0 <= h < runs.len(),
        0 <= k < runs[h].gates.len(),
    ensures
        runs[h].gates[k].exit is Some,
    decreases runs.len(),
{
    if h == 0 {
        lemma_unrun_gate(runs[0].gates, k);
    } else {
        lemma_first_unrun(runs.skip(1), h - 1, k);
        assert(runs.skip(1)[h - 1] == runs[h]);
    }
}

/// No gate of any host is left out: a run that is over and can be reported on has
/// run every gate of every host, whether others failed or not.
pub proof fn law_every_host_gate_runs(runs: Seq<HostRunView>, force: bool, h: int, k: int)
    requires
        host_gate_due(runs) is None,
        hosts_report(runs, force) is Ok,
        0 <= h < runs.len(),
        0 <= k < runs[h].gates.len(),
    ensures
        runs[h].gates[k].exit is Some,
{
    lemma_first_unrun(runs, h, k);
}

/// Without force a run of gates goes through only if every gate that ran
/// passed, and then nothing was bypassed.
pub proof fn law_failing_gates_block(gates: Seq<Seq<char>>, exits: Seq<GateExitView>, i: int)
    requires
        gates_run(gates, exits, false) is Ok,
        0 <= i < exits.len(),
    ensures
        exits[i] is Passed,
        gates_run(gates, exits, false)->Ok_0.bypassed.len() == 0,
    decreases exits.len(),
{
    if i < exits.len() - 1 {
        law_failing_gates_block(gates, exits.drop_last(), i);
        assert(exits.drop_last()[i] == exits[i]);
    } else if exits.len() > 1 {
        law_failing_gates_block(gates, exits.drop_last(), exits.len() - 2);
    }
}

/// A gate that failed and was passed by force is recorded, with its command and
/// how it ended.
pub proof fn law_bypasses_are_recorded(gates: Seq<Seq<char>>, exits: Seq<GateExitView>, i: int)
    requires
        gates_run(gates, exits, true) is Ok,
        0 <= i < exits.len(),
        exits[i] is Failed,
    ensures
        gates_run(gates, exits, true)->Ok_0.bypassed.contains(
            GateBypassView { gate: gates[i], code: exits[i]->Failed_0 },
        ),
    decreases exits.len(),
{
    let b = GateBypassView { gate: gates[i], code: exits[i]->Failed_0 };
    let now = gates_run(gates, exits, true)->Ok_0.bypassed;
    let before = gates_run(gates, exits.drop_last(), true)->Ok_0.bypassed;
    if i < exits.len() - 1 {
        law_bypasses_are_recorded(gates, exits.drop_last(), i);
        assert(exits.drop_last()[i] == exits[i]);
        let k = choose|k: int| 0 <= k < before.len() && before[k] == b;
        assert(now[k] == b);
    } else {
        assert(now[before.len() as int] == b);
    }
}

/// A trailer is written exactly when something was bypassed.
pub proof fn law_trailer_iff_bypassed(bypassed: Seq<GateBypassView>, reason: Option<Seq<char>>)
    ensures
        trailer_of(bypassed, reason) is Some <==> bypassed.len() > 0,
{
}

/// Whether a gate that ended this way is passed: it passed, or it failed and force
/// is used. A gate that could not be run is never passed.
pub open spec fn lets_through(exit: GateExitView, force: bool) -> bool {
    exit is Passed || (exit is Failed && force)
}

proof fn lemma_gates_run(gates: Seq<Seq<char>>, exits: Seq<GateExitView>, force: bool)
    ensures
        gates_run(gates, exits, force) is Ok <==> forall|i: int|
            0 <= i < exits.len() ==> lets_through(#[trigger] exits[i], force),
        gates_run(gates, exits, force) matches Ok(r) ==> forall|b: GateBypassView| #[trigger]
            r.bypassed.contains(b) <==> exists|i: int|
                0 <= i < exits.len() && #[trigger] exits[i] == GateExitView::Failed(b.code)
                    && gates[i] == b.gate,
    decreases exits.len(),
{
    if exits.len() > 0 {
        let rest = exits.drop_last();
        let last = exits[exits.len() - 1];
        lemma_gates_run(gates, rest, force);
        assert(forall|i: int| 0 <= i < rest.len() ==> #[trigger] rest[i] == exits[i]);
        if forall|i: int| 0 <= i < exits.len() ==> lets_through(#[trigger] exits[i], force) {
            assert forall|i: int| 0 <= i < rest.len() implies lets_through(
                #[trigger] rest[i],
                force,
            ) by {
                assert(lets_through(exits[i], force));
            }
            assert(lets_through(last, force));
        }
        if gates_run(gates, exits, force) is Ok {
            assert(lets_through(last, force));
            assert forall|i: int| 0 <= i < exits.len() implies lets_through(
                #[trigger] exits[i],
                force,
            ) by {
                if i < rest.len() {
                    assert(lets_through(rest[i], force));
                }
            }
            let before = gates_run(gates, rest, force)->Ok_0.bypassed;
            let now = gates_run(gates, exits, force)->Ok_0.bypassed;
            assert forall|b: GateBypassView| #[trigger] now.contains(b) <==> exists|i: int|
                0 <= i < exits.len() && #[trigger] exits[i] == GateExitView::Failed(b.code)
                    && gates[i] == b.gate by {
                if now.contains(b) {
                    let k = choose|k: int| 0 <= k < now.len() && now[k] == b;
                    if k < before.len() {
                        assert(before[k] == b);
                        assert(before.contains(b));
                        let i = choose|i: int|
                            0 <= i < rest.len() && #[trigger] rest[i] == GateExitView::Failed(
                                b.code,
                            ) && gates[i] == b.gate;
                        assert(exits[i] == GateExitView::Failed(b.code));
                    } else {
                        assert(exits[exits.len() - 1] == GateExitView::Failed(b.code));
                    }
                }
                if exists|i: int|
                    0 <= i < exits.len() && #[trigger] exits[i] == GateExitView::Failed(b.code)
                        && gates[i] == b.gate {
                    let i = choose|i: int|
                        0 <= i < exits.len() && #[trigger] exits[i] == GateExitView::Failed(b.code)
                            && gates[i] == b.gate;
                    if i < rest.len() {
                        assert(rest[i] == GateExitView::Failed(b.code));
                        assert(before.contains(b));
                        let k = choose|k: int| 0 <= k < before.len() && before[k] == b;
                        assert(now[k] == b);
                    } else {
                        assert(now[now.len() - 1] == b);
                    }
                }
            }
        }
    }
}

/// A run of gates goes through exactly when every gate that ran passed, or failed
/// where force is used; and what it records as bypassed is exactly the gates that
/// failed, each with how it ended.
pub proof fn law_runs_go_through_on_passing_gates(
    gates: Seq<Seq<char>>,
    exits: Seq<GateExitView>,
    force: bool,
    b: GateBypassView,
)
    requires
        gates.len() > 0,
    ensures
        gates_report(gates, false, force, exits) is Ok <==> forall|i: int|
            0 <= i < exits.len() ==> ((#[trigger] exits[i]) is Passed || (force
                && exits[i] is Failed)),
        gates_report(gates, false, force, exits) matches Ok(r) ==> (r.bypassed.contains(b)
            <==> exists|i: int|
            0 <= i < exits.len() && #[trigger] exits[i] == GateExitView::Failed(b.code) && gates[i]
                == b.gate),
{
    lemma_gates_run(gates, exits, force);
    assert(forall|i: int|
        0 <= i < exits.len() ==> lets_through(#[trigger] exits[i], force) == (exits[i] is Passed || (
        force && exits[i] is Failed)));
    if forall|i: int|
        0 <= i < exits.len() ==> ((#[trigger] exits[i]) is Passed || (force && exits[i] is Failed)) {
        assert forall|i: int| 0 <= i < exits.len() implies lets_through(
            #[trigger] exits[i],
            force,
        ) by {}
    }
}

/// Gates run in the order they are configured, one after the other, until one
/// fails without force or cannot be run.
pub proof fn law_gates_run_in_order(gates: Seq<Seq<char>>, exits: Seq<GateExitView>, force: bool)
    requires
        exits.len() < gates.len(),
    ensures
        exits.len() == 0 ==> gate_due(gates, exits, force) == Some(gates[0]),
        exits.len() > 0 && (exits.last() is Passed || (exits.last() is Failed && force))
            ==> gate_due(gates, exits, force) == Some(gates[exits.len() as int]),
        exits.len() > 0 && (exits.last() is NotRun || (exits.last() is Failed && !force))
            ==> gate_due(gates, exits, force) is None,
{
}

/// A dry run names every gate, in order, and passes none by force; without gates a
/// run says so and goes through.
pub proof fn law_dry_runs_name_every_gate(
    gates: Seq<Seq<char>>,
    dry_run: bool,
    force: bool,
    exits: Seq<GateExitView>,
)
    requires
        dry_run || gates.len() == 0,
    ensures
        gates_report(gates, dry_run, force, exits) matches Ok(r) && r.bypassed.len() == 0 && (
        gates.len() == 0 ==> r.notices == seq![GateNoticeView::NoGates]) && (gates.len() > 0
            ==> r.notices.len() == gates.len() && forall|i: int|
            0 <= i < gates.len() ==> #[trigger] r.notices[i] == GateNoticeView::DryRun(gates[i])),
{
}

/// Every gate is run for every host, with the host's name put in; without gates
/// nothing is run for any.
pub proof fn law_every_host_gets_every_gate(
    hosts: Seq<Seq<char>>,
    templates: Seq<Seq<char>>,
    h: int,
    k: int,
)
    requires
        0 <= h < hosts.len(),
        0 <= k < templates.len(),
    ensures
        planned_runs(hosts, templates).len() == hosts.len(),
        planned_runs(hosts, templates)[h].host == hosts[h],
        planned_runs(hosts, templates)[h].gates.len() == templates.len(),
        planned_runs(hosts, templates)[h].gates[k].exit is None,
        planned_runs(hosts, templates)[h].gates[k].command == for_host(templates[k], hosts[h]),
{
}

proof fn lemma_gate_not_run(gates: Seq<HostGateView>)
    ensures
        gate_not_run(gates) is Some <==> exists|k: int|
            0 <= k < gates.len() && ((#[trigger] gates[k]).exit matches Some(e) && e is NotRun),
    decreases gates.len(),
{
    if gates.len() > 0 {
        let rest = gates.skip(1);
        lemma_gate_not_run(rest);
        assert(forall|k: int| 0 <= k < rest.len() ==> #[trigger] rest[k] == gates[k + 1]);
        if exists|k: int|
            0 <= k < gates.len() && ((#[trigger] gates[k]).exit matches Some(e) && e is NotRun) {
            let k = choose|k: int|
                0 <= k < gates.len() && ((#[trigger] gates[k]).exit matches Some(e) && e is NotRun);
            if k > 0 {
                assert(rest[k - 1].exit is Some && rest[k - 1].exit->0 is NotRun);
            }
        }
        if gate_not_run(rest) is Some {
            let k = choose|k: int|
                0 <= k < rest.len() && ((#[trigger] rest[k]).exit matches Some(e) && e is NotRun);
            assert(gates[k + 1].exit is Some && gates[k + 1].exit->0 is NotRun);
        }
    }
}

proof fn lemma_first_not_run(runs: Seq<HostRunView>)
    ensures
        first_not_run(runs) is Some <==> exists|h: int|
            0 <= h < runs.len() && gate_not_run((#[trigger] runs[h]).gates) is Some,
    decreases runs.len(),
{
    if runs.len() > 0 {
        let rest = runs.skip(1);
        lemma_first_not_run(rest);
        assert(forall|h: int| 0 <= h < rest.len() ==> #[trigger] rest[h] == runs[h + 1]);
        if exists|h: int| 0 <= h < runs.len() && gate_not_run((#[trigger] runs[h]).gates) is Some {
            let h = choose|h: int|
                0 <= h < runs.len() && gate_not_run((#[trigger] runs[h]).gates) is Some;
            if h > 0 {
                assert(gate_not_run(rest[h - 1].gates) is Some);
            }
        }
        if first_not_run(rest) is Some {
            let h = choose|h: int|
                0 <= h < rest.len() && gate_not_run((#[trigger] rest[h]).gates) is Some;
            assert(gate_not_run(runs[h + 1].gates) is Some);
        }
    }
}

/// The hosts are reported on exactly when every gate could be run, and then each
/// of them, in order. A host counts as failing exactly when one of its gates
/// failed, whether force is used or not.
pub proof fn law_hosts_fail_by_their_own_gates(runs: Seq<HostRunView>, force: bool, h: int)
    requires
        0 <= h < runs.len(),
    ensures
        hosts_report(runs, force) is Err <==> exists|i: int, k: int|
            0 <= i < runs.len() && 0 <= k < runs[i].gates.len() && ((
            #[trigger] runs[i].gates[k]).exit matches Some(e) && e is NotRun),
        hosts_report(runs, force) matches Ok(r) ==> {
            &&& r.results.len() == runs.len()
            &&& r.results[h].host == runs[h].host
            &&& r.results[h].failures.len() > 0 <==> exists|k: int|
                0 <= k < runs[h].gates.len() && ((#[trigger] runs[h].gates[k]).exit matches Some(e)
                    && e is Failed)
        },
{
    lemma_first_not_run(runs);
    if exists|i: int, k: int|
        0 <= i < runs.len() && 0 <= k < runs[i].gates.len() && ((
        #[trigger] runs[i].gates[k]).exit matches Some(e) && e is NotRun) {
        let (i, k) = choose|i: int, k: int|
            0 <= i < runs.len() && 0 <= k < runs[i].gates.len() && ((
            #[trigger] runs[i].gates[k]).exit matches Some(e) && e is NotRun);
        lemma_gate_not_run(runs[i].gates);
        assert(gate_not_run(runs[i].gates) is Some);
    }
    if first_not_run(runs) is Some {
        let i = choose|i: int|
            0 <= i < runs.len() && gate_not_run((#[trigger] runs[i]).gates) is Some;
        lemma_gate_not_run(runs[i].gates);
        let k = choose|k: int|
            0 <= k < runs[i].gates.len() && ((#[trigger] runs[i].gates[k]).exit matches Some(e)
                && e is NotRun);
        assert(runs[i].gates[k].exit is Some && runs[i].gates[k].exit->0 is NotRun);
    }
    let g = |x: HostGateView| gate_failure(x);
    let failures = kept(runs[h].gates, g);
    if failures.len() > 0 {
        lemma_kept_contains(runs[h].gates, g, failures[0]);
        assert(failures.contains(failures[0]));
        let k = choose|k: int|
            0 <= k < runs[h].gates.len() && g(#[trigger] runs[h].gates[k]) == Some(failures[0]);
        assert(runs[h].gates[k].exit is Some && runs[h].gates[k].exit->0 is Failed);
    }
    if exists|k: int|
        0 <= k < runs[h].gates.len() && ((#[trigger] runs[h].gates[k]).exit matches Some(e)
            && e is Failed) {
        let k = choose|k: int|
            0 <= k < runs[h].gates.len() && ((#[trigger] runs[h].gates[k]).exit matches Some(e)
                && e is Failed);
        let b = g(runs[h].gates[k])->0;
        lemma_kept_contains(runs[h].gates, g, b);
        assert(failures.contains(b));
    }
}

proof fn lemma_host_bypasses(runs: Seq<HostRunView>, force: bool, b: GateBypassView)
    ensures
        host_bypasses(runs, force).contains(b) <==> exists|h: int|
            0 <= h < runs.len() && kept(
                (#[trigger] runs[h]).gates,
                |g: HostGateView| gate_bypass(g, force),
            ).contains(b),
    decreases runs.len(),
{
    let all = host_bypasses(runs, force);
    if runs.len() > 0 {
        let rest = runs.drop_last();
        let before = host_bypasses(rest, force);
        let f = |g: HostGateView| gate_bypass(g, force);
        let here = kept(runs.last().gates, f);
        lemma_host_bypasses(rest, force, b);
        assert(all =~= before + here);
        if all.contains(b) {
            let k = choose|k: int| 0 <= k < all.len() && all[k] == b;
            if k < before.len() {
                assert(before[k] == b);
                let h = choose|h: int|
                    0 <= h < rest.len() && kept((#[trigger] rest[h]).gates, f).contains(b);
                assert(kept(runs[h].gates, f).contains(b));
            } else {
                assert(here[k - before.len()] == b);
                assert(kept(runs[runs.len() - 1].gates, f).contains(b));
            }
        }
        if exists|h: int| 0 <= h < runs.len() && kept((#[trigger] runs[h]).gates, f).contains(b) {
            let h = choose|h: int|
                0 <= h < runs.len() && kept((#[trigger] runs[h]).gates, f).contains(b);
            if h < rest.len() {
                assert(kept(rest[h].gates, f).contains(b));
                let k = choose|k: int| 0 <= k < before.len() && before[k] == b;
                assert(all[k] == b);
            } else {
                let k = choose|k: int| 0 <= k < here.len() && here[k] == b;
                assert(all[before.len() + k] == b);
            }
        }
    }
}

/// What the hosts' report records as bypassed is exactly the gates that failed, of
/// whichever host, and that only where force is used.
pub proof fn law_host_bypasses_are_forced_failures(
    runs: Seq<HostRunView>,
    force: bool,
    b: GateBypassView,
)
    requires
        hosts_report(runs, force) is Ok,
    ensures
        hosts_report(runs, force)->Ok_0.bypassed.contains(b) <==> force && exists|h: int, k: int|
            0 <= h < runs.len() && 0 <= k < runs[h].gates.len() && (
            #[trigger] runs[h].gates[k]).exit == Some(GateExitView::Failed(b.code))
                && runs[h].gates[k].command == b.gate,
{
    let f = |g: HostGateView| gate_bypass(g, force);
    lemma_host_bypasses(runs, force, b);
    if host_bypasses(runs, force).contains(b) {
        let h = choose|h: int| 0 <= h < runs.len() && kept((#[trigger] runs[h]).gates, f).contains(b);
        lemma_kept_contains(runs[h].gates, f, b);
        let k = choose|k: int|
            0 <= k < runs[h].gates.len() && f(#[trigger] runs[h].gates[k]) == Some(b);
        assert(runs[h].gates[k].command == b.gate);
    }
    if force && exists|h: int, k: int|
        0 <= h < runs.len() && 0 <= k < runs[h].gates.len() && (#[trigger] runs[h].gates[k]).exit
            == Some(GateExitView::Failed(b.code)) && runs[h].gates[k].command == b.gate {
        let (h, k) = choose|h: int, k: int|
            0 <= h < runs.len() && 0 <= k < runs[h].gates.len() && (
            #[trigger] runs[h].gates[k]).exit == Some(GateExitView::Failed(b.code))
                && runs[h].gates[k].command == b.gate;
        lemma_kept_contains(runs[h].gates, f, b);
        assert(f(runs[h].gates[k]) == Some(b));
        assert(kept(runs[h].gates, f).contains(b));
    }
}

/// The failing hosts are exactly those with a failure.
pub proof fn law_failing_hosts_have_failures(results: Seq<HostResultView>, host: Seq<char>)
    ensures
        failing_hosts(results).contains(host) <==> exists|i: int|
            0 <= i < results.len() && (#[trigger] results[i]).host == host
                && results[i].failures.len() > 0,
{
    let g = |r: HostResultView|
        if r.failures.len() == 0 {
            None
        } else {
            Some(r.host)
        };
    lemma_kept_contains(results, g, host);
    if failing_hosts(results).contains(host) {
        let i = choose|i: int| 0 <= i < results.len() && g(#[trigger] results[i]) == Some(host);
        assert(results[i].host == host);
    }
    if exists|i: int|
        0 <= i < results.len() && (#[trigger] results[i]).host == host && results[i].failures.len()
            > 0 {
        let i = choose|i: int|
            0 <= i < results.len() && (#[trigger] results[i]).host == host
                && results[i].failures.len() > 0;
        assert(g(results[i]) == Some(host));
    }
}

/// The trailer begins with its heading and ends with the reason, whatever was
/// bypassed.
pub proof fn law_trailers_end_with_the_reason(bypassed: Seq<GateBypassView>, reason: Seq<char>)
    requires
        bypassed.len() > 0,
    ensures
        ({
            let t = trailer_of(bypassed, Some(reason))->0;
            let head = "Forced-Bypass:\n"@;
            let tail = "Force-Reason: "@ + reason;
            &&& t.len() >= head.len() + tail.len()
            &&& t.take(head.len() as int) == head
            &&& t.skip(t.len() - tail.len()) == tail
        }),
{
    let t = trailer_of(bypassed, Some(reason))->0;
    let head = "Forced-Bypass:\n"@;
    let tail = "Force-Reason: "@ + reason;
    assert(t =~= head + bypass_lines(bypassed) + tail);
    assert(t.take(head.len() as int) =~= head);
    assert(t.skip(t.len() - tail.len()) =~= tail);
}

proof fn lemma_unrun_first(gates: Seq<HostGateView>)
    ensures
        match unrun_gate(gates) {
            Some(k) => 0 <= k < gates.len() && gates[k].exit is None && forall|j: int|
                0 <= j < k ==> (#[trigger] gates[j]).exit is Some,
            None => forall|j: int| 0 <= j < gates.len() ==> (#[trigger] gates[j]).exit is Some,
        },
    decreases gates.len(),
{
    if gates.len() > 0 {
        let rest = gates.skip(1);
        lemma_unrun_first(rest);
        assert(forall|j: int| 0 <= j < rest.len() ==> #[trigger] rest[j] == gates[j + 1]);
        if gates[0].exit is Some {
            match unrun_gate(rest) {
                Some(k) => {
                    assert forall|j: int| 0 <= j < k + 1 implies (#[trigger] gates[j]).exit
                        is Some by {
                        if j > 0 {
                            assert(rest[j - 1].exit is Some);
                        }
                    }
                    assert(rest[k].exit is None);
                },
                None => {
                    assert forall|j: int| 0 <= j < gates.len() implies (#[trigger] gates[j]).exit
                        is Some by {
                        if j > 0 {
                            assert(rest[j - 1].exit is Some);
                        }
                    }
                },
            }
        }
    }
}

proof fn lemma_first_unrun_is_first(runs: Seq<HostRunView>)
    ensures
        match first_unrun(runs) {
            Some((h, k)) => 0 <= h < runs.len() && unrun_gate(runs[h].gates) == Some(k) && forall|
                j: int,
            |
                0 <= j < h ==> unrun_gate((#[trigger] runs[j]).gates) is None,
            None => forall|j: int|
                0 <= j < runs.len() ==> unrun_gate((#[trigger] runs[j]).gates) is None,
        },
    decreases runs.len(),
{
    if runs.len() > 0 {
        let rest = runs.skip(1);
        lemma_first_unrun_is_first(rest);
        assert(forall|j: int| 0 <= j < rest.len() ==> #[trigger] rest[j] == runs[j + 1]);
        if unrun_gate(runs[0].gates) is None {
            match first_unrun(rest) {
                Some((h, k)) => {
                    assert(rest[h] == runs[h + 1]);
                    assert forall|j: int| 0 <= j < h + 1 implies unrun_gate(
                        (#[trigger] runs[j]).gates,
                    ) is None by {
                        if j > 0 {
                            assert(unrun_gate(rest[j - 1].gates) is None);
                        }
                    }
                },
                None => {
                    assert forall|j: int| 0 <= j < runs.len() implies unrun_gate(
                        (#[trigger] runs[j]).gates,
                    ) is None by {
                        if j > 0 {
                            assert(unrun_gate(rest[j - 1].gates) is None);
                        }
                    }
                },
            }
        }
    }
}

/// The gates of the hosts run host by host, each in order: the next one is the first
/// that has not run, and none is once a gate could not be run at all. A gate that
/// failed holds none back.
pub proof fn law_host_gates_run_in_order(runs: Seq<HostRunView>, h: int, k: int)
    requires
        0 <= h < runs.len(),
        0 <= k < runs[h].gates.len(),
        runs[h].gates[k].exit is None,
        forall|j: int| 0 <= j < k ==> (#[trigger] runs[h].gates[j]).exit is Some,
        forall|i: int, j: int|
            0 <= i < h && 0 <= j < runs[i].gates.len() ==> (#[trigger] runs[i].gates[j]).exit
                is Some,
        forall|i: int, j: int|
            0 <= i < runs.len() && 0 <= j < runs[i].gates.len() ==> !((
            #[trigger] runs[i].gates[j]).exit matches Some(e) && e is NotRun),
    ensures
        host_gate_due(runs) == Some((h, k)),
{
    lemma_first_not_run(runs);
    if first_not_run(runs) is Some {
        let i = choose|i: int|
            0 <= i < runs.len() && gate_not_run((#[trigger] runs[i]).gates) is Some;
        lemma_gate_not_run(runs[i].gates);
        let j = choose|j: int|
            0 <= j < runs[i].gates.len() && ((#[trigger] runs[i].gates[j]).exit matches Some(e)
                && e is NotRun);
        assert(!(runs[i].gates[j].exit matches Some(e) && e is NotRun));
    }
    lemma_first_unrun_is_first(runs);
    lemma_unrun_first(runs[h].gates);
    match first_unrun(runs) {
        Some((i, j)) => {
            lemma_unrun_first(runs[i].gates);
            if i < h {
                assert(runs[i].gates[j].exit is Some);
            } else if i > h {
                assert(unrun_gate(runs[h].gates) is None);
                assert(runs[h].gates[k].exit is Some);
            } else {
                assert(runs[h].gates[j].exit is None);
                assert(j <= k);
            }
        },
        None => {
            assert(unrun_gate(runs[h].gates) is None);
            assert(runs[h].gates[k].exit is Some);
        },
    }
}

/// A template has the host's name for each placeholder, and is the same everywhere
/// else.
pub proof fn law_placeholders_become_the_host(a: Seq<char>, b: Seq<char>, host: Seq<char>)
    requires
        forall|i: int| 0 <= i < a.len() ==> #[trigger] a[i] != '{',
    ensures
        for_host(a + "{host}"@ + b, host) == a + host + for_host(b, host),
        for_host(a, host) == a,
{
    reveal_strlit("{host}");
    let p = "{host}"@;
    let s = a + p + b;
    assert(s.skip(a.len() as int).take(p.len() as int) =~= p);
    law_cuts_are_at_the_first(s, p, a.len() as int);
    let (front, back) = cut(s, p)->0;
    let k = front.len() as int;
    assert((front + p + back)[k] == p[0]);
    if k < a.len() {
        assert(s[k] == a[k]);
    }
    assert(front =~= s.take(a.len() as int));
    assert(s.take(a.len() as int) =~= a);
    assert(s.skip((a.len() + p.len()) as int) =~= b);
    assert(found(s, p) == Some(a.len())) by {
        assert(s.take(found(s, p)->0 as int).len() == found(s, p)->0) by {
            lemma_found_bounds(s, p);
        }
    }
    assert(pieces_of(s, p) =~= seq![a] + pieces_of(b, p));
    lemma_joined_front(a, pieces_of(b, p), host);
    if found(a, p) is Some {
        lemma_found_bounds(a, p);
        law_cuts_are_at_the_first(a, p, 0);
        let (x, y) = cut(a, p)->0;
        assert((x + p + y)[x.len() as int] == '{');
    }
    assert(pieces_of(a, p) =~= seq![a]);
}

/// A reason counts only where it holds more than white space.
pub proof fn law_blank_reasons_do_not_count(reason: Option<Seq<char>>)
    ensures
        gives_reason(reason) <==> reason is Some && trimmed(reason->0).len() > 0,
{
}

} // verus!
