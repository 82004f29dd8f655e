//! The lines that the operations end with.
use vstd::prelude::*;

use crate::branches::{RollInfo, RollView};
use crate::failure::{outcome, Failure};
use crate::num::{decimal, law_decimal_reads_back, number_in, parse_u32, to_decimal};
use crate::ops::gates::{
    exit_desc, exit_text, GateNotice, GateNoticeView, HostResult, HostResultView,
};
use crate::ops::names::{CreateOutcome, LandPlan, LandPlanView};
use crate::ops::promote::{
    PromoteOutcome, PromoteOutcomeView, PromoteStep, PromoteStepView, SkippedRoll, SkippedRollView,
    UpdateItem, UpdateItemView, UpdateOutcome, UpdateOutcomeView,
};
use crate::ops::prune::{
    PruneCandidateView, PrunePlan, PrunePlanView, PruneResult, PruneResultView, PruneScope,
    PruneSkip, PruneSkipView,
};
use crate::ops::release::{
    gate_refusal, render_version_check, version_gate_error, version_line_of, TagOutcome,
};
use crate::proc::{OutLine, OutLineView};
use crate::sync::{PushOutcome, SyncTarget};
use crate::text::{
    byte_len, bytes_in, cat, cat3, cat4, cat5, extend, join, joined, lines, owned, pad, pad_left,
    padded, padded_left, repeat, run_of,
};
use crate::tui::output::{Followup, FollowupView, JobDone, JobDoneView};
use crate::tui::rolls::{find_number, law_rolls_are_found_by_number, roll_numbered, Action};
use crate::tui::view::{branch_ending, branches_ending};
use crate::version::{BumpLevel, Semver, VersionCheck};

verus! {

/// Lines for standard output.
pub open spec fn as_out(lines: Seq<Seq<char>>) -> Seq<OutLineView> {
    Seq::new(lines.len(), |i: int| OutLineView::Out(lines[i]))
}

/// Lines for standard output.
pub fn to_out(lines: Vec<String>) -> (r: Vec<OutLine>)
    ensures
        r.deep_view() == as_out(lines.deep_view()),
{
    let mut r: Vec<OutLine> = Vec::new();
    let ghost all = lines.deep_view();
    let mut i: usize = 0;
    while i < lines.len()
        invariant
            i <= lines@.len(),
            all == lines.deep_view(),
            r@.len() == i,
            forall|k: int| 0 <= k < i ==> (#[trigger] r@[k]).deep_view() == OutLineView::Out(all[k]),
        decreases lines@.len() - i,
    {
        r.push(OutLine::Out(lines[i].clone()));
        i += 1;
    }
    assert(r.deep_view() =~= as_out(all));
    r
}

/// Adds the lines of `more` behind those of `v`.
pub fn extend_out(v: &mut Vec<OutLine>, more: Vec<OutLine>)
    ensures
        final(v).deep_view() == old(v).deep_view() + more.deep_view(),
{
    let ghost a = v@;
    let ghost b = more@;
    let mut rest = more;
    v.append(&mut rest);
    assert(v@ == a + b);
    assert(v.deep_view() =~= old(v).deep_view() + more.deep_view());
}

/// A line that may be there.
pub open spec fn maybe(line: Option<Seq<char>>) -> Seq<Seq<char>> {
    match line {
        Some(l) => seq![l],
        None => seq![],
    }
}

// ── Gates and hosts ─────────────────────────────────────────────────────────

/// What is said of a gate.
pub open spec fn notice_line(n: GateNoticeView) -> OutLineView {
    match n {
        GateNoticeView::NoGates => OutLineView::Out("No gates configured"@),
        GateNoticeView::DryRun(gate) => OutLineView::Out("Dry-run gate: "@ + gate),
        GateNoticeView::DryRunHost(gate) => OutLineView::Out("Dry-run host gate: "@ + gate),
        GateNoticeView::Bypassed { gate, code } => OutLineView::Error(
            "warning: gate failed but bypassed (--force): "@ + gate + " ("@ + exit_text(code)
                + ")"@,
        ),
    }
}

/// What is said of a run of gates.
pub open spec fn notice_lines(notices: Seq<GateNoticeView>) -> Seq<OutLineView> {
    Seq::new(notices.len(), |i: int| notice_line(notices[i]))
}

fn say_notice(n: &GateNotice) -> (r: OutLine)
    ensures
        r.deep_view() == notice_line(n.deep_view()),
{
    match n {
        GateNotice::NoGates => OutLine::Out("No gates configured".to_owned()),
        GateNotice::DryRun(gate) => OutLine::Out(cat("Dry-run gate: ", gate.as_str())),
        GateNotice::DryRunHost(gate) => OutLine::Out(cat("Dry-run host gate: ", gate.as_str())),
        GateNotice::Bypassed { gate, code } => {
            let desc = exit_desc(*code);
            OutLine::Error(
                cat5(
                    "warning: gate failed but bypassed (--force): ",
                    gate.as_str(),
                    " (",
                    desc.as_str(),
                    ")",
                ),
            )
        },
    }
}

/// What is said of a run of gates.
pub fn render_gate_notices(notices: &Vec<GateNotice>) -> (r: Vec<OutLine>)
    ensures
        r.deep_view() == notice_lines(notices.deep_view()),
{
    let mut r: Vec<OutLine> = Vec::new();
    let ghost all = notices.deep_view();
    let mut i: usize = 0;
    while i < notices.len()
        invariant
            i <= notices@.len(),
            all == notices.deep_view(),
            r@.len() == i,
            forall|k: int| 0 <= k < i ==> (#[trigger] r@[k]).deep_view() == notice_line(all[k]),
        decreases notices@.len() - i,
    {
        assert(all[i as int] == notices@[i as int].deep_view());
        r.push(say_notice(&notices[i]));
        i += 1;
    }
    assert(r.deep_view() =~= notice_lines(all));
    r
}

/// The texts of lines, whatever their stream.
pub open spec fn texts_of(lines: Seq<OutLineView>) -> Seq<Seq<char>> {
    Seq::new(lines.len(), |i: int| lines[i].content())
}

/// Adds what is said of a run of gates, as plain lines.
pub fn push_gate_notices(lines: &mut Vec<String>, notices: &Vec<GateNotice>)
    ensures
        final(lines).deep_view() == old(lines).deep_view() + texts_of(
            notice_lines(notices.deep_view()),
        ),
{
    let said = render_gate_notices(notices);
    let ghost start = lines.deep_view();
    let ghost all = said.deep_view();
    let ghost added = texts_of(all);
    let mut i: usize = 0;
    assert(start + added.take(0) =~= start);
    while i < said.len()
        invariant
            i <= said@.len(),
            all == said.deep_view(),
            added == texts_of(all),
            lines.deep_view() == start + added.take(i as int),
        decreases said@.len() - i,
    {
        let ghost before = lines.deep_view();
        assert(all[i as int] == said@[i as int].deep_view());
        lines.push(said[i].text().to_owned());
        assert(lines.deep_view() =~= before.push(added[i as int]));
        assert(before.push(added[i as int]) =~= start + added.take(i + 1));
        i += 1;
    }
    assert(added.take(added.len() as int) =~= added);
}

/// What is said of one host.
pub open spec fn host_line(r: HostResultView) -> Seq<char> {
    "  "@ + r.host + ": "@ + (if r.failures.len() == 0 {
        "PASSED"@
    } else {
        "FAILED"@
    })
}

/// What is said of the hosts; nothing where none was verified.
pub open spec fn host_lines(results: Seq<HostResultView>) -> Seq<Seq<char>> {
    if results.len() == 0 {
        seq![]
    } else {
        seq!["Host verification:"@] + Seq::new(results.len(), |i: int| host_line(results[i]))
    }
}

/// What is said of the hosts.
pub fn render_host_results(results: &Vec<HostResult>) -> (r: Vec<String>)
    ensures
        r.deep_view() == host_lines(results.deep_view()),
{
    let mut r: Vec<String> = Vec::new();
    let ghost all = results.deep_view();
    let ghost done = host_lines(all);
    if results.is_empty() {
        assert(r.deep_view() =~= done);
        return r;
    }
    r.push("Host verification:".to_owned());
    let mut i: usize = 0;
    assert(r.deep_view() =~= done.take(1));
    while i < results.len()
        invariant
            i <= results@.len(),
            all == results.deep_view(),
            all.len() > 0,
            done == host_lines(all),
            r.deep_view() == done.take(i + 1),
        decreases results@.len() - i,
    {
        let ghost before = r.deep_view();
        assert(all[i as int] == results@[i as int].deep_view());
        let status = if results[i].passed() {
            "PASSED"
        } else {
            "FAILED"
        };
        r.push(cat4("  ", results[i].host.as_str(), ": ", status));
        assert(done[i + 1] == host_line(all[i as int]));
        assert(r.deep_view() =~= before.push(done[i + 1]));
        assert(before.push(done[i + 1]) =~= done.take(i + 2));
        i += 1;
    }
    assert(done.take(all.len() as int + 1) =~= done);
    r
}

/// Adds what is said of the hosts.
pub fn push_host_results(lines: &mut Vec<String>, results: &Vec<HostResult>)
    ensures
        final(lines).deep_view() == old(lines).deep_view() + host_lines(results.deep_view()),
{
    let said = render_host_results(results);
    extend(lines, said);
}

// ── Creating and landing ────────────────────────────────────────────────────

/// What is said of a new branch.
pub fn print_create(o: &CreateOutcome) -> (r: String)
    ensures
        r@ == (if o.dry_run {
            "Dry-run: would create '"@ + o.branch@ + "' from '"@ + o.stable@ + "'"@
        } else {
            "Created "@ + o.branch@
        }),
{
    if o.dry_run {
        cat5("Dry-run: would create '", o.branch.as_str(), "' from '", o.stable.as_str(), "'")
    } else {
        cat("Created ", o.branch.as_str())
    }
}

/// What is said of a branch that was merged into the current roll.
pub fn print_integrate(branch: &str, current: &str) -> (r: String)
    ensures
        r@ == "integrated "@ + branch@ + " into "@ + current@,
{
    cat4("integrated ", branch, " into ", current)
}

/// What is said of a hotfix that landed.
pub open spec fn land_lines(p: LandPlanView, dry_run: bool) -> Seq<Seq<char>> {
    if dry_run {
        seq![
            "Dry-run: would land '"@ + p.current + "' into '"@ + p.stable
                + "' (--no-ff), then reintegrate '"@ + p.stable + "' into '"@ + p.rolling + "'"@,
        ]
    } else {
        seq![
            "Landed '"@ + p.current + "' into '"@ + p.stable + "'"@,
            "Reintegrated '"@ + p.stable + "' into '"@ + p.rolling + "'"@,
        ]
    }
}

/// What is said of a hotfix that landed.
pub fn print_land(p: &LandPlan, dry_run: bool) -> (r: Vec<String>)
    ensures
        r.deep_view() == land_lines(p.deep_view(), dry_run),
{
    if dry_run {
        let front = cat5(
            "Dry-run: would land '",
            p.current.as_str(),
            "' into '",
            p.stable.as_str(),
            "' (--no-ff), then reintegrate '",
        );
        let r = vec![
            cat5(front.as_str(), p.stable.as_str(), "' into '", p.rolling.as_str(), "'"),
        ];
        assert(r.deep_view() =~= land_lines(p.deep_view(), dry_run));
        return r;
    }
    let r = vec![
        cat5("Landed '", p.current.as_str(), "' into '", p.stable.as_str(), "'"),
        cat5("Reintegrated '", p.stable.as_str(), "' into '", p.rolling.as_str(), "'"),
    ];
    assert(r.deep_view() =~= land_lines(p.deep_view(), dry_run));
    r
}

/// What is said of a graduation.
pub open spec fn graduate_line(roll: Seq<char>, rolling: Seq<char>, dry_run: bool) -> Seq<char> {
    if dry_run {
        "Dry-run: would graduate '"@ + roll + "' into '"@ + rolling + "' (--no-ff)"@
    } else {
        "Graduated '"@ + roll + "' into '"@ + rolling + "'"@
    }
}

/// What is said of a graduation.
pub fn print_graduate(roll: &str, rolling: &str, dry_run: bool) -> (r: String)
    ensures
        r@ == graduate_line(roll@, rolling@, dry_run),
{
    if dry_run {
        cat5("Dry-run: would graduate '", roll, "' into '", rolling, "' (--no-ff)")
    } else {
        cat5("Graduated '", roll, "' into '", rolling, "'")
    }
}

/// The branch that an argument names: a bare number stands for the roll with
/// that number.
pub open spec fn integrate_branch(arg: Seq<char>, rolls: Seq<RollView>) -> Result<
    Seq<char>,
    Seq<Seq<char>>,
> {
    match number_in(arg, u32::MAX as nat) {
        None => Ok(arg),
        Some(n) => match roll_numbered(rolls, n as u32) {
            Some(r) => Ok(r.branch),
            None => Err(seq!["no roll with number "@ + decimal(n)]),
        },
    }
}

/// The branch that an argument names.
pub fn resolve_integrate_target(arg: &str, rolls: &Vec<RollInfo>) -> (r: Result<String, Failure>)
    ensures
        outcome(r) == integrate_branch(arg@, rolls.deep_view()),
{
    match parse_u32(arg) {
        None => Ok(owned(arg)),
        Some(n) => match find_number(rolls, n) {
            Some(r) => Ok(r.branch.clone()),
            None => {
                let t = to_decimal(n as u64);
                Err(Failure::msg(cat("no roll with number ", t.as_str())))
            },
        },
    }
}

// ── Promoting ───────────────────────────────────────────────────────────────

/// What a step promoted.
pub open spec fn promoted_what(step: PromoteStepView, rolling: Seq<char>) -> Seq<char> {
    match step.roll {
        Some(r) => r,
        None => rolling,
    }
}

/// What is said of a step of a promotion.
pub open spec fn step_line(o: PromoteOutcomeView, step: PromoteStepView) -> Seq<char> {
    if o.dry_run {
        "Dry-run: would promote '"@ + promoted_what(step, o.rolling) + "' into '"@ + o.stable
            + "' by merging '"@ + step.source + "' (--no-ff)"@
    } else {
        "Promoted '"@ + promoted_what(step, o.rolling) + "' into '"@ + o.stable + "'"@
    }
}

/// Everything that is said of a step of a promotion.
pub open spec fn step_lines(o: PromoteOutcomeView, step: PromoteStepView) -> Seq<OutLineView> {
    as_out(maybe(version_line_of(step.version, step.source, o.stable))) + notice_lines(
        step.gate_notices,
    ) + notice_lines(step.host_notices) + as_out(host_lines(step.host_results)) + as_out(
        seq![step_line(o, step)] + maybe(TagOutcome::described(step.tag)),
    )
}

/// What is said of a roll that needed no promotion.
pub open spec fn skip_line(s: SkippedRollView) -> Seq<char> {
    "skipped '"@ + s.roll + "': "@ + s.reason
}

/// What is said of the first `n` steps of a promotion.
pub open spec fn steps_lines(o: PromoteOutcomeView, n: nat) -> Seq<OutLineView>
    decreases n,
{
    if n == 0 {
        seq![]
    } else {
        steps_lines(o, (n - 1) as nat) + step_lines(o, o.steps[n - 1])
    }
}

/// What is said of a promotion: its steps, then the rolls that needed none.
pub open spec fn promote_lines(o: PromoteOutcomeView) -> Seq<OutLineView> {
    steps_lines(o, o.steps.len()) + as_out(
        Seq::new(o.skipped.len(), |i: int| skip_line(o.skipped[i])),
    )
}

fn say_step(o: &PromoteOutcome, step: &PromoteStep) -> (r: String)
    ensures
        r@ == step_line(o.deep_view(), step.deep_view()),
{
    let what = match &step.roll {
        Some(r) => r.as_str(),
        None => o.rolling.as_str(),
    };
    if o.dry_run {
        let front = cat5(
            "Dry-run: would promote '",
            what,
            "' into '",
            o.stable.as_str(),
            "' by merging '",
        );
        cat3(front.as_str(), step.source.as_str(), "' (--no-ff)")
    } else {
        cat5("Promoted '", what, "' into '", o.stable.as_str(), "'")
    }
}

fn say_skipped(skipped: &Vec<SkippedRoll>) -> (r: Vec<String>)
    ensures
        r.deep_view() == Seq::new(
            skipped@.len(),
            |i: int| skip_line(skipped.deep_view()[i]),
        ),
{
    let ghost all = skipped.deep_view();
    let mut r: Vec<String> = Vec::new();
    let mut i: usize = 0;
    while i < skipped.len()
        invariant
            i <= skipped@.len(),
            all == skipped.deep_view(),
            r@.len() == i,
            forall|k: int| 0 <= k < i ==> (#[trigger] r@[k])@ == skip_line(all[k]),
        decreases skipped@.len() - i,
    {
        assert(all[i as int] == skipped@[i as int].deep_view());
        r.push(
            cat4("skipped '", skipped[i].roll.as_str(), "': ", skipped[i].reason.as_str()),
        );
        i += 1;
    }
    assert(r.deep_view() =~= Seq::new(all.len(), |i: int| skip_line(all[i])));
    r
}

fn one_or_none(line: Option<String>) -> (r: Vec<String>)
    ensures
        r.deep_view() == maybe(line.deep_view()),
{
    let mut r: Vec<String> = Vec::new();
    let ghost view = line.deep_view();
    match line {
        Some(l) => {
            r.push(l);
        },
        None => {},
    }
    assert(r.deep_view() =~= maybe(view));
    r
}

fn say_step_lines(o: &PromoteOutcome, step: &PromoteStep) -> (r: Vec<OutLine>)
    ensures
        r.deep_view() == step_lines(o.deep_view(), step.deep_view()),
{
    let version = render_version_check(&step.version, step.source.as_str(), o.stable.as_str());
    let mut r = to_out(one_or_none(version));
    let gates = render_gate_notices(&step.gate_notices);
    extend_out(&mut r, gates);
    let host_gates = render_gate_notices(&step.host_notices);
    extend_out(&mut r, host_gates);
    let hosts = to_out(render_host_results(&step.host_results));
    extend_out(&mut r, hosts);
    let mut last = vec![say_step(o, step)];
    assert(last.deep_view() =~= seq![step_line(o.deep_view(), step.deep_view())]);
    extend(&mut last, one_or_none(step.tag.describe()));
    extend_out(&mut r, to_out(last));
    r
}

/// What is said of a promotion.
pub fn print_promote(o: &PromoteOutcome) -> (r: Vec<OutLine>)
    ensures
        r.deep_view() == promote_lines(o.deep_view()),
{
    let ghost ov = o.deep_view();
    let mut r: Vec<OutLine> = Vec::new();
    let mut i: usize = 0;
    assert(r.deep_view() =~= steps_lines(ov, 0));
    while i < o.steps.len()
        invariant
            i <= o.steps@.len(),
            ov == o.deep_view(),
            r.deep_view() == steps_lines(ov, i as nat),
        decreases o.steps@.len() - i,
    {
        assert(ov.steps[i as int] == o.steps@[i as int].deep_view());
        let said = say_step_lines(o, &o.steps[i]);
        extend_out(&mut r, said);
        i += 1;
    }
    extend_out(&mut r, to_out(say_skipped(&o.skipped)));
    r
}

/// What the panel says of the first `n` steps of a promotion.
pub open spec fn panel_steps(o: PromoteOutcomeView, n: nat) -> Seq<Seq<char>>
    decreases n,
{
    if n == 0 {
        seq![]
    } else {
        let step = o.steps[n - 1];
        panel_steps(o, (n - 1) as nat) + texts_of(notice_lines(step.gate_notices)) + texts_of(
            notice_lines(step.host_notices),
        ) + host_lines(step.host_results) + seq![
            "Promoted '"@ + promoted_what(step, o.rolling) + "' into '"@ + o.stable + "'"@,
        ] + maybe(TagOutcome::described(step.tag))
    }
}

/// What the panel says of a promotion.
pub open spec fn panel_promote(o: PromoteOutcomeView) -> Seq<Seq<char>> {
    panel_steps(o, o.steps.len()) + Seq::new(o.skipped.len(), |i: int| skip_line(o.skipped[i]))
}

fn say_panel_promote(o: &PromoteOutcome) -> (r: Vec<String>)
    ensures
        r.deep_view() == panel_promote(o.deep_view()),
{
    let ghost ov = o.deep_view();
    let mut r: Vec<String> = Vec::new();
    let mut i: usize = 0;
    assert(r.deep_view() =~= panel_steps(ov, 0));
    while i < o.steps.len()
        invariant
            i <= o.steps@.len(),
            ov == o.deep_view(),
            r.deep_view() == panel_steps(ov, i as nat),
        decreases o.steps@.len() - i,
    {
        let step = &o.steps[i];
        assert(ov.steps[i as int] == step.deep_view());
        push_gate_notices(&mut r, &step.gate_notices);
        push_gate_notices(&mut r, &step.host_notices);
        push_host_results(&mut r, &step.host_results);
        let what = match &step.roll {
            Some(x) => x.as_str(),
            None => o.rolling.as_str(),
        };
        let ghost before = r.deep_view();
        let line = cat5("Promoted '", what, "' into '", o.stable.as_str(), "'");
        let ghost view = line@;
        r.push(line);
        assert(r.deep_view() =~= before + seq![view]);
        extend(&mut r, one_or_none(step.tag.describe()));
        i += 1;
    }
    extend(&mut r, say_skipped(&o.skipped));
    r
}

// ── Updating ────────────────────────────────────────────────────────────────

/// What is said of one roll that was looked at. The panel says a little less of
/// what would be merged.
pub open spec fn update_line(item: UpdateItemView, stable: Seq<char>, in_panel: bool) -> Seq<char> {
    match item {
        UpdateItemView::AlreadyUpToDate { roll } => "'"@ + roll
            + "' is already up to date with '"@ + stable + "'"@,
        UpdateItemView::WouldMerge { roll, behind } => if in_panel {
            "would merge '"@ + stable + "' into '"@ + roll + "' ("@ + decimal(behind as nat)
                + " ahead)"@
        } else {
            "dry-run: would merge '"@ + stable + "' into '"@ + roll + "' ("@ + decimal(
                behind as nat,
            ) + " commit"@ + (if behind == 1 {
                ""@
            } else {
                "s"@
            }) + " ahead)"@
        },
        UpdateItemView::Updated { roll } => "updated '"@ + roll + "' with '"@ + stable + "'"@,
    }
}

/// What is said of an update.
pub open spec fn update_lines(o: UpdateOutcomeView, in_panel: bool) -> Seq<Seq<char>> {
    match o {
        UpdateOutcomeView::NoActiveRolls => seq!["no active local rolls to update"@],
        UpdateOutcomeView::Ran { stable, items } => Seq::new(
            items.len(),
            |i: int| update_line(items[i], stable, in_panel),
        ),
    }
}

fn say_update(item: &UpdateItem, stable: &str, in_panel: bool) -> (r: String)
    ensures
        r@ == update_line(item.deep_view(), stable@, in_panel),
{
    match item {
        UpdateItem::AlreadyUpToDate { roll } => cat5(
            "'",
            roll.as_str(),
            "' is already up to date with '",
            stable,
            "'",
        ),
        UpdateItem::WouldMerge { roll, behind } => {
            let n = to_decimal(*behind);
            if in_panel {
                let front = cat5("would merge '", stable, "' into '", roll.as_str(), "' (");
                cat3(front.as_str(), n.as_str(), " ahead)")
            } else {
                let front = cat5(
                    "dry-run: would merge '",
                    stable,
                    "' into '",
                    roll.as_str(),
                    "' (",
                );
                let ending = if *behind == 1 {
                    ""
                } else {
                    "s"
                };
                cat5(front.as_str(), n.as_str(), " commit", ending, " ahead)")
            }
        },
        UpdateItem::Updated { roll } => cat5("updated '", roll.as_str(), "' with '", stable, "'"),
    }
}

/// What is said of an update.
pub fn print_update(o: &UpdateOutcome, in_panel: bool) -> (r: Vec<String>)
    ensures
        r.deep_view() == update_lines(o.deep_view(), in_panel),
{
    match o {
        UpdateOutcome::NoActiveRolls => {
            let r = vec!["no active local rolls to update".to_owned()];
            assert(r.deep_view() =~= seq!["no active local rolls to update"@]);
            r
        },
        UpdateOutcome::Ran { stable, items } => {
            let ghost all = items.deep_view();
            let mut r: Vec<String> = Vec::new();
            let mut i: usize = 0;
            while i < items.len()
                invariant
                    i <= items@.len(),
                    all == items.deep_view(),
                    r@.len() == i,
                    forall|k: int|
                        0 <= k < i ==> (#[trigger] r@[k])@ == update_line(
                            all[k],
                            stable@,
                            in_panel,
                        ),
                decreases items@.len() - i,
            {
                assert(all[i as int] == items@[i as int].deep_view());
                r.push(say_update(&items[i], stable.as_str(), in_panel));
                i += 1;
            }
            assert(r.deep_view() =~= update_lines(o.deep_view(), in_panel));
            r
        },
    }
}

// ── Pruning ─────────────────────────────────────────────────────────────────

/// The longest of `names` in bytes, and at least `low`.
pub open spec fn widest_bytes(names: Seq<Seq<char>>, low: nat) -> nat
    decreases names.len(),
{
    if names.len() == 0 {
        low
    } else {
        let before = widest_bytes(names.drop_last(), low);
        let n = byte_len(names.last());
        if n > before {
            n
        } else {
            before
        }
    }
}

/// The longest of `names` in bytes, and at least `low`.
pub fn name_width(names: &Vec<String>, low: usize) -> (r: usize)
    ensures
        r == widest_bytes(names.deep_view(), low as nat),
{
    let ghost all = names.deep_view();
    let mut w = low;
    let mut i: usize = 0;
    while i < names.len()
        invariant
            i <= names@.len(),
            all == names.deep_view(),
            w == widest_bytes(all.take(i as int), low as nat),
        decreases names@.len() - i,
    {
        assert(all.take(i + 1).drop_last() =~= all.take(i as int));
        let n = bytes_in(names[i].as_str());
        if n > w {
            w = n;
        }
        i += 1;
    }
    assert(all.take(all.len() as int) =~= all);
    w
}

/// The copies of a candidate in words.
pub open spec fn copies_text(c: PruneCandidateView) -> Seq<char> {
    match (c.delete_local, c.delete_remote) {
        (true, true) => "local + origin"@,
        (true, false) => "local"@,
        (false, true) => "origin"@,
        (false, false) => "—"@,
    }
}

/// The names of the candidates.
pub open spec fn candidate_names(candidates: Seq<PruneCandidateView>) -> Seq<Seq<char>> {
    Seq::new(candidates.len(), |i: int| candidates[i].branch)
}

/// The line about one candidate.
pub open spec fn candidate_line(c: PruneCandidateView, width: nat) -> Seq<char> {
    "  "@ + padded_left(decimal(c.number as nat), 3) + "  "@ + padded(c.branch, width) + "  "@
        + copies_text(c)
}

/// What a deletion would do, as a table.
pub open spec fn plan_lines(p: PrunePlanView, title: Seq<char>) -> Seq<Seq<char>> {
    let w = widest_bytes(candidate_names(p.candidates), 6);
    seq![
        title,
        ""@,
        "  "@ + padded_left("#"@, 3) + "  "@ + padded("branch"@, w) + "  delete"@,
        "  ───  "@ + run_of('─', w) + "  ──────────────"@,
    ] + Seq::new(p.candidates.len(), |i: int| candidate_line(p.candidates[i], w)) + (
    if p.has_remote {
        seq![]
    } else {
        seq!["\nnote: no 'origin' remote configured — local branches only"@]
    })
}

/// What a deletion would do, as a table.
pub fn render_prune_plan(plan: &PrunePlan, title: &str) -> (r: Vec<String>)
    ensures
        r.deep_view() == plan_lines(plan.deep_view(), title@),
{
    let ghost cs = plan.candidates.deep_view();
    let mut names: Vec<String> = Vec::new();
    let mut j: usize = 0;
    while j < plan.candidates.len()
        invariant
            j <= plan.candidates@.len(),
            cs == plan.candidates.deep_view(),
            names@.len() == j,
            forall|k: int| 0 <= k < j ==> (#[trigger] names@[k])@ == cs[k].branch,
        decreases plan.candidates@.len() - j,
    {
        assert(cs[j as int] == plan.candidates@[j as int].deep_view());
        names.push(plan.candidates[j].branch.clone());
        j += 1;
    }
    assert(names.deep_view() =~= candidate_names(cs));
    let w = name_width(&names, 6);
    let head_num = pad_left("#", 3);
    let head_name = pad("branch", w);
    let rule = repeat('─', w);
    let mut r = vec![
        owned(title),
        "".to_owned(),
        cat5("  ", head_num.as_str(), "  ", head_name.as_str(), "  delete"),
        cat3("  ───  ", rule.as_str(), "  ──────────────"),
    ];
    let ghost head = seq![
        title@,
        ""@,
        "  "@ + padded_left("#"@, 3) + "  "@ + padded("branch"@, w as nat) + "  delete"@,
        "  ───  "@ + run_of('─', w as nat) + "  ──────────────"@,
    ];
    assert(r.deep_view() =~= head);
    let ghost rows = Seq::new(cs.len(), |i: int| candidate_line(cs[i], w as nat));
    let mut i: usize = 0;
    assert(r.deep_view() =~= head + rows.take(0));
    while i < plan.candidates.len()
        invariant
            i <= plan.candidates@.len(),
            cs == plan.candidates.deep_view(),
            rows == Seq::new(cs.len(), |i: int| candidate_line(cs[i], w as nat)),
            r.deep_view() == head + rows.take(i as int),
        decreases plan.candidates@.len() - i,
    {
        let c = &plan.candidates[i];
        assert(cs[i as int] == c.deep_view());
        let target = match (c.delete_local, c.delete_remote) {
            (true, true) => "local + origin",
            (true, false) => "local",
            (false, true) => "origin",
            (false, false) => "—",
        };
        let digits = to_decimal(c.number as u64);
        let num = pad_left(digits.as_str(), 3);
        let name = pad(c.branch.as_str(), w);
        let ghost before = r.deep_view();
        let front = cat5("  ", num.as_str(), "  ", name.as_str(), "  ");
        r.push(cat(front.as_str(), target));
        assert(rows[i as int] == candidate_line(cs[i as int], w as nat));
        assert(r.deep_view() =~= before.push(rows[i as int]));
        assert(before.push(rows[i as int]) =~= head + rows.take(i + 1));
        i += 1;
    }
    assert(rows.take(rows.len() as int) =~= rows);
    if !plan.has_remote {
        r.push("\nnote: no 'origin' remote configured — local branches only".to_owned());
    }
    assert(r.deep_view() =~= plan_lines(plan.deep_view(), title@));
    r
}

/// What is said of the copies that were left alone.
pub open spec fn skips_lines(skipped: Seq<PruneSkipView>) -> Seq<Seq<char>> {
    if skipped.len() == 0 {
        seq![]
    } else {
        seq!["\nSkipped:"@] + Seq::new(
            skipped.len(),
            |i: int| "  "@ + skipped[i].branch + ": "@ + skipped[i].reason,
        )
    }
}

/// What is said of the copies that were left alone.
pub fn render_prune_skips(skipped: &Vec<PruneSkip>) -> (r: Vec<String>)
    ensures
        r.deep_view() == skips_lines(skipped.deep_view()),
{
    let mut r: Vec<String> = Vec::new();
    let ghost all = skipped.deep_view();
    let ghost done = skips_lines(all);
    if skipped.is_empty() {
        assert(r.deep_view() =~= done);
        return r;
    }
    r.push("\nSkipped:".to_owned());
    let mut i: usize = 0;
    assert(r.deep_view() =~= done.take(1));
    while i < skipped.len()
        invariant
            i <= skipped@.len(),
            all == skipped.deep_view(),
            all.len() > 0,
            done == skips_lines(all),
            r.deep_view() == done.take(i + 1),
        decreases skipped@.len() - i,
    {
        let ghost before = r.deep_view();
        assert(all[i as int] == skipped@[i as int].deep_view());
        r.push(cat4("  ", skipped[i].branch.as_str(), ": ", skipped[i].reason.as_str()));
        assert(done[i + 1] == "  "@ + all[i as int].branch + ": "@ + all[i as int].reason);
        assert(r.deep_view() =~= before.push(done[i + 1]));
        assert(before.push(done[i + 1]) =~= done.take(i + 2));
        i += 1;
    }
    assert(done.take(all.len() as int + 1) =~= done);
    r
}

/// Where a branch was deleted.
pub open spec fn deleted_where(r: PruneResultView) -> Seq<char> {
    match (r.local_deleted, r.remote_deleted) {
        (true, true) => "local, origin"@,
        (true, false) => "local"@,
        (false, true) => "origin"@,
        (false, false) => ""@,
    }
}

/// What is said of one branch.
pub open spec fn result_texts(r: PruneResultView) -> Seq<Seq<char>> {
    if r.errors.len() == 0 {
        seq!["deleted '"@ + r.branch + "' ("@ + deleted_where(r) + ")"@]
    } else {
        Seq::new(
            r.errors.len(),
            |i: int| "failed to delete '"@ + r.branch + "': "@ + r.errors[i],
        )
    }
}

/// What is said of one branch, on the stream that it belongs to.
pub open spec fn result_lines(r: PruneResultView) -> Seq<OutLineView> {
    let texts = result_texts(r);
    Seq::new(
        texts.len(),
        |i: int|
            if r.errors.len() == 0 {
                OutLineView::Out(texts[i])
            } else {
                OutLineView::Error(texts[i])
            },
    )
}

/// What is said of the first `n` branches.
pub open spec fn results_lines(results: Seq<PruneResultView>, n: nat) -> Seq<OutLineView>
    decreases n,
{
    if n == 0 {
        seq![]
    } else {
        results_lines(results, (n - 1) as nat) + result_lines(results[n - 1])
    }
}

/// How many branches failed.
pub open spec fn failed_count(results: Seq<PruneResultView>) -> nat
    decreases results.len(),
{
    if results.len() == 0 {
        0
    } else {
        failed_count(results.drop_last()) + (if results.last().errors.len() > 0 {
            1nat
        } else {
            0
        })
    }
}

/// What is said of a deletion, and how many branches failed.
pub open spec fn deletion_lines(results: Seq<PruneResultView>, verb: Seq<char>) -> Seq<OutLineView> {
    let done = (results.len() - failed_count(results)) as nat;
    results_lines(results, results.len()).push(
        OutLineView::Out("\n"@ + verb + " "@ + decimal(done) + " branch"@ + branch_ending(done)),
    )
}

fn say_result(res: &PruneResult) -> (r: Vec<String>)
    ensures
        r.deep_view() == result_texts(res.deep_view()),
{
    let ghost rv = res.deep_view();
    let mut r: Vec<String> = Vec::new();
    if res.errors.is_empty() {
        let place = if res.local_deleted {
            if res.remote_deleted {
                "local, origin"
            } else {
                "local"
            }
        } else if res.remote_deleted {
            "origin"
        } else {
            ""
        };
        r.push(cat5("deleted '", res.branch.as_str(), "' (", place, ")"));
        assert(r.deep_view() =~= result_texts(rv));
        return r;
    }
    let mut i: usize = 0;
    while i < res.errors.len()
        invariant
            i <= res.errors@.len(),
            rv == res.deep_view(),
            r@.len() == i,
            forall|k: int|
                0 <= k < i ==> (#[trigger] r@[k])@ == "failed to delete '"@ + rv.branch + "': "@
                    + rv.errors[k],
        decreases res.errors@.len() - i,
    {
        assert(rv.errors[i as int] == res.errors@[i as int]@);
        r.push(
            cat4("failed to delete '", res.branch.as_str(), "': ", res.errors[i].as_str()),
        );
        i += 1;
    }
    assert(r.deep_view() =~= result_texts(rv));
    r
}

/// What is said of a deletion, and how many branches failed.
pub fn render_prune_results(results: &Vec<PruneResult>, verb: &str) -> (r: (Vec<OutLine>, usize))
    ensures
        r.0.deep_view() == deletion_lines(results.deep_view(), verb@),
        r.1 == failed_count(results.deep_view()),
{
    let ghost all = results.deep_view();
    let mut r: Vec<OutLine> = Vec::new();
    let mut failures: usize = 0;
    let mut i: usize = 0;
    assert(r.deep_view() =~= results_lines(all, 0));
    while i < results.len()
        invariant
            i <= results@.len(),
            failures <= i,
            all == results.deep_view(),
            r.deep_view() == results_lines(all, i as nat),
            failures == failed_count(all.take(i as int)),
        decreases results@.len() - i,
    {
        assert(all.take(i + 1).drop_last() =~= all.take(i as int));
        assert(all[i as int] == results@[i as int].deep_view());
        let texts = say_result(&results[i]);
        let ghost tv = texts.deep_view();
        let ghost added = result_lines(all[i as int]);
        let failed = !results[i].errors.is_empty();
        let ghost start = r.deep_view();
        let mut k: usize = 0;
        assert(start + added.take(0) =~= start);
        while k < texts.len()
            invariant
                k <= texts@.len(),
                tv == texts.deep_view(),
                all == results.deep_view(),
                i < results@.len(),
                tv == result_texts(all[i as int]),
                failed == (all[i as int].errors.len() > 0),
                added == result_lines(all[i as int]),
                r.deep_view() == start + added.take(k as int),
            decreases texts@.len() - k,
        {
            let ghost before = r.deep_view();
            let line = if failed {
                OutLine::Error(texts[k].clone())
            } else {
                OutLine::Out(texts[k].clone())
            };
            let ghost view = line.deep_view();
            assert(tv[k as int] == texts@[k as int]@);
            assert(view == added[k as int]);
            r.push(line);
            assert(r.deep_view() =~= before.push(view));
            assert(before.push(view) =~= start + added.take(k + 1));
            k += 1;
        }
        assert(added.take(added.len() as int) =~= added);
        if failed {
            failures += 1;
        }
        i += 1;
    }
    assert(all.take(all.len() as int) =~= all);
    let done = results.len() - failures;
    let n = to_decimal(done as u64);
    let front = cat5("\n", verb, " ", n.as_str(), " branch");
    let last = cat(front.as_str(), branches_ending(done));
    let ghost before = r.deep_view();
    let ghost view = last@;
    r.push(OutLine::Out(last));
    assert(r.deep_view() =~= before.push(OutLineView::Out(view)));
    (r, failures)
}

/// What the panel says of the copies that were left alone.
pub open spec fn panel_skips(skipped: Seq<PruneSkipView>) -> Seq<Seq<char>> {
    Seq::new(
        skipped.len(),
        |i: int| "skipped '"@ + skipped[i].branch + "': "@ + skipped[i].reason,
    )
}

/// Adds what the panel says of the copies that were left alone.
pub fn push_prune_skips(lines: &mut Vec<String>, skipped: &Vec<PruneSkip>)
    ensures
        final(lines).deep_view() == old(lines).deep_view() + panel_skips(skipped.deep_view()),
{
    let ghost start = lines.deep_view();
    let ghost all = skipped.deep_view();
    let ghost added = panel_skips(all);
    let mut i: usize = 0;
    assert(start + added.take(0) =~= start);
    while i < skipped.len()
        invariant
            i <= skipped@.len(),
            all == skipped.deep_view(),
            added == panel_skips(all),
            lines.deep_view() == start + added.take(i as int),
        decreases skipped@.len() - i,
    {
        let ghost before = lines.deep_view();
        assert(all[i as int] == skipped@[i as int].deep_view());
        lines.push(
            cat4("skipped '", skipped[i].branch.as_str(), "': ", skipped[i].reason.as_str()),
        );
        assert(lines.deep_view() =~= before.push(added[i as int]));
        assert(before.push(added[i as int]) =~= start + added.take(i + 1));
        i += 1;
    }
    assert(added.take(added.len() as int) =~= added);
}

/// What the panel says of the first `n` branches.
pub open spec fn panel_results(results: Seq<PruneResultView>, n: nat) -> Seq<Seq<char>>
    decreases n,
{
    if n == 0 {
        seq![]
    } else {
        panel_results(results, (n - 1) as nat) + result_texts(results[n - 1])
    }
}

/// What the panel says of a deletion.
pub fn render_prune_outcome(plan: &PrunePlan, results: &Vec<PruneResult>) -> (r: Vec<String>)
    ensures
        r.deep_view() == panel_results(results.deep_view(), results@.len()) + panel_skips(
            plan.deep_view().skipped,
        ),
{
    let ghost all = results.deep_view();
    let mut r: Vec<String> = Vec::new();
    let mut i: usize = 0;
    assert(r.deep_view() =~= panel_results(all, 0));
    while i < results.len()
        invariant
            i <= results@.len(),
            all == results.deep_view(),
            r.deep_view() == panel_results(all, i as nat),
        decreases results@.len() - i,
    {
        assert(all[i as int] == results@[i as int].deep_view());
        let said = say_result(&results[i]);
        extend(&mut r, said);
        i += 1;
    }
    push_prune_skips(&mut r, &plan.skipped);
    r
}

// ── What the panel says ─────────────────────────────────────────────────────

/// An operation that an action of the dashboard stands for.
#[derive(Debug)]
pub enum OpCall {
    Graduate { roll: String },
    Integrate { branch: String },
    /// One roll alone.
    PromoteRoll { roll: String },
    PromoteRolling,
    Update,
    Prune(PruneScope),
    Tidy(PruneScope),
}

/// [`OpCall`] by its characters.
pub enum OpCallView {
    Graduate { roll: Seq<char> },
    Integrate { branch: Seq<char> },
    PromoteRoll { roll: Seq<char> },
    PromoteRolling,
    Update,
    Prune(PruneScope),
    Tidy(PruneScope),
}

impl DeepView for OpCall {
    type V = OpCallView;

    open spec fn deep_view(&self) -> OpCallView {
        match self {
            OpCall::Graduate { roll } => OpCallView::Graduate { roll: roll@ },
            OpCall::Integrate { branch } => OpCallView::Integrate { branch: branch@ },
            OpCall::PromoteRoll { roll } => OpCallView::PromoteRoll { roll: roll@ },
            OpCall::PromoteRolling => OpCallView::PromoteRolling,
            OpCall::Update => OpCallView::Update,
            OpCall::Prune(scope) => OpCallView::Prune(*scope),
            OpCall::Tidy(scope) => OpCallView::Tidy(*scope),
        }
    }
}

/// The operation that an action stands for. Graduating and integrating need a
/// roll to do it with; deleting never uses force, and tidying stays off the
/// remote.
pub open spec fn op_call(action: Action, target: Option<Seq<char>>) -> Option<OpCallView> {
    match action {
        Action::Graduate => match target {
            Some(roll) => Some(OpCallView::Graduate { roll }),
            None => None,
        },
        Action::Integrate => match target {
            Some(branch) => Some(OpCallView::Integrate { branch }),
            None => None,
        },
        Action::Promote => Some(
            match target {
                Some(roll) => OpCallView::PromoteRoll { roll },
                None => OpCallView::PromoteRolling,
            },
        ),
        Action::Update => Some(OpCallView::Update),
        Action::Prune => Some(
            OpCallView::Prune(PruneScope { local: true, remote: true, force: false, fetch: true }),
        ),
        Action::Tidy => Some(
            OpCallView::Tidy(PruneScope { local: true, remote: false, force: false, fetch: false }),
        ),
    }
}

/// The operation that an action stands for.
pub fn start_op(action: Action, target: Option<String>) -> (r: Result<OpCall, Failure>)
    ensures
        outcome(r) == (match op_call(action, target.deep_view()) {
            Some(call) => Ok(call),
            None => Err(seq!["no roll selected"@]),
        }),
{
    match action {
        Action::Graduate => match target {
            Some(roll) => Ok(OpCall::Graduate { roll }),
            None => Err(Failure::msg("no roll selected".to_owned())),
        },
        Action::Integrate => match target {
            Some(branch) => Ok(OpCall::Integrate { branch }),
            None => Err(Failure::msg("no roll selected".to_owned())),
        },
        Action::Promote => match target {
            Some(roll) => Ok(OpCall::PromoteRoll { roll }),
            None => Ok(OpCall::PromoteRolling),
        },
        Action::Update => Ok(OpCall::Update),
        Action::Prune => Ok(OpCall::Prune(PruneScope::both())),
        Action::Tidy => Ok(OpCall::Tidy(PruneScope::tidy(false))),
    }
}

/// Whether an operation only starts from a clean working tree. Integrating does
/// not: git itself refuses what it would overwrite.
pub open spec fn starts_clean(call: OpCallView) -> bool {
    call is Graduate || call is PromoteRoll || call is PromoteRolling
}

impl OpCall {
    /// Whether the operation only starts from a clean working tree.
    pub fn needs_clean(&self) -> (r: bool)
        ensures
            r == starts_clean(self.deep_view()),
    {
        matches!(
            self,
            OpCall::Graduate { .. } | OpCall::PromoteRoll { .. } | OpCall::PromoteRolling
        )
    }
}

/// What an action came to.
#[derive(Debug)]
pub enum OpOutcome {
    Graduated { notices: Vec<GateNotice>, roll: String, rolling: String },
    Integrated { branch: String, current: String },
    Promoted(PromoteOutcome),
    Updated(UpdateOutcome),
    Pruned { plan: PrunePlan, results: Vec<PruneResult> },
    Tidied { plan: PrunePlan, results: Vec<PruneResult> },
}

/// [`OpOutcome`] by its characters.
pub enum OpOutcomeView {
    Graduated { notices: Seq<GateNoticeView>, roll: Seq<char>, rolling: Seq<char> },
    Integrated { branch: Seq<char>, current: Seq<char> },
    Promoted(PromoteOutcomeView),
    Updated(UpdateOutcomeView),
    Pruned { plan: PrunePlanView, results: Seq<PruneResultView> },
    Tidied { plan: PrunePlanView, results: Seq<PruneResultView> },
}

impl DeepView for OpOutcome {
    type V = OpOutcomeView;

    open spec fn deep_view(&self) -> OpOutcomeView {
        match self {
            OpOutcome::Graduated { notices, roll, rolling } => OpOutcomeView::Graduated {
                notices: notices.deep_view(),
                roll: roll@,
                rolling: rolling@,
            },
            OpOutcome::Integrated { branch, current } => OpOutcomeView::Integrated {
                branch: branch@,
                current: current@,
            },
            OpOutcome::Promoted(o) => OpOutcomeView::Promoted(o.deep_view()),
            OpOutcome::Updated(o) => OpOutcomeView::Updated(o.deep_view()),
            OpOutcome::Pruned { plan, results } => OpOutcomeView::Pruned {
                plan: plan.deep_view(),
                results: results.deep_view(),
            },
            OpOutcome::Tidied { plan, results } => OpOutcomeView::Tidied {
                plan: plan.deep_view(),
                results: results.deep_view(),
            },
        }
    }
}

/// What the panel says of a deletion, or that there was nothing to delete.
pub open spec fn panel_deletion(
    plan: PrunePlanView,
    results: Seq<PruneResultView>,
    nothing: Seq<char>,
) -> Seq<Seq<char>> {
    if plan.candidates.len() == 0 {
        seq![nothing] + panel_skips(plan.skipped)
    } else {
        panel_results(results, results.len()) + panel_skips(plan.skipped)
    }
}

/// What the panel says of an action.
pub open spec fn op_lines(o: OpOutcomeView) -> Seq<Seq<char>> {
    match o {
        OpOutcomeView::Graduated { notices, roll, rolling } => texts_of(notice_lines(notices))
            + seq!["Graduated '"@ + roll + "' into '"@ + rolling + "'"@],
        OpOutcomeView::Integrated { branch, current } => seq![
            "Integrated '"@ + branch + "' into '"@ + current + "'"@,
        ],
        OpOutcomeView::Promoted(p) => panel_promote(p),
        OpOutcomeView::Updated(u) => update_lines(u, true),
        OpOutcomeView::Pruned { plan, results } => panel_deletion(
            plan,
            results,
            "no promoted roll branches to prune"@,
        ),
        OpOutcomeView::Tidied { plan, results } => panel_deletion(
            plan,
            results,
            "no local roll branches to tidy"@,
        ),
    }
}

/// What the panel says of a deletion, or that there was nothing to delete.
pub fn deletion_report(plan: &PrunePlan, results: &Vec<PruneResult>, nothing: &str) -> (r: Vec<
    String,
>)
    ensures
        r.deep_view() == panel_deletion(plan.deep_view(), results.deep_view(), nothing@),
{
    if plan.is_empty() {
        let mut r = vec![owned(nothing)];
        assert(r.deep_view() =~= seq![nothing@]);
        push_prune_skips(&mut r, &plan.skipped);
        return r;
    }
    render_prune_outcome(plan, results)
}

/// What the panel says of an action.
pub fn run_op(o: &OpOutcome) -> (r: Vec<String>)
    ensures
        r.deep_view() == op_lines(o.deep_view()),
{
    match o {
        OpOutcome::Graduated { notices, roll, rolling } => {
            let mut r: Vec<String> = Vec::new();
            push_gate_notices(&mut r, notices);
            let ghost before = r.deep_view();
            let ghost said = texts_of(notice_lines(notices.deep_view()));
            assert(before =~= said);
            let line = cat5("Graduated '", roll.as_str(), "' into '", rolling.as_str(), "'");
            let ghost view = line@;
            r.push(line);
            assert(r.deep_view() =~= said + seq![view]);
            r
        },
        OpOutcome::Integrated { branch, current } => {
            let r = vec![
                cat5("Integrated '", branch.as_str(), "' into '", current.as_str(), "'"),
            ];
            assert(r.deep_view() =~= op_lines(o.deep_view()));
            r
        },
        OpOutcome::Promoted(p) => say_panel_promote(p),
        OpOutcome::Updated(u) => print_update(u, true),
        OpOutcome::Pruned { plan, results } => deletion_report(
            plan,
            results,
            "no promoted roll branches to prune",
        ),
        OpOutcome::Tidied { plan, results } => deletion_report(
            plan,
            results,
            "no local roll branches to tidy",
        ),
    }
}

/// What the panel says of deleting one branch.
pub fn run_delete(branch: &str, plan: &PrunePlan, results: &Vec<PruneResult>) -> (r: Vec<String>)
    ensures
        r.deep_view() == panel_deletion(
            plan.deep_view(),
            results.deep_view(),
            "nothing to delete for '"@ + branch@ + "'"@,
        ),
{
    let nothing = cat3("nothing to delete for '", branch, "'");
    deletion_report(plan, results, nothing.as_str())
}

/// What a push came to: a rejected one is no failure, but a question.
pub fn push_done(target: &SyncTarget, o: &PushOutcome) -> (r: JobDone)
    ensures
        r.deep_view() == (if *o is Pushed {
            JobDoneView {
                lines: seq!["Pushed '"@ + target.branch@ + "' to "@ + target.remote@],
                next: None,
            }
        } else {
            JobDoneView {
                lines: seq!["'"@ + target.branch@ + "' was rejected by "@ + target.remote@],
                next: Some(
                    FollowupView::OfferForcePush {
                        branch: target.branch@,
                        remote: target.remote@,
                    },
                ),
            }
        }),
{
    match o {
        PushOutcome::Pushed => {
            let lines = vec![
                cat4("Pushed '", target.branch.as_str(), "' to ", target.remote.as_str()),
            ];
            assert(lines.deep_view() =~= seq![
                "Pushed '"@ + target.branch@ + "' to "@ + target.remote@,
            ]);
            JobDone::lines(lines)
        },
        PushOutcome::Rejected { .. } => {
            let lines = vec![
                cat4("'", target.branch.as_str(), "' was rejected by ", target.remote.as_str()),
            ];
            assert(lines.deep_view() =~= seq![
                "'"@ + target.branch@ + "' was rejected by "@ + target.remote@,
            ]);
            JobDone::with_next(
                lines,
                Followup::OfferForcePush {
                    branch: target.branch.clone(),
                    remote: target.remote.clone(),
                },
            )
        },
    }
}

/// What a pull comes to.
pub fn pull_done() -> (r: JobDone)
    ensures
        r.deep_view() == (JobDoneView { lines: seq!["up to date"@], next: None }),
{
    let said = vec!["up to date".to_owned()];
    assert(said.deep_view() =~= seq!["up to date"@]);
    JobDone::lines(said)
}

/// What a fetch from a remote comes to.
pub fn fetch_done(remote: &str) -> (r: JobDone)
    ensures
        r.deep_view() == (JobDoneView { lines: seq!["fetched "@ + remote@], next: None }),
{
    let said = vec![cat("fetched ", remote)];
    assert(said.deep_view() =~= seq!["fetched "@ + remote@]);
    JobDone::lines(said)
}

/// What creating a roll comes to: the new branch is selected next.
pub fn create_done(branch: &str) -> (r: JobDone)
    ensures
        r.deep_view() == (JobDoneView {
            lines: seq!["Created "@ + branch@],
            next: Some(FollowupView::SelectBranch(branch@)),
        }),
{
    let said = vec![cat("Created ", branch)];
    assert(said.deep_view() =~= seq!["Created "@ + branch@]);
    JobDone::with_next(said, Followup::SelectBranch(owned(branch)))
}

/// What the panel says of a raised version.
pub fn bump_done(from: Semver, to: Semver, level: BumpLevel, branch: &str) -> (r: String)
    ensures
        r@ == "Bumped "@ + from.text() + " → "@ + to.text() + " ("@ + level.text() + ") on '"@
            + branch@ + "'"@,
{
    let a = from.to_string();
    let b = to.to_string();
    let c = level.to_string();
    let front = cat5("Bumped ", a.as_str(), " → ", b.as_str(), " (");
    cat5(front.as_str(), c.as_str(), ") on '", branch, "'")
}

// ── Verifying ───────────────────────────────────────────────────────────────

/// What a verification came to.
#[derive(Debug)]
pub struct VerifyOutcome {
    pub source: String,
    pub target: String,
    pub diverged_note: bool,
    pub version: VersionCheck,
    pub gate_notices: Vec<GateNotice>,
    pub host_results: Vec<HostResult>,
    pub host_notices: Vec<GateNotice>,
    pub failed_hosts: Vec<String>,
}

/// [`VerifyOutcome`] by its characters.
pub struct VerifyOutcomeView {
    pub source: Seq<char>,
    pub target: Seq<char>,
    pub diverged_note: bool,
    pub version: VersionCheck,
    pub gate_notices: Seq<GateNoticeView>,
    pub host_results: Seq<HostResultView>,
    pub host_notices: Seq<GateNoticeView>,
    pub failed_hosts: Seq<Seq<char>>,
}

impl DeepView for VerifyOutcome {
    type V = VerifyOutcomeView;

    open spec fn deep_view(&self) -> VerifyOutcomeView {
        VerifyOutcomeView {
            source: self.source@,
            target: self.target@,
            diverged_note: self.diverged_note,
            version: self.version,
            gate_notices: self.gate_notices.deep_view(),
            host_results: self.host_results.deep_view(),
            host_notices: self.host_notices.deep_view(),
            failed_hosts: self.failed_hosts.deep_view(),
        }
    }
}

/// The note about a target that has commits of its own.
pub open spec fn diverged_line(o: VerifyOutcomeView) -> Option<Seq<char>> {
    if o.diverged_note {
        Some(
            "note: '"@ + o.target + "' has commits not in '"@ + o.source
                + "'; graduation/promotion will create a --no-ff merge"@,
        )
    } else {
        None
    }
}

/// Everything that is reported of a verification before its verdict.
pub open spec fn verify_lines(o: VerifyOutcomeView) -> Seq<OutLineView> {
    as_out(maybe(diverged_line(o))) + as_out(
        maybe(version_line_of(o.version, o.source, o.target)),
    ) + notice_lines(o.gate_notices) + notice_lines(o.host_notices) + as_out(
        host_lines(o.host_results),
    )
}

/// Why a verification fails; none where it passes. A rehearsal does not enforce
/// the version.
pub open spec fn verify_failure(o: VerifyOutcomeView, dry_run: bool) -> Option<Seq<char>> {
    if o.failed_hosts.len() > 0 {
        Some("host verification failed: "@ + joined(o.failed_hosts, ", "@))
    } else if !dry_run && !(o.version.status is Raised || o.version.status is NotApplicable) {
        Some(gate_refusal(o.version, o.source, o.target))
    } else {
        None
    }
}

/// The verdict of a verification that passes.
pub open spec fn verify_passed(o: VerifyOutcomeView) -> Seq<char> {
    "Verification passed: "@ + o.source + " -> "@ + o.target
}

fn say_diverged(o: &VerifyOutcome) -> (r: Option<String>)
    ensures
        r.deep_view() == diverged_line(o.deep_view()),
{
    if o.diverged_note {
        Some(
            cat5(
                "note: '",
                o.target.as_str(),
                "' has commits not in '",
                o.source.as_str(),
                "'; graduation/promotion will create a --no-ff merge",
            ),
        )
    } else {
        None
    }
}

/// What is reported of a verification, and why it fails if it does.
pub fn render_verify(o: &VerifyOutcome, dry_run: bool) -> (r: (Vec<OutLine>, Option<Failure>))
    ensures
        match verify_failure(o.deep_view(), dry_run) {
            Some(why) => r.0.deep_view() == verify_lines(o.deep_view()) && (r.1 matches Some(e)
                && e.deep_view() == seq![why]),
            None => r.0.deep_view() == verify_lines(o.deep_view()).push(
                OutLineView::Out(verify_passed(o.deep_view())),
            ) && r.1 is None,
        },
{
    let mut r = to_out(one_or_none(say_diverged(o)));
    let version = render_version_check(&o.version, o.source.as_str(), o.target.as_str());
    extend_out(&mut r, to_out(one_or_none(version)));
    extend_out(&mut r, render_gate_notices(&o.gate_notices));
    extend_out(&mut r, render_gate_notices(&o.host_notices));
    extend_out(&mut r, to_out(render_host_results(&o.host_results)));
    assert(o.failed_hosts.deep_view().len() == o.failed_hosts@.len());
    if !o.failed_hosts.is_empty() {
        let names = join(&o.failed_hosts, ", ");
        let why = Failure::msg(cat("host verification failed: ", names.as_str()));
        return (r, Some(why));
    }
    if !dry_run && !o.version.is_satisfied() {
        let why = version_gate_error(&o.version, o.source.as_str(), o.target.as_str());
        return (r, Some(why));
    }
    let ghost before = r.deep_view();
    let last = cat4("Verification passed: ", o.source.as_str(), " -> ", o.target.as_str());
    let ghost view = last@;
    r.push(OutLine::Out(last));
    assert(r.deep_view() =~= before.push(OutLineView::Out(view)));
    (r, None)
}

/// What the panel says of a verification that passes.
pub open spec fn panel_verify(o: VerifyOutcomeView) -> Seq<Seq<char>> {
    maybe(diverged_line(o)) + maybe(version_line_of(o.version, o.source, o.target)) + texts_of(
        notice_lines(o.gate_notices),
    ) + texts_of(notice_lines(o.host_notices)) + host_lines(o.host_results) + seq![
        verify_passed(o),
    ]
}

/// Why the panel's verification fails: where the version blocks, with the key
/// that mends it.
pub open spec fn panel_verify_failure(o: VerifyOutcomeView) -> Option<Seq<char>> {
    match verify_failure(o, false) {
        None => None,
        Some(why) => if o.failed_hosts.len() > 0 {
            Some(why)
        } else {
            Some(why + "\npress [b] to bump the version on '"@ + o.source + "'"@)
        },
    }
}

/// What the panel says of a verification, or why it failed.
pub fn run_verify(o: &VerifyOutcome) -> (r: Result<Vec<String>, Failure>)
    ensures
        outcome(r) == (match panel_verify_failure(o.deep_view()) {
            Some(why) => Err(seq![why]),
            None => Ok(panel_verify(o.deep_view())),
        }),
{
    let mut r = one_or_none(say_diverged(o));
    let version = render_version_check(&o.version, o.source.as_str(), o.target.as_str());
    extend(&mut r, one_or_none(version));
    push_gate_notices(&mut r, &o.gate_notices);
    push_gate_notices(&mut r, &o.host_notices);
    push_host_results(&mut r, &o.host_results);
    assert(o.failed_hosts.deep_view().len() == o.failed_hosts@.len());
    if !o.failed_hosts.is_empty() {
        let names = join(&o.failed_hosts, ", ");
        return Err(Failure::msg(cat("host verification failed: ", names.as_str())));
    }
    if !o.version.is_satisfied() {
        let why = version_gate_error(&o.version, o.source.as_str(), o.target.as_str());
        let text = why.to_string();
        return Err(
            Failure::msg(
                cat4(
                    text.as_str(),
                    "\npress [b] to bump the version on '",
                    o.source.as_str(),
                    "'",
                ),
            ),
        );
    }
    let ghost before = r.deep_view();
    let last = cat4("Verification passed: ", o.source.as_str(), " -> ", o.target.as_str());
    let ghost view = last@;
    r.push(last);
    assert(r.deep_view() =~= before + seq![view]);
    Ok(r)
}

// ── Laws ────────────────────────────────────────────────────────────────────

/// Every roll that needed no promotion is reported.
pub proof fn law_skipped_rolls_are_reported(o: PromoteOutcomeView, i: int)
    requires
        0 <= i < o.skipped.len(),
    ensures
        promote_lines(o).contains(OutLineView::Out(skip_line(o.skipped[i]))),
{
    let at = steps_lines(o, o.steps.len()).len() + i;
    assert(promote_lines(o)[at as int] == OutLineView::Out(skip_line(o.skipped[i])));
}

/// A verification fails exactly where a host failed or the version blocks.
pub proof fn law_verification_fails_for_a_reason(o: VerifyOutcomeView)
    ensures
        verify_failure(o, false) is None <==> o.failed_hosts.len() == 0 && (
        o.version.status is Raised || o.version.status is NotApplicable),
{
}

/// The operation that an action stands for is about the roll it was confirmed for;
/// without one only what is about no single roll is run. Nothing is deleted by
/// force, and tidying stays off the remote.
pub proof fn law_actions_run_their_operation(action: Action, target: Option<Seq<char>>)
    ensures
        ({
            let call = op_call(action, target);
            &&& call is None <==> (action is Graduate || action is Integrate) && target is None
            &&& action is Graduate && target is Some ==> call == Some(
                OpCallView::Graduate { roll: target->0 },
            )
            &&& action is Integrate && target is Some ==> call == Some(
                OpCallView::Integrate { branch: target->0 },
            )
            &&& action is Promote && target is Some ==> call == Some(
                OpCallView::PromoteRoll { roll: target->0 },
            )
            &&& action is Promote && target is None ==> call == Some(OpCallView::PromoteRolling)
            &&& action is Update ==> call == Some(OpCallView::Update)
            &&& action is Prune ==> (call matches Some(OpCallView::Prune(scope)) && scope.local
                && scope.remote && !scope.force && scope.fetch)
            &&& action is Tidy ==> (call matches Some(OpCallView::Tidy(scope)) && scope.local
                && !scope.remote && !scope.force)
        }),
{
}

/// Only what merges into rolling or stable starts from a clean working tree.
pub proof fn law_merges_up_start_clean(call: OpCallView)
    ensures
        call is Graduate || call is PromoteRoll || call is PromoteRolling ==> starts_clean(call),
        call is Integrate || call is Update || call is Prune || call is Tidy ==> !starts_clean(call),
{
}

/// A number stands for the first roll that has it, and for nothing where none does;
/// whatever is no number names a branch itself. `k` is the place of that roll, or
/// the number of the rolls where there is none.
pub proof fn law_numbers_stand_for_rolls(rolls: Seq<RollView>, n: u32, k: int, arg: Seq<char>)
    requires
        0 <= k <= rolls.len(),
        k < rolls.len() ==> rolls[k].number == n,
        forall|j: int| 0 <= j < k ==> (#[trigger] rolls[j]).number != n,
    ensures
        k < rolls.len() ==> integrate_branch(decimal(n as nat), rolls) == Ok::<
            Seq<char>,
            Seq<Seq<char>>,
        >(rolls[k].branch),
        k == rolls.len() ==> integrate_branch(decimal(n as nat), rolls) is Err,
        number_in(arg, u32::MAX as nat) is None ==> integrate_branch(arg, rolls) == Ok::<
            Seq<char>,
            Seq<Seq<char>>,
        >(arg),
{
    law_decimal_reads_back(n as nat, u32::MAX as nat);
    law_rolls_are_found_by_number(rolls, n, k);
}

/// Of the branches that were to be deleted, those with an error count as failed and
/// no others.
pub proof fn law_failures_are_counted(results: Seq<PruneResultView>)
    ensures
        failed_count(results) <= results.len(),
        failed_count(results) == 0 <==> forall|i: int|
            0 <= i < results.len() ==> (#[trigger] results[i]).errors.len() == 0,
        failed_count(results) == results.len() <==> forall|i: int|
            0 <= i < results.len() ==> (#[trigger] results[i]).errors.len() > 0,
    decreases results.len(),
{
    if results.len() > 0 {
        let rest = results.drop_last();
        law_failures_are_counted(rest);
        assert(forall|i: int| 0 <= i < rest.len() ==> #[trigger] rest[i] == results[i]);
        let last = results[results.len() - 1];
        if forall|i: int| 0 <= i < results.len() ==> (#[trigger] results[i]).errors.len() == 0 {
            assert(last.errors.len() == 0);
            assert forall|i: int| 0 <= i < rest.len() implies (#[trigger] rest[i]).errors.len()
                == 0 by {
                assert(results[i].errors.len() == 0);
            }
        }
        if failed_count(results) == 0 {
            assert forall|i: int| 0 <= i < results.len() implies (#[trigger] results[i]).errors.len()
                == 0 by {
                if i < rest.len() {
                    assert(rest[i].errors.len() == 0);
                }
            }
        }
        if forall|i: int| 0 <= i < results.len() ==> (#[trigger] results[i]).errors.len() > 0 {
            assert(last.errors.len() > 0);
            assert forall|i: int| 0 <= i < rest.len() implies (#[trigger] rest[i]).errors.len()
                > 0 by {
                assert(results[i].errors.len() > 0);
            }
        }
        if failed_count(results) == results.len() {
            assert forall|i: int| 0 <= i < results.len() implies (#[trigger] results[i]).errors.len()
                > 0 by {
                if i < rest.len() {
                    assert(rest[i].errors.len() > 0);
                }
            }
        }
    }
}

/// A deletion is shown before it is made: every branch that would go has a line of
/// its own that says which copies, and every copy that stays has one that says why.
pub proof fn law_plans_show_every_branch(p: PrunePlanView, title: Seq<char>, i: int)
    ensures
        0 <= i < p.candidates.len() ==> plan_lines(p, title).contains(
            candidate_line(
                p.candidates[i],
                widest_bytes(candidate_names(p.candidates), 6),
            ),
        ),
        0 <= i < p.skipped.len() ==> skips_lines(p.skipped).contains(
            "  "@ + p.skipped[i].branch + ": "@ + p.skipped[i].reason,
        ),
        0 <= i < p.candidates.len() && p.candidates[i].delete_local && p.candidates[i].delete_remote
            ==> copies_text(p.candidates[i]) == "local + origin"@,
        0 <= i < p.candidates.len() && p.candidates[i].delete_local
            && !p.candidates[i].delete_remote ==> copies_text(p.candidates[i]) == "local"@,
        0 <= i < p.candidates.len() && !p.candidates[i].delete_local
            && p.candidates[i].delete_remote ==> copies_text(p.candidates[i]) == "origin"@,
{
    if 0 <= i < p.candidates.len() {
        let w = widest_bytes(candidate_names(p.candidates), 6);
        let lines = plan_lines(p, title);
        assert(lines[4 + i] == candidate_line(p.candidates[i], w));
    }
    if 0 <= i < p.skipped.len() {
        let lines = skips_lines(p.skipped);
        assert(lines[1 + i] == "  "@ + p.skipped[i].branch + ": "@ + p.skipped[i].reason);
    }
}

/// Every failure of a deletion is told as one, with its branch; only a branch
/// without any is told as deleted.
pub proof fn law_deletions_are_told(r: PruneResultView, i: int)
    ensures
        0 <= i < r.errors.len() ==> result_lines(r).contains(
            OutLineView::Error("failed to delete '"@ + r.branch + "': "@ + r.errors[i]),
        ),
        r.errors.len() == 0 ==> result_lines(r) == seq![
            OutLineView::Out("deleted '"@ + r.branch + "' ("@ + deleted_where(r) + ")"@),
        ],
        r.local_deleted && r.remote_deleted ==> deleted_where(r) == "local, origin"@,
        r.local_deleted && !r.remote_deleted ==> deleted_where(r) == "local"@,
        !r.local_deleted && r.remote_deleted ==> deleted_where(r) == "origin"@,
{
    let lines = result_lines(r);
    if 0 <= i < r.errors.len() {
        assert(lines[i] == OutLineView::Error(
            "failed to delete '"@ + r.branch + "': "@ + r.errors[i],
        ));
    }
    if r.errors.len() == 0 {
        assert(lines =~= seq![
            OutLineView::Out("deleted '"@ + r.branch + "' ("@ + deleted_where(r) + ")"@),
        ]);
    }
}

/// Every host that was verified has a line, which says that it failed exactly when
/// it has a failure.
pub proof fn law_hosts_are_told(results: Seq<HostResultView>, i: int)
    requires
        0 <= i < results.len(),
    ensures
        results[i].failures.len() == 0 ==> host_lines(results).contains(
            "  "@ + results[i].host + ": "@ + "PASSED"@,
        ),
        results[i].failures.len() > 0 ==> host_lines(results).contains(
            "  "@ + results[i].host + ": "@ + "FAILED"@,
        ),
        host_lines(results).len() == results.len() + 1,
{
    assert(host_lines(results)[i + 1] == host_line(results[i]));
}

/// A rehearsal of a verification does not enforce the version, but it does the
/// hosts.
pub proof fn law_rehearsals_leave_the_version(o: VerifyOutcomeView)
    ensures
        verify_failure(o, true) is None <==> o.failed_hosts.len() == 0,
        panel_verify_failure(o) is None <==> o.failed_hosts.len() == 0 && (
        o.version.status is Raised || o.version.status is NotApplicable),
{
}

} // verus!
