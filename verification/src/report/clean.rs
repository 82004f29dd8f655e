//! What a clean prints.
use vstd::prelude::*;

use crate::clean::{
    count_up_to, dropped_refs, CleanBaseView, CleanItem, CleanItemView, CleanOutcome,
    CleanOutcomeView, CleanResult, CleanResultView, CleanSkip, CleanSkipView, PrunedRemote,
    PrunedRemoteView,
};
use crate::num::{decimal, to_decimal};
use crate::proc::{OutLine, OutLineView};
use crate::report::lines::{extend_out, name_width, widest_bytes};
use crate::text::{cat, cat3, cat4, cat5, owned, pad, padded, repeat, run_of};
use crate::tui::view::{branch_ending, branches_ending};

verus! {

// ── What the fetches dropped ────────────────────────────────────────────────

/// The warnings about remotes that could not be fetched from.
pub open spec fn fetch_warnings(pruned: Seq<PrunedRemoteView>) -> Seq<OutLineView>
    decreases pruned.len(),
{
    if pruned.len() == 0 {
        seq![]
    } else {
        let before = fetch_warnings(pruned.drop_last());
        match pruned.last().error {
            Some(err) => before.push(
                OutLineView::Error(
                    "warning: could not fetch '"@ + pruned.last().remote + "': "@ + err,
                ),
            ),
            None => before,
        }
    }
}

/// The references that were dropped, one to a line.
pub open spec fn dropped_lines(pruned: Seq<PrunedRemoteView>) -> Seq<OutLineView>
    decreases pruned.len(),
{
    if pruned.len() == 0 {
        seq![]
    } else {
        let removed = pruned.last().removed;
        dropped_lines(pruned.drop_last()) + Seq::new(
            removed.len(),
            |i: int| OutLineView::Out("  "@ + removed[i]),
        )
    }
}

/// How many references were dropped, as far as can be counted.
pub open spec fn dropped_total(o: CleanOutcomeView) -> nat {
    count_up_to(dropped_refs(o.pruned), usize::MAX as nat)
}

/// What is said of the fetches.
pub open spec fn prune_lines(o: CleanOutcomeView) -> Seq<OutLineView> {
    let total = dropped_total(o);
    fetch_warnings(o.pruned) + (if total == 0 {
        seq![]
    } else {
        seq![
            OutLineView::Out(
                "Pruned "@ + decimal(total) + " stale remote-tracking ref"@ + (if total == 1 {
                    ""@
                } else {
                    "s"@
                }) + ":"@,
            ),
        ] + dropped_lines(o.pruned) + seq![OutLineView::Out(""@)]
    })
}

fn say_warnings(pruned: &Vec<PrunedRemote>) -> (r: Vec<OutLine>)
    ensures
        r.deep_view() == fetch_warnings(pruned.deep_view()),
{
    let ghost all = pruned.deep_view();
    let mut r: Vec<OutLine> = Vec::new();
    let mut i: usize = 0;
    assert(r.deep_view() =~= fetch_warnings(all.take(0)));
    while i < pruned.len()
        invariant
            i <= pruned@.len(),
            all == pruned.deep_view(),
            r.deep_view() == fetch_warnings(all.take(i as int)),
        decreases pruned@.len() - i,
    {
        assert(all.take(i + 1).drop_last() =~= all.take(i as int));
        assert(all[i as int] == pruned@[i as int].deep_view());
        let ghost before = r.deep_view();
        match &pruned[i].error {
            Some(err) => {
                let line = cat4(
                    "warning: could not fetch '",
                    pruned[i].remote.as_str(),
                    "': ",
                    err.as_str(),
                );
                let ghost view = line@;
                r.push(OutLine::Error(line));
                assert(r.deep_view() =~= before.push(OutLineView::Error(view)));
            },
            None => {},
        }
        i += 1;
    }
    assert(all.take(all.len() as int) =~= all);
    r
}

fn say_dropped(pruned: &Vec<PrunedRemote>) -> (r: Vec<OutLine>)
    ensures
        r.deep_view() == dropped_lines(pruned.deep_view()),
{
    let ghost all = pruned.deep_view();
    let mut r: Vec<OutLine> = Vec::new();
    let mut i: usize = 0;
    assert(r.deep_view() =~= dropped_lines(all.take(0)));
    while i < pruned.len()
        invariant
            i <= pruned@.len(),
            all == pruned.deep_view(),
            r.deep_view() == dropped_lines(all.take(i as int)),
        decreases pruned@.len() - i,
    {
        assert(all.take(i + 1).drop_last() =~= all.take(i as int));
        assert(all[i as int] == pruned@[i as int].deep_view());
        let removed = &pruned[i].removed;
        let ghost rv = removed.deep_view();
        let ghost start = r.deep_view();
        let ghost added = Seq::new(rv.len(), |i: int| OutLineView::Out("  "@ + rv[i]));
        let mut k: usize = 0;
        assert(start + added.take(0) =~= start);
        while k < removed.len()
            invariant
                k <= removed@.len(),
                rv == removed.deep_view(),
                added == Seq::new(rv.len(), |i: int| OutLineView::Out("  "@ + rv[i])),
                r.deep_view() == start + added.take(k as int),
            decreases removed@.len() - k,
        {
            let ghost before = r.deep_view();
            assert(rv[k as int] == removed@[k as int]@);
            r.push(OutLine::Out(cat("  ", removed[k].as_str())));
            assert(r.deep_view() =~= before.push(added[k as int]));
            assert(before.push(added[k as int]) =~= start + added.take(k + 1));
            k += 1;
        }
        assert(added.take(added.len() as int) =~= added);
        i += 1;
    }
    assert(all.take(all.len() as int) =~= all);
    r
}

/// What is said of the fetches.
pub fn render_prune(o: &CleanOutcome) -> (r: Vec<OutLine>)
    ensures
        r.deep_view() == prune_lines(o.deep_view()),
{
    let mut r = say_warnings(&o.pruned);
    let total = o.pruned_count();
    if total == 0 {
        assert(r.deep_view() + Seq::<OutLineView>::empty() =~= r.deep_view());
        return r;
    }
    let n = to_decimal(total as u64);
    let ending = if total == 1 {
        ""
    } else {
        "s"
    };
    let head = vec![
        OutLine::Out(
            cat5("Pruned ", n.as_str(), " stale remote-tracking ref", ending, ":"),
        ),
    ];
    assert(head.deep_view() =~= seq![head@[0].deep_view()]);
    let mut rest = head;
    extend_out(&mut rest, say_dropped(&o.pruned));
    let ghost before = rest.deep_view();
    rest.push(OutLine::Out("".to_owned()));
    assert(rest.deep_view() =~= before + seq![OutLineView::Out(""@)]);
    extend_out(&mut r, rest);
    r
}

// ── Notes ───────────────────────────────────────────────────────────────────

/// A line that is there where `shown` says so.
pub open spec fn shown_line(shown: bool, line: OutLineView) -> Seq<OutLineView> {
    if shown {
        seq![line]
    } else {
        seq![]
    }
}

/// Whether a fetch failed.
pub open spec fn any_failed(pruned: Seq<PrunedRemoteView>) -> bool {
    exists|i: int| 0 <= i < pruned.len() && (#[trigger] pruned[i]).error is Some
}

/// What is said of the base.
pub open spec fn base_note(base: Option<CleanBaseView>, had_config: bool) -> Seq<OutLineView> {
    match base {
        Some(b) => shown_line(
            !had_config,
            OutLineView::Out(
                "note: base branch '"@ + b.name + "' ("@ + b.source.label_text() + ")"@,
            ),
        ),
        None => seq![
            OutLineView::Out(
                "note: no base branch found (try 'git remote set-head origin -a') — merged-branch cleanup skipped"@,
            ),
        ],
    }
}

/// What could not be looked at, and why.
pub open spec fn note_lines(o: CleanOutcomeView) -> Seq<OutLineView> {
    shown_line(
        !o.had_config,
        OutLineView::Out("note: no .roll-flow.toml — promoted-roll cleanup skipped"@),
    ) + shown_line(o.no_remotes, OutLineView::Out("note: no remotes configured"@)) + base_note(
        o.base,
        o.had_config,
    ) + shown_line(
        o.shallow,
        OutLineView::Error(
            "warning: shallow repository — merge detection may be incomplete"@,
        ),
    ) + shown_line(
        any_failed(o.pruned),
        OutLineView::Out("note: results reflect the last successful fetch"@),
    )
}

fn one_if(shown: bool, line: OutLine) -> (r: Vec<OutLine>)
    ensures
        r.deep_view() == shown_line(shown, line.deep_view()),
{
    let ghost view = line.deep_view();
    let mut r: Vec<OutLine> = Vec::new();
    if shown {
        r.push(line);
    }
    assert(r.deep_view() =~= shown_line(shown, view));
    r
}

fn a_fetch_failed(pruned: &Vec<PrunedRemote>) -> (r: bool)
    ensures
        r == any_failed(pruned.deep_view()),
{
    let ghost all = pruned.deep_view();
    let mut i: usize = 0;
    while i < pruned.len()
        invariant
            i <= pruned@.len(),
            all == pruned.deep_view(),
            forall|k: int| 0 <= k < i ==> (#[trigger] all[k]).error is None,
        decreases pruned@.len() - i,
    {
        assert(all[i as int] == pruned@[i as int].deep_view());
        if pruned[i].error.is_some() {
            return true;
        }
        i += 1;
    }
    false
}

/// What could not be looked at, and why.
pub fn render_notes(o: &CleanOutcome) -> (r: Vec<OutLine>)
    ensures
        r.deep_view() == note_lines(o.deep_view()),
{
    let mut r = one_if(
        !o.had_config,
        OutLine::Out("note: no .roll-flow.toml — promoted-roll cleanup skipped".to_owned()),
    );
    extend_out(
        &mut r,
        one_if(o.no_remotes, OutLine::Out("note: no remotes configured".to_owned())),
    );
    let base = match &o.base {
        Some(b) => {
            let text = cat5(
                "note: base branch '",
                b.name.as_str(),
                "' (",
                b.source.label(),
                ")",
            );
            one_if(!o.had_config, OutLine::Out(text))
        },
        None => one_if(
            true,
            OutLine::Out(
                "note: no base branch found (try 'git remote set-head origin -a') — merged-branch cleanup skipped".to_owned(),
            ),
        ),
    };
    extend_out(&mut r, base);
    extend_out(
        &mut r,
        one_if(
            o.shallow,
            OutLine::Error(
                "warning: shallow repository — merge detection may be incomplete".to_owned(),
            ),
        ),
    );
    let failed = a_fetch_failed(&o.pruned);
    extend_out(
        &mut r,
        one_if(
            failed,
            OutLine::Out("note: results reflect the last successful fetch".to_owned()),
        ),
    );
    r
}

// ── The plan ────────────────────────────────────────────────────────────────

/// Why a branch goes, with the commits that would be lost.
pub open spec fn why_text(item: CleanItemView) -> Seq<char> {
    match item.unmerged {
        Some(n) => if n > 0 {
            item.reason.label_text() + " ("@ + decimal(n as nat) + " commit"@ + (if n == 1 {
                ""@
            } else {
                "s"@
            }) + ")"@
        } else {
            item.reason.label_text()
        },
        None => item.reason.label_text(),
    }
}

/// Why a branch goes.
pub fn why_column(item: &CleanItem) -> (r: String)
    ensures
        r@ == why_text(item.deep_view()),
{
    match item.unmerged {
        Some(n) => {
            if n > 0 {
                let t = to_decimal(n as u64);
                let ending = if n == 1 {
                    ""
                } else {
                    "s"
                };
                let front = cat5(item.reason.label(), " (", t.as_str(), " commit", ending);
                return cat(front.as_str(), ")");
            }
        },
        None => {},
    }
    owned(item.reason.label())
}

/// Which copies go.
pub open spec fn which_copies(item: CleanItemView) -> Seq<char> {
    match item.remote {
        Some(remote) => if item.delete_remote {
            if item.delete_local {
                "local + "@ + remote
            } else {
                remote
            }
        } else {
            "local"@
        },
        None => "local"@,
    }
}

/// Which copies go.
pub fn copies_column(item: &CleanItem) -> (r: String)
    ensures
        r@ == which_copies(item.deep_view()),
{
    match &item.remote {
        Some(remote) => {
            if item.delete_remote {
                if item.delete_local {
                    cat("local + ", remote.as_str())
                } else {
                    remote.clone()
                }
            } else {
                "local".to_owned()
            }
        },
        None => "local".to_owned(),
    }
}

/// The names of the branches to delete.
pub open spec fn item_names(items: Seq<CleanItemView>) -> Seq<Seq<char>> {
    Seq::new(items.len(), |i: int| items[i].branch)
}

/// The reasons for deleting them.
pub open spec fn item_whys(items: Seq<CleanItemView>) -> Seq<Seq<char>> {
    Seq::new(items.len(), |i: int| why_text(items[i]))
}

/// The width of the reasons.
pub open spec fn why_width(items: Seq<CleanItemView>) -> nat {
    if items.len() == 0 {
        8
    } else {
        widest_bytes(item_whys(items), 3)
    }
}

/// The row of a branch to delete.
pub open spec fn item_line(item: CleanItemView, names: nat, whys: nat) -> Seq<char> {
    "  "@ + padded(item.branch, names) + "  "@ + padded(why_text(item), whys) + "  "@
        + which_copies(item)
}

/// The branches to delete, as a table.
pub open spec fn clean_plan_lines(items: Seq<CleanItemView>) -> Seq<Seq<char>> {
    let names = widest_bytes(item_names(items), 6);
    let whys = why_width(items);
    seq![
        "Branches to delete:"@,
        ""@,
        "  "@ + padded("branch"@, names) + "  "@ + padded("why"@, whys) + "  delete"@,
        "  "@ + run_of('─', names) + "  "@ + run_of('─', whys) + "  ──────"@,
    ] + Seq::new(items.len(), |i: int| item_line(items[i], names, whys))
}

/// The branches to delete, as a table.
pub fn render_plan(o: &CleanOutcome) -> (r: Vec<String>)
    ensures
        r.deep_view() == clean_plan_lines(o.deep_view().items),
{
    let items = &o.items;
    let ghost all = items.deep_view();
    let mut name_list: Vec<String> = Vec::new();
    let mut why_list: Vec<String> = Vec::new();
    let mut j: usize = 0;
    while j < items.len()
        invariant
            j <= items@.len(),
            all == items.deep_view(),
            name_list@.len() == j,
            why_list@.len() == j,
            forall|k: int| 0 <= k < j ==> (#[trigger] name_list@[k])@ == all[k].branch,
            forall|k: int| 0 <= k < j ==> (#[trigger] why_list@[k])@ == why_text(all[k]),
        decreases items@.len() - j,
    {
        assert(all[j as int] == items@[j as int].deep_view());
        name_list.push(items[j].branch.clone());
        why_list.push(why_column(&items[j]));
        j += 1;
    }
    assert(name_list.deep_view() =~= item_names(all));
    assert(why_list.deep_view() =~= item_whys(all));
    let names = name_width(&name_list, 6);
    let whys = if items.is_empty() {
        8
    } else {
        name_width(&why_list, 3)
    };
    let head_name = pad("branch", names);
    let head_why = pad("why", whys);
    let name_rule = repeat('─', names);
    let why_rule = repeat('─', whys);
    let mut r = vec![
        "Branches to delete:".to_owned(),
        "".to_owned(),
        cat5("  ", head_name.as_str(), "  ", head_why.as_str(), "  delete"),
        cat5("  ", name_rule.as_str(), "  ", why_rule.as_str(), "  ──────"),
    ];
    let ghost done = clean_plan_lines(all);
    let mut i: usize = 0;
    assert(r.deep_view() =~= done.take(4));
    while i < items.len()
        invariant
            i <= items@.len(),
            all == items.deep_view(),
            done == clean_plan_lines(all),
            names == widest_bytes(item_names(all), 6),
            whys == why_width(all),
            r.deep_view() == done.take(i + 4),
        decreases items@.len() - i,
    {
        assert(all[i as int] == items@[i as int].deep_view());
        let name = pad(items[i].branch.as_str(), names);
        let why = why_column(&items[i]);
        let why_cell = pad(why.as_str(), whys);
        let copies = copies_column(&items[i]);
        let front = cat5("  ", name.as_str(), "  ", why_cell.as_str(), "  ");
        let ghost before = r.deep_view();
        r.push(cat(front.as_str(), copies.as_str()));
        assert(done[i + 4] == item_line(all[i as int], names as nat, whys as nat));
        assert(r.deep_view() =~= before.push(done[i + 4]));
        assert(before.push(done[i + 4]) =~= done.take(i + 5));
        i += 1;
    }
    assert(done.take(all.len() as int + 4) =~= done);
    r
}

/// The branches that were left alone.
pub open spec fn clean_skip_lines(skipped: Seq<CleanSkipView>) -> Seq<Seq<char>> {
    if skipped.len() == 0 {
        seq![]
    } else {
        seq![""@, "Skipped:"@] + Seq::new(
            skipped.len(),
            |i: int| "  "@ + skipped[i].branch + ": "@ + skipped[i].reason,
        )
    }
}

/// The branches that were left alone.
pub fn render_skips(skipped: &Vec<CleanSkip>) -> (r: Vec<String>)
    ensures
        r.deep_view() == clean_skip_lines(skipped.deep_view()),
{
    let mut r: Vec<String> = Vec::new();
    let ghost all = skipped.deep_view();
    let ghost done = clean_skip_lines(all);
    if skipped.is_empty() {
        assert(r.deep_view() =~= done);
        return r;
    }
    r.push("".to_owned());
    r.push("Skipped:".to_owned());
    let mut i: usize = 0;
    assert(r.deep_view() =~= done.take(2));
    while i < skipped.len()
        invariant
            i <= skipped@.len(),
            all == skipped.deep_view(),
            all.len() > 0,
            done == clean_skip_lines(all),
            r.deep_view() == done.take(i + 2),
        decreases skipped@.len() - i,
    {
        let ghost before = r.deep_view();
        assert(all[i as int] == skipped@[i as int].deep_view());
        r.push(cat4("  ", skipped[i].branch.as_str(), ": ", skipped[i].reason.as_str()));
        assert(done[i + 2] == "  "@ + all[i as int].branch + ": "@ + all[i as int].reason);
        assert(r.deep_view() =~= before.push(done[i + 2]));
        assert(before.push(done[i + 2]) =~= done.take(i + 3));
        i += 1;
    }
    assert(done.take(all.len() as int + 2) =~= done);
    r
}

// ── Results ─────────────────────────────────────────────────────────────────

/// What is said of what failed about one branch.
pub open spec fn failure_part(r: CleanResultView) -> Seq<OutLineView> {
    if r.errors.len() == 0 {
        seq![]
    } else {
        seq![OutLineView::Error("warning: could not fully delete '"@ + r.branch + "'"@)]
            + Seq::new(r.errors.len(), |i: int| OutLineView::Error("  "@ + r.errors[i]))
    }
}

/// What is said of the copies of one branch that are gone.
pub open spec fn success_part(r: CleanResultView) -> Seq<OutLineView> {
    let copies = match (r.local_deleted, r.remote_deleted) {
        (true, true) => Some("local + remote"@),
        (true, false) => Some("local"@),
        (false, true) => Some("remote"@),
        (false, false) => None,
    };
    match copies {
        Some(c) => seq![OutLineView::Out("deleted '"@ + r.branch + "' ("@ + c + ")"@)],
        None => seq![],
    }
}

/// What is said of the first `n` branches.
pub open spec fn clean_results(results: Seq<CleanResultView>, n: nat) -> Seq<OutLineView>
    decreases n,
{
    if n == 0 {
        seq![]
    } else {
        clean_results(results, (n - 1) as nat) + failure_part(results[n - 1]) + success_part(
            results[n - 1],
        )
    }
}

/// How many branches lost a copy.
pub open spec fn cleaned_count(results: Seq<CleanResultView>) -> nat
    decreases results.len(),
{
    if results.len() == 0 {
        0
    } else {
        cleaned_count(results.drop_last()) + (if results.last().local_deleted
            || results.last().remote_deleted {
            1nat
        } else {
            0
        })
    }
}

/// How many branches could not be deleted in full.
pub open spec fn unclean_count(results: Seq<CleanResultView>) -> nat
    decreases results.len(),
{
    if results.len() == 0 {
        0
    } else {
        unclean_count(results.drop_last()) + (if results.last().errors.len() > 0 {
            1nat
        } else {
            0
        })
    }
}

/// What is said of a clean.
pub open spec fn clean_lines(results: Seq<CleanResultView>) -> Seq<OutLineView> {
    let n = cleaned_count(results);
    clean_results(results, results.len()) + (if n > 0 {
        seq![
            OutLineView::Out(""@),
            OutLineView::Out("Cleaned "@ + decimal(n) + " branch"@ + branch_ending(n)),
        ]
    } else {
        seq![]
    })
}

fn say_failure(res: &CleanResult) -> (r: Vec<OutLine>)
    ensures
        r.deep_view() == failure_part(res.deep_view()),
{
    let ghost rv = res.deep_view();
    let ghost done = failure_part(rv);
    let mut r: Vec<OutLine> = Vec::new();
    if res.errors.is_empty() {
        assert(r.deep_view() =~= done);
        return r;
    }
    r.push(
        OutLine::Error(cat3("warning: could not fully delete '", res.branch.as_str(), "'")),
    );
    let mut i: usize = 0;
    assert(r.deep_view() =~= done.take(1));
    while i < res.errors.len()
        invariant
            i <= res.errors@.len(),
            rv == res.deep_view(),
            rv.errors.len() > 0,
            done == failure_part(rv),
            r.deep_view() == done.take(i + 1),
        decreases res.errors@.len() - i,
    {
        let ghost before = r.deep_view();
        assert(rv.errors[i as int] == res.errors@[i as int]@);
        r.push(OutLine::Error(cat("  ", res.errors[i].as_str())));
        assert(done[i + 1] == OutLineView::Error("  "@ + rv.errors[i as int]));
        assert(r.deep_view() =~= before.push(done[i + 1]));
        assert(before.push(done[i + 1]) =~= done.take(i + 2));
        i += 1;
    }
    assert(done.take(rv.errors.len() as int + 1) =~= done);
    r
}

fn say_success(res: &CleanResult) -> (r: Vec<OutLine>)
    ensures
        r.deep_view() == success_part(res.deep_view()),
{
    let copies = if res.local_deleted {
        if res.remote_deleted {
            "local + remote"
        } else {
            "local"
        }
    } else {
        "remote"
    };
    let mut r: Vec<OutLine> = Vec::new();
    if res.local_deleted || res.remote_deleted {
        r.push(OutLine::Out(cat5("deleted '", res.branch.as_str(), "' (", copies, ")")));
    }
    assert(r.deep_view() =~= success_part(res.deep_view()));
    r
}

/// What is said of a clean, and how many branches could not be deleted in full.
pub fn render_results(results: &Vec<CleanResult>) -> (r: (Vec<OutLine>, usize))
    ensures
        r.0.deep_view() == clean_lines(results.deep_view()),
        r.1 == unclean_count(results.deep_view()),
{
    let ghost all = results.deep_view();
    let mut r: Vec<OutLine> = Vec::new();
    let mut failures: usize = 0;
    let mut cleaned: usize = 0;
    let mut i: usize = 0;
    assert(r.deep_view() =~= clean_results(all, 0));
    while i < results.len()
        invariant
            i <= results@.len(),
            failures <= i,
            cleaned <= i,
            all == results.deep_view(),
            r.deep_view() == clean_results(all, i as nat),
            failures == unclean_count(all.take(i as int)),
            cleaned == cleaned_count(all.take(i as int)),
        decreases results@.len() - i,
    {
        assert(all.take(i + 1).drop_last() =~= all.take(i as int));
        assert(all[i as int] == results@[i as int].deep_view());
        extend_out(&mut r, say_failure(&results[i]));
        extend_out(&mut r, say_success(&results[i]));
        if !results[i].errors.is_empty() {
            failures += 1;
        }
        if results[i].local_deleted || results[i].remote_deleted {
            cleaned += 1;
        }
        i += 1;
    }
    assert(all.take(all.len() as int) =~= all);
    let ghost before = r.deep_view();
    if cleaned > 0 {
        let n = to_decimal(cleaned as u64);
        let last = cat4("Cleaned ", n.as_str(), " branch", branches_ending(cleaned));
        r.push(OutLine::Out("".to_owned()));
        r.push(OutLine::Out(last));
    }
    assert(r.deep_view() =~= clean_lines(all));
    (r, failures)
}

/// What is said of branches that could not be deleted.
pub fn could_not_delete(failures: usize) -> (r: String)
    ensures
        r@ == decimal(failures as nat) + " branch"@ + branch_ending(failures as nat)
            + " could not be deleted"@,
{
    let n = to_decimal(failures as u64);
    cat4(n.as_str(), " branch", branches_ending(failures), " could not be deleted")
}

/// The copies that go are named: the local one, and the remote's with the name of
/// its remote where that goes too.
pub proof fn law_copies_are_named(item: CleanItemView)
    requires
        item.delete_local,
        item.delete_remote ==> item.remote is Some,
    ensures
        item.delete_remote ==> which_copies(item) == "local + "@ + item.remote->0,
        !item.delete_remote ==> which_copies(item) == "local"@,
{
}

/// A branch counts as cleaned exactly when a copy of it was deleted, and as failed
/// exactly when something went wrong with it: with nothing deleted the first count
/// is zero, and with no error the second is.
pub proof fn law_cleaned_branches_are_counted(results: Seq<CleanResultView>)
    ensures
        cleaned_count(results) <= results.len(),
        unclean_count(results) <= results.len(),
        cleaned_count(results) == 0 <==> forall|i: int|
            0 <= i < results.len() ==> !(#[trigger] results[i]).local_deleted
                && !results[i].remote_deleted,
        unclean_count(results) == 0 <==> forall|i: int|
            0 <= i < results.len() ==> (#[trigger] results[i]).errors.len() == 0,
    decreases results.len(),
{
    if results.len() > 0 {
        let rest = results.drop_last();
        law_cleaned_branches_are_counted(rest);
        assert(forall|i: int| 0 <= i < rest.len() ==> #[trigger] rest[i] == results[i]);
        let last = results[results.len() - 1];
        if forall|i: int|
            0 <= i < results.len() ==> !(#[trigger] results[i]).local_deleted
                && !results[i].remote_deleted {
            assert(!last.local_deleted && !last.remote_deleted);
            assert forall|i: int| 0 <= i < rest.len() implies !(#[trigger] rest[i]).local_deleted
                && !rest[i].remote_deleted by {
                assert(!results[i].local_deleted);
            }
        }
        if cleaned_count(results) == 0 {
            assert forall|i: int| 0 <= i < results.len() implies !(
            #[trigger] results[i]).local_deleted && !results[i].remote_deleted by {
                if i < rest.len() {
                    assert(!rest[i].local_deleted);
                }
            }
        }
        if forall|i: int| 0 <= i < results.len() ==> (#[trigger] results[i]).errors.len() == 0 {
            assert(last.errors.len() == 0);
            assert forall|i: int| 0 <= i < rest.len() implies (#[trigger] rest[i]).errors.len()
                == 0 by {
                assert(results[i].errors.len() == 0);
            }
        }
        if unclean_count(results) == 0 {
            assert forall|i: int| 0 <= i < results.len() implies (#[trigger] results[i]).errors.len()
                == 0 by {
                if i < rest.len() {
                    assert(rest[i].errors.len() == 0);
                }
            }
        }
    }
}

/// How many commits a branch would lose is shown exactly where that is known and
/// not zero.
pub proof fn law_losses_are_shown(item: CleanItemView)
    ensures
        item.unmerged is None || item.unmerged == Some(0u32) ==> why_text(item)
            == item.reason.label_text(),
        item.unmerged is Some && item.unmerged->0 > 1 ==> why_text(item)
            == item.reason.label_text() + " ("@ + decimal(item.unmerged->0 as nat) + " commit"@
            + "s"@ + ")"@,
        item.unmerged == Some(1u32) ==> why_text(item) == item.reason.label_text() + " ("@
            + decimal(1) + " commit"@ + ""@ + ")"@,
{
}

} // verus!
