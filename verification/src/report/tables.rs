//! The tables of rolls, and the same as data.
use vstd::prelude::*;

use crate::branches::{format_roll_numbers, roll_numbers_text, BranchLocation, RollInfo, RollView};
use crate::config::Config;
use crate::num::{decimal, to_decimal};
use crate::ops::route::{PromotionReadinessData, ReadinessView};
use crate::report::lines::{name_width, widest_bytes};
use crate::seqs::{find_value, law_lookup_finds_the_first, lookup};
use crate::text::{
    cat, cat3, cat4, cat5, copy_nums, pad, pad_left, padded, padded_left, repeat, run_of,
};
use crate::tui::keymap::{column_width, widest};

verus! {

/// The header of the dependencies.
pub const DEPS_HDR: &'static str = "deps";

/// The header of the dependents.
pub const DEPENDANTS_HDR: &'static str = "dependants";

/// The header of the versions.
pub const VERSION_HDR: &'static str = "version";

/// The branches of rolls.
pub open spec fn branch_names(rolls: Seq<RollView>) -> Seq<Seq<char>> {
    Seq::new(rolls.len(), |i: int| rolls[i].branch)
}

/// The larger of two numbers.
pub open spec fn larger(a: nat, b: nat) -> nat {
    if a > b {
        a
    } else {
        b
    }
}

/// The width of the dependencies' column.
pub open spec fn deps_width(rolls: Seq<RollView>) -> nat {
    larger(
        widest(Seq::new(rolls.len(), |i: int| roll_numbers_text(rolls[i].deps))),
        DEPS_HDR@.len(),
    )
}

/// The width of the dependents' column.
pub open spec fn dependants_width(rolls: Seq<RollView>) -> nat {
    larger(
        widest(Seq::new(rolls.len(), |i: int| roll_numbers_text(rolls[i].dependents))),
        DEPENDANTS_HDR@.len(),
    )
}

/// The widths of the two dependency columns: the widest list, or the header.
pub fn dep_column_widths(rolls: &Vec<RollInfo>) -> (r: (usize, usize))
    ensures
        r.0 == deps_width(rolls.deep_view()),
        r.1 == dependants_width(rolls.deep_view()),
{
    let ghost all = rolls.deep_view();
    let mut deps: Vec<String> = Vec::new();
    let mut dependents: Vec<String> = Vec::new();
    let mut i: usize = 0;
    while i < rolls.len()
        invariant
            i <= rolls@.len(),
            all == rolls.deep_view(),
            deps@.len() == i,
            dependents@.len() == i,
            forall|k: int| 0 <= k < i ==> (#[trigger] deps@[k])@ == roll_numbers_text(all[k].deps),
            forall|k: int|
                0 <= k < i ==> (#[trigger] dependents@[k])@ == roll_numbers_text(
                    all[k].dependents,
                ),
        decreases rolls@.len() - i,
    {
        assert(all[i as int] == rolls@[i as int].deep_view());
        deps.push(format_roll_numbers(&rolls[i].deps));
        dependents.push(format_roll_numbers(&rolls[i].dependents));
        i += 1;
    }
    assert(deps.deep_view() =~= Seq::new(all.len(), |i: int| roll_numbers_text(all[i].deps)));
    assert(dependents.deep_view() =~= Seq::new(
        all.len(),
        |i: int| roll_numbers_text(all[i].dependents),
    ));
    let a = column_width(&deps);
    let b = column_width(&dependents);
    let ha = DEPS_HDR.unicode_len();
    let hb = DEPENDANTS_HDR.unicode_len();
    let wa = if a > ha {
        a
    } else {
        ha
    };
    let wb = if b > hb {
        b
    } else {
        hb
    };
    (wa, wb)
}

fn names_of(rolls: &Vec<RollInfo>) -> (r: Vec<String>)
    ensures
        r.deep_view() == branch_names(rolls.deep_view()),
{
    let ghost all = rolls.deep_view();
    let mut r: Vec<String> = Vec::new();
    let mut i: usize = 0;
    while i < rolls.len()
        invariant
            i <= rolls@.len(),
            all == rolls.deep_view(),
            r@.len() == i,
            forall|k: int| 0 <= k < i ==> (#[trigger] r@[k])@ == all[k].branch,
        decreases rolls@.len() - i,
    {
        assert(all[i as int] == rolls@[i as int].deep_view());
        r.push(rolls[i].branch.clone());
        i += 1;
    }
    assert(r.deep_view() =~= branch_names(all));
    r
}

/// The mark before the roll that is checked out.
pub open spec fn row_mark(is_current: bool) -> Seq<char> {
    if is_current {
        ">"@
    } else {
        " "@
    }
}

/// The two dependency cells of a row, where they are shown.
pub open spec fn deps_cells(r: RollView, shown: bool, width: nat) -> Seq<char> {
    if shown {
        "  "@ + padded(roll_numbers_text(r.deps), width) + "  "@ + roll_numbers_text(r.dependents)
    } else {
        ""@
    }
}

fn say_deps(r: &RollInfo, shown: bool, width: usize) -> (s: String)
    ensures
        s@ == deps_cells(r.deep_view(), shown, width as nat),
{
    if shown {
        let deps = format_roll_numbers(&r.deps);
        let padded_deps = pad(deps.as_str(), width);
        let dependents = format_roll_numbers(&r.dependents);
        cat4("  ", padded_deps.as_str(), "  ", dependents.as_str())
    } else {
        "".to_owned()
    }
}

/// The headers of the two dependency columns, where they are shown.
pub open spec fn deps_header(shown: bool, width: nat) -> Seq<char> {
    if shown {
        "  "@ + padded(DEPS_HDR@, width) + "  "@ + DEPENDANTS_HDR@
    } else {
        ""@
    }
}

fn say_deps_header(shown: bool, width: usize) -> (s: String)
    ensures
        s@ == deps_header(shown, width as nat),
{
    if shown {
        let h = pad(DEPS_HDR, width);
        cat4("  ", h.as_str(), "  ", DEPENDANTS_HDR)
    } else {
        "".to_owned()
    }
}

/// The rules below the headers of the dependency columns, where they are shown.
pub open spec fn deps_rule(shown: bool, width: nat, dependants: nat) -> Seq<char> {
    if shown {
        "  "@ + run_of('─', width) + "  "@ + run_of('─', dependants)
    } else {
        ""@
    }
}

fn say_deps_rule(shown: bool, width: usize, dependants: usize) -> (s: String)
    ensures
        s@ == deps_rule(shown, width as nat, dependants as nat),
{
    if shown {
        let a = repeat('─', width);
        let b = repeat('─', dependants);
        cat4("  ", a.as_str(), "  ", b.as_str())
    } else {
        "".to_owned()
    }
}

/// A row of the columns that every table has: number, name, location, state.
pub open spec fn row_cells(
    mark: Seq<char>,
    number: Seq<char>,
    number_width: nat,
    name: Seq<char>,
    name_width: nat,
    place: Seq<char>,
    state: Seq<char>,
    state_width: nat,
) -> Seq<char> {
    mark + " "@ + padded_left(number, number_width) + "  "@ + padded(name, name_width) + "  "@
        + padded(place, 3) + "  "@ + padded(state, state_width)
}

fn say_row(
    mark: &str,
    number: &str,
    number_width: usize,
    name: &str,
    name_width: usize,
    place: &str,
    state: &str,
    state_width: usize,
) -> (s: String)
    ensures
        s@ == row_cells(
            mark@,
            number@,
            number_width as nat,
            name@,
            name_width as nat,
            place@,
            state@,
            state_width as nat,
        ),
{
    let n = pad_left(number, number_width);
    let b = pad(name, name_width);
    let p = pad(place, 3);
    let st = pad(state, state_width);
    let front = cat5(mark, " ", n.as_str(), "  ", b.as_str());
    cat5(front.as_str(), "  ", p.as_str(), "  ", st.as_str())
}

// ── The list ────────────────────────────────────────────────────────────────

/// The width of the states in the list: that of `⛔ blocked` in bytes.
pub const LIST_STATE_WIDTH: usize = 11;

/// A row of the list.
pub open spec fn list_row(r: RollView, names: nat, deps: bool, dep_w: nat) -> Seq<char> {
    row_cells(
        row_mark(r.is_current),
        decimal(r.number as nat),
        3,
        r.branch,
        names,
        r.location.symbol_text(),
        r.state.label_text(),
        LIST_STATE_WIDTH as nat,
    ) + deps_cells(r, deps, dep_w)
}

/// The list of rolls.
pub open spec fn list_lines(rolls: Seq<RollView>, deps: bool) -> Seq<Seq<char>> {
    let names = widest_bytes(branch_names(rolls), 6);
    let dep_w = deps_width(rolls);
    if rolls.len() == 0 {
        seq!["(no roll branches)"@]
    } else {
        seq![
            row_cells(
                " "@,
                "#"@,
                3,
                "branch"@,
                names,
                "loc"@,
                "state"@,
                LIST_STATE_WIDTH as nat,
            ) + deps_header(deps, dep_w),
            "  ───  "@ + run_of('─', names) + "  ───  "@ + run_of('─', LIST_STATE_WIDTH as nat)
                + deps_rule(deps, dep_w, dependants_width(rolls)),
        ] + Seq::new(rolls.len(), |i: int| list_row(rolls[i], names, deps, dep_w))
    }
}

/// The list of rolls.
pub fn list_text(rolls: &Vec<RollInfo>, deps: bool) -> (r: Vec<String>)
    ensures
        r.deep_view() == list_lines(rolls.deep_view(), deps),
{
    let ghost all = rolls.deep_view();
    let ghost done = list_lines(all, deps);
    if rolls.is_empty() {
        let r = vec!["(no roll branches)".to_owned()];
        assert(r.deep_view() =~= done);
        return r;
    }
    let names = name_width(&names_of(rolls), 6);
    let (dep_w, dependant_w) = dep_column_widths(rolls);
    let head = say_row(" ", "#", 3, "branch", names, "loc", "state", LIST_STATE_WIDTH);
    let head_deps = say_deps_header(deps, dep_w);
    let name_rule = repeat('─', names);
    let state_rule = repeat('─', LIST_STATE_WIDTH);
    let dep_rule = say_deps_rule(deps, dep_w, dependant_w);
    let rule = cat5(
        "  ───  ",
        name_rule.as_str(),
        "  ───  ",
        state_rule.as_str(),
        dep_rule.as_str(),
    );
    let mut r = vec![cat(head.as_str(), head_deps.as_str()), rule];
    let mut i: usize = 0;
    assert(r.deep_view() =~= done.take(2));
    while i < rolls.len()
        invariant
            i <= rolls@.len(),
            all == rolls.deep_view(),
            all.len() > 0,
            done == list_lines(all, deps),
            names == widest_bytes(branch_names(all), 6),
            dep_w == deps_width(all),
            r.deep_view() == done.take(i + 2),
        decreases rolls@.len() - i,
    {
        let roll = &rolls[i];
        assert(all[i as int] == roll.deep_view());
        let mark = if roll.is_current {
            ">"
        } else {
            " "
        };
        let number = to_decimal(roll.number as u64);
        let row = say_row(
            mark,
            number.as_str(),
            3,
            roll.branch.as_str(),
            names,
            roll.location.symbol(),
            roll.state.label(),
            LIST_STATE_WIDTH,
        );
        let cells = say_deps(roll, deps, dep_w);
        let ghost before = r.deep_view();
        r.push(cat(row.as_str(), cells.as_str()));
        assert(done[i + 2] == list_row(all[i as int], names as nat, deps, dep_w as nat));
        assert(r.deep_view() =~= before.push(done[i + 2]));
        assert(before.push(done[i + 2]) =~= done.take(i + 3));
        i += 1;
    }
    assert(done.take(all.len() as int + 2) =~= done);
    r
}

// ── The status ──────────────────────────────────────────────────────────────

/// The width of the states in the status: that of `✓ graduated` in bytes.
pub const STATUS_STATE_WIDTH: usize = 13;

/// The numbers of rolls as text.
pub open spec fn number_texts(rolls: Seq<RollView>) -> Seq<Seq<char>> {
    Seq::new(rolls.len(), |i: int| decimal(rolls[i].number as nat))
}

/// The width of the numbers.
pub open spec fn number_width(rolls: Seq<RollView>) -> nat {
    larger(widest(number_texts(rolls)), 1)
}

/// The width of the versions' column.
pub open spec fn version_width(versions: Seq<(Seq<char>, Seq<char>)>) -> nat {
    larger(widest(Seq::new(versions.len(), |i: int| versions[i].1)), VERSION_HDR@.len())
}

/// The version cell of a row, filled only where another column follows; nothing
/// where no branch has a version.
pub open spec fn version_cell(
    versions: Seq<(Seq<char>, Seq<char>)>,
    text: Seq<char>,
    followed: bool,
) -> Seq<char> {
    if versions.len() == 0 {
        ""@
    } else if followed {
        "  "@ + padded(text, version_width(versions))
    } else {
        "  "@ + text
    }
}

/// The version of a branch, or a dash.
pub open spec fn version_text(versions: Seq<(Seq<char>, Seq<char>)>, branch: Seq<char>) -> Seq<
    char,
> {
    match lookup(versions, branch) {
        Some(v) => v,
        None => "—"@,
    }
}

/// A row of the status table.
pub open spec fn status_row(
    r: RollView,
    rolls: Seq<RollView>,
    versions: Seq<(Seq<char>, Seq<char>)>,
    deps: bool,
) -> Seq<char> {
    row_cells(
        row_mark(r.is_current),
        decimal(r.number as nat),
        number_width(rolls),
        r.branch,
        widest_bytes(branch_names(rolls), 4),
        r.location.symbol_text(),
        r.state.label_text(),
        STATUS_STATE_WIDTH as nat,
    ) + version_cell(versions, version_text(versions, r.branch), deps) + deps_cells(
        r,
        deps,
        deps_width(rolls),
    )
}

/// The lines above the rows of the status table.
pub open spec fn status_head(
    rolls: Seq<RollView>,
    versions: Seq<(Seq<char>, Seq<char>)>,
    deps: bool,
) -> Seq<Seq<char>> {
    let names = widest_bytes(branch_names(rolls), 4);
    seq![
        row_cells(
            " "@,
            "#"@,
            number_width(rolls),
            "roll"@,
            names,
            "loc"@,
            "state"@,
            STATUS_STATE_WIDTH as nat,
        ) + version_cell(versions, VERSION_HDR@, deps) + deps_header(deps, deps_width(rolls)),
        "  "@ + run_of('─', number_width(rolls)) + "  "@ + run_of('─', names) + "  ───  "@
            + run_of('─', STATUS_STATE_WIDTH as nat) + (if versions.len() == 0 {
            ""@
        } else {
            "  "@ + run_of('─', version_width(versions))
        }) + deps_rule(deps, deps_width(rolls), dependants_width(rolls)),
    ]
}

/// The lines below the rows of the status table.
pub open spec fn status_foot(deps: bool) -> Seq<Seq<char>> {
    let legend = seq![""@, "  loc: L=local  R=remote  B=both"@];
    if deps {
        legend.push(
            "  deps: rolls this one integrated  |  dependants: rolls that integrated it"@,
        )
    } else {
        legend
    }
}

/// The status table. `versions` are the versions that branches declare; where
/// there is none, the column is left out.
pub open spec fn status_lines(
    rolls: Seq<RollView>,
    versions: Seq<(Seq<char>, Seq<char>)>,
    deps: bool,
) -> Seq<Seq<char>> {
    status_head(rolls, versions, deps) + Seq::new(
        rolls.len(),
        |i: int| status_row(rolls[i], rolls, versions, deps),
    ) + status_foot(deps)
}

/// How many digits a number has.
pub fn digits(n: u32) -> (r: usize)
    ensures
        r == decimal(n as nat).len(),
{
    let s = to_decimal(n as u64);
    s.as_str().unicode_len()
}

fn widest_number(rolls: &Vec<RollInfo>) -> (r: usize)
    ensures
        r == number_width(rolls.deep_view()),
{
    let ghost all = rolls.deep_view();
    let ghost texts = number_texts(all);
    let mut w: usize = 0;
    let mut i: usize = 0;
    while i < rolls.len()
        invariant
            i <= rolls@.len(),
            all == rolls.deep_view(),
            texts == number_texts(all),
            w == widest(texts.take(i as int)),
        decreases rolls@.len() - i,
    {
        assert(texts.take(i + 1).drop_last() =~= texts.take(i as int));
        assert(all[i as int] == rolls@[i as int].deep_view());
        let n = digits(rolls[i].number);
        if n > w {
            w = n;
        }
        i += 1;
    }
    assert(texts.take(texts.len() as int) =~= texts);
    if w > 1 {
        w
    } else {
        1
    }
}

fn widest_version(versions: &Vec<(String, String)>) -> (r: usize)
    ensures
        r == version_width(versions.deep_view()),
{
    let ghost all = versions.deep_view();
    let mut texts: Vec<String> = Vec::new();
    let mut i: usize = 0;
    while i < versions.len()
        invariant
            i <= versions@.len(),
            all == versions.deep_view(),
            texts@.len() == i,
            forall|k: int| 0 <= k < i ==> (#[trigger] texts@[k])@ == all[k].1,
        decreases versions@.len() - i,
    {
        assert(all[i as int] == versions@[i as int].deep_view());
        texts.push(versions[i].1.clone());
        i += 1;
    }
    assert(texts.deep_view() =~= Seq::new(all.len(), |i: int| all[i].1));
    let w = column_width(&texts);
    let h = VERSION_HDR.unicode_len();
    if w > h {
        w
    } else {
        h
    }
}

fn say_version(versions: &Vec<(String, String)>, text: &str, followed: bool) -> (s: String)
    ensures
        s@ == version_cell(versions.deep_view(), text@, followed),
{
    assert(versions.deep_view().len() == versions@.len());
    if versions.is_empty() {
        return "".to_owned();
    }
    if followed {
        let w = widest_version(versions);
        let t = pad(text, w);
        cat("  ", t.as_str())
    } else {
        cat("  ", text)
    }
}

/// Where a branch is, in a letter.
pub fn location_symbol(loc: &BranchLocation) -> (r: &'static str)
    ensures
        r@ == loc.symbol_text(),
{
    loc.symbol()
}

fn say_status_row(
    roll: &RollInfo,
    versions: &Vec<(String, String)>,
    deps: bool,
    num_w: usize,
    names: usize,
    dep_w: usize,
) -> (s: String)
    ensures
        s@ == row_cells(
            row_mark(roll.is_current),
            decimal(roll.number as nat),
            num_w as nat,
            roll.branch@,
            names as nat,
            roll.location.symbol_text(),
            roll.state.label_text(),
            STATUS_STATE_WIDTH as nat,
        ) + version_cell(
            versions.deep_view(),
            version_text(versions.deep_view(), roll.branch@),
            deps,
        ) + deps_cells(roll.deep_view(), deps, dep_w as nat),
{
    let mark = if roll.is_current {
        ">"
    } else {
        " "
    };
    let number = to_decimal(roll.number as u64);
    let row = say_row(
        mark,
        number.as_str(),
        num_w,
        roll.branch.as_str(),
        names,
        location_symbol(&roll.location),
        roll.state.label(),
        STATUS_STATE_WIDTH,
    );
    let version = match find_value(versions, roll.branch.as_str()) {
        Some(v) => v.clone(),
        None => "—".to_owned(),
    };
    let cell = say_version(versions, version.as_str(), deps);
    let cells = say_deps(roll, deps, dep_w);
    cat3(row.as_str(), cell.as_str(), cells.as_str())
}

/// The status table.
pub fn print_rolls_table(rolls: &Vec<RollInfo>, versions: &Vec<(String, String)>, show_deps: bool) -> (r:
    Vec<String>)
    ensures
        r.deep_view() == status_lines(rolls.deep_view(), versions.deep_view(), show_deps),
{
    let ghost all = rolls.deep_view();
    let ghost vv = versions.deep_view();
    let names = name_width(&names_of(rolls), 4);
    let num_w = widest_number(rolls);
    let (dep_w, dependant_w) = dep_column_widths(rolls);
    let head_row = say_row(" ", "#", num_w, "roll", names, "loc", "state", STATUS_STATE_WIDTH);
    let head_version = say_version(versions, VERSION_HDR, show_deps);
    let head_deps = say_deps_header(show_deps, dep_w);
    let number_rule = repeat('─', num_w);
    let name_rule = repeat('─', names);
    let state_rule = repeat('─', STATUS_STATE_WIDTH);
    assert(vv.len() == versions@.len());
    let version_rule = if versions.is_empty() {
        "".to_owned()
    } else {
        let w = widest_version(versions);
        let t = repeat('─', w);
        cat("  ", t.as_str())
    };
    let dep_rule = say_deps_rule(show_deps, dep_w, dependant_w);
    let front = cat5("  ", number_rule.as_str(), "  ", name_rule.as_str(), "  ───  ");
    let rule = cat4(
        front.as_str(),
        state_rule.as_str(),
        version_rule.as_str(),
        dep_rule.as_str(),
    );
    let mut r = vec![cat3(head_row.as_str(), head_version.as_str(), head_deps.as_str()), rule];
    let ghost head = status_head(all, vv, show_deps);
    assert(r.deep_view() =~= head);
    let ghost rows = Seq::new(all.len(), |i: int| status_row(all[i], all, vv, show_deps));
    let mut i: usize = 0;
    assert(r.deep_view() =~= head + rows.take(0));
    while i < rolls.len()
        invariant
            i <= rolls@.len(),
            all == rolls.deep_view(),
            vv == versions.deep_view(),
            names == widest_bytes(branch_names(all), 4),
            num_w == number_width(all),
            dep_w == deps_width(all),
            rows == Seq::new(all.len(), |i: int| status_row(all[i], all, vv, show_deps)),
            r.deep_view() == head + rows.take(i as int),
        decreases rolls@.len() - i,
    {
        assert(all[i as int] == rolls@[i as int].deep_view());
        let line = say_status_row(&rolls[i], versions, show_deps, num_w, names, dep_w);
        let ghost before = r.deep_view();
        r.push(line);
        assert(rows[i as int] == status_row(all[i as int], all, vv, show_deps));
        assert(r.deep_view() =~= before.push(rows[i as int]));
        assert(before.push(rows[i as int]) =~= head + rows.take(i + 1));
        i += 1;
    }
    assert(rows.take(rows.len() as int) =~= rows);
    r.push("".to_owned());
    r.push("  loc: L=local  R=remote  B=both".to_owned());
    if show_deps {
        r.push(
            "  deps: rolls this one integrated  |  dependants: rolls that integrated it".to_owned(),
        );
    }
    assert(r.deep_view() =~= status_lines(all, vv, show_deps));
    r
}

/// The two lines at the top of the status.
pub fn print_header(config: &Config, current_branch: &str) -> (r: Vec<String>)
    ensures
        r.deep_view() == seq![
            "=== Roll Flow Status ==="@,
            "Current: "@ + current_branch@ + "  |  Rolling: "@ + config.deep_view().rolling_branch
                + "  |  Stable: "@ + config.deep_view().stable_branch,
        ],
{
    let front = cat5(
        "Current: ",
        current_branch,
        "  |  Rolling: ",
        config.rolling_branch.as_str(),
        "  |  Stable: ",
    );
    let line = cat(front.as_str(), config.stable_branch.as_str());
    let ghost view = line@;
    let r = vec!["=== Roll Flow Status ===".to_owned(), line];
    assert(r.deep_view() =~= seq!["=== Roll Flow Status ==="@, view]);
    r
}

/// The line about the roll that is checked out. `graduated` and `diverged` say
/// how far it has come.
pub open spec fn current_line(roll: Option<Seq<char>>, graduated: bool, diverged: bool) -> Seq<char> {
    match roll {
        Some(r) => "✓ On roll: "@ + r + "  ["@ + (if graduated {
            if diverged {
                "graduated — ⚠ DIVERGED (has new commits since graduation)"@
            } else {
                "graduated — merged to rolling"@
            }
        } else {
            "active — not yet graduated"@
        }) + "]"@,
        None => "  (not on a roll branch)"@,
    }
}

/// The line about the roll that is checked out.
pub fn print_current_roll_line(roll: &Option<String>, graduated: bool, diverged: bool) -> (r:
    String)
    ensures
        r@ == current_line(roll.deep_view(), graduated, diverged),
{
    match roll {
        Some(x) => {
            let state = if graduated {
                if diverged {
                    "graduated — ⚠ DIVERGED (has new commits since graduation)"
                } else {
                    "graduated — merged to rolling"
                }
            } else {
                "active — not yet graduated"
            };
            cat5("✓ On roll: ", x.as_str(), "  [", state, "]")
        },
        None => "  (not on a roll branch)".to_owned(),
    }
}

// ── The same as data ────────────────────────────────────────────────────────

/// A roll as it is given to other programs.
#[derive(Debug)]
pub struct JsonRoll {
    pub branch: String,
    pub number: u32,
    pub state: String,
    pub location: String,
    pub is_current: bool,
    pub deps: Vec<u32>,
    pub dependants: Vec<u32>,
}

/// [`JsonRoll`] by its characters.
pub struct JsonRollView {
    pub branch: Seq<char>,
    pub number: u32,
    pub state: Seq<char>,
    pub location: Seq<char>,
    pub is_current: bool,
    pub deps: Seq<u32>,
    pub dependants: Seq<u32>,
}

impl DeepView for JsonRoll {
    type V = JsonRollView;

    open spec fn deep_view(&self) -> JsonRollView {
        JsonRollView {
            branch: self.branch@,
            number: self.number,
            state: self.state@,
            location: self.location@,
            is_current: self.is_current,
            deps: self.deps@,
            dependants: self.dependants@,
        }
    }
}

/// A roll as it is given to other programs.
pub open spec fn roll_data(r: RollView) -> JsonRollView {
    JsonRollView {
        branch: r.branch,
        number: r.number,
        state: r.state.label_text(),
        location: r.location.symbol_text(),
        is_current: r.is_current,
        deps: r.deps,
        dependants: r.dependents,
    }
}

/// The rolls as they are given to other programs.
pub fn rolls_for_json(rolls: &Vec<RollInfo>) -> (r: Vec<JsonRoll>)
    ensures
        r.deep_view() == Seq::new(rolls@.len(), |i: int| roll_data(rolls.deep_view()[i])),
{
    let ghost all = rolls.deep_view();
    let mut r: Vec<JsonRoll> = Vec::new();
    let mut i: usize = 0;
    while i < rolls.len()
        invariant
            i <= rolls@.len(),
            all == rolls.deep_view(),
            r@.len() == i,
            forall|k: int| 0 <= k < i ==> (#[trigger] r@[k]).deep_view() == roll_data(all[k]),
        decreases rolls@.len() - i,
    {
        let x = &rolls[i];
        assert(all[i as int] == x.deep_view());
        r.push(
            JsonRoll {
                branch: x.branch.clone(),
                number: x.number,
                state: x.state.label().to_owned(),
                location: x.location.symbol().to_owned(),
                is_current: x.is_current,
                deps: copy_nums(&x.deps),
                dependants: copy_nums(&x.dependents),
            },
        );
        assert(r@[i as int].deep_view() == roll_data(all[i as int]));
        i += 1;
    }
    assert(r.deep_view() =~= Seq::new(all.len(), |i: int| roll_data(all[i])));
    r
}

/// The status as it is given to other programs.
#[derive(Debug)]
pub struct StatusPayload {
    pub current_branch: String,
    pub detached_head: bool,
    pub tier: String,
    pub clean_working_tree: bool,
    pub pending_roll_branches: Vec<String>,
    pub promotion: PromotionReadinessData,
}

/// [`StatusPayload`] by its characters.
pub struct StatusPayloadView {
    pub current_branch: Seq<char>,
    pub detached_head: bool,
    pub tier: Seq<char>,
    pub clean_working_tree: bool,
    pub pending_roll_branches: Seq<Seq<char>>,
    pub promotion: ReadinessView,
}

impl DeepView for StatusPayload {
    type V = StatusPayloadView;

    open spec fn deep_view(&self) -> StatusPayloadView {
        StatusPayloadView {
            current_branch: self.current_branch@,
            detached_head: self.detached_head,
            tier: self.tier@,
            clean_working_tree: self.clean_working_tree,
            pending_roll_branches: self.pending_roll_branches.deep_view(),
            promotion: self.promotion.deep_view(),
        }
    }
}

/// The status as it is given to other programs.
pub fn status_payload(
    current: String,
    detached: bool,
    tier: String,
    clean: bool,
    rolls: &Vec<RollInfo>,
    promotion: PromotionReadinessData,
) -> (r: StatusPayload)
    ensures
        r.deep_view() == (StatusPayloadView {
            current_branch: current@,
            detached_head: detached,
            tier: tier@,
            clean_working_tree: clean,
            pending_roll_branches: branch_names(rolls.deep_view()),
            promotion: promotion.deep_view(),
        }),
{
    StatusPayload {
        current_branch: current,
        detached_head: detached,
        tier,
        clean_working_tree: clean,
        pending_roll_branches: names_of(rolls),
        promotion,
    }
}

// ── Laws ────────────────────────────────────────────────────────────────────

/// Every roll has a row in the list and in the status, in the order given.
pub proof fn law_tables_show_every_roll(
    rolls: Seq<RollView>,
    versions: Seq<(Seq<char>, Seq<char>)>,
    deps: bool,
    i: int,
)
    requires
        0 <= i < rolls.len(),
    ensures
        list_lines(rolls, deps)[i + 2] == list_row(
            rolls[i],
            widest_bytes(branch_names(rolls), 6),
            deps,
            deps_width(rolls),
        ),
        status_lines(rolls, versions, deps)[i + 2] == status_row(rolls[i], rolls, versions, deps),
{
}

/// The status shows the version that a branch declares, and a dash where it declares
/// none; without any version the column is left out. `k` is the first entry for the
/// branch, or the number of the entries where there is none.
pub proof fn law_declared_versions_are_shown(
    versions: Seq<(Seq<char>, Seq<char>)>,
    branch: Seq<char>,
    k: int,
    text: Seq<char>,
    followed: bool,
)
    requires
        0 <= k <= versions.len(),
        k < versions.len() ==> versions[k].0 == branch,
        forall|j: int| 0 <= j < k ==> (#[trigger] versions[j]).0 != branch,
    ensures
        k < versions.len() ==> version_text(versions, branch) == versions[k].1,
        k == versions.len() ==> version_text(versions, branch) == "—"@,
        versions.len() == 0 ==> version_cell(versions, text, followed) == ""@,
{
    law_lookup_finds_the_first(versions, branch, k);
}

/// A roll is given to other programs as it is: its branch, number and place, and
/// what it depends on and what depends on it, each in its own field.
pub proof fn law_rolls_are_given_as_they_are(r: RollView)
    ensures
        ({
            let d = roll_data(r);
            &&& d.branch == r.branch && d.number == r.number && d.is_current == r.is_current
            &&& d.deps == r.deps && d.dependants == r.dependents
            &&& d.state == r.state.label_text() && d.location == r.location.symbol_text()
        }),
{
}

/// The line about the checked-out roll tells the three ways in which it may stand
/// apart, and names it.
pub proof fn law_the_current_roll_is_told(roll: Seq<char>)
    ensures
        current_line(Some(roll), false, false) == current_line(Some(roll), false, true),
        current_line(Some(roll), false, false) != current_line(Some(roll), true, false),
        current_line(Some(roll), true, false) != current_line(Some(roll), true, true),
        current_line(Some(roll), true, true) == "✓ On roll: "@ + roll + "  ["@
            + "graduated — ⚠ DIVERGED (has new commits since graduation)"@ + "]"@,
{
    reveal_strlit("graduated — ⚠ DIVERGED (has new commits since graduation)");
    reveal_strlit("graduated — merged to rolling");
    reveal_strlit("active — not yet graduated");
    let a = current_line(Some(roll), false, false);
    let g = current_line(Some(roll), true, false);
    let d = current_line(Some(roll), true, true);
    assert(a.len() != g.len());
    assert(g.len() != d.len());
}

} // verus!
