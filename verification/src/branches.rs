//! Roll branches: their numbers, their states and what they depend on.
use vstd::prelude::*;

use crate::num::{
    decimal, law_decimal_reads_back, lemma_decimal_value, number_in, parse_u32, to_decimal,
};
use crate::seqs::{
    find_value, has_num, kept, law_lookup_finds_the_first, law_ordered, law_rising, lemma_kept_contains, lemma_kept_ends,
    lemma_kept_step, lookup, ordered, rises, rising, sort_dedup, sort_dedup_texts,
};
use crate::text::{
    after_prefix, begins, cat, copy_nums, copy_opt, cut, digit, first_word, has_text, join, joined,
    law_cuts_are_at_the_first, leading_word, lemma_found_char, lemma_parts_cat, lemma_parts_single,
    lemma_pos_cat, lemma_trimmed_as_is, lines, lines_of, owned, parts_on, same, split_on,
    split_once, starts_with, strip_prefix, trim, trimmed, white,
};

verus! {

// ── Types ───────────────────────────────────────────────────────────────────

/// Where a branch exists.
#[derive(Debug, Clone, Copy, PartialEq, Eq, Structural)]
pub enum BranchLocation {
    Local,
    Remote,
    Both,
    Neither,
}

impl BranchLocation {
    /// The letter of the compact table.
    pub fn symbol(&self) -> (r: &'static str)
        ensures
            r@ == self.symbol_text(),
    {
        match self {
            BranchLocation::Local => "L",
            BranchLocation::Remote => "R",
            BranchLocation::Both => "B",
            BranchLocation::Neither => "-",
        }
    }

    /// The letter of the compact table.
    pub open spec fn symbol_text(self) -> Seq<char> {
        match self {
            BranchLocation::Local => "L"@,
            BranchLocation::Remote => "R"@,
            BranchLocation::Both => "B"@,
            BranchLocation::Neither => "-"@,
        }
    }

    /// The full word.
    pub open spec fn label_text(self) -> Seq<char> {
        match self {
            BranchLocation::Local => "local"@,
            BranchLocation::Remote => "remote"@,
            BranchLocation::Both => "both"@,
            BranchLocation::Neither => "none"@,
        }
    }

    /// The full word.
    pub fn label(&self) -> (r: &'static str)
        ensures
            r@ == self.label_text(),
    {
        match self {
            BranchLocation::Local => "local",
            BranchLocation::Remote => "remote",
            BranchLocation::Both => "both",
            BranchLocation::Neither => "none",
        }
    }

    /// The location of a branch that exists here and there or not.
    pub open spec fn at(local: bool, remote: bool) -> BranchLocation {
        match (local, remote) {
            (true, true) => BranchLocation::Both,
            (true, false) => BranchLocation::Local,
            (false, true) => BranchLocation::Remote,
            (false, false) => BranchLocation::Neither,
        }
    }

    /// The location of a branch that exists here and there or not.
    pub fn from_presence(local: bool, remote: bool) -> (r: BranchLocation)
        ensures
            r == BranchLocation::at(local, remote),
    {
        match (local, remote) {
            (true, true) => BranchLocation::Both,
            (true, false) => BranchLocation::Local,
            (false, true) => BranchLocation::Remote,
            (false, false) => BranchLocation::Neither,
        }
    }
}

/// How far a roll has come.
#[derive(Debug, Clone, Copy, PartialEq, Eq, Structural)]
pub enum RollState {
    /// Not yet merged to rolling.
    Active,
    /// Merged to rolling, with no new commits since.
    Graduated,
    /// Merged to rolling, with new commits since.
    Diverged,
    /// Merged to stable.
    Promoted,
    /// Active, with ungraduated dependencies.
    Blocked,
}

impl RollState {
    /// The state in words.
    pub open spec fn label_text(self) -> Seq<char> {
        match self {
            RollState::Active => "active"@,
            RollState::Graduated => "✓ graduated"@,
            RollState::Diverged => "⚠ diverged"@,
            RollState::Promoted => "✓ promoted"@,
            RollState::Blocked => "⛔ blocked"@,
        }
    }

    /// The state in words.
    pub fn label(&self) -> (r: &'static str)
        ensures
            r@ == self.label_text(),
    {
        match self {
            RollState::Active => "active",
            RollState::Graduated => "✓ graduated",
            RollState::Diverged => "⚠ diverged",
            RollState::Promoted => "✓ promoted",
            RollState::Blocked => "⛔ blocked",
        }
    }
}

/// One roll.
#[derive(Debug)]
pub struct RollInfo {
    pub branch: String,
    pub number: u32,
    pub state: RollState,
    pub location: BranchLocation,
    pub is_current: bool,
    /// The numbers of the rolls that this roll integrated.
    pub deps: Vec<u32>,
    /// The numbers of the rolls that integrated this roll.
    pub dependents: Vec<u32>,
    /// The roll's graduation merge on the rolling branch, if it has graduated.
    pub graduation_commit: Option<String>,
}

/// [`RollInfo`] by its characters and numbers.
pub struct RollView {
    pub branch: Seq<char>,
    pub number: u32,
    pub state: RollState,
    pub location: BranchLocation,
    pub is_current: bool,
    pub deps: Seq<u32>,
    pub dependents: Seq<u32>,
    pub graduation_commit: Option<Seq<char>>,
}

impl DeepView for RollInfo {
    type V = RollView;

    open spec fn deep_view(&self) -> RollView {
        RollView {
            branch: self.branch@,
            number: self.number,
            state: self.state,
            location: self.location,
            is_current: self.is_current,
            deps: self.deps@,
            dependents: self.dependents@,
            graduation_commit: self.graduation_commit.deep_view(),
        }
    }
}

impl RollInfo {
    /// A copy of the roll.
    pub fn copy(&self) -> (r: RollInfo)
        ensures
            r.deep_view() == self.deep_view(),
    {
        RollInfo {
            branch: self.branch.clone(),
            number: self.number,
            state: self.state,
            location: self.location,
            is_current: self.is_current,
            deps: copy_nums(&self.deps),
            dependents: copy_nums(&self.dependents),
            graduation_commit: copy_opt(&self.graduation_commit),
        }
    }
}

impl Clone for RollInfo {
    fn clone(&self) -> (r: RollInfo)
        ensures
            r.deep_view() == self.deep_view(),
    {
        self.copy()
    }
}

// ── Names and numbers ───────────────────────────────────────────────────────

/// A list of roll numbers as the tables show it: `2,3`.
pub open spec fn roll_numbers_text(nums: Seq<u32>) -> Seq<char> {
    joined(Seq::new(nums.len(), |i: int| decimal(nums[i] as nat)), ","@)
}

/// Renders a list of roll numbers.
pub fn format_roll_numbers(nums: &Vec<u32>) -> (r: String)
    ensures
        r@ == roll_numbers_text(nums@),
{
    let mut parts: Vec<String> = Vec::new();
    let mut i: usize = 0;
    while i < nums.len()
        invariant
            i <= nums@.len(),
            parts@.len() == i,
            forall|k: int| 0 <= k < i ==> (#[trigger] parts@[k])@ == decimal(nums@[k] as nat),
        decreases nums@.len() - i,
    {
        parts.push(to_decimal(nums[i] as u64));
        i += 1;
    }
    assert(parts.deep_view() =~= Seq::new(nums@.len(), |k: int| decimal(nums@[k] as nat)));
    join(&parts, ",")
}

/// The roll number in a branch name: the digits between the prefix and the
/// first dash.
pub open spec fn roll_number(branch: Seq<char>, prefix: Seq<char>) -> Option<u32> {
    match after_prefix(branch, prefix) {
        Some(rest) => match number_in(parts_on(rest, '-')[0], u32::MAX as nat) {
            Some(n) => Some(n as u32),
            None => None,
        },
        None => None,
    }
}

/// Reads the roll number in a branch name.
pub fn parse_roll_number(branch: &str, prefix: &str) -> (r: Option<u32>)
    ensures
        r == roll_number(branch@, prefix@),
{
    match strip_prefix(branch, prefix) {
        Some(rest) => {
            let parts = split_on(rest, '-');
            assert(parts.deep_view().len() >= 1);
            assert(parts.deep_view()[0] == parts@[0]@);
            parse_u32(parts[0].as_str())
        },
        None => None,
    }
}

/// The checked-out branch, if it is a roll branch.
pub fn get_current_roll(branch: &str, prefix: &str) -> (r: Option<String>)
    ensures
        r.deep_view() == (if begins(branch@, prefix@) {
            Some(branch@)
        } else {
            None
        }),
{
    if starts_with(branch, prefix) {
        Some(owned(branch))
    } else {
        None
    }
}

/// The reference to read a branch's content at: its own tip where there is a
/// local copy, the remote's where there is only that.
pub open spec fn content_name(branch: Seq<char>, location: BranchLocation) -> Seq<char> {
    if location is Remote {
        "origin/"@ + branch
    } else {
        branch
    }
}

/// The reference to read a branch's content at.
pub fn content_ref(branch: &str, location: &BranchLocation) -> (r: String)
    ensures
        r@ == content_name(branch@, *location),
{
    match location {
        BranchLocation::Remote => cat("origin/", branch),
        _ => owned(branch),
    }
}

// ── Merge subjects ──────────────────────────────────────────────────────────

/// The branch that a merge subject names. Three shapes are known: a local
/// `Merge branch '<branch>'`, the structured `Graduate <branch> ...`, and
/// `Merge pull request #<n> from <owner>/<branch>`.
pub open spec fn merged_branch(subject: Seq<char>) -> Option<Seq<char>> {
    if let Some(rest) = after_prefix(subject, "Merge branch '"@) {
        Some(parts_on(rest, '\'')[0])
    } else if let Some(rest) = after_prefix(subject, "Graduate "@) {
        leading_word(rest)
    } else if begins(subject, "Merge pull request #"@) {
        match cut(subject, " from "@) {
            Some((_, owner_branch)) => match cut(owner_branch, "/"@) {
                Some((_, branch)) => Some(trimmed(branch)),
                None => None,
            },
            None => None,
        }
    } else {
        None
    }
}

/// Reads the branch that a merge subject names.
pub fn extract_graduated_branch(subject: &str) -> (r: Option<String>)
    ensures
        r.deep_view() == merged_branch(subject@),
{
    if let Some(rest) = strip_prefix(subject, "Merge branch '") {
        let parts = split_on(rest, '\'');
        assert(parts.deep_view().len() >= 1);
        assert(parts.deep_view()[0] == parts@[0]@);
        Some(parts[0].clone())
    } else if let Some(rest) = strip_prefix(subject, "Graduate ") {
        match first_word(rest) {
            Some(w) => Some(owned(w)),
            None => None,
        }
    } else if starts_with(subject, "Merge pull request #") {
        match split_once(subject, " from ") {
            Some((_, owner_branch)) => match split_once(owner_branch, "/") {
                Some((_, branch)) => Some(owned(trim(branch))),
                None => None,
            },
            None => None,
        }
    } else {
        None
    }
}

/// Whether one of the subjects is a graduation of `roll_branch`.
pub open spec fn names_graduation(subjects: Seq<Seq<char>>, roll_branch: Seq<char>) -> bool {
    exists|i: int| 0 <= i < subjects.len() && merged_branch(#[trigger] subjects[i]) == Some(roll_branch)
}

/// Whether one of the subjects is a graduation of `roll_branch`.
pub fn subjects_contain_graduation(subjects: &Vec<String>, roll_branch: &str) -> (r: bool)
    ensures
        r == names_graduation(subjects.deep_view(), roll_branch@),
{
    let mut i: usize = 0;
    while i < subjects.len()
        invariant
            i <= subjects@.len(),
            forall|k: int|
                0 <= k < i ==> merged_branch(#[trigger] subjects.deep_view()[k]) != Some(
                    roll_branch@,
                ),
        decreases subjects@.len() - i,
    {
        assert(subjects.deep_view()[i as int] == subjects@[i as int]@);
        match extract_graduated_branch(subjects[i].as_str()) {
            Some(b) => {
                if same(b.as_str(), roll_branch) {
                    return true;
                }
            },
            None => {},
        }
        i += 1;
    }
    false
}

/// The hash and the branch on a line `<hash>\t<subject>` of a merge log.
pub open spec fn graduation_on(line: Seq<char>) -> Option<(Seq<char>, Seq<char>)> {
    match cut(line, "\t"@) {
        Some((hash, subject)) => match merged_branch(subject) {
            Some(branch) => Some((branch, hash)),
            None => None,
        },
        None => None,
    }
}

/// Reads a line of a merge log.
fn parse_graduation(line: &str) -> (r: Option<(String, String)>)
    ensures
        r.deep_view() == graduation_on(line@),
{
    match split_once(line, "\t") {
        Some((hash, subject)) => match extract_graduated_branch(subject) {
            Some(branch) => Some((branch, owned(hash))),
            None => None,
        },
        None => None,
    }
}

/// The merges of branches, newest first, that a merge log lists.
pub open spec fn graduations_in(log: Seq<char>) -> Seq<(Seq<char>, Seq<char>)> {
    kept(lines_of(log), |l: Seq<char>| graduation_on(l))
}

/// The merges that the first-parent log lists, and behind them those that the
/// full log lists. A log that could not be read counts as empty.
pub open spec fn graduation_records(
    first_parent: Option<Seq<char>>,
    full: Option<Seq<char>>,
) -> Seq<(Seq<char>, Seq<char>)> {
    let a = match first_parent {
        Some(t) => graduations_in(t),
        None => seq![],
    };
    let b = match full {
        Some(t) => graduations_in(t),
        None => seq![],
    };
    a + b
}

fn append_graduations(r: &mut Vec<(String, String)>, log: &str)
    ensures
        final(r).deep_view() == old(r).deep_view() + graduations_in(log@),
{
    let all = lines(log);
    let mut i: usize = 0;
    let ghost start = r.deep_view();
    let ghost f = |l: Seq<char>| graduation_on(l);
    proof {
        lemma_kept_ends(all.deep_view(), f);
    }
    assert(start + Seq::<(Seq<char>, Seq<char>)>::empty() =~= start);
    while i < all.len()
        invariant
            i <= all@.len(),
            f == (|l: Seq<char>| graduation_on(l)),
            r.deep_view() == start + kept(all.deep_view().take(i as int), f),
        decreases all@.len() - i,
    {
        proof {
            lemma_kept_step(all.deep_view(), i as int, f);
        }
        let ghost before = r.deep_view();
        let ghost done = kept(all.deep_view().take(i as int), f);
        assert(all.deep_view()[i as int] == all@[i as int]@);
        match parse_graduation(all[i].as_str()) {
            Some(g) => {
                let ghost v = g.deep_view();
                r.push(g);
                assert(r.deep_view() =~= before.push(v));
                assert(start + done.push(v) =~= before.push(v));
            },
            None => {},
        }
        i += 1;
    }
}

/// The arguments that print the merges of a branch, newest first, with their
/// hashes: those on its own line alone, or all of them.
pub fn merge_log_args(branch: &str, first_parent: bool) -> (r: Vec<String>)
    ensures
        r.deep_view() == (if first_parent {
            seq!["log"@, "--first-parent"@, "--merges"@, "--format=%H%x09%s"@, branch@]
        } else {
            seq!["log"@, "--merges"@, "--format=%H%x09%s"@, branch@]
        }),
{
    let mut r = vec!["log".to_owned()];
    if first_parent {
        r.push("--first-parent".to_owned());
    }
    r.push("--merges".to_owned());
    r.push("--format=%H%x09%s".to_owned());
    r.push(owned(branch));
    if first_parent {
        assert(r.deep_view() =~= seq![
            "log"@,
            "--first-parent"@,
            "--merges"@,
            "--format=%H%x09%s"@,
            branch@,
        ]);
    } else {
        assert(r.deep_view() =~= seq!["log"@, "--merges"@, "--format=%H%x09%s"@, branch@]);
    }
    r
}

/// The arguments that print the subjects of the merges which a roll itself made
/// behind `base`.
pub fn integration_log_args(base: &str, roll_ref: &str) -> (r: Vec<String>)
    ensures
        r.deep_view() == seq![
            "log"@,
            "--format=%s"@,
            "--first-parent"@,
            "--merges"@,
            base@ + ".."@ + roll_ref@,
        ],
{
    let range = commits_since(base, roll_ref);
    let r = vec![
        "log".to_owned(),
        "--format=%s".to_owned(),
        "--first-parent".to_owned(),
        "--merges".to_owned(),
        range,
    ];
    assert(r.deep_view() =~= seq![
        "log"@,
        "--format=%s"@,
        "--first-parent"@,
        "--merges"@,
        base@ + ".."@ + roll_ref@,
    ]);
    r
}

/// Maps each graduated branch to its graduation merge. The first-parent log
/// comes first: a merge on the rolling branch's own line is the graduation, and
/// only a branch without one takes its hash from the full log. Logs run newest
/// first, so a branch that graduated again maps to its latest graduation.
pub fn scan_graduated(first_parent: &Option<String>, full: &Option<String>) -> (r: Vec<
    (String, String),
>)
    ensures
        r.deep_view() == graduation_records(first_parent.deep_view(), full.deep_view()),
{
    let mut r: Vec<(String, String)> = Vec::new();
    let ghost none = Seq::<(Seq<char>, Seq<char>)>::empty();
    assert(r.deep_view() =~= none);
    match first_parent {
        Some(t) => {
            append_graduations(&mut r, t.as_str());
            assert(none + graduations_in(t@) =~= graduations_in(t@));
        },
        None => {},
    }
    let ghost a = r.deep_view();
    match full {
        Some(t) => append_graduations(&mut r, t.as_str()),
        None => {
            assert(a + none =~= a);
        },
    }
    r
}

/// The graduation merge of `branch`.
pub fn graduation_of(records: &Vec<(String, String)>, branch: &str) -> (r: Option<String>)
    ensures
        r.deep_view() == lookup(records.deep_view(), branch@),
{
    match find_value(records, branch) {
        Some(h) => Some(h.clone()),
        None => None,
    }
}

/// Finds the graduation merge of `roll_branch` in a merge log that may not have
/// been read.
pub fn find_graduation_commit(log: &Option<String>, roll_branch: &str) -> (r: Option<String>)
    ensures
        r.deep_view() == lookup(
            graduation_records(log.deep_view(), None),
            roll_branch@,
        ),
{
    let records = scan_graduated(log, &None);
    graduation_of(&records, roll_branch)
}

// ── Promotions ──────────────────────────────────────────────────────────────

/// The branch on a line of a promotion's body. The heading is none.
pub open spec fn attributed(line: Seq<char>) -> Option<Seq<char>> {
    let t = trimmed(line);
    if t.len() == 0 || t == "Rolls:"@ {
        None
    } else {
        Some(t)
    }
}

/// The branches that one commit on the stable branch marks as promoted: the
/// word behind `Promote ` and every line of that commit's body, or else the
/// branch that a merge subject names.
pub open spec fn marks_promoted(subject: Seq<char>, body: Seq<char>) -> Seq<Seq<char>> {
    if let Some(rest) = after_prefix(subject, "Promote "@) {
        let named = match leading_word(rest) {
            Some(w) => seq![w],
            None => seq![],
        };
        named + kept(lines_of(body), |l: Seq<char>| attributed(l))
    } else {
        match merged_branch(subject) {
            Some(b) => seq![b],
            None => seq![],
        }
    }
}

/// The branches that the commits on the stable branch mark as promoted.
pub open spec fn promoted_names(commits: Seq<(Seq<char>, Seq<char>)>) -> Seq<Seq<char>>
    decreases commits.len(),
{
    if commits.len() == 0 {
        seq![]
    } else {
        promoted_names(commits.drop_last()) + marks_promoted(commits.last().0, commits.last().1)
    }
}

fn append_promoted(r: &mut Vec<String>, subject: &str, body: &str)
    ensures
        final(r).deep_view() == old(r).deep_view() + marks_promoted(subject@, body@),
{
    let ghost start = r.deep_view();
    if let Some(rest) = strip_prefix(subject, "Promote ") {
        let ghost mut named = Seq::<Seq<char>>::empty();
        match first_word(rest) {
            Some(w) => {
                r.push(owned(w));
                proof {
                    named = seq![w@];
                }
                assert(r.deep_view() =~= start + named);
            },
            None => {
                assert(r.deep_view() =~= start + named);
            },
        }
        let all = lines(body);
        let mut i: usize = 0;
        let ghost f = |l: Seq<char>| attributed(l);
        proof {
            lemma_kept_ends(all.deep_view(), f);
            assert(start + named + Seq::<Seq<char>>::empty() =~= start + named);
        }
        while i < all.len()
            invariant
                i <= all@.len(),
                f == (|l: Seq<char>| attributed(l)),
                r.deep_view() == start + named + kept(all.deep_view().take(i as int), f),
            decreases all@.len() - i,
        {
            proof {
                lemma_kept_step(all.deep_view(), i as int, f);
            }
            let ghost before = r.deep_view();
            let ghost done = kept(all.deep_view().take(i as int), f);
            assert(all.deep_view()[i as int] == all@[i as int]@);
            let t = trim(all[i].as_str());
            if !t.is_empty() && !same(t, "Rolls:") {
                r.push(owned(t));
                assert(r.deep_view() =~= before.push(t@));
                assert(before.push(t@) =~= start + named + done.push(t@));
            }
            i += 1;
        }
        assert(start + named + kept(all.deep_view(), f) =~= start + (named + kept(
            all.deep_view(),
            f,
        )));
    } else {
        match extract_graduated_branch(subject) {
            Some(b) => {
                let ghost v = b@;
                r.push(b);
                assert(r.deep_view() =~= start + seq![v]);
            },
            None => {
                assert(r.deep_view() =~= start + Seq::<Seq<char>>::empty());
            },
        }
    }
}

/// Collects the branches that the log of the stable branch, given by subjects
/// and bodies, marks as promoted.
pub fn scan_promoted(commits: &Vec<(String, String)>) -> (r: Vec<String>)
    ensures
        r.deep_view() == promoted_names(commits.deep_view()),
{
    let mut r: Vec<String> = Vec::new();
    let mut i: usize = 0;
    let ghost all = commits.deep_view();
    assert(r.deep_view() =~= promoted_names(all.take(0)));
    while i < commits.len()
        invariant
            i <= commits@.len(),
            all == commits.deep_view(),
            r.deep_view() == promoted_names(all.take(i as int)),
        decreases commits@.len() - i,
    {
        assert(all.take(i + 1).drop_last() =~= all.take(i as int));
        append_promoted(&mut r, commits[i].0.as_str(), commits[i].1.as_str());
        i += 1;
    }
    assert(all.take(all.len() as int) =~= all);
    r
}

/// Whether the log of the stable branch marks the roll as promoted.
pub fn check_promoted(commits: &Vec<(String, String)>, roll_branch: &str) -> (r: bool)
    ensures
        r == promoted_names(commits.deep_view()).contains(roll_branch@),
{
    let names = scan_promoted(commits);
    has_text(&names, roll_branch)
}

/// Whether the roll has a graduation merge among the subjects on the rolling
/// branch; `None` where the rolling branch does not resolve.
pub fn check_graduated(subjects: &Option<Vec<String>>, roll_branch: &str) -> (r: bool)
    ensures
        r == (subjects matches Some(v) && names_graduation(v.deep_view(), roll_branch@)),
{
    match subjects {
        Some(v) => subjects_contain_graduation(v, roll_branch),
        None => false,
    }
}

/// The commit that the roll's branch was at when it graduated: the second
/// parent of its graduation merge.
pub fn tip_at_graduation(graduation: &str) -> (r: String)
    ensures
        r@ == graduation@ + "^2"@,
{
    cat(graduation, "^2")
}

/// The range of the commits that came after a graduation.
pub fn commits_since(tip: &str, roll_ref: &str) -> (r: String)
    ensures
        r@ == tip@ + ".."@ + roll_ref@,
{
    let a = cat(tip, "..");
    cat(a.as_str(), roll_ref)
}

/// Whether a count that git printed is above zero.
pub open spec fn positive_count(count: Option<Seq<char>>) -> bool {
    match count {
        Some(t) => match number_in(trimmed(t), u32::MAX as nat) {
            Some(n) => n > 0,
            None => false,
        },
        None => false,
    }
}

/// Whether a roll has commits behind its graduation: the graduation merge, the
/// tip at that merge and the roll itself must all resolve, and the count of the
/// commits since, as git printed it, must be above zero.
pub fn check_diverged(
    graduation: &Option<String>,
    tip: &Option<String>,
    roll_ref: &Option<String>,
    count: &Option<String>,
) -> (r: bool)
    ensures
        r == (graduation is Some && tip is Some && roll_ref is Some && positive_count(
            count.deep_view(),
        )),
{
    if graduation.is_none() || tip.is_none() || roll_ref.is_none() {
        return false;
    }
    match count {
        Some(t) => match parse_u32(trim(t.as_str())) {
            Some(n) => n > 0,
            None => false,
        },
        None => false,
    }
}

// ── Dependencies ────────────────────────────────────────────────────────────

/// The exclusive lower bound of a roll's own history: the stable branch, or,
/// once the roll has graduated, the rolling branch right before it landed.
pub open spec fn deps_base(graduation: Option<Seq<char>>, stable: Seq<char>) -> Seq<char> {
    match graduation {
        Some(sha) => sha + "^1"@,
        None => stable,
    }
}

/// The exclusive lower bound of a roll's own history.
pub fn deps_base_ref(graduation: &Option<String>, stable_ref: &str) -> (r: String)
    ensures
        r@ == deps_base(graduation.deep_view(), stable_ref@),
{
    match graduation {
        Some(sha) => cat(sha.as_str(), "^1"),
        None => owned(stable_ref),
    }
}

/// The roll number that an integration merge names, unless it is the roll's own.
pub open spec fn integrated(subject: Seq<char>, own: u32, prefix: Seq<char>) -> Option<u32> {
    match merged_branch(subject) {
        Some(b) => match roll_number(b, prefix) {
            Some(n) => if n != own {
                Some(n)
            } else {
                None
            },
            None => None,
        },
        None => None,
    }
}

/// The roll numbers that the merge subjects of a roll's own history name, each
/// once, in rising order.
pub open spec fn integrated_rolls(
    subjects: Seq<Seq<char>>,
    own: u32,
    prefix: Seq<char>,
) -> Seq<u32> {
    rising(kept(subjects, |t: Seq<char>| integrated(t, own, prefix)))
}

/// Reads the rolls that a roll integrated from the merge subjects of its own
/// first-parent history.
pub fn integration_deps(subjects: &Vec<String>, roll_num: u32, prefix: &str) -> (r: Vec<u32>)
    ensures
        r@ == integrated_rolls(subjects.deep_view(), roll_num, prefix@),
{
    let mut found: Vec<u32> = Vec::new();
    let mut i: usize = 0;
    let ghost f = |t: Seq<char>| integrated(t, roll_num, prefix@);
    proof {
        lemma_kept_ends(subjects.deep_view(), f);
    }
    while i < subjects.len()
        invariant
            i <= subjects@.len(),
            f == (|t: Seq<char>| integrated(t, roll_num, prefix@)),
            found@ == kept(subjects.deep_view().take(i as int), f),
        decreases subjects@.len() - i,
    {
        proof {
            lemma_kept_step(subjects.deep_view(), i as int, f);
        }
        assert(subjects.deep_view()[i as int] == subjects@[i as int]@);
        match extract_graduated_branch(subjects[i].as_str()) {
            Some(b) => match parse_roll_number(b.as_str(), prefix) {
                Some(n) => {
                    if n != roll_num {
                        found.push(n);
                    }
                },
                None => {},
            },
            None => {},
        }
        i += 1;
    }
    sort_dedup(&found)
}

/// A roll's dependencies rise and never hold its own number.
pub proof fn law_no_roll_depends_on_itself(
    subjects: Seq<Seq<char>>,
    own: u32,
    prefix: Seq<char>,
)
    ensures
        rises(integrated_rolls(subjects, own, prefix)),
        !integrated_rolls(subjects, own, prefix).contains(own),
{
    let f = |t: Seq<char>| integrated(t, own, prefix);
    law_rising(kept(subjects, f));
    lemma_kept_contains(subjects, f, own);
}

// ── Listing ─────────────────────────────────────────────────────────────────

/// What git says of one roll branch.
pub struct RollFacts {
    pub branch: String,
    /// Whether the branch exists locally.
    pub local: bool,
    /// Whether `origin/<branch>` exists.
    pub remote: bool,
    /// Whether it has commits behind its graduation.
    pub diverged: bool,
    /// The merge subjects of its own first-parent history.
    pub dep_subjects: Vec<String>,
}

/// [`RollFacts`] by its characters.
pub struct RollFactsView {
    pub branch: Seq<char>,
    pub local: bool,
    pub remote: bool,
    pub diverged: bool,
    pub dep_subjects: Seq<Seq<char>>,
}

impl DeepView for RollFacts {
    type V = RollFactsView;

    open spec fn deep_view(&self) -> RollFactsView {
        RollFactsView {
            branch: self.branch@,
            local: self.local,
            remote: self.remote,
            diverged: self.diverged,
            dep_subjects: self.dep_subjects.deep_view(),
        }
    }
}

/// Everything that a listing of the rolls is computed from.
pub struct RollScan {
    pub roll_prefix: String,
    /// The checked-out branch; empty where there is none.
    pub current: String,
    /// The local branches that match the prefix.
    pub local: Vec<String>,
    /// The branches on the remote that match the prefix.
    pub remote: Vec<String>,
    /// Graduated branches with their merges, from [`scan_graduated`].
    pub graduated: Vec<(String, String)>,
    /// Promoted branches, from [`scan_promoted`].
    pub promoted: Vec<String>,
    pub facts: Vec<RollFacts>,
}

/// [`RollScan`] by its characters.
pub struct RollScanView {
    pub roll_prefix: Seq<char>,
    pub current: Seq<char>,
    pub local: Seq<Seq<char>>,
    pub remote: Seq<Seq<char>>,
    pub graduated: Seq<(Seq<char>, Seq<char>)>,
    pub promoted: Seq<Seq<char>>,
    pub facts: Seq<RollFactsView>,
}

impl DeepView for RollScan {
    type V = RollScanView;

    open spec fn deep_view(&self) -> RollScanView {
        RollScanView {
            roll_prefix: self.roll_prefix@,
            current: self.current@,
            local: self.local.deep_view(),
            remote: self.remote.deep_view(),
            graduated: self.graduated.deep_view(),
            promoted: self.promoted.deep_view(),
            facts: self.facts.deep_view(),
        }
    }
}

/// What git says of `branch`: nothing good where it was not asked.
pub open spec fn facts_of(facts: Seq<RollFactsView>, branch: Seq<char>) -> RollFactsView
    decreases facts.len(),
{
    if facts.len() == 0 {
        RollFactsView {
            branch,
            local: false,
            remote: false,
            diverged: false,
            dep_subjects: seq![],
        }
    } else if facts[0].branch == branch {
        facts[0]
    } else {
        facts_of(facts.skip(1), branch)
    }
}

/// The branch names that a listing looks at: local and remote ones, each once,
/// in order.
pub fn roll_names(local: &Vec<String>, remote: &Vec<String>) -> (r: Vec<String>)
    ensures
        r.deep_view() == ordered(local.deep_view() + remote.deep_view()),
{
    let mut all: Vec<String> = Vec::new();
    let mut i: usize = 0;
    assert(all.deep_view() =~= local.deep_view().take(0));
    while i < local.len()
        invariant
            i <= local@.len(),
            all.deep_view() == local.deep_view().take(i as int),
        decreases local@.len() - i,
    {
        let ghost before = all.deep_view();
        all.push(local[i].clone());
        assert(all.deep_view() =~= before.push(local@[i as int]@));
        assert(local.deep_view().take(i + 1) =~= before.push(local@[i as int]@));
        i += 1;
    }
    let ghost l = local.deep_view();
    assert(all.deep_view() =~= l + remote.deep_view().take(0));
    let mut j: usize = 0;
    while j < remote.len()
        invariant
            j <= remote@.len(),
            l == local.deep_view(),
            all.deep_view() == l + remote.deep_view().take(j as int),
        decreases remote@.len() - j,
    {
        let ghost before = all.deep_view();
        all.push(remote[j].clone());
        assert(all.deep_view() =~= before.push(remote@[j as int]@));
        assert(l + remote.deep_view().take(j + 1) =~= before.push(remote@[j as int]@));
        j += 1;
    }
    assert(remote.deep_view().take(remote@.len() as int) =~= remote.deep_view());
    sort_dedup_texts(&all)
}

/// The state of a roll before its dependencies are looked at: promotion counts
/// first, then graduation, and only a graduated roll can have diverged.
pub open spec fn base_state(promoted: bool, graduated: bool, diverged: bool) -> RollState {
    if promoted {
        RollState::Promoted
    } else if graduated {
        if diverged {
            RollState::Diverged
        } else {
            RollState::Graduated
        }
    } else {
        RollState::Active
    }
}

/// The roll on a branch, before dependencies; `None` where the name holds no
/// roll number.
pub open spec fn base_roll(scan: RollScanView, branch: Seq<char>) -> Option<RollView> {
    let facts = facts_of(scan.facts, branch);
    let graduation = lookup(scan.graduated, branch);
    match roll_number(branch, scan.roll_prefix) {
        Some(number) => Some(
            RollView {
                branch,
                number,
                state: base_state(
                    scan.promoted.contains(branch),
                    graduation is Some,
                    facts.diverged,
                ),
                location: BranchLocation::at(facts.local, facts.remote),
                is_current: branch == scan.current,
                deps: seq![],
                dependents: seq![],
                graduation_commit: graduation,
            },
        ),
        None => None,
    }
}

/// `x` put behind every roll whose number is not above its own.
pub open spec fn placed(s: Seq<RollView>, x: RollView) -> Seq<RollView>
    decreases s.len(),
{
    if s.len() == 0 || s.last().number <= x.number {
        s.push(x)
    } else {
        placed(s.drop_last(), x).push(s.last())
    }
}

/// The rolls by number; those with the same number keep their order.
pub open spec fn by_number(v: Seq<RollView>) -> Seq<RollView>
    decreases v.len(),
{
    if v.len() == 0 {
        seq![]
    } else {
        placed(by_number(v.drop_last()), v.last())
    }
}

/// The rolls of a scan by number, before dependencies.
pub open spec fn base_rolls(scan: RollScanView) -> Seq<RollView> {
    by_number(kept(ordered(scan.local + scan.remote), |b: Seq<char>| base_roll(scan, b)))
}

/// The state of the first roll with this number.
pub open spec fn state_of(rolls: Seq<RollView>, number: u32) -> Option<RollState>
    decreases rolls.len(),
{
    if rolls.len() == 0 {
        None
    } else if rolls[0].number == number {
        Some(rolls[0].state)
    } else {
        state_of(rolls.skip(1), number)
    }
}

/// Whether a state holds back the rolls that depend on it.
pub open spec fn holds_back(state: Option<RollState>) -> bool {
    state matches Some(s) && (s is Active || s is Blocked)
}

/// Whether one of the dependencies has not graduated.
pub open spec fn blocked_by(rolls: Seq<RollView>, deps: Seq<u32>) -> bool {
    exists|k: int| 0 <= k < deps.len() && holds_back(state_of(rolls, #[trigger] deps[k]))
}

/// Roll `i` with its dependencies, and blocked if it is active and one of them
/// has not graduated.
pub open spec fn roll_with_deps(scan: RollScanView, rolls: Seq<RollView>, i: int) -> RollView {
    let roll = rolls[i];
    let deps = integrated_rolls(
        facts_of(scan.facts, roll.branch).dep_subjects,
        roll.number,
        scan.roll_prefix,
    );
    RollView {
        deps,
        state: if roll.state is Active && blocked_by(rolls, deps) {
            RollState::Blocked
        } else {
            roll.state
        },
        ..roll
    }
}

/// The rolls with their dependencies.
pub open spec fn rolls_with_deps(scan: RollScanView, rolls: Seq<RollView>) -> Seq<RollView> {
    Seq::new(rolls.len(), |i: int| roll_with_deps(scan, rolls, i))
}

/// The numbers of the rolls that depend on `number`, each once, in rising order.
pub open spec fn dependents_of(rolls: Seq<RollView>, number: u32) -> Seq<u32> {
    rising(
        kept(
            rolls,
            |r: RollView|
                if r.deps.contains(number) {
                    Some(r.number)
                } else {
                    None
                },
        ),
    )
}

/// Whether no roll before `i` has the same number.
pub open spec fn first_of_number(rolls: Seq<RollView>, i: int) -> bool {
    forall|j: int| 0 <= j < i ==> (#[trigger] rolls[j]).number != rolls[i].number
}

/// The rolls with their dependents. Of several rolls with one number the first
/// has them.
pub open spec fn rolls_with_dependents(rolls: Seq<RollView>) -> Seq<RollView> {
    Seq::new(
        rolls.len(),
        |i: int|
            RollView {
                dependents: if first_of_number(rolls, i) {
                    dependents_of(rolls, rolls[i].number)
                } else {
                    rolls[i].dependents
                },
                ..rolls[i]
            },
    )
}

/// The rolls of a scan.
pub open spec fn rolls_of(scan: RollScanView) -> Seq<RollView> {
    rolls_with_dependents(rolls_with_deps(scan, base_rolls(scan)))
}

fn find_facts<'a>(facts: &'a Vec<RollFacts>, branch: &str) -> (r: Option<&'a RollFacts>)
    ensures
        match r {
            Some(f) => facts_of(facts.deep_view(), branch@) == f.deep_view(),
            None => facts_of(facts.deep_view(), branch@) == (RollFactsView {
                branch: branch@,
                local: false,
                remote: false,
                diverged: false,
                dep_subjects: seq![],
            }),
        },
{
    let mut i: usize = 0;
    let ghost all = facts.deep_view();
    assert(all.skip(0) =~= all);
    while i < facts.len()
        invariant
            i <= facts@.len(),
            all == facts.deep_view(),
            facts_of(all, branch@) == facts_of(all.skip(i as int), branch@),
        decreases facts@.len() - i,
    {
        assert(all.skip(i as int).skip(1) =~= all.skip(i + 1));
        assert(all[i as int] == facts@[i as int].deep_view());
        if same(facts[i].branch.as_str(), branch) {
            return Some(&facts[i]);
        }
        i += 1;
    }
    None
}

/// Whether the divergence of a branch matters: it has graduated and has not
/// been promoted.
pub fn awaits_divergence_check(
    graduated: &Vec<(String, String)>,
    promoted: &Vec<String>,
    branch: &str,
) -> (r: bool)
    ensures
        r == (!promoted.deep_view().contains(branch@) && lookup(
            graduated.deep_view(),
            branch@,
        ) is Some),
{
    let hash = graduation_of(graduated, branch);
    !has_text(promoted, branch) && hash.is_some()
}

fn roll_on(scan: &RollScan, branch: &str) -> (r: Option<RollInfo>)
    ensures
        r.deep_view() == base_roll(scan.deep_view(), branch@),
{
    match parse_roll_number(branch, scan.roll_prefix.as_str()) {
        None => None,
        Some(number) => {
            let graduation = graduation_of(&scan.graduated, branch);
            let promoted = has_text(&scan.promoted, branch);
            let (local, remote, diverged) = match find_facts(&scan.facts, branch) {
                Some(f) => (f.local, f.remote, f.diverged),
                None => (false, false, false),
            };
            let state = if promoted {
                RollState::Promoted
            } else if graduation.is_some() {
                if diverged {
                    RollState::Diverged
                } else {
                    RollState::Graduated
                }
            } else {
                RollState::Active
            };
            let deps: Vec<u32> = Vec::new();
            let dependents: Vec<u32> = Vec::new();
            Some(
                RollInfo {
                    branch: owned(branch),
                    number,
                    state,
                    location: BranchLocation::from_presence(local, remote),
                    is_current: same(branch, scan.current.as_str()),
                    deps,
                    dependents,
                    graduation_commit: graduation,
                },
            )
        },
    }
}

fn insert_roll(v: &mut Vec<RollInfo>, x: RollInfo)
    ensures
        final(v).deep_view() == placed(old(v).deep_view(), x.deep_view()),
{
    let mut p: usize = v.len();
    let ghost s = v.deep_view();
    let ghost y = x.deep_view();
    assert(s.take(p as int) =~= s);
    assert(placed(s, y) =~= placed(s.take(p as int), y) + s.skip(p as int));
    while p > 0 && v[p - 1].number > x.number
        invariant
            v.deep_view() == s,
            s.len() == v@.len(),
            y == x.deep_view(),
            p <= s.len(),
            placed(s, y) == placed(s.take(p as int), y) + s.skip(p as int),
        decreases p,
    {
        proof {
            let t = s.take(p as int);
            assert(s[p - 1] == v@[p - 1].deep_view());
            assert(t.drop_last() =~= s.take(p - 1));
            assert(placed(t, y) + s.skip(p as int) =~= placed(s.take(p - 1), y) + s.skip(p - 1));
        }
        p -= 1;
    }
    proof {
        if p > 0 {
            assert(s[p - 1] == v@[p - 1].deep_view());
        }
    }
    let ghost before = v@;
    v.insert(p, x);
    assert(s.take(p as int).push(y) + s.skip(p as int) =~= s.insert(p as int, y));
    assert(v.deep_view() =~= s.insert(p as int, y));
}

fn base_rolls_of(scan: &RollScan) -> (r: Vec<RollInfo>)
    ensures
        r.deep_view() == base_rolls(scan.deep_view()),
{
    let names = roll_names(&scan.local, &scan.remote);
    let mut r: Vec<RollInfo> = Vec::new();
    let mut i: usize = 0;
    let ghost view = scan.deep_view();
    let ghost f = |b: Seq<char>| base_roll(view, b);
    proof {
        lemma_kept_ends(names.deep_view(), f);
    }
    assert(r.deep_view() =~= by_number(kept(names.deep_view().take(0), f)));
    while i < names.len()
        invariant
            i <= names@.len(),
            view == scan.deep_view(),
            f == (|b: Seq<char>| base_roll(view, b)),
            r.deep_view() == by_number(kept(names.deep_view().take(i as int), f)),
        decreases names@.len() - i,
    {
        proof {
            lemma_kept_step(names.deep_view(), i as int, f);
        }
        let ghost done = kept(names.deep_view().take(i as int), f);
        assert(names.deep_view()[i as int] == names@[i as int]@);
        match roll_on(scan, names[i].as_str()) {
            Some(roll) => {
                assert(done.push(roll.deep_view()).drop_last() =~= done);
                insert_roll(&mut r, roll);
            },
            None => {},
        }
        i += 1;
    }
    r
}

fn first_state(rolls: &Vec<RollInfo>, number: u32) -> (r: Option<RollState>)
    ensures
        r == state_of(rolls.deep_view(), number),
{
    let mut i: usize = 0;
    let ghost all = rolls.deep_view();
    assert(all.skip(0) =~= all);
    while i < rolls.len()
        invariant
            i <= rolls@.len(),
            all == rolls.deep_view(),
            state_of(all, number) == state_of(all.skip(i as int), number),
        decreases rolls@.len() - i,
    {
        assert(all.skip(i as int).skip(1) =~= all.skip(i + 1));
        assert(all[i as int] == rolls@[i as int].deep_view());
        if rolls[i].number == number {
            return Some(rolls[i].state);
        }
        i += 1;
    }
    None
}

fn is_blocked(rolls: &Vec<RollInfo>, deps: &Vec<u32>) -> (r: bool)
    ensures
        r == blocked_by(rolls.deep_view(), deps@),
{
    let mut i: usize = 0;
    while i < deps.len()
        invariant
            i <= deps@.len(),
            forall|k: int|
                0 <= k < i ==> !holds_back(state_of(rolls.deep_view(), #[trigger] deps@[k])),
        decreases deps@.len() - i,
    {
        match first_state(rolls, deps[i]) {
            Some(RollState::Active) => {
                assert(holds_back(state_of(rolls.deep_view(), deps@[i as int])));
                return true;
            },
            Some(RollState::Blocked) => {
                assert(holds_back(state_of(rolls.deep_view(), deps@[i as int])));
                return true;
            },
            _ => {},
        }
        i += 1;
    }
    false
}

fn add_deps(scan: &RollScan, rolls: &Vec<RollInfo>) -> (r: Vec<RollInfo>)
    ensures
        r.deep_view() == rolls_with_deps(scan.deep_view(), rolls.deep_view()),
{
    let mut r: Vec<RollInfo> = Vec::new();
    let mut i: usize = 0;
    let ghost view = scan.deep_view();
    let ghost all = rolls.deep_view();
    while i < rolls.len()
        invariant
            i <= rolls@.len(),
            view == scan.deep_view(),
            all == rolls.deep_view(),
            r@.len() == i,
            forall|k: int|
                0 <= k < i ==> (#[trigger] r@[k]).deep_view() == roll_with_deps(view, all, k),
        decreases rolls@.len() - i,
    {
        assert(all[i as int] == rolls@[i as int].deep_view());
        let mut roll = rolls[i].copy();
        let prefix = scan.roll_prefix.as_str();
        let none: Vec<String> = Vec::new();
        assert(none.deep_view() =~= seq![]);
        let deps = match find_facts(&scan.facts, roll.branch.as_str()) {
            Some(f) => integration_deps(&f.dep_subjects, roll.number, prefix),
            None => integration_deps(&none, roll.number, prefix),
        };
        if matches!(roll.state, RollState::Active) && is_blocked(rolls, &deps) {
            roll.state = RollState::Blocked;
        }
        roll.deps = deps;
        r.push(roll);
        assert(r@[i as int].deep_view() == roll_with_deps(view, all, i as int));
        i += 1;
    }
    assert(r.deep_view() =~= rolls_with_deps(view, all));
    r
}

fn find_dependents(rolls: &Vec<RollInfo>, number: u32) -> (r: Vec<u32>)
    ensures
        r@ == dependents_of(rolls.deep_view(), number),
{
    let mut found: Vec<u32> = Vec::new();
    let mut i: usize = 0;
    let ghost all = rolls.deep_view();
    let ghost f = |r: RollView|
        if r.deps.contains(number) {
            Some(r.number)
        } else {
            None
        };
    proof {
        lemma_kept_ends(all, f);
    }
    while i < rolls.len()
        invariant
            i <= rolls@.len(),
            all == rolls.deep_view(),
            f == (|r: RollView|
                if r.deps.contains(number) {
                    Some(r.number)
                } else {
                    None
                }),
            found@ == kept(all.take(i as int), f),
        decreases rolls@.len() - i,
    {
        proof {
            lemma_kept_step(all, i as int, f);
        }
        assert(all[i as int] == rolls@[i as int].deep_view());
        if has_num(&rolls[i].deps, number) {
            found.push(rolls[i].number);
        }
        i += 1;
    }
    sort_dedup(&found)
}

fn is_first(rolls: &Vec<RollInfo>, i: usize) -> (r: bool)
    requires
        i < rolls@.len(),
    ensures
        r == first_of_number(rolls.deep_view(), i as int),
{
    let ghost all = rolls.deep_view();
    let mut j: usize = 0;
    while j < i
        invariant
            j <= i < rolls@.len(),
            all == rolls.deep_view(),
            forall|k: int| 0 <= k < j ==> (#[trigger] all[k]).number != all[i as int].number,
        decreases i - j,
    {
        assert(all[j as int] == rolls@[j as int].deep_view());
        assert(all[i as int] == rolls@[i as int].deep_view());
        if rolls[j].number == rolls[i].number {
            return false;
        }
        j += 1;
    }
    true
}

fn add_dependents(rolls: &Vec<RollInfo>) -> (r: Vec<RollInfo>)
    ensures
        r.deep_view() == rolls_with_dependents(rolls.deep_view()),
{
    let mut r: Vec<RollInfo> = Vec::new();
    let mut i: usize = 0;
    let ghost all = rolls.deep_view();
    let ghost done = rolls_with_dependents(all);
    while i < rolls.len()
        invariant
            i <= rolls@.len(),
            all == rolls.deep_view(),
            done == rolls_with_dependents(all),
            r@.len() == i,
            forall|k: int| 0 <= k < i ==> (#[trigger] r@[k]).deep_view() == done[k],
        decreases rolls@.len() - i,
    {
        assert(all[i as int] == rolls@[i as int].deep_view());
        let mut roll = rolls[i].copy();
        if is_first(rolls, i) {
            roll.dependents = find_dependents(rolls, roll.number);
        }
        r.push(roll);
        assert(r@[i as int].deep_view() == done[i as int]);
        i += 1;
    }
    assert(r.deep_view() =~= done);
    r
}

/// Lists every roll of a scan: local and remote branches, each once, by number,
/// with state, dependencies and dependents.
pub fn list_rolls(scan: &RollScan) -> (r: Vec<RollInfo>)
    ensures
        r.deep_view() == rolls_of(scan.deep_view()),
{
    let base = base_rolls_of(scan);
    let with_deps = add_deps(scan, &base);
    add_dependents(&with_deps)
}

// ── Laws of the listing ─────────────────────────────────────────────────────

/// Whether the rolls stand by number.
pub open spec fn numbers_rise(s: Seq<RollView>) -> bool {
    forall|i: int, j: int| 0 <= i < j < s.len() ==> s[i].number <= s[j].number
}

/// Whether no branch is listed twice.
pub open spec fn branches_differ(s: Seq<RollView>) -> bool {
    forall|i: int, j: int| 0 <= i < j < s.len() ==> s[i].branch != s[j].branch
}

proof fn lemma_placed(s: Seq<RollView>, x: RollView)
    ensures
        placed(s, x).len() == s.len() + 1,
        numbers_rise(s) ==> numbers_rise(placed(s, x)),
        forall|y: RollView| #[trigger] placed(s, x).contains(y) <==> s.contains(y) || y == x,
        branches_differ(s) && (forall|k: int|
            0 <= k < s.len() ==> (#[trigger] s[k]).branch != x.branch) ==> branches_differ(
            placed(s, x),
        ),
    decreases s.len(),
{
    let r = placed(s, x);
    if s.len() == 0 || s.last().number <= x.number {
        assert(r[r.len() - 1] == x);
        assert forall|y: RollView| #[trigger] r.contains(y) <==> s.contains(y) || y == x by {
            if s.contains(y) {
                let i = choose|i: int| 0 <= i < s.len() && s[i] == y;
                assert(r[i] == y);
            }
            if r.contains(y) && y != x {
                let i = choose|i: int| 0 <= i < r.len() && r[i] == y;
                assert(s[i] == y);
            }
        }
    } else {
        let t = s.drop_last();
        let u = placed(t, x);
        lemma_placed(t, x);
        assert forall|y: RollView| #[trigger] r.contains(y) <==> s.contains(y) || y == x by {
            if s.contains(y) {
                let i = choose|i: int| 0 <= i < s.len() && s[i] == y;
                if i < t.len() {
                    assert(t[i] == y);
                    assert(u.contains(y));
                    let j = choose|j: int| 0 <= j < u.len() && u[j] == y;
                    assert(r[j] == y);
                } else {
                    assert(r[r.len() - 1] == y);
                }
            }
            if y == x {
                assert(u.contains(x));
                let j = choose|j: int| 0 <= j < u.len() && u[j] == x;
                assert(r[j] == x);
            }
            if r.contains(y) && y != x {
                let i = choose|i: int| 0 <= i < r.len() && r[i] == y;
                if i < u.len() {
                    assert(u[i] == y);
                    assert(u.contains(y));
                    let j = choose|j: int| 0 <= j < t.len() && t[j] == y;
                    assert(s[j] == y);
                } else {
                    assert(s[s.len() - 1] == y);
                }
            }
        }
        assert forall|k: int| 0 <= k < u.len() implies (#[trigger] u[k]) == x || t.contains(
            u[k],
        ) by {
            assert(u.contains(u[k]));
        }
        if numbers_rise(s) {
            assert forall|i: int, j: int| 0 <= i < j < r.len() implies r[i].number
                <= r[j].number by {
                if j == r.len() - 1 && u[i] != x {
                    let k = choose|k: int| 0 <= k < t.len() && t[k] == u[i];
                    assert(s[k].number <= s[s.len() - 1].number);
                }
            }
        }
        if branches_differ(s) && (forall|k: int|
            0 <= k < s.len() ==> (#[trigger] s[k]).branch != x.branch) {
            assert forall|k: int| 0 <= k < t.len() implies (#[trigger] t[k]).branch
                != x.branch by {
                assert(s[k] == t[k]);
            }
            assert(branches_differ(u));
            assert forall|i: int, j: int| 0 <= i < j < r.len() implies r[i].branch
                != r[j].branch by {
                if j == r.len() - 1 {
                    if u[i] == x {
                        assert(s[s.len() - 1].branch != x.branch);
                    } else {
                        let k = choose|k: int| 0 <= k < t.len() && t[k] == u[i];
                        assert(s[k].branch != s[s.len() - 1].branch);
                    }
                }
            }
        }
    }
}

proof fn lemma_by_number(v: Seq<RollView>)
    ensures
        by_number(v).len() == v.len(),
        numbers_rise(by_number(v)),
        forall|y: RollView| #[trigger] by_number(v).contains(y) <==> v.contains(y),
        branches_differ(v) ==> branches_differ(by_number(v)),
    decreases v.len(),
{
    if v.len() > 0 {
        let w = v.drop_last();
        let b = by_number(w);
        lemma_by_number(w);
        lemma_placed(b, v.last());
        assert forall|y: RollView| #[trigger] by_number(v).contains(y) <==> v.contains(y) by {
            if v.contains(y) {
                let i = choose|i: int| 0 <= i < v.len() && v[i] == y;
                if i < w.len() {
                    assert(w[i] == y);
                }
            }
            if w.contains(y) {
                let i = choose|i: int| 0 <= i < w.len() && w[i] == y;
                assert(v[i] == y);
            }
            assert(v[v.len() - 1] == v.last());
        }
        if branches_differ(v) {
            assert(branches_differ(w));
            assert forall|k: int| 0 <= k < b.len() implies (#[trigger] b[k]).branch
                != v.last().branch by {
                assert(b.contains(b[k]));
                let i = choose|i: int| 0 <= i < w.len() && w[i] == b[k];
                assert(v[i].branch != v[v.len() - 1].branch);
            }
        }
    }
}

proof fn lemma_kept_branches_differ(names: Seq<Seq<char>>, scan: RollScanView)
    requires
        forall|i: int, j: int| 0 <= i < j < names.len() ==> names[i] != names[j],
    ensures
        branches_differ(kept(names, |b: Seq<char>| base_roll(scan, b))),
    decreases names.len(),
{
    let f = |b: Seq<char>| base_roll(scan, b);
    if names.len() > 0 {
        let w = names.drop_last();
        let before = kept(w, f);
        lemma_kept_branches_differ(w, scan);
        if let Some(x) = f(names.last()) {
            assert forall|k: int| 0 <= k < before.len() implies (#[trigger] before[k]).branch
                != x.branch by {
                lemma_kept_contains(w, f, before[k]);
                assert(before.contains(before[k]));
                let i = choose|i: int| 0 <= i < w.len() && f(#[trigger] w[i]) == Some(before[k]);
                assert(names[i] != names[names.len() - 1]);
            }
        }
    }
}

proof fn lemma_base_rolls(scan: RollScanView)
    ensures
        numbers_rise(base_rolls(scan)),
        branches_differ(base_rolls(scan)),
        forall|y: RollView|
            #[trigger] base_rolls(scan).contains(y) <==> (base_roll(scan, y.branch) == Some(y) && (
            scan.local.contains(y.branch) || scan.remote.contains(y.branch))),
{
    let all = scan.local + scan.remote;
    let names = ordered(all);
    let f = |b: Seq<char>| base_roll(scan, b);
    let first = kept(names, f);
    law_ordered(all);
    assert forall|i: int, j: int| 0 <= i < j < names.len() implies names[i] != names[j] by {
        crate::seqs::law_text_order_is_total(names[i], names[j]);
    }
    lemma_kept_branches_differ(names, scan);
    lemma_by_number(first);
    assert forall|y: RollView|
        #[trigger] base_rolls(scan).contains(y) <==> (base_roll(scan, y.branch) == Some(y) && (
        scan.local.contains(y.branch) || scan.remote.contains(y.branch))) by {
        lemma_kept_contains(names, f, y);
        if base_rolls(scan).contains(y) {
            let i = choose|i: int| 0 <= i < names.len() && f(#[trigger] names[i]) == Some(y);
            assert(names.contains(names[i]));
            assert(all.contains(y.branch));
            let k = choose|k: int| 0 <= k < all.len() && all[k] == y.branch;
            if k < scan.local.len() {
                assert(scan.local[k] == y.branch);
            } else {
                assert(scan.remote[k - scan.local.len()] == y.branch);
            }
        }
        if base_roll(scan, y.branch) == Some(y) && (scan.local.contains(y.branch)
            || scan.remote.contains(y.branch)) {
            if scan.local.contains(y.branch) {
                let k = choose|k: int| 0 <= k < scan.local.len() && scan.local[k] == y.branch;
                assert(all[k] == y.branch);
            } else {
                let k = choose|k: int| 0 <= k < scan.remote.len() && scan.remote[k] == y.branch;
                assert(all[scan.local.len() + k] == y.branch);
            }
            assert(names.contains(y.branch));
            let i = choose|i: int| 0 <= i < names.len() && names[i] == y.branch;
            assert(f(names[i]) == Some(y));
        }
    }
}

/// The rolls come out by number, no branch twice; a branch is listed exactly
/// when it exists on either side and its name holds a roll number, and it is
/// listed with that number.
pub proof fn law_rolls_are_listed_by_number(scan: RollScanView, branch: Seq<char>)
    ensures
        numbers_rise(rolls_of(scan)),
        branches_differ(rolls_of(scan)),
        (exists|i: int| 0 <= i < rolls_of(scan).len() && (#[trigger] rolls_of(scan)[i]).branch == branch)
            <==> ((scan.local.contains(branch) || scan.remote.contains(branch)) && roll_number(
            branch,
            scan.roll_prefix,
        ) is Some),
        forall|i: int|
            0 <= i < rolls_of(scan).len() ==> roll_number(
                (#[trigger] rolls_of(scan)[i]).branch,
                scan.roll_prefix,
            ) == Some(rolls_of(scan)[i].number),
{
    let base = base_rolls(scan);
    let out = rolls_of(scan);
    lemma_base_rolls(scan);
    assert(out.len() == base.len());
    assert forall|i: int| 0 <= i < out.len() implies (#[trigger] out[i]).branch == base[i].branch
        && out[i].number == base[i].number && base_roll(scan, base[i].branch) == Some(base[i])
        && (scan.local.contains(base[i].branch) || scan.remote.contains(base[i].branch)) by {
        assert(base.contains(base[i]));
    }
    if (scan.local.contains(branch) || scan.remote.contains(branch)) && roll_number(
        branch,
        scan.roll_prefix,
    ) is Some {
        let y = base_roll(scan, branch)->0;
        assert(base.contains(y));
        let i = choose|i: int| 0 <= i < base.len() && base[i] == y;
        assert(out[i].branch == branch);
    }
}

/// Dependents are the inverse of dependencies: the first roll with a number
/// lists `m` as a dependent exactly when a roll numbered `m` depends on it.
pub proof fn law_dependents_invert_deps(scan: RollScanView, i: int, m: u32)
    requires
        0 <= i < rolls_of(scan).len(),
        first_of_number(rolls_of(scan), i),
    ensures
        rolls_of(scan)[i].dependents.contains(m) <==> exists|j: int|
            0 <= j < rolls_of(scan).len() && (#[trigger] rolls_of(scan)[j]).number == m
                && rolls_of(scan)[j].deps.contains(rolls_of(scan)[i].number),
        rises(rolls_of(scan)[i].dependents),
{
    let out = rolls_of(scan);
    let mid = rolls_with_deps(scan, base_rolls(scan));
    let n = mid[i].number;
    let f = |r: RollView|
        if r.deps.contains(n) {
            Some(r.number)
        } else {
            None
        };
    assert(first_of_number(mid, i)) by {
        assert forall|j: int| 0 <= j < i implies (#[trigger] mid[j]).number != mid[i].number by {
            assert(out[j].number != out[i].number);
        }
    }
    law_rising(kept(mid, f));
    lemma_kept_contains(mid, f, m);
    if out[i].dependents.contains(m) {
        let j = choose|j: int| 0 <= j < mid.len() && f(#[trigger] mid[j]) == Some(m);
        assert(out[j].number == m);
    }
    if exists|j: int|
        0 <= j < out.len() && (#[trigger] out[j]).number == m && out[j].deps.contains(n) {
        let j = choose|j: int|
            0 <= j < out.len() && (#[trigger] out[j]).number == m && out[j].deps.contains(n);
        assert(f(mid[j]) == Some(m));
    }
}

/// A roll is blocked exactly when it has neither been promoted nor graduated
/// and one of its dependencies, where it is listed, has not graduated either. A
/// promoted or graduated roll never is.
pub proof fn law_only_ungraduated_rolls_are_blocked(scan: RollScanView, i: int)
    requires
        0 <= i < rolls_of(scan).len(),
    ensures
        ({
            let roll = rolls_of(scan)[i];
            let landed = scan.promoted.contains(roll.branch) || roll.graduation_commit is Some;
            &&& roll.state is Blocked <==> !landed && blocked_by(base_rolls(scan), roll.deps)
            &&& landed ==> roll.state is Promoted || roll.state is Graduated
                || roll.state is Diverged
            &&& roll.state is Promoted <==> scan.promoted.contains(roll.branch)
        }),
{
    let base = base_rolls(scan);
    lemma_base_rolls(scan);
    assert(base.contains(base[i]));
    assert(base_roll(scan, base[i].branch) == Some(base[i]));
}

proof fn lemma_facts_of(facts: Seq<RollFactsView>, branch: Seq<char>, k: int)
    requires
        0 <= k <= facts.len(),
        forall|j: int| 0 <= j < k ==> (#[trigger] facts[j]).branch != branch,
    ensures
        k < facts.len() && facts[k].branch == branch ==> facts_of(facts, branch) == facts[k],
        k == facts.len() ==> !facts_of(facts, branch).diverged && !facts_of(facts, branch).local
            && !facts_of(facts, branch).remote && facts_of(facts, branch).dep_subjects.len() == 0,
    decreases k,
{
    if k > 0 {
        assert(facts[0].branch != branch);
        assert forall|j: int| 0 <= j < k - 1 implies (#[trigger] facts.skip(1)[j]).branch
            != branch by {
            assert(facts[j + 1].branch != branch);
        }
        lemma_facts_of(facts.skip(1), branch, k - 1);
    }
}

/// How far a roll has come is read off the scan. A promoted roll is promoted,
/// whatever else is known of it. Of the others, one with a graduation commit has
/// diverged if the facts say that its branch has commits behind its graduation,
/// and is graduated if they do not; one without is active or blocked. `k` is the
/// first entry of the facts for the roll's branch, or their number where there is
/// none.
pub proof fn law_states_follow_the_facts(scan: RollScanView, i: int, k: int)
    requires
        0 <= i < rolls_of(scan).len(),
        0 <= k <= scan.facts.len(),
        k < scan.facts.len() ==> scan.facts[k].branch == rolls_of(scan)[i].branch,
        forall|j: int|
            0 <= j < k ==> (#[trigger] scan.facts[j]).branch != rolls_of(scan)[i].branch,
    ensures
        ({
            let roll = rolls_of(scan)[i];
            let promoted = scan.promoted.contains(roll.branch);
            let graduated = roll.graduation_commit is Some;
            let behind = k < scan.facts.len() && scan.facts[k].diverged;
            &&& roll.state is Promoted <==> promoted
            &&& roll.state is Diverged <==> !promoted && graduated && behind
            &&& roll.state is Graduated <==> !promoted && graduated && !behind
            &&& roll.state is Active || roll.state is Blocked <==> !promoted && !graduated
        }),
{
    let base = base_rolls(scan);
    lemma_base_rolls(scan);
    assert(base.contains(base[i]));
    assert(base_roll(scan, base[i].branch) == Some(base[i]));
    lemma_facts_of(scan.facts, base[i].branch, k);
}

/// A roll's graduation commit is that of the first record of its branch, and it
/// has none exactly when no record names its branch. `k` is the place of that
/// record, or the number of the records where there is none.
pub proof fn law_graduations_come_from_the_records(scan: RollScanView, i: int, k: int)
    requires
        0 <= i < rolls_of(scan).len(),
        0 <= k <= scan.graduated.len(),
        k < scan.graduated.len() ==> scan.graduated[k].0 == rolls_of(scan)[i].branch,
        forall|j: int|
            0 <= j < k ==> (#[trigger] scan.graduated[j]).0 != rolls_of(scan)[i].branch,
    ensures
        k < scan.graduated.len() ==> rolls_of(scan)[i].graduation_commit == Some(
            scan.graduated[k].1,
        ),
        k == scan.graduated.len() ==> rolls_of(scan)[i].graduation_commit is None,
{
    let base = base_rolls(scan);
    lemma_base_rolls(scan);
    assert(base.contains(base[i]));
    assert(base_roll(scan, base[i].branch) == Some(base[i]));
    law_lookup_finds_the_first(scan.graduated, base[i].branch, k);
}

/// A roll stands where the facts say that its branch exists, and it is the
/// current one exactly when its branch is checked out. `k` is the first entry of
/// the facts for the roll's branch, or their number where there is none.
pub proof fn law_locations_follow_the_facts(scan: RollScanView, i: int, k: int)
    requires
        0 <= i < rolls_of(scan).len(),
        0 <= k <= scan.facts.len(),
        k < scan.facts.len() ==> scan.facts[k].branch == rolls_of(scan)[i].branch,
        forall|j: int|
            0 <= j < k ==> (#[trigger] scan.facts[j]).branch != rolls_of(scan)[i].branch,
    ensures
        ({
            let roll = rolls_of(scan)[i];
            let here = k < scan.facts.len() && scan.facts[k].local;
            let there = k < scan.facts.len() && scan.facts[k].remote;
            &&& roll.location is Both <==> here && there
            &&& roll.location is Local <==> here && !there
            &&& roll.location is Remote <==> !here && there
            &&& roll.location is Neither <==> !here && !there
            &&& roll.is_current <==> roll.branch == scan.current
        }),
{
    let base = base_rolls(scan);
    lemma_base_rolls(scan);
    assert(base.contains(base[i]));
    assert(base_roll(scan, base[i].branch) == Some(base[i]));
    lemma_facts_of(scan.facts, base[i].branch, k);
}

proof fn lemma_state_of(rolls: Seq<RollView>, number: u32)
    ensures
        forall|j: int|
            0 <= j < rolls.len() && (#[trigger] rolls[j]).number == number && first_of_number(
                rolls,
                j,
            ) ==> state_of(rolls, number) == Some(rolls[j].state),
        state_of(rolls, number) matches Some(s) ==> exists|j: int|
            0 <= j < rolls.len() && (#[trigger] rolls[j]).number == number && first_of_number(
                rolls,
                j,
            ) && rolls[j].state == s,
    decreases rolls.len(),
{
    if rolls.len() > 0 {
        let rest = rolls.skip(1);
        lemma_state_of(rest, number);
        assert(forall|j: int| 0 <= j < rest.len() ==> #[trigger] rest[j] == rolls[j + 1]);
        if rolls[0].number == number {
            assert(first_of_number(rolls, 0));
        } else {
            if state_of(rest, number) is Some {
                let s = state_of(rest, number)->0;
                let j = choose|j: int|
                    0 <= j < rest.len() && (#[trigger] rest[j]).number == number && first_of_number(
                        rest,
                        j,
                    ) && rest[j].state == s;
                assert forall|m: int| 0 <= m < j + 1 implies (#[trigger] rolls[m]).number
                    != rolls[j + 1].number by {
                    if m > 0 {
                        assert(rest[m - 1].number != rest[j].number);
                    }
                }
                assert(first_of_number(rolls, j + 1));
            }
        }
        assert forall|j: int|
            0 <= j < rolls.len() && (#[trigger] rolls[j]).number == number && first_of_number(
                rolls,
                j,
            ) implies state_of(rolls, number) == Some(rolls[j].state) by {
            if j > 0 {
                assert(rolls[0].number != number);
                assert forall|m: int| 0 <= m < j - 1 implies (#[trigger] rest[m]).number
                    != rest[j - 1].number by {
                    assert(rolls[m + 1].number != rolls[j].number);
                }
                assert(first_of_number(rest, j - 1));
            }
        }
    }
}

/// Whether `n` is the number of roll `j`, no roll before it has that number, and
/// it has neither graduated nor been promoted.
pub open spec fn waits_at(rolls: Seq<RollView>, j: int, n: u32) -> bool {
    &&& 0 <= j < rolls.len()
    &&& rolls[j].number == n
    &&& forall|m: int| 0 <= m < j ==> (#[trigger] rolls[m]).number != n
    &&& rolls[j].state is Active || rolls[j].state is Blocked
}

/// A roll that has neither graduated nor been promoted is blocked exactly when
/// one of its dependencies is listed as one that has not either; it is active
/// otherwise.
pub proof fn law_a_waiting_dependency_blocks(scan: RollScanView, i: int)
    requires
        0 <= i < rolls_of(scan).len(),
    ensures
        ({
            let rolls = rolls_of(scan);
            rolls[i].state is Blocked <==> !scan.promoted.contains(rolls[i].branch)
                && rolls[i].graduation_commit is None && exists|j: int, n: u32|
                rolls[i].deps.contains(n) && #[trigger] waits_at(rolls, j, n)
        }),
{
    let base = base_rolls(scan);
    let rolls = rolls_of(scan);
    let deps = rolls[i].deps;
    law_only_ungraduated_rolls_are_blocked(scan, i);
    lemma_base_rolls(scan);
    assert forall|j: int| 0 <= j < rolls.len() implies (#[trigger] rolls[j]).number
        == base[j].number && (rolls[j].state is Active || rolls[j].state is Blocked
        <==> base[j].state is Active) && base[j].state !is Blocked by {
        assert(base.contains(base[j]));
        assert(base_roll(scan, base[j].branch) == Some(base[j]));
    }
    if blocked_by(base, deps) {
        let k = choose|k: int| 0 <= k < deps.len() && holds_back(state_of(base, #[trigger] deps[k]));
        let n = deps[k];
        lemma_state_of(base, n);
        let s = state_of(base, n)->0;
        let j = choose|j: int|
            0 <= j < base.len() && (#[trigger] base[j]).number == n && first_of_number(base, j)
                && base[j].state == s;
        assert(rolls[j].number == n);
        assert forall|m: int| 0 <= m < j implies (#[trigger] rolls[m]).number != n by {
            assert(base[m].number != base[j].number);
        }
        assert(deps.contains(n) && waits_at(rolls, j, n));
    }
    if exists|j: int, n: u32| deps.contains(n) && #[trigger] waits_at(rolls, j, n) {
        let (j, n) = choose|j: int, n: u32| deps.contains(n) && #[trigger] waits_at(rolls, j, n);
        let k = choose|k: int| 0 <= k < deps.len() && deps[k] == n;
        assert(rolls[j].number == base[j].number);
        assert forall|m: int| 0 <= m < j implies (#[trigger] base[m]).number
            != base[j].number by {
            assert(rolls[m].number != n);
        }
        assert(first_of_number(base, j));
        lemma_state_of(base, n);
        assert(base[j].number == n);
        assert(holds_back(state_of(base, deps[k])));
    }
}

/// The dependencies of a roll are the numbers of the other rolls whose branches
/// the merges in its own history name. `k` is the first entry of the facts for the
/// roll's branch, or their number where there is none.
pub proof fn law_dependencies_are_integrations(scan: RollScanView, i: int, k: int, n: u32)
    requires
        0 <= i < rolls_of(scan).len(),
        0 <= k <= scan.facts.len(),
        k < scan.facts.len() ==> scan.facts[k].branch == rolls_of(scan)[i].branch,
        forall|j: int|
            0 <= j < k ==> (#[trigger] scan.facts[j]).branch != rolls_of(scan)[i].branch,
    ensures
        ({
            let roll = rolls_of(scan)[i];
            roll.deps.contains(n) <==> n != roll.number && k < scan.facts.len() && exists|j: int|
                0 <= j < scan.facts[k].dep_subjects.len() && (merged_branch(
                    #[trigger] scan.facts[k].dep_subjects[j],
                ) matches Some(b) && roll_number(b, scan.roll_prefix) == Some(n))
        }),
{
    let base = base_rolls(scan);
    lemma_base_rolls(scan);
    assert(base.contains(base[i]));
    assert(base_roll(scan, base[i].branch) == Some(base[i]));
    let branch = base[i].branch;
    lemma_facts_of(scan.facts, branch, k);
    let subjects = facts_of(scan.facts, branch).dep_subjects;
    let f = |t: Seq<char>| integrated(t, base[i].number, scan.roll_prefix);
    lemma_kept_contains(subjects, f, n);
    law_rising(kept(subjects, f));
    if exists|j: int| 0 <= j < subjects.len() && f(#[trigger] subjects[j]) == Some(n) {
        let j = choose|j: int| 0 <= j < subjects.len() && f(#[trigger] subjects[j]) == Some(n);
        assert(k < scan.facts.len());
        assert(merged_branch(scan.facts[k].dep_subjects[j]) is Some);
    }
    if n != base[i].number && k < scan.facts.len() && exists|j: int|
        0 <= j < scan.facts[k].dep_subjects.len() && (merged_branch(
            #[trigger] scan.facts[k].dep_subjects[j],
        ) matches Some(b) && roll_number(b, scan.roll_prefix) == Some(n)) {
        let j = choose|j: int|
            0 <= j < scan.facts[k].dep_subjects.len() && (merged_branch(
                #[trigger] scan.facts[k].dep_subjects[j],
            ) matches Some(b) && roll_number(b, scan.roll_prefix) == Some(n));
        assert(f(subjects[j]) == Some(n));
    }
}

// ── Laws of names and subjects ──────────────────────────────────────────────

/// A roll's number reads back from its name: the digits behind the prefix, up to
/// the first dash or the end. A name without the prefix holds none.
pub proof fn law_roll_numbers_read_back(prefix: Seq<char>, n: u32, rest: Seq<char>, other: Seq<char>)
    ensures
        roll_number(prefix + decimal(n as nat) + seq!['-'] + rest, prefix) == Some(n),
        roll_number(prefix + decimal(n as nat), prefix) == Some(n),
        !(other.len() >= prefix.len() && other.take(prefix.len() as int) == prefix) ==> roll_number(
            other,
            prefix,
        ) is None,
{
    let d = decimal(n as nat);
    let long = prefix + d + seq!['-'] + rest;
    let short = prefix + d;
    lemma_decimal_value(n as nat);
    law_decimal_reads_back(n as nat, u32::MAX as nat);
    assert(forall|i: int| 0 <= i < d.len() ==> digit(#[trigger] d[i]));
    assert(long.take(prefix.len() as int) =~= prefix);
    assert(long.skip(prefix.len() as int) =~= d + seq!['-'] + rest);
    assert(short.take(prefix.len() as int) =~= prefix);
    assert(short.skip(prefix.len() as int) =~= d);
    lemma_parts_cat(d, rest, '-');
    lemma_parts_single(d, '-');
}

/// The subject of a local merge names the branch between its quotes, whatever
/// follows them.
pub proof fn law_local_merges_name_their_branch(branch: Seq<char>, rest: Seq<char>)
    requires
        forall|i: int| 0 <= i < branch.len() ==> #[trigger] branch[i] != '\'',
    ensures
        merged_branch("Merge branch '"@ + branch + seq!['\''] + rest) == Some(branch),
{
    let p = "Merge branch '"@;
    let s = p + branch + seq!['\''] + rest;
    assert(s.take(p.len() as int) =~= p);
    assert(s.skip(p.len() as int) =~= branch + seq!['\''] + rest);
    lemma_parts_cat(branch, rest, '\'');
}

/// The subject of a merged pull request names the branch behind its owner.
pub proof fn law_pull_requests_name_their_branch(n: nat, owner: Seq<char>, branch: Seq<char>)
    requires
        forall|i: int| 0 <= i < owner.len() ==> #[trigger] owner[i] != '/',
        branch.len() > 0,
        !white(branch[0]),
        !white(branch.last()),
    ensures
        merged_branch(
            "Merge pull request #"@ + decimal(n) + " from "@ + owner + seq!['/'] + branch,
        ) == Some(branch),
{
    reveal_strlit("Merge branch '");
    reveal_strlit("Graduate ");
    reveal_strlit("Merge pull request #");
    reveal_strlit(" from ");
    reveal_strlit("/");
    let p = "Merge pull request #"@;
    let f = " from "@;
    let d = decimal(n);
    let rest = owner + seq!['/'] + branch;
    let s = p + d + f + owner + seq!['/'] + branch;
    let at = (p.len() + d.len()) as int;
    lemma_decimal_value(n);
    assert(forall|i: int| 0 <= i < d.len() ==> digit(#[trigger] d[i]));
    assert(s =~= p + d + f + rest);
    assert(s.skip(at).take(f.len() as int) =~= f);
    assert(begins(s.skip(at), f));
    law_cuts_are_at_the_first(s, f, at);
    let (a, b) = cut(s, f)->0;
    let k = a.len() as int;
    assert(k <= at);
    assert(s[k] == ' ' && s[k + 1] == 'f') by {
        assert((a + f + b)[k] == f[0]);
        assert((a + f + b)[k + 1] == f[1]);
    }
    if k < at {
        if k < p.len() {
            assert(s[k] == p[k]);
            assert(k == 5 || k == 10 || k == 18);
            assert(s[k + 1] == p[k + 1]);
        } else {
            assert(s[k] == d[k - p.len()]);
            assert(digit(d[k - p.len()]));
        }
        assert(false);
    }
    assert(b =~= s.skip(at + f.len()));
    assert(s.skip(at + f.len()) =~= rest);
    assert(s.take(p.len() as int) =~= p);
    assert(!begins(s, "Merge branch '"@)) by {
        assert(s[6] == 'p');
        if begins(s, "Merge branch '"@) {
            assert(s.take(14)[6] == 'b');
        }
    }
    assert(!begins(s, "Graduate "@)) by {
        assert(s[0] == 'M');
        if begins(s, "Graduate "@) {
            assert(s.take(9)[0] == 'G');
        }
    }
    assert("/"@ =~= seq!['/']);
    assert(rest =~= owner + (seq!['/'] + branch));
    lemma_pos_cat(owner, seq!['/'] + branch, '/');
    lemma_found_char(rest, '/');
    assert(rest.skip(owner.len() as int + 1) =~= branch);
    lemma_trimmed_as_is(branch);
}

proof fn lemma_lookup_cat(
    a: Seq<(Seq<char>, Seq<char>)>,
    b: Seq<(Seq<char>, Seq<char>)>,
    key: Seq<char>,
)
    ensures
        lookup(a + b, key) == (if lookup(a, key) is Some {
            lookup(a, key)
        } else {
            lookup(b, key)
        }),
    decreases a.len(),
{
    if a.len() == 0 {
        assert(a + b =~= b);
    } else {
        assert((a + b).skip(1) =~= a.skip(1) + b);
        lemma_lookup_cat(a.skip(1), b, key);
    }
}

/// A graduation is looked for on rolling's own line first; the full log only
/// answers for branches that the line does not name.
pub proof fn law_own_line_comes_first(line: Seq<char>, full: Seq<char>, branch: Seq<char>)
    ensures
        ({
            let records = graduation_records(Some(line), Some(full));
            let own = lookup(graduations_in(line), branch);
            &&& own is Some ==> lookup(records, branch) == own
            &&& own is None ==> lookup(records, branch) == lookup(graduations_in(full), branch)
        }),
{
    lemma_lookup_cat(graduations_in(line), graduations_in(full), branch);
}

/// A branch is read at its own tip wherever there is a local copy, and at the
/// remote's only where there is none.
pub proof fn law_content_is_read_locally(branch: Seq<char>, location: BranchLocation)
    ensures
        location is Local || location is Both ==> content_name(branch, location) == branch,
        location is Remote ==> content_name(branch, location) == "origin/"@ + branch,
{
}

/// A roll's own history starts behind stable, and behind the state of rolling right
/// before it landed once it has graduated.
pub proof fn law_own_history_ends_at_landing(sha: Seq<char>, stable: Seq<char>)
    ensures
        deps_base(None, stable) == stable,
        deps_base(Some(sha), stable) == sha + "^1"@,
{
}

/// A count that git printed is above zero exactly when it is a number and not zero.
pub proof fn law_counts_above_zero(n: u32, text: Seq<char>)
    requires
        trimmed(text) == decimal(n as nat),
    ensures
        positive_count(Some(text)) <==> n > 0,
        !positive_count(None),
{
    law_decimal_reads_back(n as nat, u32::MAX as nat);
}

/// Every state has words of its own, and every location a letter of its own.
pub proof fn law_labels_tell_apart(a: RollState, b: RollState, x: BranchLocation, y: BranchLocation)
    ensures
        a.label_text() == b.label_text() ==> a == b,
        x.symbol_text() == y.symbol_text() ==> x == y,
        x.label_text() == y.label_text() ==> x == y,
{
    reveal_strlit("active");
    reveal_strlit("✓ graduated");
    reveal_strlit("⚠ diverged");
    reveal_strlit("✓ promoted");
    reveal_strlit("⛔ blocked");
    reveal_strlit("L");
    reveal_strlit("R");
    reveal_strlit("B");
    reveal_strlit("-");
    reveal_strlit("local");
    reveal_strlit("remote");
    reveal_strlit("both");
    reveal_strlit("none");
    assert("active"@[0] == 'a' && "✓ graduated"@[0] == '✓' && "⚠ diverged"@[0] == '⚠'
        && "✓ promoted"@[0] == '✓' && "⛔ blocked"@[0] == '⛔');
    assert("✓ graduated"@[2] == 'g' && "✓ promoted"@[2] == 'p');
    assert("L"@[0] == 'L' && "R"@[0] == 'R' && "B"@[0] == 'B' && "-"@[0] == '-');
    assert("local"@[0] == 'l' && "remote"@[0] == 'r' && "both"@[0] == 'b' && "none"@[0] == 'n');
}

/// A list of numbers is written with commas between them, so that its parts are the
/// numbers.
pub proof fn law_numbers_are_written_in_order(nums: Seq<u32>, n: u32)
    ensures
        roll_numbers_text(seq![]).len() == 0,
        roll_numbers_text(seq![n]) == decimal(n as nat),
        nums.len() > 0 ==> roll_numbers_text(nums.push(n)) == roll_numbers_text(nums) + ","@
            + decimal(n as nat),
{
    let texts = Seq::new(nums.len(), |i: int| decimal(nums[i] as nat));
    let more = Seq::new(nums.push(n).len(), |i: int| decimal(nums.push(n)[i] as nat));
    assert(more.drop_last() =~= texts);
    let one = Seq::new(1, |i: int| decimal(seq![n][i] as nat));
    assert(one.len() == 1);
    assert(one[0] == decimal(n as nat));
    assert(roll_numbers_text(seq![n]) == joined(one, ","@)) by {
        assert(Seq::new(seq![n].len(), |i: int| decimal(seq![n][i] as nat)) =~= one);
    }
}

/// A commit on stable marks what its body lists, without the heading and empty
/// lines, and the word behind `Promote `.
pub proof fn law_promotion_bodies_are_read(
    rest: Seq<char>,
    body: Seq<char>,
    name: Seq<char>,
)
    ensures
        marks_promoted("Promote "@ + rest, body).contains(name) <==> leading_word(rest) == Some(
            name,
        ) || (name.len() > 0 && name != "Rolls:"@ && exists|i: int|
            0 <= i < lines_of(body).len() && trimmed(#[trigger] lines_of(body)[i]) == name),
{
    let p = "Promote "@;
    let s = p + rest;
    assert(s.take(p.len() as int) =~= p);
    assert(s.skip(p.len() as int) =~= rest);
    let g = |l: Seq<char>| attributed(l);
    let all = lines_of(body);
    let listed = kept(all, g);
    let named: Seq<Seq<char>> = match leading_word(rest) {
        Some(w) => seq![w],
        None => seq![],
    };
    let marked = marks_promoted(s, body);
    assert(marked =~= named + listed);
    lemma_kept_contains(all, g, name);
    if marked.contains(name) {
        let k = choose|k: int| 0 <= k < marked.len() && marked[k] == name;
        if k >= named.len() {
            assert(listed[k - named.len()] == name);
            assert(listed.contains(name));
            let i = choose|i: int| 0 <= i < all.len() && g(#[trigger] all[i]) == Some(name);
            assert(trimmed(all[i]) == name);
        }
    }
    if leading_word(rest) == Some(name) {
        assert(marked[0] == name);
    }
    if name.len() > 0 && name != "Rolls:"@ && exists|i: int|
        0 <= i < all.len() && trimmed(#[trigger] all[i]) == name {
        let i = choose|i: int| 0 <= i < all.len() && trimmed(#[trigger] all[i]) == name;
        assert(g(all[i]) == Some(name));
        let k = choose|k: int| 0 <= k < listed.len() && listed[k] == name;
        assert(marked[named.len() + k] == name);
    }
}

/// A roll has graduated by a log exactly when one of the log's subjects names it.
pub proof fn law_graduations_are_named(subjects: Seq<Seq<char>>, subject: Seq<char>, roll: Seq<char>)
    ensures
        names_graduation(seq![], roll) == false,
        names_graduation(subjects.push(subject), roll) <==> names_graduation(subjects, roll)
            || merged_branch(subject) == Some(roll),
{
    let more = subjects.push(subject);
    if names_graduation(subjects, roll) {
        let i = choose|i: int|
            0 <= i < subjects.len() && merged_branch(#[trigger] subjects[i]) == Some(roll);
        assert(merged_branch(more[i]) == Some(roll));
    }
    if merged_branch(subject) == Some(roll) {
        assert(merged_branch(more[subjects.len() as int]) == Some(roll));
    }
    if names_graduation(more, roll) {
        let i = choose|i: int|
            0 <= i < more.len() && merged_branch(#[trigger] more[i]) == Some(roll);
        if i < subjects.len() {
            assert(merged_branch(subjects[i]) == Some(roll));
        }
    }
}

/// A branch has been promoted exactly when one of the commits on stable marks it.
pub proof fn law_promotions_are_marked(
    commits: Seq<(Seq<char>, Seq<char>)>,
    subject: Seq<char>,
    body: Seq<char>,
    name: Seq<char>,
)
    ensures
        promoted_names(seq![]).len() == 0,
        promoted_names(commits.push((subject, body))).contains(name) <==> promoted_names(
            commits,
        ).contains(name) || marks_promoted(subject, body).contains(name),
{
    let more = commits.push((subject, body));
    assert(more.drop_last() =~= commits);
    let a = promoted_names(commits);
    let b = marks_promoted(subject, body);
    let all = promoted_names(more);
    assert(all =~= a + b);
    if a.contains(name) {
        let k = choose|k: int| 0 <= k < a.len() && a[k] == name;
        assert(all[k] == name);
    }
    if b.contains(name) {
        let k = choose|k: int| 0 <= k < b.len() && b[k] == name;
        assert(all[a.len() + k] == name);
    }
    if all.contains(name) {
        let k = choose|k: int| 0 <= k < all.len() && all[k] == name;
        if k < a.len() {
            assert(a[k] == name);
        } else {
            assert(b[k - a.len()] == name);
        }
    }
}

/// Merges on a log are read line by line: a hash, a tab and the subject of a merge
/// give the branch with the hash, and any other line gives nothing.
pub proof fn law_merge_logs_are_read(log: Seq<char>, branch: Seq<char>, hash: Seq<char>)
    ensures
        graduations_in(log).contains((branch, hash)) <==> exists|i: int|
            0 <= i < lines_of(log).len() && (cut(#[trigger] lines_of(log)[i], "\t"@) matches Some(
                (h, subject),
            ) && h == hash && merged_branch(subject) == Some(branch)),
{
    let g = |l: Seq<char>| graduation_on(l);
    let all = lines_of(log);
    lemma_kept_contains(all, g, (branch, hash));
    if graduations_in(log).contains((branch, hash)) {
        let i = choose|i: int| 0 <= i < all.len() && g(#[trigger] all[i]) == Some((branch, hash));
        assert(cut(all[i], "\t"@) is Some);
    }
    if exists|i: int|
        0 <= i < all.len() && (cut(#[trigger] all[i], "\t"@) matches Some((h, subject)) && h == hash
            && merged_branch(subject) == Some(branch)) {
        let i = choose|i: int|
            0 <= i < all.len() && (cut(#[trigger] all[i], "\t"@) matches Some((h, subject)) && h
                == hash && merged_branch(subject) == Some(branch));
        assert(g(all[i]) == Some((branch, hash)));
    }
}

} // verus!
