//! Naming new branches: slugs, dates and numbers.
use vstd::prelude::*;

use crate::branches::{parse_roll_number, roll_number, RollInfo, RollView};
use crate::config::{Config, ConfigView};
use crate::failure::{outcome, Failure};
use crate::num::{
    all_digits, decimal, law_decimal_reads_back, lemma_decimal_value, to_decimal, value_of,
};
use crate::ops::merge::{MergeRun, MergeRunView, StageView};
use crate::ops::route::{check_merge, viable, MergeFacts, MergeFactsView, MergeVerb, HOTFIX_PREFIX};
use crate::text::{
    after_prefix, ascii_smalls, begins, cat, cat3, cat4, cat5, chars_of, digit, first_parts,
    lemma_first_parts_cat, lemma_parts_cat, owned,
    split_first, starts_with, string_from, strip_prefix, trim, trimmed,
};

verus! {

// ── Slugs ───────────────────────────────────────────────────────────────────

/// `s` in small letters, in the sense of Unicode.
pub uninterp spec fn lowercased(s: Seq<char>) -> Seq<char>;

/// `str::to_lowercase` gives a string in small letters. The contract names its
/// result, which the characters determine, and says what it is on ASCII.
pub assume_specification[ str::to_lowercase ](s: &str) -> (r: String)
    ensures
        r@ == lowercased(s@),
        (forall|i: int| 0 <= i < s@.len() ==> (#[trigger] s@[i] as u32) < 128) ==> r@
            == ascii_smalls(s@),
;

/// `s` with a dash for every underscore and every space.
pub open spec fn dashed_words(s: Seq<char>) -> Seq<char> {
    Seq::new(
        s.len(),
        |i: int|
            if s[i] == '_' || s[i] == ' ' {
                '-'
            } else {
                s[i]
            },
    )
}

/// Whether a character may stand in a slug.
pub open spec fn slug_char(c: char) -> bool {
    ('a' <= c <= 'z') || digit(c) || c == '-'
}

/// `s` without the dashes it begins with.
pub open spec fn without_leading_dashes(s: Seq<char>) -> Seq<char>
    decreases s.len(),
{
    if s.len() > 0 && s[0] == '-' {
        without_leading_dashes(s.skip(1))
    } else {
        s
    }
}

/// `s` without the dashes it ends with.
pub open spec fn without_trailing_dashes(s: Seq<char>) -> Seq<char>
    decreases s.len(),
{
    if s.len() > 0 && s.last() == '-' {
        without_trailing_dashes(s.drop_last())
    } else {
        s
    }
}

/// The slug that a text in small letters gives: dashes between words, nothing
/// but `[a-z0-9-]`, and no dash at either end.
pub open spec fn slug_in(lowered: Seq<char>) -> Result<Seq<char>, Seq<Seq<char>>> {
    let s = dashed_words(lowered);
    if s.len() == 0 {
        Err(seq!["slug cannot be empty"@])
    } else if exists|i: int| 0 <= i < s.len() && !slug_char(#[trigger] s[i]) {
        Err(seq!["slug may only contain [a-z0-9-]"@])
    } else {
        Ok(without_trailing_dashes(without_leading_dashes(s)))
    }
}

/// The slug that a text in small letters gives.
pub fn slug_of(lowered: &str) -> (r: Result<String, Failure>)
    ensures
        outcome(r) == slug_in(lowered@),
{
    let mut v = chars_of(lowered);
    let ghost s = dashed_words(lowered@);
    let n = v.len();
    if n == 0 {
        return Err(Failure::msg("slug cannot be empty".to_owned()));
    }
    let mut i: usize = 0;
    while i < n
        invariant
            i <= n == v@.len() == lowered@.len(),
            s == dashed_words(lowered@),
            forall|k: int| 0 <= k < i ==> v@[k] == s[k],
            forall|k: int| i <= k < n ==> v@[k] == lowered@[k],
            forall|k: int| 0 <= k < i ==> slug_char(#[trigger] s[k]),
            0 < n,
        decreases n - i,
    {
        let c = if v[i] == '_' || v[i] == ' ' {
            '-'
        } else {
            v[i]
        };
        assert(c == s[i as int]);
        if !(('a' <= c && c <= 'z') || ('0' <= c && c <= '9') || c == '-') {
            assert(!slug_char(s[i as int]));
            return Err(Failure::msg("slug may only contain [a-z0-9-]".to_owned()));
        }
        v.set(i, c);
        i += 1;
    }
    assert(v@ =~= s);
    let mut a: usize = 0;
    assert(s.skip(0) =~= s);
    while a < n && v[a] == '-'
        invariant
            v@ == s,
            a <= n == s.len(),
            without_leading_dashes(s) == without_leading_dashes(s.skip(a as int)),
        decreases n - a,
    {
        assert(s.skip(a as int).skip(1) =~= s.skip(a + 1));
        a += 1;
    }
    let ghost t = s.skip(a as int);
    let mut b: usize = n;
    assert(t.take(t.len() as int) =~= t);
    while b > a && v[b - 1] == '-'
        invariant
            v@ == s,
            a <= b <= n == s.len(),
            t == s.skip(a as int),
            without_trailing_dashes(t) == without_trailing_dashes(t.take(b - a)),
        decreases b,
    {
        assert(t.take(b - a).drop_last() =~= t.take(b - a - 1));
        b -= 1;
    }
    assert(s.subrange(a as int, b as int) =~= t.take(b - a));
    Ok(string_from(&v, a, b))
}

/// The slug that a user's words give.
pub fn normalize_slug(input: &str) -> (r: Result<String, Failure>)
    ensures
        outcome(r) == slug_in(lowercased(trimmed(input@))),
{
    let lowered = trim(input).to_lowercase();
    slug_of(lowered.as_str())
}

// ── Dates ───────────────────────────────────────────────────────────────────

/// Whether a text is a month and a day of two digits each.
pub open spec fn valid_mmdd(s: Seq<char>) -> bool {
    s.len() == 4 && all_digits(s) && 1 <= value_of(s.take(2)) <= 12 && 1 <= value_of(s.skip(2))
        <= 31
}

/// Why a text is no month and day, if it is none.
pub open spec fn mmdd_checked(s: Seq<char>) -> Result<(), Seq<Seq<char>>> {
    if s.len() != 4 || !all_digits(s) {
        Err(seq!["date must be MMDD"@])
    } else if !valid_mmdd(s) {
        Err(seq!["invalid MMDD date"@])
    } else {
        Ok(())
    }
}

proof fn lemma_two_digits(s: Seq<char>)
    requires
        s.len() == 2,
        all_digits(s),
    ensures
        value_of(s) == (s[0] as u32 - 48) * 10 + (s[1] as u32 - 48),
{
    assert(s.drop_last().drop_last() =~= seq![]);
    assert(digit(s[0]) && digit(s[1]));
    assert(value_of(s.drop_last().drop_last()) == 0);
    assert(value_of(s.drop_last()) == (s[0] as u32 - 48));
}

/// Checks that a text is a month and a day.
pub fn validate_mmdd(mmdd: &str) -> (r: Result<(), Failure>)
    ensures
        outcome(r) == mmdd_checked(mmdd@),
{
    let v = chars_of(mmdd);
    let mut ok = v.len() == 4;
    let mut i: usize = 0;
    while i < v.len()
        invariant
            v@ == mmdd@,
            i <= v@.len(),
            ok == (v@.len() == 4 && forall|k: int| 0 <= k < i ==> digit(#[trigger] mmdd@[k])),
        decreases v@.len() - i,
    {
        if !('0' <= v[i] && v[i] <= '9') {
            assert(!digit(mmdd@[i as int]));
            ok = false;
        }
        i += 1;
    }
    assert(ok == (mmdd@.len() == 4 && all_digits(mmdd@)));
    if !ok {
        return Err(Failure::msg("date must be MMDD".to_owned()));
    }
    assert(digit(mmdd@[0]) && digit(mmdd@[1]) && digit(mmdd@[2]) && digit(mmdd@[3]));
    let month: u32 = (v[0] as u32 - 48) * 10 + (v[1] as u32 - 48);
    let day: u32 = (v[2] as u32 - 48) * 10 + (v[3] as u32 - 48);
    proof {
        assert forall|k: int| 0 <= k < 2 implies digit(#[trigger] mmdd@.take(2)[k]) by {
            assert(digit(mmdd@[k]));
        }
        assert forall|k: int| 0 <= k < 2 implies digit(#[trigger] mmdd@.skip(2)[k]) by {
            assert(digit(mmdd@[k + 2]));
        }
        lemma_two_digits(mmdd@.take(2));
        lemma_two_digits(mmdd@.skip(2));
    }
    if month == 0 || month > 12 || day == 0 || day > 31 {
        return Err(Failure::msg("invalid MMDD date".to_owned()));
    }
    Ok(())
}

/// What came of formatting the current time.
#[derive(Debug)]
pub enum NowText {
    Text(String),
    /// The description is none; why.
    BadDescription(String),
    /// The time could not be formatted by it; why.
    Unformatted(String),
}

/// [`NowText`] by its characters.
pub enum NowTextView {
    Text(Seq<char>),
    BadDescription(Seq<char>),
    Unformatted(Seq<char>),
}

impl DeepView for NowText {
    type V = NowTextView;

    open spec fn deep_view(&self) -> NowTextView {
        match self {
            NowText::Text(s) => NowTextView::Text(s@),
            NowText::BadDescription(e) => NowTextView::BadDescription(e@),
            NowText::Unformatted(e) => NowTextView::Unformatted(e@),
        }
    }
}

/// Whether formatting gave a month and a day of two digits each.
pub open spec fn is_mmdd(now: NowTextView) -> bool {
    now matches NowTextView::Text(s) && valid_mmdd(s)
}

/// Formats the current time with `time::OffsetDateTime::format`, as local time
/// where `now_local` can tell the offset and as `now_utc` where it cannot, by
/// the description that `time::format_description::parse_borrowed` reads.
///
/// Which text comes out depends on the clock. The contract claims what every
/// clock has in common: `[month repr:numerical][day]` is a description, every
/// time has a month and a day, and each is written as two digits, with a zero in
/// front where it has only one. Of any other description it claims nothing.
#[verifier::external_body]
fn format_now(description: &str) -> (r: NowText)
    ensures
        description@ == "[month repr:numerical][day]"@ ==> is_mmdd(r.deep_view()),
{
    let now = time::OffsetDateTime::now_local().unwrap_or_else(|_| time::OffsetDateTime::now_utc());
    match time::format_description::parse_borrowed::<1>(description) {
        Ok(items) => match now.format(&items) {
            Ok(text) => NowText::Text(text),
            Err(e) => NowText::Unformatted(e.to_string()),
        },
        Err(e) => NowText::BadDescription(e.to_string()),
    }
}

/// The month and day that a formatted time gives, or why it gives none.
pub open spec fn mmdd_of(now: NowTextView) -> Result<Seq<char>, Seq<Seq<char>>> {
    match now {
        NowTextView::Text(s) => match mmdd_checked(s) {
            Ok(()) => Ok(s),
            Err(e) => Err(e),
        },
        NowTextView::BadDescription(why) => Err(seq!["bad date format"@, why]),
        NowTextView::Unformatted(why) => Err(seq!["failed to format current date"@, why]),
    }
}

/// The month and day that a formatted time gives.
pub fn mmdd_from(now: NowText) -> (r: Result<String, Failure>)
    ensures
        outcome(r) == mmdd_of(now.deep_view()),
{
    match now {
        NowText::Text(s) => match validate_mmdd(s.as_str()) {
            Ok(()) => Ok(s),
            Err(e) => Err(e),
        },
        NowText::BadDescription(why) => {
            let e = Failure::msg(why).context("bad date format".to_owned());
            assert(e.deep_view() =~= seq!["bad date format"@, why@]);
            Err(e)
        },
        NowText::Unformatted(why) => {
            let e = Failure::msg(why).context("failed to format current date".to_owned());
            assert(e.deep_view() =~= seq!["failed to format current date"@, why@]);
            Err(e)
        },
    }
}

/// The current date as month and day. The clock decides which, but there always
/// is one.
pub fn current_mmdd() -> (r: Result<String, Failure>)
    ensures
        r matches Ok(s) && valid_mmdd(s@),
{
    mmdd_from(format_now("[month repr:numerical][day]"))
}

// ── Numbers ─────────────────────────────────────────────────────────────────

/// The highest of the numbers, or zero.
pub open spec fn highest(numbers: Seq<u32>) -> u32
    decreases numbers.len(),
{
    if numbers.len() == 0 {
        0
    } else if highest(numbers.drop_last()) < numbers.last() {
        numbers.last()
    } else {
        highest(numbers.drop_last())
    }
}

/// Every number is at most the highest.
pub proof fn lemma_highest(numbers: Seq<u32>, i: int)
    requires
        0 <= i < numbers.len(),
    ensures
        numbers[i] <= highest(numbers),
    decreases numbers.len(),
{
    if i < numbers.len() - 1 {
        lemma_highest(numbers.drop_last(), i);
    }
}

/// The numbers of the rolls.
pub open spec fn roll_numbers(rolls: Seq<RollView>) -> Seq<u32> {
    Seq::new(rolls.len(), |i: int| rolls[i].number)
}

/// The highest roll number, or zero.
pub fn highest_roll(rolls: &Vec<RollInfo>) -> (r: u32)
    ensures
        r == highest(roll_numbers(rolls.deep_view())),
{
    let ghost all = roll_numbers(rolls.deep_view());
    let mut n: u32 = 0;
    let mut i: usize = 0;
    while i < rolls.len()
        invariant
            i <= rolls@.len(),
            all == roll_numbers(rolls.deep_view()),
            n == highest(all.take(i as int)),
        decreases rolls@.len() - i,
    {
        assert(all.take(i + 1).drop_last() =~= all.take(i as int));
        assert(all[i as int] == rolls@[i as int].number);
        if n < rolls[i].number {
            n = rolls[i].number;
        }
        i += 1;
    }
    assert(all.take(all.len() as int) =~= all);
    n
}

/// The numbers of the hotfix branches among `names`.
pub open spec fn hotfix_numbers(names: Seq<Seq<char>>) -> Seq<u32> {
    crate::seqs::kept(names, |b: Seq<char>| roll_number(b, HOTFIX_PREFIX@))
}

/// The highest hotfix number among branch names, or zero.
pub fn highest_hotfix(names: &Vec<String>) -> (r: u32)
    ensures
        r == highest(hotfix_numbers(names.deep_view())),
{
    let ghost all = names.deep_view();
    let ghost f = |b: Seq<char>| roll_number(b, HOTFIX_PREFIX@);
    let mut n: u32 = 0;
    let mut i: usize = 0;
    proof {
        crate::seqs::lemma_kept_ends(all, f);
    }
    while i < names.len()
        invariant
            i <= names@.len(),
            all == names.deep_view(),
            f == (|b: Seq<char>| roll_number(b, HOTFIX_PREFIX@)),
            n == highest(crate::seqs::kept(all.take(i as int), f)),
        decreases names@.len() - i,
    {
        let ghost done = crate::seqs::kept(all.take(i as int), f);
        proof {
            crate::seqs::lemma_kept_step(all, i as int, f);
        }
        match parse_roll_number(names[i].as_str(), HOTFIX_PREFIX) {
            Some(k) => {
                assert(done.push(k).drop_last() =~= done);
                if n < k {
                    n = k;
                }
            },
            None => {},
        }
        i += 1;
    }
    n
}

/// The number of the next hotfix: one past the highest there is.
pub fn next_hotfix_number(names: &Vec<String>) -> (r: u32)
    requires
        highest(hotfix_numbers(names.deep_view())) < u32::MAX,
    ensures
        r == highest(hotfix_numbers(names.deep_view())) + 1,
{
    highest_hotfix(names) + 1
}

// ── New branches ────────────────────────────────────────────────────────────

/// A new branch, and what it starts from.
#[derive(Debug)]
pub struct CreateOutcome {
    pub branch: String,
    pub stable: String,
    pub dry_run: bool,
}

/// [`CreateOutcome`] by its characters.
pub struct CreateView {
    pub branch: Seq<char>,
    pub stable: Seq<char>,
    pub dry_run: bool,
}

impl DeepView for CreateOutcome {
    type V = CreateView;

    open spec fn deep_view(&self) -> CreateView {
        CreateView { branch: self.branch@, stable: self.stable@, dry_run: self.dry_run }
    }
}

/// The name of a new branch: its prefix and number, the date and the slug.
pub open spec fn branch_name(
    prefix: Seq<char>,
    number: nat,
    mmdd: Seq<char>,
    slug: Seq<char>,
) -> Seq<char> {
    prefix + decimal(number) + "-"@ + mmdd + "-"@ + slug
}

/// The new branch that a slug and a date give, numbered one past `top`, or why
/// there is none: the stable branch is missing, or the slug or the date is no
/// good, in that order.
pub open spec fn named_branch(
    prefix: Seq<char>,
    stable: Seq<char>,
    stable_exists: bool,
    slug: Result<Seq<char>, Seq<Seq<char>>>,
    mmdd: Seq<char>,
    top: u32,
    dry_run: bool,
) -> Result<CreateView, Seq<Seq<char>>> {
    if !stable_exists {
        Err(seq!["stable branch '"@ + stable + "' not found"@])
    } else {
        match slug {
            Err(e) => Err(e),
            Ok(s) => match mmdd_checked(mmdd) {
                Err(e) => Err(e),
                Ok(()) => Ok(
                    CreateView {
                        branch: branch_name(prefix, (top + 1) as nat, mmdd, s),
                        stable,
                        dry_run,
                    },
                ),
            },
        }
    }
}

fn name_branch(
    prefix: &str,
    stable: &str,
    stable_exists: bool,
    slug: &str,
    date: Option<String>,
    top: u32,
    dry_run: bool,
) -> (r: Result<CreateOutcome, Failure>)
    requires
        top < u32::MAX,
    ensures
        date matches Some(d) ==> outcome(r) == named_branch(
            prefix@,
            stable@,
            stable_exists,
            slug_in(lowercased(trimmed(slug@))),
            d@,
            top,
            dry_run,
        ),
        date is None && (!stable_exists || slug_in(lowercased(trimmed(slug@))) is Err)
            ==> outcome(r) == named_branch(
            prefix@,
            stable@,
            stable_exists,
            slug_in(lowercased(trimmed(slug@))),
            ""@,
            top,
            dry_run,
        ),
        date is None && stable_exists && slug_in(lowercased(trimmed(slug@))) is Ok
            ==> exists|mmdd: Seq<char>|
            valid_mmdd(mmdd) && outcome(r) == #[trigger] named_branch(
                prefix@,
                stable@,
                stable_exists,
                slug_in(lowercased(trimmed(slug@))),
                mmdd,
                top,
                dry_run,
            ),
{
    if !stable_exists {
        return Err(Failure::msg(cat3("stable branch '", stable, "' not found")));
    }
    let normalized = match normalize_slug(slug) {
        Ok(s) => s,
        Err(e) => {
            return Err(e);
        },
    };
    let mmdd = match date {
        Some(d) => d,
        None => match current_mmdd() {
            Ok(d) => d,
            Err(e) => {
                return Err(e);
            },
        },
    };
    match validate_mmdd(mmdd.as_str()) {
        Ok(()) => {},
        Err(e) => {
            return Err(e);
        },
    }
    let number = to_decimal(top as u64 + 1);
    let front = cat5(prefix, number.as_str(), "-", mmdd.as_str(), "-");
    let branch = cat(front.as_str(), normalized.as_str());
    let ghost made = CreateView { branch: branch@, stable: stable@, dry_run };
    assert(named_branch(
        prefix@,
        stable@,
        stable_exists,
        slug_in(lowercased(trimmed(slug@))),
        mmdd@,
        top,
        dry_run,
    ) == Ok::<CreateView, Seq<Seq<char>>>(made));
    Ok(CreateOutcome { branch, stable: owned(stable), dry_run })
}

/// Names a new roll off the stable branch. Without a date the current one is
/// taken.
pub fn create(
    config: &Config,
    stable_exists: bool,
    slug: &str,
    date: Option<String>,
    rolls: &Vec<RollInfo>,
    dry_run: bool,
) -> (r: Result<CreateOutcome, Failure>)
    requires
        highest(roll_numbers(rolls.deep_view())) < u32::MAX,
    ensures
        date matches Some(d) ==> outcome(r) == named_branch(
            config.roll_prefix@,
            config.stable_branch@,
            stable_exists,
            slug_in(lowercased(trimmed(slug@))),
            d@,
            highest(roll_numbers(rolls.deep_view())),
            dry_run,
        ),
        date is None && (!stable_exists || slug_in(lowercased(trimmed(slug@))) is Err)
            ==> outcome(r) == named_branch(
            config.roll_prefix@,
            config.stable_branch@,
            stable_exists,
            slug_in(lowercased(trimmed(slug@))),
            ""@,
            highest(roll_numbers(rolls.deep_view())),
            dry_run,
        ),
        date is None && stable_exists && slug_in(lowercased(trimmed(slug@))) is Ok
            ==> exists|mmdd: Seq<char>|
            valid_mmdd(mmdd) && outcome(r) == #[trigger] named_branch(
                config.roll_prefix@,
                config.stable_branch@,
                stable_exists,
                slug_in(lowercased(trimmed(slug@))),
                mmdd,
                highest(roll_numbers(rolls.deep_view())),
                dry_run,
            ),
{
    let top = highest_roll(rolls);
    name_branch(
        config.roll_prefix.as_str(),
        config.stable_branch.as_str(),
        stable_exists,
        slug,
        date,
        top,
        dry_run,
    )
}

/// Names a new hotfix off the stable branch. Hotfixes have numbers of their own;
/// `names` are the hotfix branches there are, here and on the remote.
pub fn hotfix_create(
    config: &Config,
    stable_exists: bool,
    slug: &str,
    date: Option<String>,
    names: &Vec<String>,
    dry_run: bool,
) -> (r: Result<CreateOutcome, Failure>)
    requires
        highest(hotfix_numbers(names.deep_view())) < u32::MAX,
    ensures
        date matches Some(d) ==> outcome(r) == named_branch(
            HOTFIX_PREFIX@,
            config.stable_branch@,
            stable_exists,
            slug_in(lowercased(trimmed(slug@))),
            d@,
            highest(hotfix_numbers(names.deep_view())),
            dry_run,
        ),
        date is None && (!stable_exists || slug_in(lowercased(trimmed(slug@))) is Err)
            ==> outcome(r) == named_branch(
            HOTFIX_PREFIX@,
            config.stable_branch@,
            stable_exists,
            slug_in(lowercased(trimmed(slug@))),
            ""@,
            highest(hotfix_numbers(names.deep_view())),
            dry_run,
        ),
        date is None && stable_exists && slug_in(lowercased(trimmed(slug@))) is Ok
            ==> exists|mmdd: Seq<char>|
            valid_mmdd(mmdd) && outcome(r) == #[trigger] named_branch(
                HOTFIX_PREFIX@,
                config.stable_branch@,
                stable_exists,
                slug_in(lowercased(trimmed(slug@))),
                mmdd,
                highest(hotfix_numbers(names.deep_view())),
                dry_run,
            ),
{
    let top = highest_hotfix(names);
    name_branch(
        HOTFIX_PREFIX,
        config.stable_branch.as_str(),
        stable_exists,
        slug,
        date,
        top,
        dry_run,
    )
}

/// The arguments that make a new branch, unless it exists or nothing may
/// change. `kind` is the word for the branch in the refusal.
pub open spec fn creation_args(o: CreateView, kind: Seq<char>, exists_already: bool) -> Result<
    Option<Seq<Seq<char>>>,
    Seq<Seq<char>>,
> {
    if exists_already {
        Err(seq![kind + " branch '"@ + o.branch + "' already exists"@])
    } else if o.dry_run {
        Ok(None)
    } else {
        Ok(Some(seq!["checkout"@, "-b"@, o.branch, o.stable]))
    }
}

/// The arguments that make a new branch, unless it exists or nothing may
/// change.
pub fn create_branch(o: &CreateOutcome, kind: &str, exists_already: bool) -> (r: Result<
    Option<Vec<String>>,
    Failure,
>)
    ensures
        outcome(r) == creation_args(o.deep_view(), kind@, exists_already),
{
    if exists_already {
        return Err(
            Failure::msg(cat4(kind, " branch '", o.branch.as_str(), "' already exists")),
        );
    }
    if o.dry_run {
        return Ok(None);
    }
    let args = vec!["checkout".to_owned(), "-b".to_owned(), o.branch.clone(), o.stable.clone()];
    assert(args.deep_view() =~= seq!["checkout"@, "-b"@, o.branch@, o.stable@]);
    Ok(Some(args))
}

/// The arguments that integrate a branch into the current roll, or why that
/// cannot be.
pub open spec fn integration(
    prefix: Seq<char>,
    current: Seq<char>,
    branch: Seq<char>,
    branch_exists: bool,
) -> Result<Seq<Seq<char>>, Seq<Seq<char>>> {
    if !begins(current, prefix) {
        Err(seq!["must be on a roll branch to integrate (current: "@ + current + ")"@])
    } else if !branch_exists {
        Err(seq!["branch not found: "@ + branch])
    } else {
        Ok(seq!["merge"@, "--no-ff"@, branch])
    }
}

/// The arguments that integrate a branch into the current roll.
pub fn integrate(config: &Config, current: &str, branch: &str, branch_exists: bool) -> (r: Result<
    Vec<String>,
    Failure,
>)
    ensures
        outcome(r) == integration(config.roll_prefix@, current@, branch@, branch_exists),
{
    if !starts_with(current, config.roll_prefix.as_str()) {
        return Err(
            Failure::msg(
                cat3("must be on a roll branch to integrate (current: ", current, ")"),
            ),
        );
    }
    if !branch_exists {
        return Err(Failure::msg(cat("branch not found: ", branch)));
    }
    let args = vec!["merge".to_owned(), "--no-ff".to_owned(), owned(branch)];
    assert(args.deep_view() =~= seq!["merge"@, "--no-ff"@, branch@]);
    Ok(args)
}

// ── Landing a hotfix ────────────────────────────────────────────────────────

/// The short form of a hotfix branch's name: without the date.
pub open spec fn short_hotfix(branch: Seq<char>) -> Option<Seq<char>> {
    match after_prefix(branch, HOTFIX_PREFIX@) {
        Some(rest) => {
            let p = first_parts(rest, '-', 3);
            if p.len() == 3 && p[0].len() > 0 && p[2].len() > 0 {
                Some(HOTFIX_PREFIX@ + p[0] + "-"@ + p[2])
            } else {
                None
            }
        },
        None => None,
    }
}

/// The short form of a hotfix branch's name: without the date.
pub fn hotfix_short_name(branch: &str) -> (r: Option<String>)
    ensures
        r.deep_view() == short_hotfix(branch@),
{
    match strip_prefix(branch, HOTFIX_PREFIX) {
        Some(rest) => {
            let p = split_first(rest, '-', 3);
            assert(p.deep_view().len() == p@.len());
            if p.len() != 3 {
                return None;
            }
            assert(p.deep_view()[0] == p@[0]@ && p.deep_view()[2] == p@[2]@);
            if p[0].as_str().is_empty() || p[2].as_str().is_empty() {
                return None;
            }
            Some(cat4(HOTFIX_PREFIX, p[0].as_str(), "-", p[2].as_str()))
        },
        None => None,
    }
}

/// The short name that the current hotfix lands under, or why it cannot.
pub open spec fn landing_name_of(current: Seq<char>) -> Result<Seq<char>, Seq<Seq<char>>> {
    if !begins(current, HOTFIX_PREFIX@) {
        Err(
            seq![
                "rf hotfix --land must be run from a hotfix branch (current: '"@ + current + "')"@,
            ],
        )
    } else {
        match short_hotfix(current) {
            Some(s) => Ok(s),
            None => Err(seq!["could not parse hotfix branch name '"@ + current + "'"@]),
        }
    }
}

/// The short name that the current hotfix lands under.
pub fn landing_name(current: &str) -> (r: Result<String, Failure>)
    ensures
        outcome(r) == landing_name_of(current@),
{
    if !starts_with(current, HOTFIX_PREFIX) {
        return Err(
            Failure::msg(
                cat3(
                    "rf hotfix --land must be run from a hotfix branch (current: '",
                    current,
                    "')",
                ),
            ),
        );
    }
    match hotfix_short_name(current) {
        Some(s) => Ok(s),
        None => Err(
            Failure::msg(cat3("could not parse hotfix branch name '", current, "'")),
        ),
    }
}

/// The two merges that land a hotfix: into the stable branch, and from there
/// into the rolling branch, so that the two never drift apart.
#[derive(Debug)]
pub struct LandPlan {
    pub current: String,
    pub stable: String,
    pub rolling: String,
    pub land_subject: String,
    pub reintegrate_subject: String,
}

/// [`LandPlan`] by its characters.
pub struct LandPlanView {
    pub current: Seq<char>,
    pub stable: Seq<char>,
    pub rolling: Seq<char>,
    pub land_subject: Seq<char>,
    pub reintegrate_subject: Seq<char>,
}

impl DeepView for LandPlan {
    type V = LandPlanView;

    open spec fn deep_view(&self) -> LandPlanView {
        LandPlanView {
            current: self.current@,
            stable: self.stable@,
            rolling: self.rolling@,
            land_subject: self.land_subject@,
            reintegrate_subject: self.reintegrate_subject@,
        }
    }
}

/// The subject of the merge that lands a hotfix.
pub open spec fn landing_subject(short: Seq<char>, stable: Seq<char>) -> Seq<char> {
    "Hotfix "@ + short + " into "@ + stable
}

/// The subject of the merge that brings a landed hotfix into rolling.
pub open spec fn reintegration_subject(
    stable: Seq<char>,
    rolling: Seq<char>,
    short: Seq<char>,
) -> Seq<char> {
    "Reintegrate "@ + stable + " into "@ + rolling + " (hotfix "@ + short + ")"@
}

/// The merges that land the current hotfix, or why it cannot land.
pub open spec fn landing(
    config: ConfigView,
    current: Seq<char>,
    on_origin: bool,
    f: MergeFactsView,
) -> Result<LandPlanView, Seq<Seq<char>>> {
    match landing_name_of(current) {
        Err(e) => Err(e),
        Ok(short) => match viable(MergeVerb::Land, current, config.stable_branch, on_origin, f) {
            Err(e) => Err(e),
            Ok(_) => Ok(
                LandPlanView {
                    current,
                    stable: config.stable_branch,
                    rolling: config.rolling_branch,
                    land_subject: landing_subject(short, config.stable_branch),
                    reintegrate_subject: reintegration_subject(
                        config.stable_branch,
                        config.rolling_branch,
                        short,
                    ),
                },
            ),
        },
    }
}

/// Plans the merges that land the current hotfix. `on_origin` says whether the
/// stable branch exists on the remote.
pub fn hotfix_land(config: &Config, current: &str, on_origin: bool, facts: &MergeFacts) -> (r: Result<
    LandPlan,
    Failure,
>)
    ensures
        outcome(r) == landing(config.deep_view(), current@, on_origin, facts.deep_view()),
{
    let short = match landing_name(current) {
        Ok(s) => s,
        Err(e) => {
            return Err(e);
        },
    };
    let stable = config.stable_branch.as_str();
    let rolling = config.rolling_branch.as_str();
    match check_merge(MergeVerb::Land, current, stable, on_origin, facts) {
        Err(e) => Err(e),
        Ok(_) => {
            let front = cat5("Reintegrate ", stable, " into ", rolling, " (hotfix ");
            Ok(
                LandPlan {
                    current: owned(current),
                    stable: owned(stable),
                    rolling: owned(rolling),
                    land_subject: cat4("Hotfix ", short.as_str(), " into ", stable),
                    reintegrate_subject: cat3(front.as_str(), short.as_str(), ")"),
                },
            )
        },
    }
}

/// The two merges that land a hotfix, started from `original`, in the order in
/// which they are made: the hotfix into the stable branch, and then stable into
/// the rolling branch.
pub fn landing_merges(plan: &LandPlan, original: &str) -> (r: (MergeRun, MergeRun))
    ensures
        r.0.deep_view() == (MergeRunView {
            source: plan.current@,
            target: plan.stable@,
            original: original@,
            subject: plan.land_subject@,
            body: None,
            gated: false,
            stage: StageView::Checkout,
        }),
        r.1.deep_view() == (MergeRunView {
            source: plan.stable@,
            target: plan.rolling@,
            original: original@,
            subject: plan.reintegrate_subject@,
            body: None,
            gated: false,
            stage: StageView::Checkout,
        }),
{
    let land = MergeRun::plain(
        plan.current.as_str(),
        plan.stable.as_str(),
        original,
        plan.land_subject.as_str(),
        None,
    );
    let reintegrate = MergeRun::plain(
        plan.stable.as_str(),
        plan.rolling.as_str(),
        original,
        plan.reintegrate_subject.as_str(),
        None,
    );
    (land, reintegrate)
}

/// A new branch's number is above that of every roll there is.
pub proof fn law_new_number_is_fresh(rolls: Seq<RollView>, i: int)
    requires
        0 <= i < rolls.len(),
        highest(roll_numbers(rolls)) < u32::MAX,
    ensures
        rolls[i].number < highest(roll_numbers(rolls)) + 1,
{
    lemma_highest(roll_numbers(rolls), i);
}

/// A text in small letters gives a slug exactly when it is not empty and holds
/// nothing but letters, digits, dashes, underscores and spaces.
pub proof fn law_slugs_come_from_words(lowered: Seq<char>)
    ensures
        slug_in(lowered) is Ok <==> lowered.len() > 0 && forall|i: int|
            0 <= i < lowered.len() ==> {
                let c = #[trigger] lowered[i];
                'a' <= c <= 'z' || '0' <= c <= '9' || c == '-' || c == '_' || c == ' '
            },
{
    let s = dashed_words(lowered);
    assert forall|i: int| 0 <= i < lowered.len() implies slug_char(s[i]) == ({
        let c = #[trigger] lowered[i];
        'a' <= c <= 'z' || '0' <= c <= '9' || c == '-' || c == '_' || c == ' '
    }) by {}
    if slug_in(lowered) is Ok {
        assert forall|i: int| 0 <= i < lowered.len() implies ({
            let c = #[trigger] lowered[i];
            'a' <= c <= 'z' || '0' <= c <= '9' || c == '-' || c == '_' || c == ' '
        }) by {
            assert(slug_char(s[i]));
        }
    } else if lowered.len() > 0 {
        let i = choose|i: int| 0 <= i < s.len() && !slug_char(#[trigger] s[i]);
        assert(!({
            let c = lowered[i];
            'a' <= c <= 'z' || '0' <= c <= '9' || c == '-' || c == '_' || c == ' '
        }));
    }
}

proof fn lemma_leading_dashes(s: Seq<char>)
    ensures
        ({
            let r = without_leading_dashes(s);
            let n = s.len() - r.len();
            &&& 0 <= n
            &&& r == s.skip(n)
            &&& forall|i: int| 0 <= i < n ==> #[trigger] s[i] == '-'
            &&& r.len() > 0 ==> r[0] != '-'
        }),
    decreases s.len(),
{
    if s.len() > 0 && s[0] == '-' {
        let t = s.skip(1);
        lemma_leading_dashes(t);
        let r = without_leading_dashes(s);
        let n = s.len() - r.len();
        assert(r =~= s.skip(n));
        assert forall|i: int| 0 <= i < n implies #[trigger] s[i] == '-' by {
            if i > 0 {
                assert(t[i - 1] == '-');
            }
        }
    } else {
        assert(s.skip(0) =~= s);
    }
}

proof fn lemma_trailing_dashes(s: Seq<char>)
    ensures
        ({
            let r = without_trailing_dashes(s);
            &&& r.len() <= s.len()
            &&& r == s.take(r.len() as int)
            &&& forall|i: int| r.len() <= i < s.len() ==> #[trigger] s[i] == '-'
            &&& r.len() > 0 ==> r.last() != '-'
        }),
    decreases s.len(),
{
    if s.len() > 0 && s.last() == '-' {
        let t = s.drop_last();
        lemma_trailing_dashes(t);
        let r = without_trailing_dashes(s);
        assert(r =~= s.take(r.len() as int));
        assert forall|i: int| r.len() <= i < s.len() implies #[trigger] s[i] == '-' by {
            if i < t.len() {
                assert(t[i] == '-');
            }
        }
    } else {
        assert(s.take(s.len() as int) =~= s);
    }
}

/// A slug is the text with a dash for each underscore and space and nothing but
/// dashes taken off its ends: it neither begins nor ends with one. `from` is where
/// it begins.
pub proof fn law_slugs_keep_the_words(lowered: Seq<char>) -> (from: int)
    requires
        slug_in(lowered) is Ok,
    ensures
        ({
            let s = slug_in(lowered)->Ok_0;
            &&& 0 <= from && from + s.len() <= lowered.len()
            &&& forall|i: int|
                0 <= i < s.len() ==> #[trigger] s[i] == (if lowered[from + i] == '_' || lowered[from
                    + i] == ' ' {
                    '-'
                } else {
                    lowered[from + i]
                })
            &&& forall|i: int|
                (0 <= i < from || from + s.len() <= i < lowered.len()) ==> (#[trigger] lowered[i]
                    == '-' || lowered[i] == '_' || lowered[i] == ' ')
            &&& s.len() > 0 ==> s[0] != '-' && s.last() != '-'
        }),
{
    let d = dashed_words(lowered);
    let a = without_leading_dashes(d);
    let s = without_trailing_dashes(a);
    lemma_leading_dashes(d);
    lemma_trailing_dashes(a);
    let n = d.len() - a.len();
    assert forall|i: int| (0 <= i < n || n + s.len() <= i < lowered.len()) implies (
    #[trigger] lowered[i] == '-' || lowered[i] == '_' || lowered[i] == ' ') by {
        if i < n {
            assert(d[i] == '-');
        } else {
            assert(a[i - n] == '-');
            assert(d[i] == '-');
        }
    }
    n
}

/// A text is a date exactly when it is four digits of which the first two write a
/// month and the last two a day of a month.
pub proof fn law_dates_are_month_and_day(s: Seq<char>)
    ensures
        mmdd_checked(s) is Ok <==> s.len() == 4 && (forall|i: int|
            0 <= i < 4 ==> '0' <= #[trigger] s[i] <= '9') && 1 <= (s[0] as u32 - 48) * 10 + (
        s[1] as u32 - 48) <= 12 && 1 <= (s[2] as u32 - 48) * 10 + (s[3] as u32 - 48) <= 31,
{
    if s.len() == 4 && all_digits(s) {
        assert forall|i: int| 0 <= i < 4 implies '0' <= #[trigger] s[i] <= '9' by {
            assert(digit(s[i]));
        }
        assert(all_digits(s.take(2)));
        assert forall|i: int| 0 <= i < 2 implies digit(#[trigger] s.skip(2)[i]) by {
            assert(digit(s[i + 2]));
        }
        assert(all_digits(s.skip(2)));
        lemma_two_digits(s.take(2));
        lemma_two_digits(s.skip(2));
    }
    if s.len() == 4 && (forall|i: int| 0 <= i < 4 ==> '0' <= #[trigger] s[i] <= '9') {
        assert(all_digits(s));
    }
}

/// The highest number is one of the numbers, and none is above it; without numbers
/// it is zero.
pub proof fn law_highest_is_the_greatest(numbers: Seq<u32>)
    ensures
        numbers.len() == 0 ==> highest(numbers) == 0,
        numbers.len() > 0 ==> numbers.contains(highest(numbers)),
        forall|i: int| 0 <= i < numbers.len() ==> #[trigger] numbers[i] <= highest(numbers),
    decreases numbers.len(),
{
    if numbers.len() > 0 {
        let rest = numbers.drop_last();
        law_highest_is_the_greatest(rest);
        assert(numbers[numbers.len() - 1] == numbers.last());
        if rest.len() > 0 && highest(rest) >= numbers.last() {
            let i = choose|i: int| 0 <= i < rest.len() && rest[i] == highest(rest);
            assert(numbers[i] == highest(rest));
        }
        if rest.len() == 0 && highest(rest) >= numbers.last() {
            assert(numbers[0] == 0);
        }
        assert forall|i: int| 0 <= i < numbers.len() implies #[trigger] numbers[i] <= highest(
            numbers,
        ) by {
            if i < rest.len() {
                assert(rest[i] == numbers[i]);
            }
        }
    }
}

/// The hotfix numbers are those that the names of hotfix branches hold.
pub proof fn law_hotfixes_have_their_own_numbers(names: Seq<Seq<char>>, n: u32)
    ensures
        hotfix_numbers(names).contains(n) <==> exists|i: int|
            0 <= i < names.len() && roll_number(#[trigger] names[i], HOTFIX_PREFIX@) == Some(n),
{
    let g = |b: Seq<char>| roll_number(b, HOTFIX_PREFIX@);
    crate::seqs::lemma_kept_contains(names, g, n);
    if hotfix_numbers(names).contains(n) {
        let i = choose|i: int| 0 <= i < names.len() && g(#[trigger] names[i]) == Some(n);
        assert(roll_number(names[i], HOTFIX_PREFIX@) == Some(n));
    }
    if exists|i: int|
        0 <= i < names.len() && roll_number(#[trigger] names[i], HOTFIX_PREFIX@) == Some(n) {
        let i = choose|i: int|
            0 <= i < names.len() && roll_number(#[trigger] names[i], HOTFIX_PREFIX@) == Some(n);
        assert(g(names[i]) == Some(n));
    }
}

/// A new branch is named exactly when the stable branch exists, the slug is good
/// and the date is one. It starts from stable, carries the prefix, and reads back
/// under the number that follows the highest one.
pub proof fn law_new_branches_carry_the_next_number(
    prefix: Seq<char>,
    stable: Seq<char>,
    stable_exists: bool,
    slug: Result<Seq<char>, Seq<Seq<char>>>,
    mmdd: Seq<char>,
    top: u32,
    dry_run: bool,
)
    requires
        top < u32::MAX,
    ensures
        ({
            let r = named_branch(prefix, stable, stable_exists, slug, mmdd, top, dry_run);
            &&& r is Ok <==> stable_exists && slug is Ok && mmdd_checked(mmdd) is Ok
            &&& r matches Ok(o) ==> {
                &&& begins(o.branch, prefix)
                &&& roll_number(o.branch, prefix) == Some((top + 1) as u32)
                &&& o.stable == stable
                &&& o.dry_run == dry_run
                &&& o.branch == prefix + decimal((top + 1) as nat) + "-"@ + mmdd + "-"@
                    + slug->Ok_0
            }
        }),
{
    let r = named_branch(prefix, stable, stable_exists, slug, mmdd, top, dry_run);
    if r is Ok {
        reveal_strlit("-");
        let b = r->Ok_0.branch;
        let n = (top + 1) as nat;
        let d = decimal(n);
        let rest = mmdd + "-"@ + slug->Ok_0;
        assert("-"@ =~= seq!['-']);
        assert(b =~= prefix + (d + seq!['-'] + rest));
        assert(b.take(prefix.len() as int) =~= prefix);
        assert(b.skip(prefix.len() as int) =~= d + seq!['-'] + rest);
        lemma_decimal_value(n);
        assert(forall|i: int| 0 <= i < d.len() ==> digit(#[trigger] d[i]));
        lemma_parts_cat(d, rest, '-');
        law_decimal_reads_back(n, u32::MAX as nat);
    }
}

/// A branch that exists is never made again, and nothing is made in a dry run;
/// otherwise it is made off the stable branch and checked out.
pub proof fn law_branches_are_made_once(o: CreateView, kind: Seq<char>, exists_already: bool)
    ensures
        creation_args(o, kind, exists_already) is Err <==> exists_already,
        !exists_already && o.dry_run ==> creation_args(o, kind, exists_already)->Ok_0 is None,
        !exists_already && !o.dry_run ==> creation_args(o, kind, exists_already)->Ok_0 == Some(
            seq!["checkout"@, "-b"@, o.branch, o.stable],
        ),
{
}

/// A branch is integrated exactly when a roll is checked out and the branch
/// exists, and then by a merge commit of that branch.
pub proof fn law_only_rolls_integrate(
    prefix: Seq<char>,
    current: Seq<char>,
    branch: Seq<char>,
    branch_exists: bool,
)
    ensures
        integration(prefix, current, branch, branch_exists) is Ok <==> current.len() >= prefix.len()
            && current.take(prefix.len() as int) == prefix && branch_exists,
        integration(prefix, current, branch, branch_exists) matches Ok(args) ==> args
            == seq!["merge"@, "--no-ff"@, branch],
{
}

/// A hotfix lands under its number and slug, without its date.
pub proof fn law_hotfixes_land_without_the_date(n: nat, mmdd: Seq<char>, slug: Seq<char>)
    requires
        mmdd_checked(mmdd) is Ok,
        slug.len() > 0,
    ensures
        landing_name_of(branch_name(HOTFIX_PREFIX@, n, mmdd, slug)) == Ok::<
            Seq<char>,
            Seq<Seq<char>>,
        >(HOTFIX_PREFIX@ + decimal(n) + "-"@ + slug),
{
    reveal_strlit("-");
    let prefix = HOTFIX_PREFIX@;
    let d = decimal(n);
    let b = branch_name(prefix, n, mmdd, slug);
    let tail = mmdd + seq!['-'] + slug;
    let rest = d + seq!['-'] + tail;
    assert("-"@ =~= seq!['-']);
    assert(b =~= prefix + rest);
    assert(b.take(prefix.len() as int) =~= prefix);
    assert(b.skip(prefix.len() as int) =~= rest);
    lemma_decimal_value(n);
    assert(forall|i: int| 0 <= i < d.len() ==> digit(#[trigger] d[i]));
    assert(forall|i: int| 0 <= i < mmdd.len() ==> digit(#[trigger] mmdd[i]));
    lemma_first_parts_cat(d, tail, '-', 3);
    lemma_first_parts_cat(mmdd, slug, '-', 2);
    assert(first_parts(slug, '-', 1) =~= seq![slug]);
    assert(first_parts(rest, '-', 3) =~= seq![d, mmdd, slug]);
}

/// A hotfix lands exactly when a hotfix branch is checked out, its name has a short
/// form, and its merge into stable may go ahead; it goes into stable, and stable
/// goes into rolling.
pub proof fn law_hotfixes_land_on_stable(
    config: ConfigView,
    current: Seq<char>,
    on_origin: bool,
    f: MergeFactsView,
)
    ensures
        ({
            let r = landing(config, current, on_origin, f);
            &&& r is Ok <==> begins(current, HOTFIX_PREFIX@) && short_hotfix(current) is Some
                && viable(MergeVerb::Land, current, config.stable_branch, on_origin, f) is Ok
            &&& r matches Ok(plan) ==> plan.current == current && plan.stable
                == config.stable_branch && plan.rolling == config.rolling_branch
        }),
{
}

} // verus!
