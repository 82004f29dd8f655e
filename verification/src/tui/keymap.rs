//! The keys, and the list that searches them.
use vstd::prelude::*;

use crate::config::alphanumeric;
use crate::num::{decimal, to_decimal};
use crate::ops::names::lowercased;
use crate::seqs::{by_rank, lemma_by_rank, lemma_placed_before, placed_at, unranked};
use crate::text::{cat3, cat5, chars_of, is_white, owned, pad, padded, white};
use crate::tui::style::{
    control, in_color, is_control, plain_style, raw_span, styled_span, Color, KeyCode, Line, Span,
    SpanView, Style,
};

verus! {

/// One key, or pair of keys, that the view answers to.
#[derive(Debug)]
pub struct Binding {
    /// As shown: `P`, `gg`, `j / ↓`.
    pub keys: String,
    pub label: String,
    pub group: String,
    /// What the status bar says of it, for the few that someone needs first.
    pub hint: Option<String>,
    /// The keys to press to run it; none where there is nothing to run.
    pub replay: Vec<KeyCode>,
}

/// [`Binding`] by its characters.
pub struct BindingView {
    pub keys: Seq<char>,
    pub label: Seq<char>,
    pub group: Seq<char>,
    pub hint: Option<Seq<char>>,
    pub replay: Seq<KeyCode>,
}

impl DeepView for Binding {
    type V = BindingView;

    open spec fn deep_view(&self) -> BindingView {
        BindingView {
            keys: self.keys@,
            label: self.label@,
            group: self.group@,
            hint: self.hint.deep_view(),
            replay: self.replay@,
        }
    }
}

/// A binding by its characters.
pub open spec fn shown_binding(
    keys: Seq<char>,
    label: Seq<char>,
    group: Seq<char>,
    hint: Option<Seq<char>>,
    replay: Seq<KeyCode>,
) -> BindingView {
    BindingView { keys, label, group, hint, replay }
}

fn binding(
    keys: &str,
    label: &str,
    group: &str,
    hint: Option<&str>,
    replay: Vec<KeyCode>,
) -> (r: Binding)
    ensures
        r.deep_view() == shown_binding(
            keys@,
            label@,
            group@,
            match hint {
                Some(h) => Some(h@),
                None => None,
            },
            replay@,
        ),
{
    Binding {
        keys: owned(keys),
        label: owned(label),
        group: owned(group),
        hint: match hint {
            Some(h) => Some(owned(h)),
            None => None,
        },
        replay,
    }
}

fn no_keys() -> (r: Vec<KeyCode>)
    ensures
        r@ == Seq::<KeyCode>::empty(),
{
    Vec::new()
}

fn one_key(a: KeyCode) -> (r: Vec<KeyCode>)
    ensures
        r@ == seq![a],
{
    let r = vec![a];
    assert(r@ =~= seq![a]);
    r
}

fn two_keys(a: KeyCode, b: KeyCode) -> (r: Vec<KeyCode>)
    ensures
        r@ == seq![a, b],
{
    let r = vec![a, b];
    assert(r@ =~= seq![a, b]);
    r
}

/// Every key that the view answers to.
pub open spec fn keymap() -> Seq<BindingView> {
    seq![
        shown_binding("j / ↓"@, "move down"@, "navigate"@, Some("[j/k ↑/↓] nav"@), seq![KeyCode::Char('j')]),
        shown_binding("k / ↑"@, "move up"@, "navigate"@, None, seq![KeyCode::Char('k')]),
        shown_binding("space"@, "switch to the selected branch"@, "navigate"@, Some("[space] switch"@), seq![KeyCode::Char(' ')]),
        shown_binding("enter"@, "roll detail: dependencies and divergence"@, "navigate"@, Some("[enter] detail"@), seq![KeyCode::Enter]),
        shown_binding("r"@, "reload the roll list"@, "navigate"@, None, seq![KeyCode::Char('r')]),
        shown_binding("?"@, "search every key"@, "navigate"@, Some("[?] keys"@), seq![]),
        shown_binding("q"@, "quit"@, "navigate"@, Some("[q] quit"@), seq![KeyCode::Char('q')]),
        shown_binding("p"@, "pull the selected branch"@, "sync"@, None, seq![KeyCode::Char('p')]),
        shown_binding("P"@, "push the selected branch"@, "sync"@, None, seq![KeyCode::Char('P')]),
        shown_binding("f"@, "fetch and prune remote-tracking refs"@, "sync"@, None, seq![KeyCode::Char('f')]),
        shown_binding("gg"@, "hand the terminal to lazygit"@, "sync"@, None, seq![KeyCode::Char('g'), KeyCode::Char('g')]),
        shown_binding("c"@, "create a new roll"@, "roll"@, None, seq![KeyCode::Char('c')]),
        shown_binding("i"@, "integrate the selected roll into this one"@, "roll"@, None, seq![KeyCode::Char('i')]),
        shown_binding("v"@, "verify the checked-out branch"@, "roll"@, None, seq![KeyCode::Char('v')]),
        shown_binding("G"@, "graduate the selected roll into rolling"@, "roll"@, None, seq![KeyCode::Char('G')]),
        shown_binding("m"@, "promote to stable"@, "roll"@, None, seq![KeyCode::Char('m')]),
        shown_binding("u"@, "update active rolls from stable"@, "roll"@, None, seq![KeyCode::Char('u')]),
        shown_binding("b"@, "bump the version on the checked-out branch"@, "roll"@, None, seq![KeyCode::Char('b')]),
        shown_binding("d"@, "delete the selected branch"@, "branches"@, None, seq![KeyCode::Char('d')]),
        shown_binding("x"@, "prune promoted roll branches, local and origin"@, "branches"@, None, seq![KeyCode::Char('x')]),
        shown_binding("t"@, "tidy local roll branches, leaving origin alone"@, "branches"@, None, seq![KeyCode::Char('t')]),
        shown_binding("esc"@, "close the output panel"@, "output"@, None, seq![KeyCode::Esc]),
        shown_binding("PgUp"@, "scroll the output panel up"@, "output"@, None, seq![KeyCode::PageUp]),
        shown_binding("PgDn"@, "scroll the output panel down"@, "output"@, None, seq![KeyCode::PageDown]),
        shown_binding("End"@, "follow new output again"@, "output"@, None, seq![KeyCode::End]),
    ]
}

/// Every key that the view answers to.
#[verifier::rlimit(40)]
pub fn bindings() -> (r: Vec<Binding>)
    ensures
        r.deep_view() == keymap(),
{
    let r = vec![
        binding("j / ↓", "move down", "navigate", Some("[j/k ↑/↓] nav"), one_key(KeyCode::Char('j'))),
        binding("k / ↑", "move up", "navigate", None, one_key(KeyCode::Char('k'))),
        binding("space", "switch to the selected branch", "navigate", Some("[space] switch"), one_key(KeyCode::Char(' '))),
        binding("enter", "roll detail: dependencies and divergence", "navigate", Some("[enter] detail"), one_key(KeyCode::Enter)),
        binding("r", "reload the roll list", "navigate", None, one_key(KeyCode::Char('r'))),
        binding("?", "search every key", "navigate", Some("[?] keys"), no_keys()),
        binding("q", "quit", "navigate", Some("[q] quit"), one_key(KeyCode::Char('q'))),
        binding("p", "pull the selected branch", "sync", None, one_key(KeyCode::Char('p'))),
        binding("P", "push the selected branch", "sync", None, one_key(KeyCode::Char('P'))),
        binding("f", "fetch and prune remote-tracking refs", "sync", None, one_key(KeyCode::Char('f'))),
        binding("gg", "hand the terminal to lazygit", "sync", None, two_keys(KeyCode::Char('g'), KeyCode::Char('g'))),
        binding("c", "create a new roll", "roll", None, one_key(KeyCode::Char('c'))),
        binding("i", "integrate the selected roll into this one", "roll", None, one_key(KeyCode::Char('i'))),
        binding("v", "verify the checked-out branch", "roll", None, one_key(KeyCode::Char('v'))),
        binding("G", "graduate the selected roll into rolling", "roll", None, one_key(KeyCode::Char('G'))),
        binding("m", "promote to stable", "roll", None, one_key(KeyCode::Char('m'))),
        binding("u", "update active rolls from stable", "roll", None, one_key(KeyCode::Char('u'))),
        binding("b", "bump the version on the checked-out branch", "roll", None, one_key(KeyCode::Char('b'))),
        binding("d", "delete the selected branch", "branches", None, one_key(KeyCode::Char('d'))),
        binding("x", "prune promoted roll branches, local and origin", "branches", None, one_key(KeyCode::Char('x'))),
        binding("t", "tidy local roll branches, leaving origin alone", "branches", None, one_key(KeyCode::Char('t'))),
        binding("esc", "close the output panel", "output", None, one_key(KeyCode::Esc)),
        binding("PgUp", "scroll the output panel up", "output", None, one_key(KeyCode::PageUp)),
        binding("PgDn", "scroll the output panel down", "output", None, one_key(KeyCode::PageDown)),
        binding("End", "follow new output again", "output", None, one_key(KeyCode::End)),
    ];
    assert(r.deep_view() =~= keymap());
    r
}

// ── Searching ───────────────────────────────────────────────────────────────

/// Where a character is found in `hay`, from `at` on.
pub open spec fn found_from(hay: Seq<char>, at: int, c: char) -> Option<int>
    decreases hay.len() - at,
{
    if at < 0 || at >= hay.len() {
        None
    } else if hay[at] == c {
        Some(at)
    } else {
        found_from(hay, at + 1, c)
    }
}

/// What a match at `f` adds to the score when the last one was at `last`: a
/// run counts for much, the start of a word for a little less, and a gap
/// against it.
pub open spec fn match_score(hay: Seq<char>, f: int, last: Option<int>) -> int {
    (if last == Some(f - 1) {
        8
    } else {
        -1int
    }) + (if f == 0 || !alphanumeric(hay[f - 1]) {
        6
    } else {
        0int
    })
}

/// How well `pat` is found in `hay` from `at` on, as letters in order, and where
/// the first of them is; none where it is not found. White space in `pat`
/// counts for nothing.
pub open spec fn matched(hay: Seq<char>, pat: Seq<char>, at: int, last: Option<int>) -> Option<
    (int, Option<int>),
>
    decreases pat.len(),
{
    if pat.len() == 0 {
        Some((0, None))
    } else if white(pat[0]) {
        matched(hay, pat.skip(1), at, last)
    } else {
        match found_from(hay, at, pat[0]) {
            None => None,
            Some(f) => match matched(hay, pat.skip(1), f + 1, Some(f)) {
                None => None,
                Some((score, _)) => Some((score + match_score(hay, f, last), Some(f))),
            },
        }
    }
}

/// `n` as an `i32`, or the nearest there is.
pub open spec fn as_i32(n: int) -> i32 {
    if n < i32::MIN {
        i32::MIN
    } else if n > i32::MAX {
        i32::MAX
    } else {
        n as i32
    }
}

/// The score of `pat` against `hay`: of two that match alike, the earlier wins.
pub open spec fn score_of(hay: Seq<char>, pat: Seq<char>) -> Option<i32> {
    if pat.len() == 0 {
        Some(0)
    } else {
        match matched(hay, pat, 0, None) {
            None => None,
            Some((score, first)) => Some(
                as_i32(
                    score - (match first {
                        Some(f) => f / 4,
                        None => 0,
                    }),
                ),
            ),
        }
    }
}

fn find_char(hay: &Vec<char>, from: usize, c: char) -> (r: Option<usize>)
    ensures
        match r {
            Some(f) => found_from(hay@, from as int, c) == Some(f as int) && from <= f < hay@.len(),
            None => found_from(hay@, from as int, c) is None,
        },
{
    let mut i: usize = from;
    while i < hay.len()
        invariant
            from <= i,
            found_from(hay@, from as int, c) == found_from(hay@, i as int, c),
        decreases hay@.len() - i,
    {
        if hay[i] == c {
            return Some(i);
        }
        i += 1;
    }
    None
}

/// How a match so far and the rest of it come together.
pub open spec fn continued(
    score: int,
    first: Option<int>,
    rest: Option<(int, Option<int>)>,
) -> Option<(int, Option<int>)> {
    match rest {
        None => None,
        Some((s, f)) => Some(
            (
                score + s,
                match first {
                    Some(_) => first,
                    None => f,
                },
            ),
        ),
    }
}

/// Scores letters against a text, both in small letters already.
pub fn fuzzy_match(hay: &str, pat: &str) -> (r: Option<i32>)
    ensures
        r == score_of(hay@, pat@),
{
    let h = chars_of(hay);
    let p = chars_of(pat);
    if p.len() == 0 {
        return Some(0);
    }
    let n = p.len();
    let mut score: i128 = 0;
    let mut at: usize = 0;
    let mut last: Option<usize> = None;
    let mut first: Option<usize> = None;
    let mut i: usize = 0;
    assert(p@.skip(0) =~= p@);
    while i < n
        invariant
            i <= n,
            n == p@.len(),
            n > 0,
            h@ == hay@,
            p@ == pat@,
            at <= h@.len(),
            -(i as int) <= score <= 14 * i,
            last is Some ==> first is Some && last->Some_0 < h@.len(),
            last is None ==> first is None,
            first is Some ==> first->Some_0 < h@.len(),
            matched(h@, p@, 0, None) == continued(
                score as int,
                match first {
                    Some(f) => Some(f as int),
                    None => None,
                },
                matched(
                    h@,
                    p@.skip(i as int),
                    at as int,
                    match last {
                        Some(l) => Some(l as int),
                        None => None,
                    },
                ),
            ),
        decreases n - i,
    {
        let ghost rest = p@.skip(i as int);
        assert(rest.skip(1) =~= p@.skip(i + 1));
        assert(rest[0] == p@[i as int]);
        let want = p[i];
        if !is_white(want) {
            match find_char(&h, at, want) {
                None => {
                    return None;
                },
                Some(found) => {
                    let run = match last {
                        Some(l) => found > 0 && l == found - 1,
                        None => false,
                    };
                    if run {
                        score = score + 8;
                    } else {
                        score = score - 1;
                    }
                    if found == 0 || !h[found - 1].is_alphanumeric() {
                        score = score + 6;
                    }
                    if first.is_none() {
                        first = Some(found);
                    }
                    last = Some(found);
                    at = found + 1;
                },
            }
        }
        i += 1;
    }
    assert(p@.skip(n as int).len() == 0);
    let early: i128 = match first {
        Some(f) => (f / 4) as i128,
        None => 0,
    };
    let total = score - early;
    let r: i32 = if total < -2147483648 {
        i32::MIN
    } else if total > 2147483647 {
        i32::MAX
    } else {
        total as i32
    };
    Some(r)
}

/// Scores a query against a text, whatever the case of their letters. The
/// letters of the query have to occur in order; none where they do not.
pub fn fuzzy_score(haystack: &str, needle: &str) -> (r: Option<i32>)
    ensures
        r == score_of(lowercased(haystack@), lowercased(needle@)),
{
    let hay = haystack.to_lowercase();
    let pat = needle.to_lowercase();
    fuzzy_match(hay.as_str(), pat.as_str())
}

/// What a query is held against: the keys, the label and the group.
pub open spec fn searched(b: BindingView) -> Seq<char> {
    b.keys + " "@ + b.label + " "@ + b.group
}

/// The bindings among the first `n` that match, each with its rank and index.
pub open spec fn scored(query: Seq<char>, n: nat) -> Seq<(int, usize)>
    decreases n,
{
    if n == 0 {
        seq![]
    } else {
        let i = (n - 1) as nat;
        match score_of(lowercased(searched(keymap()[i as int])), lowercased(query)) {
            Some(score) => scored(query, i).push((-(score as int), i as usize)),
            None => scored(query, i),
        }
    }
}

/// The bindings that match a query, best first; those that match alike stand as
/// in the keymap.
pub open spec fn matching(query: Seq<char>) -> Seq<usize> {
    unranked(by_rank(scored(query, keymap().len())))
}

/// The ranks and indices of bindings.
pub open spec fn ranked(scores: Seq<i32>, indices: Seq<usize>) -> Seq<(int, usize)> {
    Seq::new(indices.len(), |i: int| (-(scores[i] as int), indices[i]))
}

fn insert_match(scores: &mut Vec<i32>, indices: &mut Vec<usize>, score: i32, index: usize)
    requires
        old(scores)@.len() == old(indices)@.len(),
    ensures
        final(scores)@.len() == final(indices)@.len(),
        ranked(final(scores)@, final(indices)@) == placed_at(
            ranked(old(scores)@, old(indices)@),
            (-(score as int), index),
        ),
{
    let ghost s = ranked(scores@, indices@);
    let ghost y = (-(score as int), index);
    let mut p: usize = scores.len();
    assert(s.take(p as int) =~= s);
    assert(placed_at(s, y) =~= placed_at(s.take(p as int), y) + s.skip(p as int));
    while p > 0 && scores[p - 1] < score
        invariant
            scores@.len() == indices@.len(),
            s == ranked(scores@, indices@),
            y == (-(score as int), index),
            p <= s.len(),
            s.len() == scores@.len(),
            placed_at(s, y) == placed_at(s.take(p as int), y) + s.skip(p as int),
        decreases p,
    {
        proof {
            lemma_placed_before(s, y, p as int);
        }
        p -= 1;
    }
    scores.insert(p, score);
    indices.insert(p, index);
    assert(s.take(p as int).push(y) + s.skip(p as int) =~= s.insert(p as int, y));
    assert(ranked(scores@, indices@) =~= s.insert(p as int, y));
}

/// The bindings that match a query, best first, as indices into the keymap.
pub fn filter_bindings(query: &str) -> (r: Vec<usize>)
    ensures
        r@ == matching(query@),
{
    let all = bindings();
    let ghost map = all.deep_view();
    let mut scores: Vec<i32> = Vec::new();
    let mut indices: Vec<usize> = Vec::new();
    let mut i: usize = 0;
    assert(ranked(scores@, indices@) =~= by_rank(scored(query@, 0)));
    while i < all.len()
        invariant
            i <= all@.len(),
            map == all.deep_view(),
            map == keymap(),
            scores@.len() == indices@.len(),
            ranked(scores@, indices@) == by_rank(scored(query@, i as nat)),
        decreases all@.len() - i,
    {
        let b = &all[i];
        assert(map[i as int] == b.deep_view());
        let hay = cat5(b.keys.as_str(), " ", b.label.as_str(), " ", b.group.as_str());
        match fuzzy_score(hay.as_str(), query) {
            Some(score) => {
                let ghost before = scored(query@, i as nat);
                let ghost next = before.push((-(score as int), i));
                assert(next.drop_last() =~= before);
                assert(scored(query@, (i + 1) as nat) == next);
                insert_match(&mut scores, &mut indices, score, i);
            },
            None => {},
        }
        i += 1;
    }
    assert(indices@ =~= unranked(ranked(scores@, indices@)));
    indices
}

// ── The list ────────────────────────────────────────────────────────────────

/// What a key in the list does.
#[derive(Debug, Clone, Copy, PartialEq, Eq, Structural)]
pub enum HelpOutcome {
    /// The list stays open.
    Continue,
    Close,
    /// The binding at this index runs, and the list closes.
    Run(usize),
}

/// What a key in the list does to the query, the cursor, and the list. A change
/// of the query puts the cursor back on the first row.
pub open spec fn help_step(query: Seq<char>, cursor: usize, code: KeyCode) -> (
    Seq<char>,
    usize,
    HelpOutcome,
) {
    let rows = matching(query);
    match code {
        KeyCode::Esc => (query, cursor, HelpOutcome::Close),
        KeyCode::Enter => (
            query,
            cursor,
            if cursor < rows.len() {
                HelpOutcome::Run(rows[cursor as int])
            } else {
                HelpOutcome::Close
            },
        ),
        KeyCode::Down => (
            query,
            if cursor + 1 < rows.len() {
                (cursor + 1) as usize
            } else if rows.len() == 0 {
                0
            } else {
                (rows.len() - 1) as usize
            },
            HelpOutcome::Continue,
        ),
        KeyCode::Up => (
            query,
            if cursor == 0 {
                0
            } else {
                (cursor - 1) as usize
            },
            HelpOutcome::Continue,
        ),
        KeyCode::Backspace => (
            if query.len() == 0 {
                query
            } else {
                query.drop_last()
            },
            0,
            HelpOutcome::Continue,
        ),
        KeyCode::Char(c) => if control(c) {
            (query, cursor, HelpOutcome::Continue)
        } else {
            (query.push(c), 0, HelpOutcome::Continue)
        },
        _ => (query, cursor, HelpOutcome::Continue),
    }
}

/// Drops the last character of a text, if it has one.
pub fn drop_last_char(s: &mut String)
    ensures
        final(s)@ == (if old(s)@.len() == 0 {
            old(s)@
        } else {
            old(s)@.drop_last()
        }),
{
    let n = s.as_str().unicode_len();
    if n > 0 {
        let front = s.as_str().substring_char(0, n - 1).to_owned();
        assert(front@ =~= s@.drop_last());
        *s = front;
    }
}

/// Applies a key to the list.
pub fn handle_help_key(query: &mut String, cursor: &mut usize, code: KeyCode) -> (r: HelpOutcome)
    ensures
        (final(query)@, *final(cursor), r) == help_step(old(query)@, *old(cursor), code),
{
    match code {
        KeyCode::Esc => HelpOutcome::Close,
        KeyCode::Enter => {
            let rows = filter_bindings(query.as_str());
            if *cursor < rows.len() {
                HelpOutcome::Run(rows[*cursor])
            } else {
                HelpOutcome::Close
            }
        },
        KeyCode::Down => {
            let len = filter_bindings(query.as_str()).len();
            let at = *cursor;
            *cursor = if at < len && at + 1 < len {
                at + 1
            } else if len == 0 {
                0
            } else {
                len - 1
            };
            HelpOutcome::Continue
        },
        KeyCode::Up => {
            let at = *cursor;
            *cursor = if at == 0 {
                0
            } else {
                at - 1
            };
            HelpOutcome::Continue
        },
        KeyCode::Backspace => {
            drop_last_char(query);
            *cursor = 0;
            HelpOutcome::Continue
        },
        KeyCode::Char(c) => {
            if !is_control(c) {
                query.push(c);
                *cursor = 0;
            }
            HelpOutcome::Continue
        },
        _ => HelpOutcome::Continue,
    }
}

/// The hints of the first `n` bindings, in one line.
pub open spec fn hints(n: nat) -> Seq<char>
    decreases n,
{
    if n == 0 {
        seq![]
    } else {
        let before = hints((n - 1) as nat);
        match keymap()[n - 1].hint {
            Some(h) => before + (if before.len() == 0 {
                " "@
            } else {
                "   "@
            }) + h,
            None => before,
        }
    }
}

/// The one line of hints in the status bar.
pub fn basic_hints() -> (r: String)
    ensures
        r@ == hints(keymap().len()),
{
    let all = bindings();
    let ghost map = all.deep_view();
    let mut line = String::new();
    let mut i: usize = 0;
    assert(line@ =~= hints(0));
    while i < all.len()
        invariant
            i <= all@.len(),
            map == all.deep_view(),
            map == keymap(),
            line@ == hints(i as nat),
        decreases all@.len() - i,
    {
        assert(map[i as int] == all@[i as int].deep_view());
        match &all[i].hint {
            Some(h) => {
                let gap = if line.as_str().unicode_len() == 0 {
                    " "
                } else {
                    "   "
                };
                line = cat3(line.as_str(), gap, h.as_str());
            },
            None => {},
        }
        i += 1;
    }
    line
}

/// The number of characters of the longest of `values`.
pub open spec fn widest(values: Seq<Seq<char>>) -> nat
    decreases values.len(),
{
    if values.len() == 0 {
        0
    } else {
        let before = widest(values.drop_last());
        if values.last().len() > before {
            values.last().len()
        } else {
            before
        }
    }
}

/// The number of characters of the longest of `values`.
pub fn column_width(values: &Vec<String>) -> (r: usize)
    ensures
        r == widest(values.deep_view()),
{
    let ghost all = values.deep_view();
    let mut w: usize = 0;
    let mut i: usize = 0;
    while i < values.len()
        invariant
            i <= values@.len(),
            all == values.deep_view(),
            w == widest(all.take(i as int)),
        decreases values@.len() - i,
    {
        assert(all.take(i + 1).drop_last() =~= all.take(i as int));
        let n = values[i].as_str().unicode_len();
        if n > w {
            w = n;
        }
        i += 1;
    }
    assert(all.take(all.len() as int) =~= all);
    w
}

/// The keys of all bindings.
pub open spec fn all_keys() -> Seq<Seq<char>> {
    Seq::new(keymap().len(), |i: int| keymap()[i].keys)
}

/// The labels of all bindings.
pub open spec fn all_labels() -> Seq<Seq<char>> {
    Seq::new(keymap().len(), |i: int| keymap()[i].label)
}

/// How many rows the list has in an area of the given height.
pub open spec fn help_rows(height: u16, matches: nat) -> nat {
    let room = if height >= 9 {
        (height - 8) as nat
    } else {
        1
    };
    if matches < room {
        matches
    } else {
        room
    }
}

/// The first row that is shown: the list scrolls once the cursor leaves it.
pub open spec fn help_first(cursor: nat, rows: nat) -> nat {
    let last = if rows == 0 {
        0
    } else {
        (rows - 1) as nat
    };
    if cursor >= last {
        (cursor - last) as nat
    } else {
        0
    }
}

/// One row of the list.
pub open spec fn help_row(b: BindingView, selected: bool) -> Seq<SpanView> {
    seq![
        raw_span(
            if selected {
                "▶ "@
            } else {
                "  "@
            },
        ),
        styled_span(
            padded(b.keys, widest(all_keys())),
            (Style { bold: true, ..in_color(Color::Yellow) }),
        ),
        raw_span("  "@),
        styled_span(
            padded(b.label, widest(all_labels())),
            if selected {
                (Style { reversed: true, ..plain_style() })
            } else {
                plain_style()
            },
        ),
        raw_span("  "@),
        styled_span(b.group, in_color(Color::DarkGray)),
    ]
}

/// How many rows are shown from `first` on.
pub open spec fn rows_from(first: nat, rows: nat, matches: nat) -> nat {
    if first >= matches {
        0
    } else if matches - first < rows {
        (matches - first) as nat
    } else {
        rows
    }
}

/// The lines of the list: the query, the rows, what does not fit, and the keys.
pub open spec fn help_lines(query: Seq<char>, cursor: usize, height: u16) -> Seq<Seq<SpanView>> {
    let all = matching(query);
    let rows = help_rows(height, all.len());
    let first = help_first(cursor as nat, rows);
    let dim = in_color(Color::DarkGray);
    let head = seq![
        seq![
            styled_span("> "@, in_color(Color::Cyan)),
            raw_span(query),
            styled_span("_"@, in_color(Color::Cyan)),
        ],
        seq![raw_span(""@)],
    ];
    let nothing = if all.len() == 0 {
        seq![seq![styled_span("no key matches"@, dim)]]
    } else {
        seq![]
    };
    let listed = Seq::new(
        rows_from(first, rows, all.len()),
        |k: int| help_row(keymap()[all[first + k] as int], first + k == cursor),
    );
    let more = if all.len() > rows {
        seq![
            seq![
                styled_span(
                    "… "@ + decimal((all.len() - rows) as nat) + " more, keep typing"@,
                    dim,
                ),
            ],
        ]
    } else {
        seq![]
    };
    let foot = seq![
        seq![raw_span(""@)],
        seq![
            styled_span(
                "type to filter   [↑/↓] move   [enter] run   [esc] close"@,
                dim,
            ),
        ],
    ];
    head + nothing + listed + more + foot
}

/// Every row that the list shows is one of the keymap.
pub proof fn lemma_matching_in_range(query: Seq<char>)
    ensures
        matching(query).len() <= keymap().len(),
        forall|k: int| 0 <= k < matching(query).len() ==> #[trigger] matching(query)[k] < keymap().len(),
{
    broadcast use vstd::seq_lib::group_to_multiset_ensures;

    let n = keymap().len();
    lemma_scored(query, n);
    let s = scored(query, n);
    lemma_by_rank(s);
    let sorted = by_rank(s);
    assert forall|k: int| 0 <= k < matching(query).len() implies #[trigger] matching(query)[k]
        < n by {
        assert(sorted.contains(sorted[k]));
        assert(sorted.to_multiset().count(sorted[k]) > 0);
        assert(s.contains(sorted[k]));
        let j = choose|j: int| 0 <= j < s.len() && s[j] == sorted[k];
        assert(s[j].1 < n);
    }
}

proof fn lemma_scored(query: Seq<char>, n: nat)
    requires
        n <= keymap().len(),
    ensures
        scored(query, n).len() <= n,
        forall|k: int|
            0 <= k < scored(query, n).len() ==> (#[trigger] scored(query, n)[k]).1 < n && score_of(
                lowercased(searched(keymap()[scored(query, n)[k].1 as int])),
                lowercased(query),
            ) == Some((-scored(query, n)[k].0) as i32) && i32::MIN <= -scored(query, n)[k].0
                <= i32::MAX,
        forall|i: usize|
            i < n && score_of(
                lowercased(searched(keymap()[i as int])),
                lowercased(query),
            ) is Some ==> exists|k: int|
                0 <= k < scored(query, n).len() && (#[trigger] scored(query, n)[k]).1 == i,
    decreases n,
{
    if n > 0 {
        let m = (n - 1) as nat;
        lemma_scored(query, m);
        let s = scored(query, n);
        let t = scored(query, m);
        assert(keymap().len() == 25);
        assert forall|i: usize|
            i < n && score_of(
                lowercased(searched(keymap()[i as int])),
                lowercased(query),
            ) is Some implies exists|k: int|
            0 <= k < s.len() && (#[trigger] s[k]).1 == i by {
            if i < m {
                let k = choose|k: int| 0 <= k < t.len() && (#[trigger] t[k]).1 == i;
                assert(s[k] == t[k]);
            } else {
                assert(s[s.len() - 1].1 == i);
            }
        }
    }
}

/// The lines of the list, in an area of the given height.
#[verifier::rlimit(40)]
pub fn render_help(query: &str, cursor: usize, height: u16) -> (r: Vec<Line>)
    ensures
        r.deep_view() == help_lines(query@, cursor, height),
{
    let map = bindings();
    let ghost mv = map.deep_view();
    let matches = filter_bindings(query);
    let ghost all = matches@;
    proof {
        lemma_matching_in_range(query@);
    }
    let mut keys: Vec<String> = Vec::new();
    let mut labels: Vec<String> = Vec::new();
    let mut j: usize = 0;
    while j < map.len()
        invariant
            j <= map@.len(),
            mv == map.deep_view(),
            mv == keymap(),
            keys@.len() == j,
            labels@.len() == j,
            forall|k: int| 0 <= k < j ==> (#[trigger] keys@[k])@ == mv[k].keys,
            forall|k: int| 0 <= k < j ==> (#[trigger] labels@[k])@ == mv[k].label,
        decreases map@.len() - j,
    {
        assert(mv[j as int] == map@[j as int].deep_view());
        keys.push(map[j].keys.clone());
        labels.push(map[j].label.clone());
        j += 1;
    }
    assert(keys.deep_view() =~= all_keys());
    assert(labels.deep_view() =~= all_labels());
    let key_width = column_width(&keys);
    let label_width = column_width(&labels);
    let count = matches.len();
    let room: usize = if height >= 9 {
        (height - 8) as usize
    } else {
        1
    };
    let rows = if count < room {
        count
    } else {
        room
    };
    let last = if rows == 0 {
        0
    } else {
        rows - 1
    };
    let first = if cursor >= last {
        cursor - last
    } else {
        0
    };
    let dim = Style::plain().fg(Color::DarkGray);
    let cyan = Style::plain().fg(Color::Cyan);
    let ghost gdim = in_color(Color::DarkGray);
    let head = vec![Span::styled("> ", cyan), Span::raw(query), Span::styled("_", cyan)];
    let mut lines: Vec<Line> = vec![Line::of(head), Line::raw("")];
    let ghost h0 = seq![
        seq![
            styled_span("> "@, in_color(Color::Cyan)),
            raw_span(query@),
            styled_span("_"@, in_color(Color::Cyan)),
        ],
        seq![raw_span(""@)],
    ];
    assert(head.deep_view() =~= h0[0]);
    assert(lines.deep_view() =~= h0);
    let ghost n0 = if all.len() == 0 {
        seq![seq![styled_span("no key matches"@, gdim)]]
    } else {
        seq![]
    };
    if matches.is_empty() {
        let ghost before = lines.deep_view();
        lines.push(Line::styled("no key matches", dim));
        assert(lines.deep_view() =~= before.push(n0[0]));
    }
    assert(lines.deep_view() =~= h0 + n0);
    let ghost listed = Seq::new(
        rows_from(first as nat, rows as nat, all.len()),
        |k: int| help_row(keymap()[all[first + k] as int], first + k == cursor),
    );
    let mut k: usize = 0;
    assert(lines.deep_view() =~= h0 + n0 + listed.take(0));
    while k < rows && first < count && k < count - first
        invariant
            k <= listed.len(),
            listed.len() == rows_from(first as nat, rows as nat, count as nat),
            count == matches@.len(),
            all == matches@,
            mv == map.deep_view(),
            mv == keymap(),
            all == matching(query@),
            forall|m: int| 0 <= m < all.len() ==> #[trigger] all[m] < mv.len(),
            key_width == widest(all_keys()),
            label_width == widest(all_labels()),
            dim == in_color(Color::DarkGray),
            listed == Seq::new(
                rows_from(first as nat, rows as nat, all.len()),
                |k: int| help_row(keymap()[all[first + k] as int], first + k == cursor),
            ),
            lines.deep_view() == h0 + n0 + listed.take(k as int),
        decreases rows - k,
    {
        let at = matches[first + k];
        assert(all[first + k] < mv.len());
        assert(mv[at as int] == map@[at as int].deep_view());
        let b = &map[at];
        let selected = first + k == cursor;
        let mark = if selected {
            "▶ "
        } else {
            "  "
        };
        let label_style = if selected {
            Style::plain().reversed()
        } else {
            Style::plain()
        };
        let shown_keys = pad(b.keys.as_str(), key_width);
        let shown_label = pad(b.label.as_str(), label_width);
        let spans = vec![
            Span::raw(mark),
            Span::styled(shown_keys.as_str(), Style::plain().fg(Color::Yellow).bold()),
            Span::raw("  "),
            Span::styled(shown_label.as_str(), label_style),
            Span::raw("  "),
            Span::styled(b.group.as_str(), dim),
        ];
        assert(spans.deep_view() =~= help_row(b.deep_view(), selected));
        let ghost before = lines.deep_view();
        lines.push(Line::of(spans));
        assert(listed[k as int] == help_row(b.deep_view(), selected));
        assert(lines.deep_view() =~= before.push(listed[k as int]));
        assert(before.push(listed[k as int]) =~= h0 + n0 + listed.take(k + 1));
        k += 1;
    }
    assert(listed.take(k as int) =~= listed);
    let ghost m0 = if all.len() > rows {
        seq![
            seq![
                styled_span(
                    "… "@ + decimal((all.len() - rows) as nat) + " more, keep typing"@,
                    gdim,
                ),
            ],
        ]
    } else {
        seq![]
    };
    if count > rows {
        let n = to_decimal((count - rows) as u64);
        let text = cat3("… ", n.as_str(), " more, keep typing");
        let ghost before = lines.deep_view();
        lines.push(Line::styled(text.as_str(), dim));
        assert(lines.deep_view() =~= before.push(m0[0]));
    }
    assert(lines.deep_view() =~= h0 + n0 + listed + m0);
    let ghost before = lines.deep_view();
    lines.push(Line::raw(""));
    assert(lines.deep_view() =~= before.push(seq![raw_span(""@)]));
    lines.push(
        Line::styled("type to filter   [↑/↓] move   [enter] run   [esc] close", dim),
    );
    assert(lines.deep_view() =~= before.push(seq![raw_span(""@)]).push(
        seq![
            styled_span(
                "type to filter   [↑/↓] move   [enter] run   [esc] close"@,
                gdim,
            ),
        ],
    ));
    assert(lines.deep_view() =~= help_lines(query@, cursor, height));
    lines
}

// ── Laws ────────────────────────────────────────────────────────────────────

/// The search gives every binding that matches, and no other, best first.
pub proof fn law_search_ranks_all_matches(query: Seq<char>, i: usize)
    requires
        i < keymap().len(),
    ensures
        matching(query).contains(i) <==> score_of(
            lowercased(searched(keymap()[i as int])),
            lowercased(query),
        ) is Some,
        forall|j: int, k: int|
            0 <= j < k < matching(query).len() ==> score_of(
                lowercased(searched(keymap()[#[trigger] matching(query)[j] as int])),
                lowercased(query),
            )->Some_0 >= score_of(
                lowercased(searched(keymap()[#[trigger] matching(query)[k] as int])),
                lowercased(query),
            )->Some_0,
{
    broadcast use vstd::seq_lib::group_to_multiset_ensures;

    let n = keymap().len();
    lemma_scored(query, n);
    let s = scored(query, n);
    lemma_by_rank(s);
    let sorted = by_rank(s);
    let m = matching(query);
    assert forall|j: int| 0 <= j < m.len() implies #[trigger] m[j] < n && score_of(
        lowercased(searched(keymap()[m[j] as int])),
        lowercased(query),
    ) == Some((-sorted[j].0) as i32) && i32::MIN <= -sorted[j].0 <= i32::MAX by {
        assert(sorted.contains(sorted[j]));
        assert(sorted.to_multiset().count(sorted[j]) > 0);
        assert(s.contains(sorted[j]));
        let k = choose|k: int| 0 <= k < s.len() && s[k] == sorted[j];
        assert(s[k].1 < n);
    }
    assert forall|j: int, k: int| 0 <= j < k < m.len() implies score_of(
        lowercased(searched(keymap()[#[trigger] m[j] as int])),
        lowercased(query),
    )->Some_0 >= score_of(
        lowercased(searched(keymap()[#[trigger] m[k] as int])),
        lowercased(query),
    )->Some_0 by {
        assert(sorted[j].0 <= sorted[k].0);
    }
    if m.contains(i) {
        let j = choose|j: int| 0 <= j < m.len() && m[j] == i;
        assert(m[j] < n);
    }
    if score_of(lowercased(searched(keymap()[i as int])), lowercased(query)) is Some {
        let k = choose|k: int| 0 <= k < s.len() && (#[trigger] s[k]).1 == i;
        assert(s.contains(s[k]));
        assert(sorted.to_multiset().count(s[k]) > 0);
        assert(sorted.contains(s[k]));
        let j = choose|j: int| 0 <= j < sorted.len() && sorted[j] == s[k];
        assert(m[j] == i);
    }
}

/// An empty query matches everything with the same score, in the order of the
/// keymap.
pub proof fn law_empty_query_matches_everything(hay: Seq<char>)
    ensures
        score_of(hay, Seq::<char>::empty()) == Some(0i32),
{
}

proof fn lemma_found_from(hay: Seq<char>, at: int, c: char, i: int)
    requires
        0 <= at <= i < hay.len(),
        hay[i] == c,
    ensures
        found_from(hay, at, c) matches Some(f) && at <= f <= i && hay[f] == c,
    decreases i - at,
{
    if hay[at] != c {
        lemma_found_from(hay, at + 1, c, i);
    }
}

proof fn lemma_found_is_there(hay: Seq<char>, at: int, c: char)
    requires
        0 <= at,
    ensures
        found_from(hay, at, c) matches Some(f) ==> at <= f < hay.len() && hay[f] == c,
    decreases hay.len() - at,
{
    if at < hay.len() && hay[at] != c {
        lemma_found_is_there(hay, at + 1, c);
    }
}

/// Whether the places rise, from `at` on, and hold the letters of `pat` one by one.
pub open spec fn spells(hay: Seq<char>, pat: Seq<char>, at: int, places: Seq<int>) -> bool {
    &&& places.len() == pat.len()
    &&& forall|k: int| 0 <= k < places.len() ==> at <= #[trigger] places[k] < hay.len()
    &&& forall|k: int| 0 <= k < places.len() ==> hay[#[trigger] places[k]] == pat[k]
    &&& forall|j: int, k: int| 0 <= j < k < places.len() ==> places[j] < places[k]
}

proof fn lemma_spelled_is_matched(
    hay: Seq<char>,
    pat: Seq<char>,
    at: int,
    last: Option<int>,
    places: Seq<int>,
)
    requires
        0 <= at,
        spells(hay, pat, at, places),
        forall|k: int| 0 <= k < pat.len() ==> !white(#[trigger] pat[k]),
    ensures
        matched(hay, pat, at, last) is Some,
    decreases pat.len(),
{
    if pat.len() > 0 {
        assert(places[0] >= at);
        assert(hay[places[0]] == pat[0]);
        lemma_found_from(hay, at, pat[0], places[0]);
        let f = found_from(hay, at, pat[0])->0;
        let rest = places.skip(1);
        let tail = pat.skip(1);
        assert forall|k: int| 0 <= k < rest.len() implies f + 1 <= #[trigger] rest[k]
            < hay.len() by {
            assert(places[0] < places[k + 1]);
        }
        assert forall|k: int| 0 <= k < rest.len() implies hay[#[trigger] rest[k]] == tail[k] by {
            assert(hay[places[k + 1]] == pat[k + 1]);
        }
        assert forall|j: int, k: int| 0 <= j < k < rest.len() implies rest[j] < rest[k] by {
            assert(places[j + 1] < places[k + 1]);
        }
        assert forall|k: int| 0 <= k < tail.len() implies !white(#[trigger] tail[k]) by {
            assert(!white(pat[k + 1]));
        }
        lemma_spelled_is_matched(hay, tail, f + 1, Some(f), rest);
    }
}

proof fn lemma_matched_is_spelled(hay: Seq<char>, pat: Seq<char>, at: int, last: Option<int>) -> (
    places: Seq<int>)
    requires
        0 <= at,
        matched(hay, pat, at, last) is Some,
        forall|k: int| 0 <= k < pat.len() ==> !white(#[trigger] pat[k]),
    ensures
        spells(hay, pat, at, places),
    decreases pat.len(),
{
    if pat.len() == 0 {
        seq![]
    } else {
        let f = found_from(hay, at, pat[0])->0;
        lemma_found_is_there(hay, at, pat[0]);
        let tail = pat.skip(1);
        assert forall|k: int| 0 <= k < tail.len() implies !white(#[trigger] tail[k]) by {
            assert(!white(pat[k + 1]));
        }
        let rest = lemma_matched_is_spelled(hay, tail, f + 1, Some(f));
        let places = seq![f] + rest;
        assert forall|k: int| 0 <= k < places.len() implies at <= #[trigger] places[k]
            < hay.len() by {
            if k > 0 {
                assert(places[k] == rest[k - 1]);
            }
        }
        assert forall|k: int| 0 <= k < places.len() implies hay[#[trigger] places[k]]
            == pat[k] by {
            if k > 0 {
                assert(places[k] == rest[k - 1]);
                assert(hay[rest[k - 1]] == tail[k - 1]);
            }
        }
        assert forall|j: int, k: int| 0 <= j < k < places.len() implies places[j]
            < places[k] by {
            assert(places[k] == rest[k - 1]);
            if j > 0 {
                assert(places[j] == rest[j - 1]);
            }
        }
        places
    }
}

/// Letters are found in a text exactly when they stand in it in their order, with
/// anything between them.
pub proof fn law_letters_are_found_in_order(hay: Seq<char>, pat: Seq<char>)
    requires
        forall|k: int| 0 <= k < pat.len() ==> !white(#[trigger] pat[k]),
    ensures
        score_of(hay, pat) is Some <==> exists|places: Seq<int>| #[trigger]
            spells(hay, pat, 0, places),
{
    if score_of(hay, pat) is Some {
        if pat.len() == 0 {
            assert(spells(hay, pat, 0, seq![]));
        } else {
            let places = lemma_matched_is_spelled(hay, pat, 0, None);
            assert(spells(hay, pat, 0, places));
        }
    }
    if exists|places: Seq<int>| #[trigger] spells(hay, pat, 0, places) {
        let places = choose|places: Seq<int>| #[trigger] spells(hay, pat, 0, places);
        lemma_spelled_is_matched(hay, pat, 0, None, places);
    }
}

/// The keys of the list: Esc closes it, Enter runs what the cursor is on, the arrows
/// move the cursor within the rows, and a change of the query puts it back on the
/// first.
pub proof fn law_list_keys(query: Seq<char>, cursor: usize, c: char)
    requires
        cursor < matching(query).len(),
        matching(query).len() <= usize::MAX,
    ensures
        help_step(query, cursor, KeyCode::Esc).2 is Close,
        help_step(query, cursor, KeyCode::Enter).2 == HelpOutcome::Run(
            matching(query)[cursor as int],
        ),
        cursor + 1 < matching(query).len() ==> help_step(query, cursor, KeyCode::Down).1 == cursor
            + 1,
        cursor + 1 == matching(query).len() ==> help_step(query, cursor, KeyCode::Down).1 == cursor,
        cursor > 0 ==> help_step(query, cursor, KeyCode::Up).1 == cursor - 1,
        cursor == 0 ==> help_step(query, cursor, KeyCode::Up).1 == 0,
        !control(c) ==> help_step(query, cursor, KeyCode::Char(c)).0 == query.push(c) && help_step(
            query,
            cursor,
            KeyCode::Char(c),
        ).1 == 0,
        query.len() > 0 ==> help_step(query, cursor, KeyCode::Backspace).0 == query.take(
            query.len() - 1,
        ) && help_step(query, cursor, KeyCode::Backspace).1 == 0,
{
    if query.len() > 0 {
        assert(query.drop_last() =~= query.take(query.len() - 1));
    }
}

/// A column is as wide as its longest value, and no wider.
pub proof fn law_columns_are_as_wide_as_their_values(values: Seq<Seq<char>>, i: int)
    requires
        0 <= i < values.len(),
    ensures
        values[i].len() <= widest(values),
        exists|k: int| 0 <= k < values.len() && (#[trigger] values[k]).len() == widest(values),
    decreases values.len(),
{
    let rest = values.drop_last();
    if rest.len() > 0 {
        let j = if i < rest.len() {
            i
        } else {
            0
        };
        law_columns_are_as_wide_as_their_values(rest, j);
        let k = choose|k: int| 0 <= k < rest.len() && (#[trigger] rest[k]).len() == widest(rest);
        assert(values[k] == rest[k]);
        if i < rest.len() {
            assert(values[i] == rest[i]);
        }
    }
    assert(values[values.len() - 1] == values.last());
    if rest.len() == 0 {
        assert(widest(rest) == 0);
        assert(values[0].len() == widest(values));
    }
}

} // verus!
