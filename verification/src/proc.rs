//! Lines of output, and the answers to prompts.
use vstd::prelude::*;

use crate::text::{
    ascii_small, ascii_smalls, decode_lossy, lossy, owned, same, to_ascii_smalls, trim, trimmed,
};

verus! {

/// One line of output, with the stream that it belongs to.
#[derive(Debug, Clone, PartialEq, Eq)]
pub enum OutLine {
    Out(String),
    Error(String),
}

/// [`OutLine`] by its characters.
pub enum OutLineView {
    Out(Seq<char>),
    Error(Seq<char>),
}

impl DeepView for OutLine {
    type V = OutLineView;

    open spec fn deep_view(&self) -> OutLineView {
        match self {
            OutLine::Out(t) => OutLineView::Out(t@),
            OutLine::Error(t) => OutLineView::Error(t@),
        }
    }
}

impl OutLineView {
    /// The text of the line.
    pub open spec fn content(self) -> Seq<char> {
        match self {
            OutLineView::Out(t) => t,
            OutLineView::Error(t) => t,
        }
    }
}

impl OutLine {
    /// The text of the line.
    pub fn text(&self) -> (r: &str)
        ensures
            r@ == self.deep_view().content(),
    {
        match self {
            OutLine::Out(t) => t.as_str(),
            OutLine::Error(t) => t.as_str(),
        }
    }

    /// Whether the line belongs to standard error.
    pub fn is_err(&self) -> (r: bool)
        ensures
            r == (self.deep_view() is Error),
    {
        matches!(self, OutLine::Error(_))
    }
}

/// A line without the line feeds and carriage returns at its end.
pub open spec fn without_line_end(s: Seq<char>) -> Seq<char>
    decreases s.len(),
{
    if s.len() > 0 && (s.last() == '\n' || s.last() == '\r') {
        without_line_end(s.drop_last())
    } else {
        s
    }
}

/// Drops the line feeds and carriage returns at the end of a line.
pub fn trim_line_end<'a>(s: &'a str) -> (r: &'a str)
    ensures
        r@ == without_line_end(s@),
{
    let n = s.unicode_len();
    let mut i: usize = n;
    assert(s@.take(n as int) =~= s@);
    while i > 0
        invariant
            n == s@.len(),
            i <= n,
            without_line_end(s@) == without_line_end(s@.take(i as int)),
        ensures
            i <= n,
            without_line_end(s@) == s@.take(i as int),
        decreases i,
    {
        let c = s.get_char(i - 1);
        if c != '\n' && c != '\r' {
            break;
        }
        assert(s@.take(i as int).drop_last() =~= s@.take(i - 1));
        i -= 1;
    }
    assert(s@.subrange(0, i as int) =~= s@.take(i as int));
    s.substring_char(0, i)
}

/// The line that the bytes up to and with a line feed make. Bytes that are no
/// UTF-8 are replaced rather than dropped.
pub fn pump_line(bytes: &Vec<u8>, is_err: bool) -> (r: OutLine)
    ensures
        r.deep_view() == (if is_err {
            OutLineView::Error(without_line_end(lossy(bytes@)))
        } else {
            OutLineView::Out(without_line_end(lossy(bytes@)))
        }),
{
    let text = decode_lossy(bytes.as_slice());
    let line = owned(trim_line_end(text.as_str()));
    if is_err {
        OutLine::Error(line)
    } else {
        OutLine::Out(line)
    }
}

// ── Confirmation ────────────────────────────────────────────────────────────

/// How a destructive command's confirmation came out.
#[derive(Debug, Clone, Copy, PartialEq, Eq, Structural)]
pub enum Confirm {
    Yes,
    /// The user was asked and did not agree.
    Declined,
    /// Nobody could be asked, and agreement was not given beforehand.
    Unattended,
}

/// Whether an answer to a prompt means yes.
pub open spec fn means_yes(answer: Seq<char>) -> bool {
    let a = ascii_smalls(trimmed(answer));
    a == "y"@ || a == "yes"@
}

/// Whether an answer to a prompt means yes; everything but `y` and `yes` means
/// no.
pub fn prompt_yes(answer: &str) -> (r: bool)
    ensures
        r == means_yes(answer@),
{
    let a = to_ascii_smalls(trim(answer));
    same(a.as_str(), "y") || same(a.as_str(), "yes")
}

/// What is settled without asking: agreement given beforehand always counts,
/// and where nobody can be asked nothing happens. `None` where the user has to
/// be asked.
pub fn confirm_unasked(yes: bool, terminal: bool) -> (r: Option<Confirm>)
    ensures
        r == (if yes {
            Some(Confirm::Yes)
        } else if !terminal {
            Some(Confirm::Unattended)
        } else {
            None
        }),
{
    if yes {
        Some(Confirm::Yes)
    } else if !terminal {
        Some(Confirm::Unattended)
    } else {
        None
    }
}

/// How the confirmation comes out, given the answer that a prompt would get.
pub fn confirm(yes: bool, terminal: bool, answer: &str) -> (r: Confirm)
    ensures
        r is Yes <==> yes || (terminal && means_yes(answer@)),
        r is Unattended <==> !yes && !terminal,
{
    match confirm_unasked(yes, terminal) {
        Some(c) => c,
        None => if prompt_yes(answer) {
            Confirm::Yes
        } else {
            Confirm::Declined
        },
    }
}

/// Only `y` and `yes` mean yes, in capital or small letters and with white space
/// around them.
pub proof fn law_only_y_and_yes_mean_yes(answer: Seq<char>)
    ensures
        ({
            let a = trimmed(answer);
            let is = |i: int, small: char, capital: char| a[i] == small || a[i] == capital;
            means_yes(answer) <==> (a.len() == 1 && is(0, 'y', 'Y')) || (a.len() == 3 && is(
                0,
                'y',
                'Y',
            ) && is(1, 'e', 'E') && is(2, 's', 'S'))
        }),
{
    reveal_strlit("y");
    reveal_strlit("yes");
    let a = trimmed(answer);
    let s = ascii_smalls(a);
    assert(forall|i: int| 0 <= i < a.len() ==> #[trigger] s[i] == ascii_small(a[i]));
    assert(forall|c: char| #[trigger] ascii_small(c) == 'y' <==> c == 'y' || c == 'Y');
    assert(forall|c: char| #[trigger] ascii_small(c) == 'e' <==> c == 'e' || c == 'E');
    assert(forall|c: char| #[trigger] ascii_small(c) == 's' <==> c == 's' || c == 'S');
    assert("y"@.len() == 1 && "y"@[0] == 'y');
    assert("yes"@.len() == 3 && "yes"@[0] == 'y' && "yes"@[1] == 'e' && "yes"@[2] == 's');
    assert(s == "y"@ ==> s[0] == 'y');
    assert(s == "yes"@ ==> s[0] == 'y' && s[1] == 'e' && s[2] == 's');
    if a.len() == 1 {
        assert(s[0] == ascii_small(a[0]));
        if s[0] == 'y' {
            assert(s =~= "y"@);
        }
    }
    if a.len() == 3 {
        assert(s[0] == ascii_small(a[0]) && s[1] == ascii_small(a[1]) && s[2] == ascii_small(a[2]));
        if s[0] == 'y' && s[1] == 'e' && s[2] == 's' {
            assert(s =~= "yes"@);
        }
    }
}

/// Dropping the end of a line drops line feeds and carriage returns alone, and all
/// of them.
pub proof fn law_line_ends_are_dropped(s: Seq<char>)
    ensures
        ({
            let t = without_line_end(s);
            &&& t.len() <= s.len()
            &&& t == s.take(t.len() as int)
            &&& forall|i: int| t.len() <= i < s.len() ==> (#[trigger] s[i] == '\n' || s[i] == '\r')
            &&& t.len() > 0 ==> t.last() != '\n' && t.last() != '\r'
        }),
    decreases s.len(),
{
    if s.len() > 0 && (s.last() == '\n' || s.last() == '\r') {
        let u = s.drop_last();
        law_line_ends_are_dropped(u);
        let t = without_line_end(s);
        assert(t =~= s.take(t.len() as int));
        assert forall|i: int| t.len() <= i < s.len() implies (#[trigger] s[i] == '\n' || s[i]
            == '\r') by {
            if i < u.len() {
                assert(u[i] == s[i]);
            }
        }
    } else {
        assert(s.take(s.len() as int) =~= s);
    }
}

} // verus!
