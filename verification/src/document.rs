//! TOML documents as plain values.
use toml::Value::{self, Array, Boolean, Datetime, Float, Integer, Table};
use vstd::prelude::*;

use crate::seqs::{find_value, lookup};

verus! {

/// A value without parts, or what there is to say of one inside another.
#[derive(Debug)]
pub enum TomlScalar {
    Text(String),
    Int(i64),
    Float,
    Bool(bool),
    /// A date or a time, as it is written.
    Date(String),
    /// A list of this many values.
    List(usize),
    /// A table of this many entries.
    Table(usize),
}

/// A value at the top level of a document.
#[derive(Debug)]
pub enum TomlValue {
    Scalar(TomlScalar),
    List(Vec<TomlScalar>),
    Table(Vec<(String, TomlScalar)>),
}

/// [`TomlScalar`] by its characters.
pub enum ScalarView {
    Text(Seq<char>),
    Int(i64),
    Float,
    Bool(bool),
    Date(Seq<char>),
    List(usize),
    Table(usize),
}

/// [`TomlValue`] by its characters.
pub enum ValueView {
    Scalar(ScalarView),
    List(Seq<ScalarView>),
    Table(Seq<(Seq<char>, ScalarView)>),
}

/// A document: its keys with their values, in the order of the keys.
pub type DocumentView = Seq<(Seq<char>, ValueView)>;

impl DeepView for TomlScalar {
    type V = ScalarView;

    open spec fn deep_view(&self) -> ScalarView {
        match self {
            TomlScalar::Text(t) => ScalarView::Text(t@),
            TomlScalar::Int(i) => ScalarView::Int(*i),
            TomlScalar::Float => ScalarView::Float,
            TomlScalar::Bool(b) => ScalarView::Bool(*b),
            TomlScalar::Date(t) => ScalarView::Date(t@),
            TomlScalar::List(n) => ScalarView::List(*n),
            TomlScalar::Table(n) => ScalarView::Table(*n),
        }
    }
}

impl DeepView for TomlValue {
    type V = ValueView;

    open spec fn deep_view(&self) -> ValueView {
        match self {
            TomlValue::Scalar(s) => ValueView::Scalar(s.deep_view()),
            TomlValue::List(v) => ValueView::List(v.deep_view()),
            TomlValue::Table(t) => ValueView::Table(t.deep_view()),
        }
    }
}

/// A value of the `toml` crate.
#[verifier::external_type_specification]
#[verifier::external_body]
pub struct ExTomlValue(toml::Value);

/// What a value of the `toml` crate holds, two levels deep.
pub uninterp spec fn held(v: toml::Value) -> ValueView;

/// What the entries of a table hold.
pub open spec fn entries_held(entries: Seq<(String, toml::Value)>) -> DocumentView {
    Seq::new(entries.len(), |i: int| (entries[i].0@, held(entries[i].1)))
}

/// The document that a text is read as, or the words in which the reader
/// refuses it.
pub uninterp spec fn toml_document(text: Seq<char>) -> Result<
    Seq<(Seq<char>, ValueView)>,
    Seq<char>,
>;

/// Reads a text with `toml::from_str::<toml::Table>` and hands out the entries of
/// the table. The contract claims that the text determines what comes back, the
/// order of the keys and the words of a refusal included, and names it.
#[verifier::external_body]
fn read_table(text: &str) -> (r: Result<Vec<(String, toml::Value)>, String>)
    ensures
        match (r, toml_document(text@)) {
            (Ok(d), Ok(v)) => entries_held(d@) == v,
            (Err(e), Err(w)) => e@ == w,
            _ => false,
        },
{
    let table: toml::Table = toml::from_str(text).map_err(|e| e.to_string())?;
    Ok(table.into_iter().collect())
}

/// Turns a `toml::Value` into a plain one, variant by variant. The contract claims
/// that the plain value is what the value holds. What is inside a list or a table
/// is turned into plain values too, but of a list or a table in there only the
/// number of its parts is kept.
#[verifier::external_body]
fn plain_value(v: toml::Value) -> (r: TomlValue)
    ensures
        r.deep_view() == held(v),
{
    let scalar = |v| match v {
        Value::String(s) => TomlScalar::Text(s),
        Integer(i) => TomlScalar::Int(i),
        Float(_) => TomlScalar::Float,
        Boolean(b) => TomlScalar::Bool(b),
        Datetime(d) => TomlScalar::Date(d.to_string()),
        Array(a) => TomlScalar::List(a.len()),
        Table(t) => TomlScalar::Table(t.len()),
    };
    match v {
        Array(a) => TomlValue::List(a.into_iter().map(scalar).collect()),
        Table(t) => TomlValue::Table(t.into_iter().map(|(k, v)| (k, scalar(v))).collect()),
        other => TomlValue::Scalar(scalar(other)),
    }
}

/// Reads a text as a document.
pub(crate) fn read_toml(text: &str) -> (r: Result<Vec<(String, TomlValue)>, String>)
    ensures
        match (r, toml_document(text@)) {
            (Ok(d), Ok(v)) => d.deep_view() == v,
            (Err(e), Err(w)) => e@ == w,
            _ => false,
        },
{
    let mut rest = match read_table(text) {
        Ok(entries) => entries,
        Err(e) => {
            return Err(e);
        },
    };
    let ghost all = entries_held(rest@);
    let mut r: Vec<(String, TomlValue)> = Vec::new();
    assert(r.deep_view() + entries_held(rest@) =~= all);
    while rest.len() > 0
        invariant
            r.deep_view() + entries_held(rest@) == all,
        decreases rest@.len(),
    {
        let ghost before = r.deep_view();
        let ghost left = entries_held(rest@);
        let (key, value) = rest.remove(0);
        let ghost entry = (key@, held(value));
        r.push((key, plain_value(value)));
        assert(r.deep_view() =~= before.push(entry));
        assert(left =~= seq![entry] + entries_held(rest@));
        assert(r.deep_view() + entries_held(rest@) =~= before + left);
    }
    assert(r.deep_view() + entries_held(rest@) =~= r.deep_view());
    Ok(r)
}

// ── Reading values ──────────────────────────────────────────────────────────

/// The string at `table.key` of a document.
pub open spec fn text_in_table(doc: DocumentView, table: Seq<char>, key: Seq<char>) -> Option<
    Seq<char>,
> {
    match lookup(doc, table) {
        Some(ValueView::Table(t)) => match lookup(t, key) {
            Some(ScalarView::Text(s)) => Some(s),
            _ => None,
        },
        _ => None,
    }
}

/// The string at `table.key` of a document.
pub fn find_text_in_table(doc: &Vec<(String, TomlValue)>, table: &str, key: &str) -> (r: Option<
    String,
>)
    ensures
        r.deep_view() == text_in_table(doc.deep_view(), table@, key@),
{
    match find_value(doc, table) {
        Some(TomlValue::Table(t)) => match find_value(t, key) {
            Some(TomlScalar::Text(s)) => Some(s.clone()),
            _ => None,
        },
        _ => None,
    }
}

/// The text of a value that can stand for a string: a string itself, or a date or
/// time as it is written.
pub open spec fn text_of(s: ScalarView) -> Option<Seq<char>> {
    match s {
        ScalarView::Text(t) => Some(t),
        ScalarView::Date(t) => Some(t),
        _ => None,
    }
}

/// The text of a value that can stand for a string.
pub fn as_text(s: &TomlScalar) -> (r: Option<&String>)
    ensures
        r.deep_view() == text_of(s.deep_view()),
{
    match s {
        TomlScalar::Text(t) => Some(t),
        TomlScalar::Date(t) => Some(t),
        _ => None,
    }
}

/// The strings of a list that holds strings alone.
pub open spec fn texts_of(v: Seq<ScalarView>) -> Option<Seq<Seq<char>>>
    decreases v.len(),
{
    if v.len() == 0 {
        Some(seq![])
    } else {
        match (texts_of(v.drop_last()), text_of(v.last())) {
            (Some(front), Some(t)) => Some(front.push(t)),
            _ => None,
        }
    }
}

/// A list that holds something else at some place holds no strings alone.
proof fn lemma_texts_of_prefix(v: Seq<ScalarView>, i: int)
    requires
        0 <= i <= v.len(),
        texts_of(v.take(i)) is None,
    ensures
        texts_of(v) is None,
    decreases v.len() - i,
{
    if i < v.len() {
        assert(v.take(i + 1).drop_last() =~= v.take(i));
        lemma_texts_of_prefix(v, i + 1);
    } else {
        assert(v.take(i) =~= v);
    }
}

/// Reads a list of strings.
pub fn read_texts(v: &Vec<TomlScalar>) -> (r: Option<Vec<String>>)
    ensures
        r.deep_view() == texts_of(v.deep_view()),
{
    let mut r: Vec<String> = Vec::new();
    let ghost all = v.deep_view();
    let mut i: usize = 0;
    assert(r.deep_view() =~= seq![]);
    while i < v.len()
        invariant
            i <= v@.len(),
            all == v.deep_view(),
            texts_of(all.take(i as int)) == Some(r.deep_view()),
        decreases v@.len() - i,
    {
        assert(all.take(i + 1).drop_last() =~= all.take(i as int));
        let ghost before = r.deep_view();
        match as_text(&v[i]) {
            Some(t) => {
                r.push(t.clone());
                assert(r.deep_view() =~= before.push(t@));
            },
            None => {
                proof {
                    lemma_texts_of_prefix(all, i + 1);
                }
                return None;
            },
        }
        i += 1;
    }
    assert(all.take(all.len() as int) =~= all);
    Some(r)
}

/// The word that picks one of several alternatives: a string, or the only key of a
/// table whose value there is an empty list or an empty table.
pub open spec fn choice_of(v: ValueView) -> Option<Seq<char>> {
    match v {
        ValueView::Scalar(ScalarView::Text(t)) => Some(t),
        ValueView::Table(t) => if t.len() == 1 && (t[0].1 == ScalarView::List(0) || t[0].1
            == ScalarView::Table(0)) {
            Some(t[0].0)
        } else {
            None
        },
        _ => None,
    }
}

/// The word that picks one of several alternatives.
pub fn as_choice(v: &TomlValue) -> (r: Option<&String>)
    ensures
        r.deep_view() == choice_of(v.deep_view()),
{
    match v {
        TomlValue::Scalar(TomlScalar::Text(t)) => Some(t),
        TomlValue::Table(t) => {
            assert(t.deep_view().len() == t@.len());
            if t.len() != 1 {
                return None;
            }
            assert(t.deep_view()[0] == (t@[0].0@, t@[0].1.deep_view()));
            match &t[0].1 {
                TomlScalar::List(n) if *n == 0 => Some(&t[0].0),
                TomlScalar::Table(n) if *n == 0 => Some(&t[0].0),
                _ => None,
            }
        },
        _ => None,
    }
}

/// The entries of a table that holds booleans alone.
pub open spec fn bools_of(t: Seq<(Seq<char>, ScalarView)>) -> Option<Seq<(Seq<char>, bool)>>
    decreases t.len(),
{
    if t.len() == 0 {
        Some(seq![])
    } else {
        match (bools_of(t.drop_last()), t.last().1) {
            (Some(front), ScalarView::Bool(b)) => Some(front.push((t.last().0, b))),
            _ => None,
        }
    }
}

/// A table that holds something else at some place holds no booleans alone.
proof fn lemma_bools_of_prefix(t: Seq<(Seq<char>, ScalarView)>, i: int)
    requires
        0 <= i <= t.len(),
        bools_of(t.take(i)) is None,
    ensures
        bools_of(t) is None,
    decreases t.len() - i,
{
    if i < t.len() {
        assert(t.take(i + 1).drop_last() =~= t.take(i));
        lemma_bools_of_prefix(t, i + 1);
    } else {
        assert(t.take(i) =~= t);
    }
}

/// Reads a table of booleans.
pub fn read_bools(t: &Vec<(String, TomlScalar)>) -> (r: Option<Vec<(String, bool)>>)
    ensures
        r.deep_view() == bools_of(t.deep_view()),
{
    let mut r: Vec<(String, bool)> = Vec::new();
    let ghost all = t.deep_view();
    let mut i: usize = 0;
    assert(r.deep_view() =~= seq![]);
    while i < t.len()
        invariant
            i <= t@.len(),
            all == t.deep_view(),
            bools_of(all.take(i as int)) == Some(r.deep_view()),
        decreases t@.len() - i,
    {
        assert(all.take(i + 1).drop_last() =~= all.take(i as int));
        let ghost before = r.deep_view();
        match &t[i].1 {
            TomlScalar::Bool(b) => {
                r.push((t[i].0.clone(), *b));
                assert(r.deep_view() =~= before.push((t@[i as int].0@, *b)));
            },
            _ => {
                proof {
                    lemma_bools_of_prefix(all, i + 1);
                }
                return None;
            },
        }
        i += 1;
    }
    assert(all.take(all.len() as int) =~= all);
    Some(r)
}

/// A list holds strings alone exactly when each of its values can stand for one, and
/// they are read one for one; a table holds booleans alone exactly when each of its
/// values is one, and they are read with their keys.
pub proof fn law_values_are_read_one_for_one(
    v: Seq<ScalarView>,
    t: Seq<(Seq<char>, ScalarView)>,
    i: int,
)
    ensures
        texts_of(v) is Some <==> forall|k: int|
            0 <= k < v.len() ==> ((#[trigger] v[k]) is Text || v[k] is Date),
        texts_of(v) is Some ==> texts_of(v)->0.len() == v.len() && (0 <= i < v.len() ==> (
        v[i] matches ScalarView::Text(s) ==> texts_of(v)->0[i] == s)),
        bools_of(t) is Some <==> forall|k: int|
            0 <= k < t.len() ==> (#[trigger] t[k]).1 is Bool,
        bools_of(t) is Some ==> bools_of(t)->0.len() == t.len() && (0 <= i < t.len() ==> (
        t[i].1 matches ScalarView::Bool(b) ==> bools_of(t)->0[i] == (t[i].0, b))),
    decreases v.len() + t.len(),
{
    if v.len() > 0 {
        let w = v.drop_last();
        law_values_are_read_one_for_one(w, t.take(0), i);
        assert(forall|k: int| 0 <= k < w.len() ==> #[trigger] w[k] == v[k]);
        if texts_of(v) is Some {
            assert forall|k: int| 0 <= k < v.len() implies ((#[trigger] v[k]) is Text
                || v[k] is Date) by {
                if k < w.len() {
                    assert(w[k] is Text || w[k] is Date);
                }
            }
        }
        if forall|k: int| 0 <= k < v.len() ==> ((#[trigger] v[k]) is Text || v[k] is Date) {
            assert forall|k: int| 0 <= k < w.len() implies ((#[trigger] w[k]) is Text
                || w[k] is Date) by {
                assert(v[k] is Text || v[k] is Date);
            }
            assert(v[v.len() - 1] is Text || v[v.len() - 1] is Date);
        }
    }
    if t.len() > 0 {
        let u = t.drop_last();
        law_values_are_read_one_for_one(v.take(0), u, i);
        assert(forall|k: int| 0 <= k < u.len() ==> #[trigger] u[k] == t[k]);
        if bools_of(t) is Some {
            assert forall|k: int| 0 <= k < t.len() implies (#[trigger] t[k]).1 is Bool by {
                if k < u.len() {
                    assert(u[k].1 is Bool);
                }
            }
        }
        if forall|k: int| 0 <= k < t.len() ==> (#[trigger] t[k]).1 is Bool {
            assert forall|k: int| 0 <= k < u.len() implies (#[trigger] u[k]).1 is Bool by {
                assert(t[k].1 is Bool);
            }
            assert(t[t.len() - 1].1 is Bool);
        }
    }
}

} // verus!
