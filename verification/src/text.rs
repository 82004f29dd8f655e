//! Text as a sequence of characters.
//!
//! Every contract in this crate speaks of a string by its view, a
//! `Seq<char>`. This module holds the vocabulary those contracts are written
//! in (`trimmed`, `lines_of`, `parts_on`, ...) beside the executable functions
//! that compute it.
use vstd::prelude::*;

verus! {

/// Adds the strings of `more` behind those of `v`.
pub fn extend(v: &mut Vec<String>, more: Vec<String>)
    ensures
        final(v).deep_view() == old(v).deep_view() + more.deep_view(),
{
    let ghost a = v@;
    let ghost b = more@;
    let mut rest = more;
    v.append(&mut rest);
    assert(v@ == a + b);
    assert(v.deep_view() =~= old(v).deep_view() + more.deep_view());
}

/// A result whose refusal is taken by its characters.
pub open spec fn told<T: DeepView>(r: Result<T, String>) -> Result<T::V, Seq<char>> {
    match r {
        Ok(t) => Ok(t.deep_view()),
        Err(e) => Err(e@),
    }
}

// ── Characters ──────────────────────────────────────────────────────────────

/// White space in the sense of the Unicode `White_Space` property.
pub open spec fn white(c: char) -> bool {
    let n = c as u32;
    ||| 0x9 <= n <= 0xD
    ||| n == 0x20
    ||| n == 0x85
    ||| n == 0xA0
    ||| n == 0x1680
    ||| 0x2000 <= n <= 0x200A
    ||| n == 0x2028
    ||| n == 0x2029
    ||| n == 0x202F
    ||| n == 0x205F
    ||| n == 0x3000
}

/// Whether `c` is white space.
pub fn is_white(c: char) -> (r: bool)
    ensures
        r == white(c),
{
    let n = c as u32;
    (0x9 <= n && n <= 0xD) || n == 0x20 || n == 0x85 || n == 0xA0 || n == 0x1680 || (0x2000 <= n
        && n <= 0x200A) || n == 0x2028 || n == 0x2029 || n == 0x202F || n == 0x205F || n == 0x3000
}

/// `c` with an ASCII capital replaced by its small letter.
pub open spec fn ascii_small(c: char) -> char {
    if 'A' <= c <= 'Z' {
        ((c as u8) + 32) as char
    } else {
        c
    }
}

/// Replaces an ASCII capital by its small letter.
pub fn to_ascii_small(c: char) -> (r: char)
    ensures
        r == ascii_small(c),
{
    if 'A' <= c && c <= 'Z' {
        ((c as u8) + 32) as char
    } else {
        c
    }
}

/// Whether `c` is one of the characters `0` to `9`.
pub open spec fn digit(c: char) -> bool {
    '0' <= c <= '9'
}

/// An ASCII letter or digit.
pub open spec fn ascii_alnum(c: char) -> bool {
    ('a' <= c <= 'z') || ('A' <= c <= 'Z') || ('0' <= c <= '9')
}

// ── Between strings and vectors of characters ───────────────────────────────

/// `String::push` appends one character.
pub assume_specification[ String::push ](s: &mut String, c: char)
    ensures
        final(s)@ == old(s)@.push(c),
;

/// The characters of `s`, in order.
pub fn chars_of(s: &str) -> (r: Vec<char>)
    ensures
        r@ == s@,
{
    let mut r: Vec<char> = Vec::new();
    for c in it: s.chars()
        invariant
            r@ == s@.take(it.index() as int),
            it.seq() == s@,
    {
        r.push(c);
    }
    r
}

/// The characters `v[from..to]` as a string.
pub fn string_from(v: &Vec<char>, from: usize, to: usize) -> (r: String)
    requires
        from <= to <= v@.len(),
    ensures
        r@ == v@.subrange(from as int, to as int),
{
    let mut r = String::new();
    let mut i: usize = from;
    while i < to
        invariant
            from <= i <= to <= v@.len(),
            r@ == v@.subrange(from as int, i as int),
        decreases to - i,
    {
        r.push(v[i]);
        i += 1;
        assert(v@.subrange(from as int, i as int) =~= v@.subrange(from as int, i - 1).push(
            v@[i - 1],
        ));
    }
    r
}

/// Whether two strings hold the same characters.
pub fn same(a: &str, b: &str) -> (r: bool)
    ensures
        r == (a@ == b@),
{
    let x = a.to_owned();
    let y = b.to_owned();
    x == y
}

/// An owned copy of `s`.
pub fn owned(s: &str) -> (r: String)
    ensures
        r@ == s@,
{
    s.to_owned()
}

/// `a` followed by `b`.
pub fn cat(a: &str, b: &str) -> (r: String)
    ensures
        r@ == a@ + b@,
{
    let mut r = a.to_owned();
    r.append(b);
    r
}

/// `a`, `b` and `c` in a row.
pub fn cat3(a: &str, b: &str, c: &str) -> (r: String)
    ensures
        r@ == a@ + b@ + c@,
{
    let mut r = a.to_owned();
    r.append(b);
    r.append(c);
    r
}

/// Four strings in a row.
pub fn cat4(a: &str, b: &str, c: &str, d: &str) -> (r: String)
    ensures
        r@ == a@ + b@ + c@ + d@,
{
    let mut r = a.to_owned();
    r.append(b);
    r.append(c);
    r.append(d);
    r
}

/// Five strings in a row.
pub fn cat5(a: &str, b: &str, c: &str, d: &str, e: &str) -> (r: String)
    ensures
        r@ == a@ + b@ + c@ + d@ + e@,
{
    let mut r = a.to_owned();
    r.append(b);
    r.append(c);
    r.append(d);
    r.append(e);
    r
}

// ── Copies ──────────────────────────────────────────────────────────────────

/// A copy of a vector of strings.
pub fn copy_texts(v: &Vec<String>) -> (r: Vec<String>)
    ensures
        r.deep_view() == v.deep_view(),
{
    let mut r: Vec<String> = Vec::new();
    let mut i: usize = 0;
    while i < v.len()
        invariant
            i <= v@.len(),
            r@.len() == i,
            forall|k: int| 0 <= k < i ==> (#[trigger] r@[k])@ == v@[k]@,
        decreases v@.len() - i,
    {
        r.push(v[i].clone());
        i += 1;
    }
    assert(r.deep_view() =~= v.deep_view());
    r
}

/// A copy of an optional string.
pub fn copy_opt(v: &Option<String>) -> (r: Option<String>)
    ensures
        r.deep_view() == v.deep_view(),
{
    match v {
        Some(s) => Some(s.clone()),
        None => None,
    }
}

/// A copy of a vector of numbers.
pub fn copy_nums(v: &Vec<u32>) -> (r: Vec<u32>)
    ensures
        r@ == v@,
{
    let mut r: Vec<u32> = Vec::new();
    let mut i: usize = 0;
    while i < v.len()
        invariant
            i <= v@.len(),
            r@ == v@.take(i as int),
        decreases v@.len() - i,
    {
        r.push(v[i]);
        i += 1;
        assert(v@.take(i as int) =~= v@.take(i - 1).push(v@[i - 1]));
    }
    assert(v@.take(v@.len() as int) =~= v@);
    r
}

/// Whether `v` holds a string with the characters of `s`.
pub fn has_text(v: &Vec<String>, s: &str) -> (r: bool)
    ensures
        r == v.deep_view().contains(s@),
{
    let mut i: usize = 0;
    while i < v.len()
        invariant
            i <= v@.len(),
            forall|k: int| 0 <= k < i ==> (#[trigger] v@[k])@ != s@,
        decreases v@.len() - i,
    {
        if same(v[i].as_str(), s) {
            assert(v.deep_view()[i as int] == s@);
            return true;
        }
        i += 1;
    }
    assert forall|k: int| 0 <= k < v.deep_view().len() implies v.deep_view()[k] != s@ by {
        assert(v.deep_view()[k] == v@[k]@);
    }
    false
}

// ── Trimming ────────────────────────────────────────────────────────────────

/// `s` without its leading white space.
pub open spec fn trimmed_start(s: Seq<char>) -> Seq<char>
    decreases s.len(),
{
    if s.len() > 0 && white(s[0]) {
        trimmed_start(s.skip(1))
    } else {
        s
    }
}

/// `s` without its trailing white space.
pub open spec fn trimmed_end(s: Seq<char>) -> Seq<char>
    decreases s.len(),
{
    if s.len() > 0 && white(s.last()) {
        trimmed_end(s.drop_last())
    } else {
        s
    }
}

/// `s` without white space at either end.
pub open spec fn trimmed(s: Seq<char>) -> Seq<char> {
    trimmed_end(trimmed_start(s))
}

/// Drops leading white space.
pub fn trim_start<'a>(s: &'a str) -> (r: &'a str)
    ensures
        r@ == trimmed_start(s@),
{
    let v = chars_of(s);
    let mut i: usize = 0;
    assert(s@.skip(0) =~= s@);
    while i < v.len() && is_white(v[i])
        invariant
            v@ == s@,
            i <= v@.len(),
            trimmed_start(s@) == trimmed_start(s@.skip(i as int)),
        decreases v@.len() - i,
    {
        assert(s@.skip(i as int).skip(1) =~= s@.skip(i + 1));
        i += 1;
    }
    s.substring_char(i, v.len())
}

/// Drops trailing white space.
pub fn trim_end<'a>(s: &'a str) -> (r: &'a str)
    ensures
        r@ == trimmed_end(s@),
{
    let v = chars_of(s);
    let mut i: usize = v.len();
    assert(s@.take(s@.len() as int) =~= s@);
    while i > 0 && is_white(v[i - 1])
        invariant
            v@ == s@,
            i <= v@.len(),
            trimmed_end(s@) == trimmed_end(s@.take(i as int)),
        decreases i,
    {
        assert(s@.take(i as int).drop_last() =~= s@.take(i - 1));
        i -= 1;
    }
    assert(s@.subrange(0, i as int) =~= s@.take(i as int));
    s.substring_char(0, i)
}

/// Drops white space at both ends.
pub fn trim<'a>(s: &'a str) -> (r: &'a str)
    ensures
        r@ == trimmed(s@),
{
    trim_end(trim_start(s))
}

// ── Prefixes, suffixes, substrings ──────────────────────────────────────────

/// Whether `s` begins with `p`.
pub open spec fn begins(s: Seq<char>, p: Seq<char>) -> bool {
    p.len() <= s.len() && s.take(p.len() as int) == p
}

/// Whether `s` ends with `p`.
pub open spec fn ends(s: Seq<char>, p: Seq<char>) -> bool {
    p.len() <= s.len() && s.skip(s.len() - p.len()) == p
}

/// Whether `v[at..]` begins with `p`.
pub fn begins_at(v: &Vec<char>, at: usize, p: &Vec<char>) -> (r: bool)
    requires
        at <= v@.len(),
    ensures
        r == begins(v@.skip(at as int), p@),
{
    let n = v.len();
    if p.len() > n - at {
        return false;
    }
    let mut i: usize = 0;
    while i < p.len()
        invariant
            at <= n == v@.len(),
            p@.len() <= n - at,
            i <= p@.len(),
            forall|k: int| 0 <= k < i ==> v@[at + k] == p@[k],
        decreases p@.len() - i,
    {
        if v[at + i] != p[i] {
            assert(v@.skip(at as int).take(p@.len() as int)[i as int] != p@[i as int]);
            return false;
        }
        i += 1;
    }
    assert(v@.skip(at as int).take(p@.len() as int) =~= p@);
    true
}

/// Whether `s` begins with `p`.
pub fn starts_with(s: &str, p: &str) -> (r: bool)
    ensures
        r == begins(s@, p@),
{
    let v = chars_of(s);
    let q = chars_of(p);
    assert(v@.skip(0) =~= v@);
    begins_at(&v, 0, &q)
}

/// Whether `s` ends with `p`.
pub fn ends_with(s: &str, p: &str) -> (r: bool)
    ensures
        r == ends(s@, p@),
{
    let v = chars_of(s);
    let q = chars_of(p);
    if q.len() > v.len() {
        return false;
    }
    let ok = begins_at(&v, v.len() - q.len(), &q);
    assert(v@.skip(v@.len() - q@.len()).take(q@.len() as int) =~= v@.skip(v@.len() - q@.len()));
    ok
}

/// What is left of `s` behind the prefix `p`, where it begins with it.
pub open spec fn after_prefix(s: Seq<char>, p: Seq<char>) -> Option<Seq<char>> {
    if begins(s, p) {
        Some(s.skip(p.len() as int))
    } else {
        None
    }
}

/// Takes the prefix `p` off `s`.
pub fn strip_prefix<'a>(s: &'a str, p: &str) -> (r: Option<&'a str>)
    ensures
        r.deep_view() == after_prefix(s@, p@),
{
    if starts_with(s, p) {
        let n = s.unicode_len();
        let k = p.unicode_len();
        Some(s.substring_char(k, n))
    } else {
        None
    }
}

/// The first place at which `p` occurs in `s`.
pub open spec fn found(s: Seq<char>, p: Seq<char>) -> Option<nat>
    decreases s.len(),
{
    if begins(s, p) {
        Some(0)
    } else if s.len() == 0 {
        None
    } else {
        match found(s.skip(1), p) {
            Some(k) => Some(k + 1),
            None => None,
        }
    }
}

/// Whether `p` occurs in `s`.
pub open spec fn occurs(s: Seq<char>, p: Seq<char>) -> bool {
    found(s, p) is Some
}

/// The first place at which `p` occurs in `s`.
pub fn find(s: &str, p: &str) -> (r: Option<usize>)
    ensures
        match found(s@, p@) {
            Some(k) => r matches Some(j) && j == k,
            None => r is None,
        },
{
    let v = chars_of(s);
    let q = chars_of(p);
    assert(v@.skip(0) =~= v@);
    find_from(&v, 0, &q)
}

/// The first place at or behind `from` at which `p` occurs in `v`.
pub fn find_from(v: &Vec<char>, from: usize, p: &Vec<char>) -> (r: Option<usize>)
    requires
        from <= v@.len(),
    ensures
        match found(v@.skip(from as int), p@) {
            Some(k) => r matches Some(j) && j == from + k,
            None => r is None,
        },
        r matches Some(j) ==> from <= j && j + p@.len() <= v@.len(),
{
    let mut i: usize = from;
    loop
        invariant
            from <= i <= v@.len(),
            found(v@.skip(from as int), p@) == (match found(v@.skip(i as int), p@) {
                Some(k) => Some((k + (i - from)) as nat),
                None => None,
            }),
        decreases v@.len() - i,
    {
        if begins_at(v, i, p) {
            return Some(i);
        }
        if i == v.len() {
            return None;
        }
        assert(v@.skip(i as int).skip(1) =~= v@.skip(i + 1));
        i += 1;
    }
}

/// Whether `p` occurs in `s`.
pub fn contains(s: &str, p: &str) -> (r: bool)
    ensures
        r == occurs(s@, p@),
{
    find(s, p).is_some()
}

/// An occurrence that was found lies within the text.
pub proof fn lemma_found_bounds(s: Seq<char>, p: Seq<char>)
    ensures
        found(s, p) matches Some(k) ==> k + p.len() <= s.len() && begins(s.skip(k as int), p),
    decreases s.len(),
{
    assert(s.skip(0) =~= s);
    if !begins(s, p) && s.len() > 0 {
        lemma_found_bounds(s.skip(1), p);
        if let Some(k) = found(s.skip(1), p) {
            assert(s.skip(1).skip(k as int) =~= s.skip(k as int + 1));
        }
    }
}

/// The texts before and behind the first occurrence of `p`.
pub open spec fn cut(s: Seq<char>, p: Seq<char>) -> Option<(Seq<char>, Seq<char>)> {
    match found(s, p) {
        Some(k) => Some((s.take(k as int), s.skip((k + p.len()) as int))),
        None => None,
    }
}

/// Splits `s` at the first occurrence of `p`.
pub fn split_once<'a>(s: &'a str, p: &str) -> (r: Option<(&'a str, &'a str)>)
    ensures
        r.deep_view() == cut(s@, p@),
{
    match find(s, p) {
        Some(k) => {
            proof {
                lemma_found_bounds(s@, p@);
            }
            let n = s.unicode_len();
            let m = p.unicode_len();
            let a = s.substring_char(0, k);
            let b = s.substring_char(k + m, n);
            assert(a@ =~= s@.take(k as int));
            assert(b@ =~= s@.skip(k + m));
            Some((a, b))
        },
        None => None,
    }
}

// ── Splitting ───────────────────────────────────────────────────────────────

/// The place of the first `c` in `s`, or its length where there is none.
pub open spec fn pos(s: Seq<char>, c: char) -> nat
    decreases s.len(),
{
    if s.len() == 0 || s[0] == c {
        0
    } else {
        1 + pos(s.skip(1), c)
    }
}

/// `pos` is a place in the text, everything before it differs from `c`, and
/// `c` stands there unless it is the end.
pub proof fn lemma_pos(s: Seq<char>, c: char)
    ensures
        pos(s, c) <= s.len(),
        forall|i: int| 0 <= i < pos(s, c) ==> s[i] != c,
        pos(s, c) < s.len() ==> s[pos(s, c) as int] == c,
    decreases s.len(),
{
    if s.len() > 0 && s[0] != c {
        lemma_pos(s.skip(1), c);
        assert forall|i: int| 0 <= i < pos(s, c) implies s[i] != c by {
            if i > 0 {
                assert(s.skip(1)[i - 1] != c);
            }
        }
    }
}

/// The place of the first `c` at or behind `from`.
pub fn pos_from(v: &Vec<char>, from: usize, c: char) -> (r: usize)
    requires
        from <= v@.len(),
    ensures
        r == from + pos(v@.skip(from as int), c),
        from <= r <= v@.len(),
{
    let mut i: usize = from;
    while i < v.len() && v[i] != c
        invariant
            from <= i <= v@.len(),
            pos(v@.skip(from as int), c) == (i - from) + pos(v@.skip(i as int), c),
        decreases v@.len() - i,
    {
        assert(v@.skip(i as int).skip(1) =~= v@.skip(i + 1));
        i += 1;
    }
    i
}

/// The parts of `s` between the characters `c`.
pub open spec fn parts_on(s: Seq<char>, c: char) -> Seq<Seq<char>>
    decreases s.len(),
{
    let k = pos(s, c) as int;
    if k < s.len() {
        seq![s.take(k)] + parts_on(s.skip(k + 1), c)
    } else {
        seq![s]
    }
}

/// Splits `s` on every `c`.
pub fn split_on(s: &str, c: char) -> (r: Vec<String>)
    ensures
        r.deep_view() == parts_on(s@, c),
{
    let v = chars_of(s);
    let mut r: Vec<String> = Vec::new();
    let mut from: usize = 0;
    assert(s@.skip(0) =~= s@);
    loop
        invariant
            v@ == s@,
            from <= v@.len(),
            parts_on(s@, c) == r.deep_view() + parts_on(s@.skip(from as int), c),
        decreases v@.len() - from,
    {
        let k = pos_from(&v, from, c);
        let ghost before = r.deep_view();
        r.push(string_from(&v, from, k));
        assert(r.deep_view() =~= before.push(s@.subrange(from as int, k as int)));
        if k == v.len() {
            assert(s@.subrange(from as int, k as int) =~= s@.skip(from as int));
            assert(r.deep_view() =~= before + seq![s@.skip(from as int)]);
            return r;
        }
        proof {
            let rest = s@.skip(from as int);
            assert(rest.take(k - from) =~= s@.subrange(from as int, k as int));
            assert(rest.skip(k - from + 1) =~= s@.skip(k + 1));
            assert(r.deep_view() + parts_on(s@.skip(k + 1), c) =~= before + (seq![
                rest.take(k - from),
            ] + parts_on(s@.skip(k + 1), c)));
        }
        from = k + 1;
    }
}

/// A line without the carriage return that ends it.
pub open spec fn without_cr(s: Seq<char>) -> Seq<char> {
    if s.len() > 0 && s.last() == '\r' {
        s.drop_last()
    } else {
        s
    }
}

/// The lines of `s`: each ends at a line feed, with a carriage return right
/// before it taken off; what follows the last line feed is a line if it holds
/// anything.
pub open spec fn lines_of(s: Seq<char>) -> Seq<Seq<char>>
    decreases s.len(),
{
    let k = pos(s, '\n') as int;
    if s.len() == 0 {
        seq![]
    } else if k < s.len() {
        seq![without_cr(s.take(k))] + lines_of(s.skip(k + 1))
    } else {
        seq![s]
    }
}

/// Splits `s` into its lines.
pub fn lines(s: &str) -> (r: Vec<String>)
    ensures
        r.deep_view() == lines_of(s@),
{
    let v = chars_of(s);
    let mut r: Vec<String> = Vec::new();
    let mut from: usize = 0;
    assert(s@.skip(0) =~= s@);
    while from < v.len()
        invariant
            v@ == s@,
            from <= v@.len(),
            lines_of(s@) == r.deep_view() + lines_of(s@.skip(from as int)),
        decreases v@.len() - from,
    {
        let k = pos_from(&v, from, '\n');
        let ghost before = r.deep_view();
        let ghost rest = s@.skip(from as int);
        if k == v.len() {
            r.push(string_from(&v, from, k));
            assert(s@.subrange(from as int, k as int) =~= rest);
            assert(r.deep_view() =~= before + seq![rest]);
            assert(r.deep_view() + lines_of(s@.skip(k as int)) =~= r.deep_view());
            from = k;
        } else {
            assert(rest.take(k - from) =~= s@.subrange(from as int, k as int));
            assert(rest.skip(k - from + 1) =~= s@.skip(k + 1));
            let mut to: usize = k;
            if k > from && v[k - 1] == '\r' {
                to = k - 1;
                assert(s@.subrange(from as int, k as int).drop_last() =~= s@.subrange(
                    from as int,
                    k - 1,
                ));
            }
            r.push(string_from(&v, from, to));
            assert(r.deep_view() =~= before.push(without_cr(rest.take(k - from))));
            assert(r.deep_view() + lines_of(s@.skip(k + 1)) =~= before + (seq![
                without_cr(rest.take(k - from)),
            ] + lines_of(s@.skip(k + 1))));
            from = k + 1;
        }
    }
    assert(r.deep_view() + lines_of(s@.skip(from as int)) =~= r.deep_view());
    r
}

/// The place of the first white space in `s`, or its length.
pub open spec fn white_pos(s: Seq<char>) -> nat
    decreases s.len(),
{
    if s.len() == 0 || white(s[0]) {
        0
    } else {
        1 + white_pos(s.skip(1))
    }
}

/// The first word of `s`, words being what white space separates.
pub open spec fn leading_word(s: Seq<char>) -> Option<Seq<char>> {
    let t = trimmed_start(s);
    if t.len() == 0 {
        None
    } else {
        Some(t.take(white_pos(t) as int))
    }
}

/// The first word of `s`.
pub fn first_word<'a>(s: &'a str) -> (r: Option<&'a str>)
    ensures
        r.deep_view() == leading_word(s@),
{
    let t = trim_start(s);
    let v = chars_of(t);
    if v.len() == 0 {
        return None;
    }
    let mut i: usize = 0;
    assert(t@.skip(0) =~= t@);
    while i < v.len() && !is_white(v[i])
        invariant
            v@ == t@,
            i <= v@.len(),
            white_pos(t@) == i + white_pos(t@.skip(i as int)),
        decreases v@.len() - i,
    {
        assert(t@.skip(i as int).skip(1) =~= t@.skip(i + 1));
        i += 1;
    }
    let w = t.substring_char(0, i);
    assert(w@ =~= t@.take(i as int));
    Some(w)
}

/// At most `n` parts of `s`: those between the first `n - 1` characters `c`,
/// and the rest.
pub open spec fn first_parts(s: Seq<char>, c: char, n: nat) -> Seq<Seq<char>>
    decreases n,
{
    let k = pos(s, c) as int;
    if n > 1 && k < s.len() {
        seq![s.take(k)] + first_parts(s.skip(k + 1), c, (n - 1) as nat)
    } else {
        seq![s]
    }
}

/// Splits `s` on the first `n - 1` characters `c`.
pub fn split_first(s: &str, c: char, n: usize) -> (r: Vec<String>)
    ensures
        r.deep_view() == first_parts(s@, c, n as nat),
{
    let v = chars_of(s);
    let mut r: Vec<String> = Vec::new();
    let mut from: usize = 0;
    let mut left: usize = n;
    assert(s@.skip(0) =~= s@);
    loop
        invariant
            v@ == s@,
            from <= v@.len(),
            first_parts(s@, c, n as nat) == r.deep_view() + first_parts(
                s@.skip(from as int),
                c,
                left as nat,
            ),
        decreases left,
    {
        let ghost before = r.deep_view();
        let ghost rest = s@.skip(from as int);
        let k = pos_from(&v, from, c);
        if left <= 1 || k == v.len() {
            r.push(string_from(&v, from, v.len()));
            assert(s@.subrange(from as int, v@.len() as int) =~= rest);
            assert(r.deep_view() =~= before + seq![rest]);
            return r;
        }
        r.push(string_from(&v, from, k));
        proof {
            assert(rest.take(k - from) =~= s@.subrange(from as int, k as int));
            assert(rest.skip(k - from + 1) =~= s@.skip(k + 1));
            let tail = first_parts(s@.skip(k + 1), c, (left - 1) as nat);
            assert(r.deep_view() =~= before.push(rest.take(k - from)));
            assert(r.deep_view() + tail =~= before + (seq![rest.take(k - from)] + tail));
        }
        from = k + 1;
        left = left - 1;
    }
}

/// The parts of `s` between the copies of `sep`.
pub open spec fn pieces_of(s: Seq<char>, sep: Seq<char>) -> Seq<Seq<char>>
    decreases s.len(),
{
    proof {
        lemma_found_bounds(s, sep);
    }
    match found(s, sep) {
        Some(k) => if sep.len() > 0 {
            seq![s.take(k as int)] + pieces_of(s.skip((k + sep.len()) as int), sep)
        } else {
            seq![s]
        },
        None => seq![s],
    }
}

/// Splits `s` on every copy of `sep`.
pub fn split_text(s: &str, sep: &str) -> (r: Vec<String>)
    requires
        sep@.len() > 0,
    ensures
        r.deep_view() == pieces_of(s@, sep@),
{
    let v = chars_of(s);
    let q = chars_of(sep);
    let n = v.len();
    let mut r: Vec<String> = Vec::new();
    let mut from: usize = 0;
    assert(s@.skip(0) =~= s@);
    loop
        invariant
            v@ == s@,
            q@ == sep@,
            q@.len() > 0,
            from <= n == v@.len(),
            pieces_of(s@, sep@) == r.deep_view() + pieces_of(s@.skip(from as int), sep@),
        decreases v@.len() - from,
    {
        let ghost before = r.deep_view();
        let ghost rest = s@.skip(from as int);
        match find_from(&v, from, &q) {
            None => {
                r.push(string_from(&v, from, v.len()));
                assert(s@.subrange(from as int, v@.len() as int) =~= rest);
                assert(r.deep_view() =~= before + seq![rest]);
                return r;
            },
            Some(k) => {
                r.push(string_from(&v, from, k));
                proof {
                    assert(rest.take(k - from) =~= s@.subrange(from as int, k as int));
                    assert(rest.skip(k - from + q@.len()) =~= s@.skip(k + q@.len()));
                    let tail = pieces_of(s@.skip(k + q@.len()), sep@);
                    assert(r.deep_view() =~= before.push(rest.take(k - from)));
                    assert(r.deep_view() + tail =~= before + (seq![rest.take(k - from)] + tail));
                }
                from = k + q.len();
            },
        }
    }
}

/// The texts before and behind the last `c`.
pub open spec fn last_cut(s: Seq<char>, c: char) -> Option<(Seq<char>, Seq<char>)>
    decreases s.len(),
{
    if s.len() == 0 {
        None
    } else if s.last() == c {
        Some((s.drop_last(), seq![]))
    } else {
        match last_cut(s.drop_last(), c) {
            Some((a, b)) => Some((a, b.push(s.last()))),
            None => None,
        }
    }
}

/// Splits `s` at the last `c`.
pub fn split_last<'a>(s: &'a str, c: char) -> (r: Option<(&'a str, &'a str)>)
    ensures
        r.deep_view() == last_cut(s@, c),
{
    let v = chars_of(s);
    let n = v.len();
    let mut i: usize = n;
    assert(s@.take(n as int) =~= s@);
    proof {
        match last_cut(s@, c) {
            Some((a, b)) => {
                assert(b + s@.skip(n as int) =~= b);
            },
            None => {},
        }
    }
    while i > 0
        invariant
            v@ == s@,
            n == v@.len(),
            i <= n,
            last_cut(s@, c) == (match last_cut(s@.take(i as int), c) {
                Some((a, b)) => Some((a, b + s@.skip(i as int))),
                None => None,
            }),
        decreases i,
    {
        let ghost t = s@.take(i as int);
        assert(t.drop_last() =~= s@.take(i - 1));
        if v[i - 1] == c {
            let a = s.substring_char(0, i - 1);
            let b = s.substring_char(i, n);
            assert(a@ =~= s@.take(i - 1));
            assert(b@ =~= seq![] + s@.skip(i as int));
            return Some((a, b));
        }
        proof {
            match last_cut(t.drop_last(), c) {
                Some((a, b)) => {
                    assert(b.push(t.last()) + s@.skip(i as int) =~= b + s@.skip(i - 1));
                },
                None => {},
            }
        }
        i -= 1;
    }
    None
}

/// Trimming does not lengthen a text.
pub proof fn lemma_trimmed_start_len(s: Seq<char>)
    ensures
        trimmed_start(s).len() <= s.len(),
        trimmed_start(s).len() > 0 ==> !white(trimmed_start(s)[0]),
    decreases s.len(),
{
    if s.len() > 0 && white(s[0]) {
        lemma_trimmed_start_len(s.skip(1));
    }
}

/// `white_pos` is a place in the text.
pub proof fn lemma_white_pos(s: Seq<char>)
    ensures
        white_pos(s) <= s.len(),
        s.len() > 0 && !white(s[0]) ==> white_pos(s) > 0,
    decreases s.len(),
{
    if s.len() > 0 && !white(s[0]) {
        lemma_white_pos(s.skip(1));
    }
}

/// The words of `s`: what white space separates.
pub open spec fn words_of(s: Seq<char>) -> Seq<Seq<char>>
    decreases s.len(),
{
    let t = trimmed_start(s);
    if t.len() == 0 {
        seq![]
    } else {
        proof {
            lemma_trimmed_start_len(s);
            lemma_white_pos(t);
        }
        seq![t.take(white_pos(t) as int)] + words_of(t.skip(white_pos(t) as int))
    }
}

/// Splits `s` into its words.
pub fn words(s: &str) -> (r: Vec<String>)
    ensures
        r.deep_view() == words_of(s@),
{
    let v = chars_of(s);
    let n = v.len();
    let mut r: Vec<String> = Vec::new();
    let mut from: usize = 0;
    assert(s@.skip(0) =~= s@);
    loop
        invariant
            v@ == s@,
            n == v@.len(),
            from <= n,
            words_of(s@) == r.deep_view() + words_of(s@.skip(from as int)),
        decreases n - from,
    {
        let ghost before = r.deep_view();
        let ghost rest = s@.skip(from as int);
        let mut a: usize = from;
        while a < n && is_white(v[a])
            invariant
                v@ == s@,
                n == v@.len(),
                from <= a <= n,
                trimmed_start(rest) == trimmed_start(s@.skip(a as int)),
            decreases n - a,
        {
            assert(s@.skip(a as int).skip(1) =~= s@.skip(a + 1));
            a += 1;
        }
        let ghost t = s@.skip(a as int);
        assert(trimmed_start(rest) == t);
        if a == n {
            assert(r.deep_view() + words_of(rest) =~= r.deep_view());
            return r;
        }
        let mut b: usize = a;
        assert(t.skip(0) =~= t);
        while b < n && !is_white(v[b])
            invariant
                v@ == s@,
                n == v@.len(),
                a <= b <= n,
                t == s@.skip(a as int),
                white_pos(t) == (b - a) + white_pos(t.skip(b - a)),
            decreases n - b,
        {
            assert(t.skip(b - a).skip(1) =~= t.skip(b - a + 1));
            b += 1;
        }
        r.push(string_from(&v, a, b));
        proof {
            lemma_white_pos(t);
            assert(t.take(b - a) =~= s@.subrange(a as int, b as int));
            assert(t.skip(b - a) =~= s@.skip(b as int));
            assert(r.deep_view() =~= before.push(t.take(b - a)));
            let tail = words_of(s@.skip(b as int));
            assert(r.deep_view() + tail =~= before + (seq![t.take(b - a)] + tail));
        }
        from = b;
    }
}

// ── Columns ─────────────────────────────────────────────────────────────────

/// `n` copies of `c`.
pub open spec fn run_of(c: char, n: nat) -> Seq<char> {
    Seq::new(n, |i: int| c)
}

/// `n` copies of `c`.
pub fn repeat(c: char, n: usize) -> (r: String)
    ensures
        r@ == run_of(c, n as nat),
{
    let mut r = String::new();
    let mut i: usize = 0;
    while i < n
        invariant
            i <= n,
            r@ == run_of(c, i as nat),
        decreases n - i,
    {
        r.push(c);
        i += 1;
        assert(r@ =~= run_of(c, i as nat));
    }
    r
}

/// `s` with spaces behind it up to `width` characters.
pub open spec fn padded(s: Seq<char>, width: nat) -> Seq<char> {
    if s.len() < width {
        s + run_of(' ', (width - s.len()) as nat)
    } else {
        s
    }
}

/// Fills `s` with spaces on the right up to `width` characters.
pub fn pad(s: &str, width: usize) -> (r: String)
    ensures
        r@ == padded(s@, width as nat),
{
    let n = s.unicode_len();
    if n < width {
        let fill = repeat(' ', width - n);
        cat(s, fill.as_str())
    } else {
        owned(s)
    }
}

/// `s` with spaces before it up to `width` characters.
pub open spec fn padded_left(s: Seq<char>, width: nat) -> Seq<char> {
    if s.len() < width {
        run_of(' ', (width - s.len()) as nat) + s
    } else {
        s
    }
}

/// Fills `s` with spaces on the left up to `width` characters.
pub fn pad_left(s: &str, width: usize) -> (r: String)
    ensures
        r@ == padded_left(s@, width as nat),
{
    let n = s.unicode_len();
    if n < width {
        let fill = repeat(' ', width - n);
        cat(fill.as_str(), s)
    } else {
        owned(s)
    }
}

/// The length of `s` in UTF-8.
pub open spec fn byte_len(s: Seq<char>) -> nat {
    vstd::utf8::encode_utf8(s).len()
}

/// The length of `s` in UTF-8.
pub fn bytes_in(s: &str) -> (r: usize)
    ensures
        r == byte_len(s@),
{
    s.as_bytes().len()
}

/// `s` with its ASCII capitals as small letters.
pub open spec fn ascii_smalls(s: Seq<char>) -> Seq<char> {
    Seq::new(s.len(), |i: int| ascii_small(s[i]))
}

/// Replaces the ASCII capitals of `s` by small letters.
pub fn to_ascii_smalls(s: &str) -> (r: String)
    ensures
        r@ == ascii_smalls(s@),
{
    let v = chars_of(s);
    let mut r = String::new();
    let mut i: usize = 0;
    assert(r@ =~= ascii_smalls(s@).take(0));
    while i < v.len()
        invariant
            v@ == s@,
            i <= v@.len(),
            r@ == ascii_smalls(s@).take(i as int),
        decreases v@.len() - i,
    {
        r.push(to_ascii_small(v[i]));
        i += 1;
        assert(r@ =~= ascii_smalls(s@).take(i as int));
    }
    assert(ascii_smalls(s@).take(s@.len() as int) =~= ascii_smalls(s@));
    r
}

// ── Quoting ─────────────────────────────────────────────────────────────────

/// `s` as Rust's debug format shows a string: in double quotes, with the
/// characters that need it escaped.
pub uninterp spec fn debug_quoted(s: Seq<char>) -> Seq<char>;

/// Formats `s` with `format!("{:?}", s)`, that is with `<str as Debug>::fmt`.
/// The contract names the result, which the characters of `s` determine.
#[verifier::external_body]
pub(crate) fn quote(s: &str) -> (r: String)
    ensures
        r@ == debug_quoted(s@),
{
    format!("{:?}", s)
}

/// The text that `String::from_utf8_lossy` makes of bytes.
pub uninterp spec fn lossy(bytes: Seq<u8>) -> Seq<char>;

/// Decodes bytes with `String::from_utf8_lossy`. The contract names the result,
/// which the bytes determine, and claims that bytes that are the UTF-8 form of a
/// text decode to that text.
#[verifier::external_body]
pub(crate) fn decode_lossy(bytes: &[u8]) -> (r: String)
    ensures
        r@ == lossy(bytes@),
        forall|t: Seq<char>| #[trigger] vstd::utf8::encode_utf8(t) == bytes@ ==> r@ == t,
{
    String::from_utf8_lossy(bytes).into_owned()
}

// ── Laws of searching and splitting ─────────────────────────────────────────

/// Where `a` holds no `c`, the first `c` of `a` followed by `b` is the first
/// of `b`.
pub proof fn lemma_pos_cat(a: Seq<char>, b: Seq<char>, c: char)
    requires
        forall|i: int| 0 <= i < a.len() ==> a[i] != c,
    ensures
        pos(a + b, c) == a.len() + pos(b, c),
    decreases a.len(),
{
    if a.len() > 0 {
        assert((a + b).skip(1) =~= a.skip(1) + b);
        lemma_pos_cat(a.skip(1), b, c);
    } else {
        assert(a + b =~= b);
    }
}

/// Searching for a text of one character is searching for the character.
pub proof fn lemma_found_char(s: Seq<char>, c: char)
    ensures
        found(s, seq![c]) == (if pos(s, c) < s.len() {
            Some(pos(s, c))
        } else {
            None
        }),
    decreases s.len(),
{
    if s.len() > 0 {
        if s[0] == c {
            assert(s.take(1) =~= seq![c]);
        } else {
            assert(s.take(1)[0] != c);
            lemma_found_char(s.skip(1), c);
        }
    }
}

/// A text without `c` is its only part.
pub proof fn lemma_parts_single(a: Seq<char>, c: char)
    requires
        forall|i: int| 0 <= i < a.len() ==> a[i] != c,
    ensures
        parts_on(a, c) == seq![a],
{
    lemma_pos(a, c);
}

/// The parts of `a`, a separator and `b` are `a` and the parts of `b`.
pub proof fn lemma_parts_cat(a: Seq<char>, b: Seq<char>, c: char)
    requires
        forall|i: int| 0 <= i < a.len() ==> a[i] != c,
    ensures
        parts_on(a + seq![c] + b, c) == seq![a] + parts_on(b, c),
{
    let s = a + seq![c] + b;
    assert(s =~= a + (seq![c] + b));
    lemma_pos_cat(a, seq![c] + b, c);
    assert(s.take(a.len() as int) =~= a);
    assert(s.skip(a.len() as int + 1) =~= b);
}

/// The first parts of `a`, a separator and `b` are `a` and the first parts of `b`,
/// one fewer.
pub proof fn lemma_first_parts_cat(a: Seq<char>, b: Seq<char>, c: char, n: nat)
    requires
        forall|i: int| 0 <= i < a.len() ==> a[i] != c,
        n > 1,
    ensures
        first_parts(a + seq![c] + b, c, n) == seq![a] + first_parts(b, c, (n - 1) as nat),
{
    let s = a + seq![c] + b;
    assert(s =~= a + (seq![c] + b));
    lemma_pos_cat(a, seq![c] + b, c);
    assert(s.take(a.len() as int) =~= a);
    assert(s.skip(a.len() as int + 1) =~= b);
}

/// A text whose ends are not white space is already trimmed.
pub proof fn lemma_trimmed_as_is(s: Seq<char>)
    requires
        s.len() > 0,
        !white(s[0]),
        !white(s.last()),
    ensures
        trimmed(s) == s,
{
}

/// Where `a` holds no white space, the first white space of `a` followed by `b` is
/// the first of `b`.
pub proof fn lemma_white_pos_cat(a: Seq<char>, b: Seq<char>)
    requires
        forall|i: int| 0 <= i < a.len() ==> !white(a[i]),
    ensures
        white_pos(a + b) == a.len() + white_pos(b),
    decreases a.len(),
{
    if a.len() > 0 {
        assert((a + b).skip(1) =~= a.skip(1) + b);
        lemma_white_pos_cat(a.skip(1), b);
    } else {
        assert(a + b =~= b);
    }
}

/// A word with white space or nothing behind it is the first word.
pub proof fn lemma_leading_word(word: Seq<char>, rest: Seq<char>)
    requires
        word.len() > 0,
        forall|i: int| 0 <= i < word.len() ==> !white(word[i]),
        rest.len() == 0 || white(rest[0]),
    ensures
        leading_word(word + rest) == Some(word),
{
    lemma_white_pos_cat(word, rest);
    assert((word + rest)[0] == word[0]);
    assert((word + rest).take(word.len() as int) =~= word);
}

/// Trimming the end stops at the last character that is not white space: of what
/// follows it, only the first `n` characters are left.
pub proof fn lemma_trimmed_end_keeps(a: Seq<char>, b: Seq<char>) -> (n: int)
    requires
        a.len() > 0,
        !white(a.last()),
    ensures
        0 <= n <= b.len(),
        trimmed_end(a + b) == a + b.take(n),
    decreases b.len(),
{
    let s = a + b;
    if b.len() == 0 {
        assert(s =~= a);
        assert(a + b.take(0) =~= a);
        0
    } else if white(b.last()) {
        assert(s.drop_last() =~= a + b.drop_last());
        let n = lemma_trimmed_end_keeps(a, b.drop_last());
        assert(b.drop_last().take(n) =~= b.take(n));
        n
    } else {
        assert(b.take(b.len() as int) =~= b);
        b.len() as int
    }
}

/// Trimming the end of two texts in a row trims the second, and the first only
/// where nothing is left of the second.
pub proof fn lemma_trimmed_end_cat(a: Seq<char>, b: Seq<char>)
    ensures
        trimmed_end(a + b) == (if trimmed_end(b).len() == 0 {
            trimmed_end(a)
        } else {
            a + trimmed_end(b)
        }),
    decreases b.len(),
{
    if b.len() == 0 {
        assert(a + b =~= a);
    } else {
        assert((a + b).last() == b.last());
        if white(b.last()) {
            assert((a + b).drop_last() =~= a + b.drop_last());
            lemma_trimmed_end_cat(a, b.drop_last());
        }
    }
}

/// A trimmed end stays as it is, and trimming it first changes nothing.
pub proof fn lemma_trimmed_twice(s: Seq<char>)
    ensures
        trimmed_end(trimmed_end(s)) == trimmed_end(s),
        trimmed(trimmed_end(s)) == trimmed(s),
    decreases s.len(),
{
    lemma_trimmed_end_again(s);
    lemma_trimmed_end_again(trimmed_start(s));
    lemma_trimmed_either_way(s);
}

proof fn lemma_trimmed_end_again(s: Seq<char>)
    ensures
        trimmed_end(trimmed_end(s)) == trimmed_end(s),
    decreases s.len(),
{
    if s.len() > 0 && white(s.last()) {
        lemma_trimmed_end_again(s.drop_last());
    }
}

proof fn lemma_trimmed_either_way(s: Seq<char>)
    ensures
        trimmed_start(trimmed_end(s)) == trimmed_end(trimmed_start(s)),
    decreases s.len(),
{
    if s.len() > 0 {
        let first = seq![s[0]];
        let rest = s.skip(1);
        assert(s =~= first + rest);
        lemma_trimmed_end_cat(first, rest);
        assert(first.drop_last() =~= seq![]);
        if white(s[0]) {
            lemma_trimmed_either_way(rest);
            if trimmed_end(rest).len() == 0 {
                assert(trimmed_end(rest) =~= seq![]);
                assert(first.last() == s[0]);
                assert(trimmed_end(first) == trimmed_end(first.drop_last()));
                assert(trimmed_end(s) =~= seq![]);
            } else {
                assert(trimmed_end(s).skip(1) =~= trimmed_end(rest));
            }
        } else {
            assert(trimmed_end(s).len() > 0 && trimmed_end(s)[0] == s[0]);
        }
    }
}

/// What stands between line feeds, or between one and an end of the text, is a
/// line of the text.
pub proof fn lemma_line_between(a: Seq<char>, line: Seq<char>, b: Seq<char>)
    requires
        a.len() == 0 || a.last() == '\n',
        line.len() > 0,
        line.last() != '\r',
        forall|i: int| 0 <= i < line.len() ==> line[i] != '\n',
        b.len() == 0 || b[0] == '\n',
    ensures
        lines_of(a + line + b).contains(line),
    decreases a.len(),
{
    let s = a + line + b;
    if a.len() == 0 {
        assert(s =~= line + b);
        lemma_pos_cat(line, b, '\n');
        assert(s.take(line.len() as int) =~= line);
        assert(lines_of(s)[0] == line);
    } else {
        let k = pos(a, '\n') as int;
        lemma_pos(a, '\n');
        assert(k < a.len());
        let front = a.take(k);
        assert(s =~= front + (a.skip(k) + line + b));
        lemma_pos_cat(front, a.skip(k) + line + b, '\n');
        assert((a.skip(k) + line + b)[0] == '\n');
        let rest = a.skip(k + 1);
        assert(s.skip(k + 1) =~= rest + line + b);
        lemma_line_between(rest, line, b);
        let j = choose|j: int|
            0 <= j < lines_of(rest + line + b).len() && lines_of(rest + line + b)[j] == line;
        assert(lines_of(s)[j + 1] == line);
    }
}

// ── Joining ─────────────────────────────────────────────────────────────────

/// The texts of `v` with `sep` between neighbours.
pub open spec fn joined(v: Seq<Seq<char>>, sep: Seq<char>) -> Seq<char>
    decreases v.len(),
{
    if v.len() == 0 {
        seq![]
    } else if v.len() == 1 {
        v[0]
    } else {
        joined(v.drop_last(), sep) + sep + v.last()
    }
}

/// Joins the strings of `v` with `sep` between neighbours.
pub fn join(v: &Vec<String>, sep: &str) -> (r: String)
    ensures
        r@ == joined(v.deep_view(), sep@),
{
    let mut r = String::new();
    let mut i: usize = 0;
    while i < v.len()
        invariant
            i <= v@.len(),
            r@ == joined(v.deep_view().take(i as int), sep@),
        decreases v@.len() - i,
    {
        if i > 0 {
            r.append(sep);
        }
        r.append(v[i].as_str());
        proof {
            let now = v.deep_view().take(i + 1);
            assert(now.drop_last() =~= v.deep_view().take(i as int));
            assert(now.last() == v@[i as int]@);
            if i == 0 {
                assert(r@ =~= now[0]);
            }
        }
        i += 1;
    }
    assert(v.deep_view().take(v@.len() as int) =~= v.deep_view());
    r
}

/// Trimming takes white space off both ends and nothing else: what is left has none
/// at its ends. `from` is where it begins.
pub proof fn law_trimming_takes_white_space_only(s: Seq<char>) -> (from: int)
    ensures
        ({
            let t = trimmed(s);
            &&& 0 <= from && from + t.len() <= s.len()
            &&& t == s.subrange(from, from + t.len())
            &&& forall|i: int|
                (0 <= i < from || from + t.len() <= i < s.len()) ==> white(#[trigger] s[i])
            &&& t.len() > 0 ==> !white(t[0]) && !white(t.last())
        }),
{
    let a = trimmed_start(s);
    lemma_start_taken(s);
    lemma_end_taken(a);
    let from = s.len() - a.len();
    let t = trimmed(s);
    assert(t =~= s.subrange(from, from + t.len()));
    assert forall|i: int| (0 <= i < from || from + t.len() <= i < s.len()) implies white(
        #[trigger] s[i],
    ) by {
        if i >= from {
            assert(a[i - from] == s[i]);
        }
    }
    from
}

proof fn lemma_start_taken(s: Seq<char>)
    ensures
        ({
            let t = trimmed_start(s);
            let n = s.len() - t.len();
            &&& 0 <= n
            &&& t == s.skip(n)
            &&& forall|i: int| 0 <= i < n ==> white(#[trigger] s[i])
            &&& t.len() > 0 ==> !white(t[0])
        }),
    decreases s.len(),
{
    if s.len() > 0 && white(s[0]) {
        let u = s.skip(1);
        lemma_start_taken(u);
        let t = trimmed_start(s);
        let n = s.len() - t.len();
        assert(t =~= s.skip(n));
        assert forall|i: int| 0 <= i < n implies white(#[trigger] s[i]) by {
            if i > 0 {
                assert(u[i - 1] == s[i]);
            }
        }
    } else {
        assert(s.skip(0) =~= s);
    }
}

proof fn lemma_end_taken(s: Seq<char>)
    ensures
        ({
            let t = trimmed_end(s);
            &&& t.len() <= s.len()
            &&& t == s.take(t.len() as int)
            &&& forall|i: int| t.len() <= i < s.len() ==> white(#[trigger] s[i])
            &&& t.len() > 0 ==> !white(t.last())
            &&& t.len() > 0 ==> t[0] == s[0]
        }),
    decreases s.len(),
{
    if s.len() > 0 && white(s.last()) {
        let u = s.drop_last();
        lemma_end_taken(u);
        let t = trimmed_end(s);
        assert(t =~= s.take(t.len() as int));
        assert forall|i: int| t.len() <= i < s.len() implies white(#[trigger] s[i]) by {
            if i < u.len() {
                assert(u[i] == s[i]);
            }
        }
    } else {
        assert(s.take(s.len() as int) =~= s);
    }
}

/// The parts of a text hold no separator, and with a separator between each two of
/// them they are the text again.
pub proof fn law_parts_make_up_the_text(s: Seq<char>, c: char)
    ensures
        parts_on(s, c).len() > 0,
        joined(parts_on(s, c), seq![c]) == s,
        forall|i: int, j: int|
            0 <= i < parts_on(s, c).len() && 0 <= j < parts_on(s, c)[i].len()
                ==> #[trigger] parts_on(s, c)[i][j] != c,
    decreases s.len(),
{
    let k = pos(s, c) as int;
    let p = parts_on(s, c);
    lemma_pos(s, c);
    if k < s.len() {
        let rest = s.skip(k + 1);
        let q = parts_on(rest, c);
        law_parts_make_up_the_text(rest, c);
        assert(p =~= seq![s.take(k)] + q);
        lemma_joined_front(s.take(k), q, seq![c]);
        assert(s =~= s.take(k) + seq![c] + rest);
        assert forall|i: int, j: int|
            0 <= i < p.len() && 0 <= j < p[i].len() implies #[trigger] p[i][j] != c by {
            if i > 0 {
                assert(p[i] == q[i - 1]);
                assert(q[i - 1][j] != c);
            }
        }
    } else {
        reveal_with_fuel(joined, 2);
        assert(p.drop_last() =~= seq![]);
    }
}

/// Texts joined behind another one.
pub proof fn lemma_joined_front(a: Seq<char>, rest: Seq<Seq<char>>, sep: Seq<char>)
    requires
        rest.len() > 0,
    ensures
        joined(seq![a] + rest, sep) == a + sep + joined(rest, sep),
    decreases rest.len(),
{
    let all = seq![a] + rest;
    assert(all.last() == rest.last());
    if rest.len() == 1 {
        assert(all.drop_last() =~= seq![a]);
        assert(rest.drop_last() =~= seq![]);
        assert(all.drop_last().drop_last() =~= seq![]);
        reveal_with_fuel(joined, 3);
        assert(joined(all, sep) =~= a + sep + joined(rest, sep));
    } else {
        assert(all.drop_last() =~= seq![a] + rest.drop_last());
        lemma_joined_front(a, rest.drop_last(), sep);
        assert(joined(all, sep) =~= a + sep + joined(rest, sep));
    }
}

proof fn lemma_found_first(s: Seq<char>, p: Seq<char>)
    ensures
        found(s, p) matches Some(k) ==> k + p.len() <= s.len() && s.subrange(
            k as int,
            (k + p.len()) as int,
        ) == p,
        forall|i: int|
            #![trigger s.skip(i)]
            0 <= i <= s.len() && begins(s.skip(i), p) ==> (found(s, p) matches Some(k) && k <= i),
    decreases s.len(),
{
    if begins(s, p) {
        assert(s.subrange(0, p.len() as int) =~= s.take(p.len() as int));
    } else if s.len() > 0 {
        let u = s.skip(1);
        lemma_found_first(u, p);
        match found(u, p) {
            Some(k) => {
                assert(s.subrange(k as int + 1, (k + 1 + p.len()) as int) =~= u.subrange(
                    k as int,
                    (k + p.len()) as int,
                ));
            },
            None => {},
        }
        assert forall|i: int|
            #![trigger s.skip(i)]
            0 <= i <= s.len() && begins(s.skip(i), p) implies (found(s, p) matches Some(k)
            && k <= i) by {
            if i == 0 {
                assert(s.skip(0) =~= s);
            } else {
                assert(s.skip(i) =~= u.skip(i - 1));
            }
        }
    } else {
        assert(s.skip(0) =~= s);
    }
}

/// A text is cut exactly where what is looked for stands first: the two sides with
/// it between them are the text, and it begins nowhere before.
pub proof fn law_cuts_are_at_the_first(s: Seq<char>, p: Seq<char>, i: int)
    requires
        0 <= i <= s.len(),
    ensures
        cut(s, p) matches Some((a, b)) ==> s == a + p + b && (begins(s.skip(i), p) ==> a.len()
            <= i),
        begins(s.skip(i), p) ==> cut(s, p) is Some && occurs(s, p),
{
    lemma_found_first(s, p);
    match found(s, p) {
        Some(k) => {
            let a = s.take(k as int);
            let b = s.skip((k + p.len()) as int);
            assert(s =~= a + s.subrange(k as int, (k + p.len()) as int) + b);
        },
        None => {},
    }
    assert(s.skip(i) == s.skip(i));
}

/// Lines hold no line feed, and with one between each two of them they are the text
/// again, where it holds no carriage return and does not end in a line feed.
pub proof fn law_lines_make_up_the_text(s: Seq<char>)
    requires
        s.len() > 0,
        s.last() != '\n',
        forall|i: int| 0 <= i < s.len() ==> #[trigger] s[i] != '\r',
    ensures
        lines_of(s).len() > 0,
        joined(lines_of(s), seq!['\n']) == s,
        forall|i: int, j: int|
            0 <= i < lines_of(s).len() && 0 <= j < lines_of(s)[i].len()
                ==> #[trigger] lines_of(s)[i][j] != '\n',
    decreases s.len(),
{
    let k = pos(s, '\n') as int;
    let p = lines_of(s);
    lemma_pos(s, '\n');
    if k < s.len() {
        let rest = s.skip(k + 1);
        let head = s.take(k);
        assert(k < s.len() - 1);
        assert(rest.last() == s.last());
        assert forall|i: int| 0 <= i < rest.len() implies #[trigger] rest[i] != '\r' by {
            assert(s[i + k + 1] != '\r');
        }
        law_lines_make_up_the_text(rest);
        let q = lines_of(rest);
        assert(head.len() > 0 ==> head.last() == s[k - 1]);
        assert(without_cr(head) == head);
        assert(p =~= seq![head] + q);
        lemma_joined_front(head, q, seq!['\n']);
        assert(s =~= head + seq!['\n'] + rest);
        assert forall|i: int, j: int|
            0 <= i < p.len() && 0 <= j < p[i].len() implies #[trigger] p[i][j] != '\n' by {
            if i > 0 {
                assert(p[i] == q[i - 1]);
                assert(q[i - 1][j] != '\n');
            }
        }
    } else {
        reveal_with_fuel(joined, 2);
        assert(p.drop_last() =~= seq![]);
    }
}

/// Lines with a line feed between each two of them, and one behind the last where
/// `closed`, read back as those lines.
pub proof fn law_joined_lines_read_back(lines: Seq<Seq<char>>, closed: bool)
    requires
        lines.len() > 0,
        closed || lines.last().len() > 0,
        forall|i: int, j: int|
            0 <= i < lines.len() && 0 <= j < lines[i].len() ==> #[trigger] lines[i][j] != '\n'
                && lines[i][j] != '\r',
    ensures
        lines_of(
            if closed {
                joined(lines, seq!['\n']) + seq!['\n']
            } else {
                joined(lines, seq!['\n'])
            },
        ) == lines,
    decreases lines.len(),
{
    let end: Seq<char> = if closed {
        seq!['\n']
    } else {
        seq![]
    };
    let t = joined(lines, seq!['\n']) + end;
    let a = lines[0];
    assert(forall|j: int| 0 <= j < a.len() ==> lines[0][j] != '\n' && lines[0][j] != '\r');
    assert(without_cr(a) == a);
    if lines.len() == 1 {
        assert(joined(lines, seq!['\n']) =~= a);
        if closed {
            assert(t =~= a + seq!['\n']);
            lemma_pos_cat(a, seq!['\n'], '\n');
            assert(t.take(a.len() as int) =~= a);
            assert(t.skip(a.len() as int + 1) =~= seq![]);
            assert(lines_of(t.skip(a.len() as int + 1)) =~= seq![]);
            assert(lines_of(t) =~= seq![a]);
            assert(lines_of(t) =~= lines);
        } else {
            assert(t =~= a);
            assert(lines.last() == a);
            lemma_pos(a, '\n');
            assert(lines_of(t) =~= seq![a]);
            assert(lines_of(t) =~= lines);
        }
    } else {
        let rest = lines.skip(1);
        assert(lines =~= seq![a] + rest);
        lemma_joined_front(a, rest, seq!['\n']);
        let u = joined(rest, seq!['\n']) + end;
        assert(t =~= a + (seq!['\n'] + u));
        lemma_pos_cat(a, seq!['\n'] + u, '\n');
        assert(t.take(a.len() as int) =~= a);
        assert(t.skip(a.len() as int + 1) =~= u);
        assert forall|i: int, j: int|
            0 <= i < rest.len() && 0 <= j < rest[i].len() implies #[trigger] rest[i][j] != '\n'
            && rest[i][j] != '\r' by {
            assert(rest[i] == lines[i + 1]);
            assert(lines[i + 1][j] != '\n');
        }
        assert(rest.last() == lines.last());
        law_joined_lines_read_back(rest, closed);
        if !closed {
            assert(u =~= joined(rest, seq!['\n']));
        }
        assert(lines_of(t) =~= lines);
    }
    if !closed {
        assert(t =~= joined(lines, seq!['\n']));
    }
}

/// A text is cut at its last `c`: the two sides with it between them are the text,
/// and the second holds none. Without one it is not cut.
pub proof fn law_last_cuts_are_at_the_last(s: Seq<char>, c: char)
    ensures
        last_cut(s, c) matches Some((a, b)) ==> s == a + seq![c] + b && forall|i: int|
            0 <= i < b.len() ==> #[trigger] b[i] != c,
        last_cut(s, c) is None <==> forall|i: int| 0 <= i < s.len() ==> #[trigger] s[i] != c,
    decreases s.len(),
{
    if s.len() > 0 {
        let t = s.drop_last();
        law_last_cuts_are_at_the_last(t, c);
        if s.last() == c {
            assert(s =~= t + seq![c] + seq![]);
            assert(s[s.len() - 1] == c);
        } else {
            match last_cut(t, c) {
                Some((a, b)) => {
                    assert(t == a + seq![c] + b);
                    assert(s =~= t.push(s.last()));
                    assert((a + seq![c] + b).push(s.last()) =~= a + seq![c] + b.push(s.last()));
                    if forall|i: int| 0 <= i < s.len() ==> #[trigger] s[i] != c {
                        assert(s[a.len() as int] != c);
                        assert(t[a.len() as int] == c);
                    }
                },
                None => {
                    assert forall|i: int| 0 <= i < s.len() implies #[trigger] s[i] != c by {
                        if i < t.len() {
                            assert(t[i] != c);
                        }
                    }
                },
            }
        }
    }
}

/// A padded text is as long as asked for or longer, holds the text at its end or its
/// start, and nothing but spaces besides.
pub proof fn law_padding_adds_spaces(s: Seq<char>, width: nat)
    ensures
        ({
            let r = padded(s, width);
            let l = padded_left(s, width);
            &&& r.len() == (if s.len() < width {
                width
            } else {
                s.len()
            })
            &&& l.len() == r.len()
            &&& r.take(s.len() as int) == s
            &&& l.skip(l.len() - s.len()) == s
            &&& forall|i: int| s.len() <= i < r.len() ==> #[trigger] r[i] == ' '
            &&& forall|i: int| 0 <= i < l.len() - s.len() ==> #[trigger] l[i] == ' '
        }),
{
    let r = padded(s, width);
    let l = padded_left(s, width);
    assert(r.take(s.len() as int) =~= s);
    assert(l.skip(l.len() - s.len()) =~= s);
}

/// Small letters are the capitals' own, and every other character stays.
pub proof fn law_smalls_change_capitals_only(s: Seq<char>, i: int)
    requires
        0 <= i < s.len(),
    ensures
        ascii_smalls(s).len() == s.len(),
        'A' <= s[i] <= 'Z' ==> ascii_smalls(s)[i] as u32 == s[i] as u32 + 32,
        !('A' <= s[i] <= 'Z') ==> ascii_smalls(s)[i] == s[i],
{
}

} // verus!
