//! Filtering, ordering and searching of sequences.
use vstd::prelude::*;

use crate::text::{chars_of, same};

verus! {

// ── Filtering ───────────────────────────────────────────────────────────────

/// What `f` makes of the items of `v`, without those it makes nothing of.
pub open spec fn kept<A, B>(v: Seq<A>, f: spec_fn(A) -> Option<B>) -> Seq<B>
    decreases v.len(),
{
    if v.len() == 0 {
        seq![]
    } else {
        let before = kept(v.drop_last(), f);
        match f(v.last()) {
            Some(x) => before.push(x),
            None => before,
        }
    }
}

/// One step of `kept`, from the first `i` items to the first `i + 1`.
pub proof fn lemma_kept_step<A, B>(v: Seq<A>, i: int, f: spec_fn(A) -> Option<B>)
    requires
        0 <= i < v.len(),
    ensures
        kept(v.take(i + 1), f) == (match f(v[i]) {
            Some(x) => kept(v.take(i), f).push(x),
            None => kept(v.take(i), f),
        }),
{
    assert(v.take(i + 1).drop_last() =~= v.take(i));
}

/// `kept` on all items and on none.
pub proof fn lemma_kept_ends<A, B>(v: Seq<A>, f: spec_fn(A) -> Option<B>)
    ensures
        kept(v.take(0), f) == Seq::<B>::empty(),
        kept(v.take(v.len() as int), f) == kept(v, f),
{
    assert(v.take(v.len() as int) =~= v);
}

/// What is kept comes from an item, and what an item gives is kept.
pub proof fn lemma_kept_contains<A, B>(v: Seq<A>, f: spec_fn(A) -> Option<B>, x: B)
    ensures
        kept(v, f).contains(x) <==> exists|i: int| 0 <= i < v.len() && f(#[trigger] v[i]) == Some(x),
    decreases v.len(),
{
    if v.len() > 0 {
        let w = v.drop_last();
        let k = kept(w, f);
        lemma_kept_contains(w, f, x);
        if kept(v, f).contains(x) {
            let j = choose|j: int| 0 <= j < kept(v, f).len() && kept(v, f)[j] == x;
            if j < k.len() {
                assert(k[j] == x);
                let i = choose|i: int| 0 <= i < w.len() && f(#[trigger] w[i]) == Some(x);
                assert(v[i] == w[i]);
            } else {
                assert(f(v[v.len() - 1]) == Some(x));
            }
        }
        if exists|i: int| 0 <= i < v.len() && f(#[trigger] v[i]) == Some(x) {
            let i = choose|i: int| 0 <= i < v.len() && f(#[trigger] v[i]) == Some(x);
            if i < v.len() - 1 {
                assert(w[i] == v[i]);
                let j = choose|j: int| 0 <= j < k.len() && k[j] == x;
                assert(kept(v, f)[j] == x);
            } else {
                assert(kept(v, f).last() == x);
            }
        }
    }
}

// ── Ranks ───────────────────────────────────────────────────────────────────

/// `x` put behind the last item that does not rank after it.
pub open spec fn placed_at<A>(s: Seq<(int, A)>, x: (int, A)) -> Seq<(int, A)>
    decreases s.len(),
{
    if s.len() == 0 || s.last().0 <= x.0 {
        s.push(x)
    } else {
        placed_at(s.drop_last(), x).push(s.last())
    }
}

/// The items by rank; those with the same rank keep their order.
pub open spec fn by_rank<A>(v: Seq<(int, A)>) -> Seq<(int, A)>
    decreases v.len(),
{
    if v.len() == 0 {
        seq![]
    } else {
        placed_at(by_rank(v.drop_last()), v.last())
    }
}

/// Whether the items stand by rank.
pub open spec fn ranks_rise<A>(s: Seq<(int, A)>) -> bool {
    forall|i: int, j: int| 0 <= i < j < s.len() ==> s[i].0 <= s[j].0
}

/// The items without their ranks.
pub open spec fn unranked<A>(v: Seq<(int, A)>) -> Seq<A> {
    Seq::new(v.len(), |i: int| v[i].1)
}

/// The place at which `x` goes among the first `p` items of `s`.
pub proof fn lemma_placed_before<A>(s: Seq<(int, A)>, x: (int, A), p: int)
    requires
        0 < p <= s.len(),
        s[p - 1].0 > x.0,
    ensures
        placed_at(s.take(p), x) + s.skip(p) == placed_at(s.take(p - 1), x) + s.skip(p - 1),
{
    let t = s.take(p);
    assert(t.drop_last() =~= s.take(p - 1));
    assert(placed_at(t, x) + s.skip(p) =~= placed_at(s.take(p - 1), x) + s.skip(p - 1));
}

proof fn lemma_placed_at<A>(s: Seq<(int, A)>, x: (int, A))
    ensures
        placed_at(s, x).to_multiset() == s.to_multiset().insert(x),
        ranks_rise(s) ==> ranks_rise(placed_at(s, x)),
        s.len() > 0 && ranks_rise(s) ==> placed_at(s, x).last().0 == (if s.last().0 <= x.0 {
            x.0
        } else {
            s.last().0
        }),
        placed_at(s, x).len() == s.len() + 1,
    decreases s.len(),
{
    broadcast use vstd::seq_lib::group_to_multiset_ensures;

    if s.len() > 0 && s.last().0 > x.0 {
        let t = s.drop_last();
        lemma_placed_at(t, x);
        let u = placed_at(t, x);
        assert(t.push(s.last()) =~= s);
        assert(s.to_multiset() == t.to_multiset().insert(s.last()));
        assert(u.push(s.last()).to_multiset() == u.to_multiset().insert(s.last()));
        assert(t.to_multiset().insert(x).insert(s.last()) =~= t.to_multiset().insert(
            s.last(),
        ).insert(x));
        if ranks_rise(s) {
            assert(ranks_rise(t)) by {
                assert forall|i: int, j: int| 0 <= i < j < t.len() implies t[i].0 <= t[j].0 by {
                    assert(s[i].0 <= s[j].0);
                }
            }
            let r = placed_at(s, x);
            assert forall|i: int, j: int| 0 <= i < j < r.len() implies r[i].0 <= r[j].0 by {
                if j == r.len() - 1 {
                    assert(u[i].0 <= u.last().0);
                    if t.len() > 0 {
                        assert(s[t.len() - 1].0 <= s[s.len() - 1].0);
                    } else {
                        assert(u =~= seq![x]);
                    }
                } else {
                    assert(u[i].0 <= u[j].0);
                }
            }
        }
    } else if ranks_rise(s) {
        let r = s.push(x);
        assert forall|i: int, j: int| 0 <= i < j < r.len() implies r[i].0 <= r[j].0 by {
            if j == r.len() - 1 && i < s.len() - 1 {
                assert(s[i].0 <= s[s.len() - 1].0);
            }
        }
    }
}

/// Sorting by rank keeps every item, and puts them by rank.
pub proof fn lemma_by_rank<A>(v: Seq<(int, A)>)
    ensures
        by_rank(v).to_multiset() == v.to_multiset(),
        ranks_rise(by_rank(v)),
        by_rank(v).len() == v.len(),
    decreases v.len(),
{
    broadcast use vstd::seq_lib::group_to_multiset_ensures;

    if v.len() > 0 {
        lemma_by_rank(v.drop_last());
        lemma_placed_at(by_rank(v.drop_last()), v.last());
        assert(v.drop_last().push(v.last()) =~= v);
    }
}

// ── Rising numbers ──────────────────────────────────────────────────────────

/// Whether the numbers rise strictly.
pub open spec fn rises(s: Seq<u32>) -> bool {
    forall|i: int, j: int| 0 <= i < j < s.len() ==> s[i] < s[j]
}

/// `x` put into its place among rising numbers, once.
pub open spec fn with_num(s: Seq<u32>, x: u32) -> Seq<u32>
    decreases s.len(),
{
    if s.len() == 0 || s.last() < x {
        s.push(x)
    } else if s.last() == x {
        s
    } else {
        with_num(s.drop_last(), x).push(s.last())
    }
}

/// The numbers of `v`, each once, in rising order.
pub open spec fn rising(v: Seq<u32>) -> Seq<u32>
    decreases v.len(),
{
    if v.len() == 0 {
        seq![]
    } else {
        with_num(rising(v.drop_last()), v.last())
    }
}

proof fn lemma_with_num(s: Seq<u32>, x: u32)
    requires
        rises(s),
    ensures
        rises(with_num(s, x)),
        forall|y: u32| #[trigger] with_num(s, x).contains(y) <==> s.contains(y) || y == x,
    decreases s.len(),
{
    let r = with_num(s, x);
    if s.len() == 0 || s.last() < x {
        assert(r[r.len() - 1] == x);
        assert forall|y: u32| #[trigger] r.contains(y) <==> s.contains(y) || y == x by {
            if s.contains(y) {
                let i = choose|i: int| 0 <= i < s.len() && s[i] == y;
                assert(r[i] == y);
            }
            if r.contains(y) && y != x {
                let i = choose|i: int| 0 <= i < r.len() && r[i] == y;
                assert(s[i] == y);
            }
        }
    } else if s.last() == x {
        assert(s.contains(x)) by {
            assert(s[s.len() - 1] == x);
        }
    } else {
        let t = s.drop_last();
        let u = with_num(t, x);
        lemma_with_num(t, x);
        assert forall|y: u32| #[trigger] r.contains(y) <==> s.contains(y) || y == x by {
            if s.contains(y) {
                let i = choose|i: int| 0 <= i < s.len() && s[i] == y;
                if i < t.len() {
                    assert(t[i] == y);
                    assert(u.contains(y));
                    let j = choose|j: int| 0 <= j < u.len() && u[j] == y;
                    assert(r[j] == y);
                } else {
                    assert(r[r.len() - 1] == y);
                }
            }
            if y == x {
                assert(u.contains(x));
                let j = choose|j: int| 0 <= j < u.len() && u[j] == x;
                assert(r[j] == x);
            }
            if r.contains(y) && y != x {
                let i = choose|i: int| 0 <= i < r.len() && r[i] == y;
                if i < u.len() {
                    assert(u[i] == y);
                    assert(u.contains(y));
                    let j = choose|j: int| 0 <= j < t.len() && t[j] == y;
                    assert(s[j] == y);
                } else {
                    assert(s[s.len() - 1] == y);
                }
            }
        }
        assert forall|i: int, j: int| 0 <= i < j < r.len() implies r[i] < r[j] by {
            if j == r.len() - 1 {
                assert(u.contains(u[i]));
                if u[i] != x {
                    let k = choose|k: int| 0 <= k < t.len() && t[k] == u[i];
                    assert(s[k] < s[s.len() - 1]);
                }
            }
        }
    }
}

/// `rising` rises strictly and holds the numbers that its argument holds.
pub proof fn law_rising(v: Seq<u32>)
    ensures
        rises(rising(v)),
        forall|y: u32| #[trigger] rising(v).contains(y) <==> v.contains(y),
    decreases v.len(),
{
    if v.len() > 0 {
        let w = v.drop_last();
        law_rising(w);
        lemma_with_num(rising(w), v.last());
        assert forall|y: u32| #[trigger] rising(v).contains(y) <==> v.contains(y) by {
            if v.contains(y) {
                let i = choose|i: int| 0 <= i < v.len() && v[i] == y;
                if i < w.len() {
                    assert(w[i] == y);
                }
            }
            if w.contains(y) {
                let i = choose|i: int| 0 <= i < w.len() && w[i] == y;
                assert(v[i] == y);
            }
            assert(v[v.len() - 1] == v.last());
        }
    }
}

/// Puts `x` into its place among rising numbers, once.
pub fn insert_num(v: &mut Vec<u32>, x: u32)
    ensures
        final(v)@ == with_num(old(v)@, x),
{
    let mut p: usize = v.len();
    let ghost s = v@;
    assert(s.take(p as int) =~= s);
    assert(with_num(s, x) =~= with_num(s.take(p as int), x) + s.skip(p as int));
    while p > 0 && v[p - 1] > x
        invariant
            v@ == s,
            p <= s.len(),
            with_num(s, x) == with_num(s.take(p as int), x) + s.skip(p as int),
        decreases p,
    {
        proof {
            let t = s.take(p as int);
            assert(t.drop_last() =~= s.take(p - 1));
            assert(with_num(t, x) + s.skip(p as int) =~= with_num(s.take(p - 1), x) + s.skip(
                p - 1,
            ));
        }
        p -= 1;
    }
    if p > 0 && v[p - 1] == x {
        assert(s.take(p as int) + s.skip(p as int) =~= s);
        return;
    }
    v.insert(p, x);
    assert(s.take(p as int).push(x) + s.skip(p as int) =~= s.insert(p as int, x));
}

/// The numbers of `v`, each once, in rising order.
pub fn sort_dedup(v: &Vec<u32>) -> (r: Vec<u32>)
    ensures
        r@ == rising(v@),
{
    let mut r: Vec<u32> = Vec::new();
    let mut i: usize = 0;
    while i < v.len()
        invariant
            i <= v@.len(),
            r@ == rising(v@.take(i as int)),
        decreases v@.len() - i,
    {
        assert(v@.take(i + 1).drop_last() =~= v@.take(i as int));
        insert_num(&mut r, v[i]);
        i += 1;
    }
    assert(v@.take(v@.len() as int) =~= v@);
    r
}

/// Whether `v` holds `x`.
pub fn has_num(v: &Vec<u32>, x: u32) -> (r: bool)
    ensures
        r == v@.contains(x),
{
    let mut i: usize = 0;
    while i < v.len()
        invariant
            i <= v@.len(),
            forall|k: int| 0 <= k < i ==> v@[k] != x,
        decreases v@.len() - i,
    {
        if v[i] == x {
            assert(v@[i as int] == x);
            return true;
        }
        i += 1;
    }
    false
}

// ── Texts in order ──────────────────────────────────────────────────────────

/// Whether `a` comes before `b` in the order of their characters.
pub open spec fn precedes(a: Seq<char>, b: Seq<char>) -> bool
    decreases a.len(),
{
    if b.len() == 0 {
        false
    } else if a.len() == 0 {
        true
    } else if a[0] != b[0] {
        a[0] < b[0]
    } else {
        precedes(a.skip(1), b.skip(1))
    }
}

/// The order of texts is strict and total.
pub proof fn law_text_order_is_total(a: Seq<char>, b: Seq<char>)
    ensures
        !precedes(a, a),
        precedes(a, b) ==> !precedes(b, a),
        a != b ==> precedes(a, b) || precedes(b, a),
    decreases a.len(),
{
    if a.len() > 0 {
        if b.len() > 0 {
            law_text_order_is_total(a.skip(1), b.skip(1));
            if a[0] == b[0] && a.skip(1) == b.skip(1) {
                assert(a =~= seq![a[0]] + a.skip(1));
                assert(b =~= seq![b[0]] + b.skip(1));
            }
        } else {
            law_text_order_is_total(a.skip(1), a.skip(1));
        }
    } else if b.len() == 0 {
        assert(a =~= b);
    }
}

/// The order of texts is transitive.
pub proof fn law_text_order_is_transitive(a: Seq<char>, b: Seq<char>, c: Seq<char>)
    requires
        precedes(a, b),
        precedes(b, c),
    ensures
        precedes(a, c),
    decreases a.len(),
{
    if a.len() > 0 && a[0] == b[0] && b[0] == c[0] {
        law_text_order_is_transitive(a.skip(1), b.skip(1), c.skip(1));
    }
}

/// Whether `a` comes before `b`.
pub fn text_before(a: &str, b: &str) -> (r: bool)
    ensures
        r == precedes(a@, b@),
{
    let v = chars_of(a);
    let w = chars_of(b);
    let mut i: usize = 0;
    assert(a@.skip(0) =~= a@);
    assert(b@.skip(0) =~= b@);
    loop
        invariant
            v@ == a@,
            w@ == b@,
            i <= v@.len(),
            i <= w@.len(),
            precedes(a@, b@) == precedes(a@.skip(i as int), b@.skip(i as int)),
        decreases v@.len() - i,
    {
        if i == w.len() {
            return false;
        }
        if i == v.len() {
            return true;
        }
        if v[i] != w[i] {
            return v[i] < w[i];
        }
        assert(a@.skip(i as int).skip(1) =~= a@.skip(i + 1));
        assert(b@.skip(i as int).skip(1) =~= b@.skip(i + 1));
        i += 1;
    }
}

/// Whether the texts are in order, each once.
pub open spec fn in_order(s: Seq<Seq<char>>) -> bool {
    forall|i: int, j: int| 0 <= i < j < s.len() ==> precedes(s[i], s[j])
}

/// `x` put into its place among ordered texts, once.
pub open spec fn with_text(s: Seq<Seq<char>>, x: Seq<char>) -> Seq<Seq<char>>
    decreases s.len(),
{
    if s.len() == 0 || precedes(s.last(), x) {
        s.push(x)
    } else if s.last() == x {
        s
    } else {
        with_text(s.drop_last(), x).push(s.last())
    }
}

/// The texts of `v`, each once, in order.
pub open spec fn ordered(v: Seq<Seq<char>>) -> Seq<Seq<char>>
    decreases v.len(),
{
    if v.len() == 0 {
        seq![]
    } else {
        with_text(ordered(v.drop_last()), v.last())
    }
}

proof fn lemma_with_text(s: Seq<Seq<char>>, x: Seq<char>)
    requires
        in_order(s),
    ensures
        in_order(with_text(s, x)),
        forall|y: Seq<char>| #[trigger] with_text(s, x).contains(y) <==> s.contains(y) || y == x,
    decreases s.len(),
{
    let r = with_text(s, x);
    if s.len() == 0 || precedes(s.last(), x) {
        assert(r[r.len() - 1] == x);
        assert forall|y: Seq<char>| #[trigger] r.contains(y) <==> s.contains(y) || y == x by {
            if s.contains(y) {
                let i = choose|i: int| 0 <= i < s.len() && s[i] == y;
                assert(r[i] == y);
            }
            if r.contains(y) && y != x {
                let i = choose|i: int| 0 <= i < r.len() && r[i] == y;
                assert(s[i] == y);
            }
        }
        assert forall|i: int, j: int| 0 <= i < j < r.len() implies precedes(r[i], r[j]) by {
            if j == r.len() - 1 && i < s.len() - 1 {
                law_text_order_is_transitive(s[i], s.last(), x);
            }
        }
    } else if s.last() == x {
        assert(s.contains(x)) by {
            assert(s[s.len() - 1] == x);
        }
    } else {
        let t = s.drop_last();
        let u = with_text(t, x);
        lemma_with_text(t, x);
        law_text_order_is_total(s.last(), x);
        assert forall|y: Seq<char>| #[trigger] r.contains(y) <==> s.contains(y) || y == x by {
            if s.contains(y) {
                let i = choose|i: int| 0 <= i < s.len() && s[i] == y;
                if i < t.len() {
                    assert(t[i] == y);
                    assert(u.contains(y));
                    let j = choose|j: int| 0 <= j < u.len() && u[j] == y;
                    assert(r[j] == y);
                } else {
                    assert(r[r.len() - 1] == y);
                }
            }
            if y == x {
                assert(u.contains(x));
                let j = choose|j: int| 0 <= j < u.len() && u[j] == x;
                assert(r[j] == x);
            }
            if r.contains(y) && y != x {
                let i = choose|i: int| 0 <= i < r.len() && r[i] == y;
                if i < u.len() {
                    assert(u[i] == y);
                    assert(u.contains(y));
                    let j = choose|j: int| 0 <= j < t.len() && t[j] == y;
                    assert(s[j] == y);
                } else {
                    assert(s[s.len() - 1] == y);
                }
            }
        }
        assert forall|i: int, j: int| 0 <= i < j < r.len() implies precedes(r[i], r[j]) by {
            if j == r.len() - 1 {
                assert(u.contains(u[i]));
                if u[i] != x {
                    let k = choose|k: int| 0 <= k < t.len() && t[k] == u[i];
                    assert(precedes(s[k], s[s.len() - 1]));
                }
            }
        }
    }
}

/// `ordered` is in order and holds the texts that its argument holds.
pub proof fn law_ordered(v: Seq<Seq<char>>)
    ensures
        in_order(ordered(v)),
        forall|y: Seq<char>| #[trigger] ordered(v).contains(y) <==> v.contains(y),
    decreases v.len(),
{
    if v.len() > 0 {
        let w = v.drop_last();
        law_ordered(w);
        lemma_with_text(ordered(w), v.last());
        assert forall|y: Seq<char>| #[trigger] ordered(v).contains(y) <==> v.contains(y) by {
            if v.contains(y) {
                let i = choose|i: int| 0 <= i < v.len() && v[i] == y;
                if i < w.len() {
                    assert(w[i] == y);
                }
            }
            if w.contains(y) {
                let i = choose|i: int| 0 <= i < w.len() && w[i] == y;
                assert(v[i] == y);
            }
            assert(v[v.len() - 1] == v.last());
        }
    }
}

/// Puts `x` into its place among ordered texts, once.
pub fn insert_text(v: &mut Vec<String>, x: String)
    ensures
        final(v).deep_view() == with_text(old(v).deep_view(), x@),
{
    let mut p: usize = v.len();
    let ghost s = v.deep_view();
    assert(s.take(p as int) =~= s);
    assert(with_text(s, x@) =~= with_text(s.take(p as int), x@) + s.skip(p as int));
    while p > 0
        invariant
            v.deep_view() == s,
            s.len() == v@.len(),
            p <= s.len(),
            with_text(s, x@) == with_text(s.take(p as int), x@) + s.skip(p as int),
        ensures
            v.deep_view() == s,
            p <= s.len() == v@.len(),
            with_text(s, x@) == with_text(s.take(p as int), x@) + s.skip(p as int),
            p == 0 || precedes(s[p - 1], x@),
        decreases p,
    {
        assert(s[p - 1] == v@[p - 1]@);
        if text_before(v[p - 1].as_str(), x.as_str()) {
            break;
        }
        if same(v[p - 1].as_str(), x.as_str()) {
            assert(s.take(p as int) + s.skip(p as int) =~= s);
            return;
        }
        proof {
            let t = s.take(p as int);
            assert(t.drop_last() =~= s.take(p - 1));
            assert(with_text(t, x@) + s.skip(p as int) =~= with_text(s.take(p - 1), x@) + s.skip(
                p - 1,
            ));
        }
        p -= 1;
    }
    let ghost y = x@;
    v.insert(p, x);
    assert(s.take(p as int).push(y) + s.skip(p as int) =~= s.insert(p as int, y));
    assert(v.deep_view() =~= s.insert(p as int, y));
}

/// The strings of `v`, each once, in order.
pub fn sort_dedup_texts(v: &Vec<String>) -> (r: Vec<String>)
    ensures
        r.deep_view() == ordered(v.deep_view()),
{
    let mut r: Vec<String> = Vec::new();
    let mut i: usize = 0;
    assert(r.deep_view() =~= ordered(v.deep_view().take(0)));
    while i < v.len()
        invariant
            i <= v@.len(),
            r.deep_view() == ordered(v.deep_view().take(i as int)),
        decreases v@.len() - i,
    {
        assert(v.deep_view().take(i + 1).drop_last() =~= v.deep_view().take(i as int));
        insert_text(&mut r, v[i].clone());
        i += 1;
    }
    assert(v.deep_view().take(v@.len() as int) =~= v.deep_view());
    r
}

// ── Looking up ──────────────────────────────────────────────────────────────

/// The value beside the first entry with this key.
pub open spec fn lookup<A>(pairs: Seq<(Seq<char>, A)>, key: Seq<char>) -> Option<A>
    decreases pairs.len(),
{
    if pairs.len() == 0 {
        None
    } else if pairs[0].0 == key {
        Some(pairs[0].1)
    } else {
        lookup(pairs.skip(1), key)
    }
}

/// A look-up finds the first entry with the key: `k` is its place, or the number
/// of the entries where none has the key.
pub proof fn law_lookup_finds_the_first<A>(pairs: Seq<(Seq<char>, A)>, key: Seq<char>, k: int)
    requires
        0 <= k <= pairs.len(),
        k < pairs.len() ==> pairs[k].0 == key,
        forall|j: int| 0 <= j < k ==> (#[trigger] pairs[j]).0 != key,
    ensures
        k < pairs.len() ==> lookup(pairs, key) == Some(pairs[k].1),
        k == pairs.len() ==> lookup(pairs, key) is None,
    decreases k,
{
    if k > 0 {
        assert(pairs[0].0 != key);
        assert forall|j: int| 0 <= j < k - 1 implies (#[trigger] pairs.skip(1)[j]).0 != key by {
            assert(pairs[j + 1].0 != key);
        }
        law_lookup_finds_the_first(pairs.skip(1), key, k - 1);
    }
}

/// An entry behind all others is found where no other has the key.
pub proof fn lemma_lookup_push<A>(pairs: Seq<(Seq<char>, A)>, x: (Seq<char>, A), key: Seq<char>)
    ensures
        lookup(pairs.push(x), key) == (match lookup(pairs, key) {
            Some(v) => Some(v),
            None => if x.0 == key {
                Some(x.1)
            } else {
                None
            },
        }),
    decreases pairs.len(),
{
    if pairs.len() > 0 {
        assert(pairs.push(x).skip(1) =~= pairs.skip(1).push(x));
        lemma_lookup_push(pairs.skip(1), x, key);
    } else {
        assert(pairs.push(x).skip(1) =~= pairs);
    }
}

/// A key that no entry has is not found.
pub proof fn lemma_lookup_absent<A>(pairs: Seq<(Seq<char>, A)>, key: Seq<char>)
    requires
        forall|i: int| 0 <= i < pairs.len() ==> (#[trigger] pairs[i]).0 != key,
    ensures
        lookup(pairs, key) is None,
    decreases pairs.len(),
{
    if pairs.len() > 0 {
        assert(pairs[0].0 != key);
        assert forall|i: int| 0 <= i < pairs.skip(1).len() implies (#[trigger] pairs.skip(1)[i]).0
            != key by {
            assert(pairs[i + 1].0 != key);
        }
        lemma_lookup_absent(pairs.skip(1), key);
    }
}

/// The value beside the first entry with this key.
pub fn find_value<'a, A: DeepView>(pairs: &'a Vec<(String, A)>, key: &str) -> (r: Option<&'a A>)
    ensures
        r.deep_view() == lookup(pairs.deep_view(), key@),
{
    let mut i: usize = 0;
    let ghost all = pairs.deep_view();
    assert(all.skip(0) =~= all);
    while i < pairs.len()
        invariant
            i <= pairs@.len(),
            all == pairs.deep_view(),
            lookup(all, key@) == lookup(all.skip(i as int), key@),
        decreases pairs@.len() - i,
    {
        assert(all.skip(i as int).skip(1) =~= all.skip(i + 1));
        if same(pairs[i].0.as_str(), key) {
            return Some(&pairs[i].1);
        }
        i += 1;
    }
    None
}

/// Whether `pairs` holds the pair of `a` and `b`.
pub fn has_pair(pairs: &Vec<(String, String)>, a: &str, b: &str) -> (r: bool)
    ensures
        r == pairs.deep_view().contains((a@, b@)),
{
    let mut i: usize = 0;
    while i < pairs.len()
        invariant
            i <= pairs@.len(),
            forall|k: int| 0 <= k < i ==> (#[trigger] pairs.deep_view()[k]) != (a@, b@),
        decreases pairs@.len() - i,
    {
        if same(pairs[i].0.as_str(), a) && same(pairs[i].1.as_str(), b) {
            assert(pairs.deep_view()[i as int] == (a@, b@));
            return true;
        }
        assert(pairs.deep_view()[i as int] != (a@, b@));
        i += 1;
    }
    false
}

} // verus!
