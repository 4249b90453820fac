//! Slash separated paths and their components.
//!
//! A path is a text. Repeated separators, trailing separators and `.` segments do not count,
//! except for a `.` at the very beginning; a leading separator is a component of its own.

use crate::text;
use vstd::prelude::*;
use vstd::string::*;

verus! {

/// The segment between `i` and `e` is empty or a single dot.
pub open spec fn is_blank(s: Seq<char>, i: int, e: int) -> bool {
    e == i || (e == i + 1 && s[i] == '.')
}

/// Where the components of `s` lie, from `i` on.
pub open spec fn spans_from(s: Seq<char>, i: int) -> Seq<(int, int)>
    decreases s.len() + 1 - i,
{
    if i < 0 || i >= s.len() {
        Seq::empty()
    } else {
        let e = text::index_from(s, '/', i);
        proof {
            text::index_from_is_first(s, '/', i);
        }
        if is_blank(s, i, e) {
            spans_from(s, e + 1)
        } else {
            seq![(i, e)] + spans_from(s, e + 1)
        }
    }
}

/// Whether a path starts at the root.
pub open spec fn is_rooted(s: Seq<char>) -> bool {
    s.len() > 0 && s[0] == '/'
}

/// Whether the first segment of a path is a single dot.
pub open spec fn is_dotted(s: Seq<char>) -> bool {
    s.len() > 0 && s[0] == '.' && (s.len() == 1 || s[1] == '/')
}

/// Where the ordinary components begin: after the root, after a leading dot, or at the start.
pub open spec fn body_start(s: Seq<char>) -> int {
    if is_rooted(s) {
        1
    } else if is_dotted(s) {
        2
    } else {
        0
    }
}

/// Where the components of a path lie.
pub open spec fn spans(s: Seq<char>) -> Seq<(int, int)> {
    if is_rooted(s) || is_dotted(s) {
        seq![(0int, 1int)] + spans_from(s, body_start(s))
    } else {
        spans_from(s, 0)
    }
}

/// The texts of the given spans.
pub open spec fn cut(s: Seq<char>, at: Seq<(int, int)>) -> Seq<Seq<char>> {
    at.map_values(|p: (int, int)| s.subrange(p.0, p.1))
}

/// The components of a path.
pub open spec fn components(s: Seq<char>) -> Seq<Seq<char>> {
    cut(s, spans(s))
}

/// Spans moved by `d`.
pub open spec fn shifted(at: Seq<(int, int)>, d: int) -> Seq<(int, int)> {
    at.map_values(|p: (int, int)| (p.0 + d, p.1 + d))
}

/// Every span lies within the text, after `i`, does not hold a separator, ends at one or at the
/// end, and the spans come one after the other.
#[verifier::rlimit(40)]
pub proof fn spans_from_are_ordered(s: Seq<char>, i: int)
    requires
        0 <= i,
    ensures
        forall|k: int|
            0 <= k < spans_from(s, i).len() ==> i <= (#[trigger] spans_from(s, i)[k]).0
                < spans_from(s, i)[k].1 <= s.len(),
        forall|k: int|
            0 <= k < spans_from(s, i).len() ==> (#[trigger] spans_from(s, i)[k]).1 == s.len()
                || s[spans_from(s, i)[k].1] == '/',
        forall|k: int|
            0 <= k < spans_from(s, i).len() ==> s[(#[trigger] spans_from(s, i)[k]).0] != '/'
                && !is_blank(s, spans_from(s, i)[k].0, spans_from(s, i)[k].1),
        forall|j: int, k: int|
            0 <= j < k < spans_from(s, i).len() ==> (#[trigger] spans_from(s, i)[j]).1 < (
            #[trigger] spans_from(s, i)[k]).0,
    decreases s.len() + 1 - i,
{
    if i < s.len() {
        let e = text::index_from(s, '/', i);
        text::index_from_is_first(s, '/', i);
        spans_from_are_ordered(s, e + 1);
        let rest = spans_from(s, e + 1);
        if !is_blank(s, i, e) {
            assert(spans_from(s, i) =~= seq![(i, e)] + rest);
            assert forall|k: int| 0 <= k < spans_from(s, i).len() implies spans_from(s, i)[k]
                == if k == 0 {
                (i, e)
            } else {
                rest[k - 1]
            } by {}
        }
    }
}

/// Cutting a path at a separator, or at its end, cuts its components there.
#[verifier::rlimit(40)]
pub proof fn spans_from_split(s: Seq<char>, i: int, m: int)
    requires
        0 <= i <= m + 1,
        0 <= m <= s.len(),
        m < s.len() ==> s[m] == '/',
    ensures
        spans_from(s, i) == spans_from(s.take(m), i) + spans_from(s, m + 1),
    decreases s.len() + 1 - i,
{
    let t = s.take(m);
    if i >= m {
        assert(spans_from(t, i) =~= Seq::empty());
        if i == m && m < s.len() {
            assert(text::index_from(s, '/', m) == m);
        }
        assert(spans_from(s, i) =~= spans_from(s, m + 1));
    } else {
        let e = text::index_from(s, '/', i);
        text::index_from_is_first(s, '/', i);
        assert(e <= m);
        assert forall|j: int| i <= j < e implies t[j] != '/' by {
            assert(t[j] == s[j]);
        }
        text::index_from_is(t, '/', i, e);
        spans_from_split(s, e + 1, m);
        assert(is_blank(t, i, e) == is_blank(s, i, e));
        assert(spans_from(s, i) =~= spans_from(t, i) + spans_from(s, m + 1));
    }
}

/// The components of a text that follows another one are its own, moved.
#[verifier::rlimit(40)]
pub proof fn spans_from_shift(u: Seq<char>, t: Seq<char>, i: int)
    requires
        0 <= i,
    ensures
        spans_from(u + t, u.len() + i) == shifted(spans_from(t, i), u.len() as int),
    decreases t.len() + 1 - i,
{
    let s = u + t;
    let d = u.len() as int;
    if i < t.len() {
        let e = text::index_from(t, '/', i);
        text::index_from_is_first(t, '/', i);
        assert forall|j: int| d + i <= j < d + e implies s[j] != '/' by {
            assert(s[j] == t[j - d]);
        }
        if e < t.len() {
            assert(s[d + e] == t[e]);
        }
        text::index_from_is(s, '/', d + i, d + e);
        spans_from_shift(u, t, e + 1);
        assert(s[d + i] == t[i]);
        assert(spans_from(s, d + i) =~= shifted(spans_from(t, i), d));
    } else {
        assert(spans_from(s, d + i) =~= shifted(spans_from(t, i), d));
    }
}

/// Reading on from a component gives that component and those after it.
#[verifier::rlimit(40)]
pub proof fn spans_from_resume(s: Seq<char>, i: int, k: int)
    requires
        0 <= i,
        0 <= k < spans_from(s, i).len(),
    ensures
        spans_from(s, spans_from(s, i)[k].0) == spans_from(s, i).skip(k),
    decreases s.len() + 1 - i,
{
    let e = text::index_from(s, '/', i);
    text::index_from_is_first(s, '/', i);
    let rest = spans_from(s, e + 1);
    if is_blank(s, i, e) {
        spans_from_resume(s, e + 1, k);
    } else if k == 0 {
        assert(spans_from(s, i).skip(0) =~= spans_from(s, i));
    } else {
        spans_from_resume(s, e + 1, k - 1);
        assert(spans_from(s, i)[k] == rest[k - 1]);
        assert(spans_from(s, i).skip(k) =~= rest.skip(k - 1));
    }
}


/// The path without its last component; none for the root and for the empty path.
pub open spec fn parent_of(s: Seq<char>) -> Option<Seq<char>> {
    let at = spans(s);
    if at.len() == 0 || (at.len() == 1 && is_rooted(s)) {
        None
    } else if at.len() == 1 {
        Some(Seq::empty())
    } else {
        Some(s.take(at[at.len() - 2].1))
    }
}

/// The last component of a path, if it is an ordinary name.
pub open spec fn name_of(s: Seq<char>) -> Option<Seq<char>> {
    let parts = components(s);
    if parts.len() == 0 || !is_ordinary(parts.last()) {
        None
    } else {
        Some(parts.last())
    }
}

/// A component that is a name: neither the root nor one of the two dot entries.
pub open spec fn is_ordinary(c: Seq<char>) -> bool {
    c != seq!['/'] && c != seq!['.'] && c != seq!['.', '.']
}

/// Whether `p` is `base` or lies below it, component by component.
pub open spec fn is_under(p: Seq<char>, base: Seq<char>) -> bool {
    components(base).is_prefix_of(components(p))
}

/// What is left of `p` after the components of `base`, without separators around it.
pub open spec fn rest_after(p: Seq<char>, base: Seq<char>) -> Seq<char> {
    let at = spans(p);
    let n = spans(base).len() as int;
    if n >= at.len() {
        Seq::empty()
    } else {
        p.subrange(at[n].0, at.last().1)
    }
}

/// `b` put below `a`: an absolute `b` stands for itself, and one separator is put in between
/// unless `a` is empty or ends with one.
pub open spec fn joined(a: Seq<char>, b: Seq<char>) -> Seq<char> {
    if is_rooted(b) {
        b
    } else if a.len() == 0 || a.last() == '/' {
        a + b
    } else {
        a + seq!['/'] + b
    }
}

/// The spans of a path lie within it and come one after the other; the first one starts it.
#[verifier::rlimit(40)]
pub proof fn spans_are_ordered(s: Seq<char>)
    ensures
        s.len() > 0 <==> spans(s).len() > 0,
        spans(s).len() > 0 ==> spans(s)[0].0 == 0,
        forall|k: int|
            0 <= k < spans(s).len() ==> 0 <= (#[trigger] spans(s)[k]).0 < spans(s)[k].1 <= s.len(),
        forall|k: int|
            1 <= k < spans(s).len() ==> s[(#[trigger] spans(s)[k]).0] != '/' && !is_blank(
                s,
                spans(s)[k].0,
                spans(s)[k].1,
            ),
        forall|j: int, k: int|
            0 <= j < k < spans(s).len() ==> (#[trigger] spans(s)[j]).1 <= (#[trigger] spans(
                s,
            )[k]).0,
        forall|j: int, k: int|
            0 <= j < k < spans(s).len() ==> (#[trigger] spans(s)[j]).1 < (#[trigger] spans(
                s,
            )[k]).1,
{
    let i = body_start(s);
    let tail = spans_from(s, i);
    spans_from_are_ordered(s, i);
    if is_rooted(s) || is_dotted(s) {
        assert forall|k: int| 0 <= k < spans(s).len() implies spans(s)[k] == if k == 0 {
            (0int, 1int)
        } else {
            tail[k - 1]
        } by {}
    } else if s.len() > 0 {
        text::index_from_is_first(s, '/', 0);
        let e = text::index_from(s, '/', 0);
        assert(!is_blank(s, 0, e));
        assert(spans(s)[0] == (0int, e));
    }
}

/// Cutting a path after its component `k` keeps the components up to there.
#[verifier::rlimit(40)]
proof fn spans_from_take(s: Seq<char>, i: int, k: int)
    requires
        0 <= i,
        0 <= k < spans_from(s, i).len(),
    ensures
        spans_from(s.take(spans_from(s, i)[k].1), i) == spans_from(s, i).take(k + 1),
{
    let all = spans_from(s, i);
    let m = all[k].1;
    let t = s.take(m);
    spans_from_are_ordered(s, i);
    spans_from_split(s, i, m);
    let front = spans_from(t, i);
    let back = spans_from(s, m + 1);
    spans_from_are_ordered(t, i);
    spans_from_are_ordered(s, m + 1);
    assert(all =~= front + back);
    if front.len() <= k {
        assert(all[k] == back[k - front.len()]);
    }
    if front.len() > k + 1 {
        assert(all[k + 1] == front[k + 1]);
        assert(all[k] == front[k]);
    }
    assert(front =~= all.take(k + 1));
}

/// Cutting a path after its component `k` keeps the components up to there.
#[verifier::rlimit(40)]
pub proof fn spans_take(s: Seq<char>, k: int)
    requires
        0 <= k < spans(s).len(),
    ensures
        spans(s.take(spans(s)[k].1)) == spans(s).take(k + 1),
        components(s.take(spans(s)[k].1)) == components(s).take(k + 1),
{
    let m = spans(s)[k].1;
    let t = s.take(m);
    let i = body_start(s);
    let tail = spans_from(s, i);
    spans_are_ordered(s);
    spans_from_are_ordered(s, i);
    if is_rooted(s) || is_dotted(s) {
        assert(t[0] == s[0]);
        if k == 0 {
            assert(spans_from(t, i) =~= Seq::empty());
        } else {
            assert(spans(s)[k] == tail[k - 1]);
            spans_from_take(s, i, k - 1);
            assert(t[1] == s[1]);
        }
        assert(is_rooted(t) == is_rooted(s));
        assert(is_dotted(t) == is_dotted(s));
        assert(spans(t) =~= spans(s).take(k + 1));
    } else {
        spans_from_take(s, 0, k);
        assert(t[0] == s[0]);
        if is_dotted(t) {
            assert(m == 1 || t[1] == s[1]);
            assert(spans(s)[0] == (0int, text::index_from(s, '/', 0)));
            text::index_from_is_first(s, '/', 0);
            assert(false);
        }
        assert(spans(t) =~= spans(s).take(k + 1));
    }
    assert forall|j: int| 0 <= j < k + 1 implies components(t)[j] == components(s)[j] by {
        let p = spans(s)[j];
        assert(p.1 <= m);
        assert(spans(t)[j] == p);
        assert(t.subrange(p.0, p.1) =~= s.subrange(p.0, p.1));
    }
    assert(components(t) =~= components(s).take(k + 1));
}

/// The components of the parent are those of the path but for the last one.
pub proof fn parent_drops_last(s: Seq<char>)
    requires
        parent_of(s) is Some,
    ensures
        components(parent_of(s).unwrap()) == components(s).drop_last(),
        parent_of(s).unwrap().is_prefix_of(s),
{
    let at = spans(s);
    spans_are_ordered(s);
    if at.len() == 1 {
        assert(components(Seq::<char>::empty()) =~= components(s).drop_last());
    } else {
        spans_take(s, at.len() - 2);
        assert(components(s).take(at.len() - 1) =~= components(s).drop_last());
    }
}

/// Dropping a path's trailing separators and dots changes none of its components.
pub proof fn trimming_keeps_components(s: Seq<char>)
    requires
        s.len() > 0,
    ensures
        spans(s.take(spans(s).last().1)) == spans(s),
        components(s.take(spans(s).last().1)) == components(s),
{
    spans_are_ordered(s);
    spans_take(s, spans(s).len() - 1);
    assert(spans(s).take(spans(s).len() as int) =~= spans(s));
    assert(components(s).take(spans(s).len() as int) =~= components(s));
}

/// A part of a text whose spans are those of the text from the `n`th on has the components from
/// there on.
#[verifier::rlimit(40)]
proof fn components_of_part(s: Seq<char>, a: int, z: int, n: int)
    requires
        0 <= n <= spans(s).len(),
        0 <= a <= z <= s.len(),
        shifted(spans(s.subrange(a, z)), a) == spans(s).skip(n),
    ensures
        components(s.subrange(a, z)) == components(s).skip(n),
{
    let r = s.subrange(a, z);
    let here = spans(r);
    spans_are_ordered(r);
    assert(here.len() == shifted(here, a).len());
    assert forall|j: int| 0 <= j < here.len() implies components(r)[j] == components(s).skip(n)[j] by {
        let p = here[j];
        assert(shifted(here, a)[j] == (p.0 + a, p.1 + a));
        assert(spans(s)[n + j] == (p.0 + a, p.1 + a));
        assert(r.subrange(p.0, p.1) =~= s.subrange(p.0 + a, p.1 + a));
    }
    assert(components(r) =~= components(s).skip(n));
}

/// The text from the start of a later component on has the spans from there on, moved.
#[verifier::rlimit(40)]
proof fn spans_of_tail(t: Seq<char>, n: int)
    requires
        1 <= n < spans(t).len(),
    ensures
        0 <= spans(t)[n].0 < t.len(),
        shifted(spans(t.skip(spans(t)[n].0)), spans(t)[n].0) == spans(t).skip(n),
        !is_rooted(t.skip(spans(t)[n].0)),
        !is_dotted(t.skip(spans(t)[n].0)),
{
    let a = spans(t)[n].0;
    spans_are_ordered(t);
    let u = t.take(a);
    let r = t.skip(a);
    assert(t =~= u + r);
    let i = body_start(t);
    let k = if is_rooted(t) || is_dotted(t) {
        n - 1
    } else {
        n
    };
    assert(spans_from(t, i)[k] == spans(t)[n]);
    spans_from_resume(t, i, k);
    spans_from_shift(u, r, 0);
    let here = spans_from(r, 0);
    assert(spans_from(t, i).skip(k) =~= spans(t).skip(n));
    assert(shifted(here, a) =~= spans(t).skip(n));
    assert(r[0] == t[a]);
    if is_dotted(r) {
        assert(shifted(here, a)[0] == spans(t)[n]);
        text::index_from_is(r, '/', 0, 1);
        spans_from_are_ordered(r, 2);
        assert(here == spans_from(r, 2));
        assert(spans(t).skip(n)[0] == spans(t)[n]);
        assert(shifted(here, a).len() == here.len());
        assert(shifted(here, a)[0] == (here[0].0 + a, here[0].1 + a));
        assert(here[0].0 == 0);
    }
}

/// The text from the start of a later component to the end of the last one has the components
/// from there on.
#[verifier::rlimit(40)]
proof fn components_from(s: Seq<char>, n: int)
    requires
        1 <= n < spans(s).len(),
    ensures
        components(s.subrange(spans(s)[n].0, spans(s).last().1)) == components(s).skip(n),
        !is_rooted(s.subrange(spans(s)[n].0, spans(s).last().1)),
        !is_dotted(s.subrange(spans(s)[n].0, spans(s).last().1)),
{
    let a = spans(s)[n].0;
    let z = spans(s).last().1;
    spans_are_ordered(s);
    trimming_keeps_components(s);
    let t = s.take(z);
    spans_of_tail(t, n);
    assert(t.skip(a) =~= s.subrange(a, z));
    components_of_part(s, a, z, n);
}

/// What is left after `base` has the components that follow those of `base`.
pub proof fn rest_has_remaining_components(p: Seq<char>, base: Seq<char>)
    requires
        is_under(p, base),
    ensures
        components(rest_after(p, base)) == components(p).skip(components(base).len() as int),
        components(base).len() > 0 ==> !is_rooted(rest_after(p, base)) && !is_dotted(
            rest_after(p, base),
        ),
{
    let at = spans(p);
    let n = spans(base).len() as int;
    spans_are_ordered(p);
    if n >= at.len() {
        assert(components(Seq::<char>::empty()) =~= components(p).skip(n));
    } else if n == 0 {
        trimming_keeps_components(p);
        assert(p.subrange(0, at.last().1) =~= p.take(at.last().1));
        assert(components(p).skip(0) =~= components(p));
    } else {
        components_from(p, n);
    }
}

/// Joining a relative path that has no leading dot appends its components.
pub proof fn joining_appends_components(a: Seq<char>, b: Seq<char>)
    requires
        !is_rooted(b),
        !is_dotted(b),
    ensures
        components(joined(a, b)) == components(a) + components(b),
{
    if a.len() == 0 {
        assert(a + b =~= b);
        assert(components(a) + components(b) =~= components(b));
    } else {
        joining_below_appends(a, b);
    }
}

#[verifier::rlimit(40)]
proof fn joining_below_appends(a: Seq<char>, b: Seq<char>)
    requires
        a.len() > 0,
        !is_rooted(b),
        !is_dotted(b),
    ensures
        components(joined(a, b)) == components(a) + components(b),
        spans(joined(a, b)) == spans(a) + shifted(
            spans(b),
            joined(a, b).len() - b.len(),
        ),
{
    let u = if a.last() == '/' {
        a
    } else {
        a.push('/')
    };
    let s = u + b;
    assert(s =~= joined(a, b));
    let m = u.len() - 1;
    assert(s[m] == '/');
    let i = body_start(a);
    assert(s[0] == a[0]);
    if a.len() > 1 {
        assert(s[1] == a[1]);
    }
    assert(is_rooted(s) == is_rooted(a));
    assert(is_dotted(s) == is_dotted(a));
    assert(s.take(m) =~= u.take(m));
    spans_from_split(s, i, m);
    spans_from_shift(u, b, 0);
    if a.last() == '/' {
        spans_from_split(a, i, m);
        assert(spans_from(a, m + 1) =~= Seq::empty());
    } else {
        assert(u.take(m) =~= a);
    }
    assert(spans_from(s, i) =~= spans_from(a, i) + shifted(spans(b), u.len() as int));
    assert(spans(s) =~= spans(a) + shifted(spans(b), u.len() as int));
    spans_are_ordered(a);
    spans_are_ordered(b);
    assert forall|j: int| 0 <= j < spans(s).len() implies components(s)[j] == (components(a)
        + components(b))[j] by {
        if j < spans(a).len() {
            let p = spans(a)[j];
            assert(spans(s)[j] == p);
            assert(s.subrange(p.0, p.1) =~= a.subrange(p.0, p.1));
        } else {
            let p = spans(b)[j - spans(a).len()];
            assert(spans(s)[j] == (p.0 + u.len(), p.1 + u.len()));
            assert(s.subrange(p.0 + u.len(), p.1 + u.len()) =~= b.subrange(p.0, p.1));
        }
    }
    assert(components(s) =~= components(a) + components(b));
}


/// A path that says nothing needless: it is relative, does not start with a dot entry, and ends
/// with a component.
pub open spec fn is_tidy(p: Seq<char>) -> bool {
    &&& p.len() > 0
    &&& !is_rooted(p)
    &&& !is_dotted(p)
    &&& p.last() != '/'
    &&& !(p.last() == '.' && p[p.len() - 2] == '/')
}

/// The last component of a tidy path reaches to its end.
proof fn tidy_path_ends_with_component(p: Seq<char>, i: int)
    requires
        is_tidy(p),
        0 <= i < p.len(),
        i == 0 || p[i - 1] == '/',
    ensures
        spans_from(p, i).len() > 0,
        spans_from(p, i).last().1 == p.len(),
    decreases p.len() - i,
{
    let e = text::index_from(p, '/', i);
    text::index_from_is_first(p, '/', i);
    if e < p.len() {
        tidy_path_ends_with_component(p, e + 1);
        let rest = spans_from(p, e + 1);
        assert((seq![(i, e)] + rest).last() == rest.last());
    } else {
        assert(!is_blank(p, i, e));
        assert(spans_from(p, e + 1) =~= Seq::empty());
        assert(spans_from(p, i) =~= seq![(i, e)]);
    }
}

/// What is left after a path was put below another one and that was taken off again is the path.
pub proof fn stripping_undoes_joining(base: Seq<char>, p: Seq<char>)
    requires
        is_tidy(p),
    ensures
        is_under(joined(base, p), base),
        rest_after(joined(base, p), base) == p,
{
    let s = joined(base, p);
    joining_appends_components(base, p);
    assert((components(base) + components(p)).subrange(0, components(base).len() as int)
        =~= components(base));
    tidy_path_ends_with_component(p, 0);
    spans_are_ordered(p);
    let d = s.len() - p.len();
    let n = spans(base).len() as int;
    if base.len() == 0 {
        assert(s =~= p);
        assert(spans(base) =~= Seq::empty());
    } else {
        joining_below_appends(base, p);
        assert(spans(s)[n] == shifted(spans(p), d)[0]);
        assert(spans(s).last() == shifted(spans(p), d).last());
    }
    assert(rest_after(s, base) =~= p);
}

/// A name is a path of one component: it is not empty, holds no separator and is no dot entry.
pub open spec fn is_single_name(n: Seq<char>) -> bool {
    n.len() > 0 && !n.contains('/') && is_ordinary(n)
}

/// A name put below a path is the last component of what that gives, and the path the parent.
pub proof fn name_below_is_last(base: Seq<char>, n: Seq<char>)
    requires
        is_single_name(n),
    ensures
        is_tidy(n),
        name_of(joined(base, n)) == Some(n),
        components(joined(base, n)) == components(base).push(n),
        parent_of(joined(base, n)) is Some,
        components(parent_of(joined(base, n))->0) == components(base),
{
    assert forall|j: int| 0 <= j < n.len() implies n[j] != '/' by {
        assert(n.contains(n[j]));
    }
    text::index_from_is(n, '/', 0, n.len() as int);
    if n.len() == 1 {
        assert(n =~= seq![n[0]]);
    }
    assert(spans_from(n, n.len() as int + 1) =~= Seq::empty());
    assert(spans(n) =~= seq![(0int, n.len() as int)]);
    assert(n.subrange(0, n.len() as int) =~= n);
    assert(components(n) =~= seq![n]);
    if n.last() == '.' && n.len() > 1 {
        assert(n[n.len() - 2] != '/');
    }
    let s = joined(base, n);
    joining_appends_components(base, n);
    assert(components(base) + seq![n] =~= components(base).push(n));
    assert(components(s).last() == n);
    spans_are_ordered(s);
    if spans(s).len() == 1 && is_rooted(s) {
        assert(components(s)[0] =~= seq!['/']);
        assert(components(s).last() == n);
    }
    parent_drops_last(s);
    assert(components(s).drop_last() =~= components(base));
}

/// All components are names but the root and the two dot entries.
pub proof fn names_are_all_but_root_and_dots(c: Seq<char>)
    ensures
        !is_ordinary(c) <==> {
            ||| c.len() == 1 && (c[0] == '/' || c[0] == '.')
            ||| c.len() == 2 && c[0] == '.' && c[1] == '.'
        },
{
    if c.len() == 1 {
        assert(c =~= seq![c[0]]);
    } else if c.len() == 2 {
        assert(c =~= seq![c[0], c[1]]);
    }
}

/// Every path has a parent but the empty one and the root.
pub proof fn only_roots_have_no_parent(p: Seq<char>)
    ensures
        parent_of(p) is None <==> p.len() == 0 || components(p) == seq![seq!['/']],
{
    spans_are_ordered(p);
    assert(components(p).len() == spans(p).len());
    if spans(p).len() == 1 {
        if is_rooted(p) {
            assert(components(p)[0] =~= seq!['/']);
            assert(components(p) =~= seq![seq!['/']]);
        } else if components(p) == seq![seq!['/']] {
            assert(components(p)[0] == seq!['/']);
            assert(p.subrange(0, spans(p)[0].1)[0] == p[0]);
        }
    } else if spans(p).len() > 1 {
        assert(components(p).len() != seq![seq!['/']].len());
    }
}

/// A separator at the end of a path does not count.
pub proof fn trailing_separator_does_not_count(p: Seq<char>)
    requires
        p.len() > 0,
    ensures
        components(p.push('/')) == components(p),
{
    let none = Seq::<char>::empty();
    if p.last() == '/' {
        let q = p.push('/');
        let m = p.len() as int;
        let i = body_start(p);
        assert(q[0] == p[0]);
        if p.len() > 1 {
            assert(q[1] == p[1]);
        }
        assert(is_rooted(q) == is_rooted(p));
        assert(is_dotted(q) == is_dotted(p));
        assert(q.take(m) =~= p);
        spans_from_split(q, i, m);
        assert(spans_from(q, m + 1) =~= Seq::empty());
        assert(spans_from(q, i) =~= spans_from(p, i));
        assert(spans(q) =~= spans(p));
        spans_are_ordered(p);
        assert forall|j: int| 0 <= j < spans(p).len() implies components(q)[j] == components(
            p,
        )[j] by {
            let at = spans(p)[j];
            assert(q.subrange(at.0, at.1) =~= p.subrange(at.0, at.1));
        }
        assert(components(q) =~= components(p));
    } else {
        joining_appends_components(p, none);
        assert(joined(p, none) =~= p.push('/'));
        assert(components(none) =~= Seq::empty());
        assert(components(p) + components(none) =~= components(p));
    }
}

/// What is put below a path starts with it and ends with what was put there, with a separator in
/// between, unless it starts at the root and stands for itself.
pub proof fn joining_keeps_both_texts(base: Seq<char>, p: Seq<char>)
    ensures
        is_rooted(p) ==> joined(base, p) == p,
        !is_rooted(p) ==> base.is_prefix_of(joined(base, p)) && p == joined(base, p).skip(
            joined(base, p).len() - p.len(),
        ),
        !is_rooted(p) && base.len() > 0 ==> joined(base, p)[joined(base, p).len() - p.len() - 1]
            == '/',
        joined(base, p).len() <= base.len() + 1 + p.len(),
{
    let s = joined(base, p);
    if !is_rooted(p) {
        assert(s.subrange(0, base.len() as int) =~= base);
        assert(s.skip(s.len() - p.len()) =~= p);
    }
}

/// A path comes before all paths below it.
pub proof fn path_comes_before_those_below(base: Seq<char>, p: Seq<char>)
    requires
        is_under(p, base),
        components(p) != components(base),
    ensures
        path_before(base, p),
{
    let (x, y) = (components(base), components(p));
    if x.len() == y.len() {
        assert(y.subrange(0, x.len() as int) =~= y);
    }
    assert forall|i: int| 0 <= i < x.len() implies x[i] == y[i] by {
        assert(y.subrange(0, x.len() as int)[i] == y[i]);
    }
    assert(parts_precede_at(x, y, x.len() as int));
}

/// Of two names in one folder the one whose text comes first comes first.
pub proof fn names_are_ordered_as_texts(base: Seq<char>, a: Seq<char>, b: Seq<char>)
    requires
        is_single_name(a),
        is_single_name(b),
    ensures
        path_before(joined(base, a), joined(base, b)) <==> text::text_before(a, b),
{
    name_below_is_last(base, a);
    name_below_is_last(base, b);
    let n = components(base).len() as int;
    let (x, y) = (components(joined(base, a)), components(joined(base, b)));
    if text::text_before(a, b) {
        assert(parts_precede_at(x, y, n));
    }
    if path_before(joined(base, a), joined(base, b)) {
        let k = choose|k: int| parts_precede_at(x, y, k);
        if k < n {
            text::text_before_is_irreflexive(x[k]);
            assert(x[k] == y[k]);
        }
    }
}

/// A path whose text starts with that of another one up to a separator lies under it.
#[verifier::rlimit(40)]
pub proof fn text_below_is_under(s: Seq<char>, u: Seq<char>)
    requires
        u.len() > 0,
        u.last() == '/',
        u.is_prefix_of(s),
    ensures
        is_under(s, u),
{
    let m = u.len() - 1;
    let i = body_start(u);
    assert forall|j: int| 0 <= j < u.len() implies s[j] == u[j] by {
        assert(s.subrange(0, u.len() as int)[j] == s[j]);
    }
    assert(is_rooted(s) == is_rooted(u));
    assert(is_dotted(s) == is_dotted(u));
    assert(s.take(m) =~= u.take(m));
    spans_from_split(s, i, m);
    spans_from_split(u, i, m);
    assert(spans_from(u, m + 1) =~= Seq::empty());
    spans_are_ordered(u);
    let n = spans(u).len() as int;
    assert forall|j: int| 0 <= j < n implies spans(s)[j] == spans(u)[j] by {
        assert(spans_from(s, i) == spans_from(u, i) + spans_from(s, m + 1));
    }
    assert forall|j: int| 0 <= j < n implies components(s)[j] == components(u)[j] by {
        let p = spans(u)[j];
        assert(spans(s)[j] == p);
        assert(s.subrange(p.0, p.1) =~= u.subrange(p.0, p.1));
    }
    assert(components(s).subrange(0, n) =~= components(u));
}

/// Spans as pairs of numbers.
pub open spec fn as_spans(v: Seq<(usize, usize)>) -> Seq<(int, int)> {
    v.map_values(|p: (usize, usize)| (p.0 as int, p.1 as int))
}

/// Finds where the components of a path lie.
fn find_spans(x: &Vec<char>) -> (r: Vec<(usize, usize)>)
    ensures
        as_spans(r@) == spans(x@),
{
    let mut out: Vec<(usize, usize)> = Vec::new();
    let mut i: usize = 0;
    if x.len() == 0 {
        assert(as_spans(out@) =~= spans(x@));
        return out;
    }
    if x[0] == '/' {
        out.push((0, 1));
        i = 1;
    } else if x[0] == '.' && (x.len() == 1 || x[1] == '/') {
        out.push((0, 1));
        i = if x.len() == 1 {
            1
        } else {
            2
        };
    }
    assert(spans_from(x@, i as int) =~= spans_from(x@, body_start(x@)));
    assert(as_spans(out@) + spans_from(x@, i as int) =~= spans(x@));
    while i < x.len()
        invariant
            i <= x.len(),
            as_spans(out@) + spans_from(x@, i as int) == spans(x@),
        decreases x.len() - i,
    {
        let e = text::find_char(x, '/', i);
        let ghost before = out@;
        if !(e == i || (e == i + 1 && x[i] == '.')) {
            out.push((i, e));
            assert(as_spans(out@) =~= as_spans(before) + seq![(i as int, e as int)]);
        }
        assert(as_spans(out@) + spans_from(x@, e + 1) =~= spans(x@));
        if e == x.len() {
            assert(spans_from(x@, e + 1) =~= Seq::empty());
            assert(spans_from(x@, e as int) =~= Seq::empty());
            i = e;
        } else {
            i = e + 1;
        }
    }
    assert(spans_from(x@, i as int) =~= Seq::empty());
    assert(as_spans(out@) =~= spans(x@));
    out
}

/// The components of a path, as parts of its text.
pub fn parts_of(p: &str) -> (r: Vec<&str>)
    ensures
        text::texts(r@) == components(p@),
{
    let x = text::chars_of(p);
    let at = find_spans(&x);
    let mut out: Vec<&str> = Vec::new();
    let mut k: usize = 0;
    proof {
        spans_are_ordered(p@);
    }
    while k < at.len()
        invariant
            x@ == p@,
            k <= at.len(),
            as_spans(at@) == spans(p@),
            forall|j: int|
                0 <= j < spans(p@).len() ==> 0 <= (#[trigger] spans(p@)[j]).0 < spans(p@)[j].1
                    <= p@.len(),
            text::texts(out@) == components(p@).take(k as int),
        decreases at.len() - k,
    {
        let (a, b) = at[k];
        assert(spans(p@)[k as int] == as_spans(at@)[k as int]);
        let c = p.substring_char(a, b);
        let ghost before = out@;
        out.push(c);
        k += 1;
        assert(components(p@)[k - 1] == c@);
        assert(text::texts(out@) =~= text::texts(before).push(c@));
        assert(components(p@).take(k as int) =~= components(p@).take(k - 1).push(
            components(p@)[k - 1],
        ));
    }
    assert(components(p@).take(k as int) =~= components(p@));
    out
}

/// The path without its last component.
pub fn parent(p: &str) -> (r: Option<&str>)
    ensures
        match r {
            Some(q) => parent_of(p@) == Some(q@),
            None => parent_of(p@) is None,
        },
{
    let x = text::chars_of(p);
    let at = find_spans(&x);
    proof {
        spans_are_ordered(p@);
        assert(at.len() == spans(p@).len());
    }
    if at.len() == 0 || (at.len() == 1 && x[0] == '/') {
        return None;
    }
    if at.len() == 1 {
        let q = p.substring_char(0, 0);
        assert(q@ =~= Seq::empty());
        return Some(q);
    }
    let end = at[at.len() - 2].1;
    assert(spans(p@)[at.len() - 2] == as_spans(at@)[at.len() - 2]);
    let q = p.substring_char(0, end);
    assert(q@ =~= p@.take(end as int));
    Some(q)
}

/// Whether a component is an ordinary name.
pub fn is_name(c: &str) -> (r: bool)
    ensures
        r == is_ordinary(c@),
{
    proof {
        reveal_strlit("/");
        reveal_strlit(".");
        reveal_strlit("..");
        assert("/"@ =~= seq!['/']);
        assert("."@ =~= seq!['.']);
        assert(".."@ =~= seq!['.', '.']);
    }
    !text::same_text(c, "/") && !text::same_text(c, ".") && !text::same_text(c, "..")
}

/// The last component of a path, if it is an ordinary name.
pub fn file_name(p: &str) -> (r: Option<&str>)
    ensures
        match r {
            Some(n) => name_of(p@) == Some(n@),
            None => name_of(p@) is None,
        },
{
    let parts = parts_of(p);
    assert(text::texts(parts@).len() == parts@.len());
    if parts.len() == 0 {
        return None;
    }
    let last = parts[parts.len() - 1];
    assert(components(p@).last() == text::texts(parts@).last());
    if is_name(last) {
        Some(last)
    } else {
        None
    }
}

/// Whether the texts of `a` are the first texts of `b`.
fn is_front(a: &Vec<&str>, b: &Vec<&str>) -> (r: bool)
    ensures
        r == text::texts(a@).is_prefix_of(text::texts(b@)),
{
    let ghost ta = text::texts(a@);
    let ghost tb = text::texts(b@);
    if a.len() > b.len() {
        return false;
    }
    let mut i: usize = 0;
    while i < a.len()
        invariant
            i <= a.len() <= b.len(),
            ta == text::texts(a@),
            tb == text::texts(b@),
            forall|j: int| 0 <= j < i ==> ta[j] == tb[j],
        decreases a.len() - i,
    {
        if !text::same_text(a[i], b[i]) {
            assert(ta[i as int] != tb[i as int]);
            assert(tb.subrange(0, ta.len() as int)[i as int] == tb[i as int]);
            return false;
        }
        assert(ta[i as int] == tb[i as int]);
        i += 1;
    }
    assert(ta =~= tb.subrange(0, ta.len() as int));
    true
}

/// Whether `p` is `base` or lies below it.
pub fn starts_with(p: &str, base: &str) -> (r: bool)
    ensures
        r == is_under(p@, base@),
{
    let a = parts_of(base);
    let b = parts_of(p);
    is_front(&a, &b)
}

/// Whether two paths have the same components.
pub fn same_path(a: &str, b: &str) -> (r: bool)
    ensures
        r == (components(a@) == components(b@)),
{
    let x = parts_of(a);
    let y = parts_of(b);
    let r = x.len() == y.len() && is_front(&x, &y);
    proof {
        assert(text::texts(x@).len() == x.len());
        assert(text::texts(y@).len() == y.len());
        if r {
            assert(text::texts(x@) =~= text::texts(y@));
        } else if components(a@) == components(b@) {
            assert(text::texts(x@).subrange(0, x.len() as int) =~= text::texts(x@));
        }
    }
    r
}

/// What is left of `p` after the components of `base`, if it starts with them.
pub fn strip_prefix<'a>(p: &'a str, base: &str) -> (r: Option<&'a str>)
    ensures
        match r {
            Some(q) => is_under(p@, base@) && q@ == rest_after(p@, base@),
            None => !is_under(p@, base@),
        },
{
    if !starts_with(p, base) {
        return None;
    }
    let x = text::chars_of(p);
    let y = text::chars_of(base);
    let at = find_spans(&x);
    let n = find_spans(&y).len();
    proof {
        spans_are_ordered(p@);
        assert(at.len() == spans(p@).len());
    }
    if n >= at.len() {
        let q = p.substring_char(0, 0);
        assert(q@ =~= Seq::empty());
        return Some(q);
    }
    let a = at[n].0;
    let z = at[at.len() - 1].1;
    assert(spans(p@)[n as int] == as_spans(at@)[n as int]);
    assert(spans(p@).last() == as_spans(at@).last());
    Some(p.substring_char(a, z))
}

/// Puts the path `b` below `a`.
pub fn join(a: &str, b: &str) -> (r: String)
    ensures
        r@ == joined(a@, b@),
{
    let x = text::chars_of(a);
    let y = text::chars_of(b);
    if y.len() > 0 && y[0] == '/' {
        b.to_owned()
    } else if x.len() == 0 || x[x.len() - 1] == '/' {
        text::join_text(a, b)
    } else {
        let mut r = a.to_owned();
        proof {
            reveal_strlit("/");
        }
        r.append("/");
        r.append(b);
        assert("/"@ =~= seq!['/']);
        r
    }
}

/// Whether a path starts at the root.
pub fn is_absolute(p: &str) -> (r: bool)
    ensures
        r == is_rooted(p@),
{
    let x = text::chars_of(p);
    x.len() > 0 && x[0] == '/'
}

/// How components of different kinds are ranked.
pub open spec fn component_rank(c: Seq<char>) -> int {
    if c == seq!['/'] {
        0
    } else if c == seq!['.'] {
        1
    } else if c == seq!['.', '.'] {
        2
    } else {
        3
    }
}

/// The order of components: the root, a dot, two dots, then names by their characters.
pub open spec fn component_before(a: Seq<char>, b: Seq<char>) -> bool {
    ||| component_rank(a) < component_rank(b)
    ||| component_rank(a) == component_rank(b) && text::text_before(a, b)
}

/// `a` and `b` agree on their first `k` components, and there `a` either ends or has the
/// smaller one.
pub open spec fn parts_precede_at(a: Seq<Seq<char>>, b: Seq<Seq<char>>, k: int) -> bool {
    &&& 0 <= k <= a.len()
    &&& k < b.len()
    &&& forall|i: int| 0 <= i < k ==> a[i] == b[i]
    &&& k == a.len() || component_before(a[k], b[k])
}

/// Strict order of paths, component by component.
pub open spec fn path_before(a: Seq<char>, b: Seq<char>) -> bool {
    exists|k: int| parts_precede_at(components(a), components(b), k)
}

/// Of two paths at most one comes before the other, and none before itself.
pub proof fn path_before_is_asymmetric(a: Seq<char>, b: Seq<char>)
    requires
        path_before(a, b),
    ensures
        !path_before(b, a),
        components(a) != components(b),
{
    let x = components(a);
    let y = components(b);
    let k = choose|k: int| parts_precede_at(x, y, k);
    if k < x.len() {
        text::text_before_is_irreflexive(x[k]);
        if text::text_before(x[k], y[k]) {
            text::text_before_is_asymmetric(x[k], y[k]);
        }
    }
    if path_before(b, a) {
        let m = choose|m: int| parts_precede_at(y, x, m);
        if m < k {
            assert(x[m] == y[m]);
            text::text_before_is_irreflexive(x[m]);
        } else if k < m {
            assert(y[k] == x[k]);
        }
    }
}

/// The order of paths is transitive.
pub proof fn path_before_is_transitive(a: Seq<char>, b: Seq<char>, c: Seq<char>)
    requires
        path_before(a, b),
        path_before(b, c),
    ensures
        path_before(a, c),
{
    let x = components(a);
    let y = components(b);
    let z = components(c);
    let k = choose|k: int| parts_precede_at(x, y, k);
    let m = choose|m: int| parts_precede_at(y, z, m);
    let n = if k <= m {
        k
    } else {
        m
    };
    if k == m && k < x.len() {
        if text::text_before(x[k], y[k]) && text::text_before(y[k], z[k]) {
            text::text_before_is_transitive(x[k], y[k], z[k]);
        }
    }
    assert(parts_precede_at(x, z, n));
}

/// The number of leading components on which two lists agree.
fn common_parts(x: &Vec<&str>, y: &Vec<&str>) -> (k: usize)
    ensures
        k <= x.len(),
        k <= y.len(),
        forall|i: int| 0 <= i < k ==> text::texts(x@)[i] == text::texts(y@)[i],
        k < x.len() && k < y.len() ==> text::texts(x@)[k as int] != text::texts(y@)[k as int],
{
    let mut k: usize = 0;
    while k < x.len() && k < y.len() && text::same_text(x[k], y[k])
        invariant
            k <= x.len(),
            k <= y.len(),
            forall|i: int| 0 <= i < k ==> text::texts(x@)[i] == text::texts(y@)[i],
        decreases x.len() - k,
    {
        k += 1;
    }
    k
}

/// The rank of a component's kind.
fn rank_of(c: &str) -> (r: u8)
    ensures
        r == component_rank(c@),
{
    proof {
        reveal_strlit("/");
        reveal_strlit(".");
        reveal_strlit("..");
        assert("/"@ =~= seq!['/']);
        assert("."@ =~= seq!['.']);
        assert(".."@ =~= seq!['.', '.']);
    }
    if text::same_text(c, "/") {
        0
    } else if text::same_text(c, ".") {
        1
    } else if text::same_text(c, "..") {
        2
    } else {
        3
    }
}

/// Whether the path `a` comes before `b`.
pub fn is_path_before(a: &str, b: &str) -> (r: bool)
    ensures
        r == path_before(a@, b@),
{
    let x = parts_of(a);
    let y = parts_of(b);
    let k = common_parts(&x, &y);
    let ghost tx = text::texts(x@);
    let ghost ty = text::texts(y@);
    assert(tx.len() == x.len() && ty.len() == y.len());
    if k == y.len() {
        proof {
            if path_before(a@, b@) {
                let m = choose|m: int| parts_precede_at(tx, ty, m);
                assert(tx[m] == ty[m]);
                text::text_before_is_irreflexive(tx[m]);
            }
        }
        return false;
    }
    if k == x.len() {
        assert(parts_precede_at(tx, ty, k as int));
        return true;
    }
    let p = rank_of(x[k]);
    let q = rank_of(y[k]);
    assert(tx[k as int] == x[k as int]@ && ty[k as int] == y[k as int]@);
    let r = p < q || (p == q && text::is_before(x[k], y[k]));
    proof {
        if r {
            assert(parts_precede_at(tx, ty, k as int));
        } else if path_before(a@, b@) {
            let m = choose|m: int| parts_precede_at(tx, ty, m);
            if m < k {
                assert(tx[m] == ty[m]);
                text::text_before_is_irreflexive(tx[m]);
            }
        }
    }
    r
}

/// Two paths with different components are always ordered one way or the other.
pub proof fn path_before_is_total(a: Seq<char>, b: Seq<char>)
    ensures
        components(a) == components(b) || path_before(a, b) || path_before(b, a),
{
    parts_are_ordered(components(a), components(b), 0);
}

proof fn parts_are_ordered(x: Seq<Seq<char>>, y: Seq<Seq<char>>, k: int)
    requires
        0 <= k <= x.len(),
        k <= y.len(),
        forall|i: int| 0 <= i < k ==> x[i] == y[i],
    ensures
        x == y || (exists|m: int| parts_precede_at(x, y, m)) || (exists|m: int|
            parts_precede_at(y, x, m)),
    decreases x.len() - k,
{
    if k == x.len() {
        if k == y.len() {
            assert(x =~= y);
        } else {
            assert(parts_precede_at(x, y, k));
        }
    } else if k == y.len() {
        assert(parts_precede_at(y, x, k));
    } else if x[k] == y[k] {
        parts_are_ordered(x, y, k + 1);
    } else {
        text::text_before_is_total(x[k], y[k]);
        if component_before(x[k], y[k]) {
            assert(parts_precede_at(x, y, k));
        } else {
            assert(parts_precede_at(y, x, k));
        }
    }
}

} // verus!
