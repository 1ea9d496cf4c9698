//! Sorted lists of names.

use vstd::prelude::*;

use crate::text;
use crate::text::views;

verus! {

/// `a` comes before `b`, from character `i` on, by the codes of their
/// characters.
pub open spec fn precedes_from(a: Seq<char>, b: Seq<char>, i: int) -> bool
    decreases b.len() - i,
{
    if i >= b.len() {
        false
    } else if i >= a.len() {
        true
    } else if a[i] != b[i] {
        a[i] < b[i]
    } else {
        precedes_from(a, b, i + 1)
    }
}

/// `a` comes before `b` in the order of their characters.
pub open spec fn precedes(a: Seq<char>, b: Seq<char>) -> bool {
    precedes_from(a, b, 0)
}

/// Whether `a` comes before `b`.
pub fn is_before(a: &str, b: &str) -> (r: bool)
    ensures
        r == precedes(a@, b@),
{
    let x = text::chars_of(a);
    let y = text::chars_of(b);
    let mut i: usize = 0;
    while i < y.len()
        invariant
            x@ == a@,
            y@ == b@,
            0 <= i <= y@.len(),
            precedes(a@, b@) == precedes_from(a@, b@, i as int),
        decreases y@.len() - i,
    {
        if i >= x.len() {
            return true;
        }
        if x[i] != y[i] {
            return x[i] < y[i];
        }
        i += 1;
    }
    false
}

proof fn irreflexive_from(a: Seq<char>, i: int)
    ensures
        !precedes_from(a, a, i),
    decreases a.len() - i,
{
    if i < a.len() {
        irreflexive_from(a, i + 1);
    }
}

proof fn transitive_from(a: Seq<char>, b: Seq<char>, c: Seq<char>, i: int)
    requires
        0 <= i,
        precedes_from(a, b, i),
        precedes_from(b, c, i),
    ensures
        precedes_from(a, c, i),
    decreases c.len() - i,
{
    if i < a.len() && i < b.len() && i < c.len() && a[i] == b[i] && b[i] == c[i] {
        transitive_from(a, b, c, i + 1);
    }
}

proof fn total_from(a: Seq<char>, b: Seq<char>, i: int)
    requires
        0 <= i <= a.len(),
        i <= b.len(),
        forall|j: int| 0 <= j < i ==> a[j] == b[j],
    ensures
        precedes_from(a, b, i) || precedes_from(b, a, i) || a == b,
    decreases b.len() - i,
{
    if i < a.len() && i < b.len() {
        if a[i] == b[i] {
            total_from(a, b, i + 1);
        }
    } else if i >= a.len() && i >= b.len() {
        assert(a =~= b);
    }
}

/// The order of names is strict and total.
pub proof fn order_is_strict(a: Seq<char>, b: Seq<char>)
    ensures
        !(precedes(a, b) && precedes(b, a)),
        precedes(a, b) || precedes(b, a) || a == b,
        !precedes(a, a),
{
    irreflexive_from(a, 0);
    if precedes(a, b) && precedes(b, a) {
        transitive_from(a, b, a, 0);
    }
    total_from(a, b, 0);
}

/// What comes before what comes before a name comes before it.
pub proof fn order_is_transitive(a: Seq<char>, b: Seq<char>, c: Seq<char>)
    requires
        precedes(a, b),
        precedes(b, c),
    ensures
        precedes(a, c),
{
    transitive_from(a, b, c, 0);
}

/// Each name comes before the next.
pub open spec fn ascending(s: Seq<Seq<char>>) -> bool {
    forall|i: int, j: int| 0 <= i < j < s.len() ==> precedes(#[trigger] s[i], #[trigger] s[j])
}

/// The sorted list `s` with `n` in its place, unless it is there.
pub open spec fn with_name(s: Seq<Seq<char>>, n: Seq<char>) -> Seq<Seq<char>>
    decreases s.len(),
{
    if s.len() == 0 {
        seq![n]
    } else if precedes(n, s[0]) {
        seq![n] + s
    } else if n == s[0] {
        s
    } else {
        seq![s[0]] + with_name(s.skip(1), n)
    }
}

/// The names of a list, sorted, each once.
pub open spec fn sorted_names(names: Seq<Seq<char>>) -> Seq<Seq<char>>
    decreases names.len(),
{
    if names.len() == 0 {
        seq![]
    } else {
        with_name(sorted_names(names.drop_last()), names.last())
    }
}

proof fn with_name_members(s: Seq<Seq<char>>, n: Seq<char>, x: Seq<char>)
    ensures
        with_name(s, n).contains(x) <==> s.contains(x) || x == n,
    decreases s.len(),
{
    let r = with_name(s, n);
    if s.len() == 0 {
        assert(r[0] == n);
    } else if precedes(n, s[0]) {
        assert(r[0] == n);
        if s.contains(x) {
            assert(r[s.index_of(x) + 1] == x);
        }
        if r.contains(x) && x != n {
            assert(s[r.index_of(x) - 1] == x);
        }
    } else if n != s[0] {
        let tail = s.skip(1);
        let rest = with_name(tail, n);
        with_name_members(tail, n, x);
        assert(r[0] == s[0]);
        if s.contains(x) {
            let k = s.index_of(x);
            if k > 0 {
                assert(tail[k - 1] == x);
            }
        }
        if tail.contains(x) {
            assert(s[tail.index_of(x) + 1] == x);
        }
        if rest.contains(x) {
            assert(r[rest.index_of(x) + 1] == x);
        }
        if r.contains(x) {
            let k = r.index_of(x);
            if k > 0 {
                assert(rest[k - 1] == x);
            }
        }
    }
}

proof fn with_name_ascends(s: Seq<Seq<char>>, n: Seq<char>)
    requires
        ascending(s),
    ensures
        ascending(with_name(s, n)),
    decreases s.len(),
{
    let r = with_name(s, n);
    if s.len() > 0 {
        order_is_strict(n, s[0]);
        if precedes(n, s[0]) {
            assert forall|i: int, j: int| 0 <= i < j < r.len() implies precedes(
                #[trigger] r[i],
                #[trigger] r[j],
            ) by {
                assert(r[j] == s[j - 1]);
                if i == 0 {
                    if j > 1 {
                        assert(precedes(s[0], s[j - 1]));
                        order_is_transitive(n, s[0], s[j - 1]);
                    }
                } else {
                    assert(precedes(s[i - 1], s[j - 1]));
                }
            }
        } else if n != s[0] {
            let tail = s.skip(1);
            let rest = with_name(tail, n);
            assert forall|i: int, j: int| 0 <= i < j < tail.len() implies precedes(
                #[trigger] tail[i],
                #[trigger] tail[j],
            ) by {
                assert(precedes(s[i + 1], s[j + 1]));
            }
            with_name_ascends(tail, n);
            assert forall|i: int, j: int| 0 <= i < j < r.len() implies precedes(
                #[trigger] r[i],
                #[trigger] r[j],
            ) by {
                assert(r[j] == rest[j - 1]);
                if i == 0 {
                    with_name_members(tail, n, rest[j - 1]);
                    assert(rest.contains(rest[j - 1]));
                    if rest[j - 1] != n {
                        let k = tail.index_of(rest[j - 1]);
                        assert(precedes(s[0], s[k + 1]));
                    }
                } else {
                    assert(precedes(rest[i - 1], rest[j - 1]));
                }
            }
        }
    }
}

/// Sorting keeps exactly the names of the list, and puts each before the next.
pub proof fn sorted_names_are_sorted(names: Seq<Seq<char>>)
    ensures
        ascending(sorted_names(names)),
        forall|x: Seq<char>| sorted_names(names).contains(x) <==> #[trigger] names.contains(x),
    decreases names.len(),
{
    if names.len() > 0 {
        let rest = names.drop_last();
        sorted_names_are_sorted(rest);
        with_name_ascends(sorted_names(rest), names.last());
        assert forall|x: Seq<char>| sorted_names(names).contains(x) <==> #[trigger] names.contains(
            x,
        ) by {
            with_name_members(sorted_names(rest), names.last(), x);
            assert(sorted_names(rest).contains(x) <==> rest.contains(x));
            if names.contains(x) && x != names.last() {
                assert(rest[names.index_of(x)] == x);
            }
            if rest.contains(x) {
                assert(names[rest.index_of(x)] == x);
            }
            if x == names.last() {
                assert(names[names.len() - 1] == x);
            }
        }
    }
}

proof fn with_name_at(s: Seq<Seq<char>>, n: Seq<char>, k: int)
    requires
        0 <= k <= s.len(),
        forall|j: int| 0 <= j < k ==> precedes(#[trigger] s[j], n),
    ensures
        k == s.len() || precedes(n, s[k]) ==> with_name(s, n) == s.insert(k, n),
        k < s.len() && s[k] == n ==> with_name(s, n) == s,
    decreases s.len(),
{
    if k > 0 {
        let tail = s.skip(1);
        order_is_strict(n, s[0]);
        assert(precedes(s[0], n));
        assert forall|j: int| 0 <= j < k - 1 implies precedes(#[trigger] tail[j], n) by {
            assert(precedes(s[j + 1], n));
        }
        with_name_at(tail, n, k - 1);
        if k < s.len() {
            assert(tail[k - 1] == s[k]);
        }
        assert(seq![s[0]] + tail =~= s);
        assert(seq![s[0]] + tail.insert(k - 1, n) =~= s.insert(k, n));
    } else {
        assert(s.insert(0, n) =~= seq![n] + s);
        order_is_strict(n, n);
    }
}

/// Puts `name` into the sorted list, unless it is there.
pub fn insert_name(list: &mut Vec<String>, name: &str)
    ensures
        views(final(list)@) == with_name(views(old(list)@), name@),
{
    let ghost vs = views(list@);
    let mut k: usize = 0;
    while k < list.len()
        invariant
            list@ == old(list)@,
            vs == views(list@),
            0 <= k <= list@.len(),
            forall|j: int| 0 <= j < k ==> precedes(#[trigger] vs[j], name@),
        decreases list@.len() - k,
    {
        assert(vs[k as int] == list@[k as int]@);
        if !is_before(list[k].as_str(), name) {
            proof {
                with_name_at(vs, name@, k as int);
                order_is_strict(vs[k as int], name@);
            }
            if !text::same(list[k].as_str(), name) {
                list.insert(k, text::owned(name));
                assert(views(list@) =~= vs.insert(k as int, name@));
            }
            return;
        }
        k += 1;
    }
    proof {
        with_name_at(vs, name@, k as int);
    }
    list.push(text::owned(name));
    assert(views(list@) =~= vs.insert(k as int, name@));
}

/// The names of a list, sorted, each once.
pub fn sort_names(names: &Vec<String>) -> (r: Vec<String>)
    ensures
        views(r@) == sorted_names(views(names@)),
{
    let ghost vs = views(names@);
    let mut r: Vec<String> = Vec::new();
    assert(views(r@) =~= seq![]);
    let mut i: usize = 0;
    while i < names.len()
        invariant
            0 <= i <= names@.len(),
            vs == views(names@),
            views(r@) == sorted_names(vs.take(i as int)),
        decreases names@.len() - i,
    {
        insert_name(&mut r, names[i].as_str());
        proof {
            assert(vs.take(i + 1).drop_last() =~= vs.take(i as int));
            assert(vs.take(i + 1).last() == names@[i as int]@);
        }
        i += 1;
    }
    assert(vs.take(i as int) =~= vs);
    r
}

} // verus!
