//! Spelling names and strings in SQL.

use vstd::prelude::*;

verus! {

/// `s` with every occurrence of `q` written twice.
pub open spec fn doubled(s: Seq<char>, q: char) -> Seq<char>
    decreases s.len(),
{
    if s.len() == 0 {
        seq![]
    } else if s.last() == q {
        doubled(s.drop_last(), q).push(q).push(q)
    } else {
        doubled(s.drop_last(), q).push(s.last())
    }
}

/// `s` between two `q`, its own `q` doubled.
pub open spec fn quoted(s: Seq<char>, q: char) -> Seq<char> {
    (seq![q] + doubled(s, q)).push(q)
}

/// A double-quoted SQL identifier.
pub open spec fn quoted_ident(name: Seq<char>) -> Seq<char> {
    quoted(name, '"')
}

/// A single-quoted SQL string.
pub open spec fn quoted_string(text: Seq<char>) -> Seq<char> {
    quoted(text, '\'')
}

/// `<schema>.<name>`, each part quoted.
pub open spec fn quoted_pair(schema: Seq<char>, name: Seq<char>) -> Seq<char> {
    quoted_ident(schema) + "."@ + quoted_ident(name)
}

fn quote(s: &str, q: char) -> (r: String)
    ensures
        r@ == quoted(s@, q),
{
    let mut r = String::new();
    r.push(q);
    for c in it: s.chars()
        invariant
            it.seq() == s@,
            r@ == seq![q] + doubled(s@.take(it.index()), q),
    {
        assert(s@.take(it.index() + 1).drop_last() =~= s@.take(it.index()));
        if c == q {
            r.push(q);
        }
        r.push(c);
        assert(r@ =~= seq![q] + doubled(s@.take(it.index() + 1), q));
    }
    assert(s@.take(s@.len() as int) =~= s@);
    r.push(q);
    r
}

/// The identifier `name` as SQL spells it in double quotes.
pub fn quote_ident(name: &str) -> (r: String)
    ensures
        r@ == quoted_ident(name@),
{
    quote(name, '"')
}

/// The string `text` as SQL spells it in single quotes.
pub fn quote_string(text: &str) -> (r: String)
    ensures
        r@ == quoted_string(text@),
{
    quote(text, '\'')
}

/// `<schema>.<name>`, each part quoted.
pub fn quote_pair(schema: &str, name: &str) -> (r: String)
    ensures
        r@ == quoted_pair(schema@, name@),
{
    let mut r = quote_ident(schema);
    r.append(".");
    r.append(quote_ident(name).as_str());
    r
}

/// Reads a doubled text back: of each two adjacent `q` one is left, and a
/// lone `q` ends the reading.
pub open spec fn undoubled(t: Seq<char>, q: char) -> Seq<char>
    decreases t.len(),
{
    if t.len() == 0 {
        seq![]
    } else if t.last() == q {
        if t.len() >= 2 {
            undoubled(t.drop_last().drop_last(), q).push(q)
        } else {
            seq![]
        }
    } else {
        undoubled(t.drop_last(), q).push(t.last())
    }
}

/// Undoing the doubling gives the text back, so two different names never
/// share a quoted spelling.
pub proof fn quoting_loses_nothing(s: Seq<char>, q: char)
    ensures
        undoubled(doubled(s, q), q) == s,
    decreases s.len(),
{
    if s.len() > 0 {
        let inner = doubled(s.drop_last(), q);
        quoting_loses_nothing(s.drop_last(), q);
        if s.last() == q {
            assert(inner.push(q).push(q).drop_last().drop_last() =~= inner);
        } else {
            assert(inner.push(s.last()).drop_last() =~= inner);
        }
        assert(s.drop_last().push(s.last()) =~= s);
    }
}

/// Two names with the same quoted spelling are the same name.
pub proof fn quoted_is_injective(a: Seq<char>, b: Seq<char>, q: char)
    requires
        quoted(a, q) == quoted(b, q),
    ensures
        a == b,
{
    let da = doubled(a, q);
    let db = doubled(b, q);
    assert(quoted(a, q).subrange(1, quoted(a, q).len() - 1) =~= da);
    assert(quoted(b, q).subrange(1, quoted(b, q).len() - 1) =~= db);
    quoting_loses_nothing(a, q);
    quoting_loses_nothing(b, q);
}

} // verus!
