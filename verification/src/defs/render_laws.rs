//! Spelling an expression in SQL loses nothing of it.

use vstd::prelude::*;

use crate::defs::ast::{ExprView, Operator, RelationshipDefView, ValueTypeView};
use crate::defs::oracle::{
    aggregates_path, column_sql, related_aggregate_sql, renderable, rendered, rendered_all,
    NamingView,
};
use crate::defs::registry::operator_symbol;
use crate::defs::typed_literal::literal_type;
use crate::sql::{doubled, quoted, quoted_ident, quoted_pair, quoted_string};
use crate::text::{ascii_digit, ascii_upper, joined, unicode_lower, upper};

verus! {

// ---------------------------------------------------------------------------
// Texts with a known end
// ---------------------------------------------------------------------------

/// What may follow an expression: nothing, a blank, a comma or a bracket.
spec fn ends(x: Seq<char>) -> bool {
    x.len() == 0 || x[0] == ' ' || x[0] == ')' || x[0] == ','
}

proof fn cancel(a: Seq<char>, x: Seq<char>, y: Seq<char>)
    requires
        a + x == a + y,
    ensures
        x == y,
{
    assert((a + x).skip(a.len() as int) =~= x);
    assert((a + y).skip(a.len() as int) =~= y);
}

proof fn plus_assoc(a: Seq<char>, b: Seq<char>, c: Seq<char>)
    ensures
        (a + b) + c == a + (b + c),
{
    assert((a + b) + c =~= a + (b + c));
}

/// Words without any of some characters, each followed by one of these, are
/// told apart.
proof fn words_end(v: Seq<char>, x: Seq<char>, w: Seq<char>, y: Seq<char>, stops: Set<char>)
    requires
        v + x == w + y,
        forall|i: int| 0 <= i < v.len() ==> !stops.contains(#[trigger] v[i]),
        forall|i: int| 0 <= i < w.len() ==> !stops.contains(#[trigger] w[i]),
        x.len() == 0 || stops.contains(x[0]),
        y.len() == 0 || stops.contains(y[0]),
    ensures
        v == w,
        x == y,
{
    let s = v + x;
    assert(s.len() == v.len() + x.len() && s.len() == w.len() + y.len());
    if v.len() < w.len() {
        assert(s[v.len() as int] == w[v.len() as int]);
        assert(x.len() > 0);
        assert(s[v.len() as int] == x[0]);
    } else if w.len() < v.len() {
        assert((w + y)[w.len() as int] == v[w.len() as int]);
        assert(y.len() > 0);
        assert((w + y)[w.len() as int] == y[0]);
    } else {
        assert(v =~= w) by {
            assert forall|i: int| 0 <= i < v.len() implies v[i] == w[i] by {
                assert((v + x)[i] == v[i]);
                assert((w + y)[i] == w[i]);
            }
        }
        cancel(v, x, y);
    }
}

proof fn doubled_from_the_front(s: Seq<char>, q: char)
    requires
        s.len() > 0,
    ensures
        doubled(s, q) == (if s[0] == q {
            seq![q, q]
        } else {
            seq![s[0]]
        }) + doubled(s.skip(1), q),
    decreases s.len(),
{
    let head = if s[0] == q {
        seq![q, q]
    } else {
        seq![s[0]]
    };
    if s.len() == 1 {
        assert(s.drop_last() =~= seq![]);
        assert(s.skip(1) =~= seq![]);
        assert(doubled(s, q) =~= head + doubled(s.skip(1), q));
    } else {
        let less = s.drop_last();
        doubled_from_the_front(less, q);
        assert(less.skip(1) =~= s.skip(1).drop_last());
        assert(s.skip(1).last() == s.last());
        assert(doubled(s, q) =~= head + doubled(s.skip(1), q));
    }
}

proof fn quotes_end_inside(s: Seq<char>, x: Seq<char>, t: Seq<char>, y: Seq<char>, q: char)
    requires
        doubled(s, q) + (seq![q] + x) == doubled(t, q) + (seq![q] + y),
        x.len() == 0 || x[0] != q,
        y.len() == 0 || y[0] != q,
    ensures
        s == t,
        x == y,
    decreases s.len(),
{
    let a = doubled(s, q) + (seq![q] + x);
    let b = doubled(t, q) + (seq![q] + y);
    if s.len() > 0 {
        doubled_from_the_front(s, q);
    }
    if t.len() > 0 {
        doubled_from_the_front(t, q);
    }
    if s.len() == 0 && t.len() == 0 {
        assert(a =~= seq![q] + x);
        assert(b =~= seq![q] + y);
        cancel(seq![q], x, y);
        assert(s =~= t);
    } else if s.len() == 0 {
        assert(a =~= seq![q] + x);
        assert(b[0] == t[0]);
        assert(a[0] == q);
        assert(b[1] == q);
        assert(a[1] == x[0]);
    } else if t.len() == 0 {
        assert(b =~= seq![q] + y);
        assert(a[0] == s[0]);
        assert(b[0] == q);
        assert(a[1] == q);
        assert(b[1] == y[0]);
    } else {
        assert(a[0] == s[0] && b[0] == t[0]);
        let head = if s[0] == q {
            seq![q, q]
        } else {
            seq![s[0]]
        };
        plus_assoc(head, doubled(s.skip(1), q), seq![q] + x);
        plus_assoc(head, doubled(t.skip(1), q), seq![q] + y);
        cancel(
            head,
            doubled(s.skip(1), q) + (seq![q] + x),
            doubled(t.skip(1), q) + (seq![q] + y),
        );
        quotes_end_inside(s.skip(1), x, t.skip(1), y, q);
        assert(s =~= seq![s[0]] + s.skip(1));
        assert(t =~= seq![t[0]] + t.skip(1));
    }
}

/// A quoted text ends where its quote is not doubled.
proof fn quotes_end(s: Seq<char>, x: Seq<char>, t: Seq<char>, y: Seq<char>, q: char)
    requires
        quoted(s, q) + x == quoted(t, q) + y,
        x.len() == 0 || x[0] != q,
        y.len() == 0 || y[0] != q,
    ensures
        s == t,
        x == y,
{
    assert(quoted(s, q) + x =~= seq![q] + (doubled(s, q) + (seq![q] + x)));
    assert(quoted(t, q) + y =~= seq![q] + (doubled(t, q) + (seq![q] + y)));
    cancel(
        seq![q],
        doubled(s, q) + (seq![q] + x),
        doubled(t, q) + (seq![q] + y),
    );
    quotes_end_inside(s, x, t, y, q);
}

// ---------------------------------------------------------------------------
// Expressions that can be told apart
// ---------------------------------------------------------------------------

/// A name as calls have it: a letter, then letters, digits and underscores.
pub open spec fn is_word(s: Seq<char>) -> bool {
    &&& s.len() > 0
    &&& 'a' <= s[0] <= 'z'
    &&& forall|i: int|
        0 <= i < s.len() ==> 'a' <= #[trigger] s[i] <= 'z' || ascii_digit(s[i]) || s[i] == '_'
}

/// Columns are told apart from paths: the source has a name that no
/// relationship of the expression has.
pub open spec fn apart_from_source(naming: NamingView, rel: Seq<char>) -> bool {
    match naming {
        NamingView::Plain => false,
        NamingView::Joined { source_sql } => source_sql != quoted_ident(rel),
        NamingView::Related { source, relationships } => source != rel,
    }
}

/// The source is spelled as a table is.
pub open spec fn names_a_table(naming: NamingView) -> bool {
    naming matches NamingView::Joined { source_sql } ==> exists|t: Seq<char>|
        source_sql == #[trigger] quoted_ident(t) || exists|s: Seq<char>| source_sql
            == #[trigger] quoted_pair(s, t)
}

/// The expression is as the language has it: its numbers are digits and dots,
/// its literals of types that have a keyword, the names of its calls words,
/// and no relationship has the name of the source.
pub open spec fn plainly_written(naming: NamingView, e: ExprView) -> bool
    decreases e,
{
    match e {
        ExprView::Column(_) => true,
        ExprView::NumberLiteral(n) => n.len() > 0 && forall|i: int|
            0 <= i < n.len() ==> ascii_digit(#[trigger] n[i]) || n[i] == '.',
        ExprView::StringLiteral(_) => true,
        ExprView::TypedLiteral { value_type, text } => literal_type(
            upper(value_type.sql_name()),
        ) == Some(value_type),
        ExprView::RelationshipPath { rel, column } => apart_from_source(naming, rel),
        ExprView::BinaryOp { op, lhs, rhs } => plainly_written(naming, *lhs) && plainly_written(
            naming,
            *rhs,
        ),
        ExprView::FunctionCall { name, args } => is_word(unicode_lower(name)) && forall|i: int|
            0 <= i < args.len() ==> plainly_written(naming, #[trigger] args[i]),
    }
}

/// The same expression, but for the case of the names of calls.
pub open spec fn same_expression(a: ExprView, b: ExprView) -> bool
    decreases a,
{
    match (a, b) {
        (
            ExprView::BinaryOp { op, lhs, rhs },
            ExprView::BinaryOp { op: p, lhs: l, rhs: r },
        ) => op == p && same_expression(*lhs, *l) && same_expression(*rhs, *r),
        (
            ExprView::FunctionCall { name, args },
            ExprView::FunctionCall { name: n, args: xs },
        ) => {
            &&& unicode_lower(name) == unicode_lower(n)
            &&& args.len() == xs.len()
            &&& forall|i: int| 0 <= i < args.len() ==> same_expression(#[trigger] args[i], xs[i])
        },
        _ => a == b,
    }
}

// ---------------------------------------------------------------------------
// Literals
// ---------------------------------------------------------------------------

spec fn no_stop(s: Seq<char>) -> bool {
    forall|i: int| 0 <= i < s.len() ==> s[i] != ' ' && s[i] != ')' && #[trigger] s[i] != ','
}

proof fn keywords_have_no_stop(k: Seq<char>)
    requires
        literal_type(k) is Some,
        k != "DOUBLE PRECISION"@,
    ensures
        no_stop(k),
        k != seq!['T', 'E', 'X', 'T'],
        k.len() > 0,
        k != seq!['D', 'O', 'U', 'B', 'L', 'E'],
{
    reveal_strlit("DATE");
    reveal_strlit("TIMESTAMP");
    reveal_strlit("BYTEA");
    reveal_strlit("TIME");
    reveal_strlit("TIMETZ");
    reveal_strlit("OID");
    reveal_strlit("REAL");
    reveal_strlit("INET");
    reveal_strlit("CIDR");
    reveal_strlit("MACADDR");
    reveal_strlit("MACADDR8");
    reveal_strlit("VARBIT");
    reveal_strlit("JSONB");
    assert forall|i: int| 0 <= i < k.len() implies k[i] != ' ' && k[i] != ')' && #[trigger] k[i]
        != ',' by {
        assert(k.len() <= 9);
        assert(i == 0 || i == 1 || i == 2 || i == 3 || i == 4 || i == 5 || i == 6 || i == 7 || i
            == 8);
    }
    let t = seq!['T', 'E', 'X', 'T'];
    let d = seq!['D', 'O', 'U', 'B', 'L', 'E'];
    assert(t.len() == 4 && t[0] == 'T' && t[1] == 'E');
    assert(d.len() == 6 && d[0] == 'D');
    assert(k.len() == 4 ==> k[1] != 'E' || k[0] != 'T');
    assert(k.len() == 6 ==> k[0] != 'D');
}

/// The name of a literal's type stops at a blank, a comma or a bracket, or is
/// `double precision`; it is not `text` and not `double`.
proof fn type_names_stop(t: ValueTypeView)
    requires
        literal_type(upper(t.sql_name())) == Some(t),
    ensures
        no_stop(t.sql_name()) || upper(t.sql_name()) == "DOUBLE PRECISION"@,
        upper(t.sql_name()) != seq!['T', 'E', 'X', 'T'],
        t.sql_name().len() > 0,
        no_stop(t.sql_name()) ==> upper(t.sql_name()) != seq!['D', 'O', 'U', 'B', 'L', 'E'],
{
    let n = t.sql_name();
    let k = upper(n);
    reveal_strlit("DOUBLE PRECISION");
    assert("DOUBLE PRECISION"@.len() == 16);
    if k != "DOUBLE PRECISION"@ {
        keywords_have_no_stop(k);
        assert forall|i: int| 0 <= i < n.len() implies n[i] != ' ' && n[i] != ')' && #[trigger] n[i]
            != ',' by {
            assert(k[i] == ascii_upper(n[i]));
        }
    } else {
        assert(k.len() == 16);
        assert(seq!['T', 'E', 'X', 'T'].len() == 4);
        assert(seq!['D', 'O', 'U', 'B', 'L', 'E'].len() == 6);
    }
}

spec fn stops() -> Set<char> {
    set![' ', ')', ',']
}

proof fn names_end(a: ValueTypeView, x: Seq<char>, b: ValueTypeView, y: Seq<char>)
    requires
        literal_type(upper(a.sql_name())) == Some(a),
        literal_type(upper(b.sql_name())) == Some(b),
        a.sql_name() + x == b.sql_name() + y,
        ends(x),
        ends(y),
    ensures
        a == b,
        x == y,
{
    let (m, n) = (a.sql_name(), b.sql_name());
    type_names_stop(a);
    type_names_stop(b);
    if no_stop(m) && no_stop(n) {
        words_end(m, x, n, y, stops());
    } else if !no_stop(m) && !no_stop(n) {
        assert(m.len() == 16 && n.len() == 16) by {
            reveal_strlit("DOUBLE PRECISION");
            assert(upper(m).len() == m.len() && upper(n).len() == n.len());
        }
        assert(m =~= n) by {
            assert forall|i: int| 0 <= i < m.len() implies m[i] == n[i] by {
                assert((m + x)[i] == m[i] && (n + y)[i] == n[i]);
            }
        }
        cancel(m, x, y);
    } else if no_stop(m) {
        long_name_is_not_short(m, x, n, y);
    } else {
        long_name_is_not_short(n, y, m, x);
    }
}

proof fn long_name_is_not_short(m: Seq<char>, x: Seq<char>, n: Seq<char>, y: Seq<char>)
    requires
        no_stop(m),
        upper(n) == "DOUBLE PRECISION"@,
        ends(x),
        upper(m) != seq!['D', 'O', 'U', 'B', 'L', 'E'],
    ensures
        m + x != n + y,
{
    if m + x == n + y {
        reveal_strlit("DOUBLE PRECISION");
        assert(upper(n).len() == n.len());
        let s = m + x;
        assert forall|i: int| 0 <= i < 16 implies ascii_upper(#[trigger] s[i]) == upper(n)[i] by {
            assert((n + y)[i] == n[i]);
        }
        assert(ascii_upper(s[6]) == ' ');
        assert(s[6] == ' ');
        if m.len() > 6 {
            assert(s[6] == m[6]);
        } else if m.len() < 6 {
            assert(s[m.len() as int] == x[0]);
            assert(ascii_upper(s[m.len() as int]) == upper(n)[m.len() as int]);
            let j = m.len() as int;
            assert(j == 0 || j == 1 || j == 2 || j == 3 || j == 4 || j == 5);
        } else {
            assert(upper(m) =~= seq!['D', 'O', 'U', 'B', 'L', 'E']) by {
                assert forall|i: int| 0 <= i < 6 implies upper(m)[i] == seq![
                    'D',
                    'O',
                    'U',
                    'B',
                    'L',
                    'E',
                ][i] by {
                    assert(s[i] == m[i]);
                    assert(ascii_upper(s[i]) == upper(n)[i]);
                    assert(i == 0 || i == 1 || i == 2 || i == 3 || i == 4 || i == 5);
                }
            }
        }
    }
}

// ---------------------------------------------------------------------------
// The first character of a spelling
// ---------------------------------------------------------------------------

spec fn is_number_char(c: char) -> bool {
    ascii_digit(c) || c == '.'
}

spec fn prefix(naming: NamingView) -> Seq<char> {
    match naming {
        NamingView::Plain => seq![],
        NamingView::Joined { source_sql } => source_sql + "."@,
        NamingView::Related { source, relationships } => quoted_ident(source) + "."@,
    }
}

proof fn columns_have_the_prefix(naming: NamingView, n: Seq<char>)
    ensures
        column_sql(naming, n) == prefix(naming) + quoted_ident(n),
{
    assert(column_sql(naming, n) =~= prefix(naming) + quoted_ident(n));
}

proof fn quoted_starts(s: Seq<char>, q: char)
    ensures
        quoted(s, q).len() >= 2,
        quoted(s, q)[0] == q,
{
}

/// What an expression's spelling starts with.
proof fn first_character(naming: NamingView, e: ExprView)
    requires
        plainly_written(naming, e),
        names_a_table(naming),
        renderable(naming, e),
    ensures
        rendered(naming, e).len() > 0,
        ({
            let c = rendered(naming, e)[0];
            match e {
                ExprView::Column(_) | ExprView::RelationshipPath { .. } => c == '"',
                ExprView::NumberLiteral(_) => is_number_char(c),
                ExprView::StringLiteral(_) | ExprView::TypedLiteral { .. } => c == '\'',
                ExprView::BinaryOp { .. } => c == '(',
                ExprView::FunctionCall { name, args } => if naming is Related && aggregates_path(
                    name,
                    args,
                ) {
                    c == '('
                } else {
                    'a' <= c <= 'z'
                },
            }
        }),
{
    reveal_strlit("(");
    reveal_strlit("(select ");
    reveal_strlit("count(*)");
    match e {
        ExprView::Column(n) => {
            columns_have_the_prefix(naming, n);
            quoted_starts(n, '"');
            if let NamingView::Joined { source_sql } = naming {
                table_starts(naming, source_sql);
            }
            if let NamingView::Related { source, relationships } = naming {
                quoted_starts(source, '"');
            }
            if naming is Plain {
                assert(seq![] + quoted_ident(n) =~= quoted_ident(n));
            }
        },
        ExprView::RelationshipPath { rel, column } => {
            quoted_starts(rel, '"');
        },
        ExprView::NumberLiteral(n) => {
            assert(is_number_char(n[0]));
        },
        ExprView::StringLiteral(s) => {
            quoted_starts(s, '\'');
        },
        ExprView::TypedLiteral { value_type, text } => {
            quoted_starts(text, '\'');
        },
        _ => {},
    }
}

proof fn table_starts(naming: NamingView, source_sql: Seq<char>)
    requires
        names_a_table(naming),
        naming == (NamingView::Joined { source_sql }),
    ensures
        source_sql.len() > 0,
        source_sql[0] == '"',
{
    let t = choose|t: Seq<char>|
        source_sql == #[trigger] quoted_ident(t) || exists|s: Seq<char>| source_sql
            == #[trigger] quoted_pair(s, t);
    if source_sql == quoted_ident(t) {
        quoted_starts(t, '"');
    } else {
        let s = choose|s: Seq<char>| source_sql == #[trigger] quoted_pair(s, t);
        quoted_starts(s, '"');
    }
}

// ---------------------------------------------------------------------------
// Columns and paths
// ---------------------------------------------------------------------------

proof fn columns_end(naming: NamingView, m: Seq<char>, x: Seq<char>, n: Seq<char>, y: Seq<char>)
    requires
        column_sql(naming, m) + x == column_sql(naming, n) + y,
        ends(x),
        ends(y),
    ensures
        m == n,
        x == y,
{
    columns_have_the_prefix(naming, m);
    columns_have_the_prefix(naming, n);
    plus_assoc(prefix(naming), quoted_ident(m), x);
    plus_assoc(prefix(naming), quoted_ident(n), y);
    cancel(prefix(naming), quoted_ident(m) + x, quoted_ident(n) + y);
    quotes_end(m, x, n, y, '"');
}

proof fn pairs_end(
    a: Seq<char>,
    b: Seq<char>,
    x: Seq<char>,
    c: Seq<char>,
    d: Seq<char>,
    y: Seq<char>,
)
    requires
        quoted_pair(a, b) + x == quoted_pair(c, d) + y,
        x.len() == 0 || x[0] != '"',
        y.len() == 0 || y[0] != '"',
    ensures
        a == c,
        b == d,
        x == y,
{
    reveal_strlit(".");
    let u = "."@ + (quoted_ident(b) + x);
    let v = "."@ + (quoted_ident(d) + y);
    assert(quoted_pair(a, b) + x =~= quoted_ident(a) + u);
    assert(quoted_pair(c, d) + y =~= quoted_ident(c) + v);
    assert(u[0] == '.' && v[0] == '.');
    quotes_end(a, u, c, v, '"');
    cancel("."@, quoted_ident(b) + x, quoted_ident(d) + y);
    quotes_end(b, x, d, y, '"');
}

proof fn columns_are_no_paths(
    naming: NamingView,
    n: Seq<char>,
    x: Seq<char>,
    rel: Seq<char>,
    column: Seq<char>,
    y: Seq<char>,
)
    requires
        names_a_table(naming),
        apart_from_source(naming, rel),
        ends(x),
        ends(y),
    ensures
        column_sql(naming, n) + x != quoted_pair(rel, column) + y,
{
    if column_sql(naming, n) + x == quoted_pair(rel, column) + y {
        reveal_strlit(".");
        match naming {
            NamingView::Plain => {},
            NamingView::Related { source, relationships } => {
                pairs_end(source, n, x, rel, column, y);
            },
            NamingView::Joined { source_sql } => {
                let t = choose|t: Seq<char>|
                    source_sql == #[trigger] quoted_ident(t) || exists|s: Seq<char>| source_sql
                        == #[trigger] quoted_pair(s, t);
                if source_sql == quoted_ident(t) {
                    assert(column_sql(naming, n) == quoted_pair(t, n));
                    pairs_end(t, n, x, rel, column, y);
                } else {
                    let s = choose|s: Seq<char>| source_sql == #[trigger] quoted_pair(s, t);
                    let rest = "."@ + (quoted_ident(n) + x);
                    assert(column_sql(naming, n) + x =~= quoted_pair(s, t) + rest);
                    assert(rest[0] == '.');
                    pairs_end(s, t, rest, rel, column, y);
                }
            },
        }
    }
}

// ---------------------------------------------------------------------------
// Lists
// ---------------------------------------------------------------------------

proof fn joined_from_the_front(parts: Seq<Seq<char>>, sep: Seq<char>)
    requires
        parts.len() > 1,
    ensures
        joined(parts, sep) == parts[0] + (sep + joined(parts.skip(1), sep)),
    decreases parts.len(),
{
    let less = parts.drop_last();
    let tail = parts.skip(1);
    assert(tail.last() == parts.last());
    if parts.len() == 2 {
        assert(less.len() == 1 && less[0] == parts[0]);
        assert(tail.len() == 1 && tail[0] == parts[1]);
        assert(joined(less, sep) == parts[0]);
        assert(joined(tail, sep) == parts[1]);
        assert(joined(parts, sep) =~= parts[0] + (sep + joined(tail, sep)));
    } else {
        joined_from_the_front(less, sep);
        assert(less.skip(1) =~= tail.drop_last());
        assert(less[0] == parts[0]);
        assert(joined(parts, sep) =~= parts[0] + (sep + joined(tail, sep)));
    }
}

proof fn each_is_rendered(naming: NamingView, es: Seq<ExprView>)
    ensures
        rendered_all(naming, es).len() == es.len(),
        forall|i: int|
            0 <= i < es.len() ==> #[trigger] rendered_all(naming, es)[i] == rendered(naming, es[i]),
    decreases es.len(),
{
    if es.len() > 0 {
        each_is_rendered(naming, es.drop_last());
    }
}

proof fn rest_is_rendered(naming: NamingView, es: Seq<ExprView>)
    requires
        es.len() > 0,
    ensures
        rendered_all(naming, es).skip(1) == rendered_all(naming, es.skip(1)),
{
    each_is_rendered(naming, es);
    each_is_rendered(naming, es.skip(1));
    assert(rendered_all(naming, es).skip(1) =~= rendered_all(naming, es.skip(1)));
}

/// A list of expressions up to its bracket.
spec fn list_sql(naming: NamingView, es: Seq<ExprView>) -> Seq<char> {
    joined(rendered_all(naming, es), ", "@) + ")"@
}

/// What follows the first expression of a list.
spec fn after_first(naming: NamingView, es: Seq<ExprView>) -> Seq<char> {
    if es.len() == 1 {
        ")"@
    } else {
        ", "@ + list_sql(naming, es.skip(1))
    }
}

proof fn lists_start(naming: NamingView, es: Seq<ExprView>)
    requires
        es.len() > 0,
    ensures
        list_sql(naming, es) == rendered(naming, es[0]) + after_first(naming, es),
{
    let parts = rendered_all(naming, es);
    each_is_rendered(naming, es);
    rest_is_rendered(naming, es);
    assert(parts[0] == rendered(naming, es[0]));
    if es.len() > 1 {
        joined_from_the_front(parts, ", "@);
        assert(list_sql(naming, es) =~= rendered(naming, es[0]) + after_first(naming, es));
    }
}

// ---------------------------------------------------------------------------
// Whole expressions
// ---------------------------------------------------------------------------

spec fn good(naming: NamingView, e: ExprView) -> bool {
    plainly_written(naming, e) && renderable(naming, e)
}

proof fn literals_end(naming: NamingView, a: ExprView, x: Seq<char>, b: ExprView, y: Seq<char>)
    requires
        a is StringLiteral || a is TypedLiteral,
        b is StringLiteral || b is TypedLiteral,
        good(naming, a),
        good(naming, b),
        rendered(naming, a) + x == rendered(naming, b) + y,
        ends(x),
        ends(y),
    ensures
        a == b,
        x == y,
{
    reveal_strlit("::text");
    reveal_strlit("::");
    reveal_strlit("text");
    let (s, u) = match a {
        ExprView::StringLiteral(s) => (s, "::text"@ + x),
        ExprView::TypedLiteral { value_type, text } => (text, ("::"@ + value_type.sql_name()) + x),
        _ => (seq![], seq![]),
    };
    let (t, v) = match b {
        ExprView::StringLiteral(s) => (s, "::text"@ + y),
        ExprView::TypedLiteral { value_type, text } => (text, ("::"@ + value_type.sql_name()) + y),
        _ => (seq![], seq![]),
    };
    assert(rendered(naming, a) + x =~= quoted_string(s) + u);
    assert(rendered(naming, b) + y =~= quoted_string(t) + v);
    assert(u[0] == ':' && v[0] == ':');
    quotes_end(s, u, t, v, '\'');
    assert("::text"@ =~= "::"@ + "text"@);
    match (a, b) {
        (ExprView::StringLiteral(_), ExprView::StringLiteral(_)) => {
            cancel("::text"@, x, y);
        },
        (
            ExprView::TypedLiteral { value_type: p, .. },
            ExprView::TypedLiteral { value_type: q, .. },
        ) => {
            plus_assoc("::"@, p.sql_name(), x);
            plus_assoc("::"@, q.sql_name(), y);
            cancel("::"@, p.sql_name() + x, q.sql_name() + y);
            names_end(p, x, q, y);
        },
        (ExprView::StringLiteral(_), ExprView::TypedLiteral { value_type: q, .. }) => {
            plus_assoc("::"@, "text"@, x);
            plus_assoc("::"@, q.sql_name(), y);
            cancel("::"@, "text"@ + x, q.sql_name() + y);
            text_is_no_literal(q, x, y);
        },
        (ExprView::TypedLiteral { value_type: p, .. }, ExprView::StringLiteral(_)) => {
            plus_assoc("::"@, "text"@, y);
            plus_assoc("::"@, p.sql_name(), x);
            cancel("::"@, p.sql_name() + x, "text"@ + y);
            text_is_no_literal(p, y, x);
        },
        _ => {},
    }
}

proof fn text_is_no_literal(t: ValueTypeView, x: Seq<char>, y: Seq<char>)
    requires
        literal_type(upper(t.sql_name())) == Some(t),
        ends(x),
        ends(y),
    ensures
        "text"@ + x != t.sql_name() + y,
{
    if "text"@ + x == t.sql_name() + y {
        reveal_strlit("text");
        type_names_stop(t);
        let n = t.sql_name();
        assert forall|i: int| 0 <= i < "text"@.len() implies !stops().contains(#[trigger] "text"@[i]) by {
            assert(i == 0 || i == 1 || i == 2 || i == 3);
        }
        if no_stop(n) {
            words_end("text"@, x, n, y, stops());
            assert(upper(n) =~= seq!['T', 'E', 'X', 'T']);
        } else {
            reveal_strlit("DOUBLE PRECISION");
            assert(upper(n).len() == n.len());
            assert(upper(n)[0] == ascii_upper(n[0]));
            assert(("text"@ + x)[0] == 't');
            assert((n + y)[0] == n[0]);
        }
    }
}

proof fn symbols_end(op: Operator, x: Seq<char>, p: Operator, y: Seq<char>)
    requires
        operator_symbol(op) + x == operator_symbol(p) + y,
    ensures
        op == p,
        x == y,
{
    reveal_strlit("+");
    reveal_strlit(">");
    assert((operator_symbol(op) + x)[0] == operator_symbol(op)[0]);
    assert((operator_symbol(p) + y)[0] == operator_symbol(p)[0]);
    cancel(operator_symbol(op), x, y);
}

proof fn numbers_end(m: Seq<char>, x: Seq<char>, n: Seq<char>, y: Seq<char>)
    requires
        (m + "::numeric"@) + x == (n + "::numeric"@) + y,
        forall|i: int| 0 <= i < m.len() ==> ascii_digit(#[trigger] m[i]) || m[i] == '.',
        forall|i: int| 0 <= i < n.len() ==> ascii_digit(#[trigger] n[i]) || n[i] == '.',
    ensures
        m == n,
        x == y,
{
    reveal_strlit("::numeric");
    plus_assoc(m, "::numeric"@, x);
    plus_assoc(n, "::numeric"@, y);
    words_end(m, "::numeric"@ + x, n, "::numeric"@ + y, set![':']);
    cancel("::numeric"@, x, y);
}

/// The call, from its bracket on.
spec fn call_tail(naming: NamingView, name: Seq<char>, args: Seq<ExprView>) -> Seq<char> {
    if name == "COUNT"@ && args.len() == 0 {
        "*)"@
    } else {
        list_sql(naming, args)
    }
}

spec fn call_head(name: Seq<char>, args: Seq<ExprView>) -> Seq<char> {
    if name == "COUNT"@ && args.len() == 0 {
        "count"@
    } else {
        unicode_lower(name)
    }
}

proof fn calls_come_apart(naming: NamingView, name: Seq<char>, args: Seq<ExprView>, x: Seq<char>)
    requires
        !(naming is Related && aggregates_path(name, args)),
    ensures
        rendered(naming, ExprView::FunctionCall { name, args }) + x == call_head(name, args) + ("("@
            + (call_tail(naming, name, args) + x)),
{
    reveal_strlit("count(*)");
    reveal_strlit("count");
    reveal_strlit("(");
    reveal_strlit("*)");
    let e = ExprView::FunctionCall { name, args };
    assert(e->args == args);
    assert("count(*)"@ =~= "count"@ + ("("@ + "*)"@));
    assert(rendered(naming, e) + x =~= call_head(name, args) + ("("@ + (call_tail(
        naming,
        name,
        args,
    ) + x)));
}

/// The query, from the end of its aggregate's argument on.
spec fn query_tail(
    rel: Seq<char>,
    source: Seq<char>,
    r: RelationshipDefView,
    x: Seq<char>,
) -> Seq<char> {
    ") from "@ + (quoted_ident(r.to_table) + (" as "@ + (quoted_ident(rel) + (" where "@ + (
    quoted_pair(rel, r.to_col) + (" = "@ + (quoted_pair(source, r.from_col) + (")"@ + x))))))))
}

proof fn query_tails_end(
    rel: Seq<char>,
    source: Seq<char>,
    r: RelationshipDefView,
    x: Seq<char>,
    y: Seq<char>,
)
    requires
        query_tail(rel, source, r, x) == query_tail(rel, source, r, y),
    ensures
        x == y,
{
    let (i, j) = (quoted_ident(r.to_table), quoted_ident(rel));
    let (k, m) = (quoted_pair(rel, r.to_col), quoted_pair(source, r.from_col));
    let (x1, y1) = (")"@ + x, ")"@ + y);
    let (x2, y2) = (m + x1, m + y1);
    let (x3, y3) = (" = "@ + x2, " = "@ + y2);
    let (x4, y4) = (k + x3, k + y3);
    let (x5, y5) = (" where "@ + x4, " where "@ + y4);
    let (x6, y6) = (j + x5, j + y5);
    let (x7, y7) = (" as "@ + x6, " as "@ + y6);
    let (x8, y8) = (i + x7, i + y7);
    cancel(") from "@, x8, y8);
    cancel(i, x7, y7);
    cancel(" as "@, x6, y6);
    cancel(j, x5, y5);
    cancel(" where "@, x4, y4);
    cancel(k, x3, y3);
    cancel(" = "@, x2, y2);
    cancel(m, x1, y1);
    cancel(")"@, x, y);
}

proof fn queries_come_apart(
    name: Seq<char>,
    rel: Seq<char>,
    column: Seq<char>,
    source: Seq<char>,
    r: RelationshipDefView,
    x: Seq<char>,
)
    ensures
        related_aggregate_sql(name, rel, column, source, r) + x == "(select "@ + (unicode_lower(
            name,
        ) + ("("@ + (quoted_pair(rel, column) + query_tail(rel, source, r, x)))),
{
    let (i, j) = (quoted_ident(r.to_table), quoted_ident(rel));
    let (k, m) = (quoted_pair(rel, r.to_col), quoted_pair(source, r.from_col));
    let p1 = "(select "@ + unicode_lower(name);
    let p2 = p1 + "("@;
    let p3 = p2 + quoted_pair(rel, column);
    let p4 = p3 + ") from "@;
    let p5 = p4 + i;
    let p6 = p5 + " as "@;
    let p7 = p6 + j;
    let p8 = p7 + " where "@;
    let p9 = p8 + k;
    let p10 = p9 + " = "@;
    let p11 = p10 + m;
    let x1 = ")"@ + x;
    let x2 = m + x1;
    let x3 = " = "@ + x2;
    let x4 = k + x3;
    let x5 = " where "@ + x4;
    let x6 = j + x5;
    let x7 = " as "@ + x6;
    let x8 = i + x7;
    let x9 = ") from "@ + x8;
    let x10 = quoted_pair(rel, column) + x9;
    plus_assoc(p11, ")"@, x);
    plus_assoc(p10, m, x1);
    plus_assoc(p9, " = "@, x2);
    plus_assoc(p8, k, x3);
    plus_assoc(p7, " where "@, x4);
    plus_assoc(p6, j, x5);
    plus_assoc(p5, " as "@, x6);
    plus_assoc(p4, i, x7);
    plus_assoc(p3, ") from "@, x8);
    plus_assoc(p2, quoted_pair(rel, column), x9);
    plus_assoc(p1, "("@, x10);
    plus_assoc("(select "@, unicode_lower(name), "("@ + x10);
}

proof fn query_tail_starts(
    rel: Seq<char>,
    source: Seq<char>,
    r: RelationshipDefView,
    x: Seq<char>,
)
    ensures
        query_tail(rel, source, r, x).len() > 0,
        query_tail(rel, source, r, x)[0] == ')',
{
    reveal_strlit(") from ");
}

proof fn queries_end(
    naming: NamingView,
    a: ExprView,
    x: Seq<char>,
    b: ExprView,
    y: Seq<char>,
)
    requires
        naming is Related,
        good(naming, a),
        good(naming, b),
        a matches ExprView::FunctionCall { name, args } && aggregates_path(name, args),
        b matches ExprView::FunctionCall { name, args } && aggregates_path(name, args),
        rendered(naming, a) + x == rendered(naming, b) + y,
    ensures
        same_expression(a, b),
        x == y,
{
    reveal_strlit("(");
    let (an, bn) = (a->name, b->name);
    let (pa, pb) = (a->args[0], b->args[0]);
    let source = naming->source;
    let (ca, cb) = (pa->RelationshipPath_column, pb->RelationshipPath_column);
    let (ra, rb) = (naming->relationships[pa->rel], naming->relationships[pb->rel]);
    let ta = query_tail(pa->rel, source, ra, x);
    let tb = query_tail(pb->rel, source, rb, y);
    queries_come_apart(an, pa->rel, ca, source, ra, x);
    queries_come_apart(bn, pb->rel, cb, source, rb, y);
    query_tail_starts(pa->rel, source, ra, x);
    query_tail_starts(pb->rel, source, rb, y);
    let va = quoted_pair(pa->rel, ca) + ta;
    let vb = quoted_pair(pb->rel, cb) + tb;
    cancel("(select "@, unicode_lower(an) + ("("@ + va), unicode_lower(bn) + ("("@ + vb));
    assert(("("@ + va)[0] == '(' && ("("@ + vb)[0] == '(');
    words_end(unicode_lower(an), "("@ + va, unicode_lower(bn), "("@ + vb, set!['(']);
    cancel("("@, va, vb);
    pairs_end(pa->rel, ca, ta, pb->rel, cb, tb);
    query_tails_end(pa->rel, source, ra, x, y);
    assert(pa == pb);
    assert(same_expression(pa, pb));
}

proof fn words_are_not_select(
    naming: NamingView,
    e: ExprView,
    rest: Seq<char>,
    more: Seq<char>,
)
    requires
        good(naming, e),
        e matches ExprView::FunctionCall { name, args } && !(naming is Related && aggregates_path(
            name,
            args,
        )),
    ensures
        rendered(naming, e) + rest != "select"@ + (" "@ + more),
{
    if rendered(naming, e) + rest == "select"@ + (" "@ + more) {
        reveal_strlit("select");
        reveal_strlit("(");
        reveal_strlit(" ");
        reveal_strlit("count");
        let (name, args) = (e->name, e->args);
        calls_come_apart(naming, name, args, rest);
        let head = call_head(name, args);
        let tail = "("@ + (call_tail(naming, name, args) + rest);
        assert(tail[0] == '(');
        assert((" "@ + more)[0] == ' ');
        assert forall|i: int| 0 <= i < head.len() implies !set!['(', ' '].contains(
            #[trigger] head[i],
        ) by {
            if head == "count"@ {
                assert(i == 0 || i == 1 || i == 2 || i == 3 || i == 4);
            }
        }
        assert forall|i: int| 0 <= i < "select"@.len() implies !set!['(', ' '].contains(
            #[trigger] "select"@[i],
        ) by {
            assert(i == 0 || i == 1 || i == 2 || i == 3 || i == 4 || i == 5);
        }
        words_end(head, tail, "select"@, " "@ + more, set!['(', ' ']);
    }
}

proof fn queries_are_no_sums(
    naming: NamingView,
    a: ExprView,
    x: Seq<char>,
    b: ExprView,
    y: Seq<char>,
)
    requires
        naming is Related,
        good(naming, a),
        good(naming, b),
        names_a_table(naming),
        a matches ExprView::FunctionCall { name, args } && aggregates_path(name, args),
        b is BinaryOp,
    ensures
        rendered(naming, a) + x != rendered(naming, b) + y,
{
    if rendered(naming, a) + x == rendered(naming, b) + y {
        reveal_strlit("(select ");
        reveal_strlit("select");
        reveal_strlit("(");
        reveal_strlit(" ");
        let (p, lhs, rhs) = (a->args[0], *b->lhs, *b->rhs);
        let (rel, source) = (p->rel, naming->source);
        let r = naming->relationships[rel];
        queries_come_apart(a->name, rel, p->RelationshipPath_column, source, r, x);
        sums_come_apart(naming, b->op, lhs, rhs, y);
        let more = unicode_lower(a->name) + ("("@ + (quoted_pair(rel, p->RelationshipPath_column)
            + query_tail(rel, source, r, x)));
        let rest = after_left(naming, b->op, rhs, y);
        let l = rendered(naming, lhs);
        assert("(select "@ =~= "("@ + ("select"@ + " "@));
        plus_assoc("("@, "select"@ + " "@, more);
        plus_assoc("select"@, " "@, more);
        cancel("("@, "select"@ + (" "@ + more), l + rest);
        first_character(naming, lhs);
        assert((l + rest)[0] == l[0]);
        assert(("select"@ + (" "@ + more))[0] == 's');
        assert(lhs is FunctionCall);
        words_are_not_select(naming, lhs, rest, more);
    }
}

/// A sum or comparison, from its left side on.
spec fn after_left(naming: NamingView, op: Operator, rhs: ExprView, x: Seq<char>) -> Seq<char> {
    " "@ + (operator_symbol(op) + (" "@ + (rendered(naming, rhs) + (")"@ + x))))
}

proof fn sums_come_apart(
    naming: NamingView,
    op: Operator,
    lhs: ExprView,
    rhs: ExprView,
    x: Seq<char>,
)
    ensures
        rendered(naming, ExprView::BinaryOp { op, lhs: Box::new(lhs), rhs: Box::new(rhs) }) + x
            == "("@ + (rendered(naming, lhs) + after_left(naming, op, rhs, x)),
        after_left(naming, op, rhs, x).len() > 0,
        after_left(naming, op, rhs, x)[0] == ' ',
{
    reveal_strlit(" ");
    let (l, r) = (rendered(naming, lhs), rendered(naming, rhs));
    let p1 = "("@ + l;
    let p2 = p1 + " "@;
    let p3 = p2 + operator_symbol(op);
    let p4 = p3 + " "@;
    let p5 = p4 + r;
    let x1 = ")"@ + x;
    let x2 = r + x1;
    let x3 = " "@ + x2;
    let x4 = operator_symbol(op) + x3;
    plus_assoc(p5, ")"@, x);
    plus_assoc(p4, r, x1);
    plus_assoc(p3, " "@, x2);
    plus_assoc(p2, operator_symbol(op), x3);
    plus_assoc(p1, " "@, x4);
    plus_assoc("("@, l, " "@ + x4);
}

proof fn sums_end(naming: NamingView, a: ExprView, x: Seq<char>, b: ExprView, y: Seq<char>)
    requires
        names_a_table(naming),
        a is BinaryOp,
        b is BinaryOp,
        good(naming, a),
        good(naming, b),
        rendered(naming, a) + x == rendered(naming, b) + y,
    ensures
        same_expression(a, b),
        x == y,
    decreases a, 0nat,
{
    if let (
        ExprView::BinaryOp { op, lhs, rhs },
        ExprView::BinaryOp { op: p, lhs: l, rhs: r },
    ) = (a, b) {
        sums_come_apart(naming, op, *lhs, *rhs, x);
        sums_come_apart(naming, p, *l, *r, y);
        let (ua, ub) = (after_left(naming, op, *rhs, x), after_left(naming, p, *r, y));
        cancel("("@, rendered(naming, *lhs) + ua, rendered(naming, *l) + ub);
        expressions_end(naming, *lhs, ua, *l, ub);
        let (va, vb) = (rendered(naming, *rhs) + (")"@ + x), rendered(naming, *r) + (")"@ + y));
        cancel(
            " "@,
            operator_symbol(op) + (" "@ + va),
            operator_symbol(p) + (" "@ + vb),
        );
        symbols_end(op, " "@ + va, p, " "@ + vb);
        cancel(" "@, va, vb);
        reveal_strlit(")");
        assert((")"@ + x)[0] == ')' && (")"@ + y)[0] == ')');
        expressions_end(naming, *rhs, ")"@ + x, *r, ")"@ + y);
        cancel(")"@, x, y);
    }
}

/// Expressions that are spelled the same up to where they end are the same.
proof fn expressions_end(naming: NamingView, a: ExprView, x: Seq<char>, b: ExprView, y: Seq<char>)
    requires
        names_a_table(naming),
        good(naming, a),
        good(naming, b),
        rendered(naming, a) + x == rendered(naming, b) + y,
        ends(x),
        ends(y),
    ensures
        same_expression(a, b),
        x == y,
    decreases a, 1nat,
{
    first_character(naming, a);
    first_character(naming, b);
    assert((rendered(naming, a) + x)[0] == rendered(naming, a)[0]);
    assert((rendered(naming, b) + y)[0] == rendered(naming, b)[0]);
    match a {
        ExprView::Column(m) => match b {
            ExprView::Column(n) => {
                columns_end(naming, m, x, n, y);
            },
            ExprView::RelationshipPath { rel, column } => {
                columns_are_no_paths(naming, m, x, rel, column, y);
            },
            _ => {},
        },
        ExprView::RelationshipPath { rel, column } => match b {
            ExprView::Column(n) => {
                columns_are_no_paths(naming, n, y, rel, column, x);
            },
            ExprView::RelationshipPath { rel: r, column: c } => {
                pairs_end(rel, column, x, r, c, y);
            },
            _ => {},
        },
        ExprView::NumberLiteral(m) => {
            if let ExprView::NumberLiteral(n) = b {
                numbers_end(m, x, n, y);
            }
        },
        ExprView::StringLiteral(_) | ExprView::TypedLiteral { .. } => {
            literals_end(naming, a, x, b, y);
        },
        ExprView::BinaryOp { op, lhs, rhs } => {
            if b is BinaryOp {
                sums_end(naming, a, x, b, y);
            } else {
                queries_are_no_sums(naming, b, y, a, x);
            }
        },
        ExprView::FunctionCall { name, args } => {
            assert(a->args == args);
            if naming is Related && aggregates_path(name, args) {
                if b is BinaryOp {
                    queries_are_no_sums(naming, a, x, b, y);
                } else {
                    queries_end(naming, a, x, b, y);
                }
            } else {
                let (n, xs) = (b->name, b->args);
                calls_end(naming, name, args, x, n, xs, y);
            }
        },
    }
}

proof fn calls_end(
    naming: NamingView,
    name: Seq<char>,
    args: Seq<ExprView>,
    x: Seq<char>,
    n: Seq<char>,
    xs: Seq<ExprView>,
    y: Seq<char>,
)
    requires
        names_a_table(naming),
        !(naming is Related && aggregates_path(name, args)),
        !(naming is Related && aggregates_path(n, xs)),
        good(naming, ExprView::FunctionCall { name, args }),
        good(naming, ExprView::FunctionCall { name: n, args: xs }),
        rendered(naming, ExprView::FunctionCall { name, args }) + x == rendered(
            naming,
            ExprView::FunctionCall { name: n, args: xs },
        ) + y,
        ends(x),
        ends(y),
    ensures
        same_expression(
            ExprView::FunctionCall { name, args },
            ExprView::FunctionCall { name: n, args: xs },
        ),
        x == y,
    decreases args, args.len() + 1,
{
    let a = ExprView::FunctionCall { name, args };
    let b = ExprView::FunctionCall { name: n, args: xs };
    assert(a->args == args && b->args == xs);
    assert forall|i: int| 0 <= i < args.len() implies good(naming, #[trigger] args[i]) by {
        assert(plainly_written(naming, args[i]));
    }
    assert forall|i: int| 0 <= i < xs.len() implies good(naming, #[trigger] xs[i]) by {
        assert(plainly_written(naming, xs[i]));
    }
    reveal_strlit("(");
    reveal_strlit("count");
    reveal_strlit("*)");
    calls_come_apart(naming, name, args, x);
    calls_come_apart(naming, n, xs, y);
    let (h, k) = (call_head(name, args), call_head(n, xs));
    let (t, u) = (call_tail(naming, name, args) + x, call_tail(naming, n, xs) + y);
    assert forall|i: int| 0 <= i < "count"@.len() implies "count"@[i] != '(' by {
        assert(i == 0 || i == 1 || i == 2 || i == 3 || i == 4);
    }
    assert(("("@ + t)[0] == '(' && ("("@ + u)[0] == '(');
    words_end(h, "("@ + t, k, "("@ + u, set!['(']);
    cancel("("@, t, u);
    let (ca, cb) = (name == "COUNT"@ && args.len() == 0, n == "COUNT"@ && xs.len() == 0);
    if ca && cb {
        cancel("*)"@, x, y);
        assert(args =~= xs);
    } else if ca {
        assert(t[0] == '*');
        star_is_no_list(naming, xs, y);
    } else if cb {
        assert(u[0] == '*');
        star_is_no_list(naming, args, x);
    } else {
        lists_end(naming, args, x, xs, y);
    }
}

proof fn star_is_no_list(naming: NamingView, es: Seq<ExprView>, x: Seq<char>)
    requires
        names_a_table(naming),
        forall|i: int| 0 <= i < es.len() ==> good(naming, #[trigger] es[i]),
    ensures
        (list_sql(naming, es) + x)[0] != '*',
{
    reveal_strlit(")");
    each_is_rendered(naming, es);
    if es.len() > 0 {
        lists_start(naming, es);
        assert(good(naming, es[0]));
        first_character(naming, es[0]);
        assert((list_sql(naming, es) + x)[0] == rendered(naming, es[0])[0]);
    } else {
        assert(list_sql(naming, es) =~= ")"@);
    }
}

proof fn lists_end(
    naming: NamingView,
    args: Seq<ExprView>,
    x: Seq<char>,
    xs: Seq<ExprView>,
    y: Seq<char>,
)
    requires
        names_a_table(naming),
        forall|i: int| 0 <= i < args.len() ==> good(naming, #[trigger] args[i]),
        forall|i: int| 0 <= i < xs.len() ==> good(naming, #[trigger] xs[i]),
        list_sql(naming, args) + x == list_sql(naming, xs) + y,
    ensures
        args.len() == xs.len(),
        forall|i: int| 0 <= i < args.len() ==> same_expression(#[trigger] args[i], xs[i]),
        x == y,
    decreases args, args.len(),
{
    reveal_strlit(")");
    reveal_strlit(", ");
    let (s, t) = (list_sql(naming, args) + x, list_sql(naming, xs) + y);
    each_is_rendered(naming, args);
    each_is_rendered(naming, xs);
    if args.len() > 0 {
        lists_start(naming, args);
        assert(good(naming, args[0]));
        first_character(naming, args[0]);
        assert(s[0] == rendered(naming, args[0])[0]);
    } else {
        assert(list_sql(naming, args) =~= ")"@);
    }
    if xs.len() > 0 {
        lists_start(naming, xs);
        assert(good(naming, xs[0]));
        first_character(naming, xs[0]);
        assert(t[0] == rendered(naming, xs[0])[0]);
    } else {
        assert(list_sql(naming, xs) =~= ")"@);
    }
    if args.len() == 0 || xs.len() == 0 {
        assert(args.len() == 0 && xs.len() == 0);
        cancel(")"@, x, y);
    } else {
        let (u, v) = (after_first(naming, args) + x, after_first(naming, xs) + y);
        plus_assoc(rendered(naming, args[0]), after_first(naming, args), x);
        plus_assoc(rendered(naming, xs[0]), after_first(naming, xs), y);
        assert(u[0] == after_first(naming, args)[0] && v[0] == after_first(naming, xs)[0]);
        expressions_end(naming, args[0], u, xs[0], v);
        if args.len() == 1 {
            assert(xs.len() == 1);
            cancel(")"@, x, y);
        } else {
            assert(xs.len() > 1);
            let (more, rest) = (args.skip(1), xs.skip(1));
            plus_assoc(", "@, list_sql(naming, more), x);
            plus_assoc(", "@, list_sql(naming, rest), y);
            cancel(", "@, list_sql(naming, more) + x, list_sql(naming, rest) + y);
            assert forall|i: int| 0 <= i < more.len() implies good(naming, #[trigger] more[i]) by {
                assert(good(naming, args[i + 1]));
            }
            assert forall|i: int| 0 <= i < rest.len() implies good(naming, #[trigger] rest[i]) by {
                assert(good(naming, xs[i + 1]));
            }
            lists_end(naming, more, x, rest, y);
            assert forall|i: int| 0 <= i < args.len() implies same_expression(
                #[trigger] args[i],
                xs[i],
            ) by {
                if i > 0 {
                    assert(same_expression(more[i - 1], rest[i - 1]));
                }
            }
        }
    }
}

/// Spelling loses nothing: two expressions that are spelled the same are the
/// same, but for the case of the names of calls. In particular a count of rows
/// is spelled otherwise than a count of anything.
pub proof fn spelling_loses_nothing(naming: NamingView, a: ExprView, b: ExprView)
    ensures
        names_a_table(naming) && plainly_written(naming, a) && plainly_written(naming, b)
            && renderable(naming, a) && renderable(naming, b) && rendered(naming, a) == rendered(
            naming,
            b,
        ) ==> same_expression(a, b),
{
    if names_a_table(naming) && good(naming, a) && good(naming, b) && rendered(naming, a)
        == rendered(naming, b) {
        let none: Seq<char> = seq![];
        assert(rendered(naming, a) + none =~= rendered(naming, a));
        assert(rendered(naming, b) + none =~= rendered(naming, b));
        expressions_end(naming, a, none, b, none);
    }
}

} // verus!
