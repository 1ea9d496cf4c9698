//! What a definition names stands in its SQL.

use vstd::prelude::*;

use crate::defs::ast::{ExprView, RelationshipDefView, TransformDefView};
use crate::defs::occurrence_laws::{holds, joined_relationships_are_needed, needs_join, path};
use crate::defs::oracle::{
    aggregate_relationship_select, aggregate_select, aggregates_path, all_shown, field_exprs,
    field_items, fields_followed, followed, followed_by_all, group_followed, join_of, join_sql,
    joins_of, joins_sql, key_exprs, key_items, relationship_select, renderable, rendered,
    rendered_all, source_from, source_join_sql, source_joins_sql, NamingView, ToOneJoinView,
};
use crate::ordered::{sorted_names, sorted_names_are_sorted};
use crate::sql::{quoted_ident, quoted_pair};
use crate::text::joined;

verus! {

/// `part` stands somewhere in `s`.
pub open spec fn occurs(part: Seq<char>, s: Seq<char>) -> bool {
    exists|i: int| 0 <= i <= s.len() - part.len() && #[trigger] s.subrange(i, i + part.len()) == part
}

proof fn at(part: Seq<char>, s: Seq<char>, i: int)
    requires
        0 <= i <= s.len() - part.len(),
        s.subrange(i, i + part.len()) =~= part,
    ensures
        occurs(part, s),
{
    assert(s.subrange(i, i + part.len()) == part);
}

proof fn whole(s: Seq<char>)
    ensures
        occurs(s, s),
{
    at(s, s, 0);
}

proof fn on_the_left(a: Seq<char>, b: Seq<char>)
    ensures
        occurs(a, a + b),
{
    at(a, a + b, 0);
}

proof fn on_the_right(a: Seq<char>, b: Seq<char>)
    ensures
        occurs(b, a + b),
{
    at(b, a + b, a.len() as int);
}

proof fn inside(a: Seq<char>, b: Seq<char>, c: Seq<char>)
    requires
        occurs(a, b),
        occurs(b, c),
    ensures
        occurs(a, c),
{
    let i = choose|i: int| 0 <= i <= b.len() - a.len() && #[trigger] b.subrange(i, i + a.len()) == a;
    let j = choose|j: int| 0 <= j <= c.len() - b.len() && #[trigger] c.subrange(j, j + b.len()) == b;
    assert(c.subrange(i + j, i + j + a.len()) =~= a) by {
        assert forall|k: int| 0 <= k < a.len() implies c.subrange(i + j, i + j + a.len())[k]
            == a[k] by {
            assert(b.subrange(i, i + a.len())[k] == b[i + k]);
            assert(c.subrange(j, j + b.len())[i + k] == c[j + i + k]);
        }
    }
    at(a, c, i + j);
}

/// What stands in a text stands in what follows from it.
proof fn still(a: Seq<char>, b: Seq<char>, c: Seq<char>)
    requires
        occurs(a, b),
    ensures
        occurs(a, b + c),
{
    on_the_left(b, c);
    inside(a, b, b + c);
}

proof fn behind(a: Seq<char>, b: Seq<char>, c: Seq<char>)
    requires
        occurs(a, c),
    ensures
        occurs(a, b + c),
{
    on_the_right(b, c);
    inside(a, c, b + c);
}

proof fn in_the_list(parts: Seq<Seq<char>>, sep: Seq<char>, i: int)
    requires
        0 <= i < parts.len(),
    ensures
        occurs(parts[i], joined(parts, sep)),
    decreases parts.len(),
{
    if parts.len() == 1 {
        whole(parts[0]);
    } else if i == parts.len() - 1 {
        on_the_right(joined(parts.drop_last(), sep) + sep, parts.last());
    } else {
        in_the_list(parts.drop_last(), sep, i);
        assert(parts.drop_last()[i] == parts[i]);
        still(parts[i], joined(parts.drop_last(), sep), sep);
        still(parts[i], joined(parts.drop_last(), sep) + sep, parts.last());
    }
}

// ---------------------------------------------------------------------------
// Expressions
// ---------------------------------------------------------------------------

proof fn each_part_is_rendered(naming: NamingView, es: Seq<ExprView>)
    ensures
        rendered_all(naming, es).len() == es.len(),
        forall|i: int|
            0 <= i < es.len() ==> #[trigger] rendered_all(naming, es)[i] == rendered(naming, es[i]),
    decreases es.len(),
{
    if es.len() > 0 {
        each_part_is_rendered(naming, es.drop_last());
    }
}

proof fn arguments_are_spelled(naming: NamingView, e: ExprView, i: int)
    requires
        e matches ExprView::FunctionCall { name, args } && 0 <= i < args.len() && !(
        naming is Related && aggregates_path(name, args)),
    ensures
        occurs(rendered(naming, e->args[i]), rendered(naming, e)),
{
    let (name, args) = (e->name, e->args);
    let list = joined(rendered_all(naming, args), ", "@);
    let head = crate::text::unicode_lower(name) + "("@;
    each_part_is_rendered(naming, args);
    in_the_list(rendered_all(naming, args), ", "@, i);
    behind(rendered(naming, args[i]), head, list);
    still(rendered(naming, args[i]), head + list, ")"@);
}

proof fn operands_are_spelled(naming: NamingView, e: ExprView)
    requires
        e is BinaryOp,
    ensures
        occurs(rendered(naming, *e->lhs), rendered(naming, e)),
        occurs(rendered(naming, *e->rhs), rendered(naming, e)),
{
    let (l, r) = (rendered(naming, *e->lhs), rendered(naming, *e->rhs));
    let s = crate::defs::registry::operator_symbol(e->op);
    let p = "("@ + l;
    on_the_right("("@, l);
    still(l, p, " "@);
    still(l, p + " "@, s);
    still(l, p + " "@ + s, " "@);
    still(l, p + " "@ + s + " "@, r);
    on_the_right(p + " "@ + s + " "@, r);
    still(l, p + " "@ + s + " "@ + r, ")"@);
    still(r, p + " "@ + s + " "@ + r, ")"@);
}

/// The condition by which the rows of a relationship belong to a source row.
pub open spec fn tie(
    source_sql: Seq<char>,
    rel: Seq<char>,
    r: RelationshipDefView,
) -> (Seq<char>, Seq<char>) {
    (quoted_pair(rel, r.to_col), source_sql + "."@ + quoted_ident(r.from_col))
}

proof fn aggregated_path_is_spelled(naming: NamingView, name: Seq<char>, p: ExprView)
    requires
        naming is Related,
        p is RelationshipPath,
    ensures
        ({
            let (rel, column) = (p->rel, p->RelationshipPath_column);
            let source = naming->source;
            let r = naming->relationships[rel];
            let (theirs, ours) = tie(quoted_ident(source), rel, r);
            let s = crate::defs::oracle::related_aggregate_sql(name, rel, column, source, r);
            &&& occurs(quoted_pair(rel, column), s)
            &&& occurs(quoted_ident(r.to_table) + " as "@ + quoted_ident(rel), s)
            &&& occurs(theirs + " = "@ + ours, s)
        }),
{
    let (rel, column) = (p->rel, p->RelationshipPath_column);
    let source = naming->source;
    let r = naming->relationships[rel];
    let q = quoted_pair(rel, column);
    let (t, a) = (quoted_ident(r.to_table), quoted_ident(rel));
    let (k, m) = (quoted_pair(rel, r.to_col), quoted_pair(source, r.from_col));
    let p1 = "(select "@ + crate::text::unicode_lower(name) + "("@;
    let p2 = p1 + q;
    let p3 = p2 + ") from "@;
    let p4 = p3 + t;
    let p5 = p4 + " as "@;
    let p6 = p5 + a;
    let p7 = p6 + " where "@;
    let p8 = p7 + k;
    let p9 = p8 + " = "@;
    let p10 = p9 + m;
    let named = t + " as "@ + a;
    let tied = k + " = "@ + m;
    on_the_right(p1, q);
    still(q, p2, ") from "@);
    still(q, p3, t);
    still(q, p4, " as "@);
    still(q, p5, a);
    assert(p6 =~= p3 + named);
    on_the_right(p3, named);
    still(q, p6, " where "@);
    still(named, p6, " where "@);
    still(q, p7, k);
    still(named, p7, k);
    still(q, p8, " = "@);
    still(named, p8, " = "@);
    still(q, p9, m);
    still(named, p9, m);
    assert(p10 =~= p7 + tied);
    on_the_right(p7, tied);
    still(q, p10, ")"@);
    still(named, p10, ")"@);
    still(tied, p10, ")"@);
}

/// Whatever stands in an expression is spelled within its spelling.
pub proof fn parts_are_spelled(naming: NamingView, e: ExprView, part: ExprView)
    requires
        holds(e, part),
        renderable(naming, e),
    ensures
        occurs(rendered(naming, part), rendered(naming, e)),
        renderable(naming, part),
    decreases e,
{
    if e == part {
        whole(rendered(naming, e));
    } else {
        match e {
            ExprView::BinaryOp { op, lhs, rhs } => {
                operands_are_spelled(naming, e);
                if holds(*lhs, part) {
                    parts_are_spelled(naming, *lhs, part);
                    inside(
                        rendered(naming, part),
                        rendered(naming, *lhs),
                        rendered(naming, e),
                    );
                } else {
                    parts_are_spelled(naming, *rhs, part);
                    inside(
                        rendered(naming, part),
                        rendered(naming, *rhs),
                        rendered(naming, e),
                    );
                }
            },
            ExprView::FunctionCall { name, args } => {
                assert(e->args == args);
                let i = choose|i: int| 0 <= i < args.len() && holds(#[trigger] args[i], part);
                assert(renderable(naming, args[i]));
                parts_are_spelled(naming, args[i], part);
                if naming is Related && aggregates_path(name, args) {
                    aggregated_path_is_spelled(naming, name, args[0]);
                } else {
                    arguments_are_spelled(naming, e, i);
                }
                inside(
                    rendered(naming, part),
                    rendered(naming, args[i]),
                    rendered(naming, e),
                );
            },
            _ => {},
        }
    }
}

/// The source as columns are put behind it.
pub open spec fn source_prefix(naming: NamingView) -> Seq<char> {
    match naming {
        NamingView::Plain => seq![],
        NamingView::Joined { source_sql } => source_sql + "."@,
        NamingView::Related { source, .. } => quoted_ident(source) + "."@,
    }
}

/// Every column that an expression names stands quoted in its spelling, behind
/// the source where there is more than one table to read from.
pub proof fn columns_are_spelled(naming: NamingView, e: ExprView, n: Seq<char>)
    requires
        holds(e, ExprView::Column(n)),
        renderable(naming, e),
    ensures
        occurs(source_prefix(naming) + quoted_ident(n), rendered(naming, e)),
{
    parts_are_spelled(naming, e, ExprView::Column(n));
    assert(rendered(naming, ExprView::Column(n)) =~= source_prefix(naming) + quoted_ident(n));
}

/// Every path that an expression follows stands quoted in its spelling, the
/// column behind its relationship.
pub proof fn paths_are_spelled(naming: NamingView, e: ExprView, rel: Seq<char>, column: Seq<char>)
    requires
        holds(e, path(rel, column)),
        renderable(naming, e),
    ensures
        occurs(quoted_ident(rel) + "."@ + quoted_ident(column), rendered(naming, e)),
{
    parts_are_spelled(naming, e, path(rel, column));
}

/// Every aggregate over a relationship that is a query of its own reads the
/// relationship's table under the relationship's name, and of that the rows
/// that belong to the source row.
pub proof fn queries_read_the_rows_that_belong(
    naming: NamingView,
    e: ExprView,
    name: Seq<char>,
    args: Seq<ExprView>,
)
    requires
        naming is Related,
        renderable(naming, e),
        holds(e, ExprView::FunctionCall { name, args }),
        aggregates_path(name, args),
    ensures
        ({
            let rel = args[0]->rel;
            let r = naming->relationships[rel];
            let (theirs, ours) = tie(quoted_ident(naming->source), rel, r);
            &&& naming->relationships.contains_key(rel)
            &&& occurs(
                quoted_ident(r.to_table) + " as "@ + quoted_ident(rel),
                rendered(naming, e),
            )
            &&& occurs(theirs + " = "@ + ours, rendered(naming, e))
        }),
{
    let call = ExprView::FunctionCall { name, args };
    let rel = args[0]->rel;
    let r = naming->relationships[rel];
    let (theirs, ours) = tie(quoted_ident(naming->source), rel, r);
    assert(call->args == args);
    parts_are_spelled(naming, e, call);
    aggregated_path_is_spelled(naming, name, args[0]);
    inside(
        quoted_ident(r.to_table) + " as "@ + quoted_ident(rel),
        rendered(naming, call),
        rendered(naming, e),
    );
    inside(theirs + " = "@ + ours, rendered(naming, call), rendered(naming, e));
}

// ---------------------------------------------------------------------------
// Queries
// ---------------------------------------------------------------------------

proof fn contained_in_each(es: Seq<ExprView>, i: int, rel: Seq<char>)
    requires
        0 <= i < es.len(),
        followed(es[i], false).contains(rel),
    ensures
        followed_by_all(es, false).contains(rel),
    decreases es.len(),
{
    let (before, last) = (
        followed_by_all(es.drop_last(), false),
        followed(es[es.len() - 1], false),
    );
    if i == es.len() - 1 {
        let k = last.index_of(rel);
        assert((before + last)[before.len() + k] == rel);
    } else {
        contained_in_each(es.drop_last(), i, rel);
        let k = before.index_of(rel);
        assert((before + last)[k] == rel);
    }
}

proof fn contained_in_fields(def: TransformDefView, n: int, i: int, rel: Seq<char>)
    requires
        0 <= i < n <= def.fields.len(),
        followed(def.fields[i].expr, true).contains(rel),
    ensures
        fields_followed(def.fields.take(n)).contains(rel),
    decreases n,
{
    let fs = def.fields.take(n);
    assert(fs.drop_last() =~= def.fields.take(n - 1));
    let (before, last) = (fields_followed(fs.drop_last()), followed(fs.last().expr, true));
    if i == n - 1 {
        let k = last.index_of(rel);
        assert((before + last)[before.len() + k] == rel);
    } else {
        contained_in_fields(def, n - 1, i, rel);
        let k = before.index_of(rel);
        assert((before + last)[k] == rel);
    }
}

/// The SQL text joins the table of a relationship under the relationship's
/// name, keeps the source rows that have no row there, and ties the rows that
/// belong to each other.
pub open spec fn joins_relationship(
    s: Seq<char>,
    source_sql: Seq<char>,
    rel: Seq<char>,
    r: RelationshipDefView,
) -> bool {
    let (theirs, ours) = tie(source_sql, rel, r);
    let table = " left join "@ + quoted_ident(r.to_table) + " as "@ + quoted_ident(rel) + " on "@;
    occurs(table + theirs + " = "@ + ours, s) || occurs(table + ours + " = "@ + theirs, s)
}

proof fn in_the_joins(joins: Seq<ToOneJoinView>, source_sql: Seq<char>, i: int)
    requires
        0 <= i < joins.len(),
    ensures
        occurs(join_sql(joins[i], source_sql), joins_sql(joins, source_sql)),
    decreases joins.len(),
{
    let before = joins_sql(joins.drop_last(), source_sql);
    if i == joins.len() - 1 {
        on_the_right(before, join_sql(joins.last(), source_sql));
    } else {
        in_the_joins(joins.drop_last(), source_sql, i);
        still(join_sql(joins[i], source_sql), before, join_sql(joins.last(), source_sql));
    }
}

proof fn in_the_source_joins(source: Seq<char>, joins: Seq<ToOneJoinView>, i: int)
    requires
        0 <= i < joins.len(),
    ensures
        occurs(source_join_sql(source, joins[i]), source_joins_sql(source, joins)),
    decreases joins.len(),
{
    let before = source_joins_sql(source, joins.drop_last());
    if i == joins.len() - 1 {
        on_the_right(before, source_join_sql(source, joins.last()));
    } else {
        in_the_source_joins(source, joins.drop_last(), i);
        still(source_join_sql(source, joins[i]), before, source_join_sql(source, joins.last()));
    }
}

/// The query over single rows shows every field under its name.
pub proof fn row_queries_show_each_field(
    def: TransformDefView,
    relationships: Map<Seq<char>, RelationshipDefView>,
    i: int,
)
    requires
        0 <= i < def.fields.len(),
    ensures
        occurs(
            rendered(
                (NamingView::Related { source: def.source, relationships }),
                def.fields[i].expr,
            ) + " as "@ + quoted_ident(def.fields[i].name),
            relationship_select(def, relationships),
        ),
{
    let naming = NamingView::Related { source: def.source, relationships };
    let items = field_items(naming, field_exprs(def.fields), def.fields);
    let item = items[i];
    in_the_list(items, ", "@, i);
    let list = joined(items, ", "@);
    behind(item, "select "@, list);
    still(item, "select "@ + list, " from "@);
    still(item, "select "@ + list + " from "@, source_from(def));
    still(
        item,
        "select "@ + list + " from "@ + source_from(def),
        source_joins_sql(
            def.source,
            joins_of(sorted_names(fields_followed(def.fields)), relationships),
        ),
    );
}

/// The query over single rows joins every relationship that a field follows
/// outside aggregates.
pub proof fn row_queries_join_what_fields_need(
    def: TransformDefView,
    relationships: Map<Seq<char>, RelationshipDefView>,
    i: int,
    rel: Seq<char>,
)
    requires
        0 <= i < def.fields.len(),
        needs_join(def.fields[i].expr, rel, true),
    ensures
        joins_relationship(
            relationship_select(def, relationships),
            quoted_ident(def.source),
            rel,
            relationships[rel],
        ),
{
    let r = relationships[rel];
    let names = sorted_names(fields_followed(def.fields));
    let joins = joins_of(names, relationships);
    let sql = source_join_sql(def.source, join_of(rel, r));
    joined_relationships_are_needed(def.fields[i].expr, rel, true);
    contained_in_fields(def, def.fields.len() as int, i, rel);
    assert(def.fields.take(def.fields.len() as int) =~= def.fields);
    sorted_names_are_sorted(fields_followed(def.fields));
    assert(fields_followed(def.fields).contains(rel));
    assert(names.contains(rel));
    let k = names.index_of(rel);
    assert(joins[k] == join_of(rel, r));
    in_the_source_joins(def.source, joins, k);
    let naming = NamingView::Related { source: def.source, relationships };
    let head = "select "@ + joined(
        field_items(naming, field_exprs(def.fields), def.fields),
        ", "@,
    ) + " from "@ + source_from(def);
    behind(sql, head, source_joins_sql(def.source, joins));
}

/// The query over groups shows every field under its name, and groups by every
/// key.
pub proof fn group_queries_show_each_field_and_key(
    def: TransformDefView,
    relationships: Map<Seq<char>, RelationshipDefView>,
    i: int,
    k: int,
)
    requires
        def.key_space is Aggregate,
        0 <= i < def.fields.len(),
        0 <= k < def.key_space->group_by.len(),
    ensures
        ({
            let key = def.key_space->group_by[k].as_expr();
            let field = all_shown(def.fields)[i];
            let named = " as "@ + quoted_ident(def.fields[i].name);
            let joined_naming = NamingView::Joined { source_sql: source_from(def) };
            &&& shows_and_groups(
                aggregate_select(def),
                rendered(NamingView::Plain, field) + named,
                rendered(NamingView::Plain, key),
            )
            &&& shows_and_groups(
                aggregate_relationship_select(def, relationships),
                rendered(joined_naming, field) + named,
                rendered(joined_naming, key),
            )
        }),
{
    let plain = NamingView::Plain;
    let joined_naming = NamingView::Joined { source_sql: source_from(def) };
    let joins = joins_sql(
        joins_of(sorted_names(group_followed(def)), relationships),
        source_from(def),
    );
    let none: Seq<char> = seq![];
    grouped_query(def, plain, none, i, k);
    grouped_query(def, joined_naming, joins, i, k);
    let items = field_items(plain, all_shown(def.fields), def.fields);
    let head = "select "@ + joined(items, ", "@) + " from "@ + source_from(def);
    assert(head + none =~= head);
}

/// `item` stands before the words `group by` of the query, `key` behind them.
pub open spec fn shows_and_groups(query: Seq<char>, item: Seq<char>, key: Seq<char>) -> bool {
    exists|head: Seq<char>, tail: Seq<char>| #[trigger]
        (head + " group by "@ + tail) == query && occurs(item, head) && occurs(key, tail)
}

proof fn grouped_query(
    def: TransformDefView,
    naming: NamingView,
    joins: Seq<char>,
    i: int,
    k: int,
)
    requires
        def.key_space is Aggregate,
        0 <= i < def.fields.len(),
        0 <= k < def.key_space->group_by.len(),
    ensures
        shows_and_groups(
            "select "@ + joined(field_items(naming, all_shown(def.fields), def.fields), ", "@)
                + " from "@ + source_from(def) + joins + " group by "@ + joined(
                key_items(naming, def.key_space->group_by),
                ", "@,
            ),
            rendered(naming, all_shown(def.fields)[i]) + (" as "@ + quoted_ident(
                def.fields[i].name,
            )),
            rendered(naming, def.key_space->group_by[k].as_expr()),
        ),
{
    let items = field_items(naming, all_shown(def.fields), def.fields);
    let keys = key_items(naming, def.key_space->group_by);
    let (list, tail) = (joined(items, ", "@), joined(keys, ", "@));
    let item = items[i];
    let named = rendered(naming, all_shown(def.fields)[i]) + (" as "@ + quoted_ident(
        def.fields[i].name,
    ));
    assert(named =~= item);
    in_the_list(items, ", "@, i);
    in_the_list(keys, ", "@, k);
    behind(item, "select "@, list);
    still(item, "select "@ + list, " from "@);
    still(item, "select "@ + list + " from "@, source_from(def));
    still(item, "select "@ + list + " from "@ + source_from(def), joins);
    let head = "select "@ + list + " from "@ + source_from(def) + joins;
    assert(occurs(named, head));
    assert(head + " group by "@ + tail == "select "@ + list + " from "@ + source_from(def) + joins
        + " group by "@ + tail);
}

/// The query over groups joins every relationship that a field or a key
/// follows.
pub proof fn group_queries_join_what_they_follow(
    def: TransformDefView,
    relationships: Map<Seq<char>, RelationshipDefView>,
    e: ExprView,
    rel: Seq<char>,
)
    requires
        def.key_space is Aggregate,
        all_shown(def.fields).contains(e) || key_exprs(def.key_space->group_by).contains(e),
        needs_join(e, rel, false),
    ensures
        joins_relationship(
            aggregate_relationship_select(def, relationships),
            source_from(def),
            rel,
            relationships[rel],
        ),
{
    let r = relationships[rel];
    let source_sql = source_from(def);
    let (of_fields, of_keys) = (
        followed_by_all(all_shown(def.fields), false),
        followed_by_all(key_exprs(def.key_space->group_by), false),
    );
    joined_relationships_are_needed(e, rel, false);
    if all_shown(def.fields).contains(e) {
        contained_in_each(all_shown(def.fields), all_shown(def.fields).index_of(e), rel);
        assert((of_fields + of_keys)[of_fields.index_of(rel)] == rel);
    } else {
        let keys = key_exprs(def.key_space->group_by);
        contained_in_each(keys, keys.index_of(e), rel);
        assert((of_fields + of_keys)[of_fields.len() + of_keys.index_of(rel)] == rel);
    }
    assert(group_followed(def).contains(rel));
    sorted_names_are_sorted(group_followed(def));
    let names = sorted_names(group_followed(def));
    assert(names.contains(rel));
    let joins = joins_of(names, relationships);
    let k = names.index_of(rel);
    assert(joins[k] == join_of(rel, r));
    let sql = join_sql(join_of(rel, r), source_sql);
    in_the_joins(joins, source_sql, k);
    let naming = NamingView::Joined { source_sql };
    let head = "select "@ + joined(field_items(naming, all_shown(def.fields), def.fields), ", "@)
        + " from "@ + source_sql;
    let keys = joined(key_items(naming, def.key_space->group_by), ", "@);
    behind(sql, head, joins_sql(joins, source_sql));
    still(sql, head + joins_sql(joins, source_sql), " group by "@);
    still(sql, head + joins_sql(joins, source_sql) + " group by "@, keys);
    join_is_a_tie(rel, r, source_sql);
}

proof fn join_is_a_tie(rel: Seq<char>, r: RelationshipDefView, source_sql: Seq<char>)
    ensures
        ({
            let (theirs, ours) = tie(source_sql, rel, r);
            join_sql(join_of(rel, r), source_sql) == " left join "@ + quoted_ident(r.to_table)
                + " as "@ + quoted_ident(rel) + " on "@ + theirs + " = "@ + ours
        }),
{
    let (theirs, ours) = tie(source_sql, rel, r);
    let head = " left join "@ + quoted_ident(r.to_table) + " as "@ + quoted_ident(rel) + " on "@
        + theirs + " = "@;
    assert(head + source_sql + "."@ + quoted_ident(r.from_col) =~= head + ours);
}

} // verus!
