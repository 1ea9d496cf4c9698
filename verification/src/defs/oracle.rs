//! A definition spelled as the SQL query that computes the same, and its
//! target worked out from rows that were read.

use vstd::prelude::*;

use crate::defs::ast::{
    call_view, expr_views, field_views, key_views, Expr, ExprView, FieldDef, FieldDefView,
    GroupByKey, GroupByKeyView, KeySpace, KeySpaceView, RelationshipDef, RelationshipDefView,
    TransformDef, TransformDefView,
};
use crate::defs::deps::{
    collect_columns, field_at, field_at_finds, find_field, is_field, references,
};
use crate::defs::registry;
use crate::defs::registry::{aggregate_name, operator_symbol};
use crate::defs::substitute::{substitute_field, substituted_field};
use crate::defs::typed_literal;
use crate::names::NameMap;
use crate::ordered;
use crate::ordered::sorted_names;
use crate::sql;
use crate::sql::{quoted_ident, quoted_pair, quoted_string};
use crate::text;
use crate::text::{joined, unicode_lower, views};

verus! {

// ---------------------------------------------------------------------------
// Expressions
// ---------------------------------------------------------------------------

/// How columns are named.
#[derive(Clone, Copy)]
enum Naming<'a> {
    /// By their names alone.
    Plain,
    /// Source columns behind the given SQL text, related columns behind the
    /// relationship that a join brought in.
    Joined { source_sql: &'a str },
    /// Source columns behind their table, related columns behind the
    /// relationship that a join brought in, and aggregates over a relationship
    /// as queries of their own.
    Related { source: &'a str, relationships: &'a NameMap<RelationshipDef> },
}

/// How columns are named.
pub enum NamingView {
    Plain,
    Joined { source_sql: Seq<char> },
    Related { source: Seq<char>, relationships: Map<Seq<char>, RelationshipDefView> },
}

/// The view of a map of relationships.
pub open spec fn relationship_views(m: Map<Seq<char>, RelationshipDef>) -> Map<
    Seq<char>,
    RelationshipDefView,
> {
    m.map_values(|r: RelationshipDef| r@)
}

impl<'a> Naming<'a> {
    spec fn view(&self) -> NamingView {
        match self {
            Naming::Plain => NamingView::Plain,
            Naming::Joined { source_sql } => NamingView::Joined { source_sql: source_sql@ },
            Naming::Related { source, relationships } => NamingView::Related {
                source: source@,
                relationships: relationship_views(relationships@),
            },
        }
    }
}

/// An aggregate whose only argument is a relationship path.
pub open spec fn aggregates_path(name: Seq<char>, args: Seq<ExprView>) -> bool {
    aggregate_name(name) && args.len() == 1 && args[0] is RelationshipPath
}

/// The expression can be spelled: the types of its literals can, a path only
/// occurs where it can be followed, and an aggregate over a relationship only
/// where that is known.
pub open spec fn renderable(naming: NamingView, e: ExprView) -> bool
    decreases e,
{
    match e {
        ExprView::TypedLiteral { value_type, text } => value_type.qualified(),
        ExprView::RelationshipPath { rel, column } => !(naming is Plain),
        ExprView::BinaryOp { op, lhs, rhs } => renderable(naming, *lhs) && renderable(
            naming,
            *rhs,
        ),
        ExprView::FunctionCall { name, args } => {
            &&& forall|i: int| 0 <= i < args.len() ==> renderable(naming, #[trigger] args[i])
            &&& naming matches NamingView::Related { source, relationships } ==> (aggregates_path(
                name,
                args,
            ) ==> relationships.contains_key(args[0]->rel))
        },
        _ => true,
    }
}

/// A source column in SQL.
pub open spec fn column_sql(naming: NamingView, name: Seq<char>) -> Seq<char> {
    match naming {
        NamingView::Plain => quoted_ident(name),
        NamingView::Joined { source_sql } => source_sql + "."@ + quoted_ident(name),
        NamingView::Related { source, relationships } => quoted_pair(source, name),
    }
}

/// An aggregate over the rows behind a relationship, as a query of its own.
pub open spec fn related_aggregate_sql(
    name: Seq<char>,
    rel: Seq<char>,
    column: Seq<char>,
    source: Seq<char>,
    r: RelationshipDefView,
) -> Seq<char> {
    "(select "@ + unicode_lower(name) + "("@ + quoted_pair(rel, column) + ") from "@
        + quoted_ident(r.to_table) + " as "@ + quoted_ident(rel) + " where "@ + quoted_pair(
        rel,
        r.to_col,
    ) + " = "@ + quoted_pair(source, r.from_col) + ")"@
}

/// The expression in SQL.
pub open spec fn rendered(naming: NamingView, e: ExprView) -> Seq<char>
    decreases e, 0nat,
{
    match e {
        ExprView::Column(name) => column_sql(naming, name),
        ExprView::NumberLiteral(n) => n + "::numeric"@,
        ExprView::StringLiteral(s) => quoted_string(s) + "::text"@,
        ExprView::TypedLiteral { value_type, text } => typed_literal::literal_sql(value_type, text),
        ExprView::RelationshipPath { rel, column } => quoted_pair(rel, column),
        ExprView::BinaryOp { op, lhs, rhs } => "("@ + rendered(naming, *lhs) + " "@
            + operator_symbol(op) + " "@ + rendered(naming, *rhs) + ")"@,
        ExprView::FunctionCall { name, args } => if naming is Related && aggregates_path(
            name,
            args,
        ) {
            related_aggregate_sql(
                name,
                args[0]->rel,
                args[0]->RelationshipPath_column,
                naming->source,
                naming->relationships[args[0]->rel],
            )
        } else if name == "COUNT"@ && args.len() == 0 {
            "count(*)"@
        } else {
            unicode_lower(name) + "("@ + joined(rendered_all(naming, args), ", "@) + ")"@
        },
    }
}

/// Each of the expressions in SQL.
pub open spec fn rendered_all(naming: NamingView, es: Seq<ExprView>) -> Seq<Seq<char>>
    decreases es, 1nat,
{
    if es.len() == 0 {
        seq![]
    } else {
        rendered_all(naming, es.drop_last()).push(rendered(naming, es[es.len() - 1]))
    }
}

fn render_column(naming: Naming, name: &str) -> (r: String)
    ensures
        r@ == column_sql(naming.view(), name@),
{
    match naming {
        Naming::Plain => sql::quote_ident(name),
        Naming::Joined { source_sql } => {
            let mut r = text::cat2(source_sql, ".");
            r.append(sql::quote_ident(name).as_str());
            r
        },
        Naming::Related { source, .. } => sql::quote_pair(source, name),
    }
}

fn render_related_aggregate(
    name: &str,
    rel: &str,
    column: &str,
    source: &str,
    relationship: &RelationshipDef,
) -> (r: String)
    ensures
        r@ == related_aggregate_sql(name@, rel@, column@, source@, relationship@),
{
    let mut r = text::owned("(select ");
    r.append(name.to_lowercase().as_str());
    r.append("(");
    r.append(sql::quote_pair(rel, column).as_str());
    r.append(") from ");
    r.append(sql::quote_ident(relationship.to_table.as_str()).as_str());
    r.append(" as ");
    r.append(sql::quote_ident(rel).as_str());
    r.append(" where ");
    r.append(sql::quote_pair(rel, relationship.to_col.as_str()).as_str());
    r.append(" = ");
    r.append(sql::quote_pair(source, relationship.from_col.as_str()).as_str());
    r.append(")");
    r
}

fn render(naming: Naming, expr: &Expr) -> (r: String)
    requires
        renderable(naming.view(), expr@),
    ensures
        r@ == rendered(naming.view(), expr@),
    decreases *expr, 0nat,
{
    match expr {
        Expr::Column(name) => render_column(naming, name.as_str()),
        Expr::NumberLiteral(n) => text::cat2(n.as_str(), "::numeric"),
        Expr::StringLiteral(s) => {
            let mut r = sql::quote_string(s.as_str());
            r.append("::text");
            r
        },
        Expr::TypedLiteral { value_type, text } => typed_literal::render_sql(
            *value_type,
            text.as_str(),
        ),
        Expr::RelationshipPath { rel, column } => sql::quote_pair(rel.as_str(), column.as_str()),
        Expr::BinaryOp { op, lhs, rhs } => {
            let mut r = text::owned("(");
            r.append(render(naming, lhs).as_str());
            r.append(" ");
            r.append(registry::operator_spec(*op).symbol);
            r.append(" ");
            r.append(render(naming, rhs).as_str());
            r.append(")");
            r
        },
        Expr::FunctionCall { name, args } => {
            proof {
                call_view(*name, *args);
            }
            if let Naming::Related { source, relationships } = naming {
                if args.len() == 1 && registry::is_aggregate_function(name.as_str()) {
                    assert(expr_views(args@)[0] == args@[0]@);
                    if let Expr::RelationshipPath { rel, column } = &args[0] {
                        match relationships.get(rel.as_str()) {
                            Some(relationship) => {
                                return render_related_aggregate(
                                    name.as_str(),
                                    rel.as_str(),
                                    column.as_str(),
                                    source,
                                    relationship,
                                );
                            },
                            None => {
                                assert(false);
                            },
                        }
                    }
                }
            }
            if text::same(name.as_str(), "COUNT") && args.len() == 0 {
                return text::owned("count(*)");
            }
            let parts = render_all(naming, args);
            let mut r = name.as_str().to_lowercase();
            r.append("(");
            r.append(text::join(&parts, ", ").as_str());
            r.append(")");
            r
        },
    }
}

fn render_all(naming: Naming, args: &Vec<Expr>) -> (r: Vec<String>)
    requires
        forall|i: int|
            0 <= i < args@.len() ==> renderable(naming.view(), #[trigger] expr_views(args@)[i]),
    ensures
        views(r@) == rendered_all(naming.view(), expr_views(args@)),
    decreases *args, 1nat,
{
    let ghost all = expr_views(args@);
    let mut r: Vec<String> = Vec::new();
    assert(views(r@) =~= seq![]);
    let mut i: usize = 0;
    while i < args.len()
        invariant
            0 <= i <= args@.len(),
            all == expr_views(args@),
            forall|j: int|
                0 <= j < args@.len() ==> renderable(naming.view(), #[trigger] all[j]),
            views(r@) == rendered_all(naming.view(), all.take(i as int)),
        decreases args@.len() - i,
    {
        proof {
            let next = all.take(i + 1);
            assert(next.drop_last() =~= all.take(i as int));
            assert(next[next.len() - 1] == args@[i as int]@);
            assert(renderable(naming.view(), all[i as int]));
        }
        let ghost before = r@;
        r.push(render(naming, &args[i]));
        assert(views(r@) =~= views(before).push(r@.last()@));
        i += 1;
    }
    assert(all.take(i as int) =~= all);
    r
}

/// The expression in SQL, columns by their names alone. It follows no
/// relationship.
pub fn render_expr_sql(expr: &Expr) -> (r: String)
    requires
        renderable(NamingView::Plain, expr@),
    ensures
        r@ == rendered(NamingView::Plain, expr@),
{
    render(Naming::Plain, expr)
}

/// The expression in SQL over a source that is joined to each relationship
/// that the expression follows.
pub fn render_to_one_rel_expr_sql(expr: &Expr, source_sql: &str) -> (r: String)
    requires
        renderable((NamingView::Joined { source_sql: source_sql@ }), expr@),
    ensures
        r@ == rendered((NamingView::Joined { source_sql: source_sql@ }), expr@),
{
    render(Naming::Joined { source_sql }, expr)
}

/// The expression in SQL over a source that is joined to each relationship
/// that the expression follows, with aggregates over relationships as queries
/// of their own.
pub fn render_rel_expr_sql(
    expr: &Expr,
    source: &str,
    relationships: &NameMap<RelationshipDef>,
) -> (r: String)
    requires
        renderable(
            (NamingView::Related {
                source: source@,
                relationships: relationship_views(relationships@),
            }),
            expr@,
        ),
    ensures
        r@ == rendered(
            (NamingView::Related {
                source: source@,
                relationships: relationship_views(relationships@),
            }),
            expr@,
        ),
{
    render(Naming::Related { source, relationships }, expr)
}

// ---------------------------------------------------------------------------
// The relationships that are joined
// ---------------------------------------------------------------------------

/// The relationships that the expression follows, in order. Where `to_one`
/// is set, those that it only aggregates over are left out.
pub open spec fn followed(e: ExprView, to_one: bool) -> Seq<Seq<char>>
    decreases e, 0nat,
{
    match e {
        ExprView::RelationshipPath { rel, column } => seq![rel],
        ExprView::BinaryOp { op, lhs, rhs } => followed(*lhs, to_one) + followed(*rhs, to_one),
        ExprView::FunctionCall { name, args } => if to_one && aggregates_path(name, args) {
            seq![]
        } else {
            followed_by_all(args, to_one)
        },
        _ => seq![],
    }
}

/// The relationships that the expressions follow, in order.
pub open spec fn followed_by_all(es: Seq<ExprView>, to_one: bool) -> Seq<Seq<char>>
    decreases es, 1nat,
{
    if es.len() == 0 {
        seq![]
    } else {
        followed_by_all(es.drop_last(), to_one) + followed(es[es.len() - 1], to_one)
    }
}

fn collect_rel_names(expr: &Expr, to_one: bool, out: &mut Vec<String>)
    ensures
        views(final(out)@) == views(old(out)@) + followed(expr@, to_one),
    decreases *expr, 0nat,
{
    let ghost before = views(out@);
    match expr {
        Expr::RelationshipPath { rel, .. } => {
            out.push(rel.clone());
            assert(views(out@) =~= before + seq![rel@]);
        },
        Expr::BinaryOp { lhs, rhs, .. } => {
            collect_rel_names(lhs, to_one, out);
            collect_rel_names(rhs, to_one, out);
            assert(views(out@) =~= before + followed(expr@, to_one));
        },
        Expr::FunctionCall { name, args } => {
            proof {
                call_view(*name, *args);
            }
            if to_one && args.len() == 1 && registry::is_aggregate_function(name.as_str()) {
                assert(expr_views(args@)[0] == args@[0]@);
                if let Expr::RelationshipPath { .. } = &args[0] {
                    assert(views(out@) =~= before + seq![]);
                    return;
                }
            }
            collect_all_rel_names(args, to_one, out);
        },
        _ => {
            assert(views(out@) =~= before + seq![]);
        },
    }
}

fn collect_all_rel_names(args: &Vec<Expr>, to_one: bool, out: &mut Vec<String>)
    ensures
        views(final(out)@) == views(old(out)@) + followed_by_all(expr_views(args@), to_one),
    decreases *args, 1nat,
{
    let ghost before = views(out@);
    let ghost all = expr_views(args@);
    assert(views(out@) =~= before + followed_by_all(all.take(0), to_one));
    let mut i: usize = 0;
    while i < args.len()
        invariant
            0 <= i <= args@.len(),
            all == expr_views(args@),
            views(out@) == before + followed_by_all(all.take(i as int), to_one),
        decreases args@.len() - i,
    {
        collect_rel_names(&args[i], to_one, out);
        proof {
            let next = all.take(i + 1);
            assert(next.drop_last() =~= all.take(i as int));
            assert(next[next.len() - 1] == args@[i as int]@);
            assert(views(out@) =~= before + followed_by_all(next, to_one));
        }
        i += 1;
    }
    assert(all.take(i as int) =~= all);
}

/// One join of a source to the row behind a relationship.
#[derive(Debug)]
pub struct ToOneJoin {
    pub rel: String,
    pub to_table: String,
    pub to_col: String,
    pub from_col: String,
}

/// What a [`ToOneJoin`] stands for.
#[verifier::ext_equal]
pub struct ToOneJoinView {
    pub rel: Seq<char>,
    pub to_table: Seq<char>,
    pub to_col: Seq<char>,
    pub from_col: Seq<char>,
}

impl View for ToOneJoin {
    type V = ToOneJoinView;

    open spec fn view(&self) -> ToOneJoinView {
        ToOneJoinView {
            rel: self.rel@,
            to_table: self.to_table@,
            to_col: self.to_col@,
            from_col: self.from_col@,
        }
    }
}

/// The views of a list of joins.
pub open spec fn join_views(s: Seq<ToOneJoin>) -> Seq<ToOneJoinView> {
    s.map_values(|j: ToOneJoin| j@)
}

/// One join in SQL. It keeps source rows that have no row behind the
/// relationship.
pub open spec fn join_sql(j: ToOneJoinView, source_sql: Seq<char>) -> Seq<char> {
    " left join "@ + quoted_ident(j.to_table) + " as "@ + quoted_ident(j.rel) + " on "@
        + quoted_pair(j.rel, j.to_col) + " = "@ + source_sql + "."@ + quoted_ident(j.from_col)
}

/// The joins in SQL, one after another.
pub open spec fn joins_sql(joins: Seq<ToOneJoinView>, source_sql: Seq<char>) -> Seq<char>
    decreases joins.len(),
{
    if joins.len() == 0 {
        seq![]
    } else {
        joins_sql(joins.drop_last(), source_sql) + join_sql(joins.last(), source_sql)
    }
}

fn to_one_join_clause(j: &ToOneJoin, source_sql: &str) -> (r: String)
    ensures
        r@ == join_sql(j@, source_sql@),
{
    let mut r = text::owned(" left join ");
    r.append(sql::quote_ident(j.to_table.as_str()).as_str());
    r.append(" as ");
    r.append(sql::quote_ident(j.rel.as_str()).as_str());
    r.append(" on ");
    r.append(sql::quote_pair(j.rel.as_str(), j.to_col.as_str()).as_str());
    r.append(" = ");
    r.append(source_sql);
    r.append(".");
    r.append(sql::quote_ident(j.from_col.as_str()).as_str());
    r
}

/// The joins in SQL, one after another.
pub fn to_one_join_clauses(joins: &Vec<ToOneJoin>, source_sql: &str) -> (r: String)
    ensures
        r@ == joins_sql(join_views(joins@), source_sql@),
{
    let ghost js = join_views(joins@);
    let mut r = String::new();
    assert(r@ =~= seq![]);
    let mut i: usize = 0;
    while i < joins.len()
        invariant
            0 <= i <= joins@.len(),
            js == join_views(joins@),
            r@ == joins_sql(js.take(i as int), source_sql@),
        decreases joins@.len() - i,
    {
        r.append(to_one_join_clause(&joins[i], source_sql).as_str());
        proof {
            assert(js[i as int] == joins@[i as int]@);
            assert(js.take(i + 1).drop_last() =~= js.take(i as int));
        }
        i += 1;
    }
    assert(js.take(i as int) =~= js);
    r
}

/// The join to the relationship `rel`.
pub open spec fn join_of(rel: Seq<char>, r: RelationshipDefView) -> ToOneJoinView {
    ToOneJoinView { rel, to_table: r.to_table, to_col: r.to_col, from_col: r.from_col }
}

/// The joins to the named relationships.
pub open spec fn joins_of(
    names: Seq<Seq<char>>,
    relationships: Map<Seq<char>, RelationshipDefView>,
) -> Seq<ToOneJoinView> {
    names.map_values(|n: Seq<char>| join_of(n, relationships[n]))
}

fn resolve_joins(names: &Vec<String>, relationships: &NameMap<RelationshipDef>) -> (r: Vec<
    ToOneJoin,
>)
    requires
        forall|i: int|
            0 <= i < names@.len() ==> relationships@.contains_key(#[trigger] names@[i]@),
    ensures
        join_views(r@) == joins_of(views(names@), relationship_views(relationships@)),
{
    let ghost rs = relationship_views(relationships@);
    let mut r: Vec<ToOneJoin> = Vec::new();
    let mut i: usize = 0;
    while i < names.len()
        invariant
            0 <= i <= names@.len(),
            rs == relationship_views(relationships@),
            forall|j: int|
                0 <= j < names@.len() ==> relationships@.contains_key(#[trigger] names@[j]@),
            r@.len() == i,
            forall|j: int|
                0 <= j < i ==> (#[trigger] r@[j])@ == join_of(names@[j]@, rs[names@[j]@]),
        decreases names@.len() - i,
    {
        assert(relationships@.contains_key(names@[i as int]@));
        match relationships.get(names[i].as_str()) {
            Some(relationship) => {
                r.push(
                    ToOneJoin {
                        rel: names[i].clone(),
                        to_table: relationship.to_table.clone(),
                        to_col: relationship.to_col.clone(),
                        from_col: relationship.from_col.clone(),
                    },
                );
            },
            None => {},
        }
        i += 1;
    }
    assert(join_views(r@) =~= joins_of(views(names@), rs));
    r
}

// ---------------------------------------------------------------------------
// Queries
// ---------------------------------------------------------------------------

/// The source table in SQL, with its schema where the definition names one.
pub open spec fn source_from(def: TransformDefView) -> Seq<char> {
    match def.explicit_source_schema {
        Some(schema) => quoted_pair(schema, def.source),
        None => quoted_ident(def.source),
    }
}

/// The source table in SQL.
pub fn quoted_source_from(def: &TransformDef) -> (r: String)
    ensures
        r@ == source_from(def@),
{
    match &def.explicit_source_schema {
        Some(schema) => sql::quote_pair(schema.as_str(), def.source.as_str()),
        None => sql::quote_ident(def.source.as_str()),
    }
}

/// `<expression> as <name>`.
pub open spec fn item_sql(naming: NamingView, e: ExprView, name: Seq<char>) -> Seq<char> {
    rendered(naming, e) + " as "@ + quoted_ident(name)
}

/// The fields as items of a select list.
pub open spec fn field_items(
    naming: NamingView,
    exprs: Seq<ExprView>,
    fields: Seq<FieldDefView>,
) -> Seq<Seq<char>> {
    Seq::new(fields.len(), |i: int| item_sql(naming, exprs[i], fields[i].name))
}

/// The keys in SQL.
pub open spec fn key_items(naming: NamingView, keys: Seq<GroupByKeyView>) -> Seq<Seq<char>> {
    keys.map_values(|k: GroupByKeyView| rendered(naming, k.as_expr()))
}

fn render_item(naming: Naming, expr: &Expr, name: &str) -> (r: String)
    requires
        renderable(naming.view(), expr@),
    ensures
        r@ == item_sql(naming.view(), expr@, name@),
{
    let mut r = render(naming, expr);
    r.append(" as ");
    r.append(sql::quote_ident(name).as_str());
    r
}

fn render_items(naming: Naming, exprs: &Vec<Expr>, fields: &Vec<FieldDef>) -> (r: Vec<String>)
    requires
        exprs@.len() == fields@.len(),
        forall|i: int| 0 <= i < exprs@.len() ==> renderable(naming.view(), (#[trigger] exprs@[i])@),
    ensures
        views(r@) == field_items(naming.view(), expr_views(exprs@), field_views(fields@)),
{
    let mut r: Vec<String> = Vec::new();
    let mut i: usize = 0;
    while i < fields.len()
        invariant
            0 <= i <= fields@.len(),
            exprs@.len() == fields@.len(),
            forall|j: int|
                0 <= j < exprs@.len() ==> renderable(naming.view(), (#[trigger] exprs@[j])@),
            r@.len() == i,
            forall|j: int|
                0 <= j < i ==> (#[trigger] r@[j])@ == item_sql(
                    naming.view(),
                    exprs@[j]@,
                    fields@[j]@.name,
                ),
        decreases fields@.len() - i,
    {
        r.push(render_item(naming, &exprs[i], fields[i].name.as_str()));
        i += 1;
    }
    assert(views(r@) =~= field_items(naming.view(), expr_views(exprs@), field_views(fields@)));
    r
}

fn render_keys(naming: Naming, keys: &Vec<GroupByKey>) -> (r: Vec<String>)
    requires
        forall|i: int|
            0 <= i < keys@.len() ==> renderable(
                naming.view(),
                (#[trigger] key_views(keys@)[i]).as_expr(),
            ),
    ensures
        views(r@) == key_items(naming.view(), key_views(keys@)),
{
    let ghost ks = key_views(keys@);
    let mut r: Vec<String> = Vec::new();
    let mut i: usize = 0;
    while i < keys.len()
        invariant
            0 <= i <= keys@.len(),
            ks == key_views(keys@),
            forall|j: int|
                0 <= j < keys@.len() ==> renderable(naming.view(), (#[trigger] ks[j]).as_expr()),
            r@.len() == i,
            forall|j: int|
                0 <= j < i ==> (#[trigger] r@[j])@ == rendered(naming.view(), ks[j].as_expr()),
        decreases keys@.len() - i,
    {
        assert(ks[i as int] == keys@[i as int]@);
        r.push(render(naming, &keys[i].as_expr()));
        i += 1;
    }
    assert(views(r@) =~= key_items(naming.view(), ks));
    r
}

/// Field `i` in terms of source columns; of fields that share a name, the last
/// one counts.
pub open spec fn shown(fields: Seq<FieldDefView>, i: int) -> Option<ExprView> {
    match field_at(fields, fields[i].name) {
        Some(j) => substituted_field(fields, j),
        None => None,
    }
}

/// Every field in terms of source columns.
pub open spec fn all_shown(fields: Seq<FieldDefView>) -> Seq<ExprView> {
    Seq::new(fields.len(), |i: int| shown(fields, i)->0)
}

fn substitute_fields(fields: &Vec<FieldDef>) -> (r: Vec<Expr>)
    requires
        forall|i: int|
            0 <= i < fields@.len() ==> (#[trigger] shown(field_views(fields@), i)) is Some,
    ensures
        r@.len() == fields@.len(),
        expr_views(r@) == all_shown(field_views(fields@)),
{
    let ghost fs = field_views(fields@);
    let mut r: Vec<Expr> = Vec::new();
    let mut i: usize = 0;
    while i < fields.len()
        invariant
            0 <= i <= fields@.len(),
            fs == field_views(fields@),
            forall|j: int| 0 <= j < fields@.len() ==> (#[trigger] shown(fs, j)) is Some,
            r@.len() == i,
            forall|j: int| 0 <= j < i ==> shown(fs, j) == Some((#[trigger] r@[j])@),
        decreases fields@.len() - i,
    {
        assert(shown(fs, i as int) is Some);
        assert(fs[i as int] == fields@[i as int]@);
        match find_field(fields, fields[i].name.as_str()) {
            Some(j) => match substitute_field(fields, j) {
                Some(e) => {
                    r.push(e);
                },
                None => {},
            },
            None => {},
        }
        i += 1;
    }
    assert(expr_views(r@) =~= all_shown(fs));
    r
}

/// A grouped definition that can be spelled as a query: every field can be
/// written in terms of source columns.
pub open spec fn group_renderable(def: TransformDefView, naming: NamingView) -> bool {
    &&& forall|i: int| 0 <= i < def.fields.len() ==> (#[trigger] shown(def.fields, i)) is Some
    &&& forall|i: int|
        0 <= i < def.fields.len() ==> renderable(naming, #[trigger] all_shown(def.fields)[i])
    &&& match def.key_space {
        KeySpaceView::Aggregate { group_by } => forall|i: int|
            0 <= i < group_by.len() ==> renderable(naming, (#[trigger] group_by[i]).as_expr()),
        KeySpaceView::OneToOne => false,
    }
}

/// The query that computes a grouped definition.
pub open spec fn aggregate_select(def: TransformDefView) -> Seq<char> {
    "select "@ + joined(
        field_items(NamingView::Plain, all_shown(def.fields), def.fields),
        ", "@,
    ) + " from "@ + source_from(def) + " group by "@ + joined(
        key_items(NamingView::Plain, def.key_space->group_by),
        ", "@,
    )
}

/// The query that computes a grouped definition which follows no
/// relationship.
pub fn render_aggregate_select_sql(def: &TransformDef) -> (r: String)
    requires
        group_renderable(def@, NamingView::Plain),
    ensures
        r@ == aggregate_select(def@),
{
    let none: Vec<GroupByKey> = Vec::new();
    let group_by = match &def.key_space {
        KeySpace::Aggregate { group_by } => group_by,
        KeySpace::OneToOne => &none,
    };
    let exprs = substitute_fields(&def.fields);
    assert forall|i: int| 0 <= i < exprs@.len() implies renderable(
        NamingView::Plain,
        (#[trigger] exprs@[i])@,
    ) by {
        assert(expr_views(exprs@)[i] == exprs@[i]@);
        assert(renderable(NamingView::Plain, all_shown(def@.fields)[i]));
    }
    let items = render_items(Naming::Plain, &exprs, &def.fields);
    let keys = render_keys(Naming::Plain, group_by);
    let mut r = text::owned("select ");
    r.append(text::join(&items, ", ").as_str());
    r.append(" from ");
    r.append(quoted_source_from(def).as_str());
    r.append(" group by ");
    r.append(text::join(&keys, ", ").as_str());
    r
}

/// The relationships that a grouped definition follows.
pub open spec fn group_followed(def: TransformDefView) -> Seq<Seq<char>> {
    followed_by_all(all_shown(def.fields), false) + followed_by_all(
        key_exprs(def.key_space->group_by),
        false,
    )
}

/// The keys as expressions.
pub open spec fn key_exprs(keys: Seq<GroupByKeyView>) -> Seq<ExprView> {
    keys.map_values(|k: GroupByKeyView| k.as_expr())
}

/// The query that computes a grouped definition, with a join for each
/// relationship that it follows, by name.
pub open spec fn aggregate_relationship_select(
    def: TransformDefView,
    relationships: Map<Seq<char>, RelationshipDefView>,
) -> Seq<char> {
    let source_sql = source_from(def);
    let naming = NamingView::Joined { source_sql };
    "select "@ + joined(field_items(naming, all_shown(def.fields), def.fields), ", "@) + " from "@
        + source_sql + joins_sql(
        joins_of(sorted_names(group_followed(def)), relationships),
        source_sql,
    ) + " group by "@ + joined(key_items(naming, def.key_space->group_by), ", "@)
}

/// The query that computes a grouped definition, with a join for each
/// relationship that it follows.
pub fn render_aggregate_relationship_select_sql(
    def: &TransformDef,
    relationships: &NameMap<RelationshipDef>,
) -> (r: String)
    requires
        group_renderable(def@, (NamingView::Joined { source_sql: source_from(def@) })),
        forall|n: Seq<char>| #[trigger]
            group_followed(def@).contains(n) ==> relationships@.contains_key(n),
    ensures
        r@ == aggregate_relationship_select(def@, relationship_views(relationships@)),
{
    let none: Vec<GroupByKey> = Vec::new();
    let group_by = match &def.key_space {
        KeySpace::Aggregate { group_by } => group_by,
        KeySpace::OneToOne => &none,
    };
    let source_sql = quoted_source_from(def);
    let naming = Naming::Joined { source_sql: source_sql.as_str() };
    let exprs = substitute_fields(&def.fields);
    assert forall|i: int| 0 <= i < exprs@.len() implies renderable(
        naming.view(),
        (#[trigger] exprs@[i])@,
    ) by {
        assert(expr_views(exprs@)[i] == exprs@[i]@);
        assert(renderable(naming.view(), all_shown(def@.fields)[i]));
    }
    let items = render_items(naming, &exprs, &def.fields);
    let keys = render_keys(naming, group_by);
    let mut found: Vec<String> = Vec::new();
    collect_all_rel_names(&exprs, false, &mut found);
    let ghost of_fields = views(found@);
    let ghost ks = key_views(group_by@);
    proof {
        assert(of_fields =~= followed_by_all(all_shown(def@.fields), false));
        assert(of_fields + followed_by_all(key_exprs(ks).take(0), false) =~= of_fields);
    }
    let mut i: usize = 0;
    while i < group_by.len()
        invariant
            0 <= i <= group_by@.len(),
            ks == key_views(group_by@),
            views(found@) == of_fields + followed_by_all(key_exprs(ks).take(i as int), false),
        decreases group_by@.len() - i,
    {
        let key = group_by[i].as_expr();
        collect_rel_names(&key, false, &mut found);
        proof {
            let next = key_exprs(ks).take(i + 1);
            assert(next.drop_last() =~= key_exprs(ks).take(i as int));
            assert(ks[i as int] == group_by@[i as int]@);
            assert(next[next.len() - 1] == key@);
            assert(views(found@) =~= of_fields + followed_by_all(next, false));
        }
        i += 1;
    }
    assert(key_exprs(ks).take(i as int) =~= key_exprs(ks));
    assert(views(found@) == group_followed(def@));
    let names = ordered::sort_names(&found);
    proof {
        ordered::sorted_names_are_sorted(group_followed(def@));
        assert forall|j: int| 0 <= j < names@.len() implies relationships@.contains_key(
            #[trigger] names@[j]@,
        ) by {
            assert(views(names@)[j] == names@[j]@);
            assert(views(names@).contains(names@[j]@));
            assert(group_followed(def@).contains(names@[j]@));
        }
    }
    let joins = resolve_joins(&names, relationships);
    let mut r = text::owned("select ");
    r.append(text::join(&items, ", ").as_str());
    r.append(" from ");
    r.append(source_sql.as_str());
    r.append(to_one_join_clauses(&joins, source_sql.as_str()).as_str());
    r.append(" group by ");
    r.append(text::join(&keys, ", ").as_str());
    r
}

/// The relationships that the fields follow to one row.
pub open spec fn fields_followed(fields: Seq<FieldDefView>) -> Seq<Seq<char>>
    decreases fields.len(),
{
    if fields.len() == 0 {
        seq![]
    } else {
        fields_followed(fields.drop_last()) + followed(fields.last().expr, true)
    }
}

/// The expressions of the fields.
pub open spec fn field_exprs(fields: Seq<FieldDefView>) -> Seq<ExprView> {
    fields.map_values(|f: FieldDefView| f.expr)
}

/// One join of a definition's source in SQL.
pub open spec fn source_join_sql(source: Seq<char>, j: ToOneJoinView) -> Seq<char> {
    " left join "@ + quoted_ident(j.to_table) + " as "@ + quoted_ident(j.rel) + " on "@
        + quoted_pair(source, j.from_col) + " = "@ + quoted_pair(j.rel, j.to_col)
}

/// The joins of a definition's source in SQL, one after another.
pub open spec fn source_joins_sql(source: Seq<char>, joins: Seq<ToOneJoinView>) -> Seq<char>
    decreases joins.len(),
{
    if joins.len() == 0 {
        seq![]
    } else {
        source_joins_sql(source, joins.drop_last()) + source_join_sql(source, joins.last())
    }
}

fn source_join_clause(source: &str, j: &ToOneJoin) -> (r: String)
    ensures
        r@ == source_join_sql(source@, j@),
{
    let mut r = text::owned(" left join ");
    r.append(sql::quote_ident(j.to_table.as_str()).as_str());
    r.append(" as ");
    r.append(sql::quote_ident(j.rel.as_str()).as_str());
    r.append(" on ");
    r.append(sql::quote_pair(source, j.from_col.as_str()).as_str());
    r.append(" = ");
    r.append(sql::quote_pair(j.rel.as_str(), j.to_col.as_str()).as_str());
    r
}

fn source_join_clauses(source: &str, joins: &Vec<ToOneJoin>) -> (r: String)
    ensures
        r@ == source_joins_sql(source@, join_views(joins@)),
{
    let ghost js = join_views(joins@);
    let mut r = String::new();
    assert(r@ =~= seq![]);
    let mut i: usize = 0;
    while i < joins.len()
        invariant
            0 <= i <= joins@.len(),
            js == join_views(joins@),
            r@ == source_joins_sql(source@, js.take(i as int)),
        decreases joins@.len() - i,
    {
        r.append(source_join_clause(source, &joins[i]).as_str());
        proof {
            assert(js[i as int] == joins@[i as int]@);
            assert(js.take(i + 1).drop_last() =~= js.take(i as int));
        }
        i += 1;
    }
    assert(js.take(i as int) =~= js);
    r
}

/// The query that computes a definition over single rows, with a join for
/// each relationship that it follows to one row, by name.
pub open spec fn relationship_select(
    def: TransformDefView,
    relationships: Map<Seq<char>, RelationshipDefView>,
) -> Seq<char> {
    let naming = NamingView::Related { source: def.source, relationships };
    "select "@ + joined(field_items(naming, field_exprs(def.fields), def.fields), ", "@) + " from "@
        + source_from(def) + source_joins_sql(
        def.source,
        joins_of(sorted_names(fields_followed(def.fields)), relationships),
    )
}

/// The query that computes a definition over single rows: a relationship that
/// leads to one row becomes a join, an aggregate over one that leads to many
/// a query of its own.
pub fn render_relationship_select_sql(
    def: &TransformDef,
    relationships: &NameMap<RelationshipDef>,
) -> (r: String)
    requires
        def@.key_space is OneToOne,
        forall|i: int|
            0 <= i < def@.fields.len() ==> renderable(
                (NamingView::Related {
                    source: def@.source,
                    relationships: relationship_views(relationships@),
                }),
                (#[trigger] def@.fields[i]).expr,
            ),
        forall|n: Seq<char>| #[trigger]
            fields_followed(def@.fields).contains(n) ==> relationships@.contains_key(n),
    ensures
        r@ == relationship_select(def@, relationship_views(relationships@)),
{
    let ghost fs = def@.fields;
    let naming = Naming::Related { source: def.source.as_str(), relationships };
    let mut found: Vec<String> = Vec::new();
    let mut items: Vec<String> = Vec::new();
    assert(views(found@) =~= seq![]);
    let mut i: usize = 0;
    while i < def.fields.len()
        invariant
            0 <= i <= def.fields@.len(),
            fs == def@.fields,
            fs.len() == def.fields@.len(),
            forall|j: int|
                0 <= j < fs.len() ==> renderable(naming.view(), (#[trigger] fs[j]).expr),
            views(found@) == fields_followed(fs.take(i as int)),
            items@.len() == i,
            forall|j: int|
                0 <= j < i ==> (#[trigger] items@[j])@ == item_sql(
                    naming.view(),
                    fs[j].expr,
                    fs[j].name,
                ),
        decreases def.fields@.len() - i,
    {
        let f = &def.fields[i];
        proof {
            assert(fs[i as int] == f@);
            assert(fs.take(i + 1).drop_last() =~= fs.take(i as int));
        }
        collect_rel_names(&f.expr, true, &mut found);
        items.push(render_item(naming, &f.expr, f.name.as_str()));
        i += 1;
    }
    proof {
        assert(fs.take(i as int) =~= fs);
        assert(views(items@) =~= field_items(naming.view(), field_exprs(fs), fs));
    }
    let names = ordered::sort_names(&found);
    proof {
        ordered::sorted_names_are_sorted(fields_followed(fs));
        assert forall|j: int| 0 <= j < names@.len() implies relationships@.contains_key(
            #[trigger] names@[j]@,
        ) by {
            assert(views(names@)[j] == names@[j]@);
            assert(views(names@).contains(names@[j]@));
            assert(fields_followed(fs).contains(names@[j]@));
        }
    }
    let joins = resolve_joins(&names, relationships);
    let mut r = text::owned("select ");
    r.append(text::join(&items, ", ").as_str());
    r.append(" from ");
    r.append(quoted_source_from(def).as_str());
    r.append(source_join_clauses(def.source.as_str(), &joins).as_str());
    r
}

// ---------------------------------------------------------------------------
// Source columns
// ---------------------------------------------------------------------------

/// `r` is a source column that some field reads: a field names it, and it is
/// not the name of another field.
pub open spec fn reads_column(fields: Seq<FieldDefView>, r: Seq<char>) -> bool {
    exists|i: int|
        0 <= i < fields.len() && references((#[trigger] fields[i]).expr).contains(r) && (r
            == fields[i].name || !is_field(fields, r))
}

/// The source columns that the fields read, each once.
pub fn referenced_source_columns(def: &TransformDef) -> (r: Vec<String>)
    ensures
        forall|n: Seq<char>| views(r@).contains(n) <==> #[trigger] reads_column(def@.fields, n),
        views(r@).no_duplicates(),
{
    let ghost fs = def@.fields;
    let mut columns: Vec<String> = Vec::new();
    let mut i: usize = 0;
    assert forall|n: Seq<char>| views(columns@).contains(n) <==> #[trigger] reads_among(
        fs,
        0,
        n,
    ) by {}
    while i < def.fields.len()
        invariant
            0 <= i <= def.fields@.len(),
            fs == def@.fields,
            fs.len() == def.fields@.len(),
            views(columns@).no_duplicates(),
            forall|n: Seq<char>|
                views(columns@).contains(n) <==> #[trigger] reads_among(fs, i as int, n),
        decreases def.fields@.len() - i,
    {
        let f = &def.fields[i];
        assert(fs[i as int] == f@);
        let mut refs: Vec<String> = Vec::new();
        assert(views(refs@) =~= seq![]);
        collect_columns(&f.expr, &mut refs);
        let ghost rs = references(f@.expr);
        assert(views(refs@) =~= rs);
        let mut k: usize = 0;
        assert forall|n: Seq<char>|
            views(columns@).contains(n) <==> #[trigger] gathered(fs, i as int, 0, n) by {
            assert(views(columns@).contains(n) <==> reads_among(fs, i as int, n));
        }
        while k < refs.len()
            invariant
                0 <= k <= refs@.len(),
                i < def.fields@.len(),
                fs == def@.fields,
                fs.len() == def.fields@.len(),
                fs[i as int] == f@,
                rs == references(f@.expr),
                views(refs@) == rs,
                views(columns@).no_duplicates(),
                forall|n: Seq<char>|
                    views(columns@).contains(n) <==> #[trigger] gathered(fs, i as int, k as int, n),
            decreases refs@.len() - k,
        {
            let name = &refs[k];
            let ghost before = columns@;
            proof {
                assert(rs[k as int] == name@);
                field_at_finds(fs, name@);
            }
            let wanted = text::same(name.as_str(), f.name.as_str()) || find_field(
                &def.fields,
                name.as_str(),
            ).is_none();
            if wanted && !text::is_in(name.as_str(), &columns) {
                columns.push(name.clone());
                assert(views(columns@) =~= views(before).push(name@));
            }
            proof {
                assert forall|n: Seq<char>|
                    views(columns@).contains(n) <==> #[trigger] gathered(fs, i as int, k + 1, n) by {
                    take_next_contains(rs, k as int, n);
                    assert(views(before).contains(n) <==> gathered(fs, i as int, k as int, n));
                    assert(wanted == (name@ == f@.name || !is_field(fs, name@)));
                    if wanted && !views(before).contains(name@) {
                        push_contains(views(before), name@, n);
                        assert(views(columns@) == views(before).push(name@));
                    } else {
                        assert(columns@ == before);
                    }
                }
            }
            k += 1;
        }
        proof {
            assert(rs.take(k as int) =~= rs);
            assert forall|n: Seq<char>|
                views(columns@).contains(n) <==> #[trigger] reads_among(fs, i + 1, n) by {
                reads_among_next(fs, i as int, n);
                assert(views(columns@).contains(n) <==> gathered(fs, i as int, k as int, n));
            }
        }
        i += 1;
    }
    proof {
        assert forall|n: Seq<char>| views(columns@).contains(n) <==> #[trigger] reads_column(
            fs,
            n,
        ) by {
            assert(reads_among(fs, i as int, n) == reads_column(fs, n));
        }
    }
    columns
}

/// One of the first `k` fields reads the column.
spec fn reads_among(fields: Seq<FieldDefView>, k: int, r: Seq<char>) -> bool {
    exists|i: int|
        0 <= i < k && references((#[trigger] fields[i]).expr).contains(r) && (r == fields[i].name
            || !is_field(fields, r))
}

/// One of the first `i` fields reads the column, or field `i` does in one of
/// its first `k` references.
spec fn gathered(fields: Seq<FieldDefView>, i: int, k: int, r: Seq<char>) -> bool {
    reads_among(fields, i, r) || (references(fields[i].expr).take(k).contains(r) && (r
        == fields[i].name || !is_field(fields, r)))
}

proof fn reads_among_next(fields: Seq<FieldDefView>, k: int, r: Seq<char>)
    requires
        0 <= k < fields.len(),
    ensures
        reads_among(fields, k + 1, r) <==> reads_among(fields, k, r) || (references(
            fields[k].expr,
        ).contains(r) && (r == fields[k].name || !is_field(fields, r))),
{
    if reads_among(fields, k + 1, r) {
        let i = choose|i: int|
            0 <= i < k + 1 && references((#[trigger] fields[i]).expr).contains(r) && (r
                == fields[i].name || !is_field(fields, r));
        if i < k {
            assert(reads_among(fields, k, r));
        }
    }
    if reads_among(fields, k, r) {
        let i = choose|i: int|
            0 <= i < k && references((#[trigger] fields[i]).expr).contains(r) && (r
                == fields[i].name || !is_field(fields, r));
        assert(references(fields[i].expr).contains(r));
    }
}

proof fn take_next_contains(s: Seq<Seq<char>>, k: int, n: Seq<char>)
    requires
        0 <= k < s.len(),
    ensures
        s.take(k + 1).contains(n) <==> s.take(k).contains(n) || n == s[k],
{
    assert(s.take(k + 1) =~= s.take(k).push(s[k]));
    push_contains(s.take(k), s[k], n);
}

proof fn push_contains(s: Seq<Seq<char>>, x: Seq<char>, n: Seq<char>)
    ensures
        s.push(x).contains(n) <==> s.contains(n) || n == x,
{
    if s.contains(n) {
        assert(s.push(x)[s.index_of(n)] == n);
    }
    if n == x {
        assert(s.push(x)[s.len() as int] == n);
    }
    if s.push(x).contains(n) && n != x {
        assert(s[s.push(x).index_of(n)] == n);
    }
}

} // verus!
