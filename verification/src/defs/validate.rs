//! Whether a definition makes sense for the tables it names.

use vstd::prelude::*;

use crate::defs::ast::{
    call_view, expr_views, key_views, Expr, ExprView, FieldDefView, GroupByKey, GroupByKeyView,
    KeySpace, KeySpaceView, Predicate, TransformDef, TransformDefView, ValueType, ValueTypeView,
};
use crate::defs::deps::{
    collect_columns, cyclic, detect_cycle, distinct_names, field_at_finds, find_field, is_field,
    references, runs_into_itself,
};
use crate::defs::model::RelationshipCardinality;
use crate::defs::pg_type::PgType;
use crate::defs::registry;
use crate::defs::registry::aggregate_named;
use crate::defs::typing::{
    field_types, infer_field_types, inference_is_clear, scope, Scope,
};
use crate::defs::validation_error::ValidationErrorView;
use crate::names::NameMap;
use crate::temporal;
use crate::text;
use crate::text::views;

pub use crate::defs::typing::ResolvedRelationship;
pub use crate::defs::validation_error::{
    RelationshipTypeMismatch, RelationshipWarning, ValidationError,
};

verus! {

/// The first problem that `f` finds at the positions from `i` up to `n`.
pub open spec fn first_problem(
    i: int,
    n: int,
    f: spec_fn(int) -> Option<ValidationErrorView>,
) -> Option<ValidationErrorView>
    decreases n - i,
{
    if i >= n {
        None
    } else {
        match f(i) {
            Some(e) => Some(e),
            None => first_problem(i + 1, n, f),
        }
    }
}

/// `first`, or `second` where there is none.
pub open spec fn or_else(
    first: Option<ValidationErrorView>,
    second: Option<ValidationErrorView>,
) -> Option<ValidationErrorView> {
    match first {
        Some(e) => Some(e),
        None => second,
    }
}

/// What a check came to: nothing, or the problem it was looking for.
spec fn finds(r: Result<(), ValidationError>, expected: Option<ValidationErrorView>) -> bool {
    match r {
        Ok(_) => expected is None,
        Err(e) => expected == Some(e@),
    }
}

// ---------------------------------------------------------------------------
// One row for each source row
// ---------------------------------------------------------------------------

/// A field that has the name of a source column is that column.
pub open spec fn shadowing(c: Scope) -> spec_fn(int) -> Option<ValidationErrorView> {
    |i: int|
        {
            let f = c.fields[i];
            if c.columns.contains_key(f.name) && f.expr != ExprView::Column(f.name) {
                Some(ValidationErrorView::CalculatedFieldShadowsSourceColumn { field: f.name })
            } else {
                None
            }
        }
}

/// Whether `expr` is the bare column `name`.
fn is_column(expr: &Expr, name: &str) -> (r: bool)
    ensures
        r == (expr@ == ExprView::Column(name@)),
{
    match expr {
        Expr::Column(n) => text::same(n.as_str(), name),
        _ => false,
    }
}

fn check_shadowing(
    def: &TransformDef,
    columns: &NameMap<ValueType>,
    c: Ghost<Scope>,
) -> (r: Result<(), ValidationError>)
    requires
        c@.fields == def@.fields,
        c@.columns.dom() == columns@.dom(),
    ensures
        finds(r, first_problem(0, c@.fields.len() as int, shadowing(c@))),
{
    let mut i: usize = 0;
    while i < def.fields.len()
        invariant
            0 <= i <= def.fields@.len(),
            c@.fields == def@.fields,
            c@.columns.dom() == columns@.dom(),
            first_problem(0, c@.fields.len() as int, shadowing(c@)) == first_problem(
                i as int,
                c@.fields.len() as int,
                shadowing(c@),
            ),
        decreases def.fields@.len() - i,
    {
        let field = &def.fields[i];
        assert(c@.fields[i as int] == field@);
        if columns.contains_key(field.name.as_str()) && !is_column(
            &field.expr,
            field.name.as_str(),
        ) {
            return Err(
                ValidationError::CalculatedFieldShadowsSourceColumn { field: field.name.clone() },
            );
        }
        i += 1;
    }
    Ok(())
}

// ---------------------------------------------------------------------------
// One row for each group
// ---------------------------------------------------------------------------

/// The types of which equal values are always spelled the same, and `numeric`.
pub open spec fn groupable(t: ValueTypeView) -> bool {
    match t {
        ValueTypeView::Float(_) => false,
        ValueTypeView::Other(p) => p is Oid || p is Bytea || temporal::text_stable(p),
        _ => true,
    }
}

/// A key of type `t` groups rows by the spelling of its values.
pub open spec fn key_type_problem(column: Seq<char>, t: ValueTypeView) -> Option<
    ValidationErrorView,
> {
    if groupable(t) {
        None
    } else {
        Some(ValidationErrorView::UnsupportedGroupByKeyType { column, value_type: t })
    }
}

/// A key is a source column, or a column at the end of a to-one
/// relationship, of a type that rows can be grouped by.
pub open spec fn key_problem(c: Scope, key: GroupByKeyView) -> Option<ValidationErrorView> {
    match key {
        GroupByKeyView::Column(column) => if !c.columns.contains_key(column) {
            Some(ValidationErrorView::UnresolvedGroupByColumn { column })
        } else {
            key_type_problem(column, c.columns[column])
        },
        GroupByKeyView::RelationshipPath { rel, column } => if !c.relationships.contains_key(rel) {
            Some(ValidationErrorView::UnknownGroupByRelationship { rel })
        } else {
            let resolved = c.relationships[rel];
            if resolved.cardinality != RelationshipCardinality::ToOne {
                Some(ValidationErrorView::GroupByRelationshipMustBeToOne { rel, column })
            } else if !resolved.column_types.contains_key(column) {
                Some(
                    ValidationErrorView::UnknownRelationshipColumn {
                        table: resolved.to_table,
                        column,
                    },
                )
            } else {
                key_type_problem(column, resolved.column_types[column])
            }
        },
    }
}

/// The problem of each key.
pub open spec fn key_problems(c: Scope, group_by: Seq<GroupByKeyView>) -> spec_fn(int) -> Option<
    ValidationErrorView,
> {
    |i: int| key_problem(c, group_by[i])
}

/// Some key is the column `name` itself.
pub open spec fn groups_by_column(group_by: Seq<GroupByKeyView>, name: Seq<char>) -> bool {
    group_by.contains(GroupByKeyView::Column(name))
}

/// Some key is the path `rel.column` itself.
pub open spec fn groups_by_path(
    group_by: Seq<GroupByKeyView>,
    rel: Seq<char>,
    column: Seq<char>,
) -> bool {
    group_by.contains(GroupByKeyView::RelationshipPath { rel, column })
}

/// What is wrong with `e` as part of a field of a definition that forms
/// groups: outside an aggregate only the keys have one value for a whole
/// group, and a to-many path has none even inside one.
pub open spec fn group_problem(
    c: Scope,
    group_by: Seq<GroupByKeyView>,
    e: ExprView,
    field: Seq<char>,
    inside: bool,
) -> Option<ValidationErrorView>
    decreases e, 0nat,
{
    match e {
        ExprView::Column(name) => if c.columns.contains_key(name) && !groups_by_column(
            group_by,
            name,
        ) && !inside {
            Some(ValidationErrorView::UngroupedColumnReference { field, column: name })
        } else {
            None
        },
        ExprView::RelationshipPath { rel, column } => if !c.relationships.contains_key(rel) {
            None
        } else {
            match c.relationships[rel].cardinality {
                RelationshipCardinality::ToMany => Some(
                    ValidationErrorView::RelationshipPathInAggregate { field, rel, column },
                ),
                RelationshipCardinality::ToOne => if !inside && !groups_by_path(
                    group_by,
                    rel,
                    column,
                ) {
                    Some(
                        ValidationErrorView::UngroupedRelationshipReference { field, rel, column },
                    )
                } else {
                    None
                },
            }
        },
        ExprView::BinaryOp { op, lhs, rhs } => or_else(
            group_problem(c, group_by, *lhs, field, inside),
            group_problem(c, group_by, *rhs, field, inside),
        ),
        ExprView::FunctionCall { name, args } => group_problem_from(
            c,
            group_by,
            args,
            0,
            field,
            inside || aggregate_named(name) is Some,
        ),
        _ => None,
    }
}

/// The first problem of the arguments from `k` on.
pub open spec fn group_problem_from(
    c: Scope,
    group_by: Seq<GroupByKeyView>,
    args: Seq<ExprView>,
    k: nat,
    field: Seq<char>,
    inside: bool,
) -> Option<ValidationErrorView>
    decreases args, args.len() - k,
{
    if k >= args.len() {
        None
    } else {
        or_else(
            group_problem(c, group_by, args[k as int], field, inside),
            group_problem_from(c, group_by, args, k + 1, field, inside),
        )
    }
}

/// The first key whose target column is named `name`.
pub open spec fn key_for(group_by: Seq<GroupByKeyView>, name: Seq<char>, i: nat) -> Option<
    GroupByKeyView,
>
    decreases group_by.len() - i,
{
    if i >= group_by.len() {
        None
    } else if group_by[i as int].target_column_name() == name {
        Some(group_by[i as int])
    } else {
        key_for(group_by, name, i + 1)
    }
}

/// A field with the name of a key's target column is that key.
pub open spec fn grouped_fields(c: Scope, group_by: Seq<GroupByKeyView>) -> spec_fn(int) -> Option<
    ValidationErrorView,
> {
    |i: int|
        {
            let f = c.fields[i];
            or_else(
                match key_for(group_by, f.name, 0) {
                    Some(key) => if f.expr == key.as_expr() {
                        None
                    } else {
                        Some(
                            ValidationErrorView::GroupingColumnFieldMustBePassthrough {
                                field: f.name,
                            },
                        )
                    },
                    None => None,
                },
                group_problem(c, group_by, f.expr, f.name, false),
            )
        }
}

fn reject_unsupported_group_by_key_type(column: &String, t: ValueType) -> (r: Result<
    (),
    ValidationError,
>)
    ensures
        finds(r, key_type_problem(column@, t@)),
{
    let ok = match t {
        ValueType::Float(_) => false,
        ValueType::Other(PgType::Oid) | ValueType::Other(PgType::Bytea) => true,
        ValueType::Other(p) => temporal::is_text_stable(p),
        _ => true,
    };
    if ok {
        Ok(())
    } else {
        Err(
            ValidationError::UnsupportedGroupByKeyType { column: column.clone(), value_type: t },
        )
    }
}

fn check_key(
    key: &GroupByKey,
    columns: &NameMap<ValueType>,
    relationships: &NameMap<ResolvedRelationship>,
    c: Ghost<Scope>,
) -> (r: Result<(), ValidationError>)
    requires
        c@.columns == crate::defs::typing::types_view(columns@),
        c@.relationships == crate::defs::typing::relationships_view(relationships@),
    ensures
        finds(r, key_problem(c@, key@)),
{
    match key {
        GroupByKey::Column(column) => match columns.get(column.as_str()) {
            None => Err(ValidationError::UnresolvedGroupByColumn { column: column.clone() }),
            Some(t) => reject_unsupported_group_by_key_type(column, *t),
        },
        GroupByKey::RelationshipPath { rel, column } => match relationships.get(rel.as_str()) {
            None => Err(ValidationError::UnknownGroupByRelationship { rel: rel.clone() }),
            Some(resolved) => {
                if resolved.cardinality != RelationshipCardinality::ToOne {
                    return Err(
                        ValidationError::GroupByRelationshipMustBeToOne {
                            rel: rel.clone(),
                            column: column.clone(),
                        },
                    );
                }
                match resolved.column_types.get(column.as_str()) {
                    None => Err(
                        ValidationError::UnknownRelationshipColumn {
                            table: resolved.to_table.clone(),
                            column: column.clone(),
                        },
                    ),
                    Some(t) => reject_unsupported_group_by_key_type(column, *t),
                }
            },
        },
    }
}

fn check_keys(
    group_by: &Vec<GroupByKey>,
    columns: &NameMap<ValueType>,
    relationships: &NameMap<ResolvedRelationship>,
    c: Ghost<Scope>,
) -> (r: Result<(), ValidationError>)
    requires
        c@.columns == crate::defs::typing::types_view(columns@),
        c@.relationships == crate::defs::typing::relationships_view(relationships@),
    ensures
        finds(
            r,
            first_problem(0, group_by@.len() as int, key_problems(c@, key_views(group_by@))),
        ),
{
    let ghost keys = key_views(group_by@);
    let mut i: usize = 0;
    while i < group_by.len()
        invariant
            0 <= i <= group_by@.len(),
            keys == key_views(group_by@),
            c@.columns == crate::defs::typing::types_view(columns@),
            c@.relationships == crate::defs::typing::relationships_view(relationships@),
            first_problem(0, group_by@.len() as int, key_problems(c@, keys)) == first_problem(
                i as int,
                group_by@.len() as int,
                key_problems(c@, keys),
            ),
        decreases group_by@.len() - i,
    {
        assert(keys[i as int] == group_by@[i as int]@);
        match check_key(&group_by[i], columns, relationships, c) {
            Ok(_) => {},
            Err(e) => {
                return Err(e);
            },
        }
        i += 1;
    }
    Ok(())
}

fn has_column_key(group_by: &Vec<GroupByKey>, name: &str) -> (r: bool)
    ensures
        r == groups_by_column(key_views(group_by@), name@),
{
    let ghost keys = key_views(group_by@);
    let mut i: usize = 0;
    while i < group_by.len()
        invariant
            0 <= i <= group_by@.len(),
            keys == key_views(group_by@),
            forall|j: int| 0 <= j < i ==> #[trigger] keys[j] != GroupByKeyView::Column(name@),
        decreases group_by@.len() - i,
    {
        assert(keys[i as int] == group_by@[i as int]@);
        if let GroupByKey::Column(n) = &group_by[i] {
            if text::same(n.as_str(), name) {
                return true;
            }
        }
        i += 1;
    }
    false
}

fn has_path_key(group_by: &Vec<GroupByKey>, rel: &str, column: &str) -> (r: bool)
    ensures
        r == groups_by_path(key_views(group_by@), rel@, column@),
{
    let ghost keys = key_views(group_by@);
    let ghost key = GroupByKeyView::RelationshipPath { rel: rel@, column: column@ };
    let mut i: usize = 0;
    while i < group_by.len()
        invariant
            0 <= i <= group_by@.len(),
            keys == key_views(group_by@),
            key == (GroupByKeyView::RelationshipPath { rel: rel@, column: column@ }),
            forall|j: int| 0 <= j < i ==> #[trigger] keys[j] != key,
        decreases group_by@.len() - i,
    {
        assert(keys[i as int] == group_by@[i as int]@);
        if let GroupByKey::RelationshipPath { rel: r, column: c } = &group_by[i] {
            if text::same(r.as_str(), rel) && text::same(c.as_str(), column) {
                return true;
            }
        }
        i += 1;
    }
    false
}

fn validate_aggregate_field_expr(
    expr: &Expr,
    field: &String,
    group_by: &Vec<GroupByKey>,
    columns: &NameMap<ValueType>,
    relationships: &NameMap<ResolvedRelationship>,
    inside: bool,
    c: Ghost<Scope>,
) -> (r: Result<(), ValidationError>)
    requires
        c@.columns == crate::defs::typing::types_view(columns@),
        c@.relationships == crate::defs::typing::relationships_view(relationships@),
    ensures
        finds(r, group_problem(c@, key_views(group_by@), expr@, field@, inside)),
    decreases *expr, 0nat,
{
    match expr {
        Expr::Column(name) => {
            if columns.contains_key(name.as_str()) && !has_column_key(group_by, name.as_str())
                && !inside {
                return Err(
                    ValidationError::UngroupedColumnReference {
                        field: field.clone(),
                        column: name.clone(),
                    },
                );
            }
            Ok(())
        },
        Expr::RelationshipPath { rel, column } => {
            let resolved = match relationships.get(rel.as_str()) {
                Some(r) => r,
                None => {
                    return Ok(());
                },
            };
            match resolved.cardinality {
                RelationshipCardinality::ToMany => Err(
                    ValidationError::RelationshipPathInAggregate {
                        field: field.clone(),
                        rel: rel.clone(),
                        column: column.clone(),
                    },
                ),
                RelationshipCardinality::ToOne => {
                    if !inside && !has_path_key(group_by, rel.as_str(), column.as_str()) {
                        return Err(
                            ValidationError::UngroupedRelationshipReference {
                                field: field.clone(),
                                rel: rel.clone(),
                                column: column.clone(),
                            },
                        );
                    }
                    Ok(())
                },
            }
        },
        Expr::BinaryOp { lhs, rhs, .. } => {
            match validate_aggregate_field_expr(
                lhs,
                field,
                group_by,
                columns,
                relationships,
                inside,
                c,
            ) {
                Ok(_) => {},
                Err(e) => {
                    return Err(e);
                },
            }
            validate_aggregate_field_expr(rhs, field, group_by, columns, relationships, inside, c)
        },
        Expr::FunctionCall { name, args } => {
            proof {
                call_view(*name, *args);
                registry::aggregate_functions_have_rows(name@);
            }
            let inside = inside || registry::is_aggregate_function(name.as_str());
            validate_aggregate_args(args, field, group_by, columns, relationships, inside, c)
        },
        _ => Ok(()),
    }
}

fn validate_aggregate_args(
    args: &Vec<Expr>,
    field: &String,
    group_by: &Vec<GroupByKey>,
    columns: &NameMap<ValueType>,
    relationships: &NameMap<ResolvedRelationship>,
    inside: bool,
    c: Ghost<Scope>,
) -> (r: Result<(), ValidationError>)
    requires
        c@.columns == crate::defs::typing::types_view(columns@),
        c@.relationships == crate::defs::typing::relationships_view(relationships@),
    ensures
        finds(
            r,
            group_problem_from(
                c@,
                key_views(group_by@),
                expr_views(args@),
                0,
                field@,
                inside,
            ),
        ),
    decreases *args, 1nat,
{
    let ghost all = expr_views(args@);
    let ghost keys = key_views(group_by@);
    let mut k: usize = 0;
    while k < args.len()
        invariant
            0 <= k <= args@.len(),
            all == expr_views(args@),
            keys == key_views(group_by@),
            c@.columns == crate::defs::typing::types_view(columns@),
            c@.relationships == crate::defs::typing::relationships_view(relationships@),
            group_problem_from(c@, keys, all, 0, field@, inside) == group_problem_from(
                c@,
                keys,
                all,
                k as nat,
                field@,
                inside,
            ),
        decreases args@.len() - k,
    {
        assert(all[k as int] == args@[k as int]@);
        match validate_aggregate_field_expr(
            &args[k],
            field,
            group_by,
            columns,
            relationships,
            inside,
            c,
        ) {
            Ok(_) => {},
            Err(e) => {
                return Err(e);
            },
        }
        k += 1;
    }
    Ok(())
}

/// Whether `expr` is exactly the key.
fn expr_is_group_by_key_passthrough(expr: &Expr, key: &GroupByKey) -> (r: bool)
    ensures
        r == (expr@ == key@.as_expr()),
{
    match key {
        GroupByKey::Column(name) => is_column(expr, name.as_str()),
        GroupByKey::RelationshipPath { rel, column } => match expr {
            Expr::RelationshipPath { rel: r, column: c } => text::same(r.as_str(), rel.as_str())
                && text::same(c.as_str(), column.as_str()),
            _ => false,
        },
    }
}

fn find_key<'a>(group_by: &'a Vec<GroupByKey>, name: &str) -> (r: Option<&'a GroupByKey>)
    ensures
        match r {
            Some(k) => key_for(key_views(group_by@), name@, 0) == Some(k@),
            None => key_for(key_views(group_by@), name@, 0) is None,
        },
{
    let ghost keys = key_views(group_by@);
    let mut i: usize = 0;
    while i < group_by.len()
        invariant
            0 <= i <= group_by@.len(),
            keys == key_views(group_by@),
            key_for(keys, name@, 0) == key_for(keys, name@, i as nat),
        decreases group_by@.len() - i,
    {
        assert(keys[i as int] == group_by@[i as int]@);
        if text::same(group_by[i].target_column_name(), name) {
            return Some(&group_by[i]);
        }
        i += 1;
    }
    None
}

fn check_grouped_fields(
    def: &TransformDef,
    group_by: &Vec<GroupByKey>,
    columns: &NameMap<ValueType>,
    relationships: &NameMap<ResolvedRelationship>,
    c: Ghost<Scope>,
) -> (r: Result<(), ValidationError>)
    requires
        c@.fields == def@.fields,
        c@.columns == crate::defs::typing::types_view(columns@),
        c@.relationships == crate::defs::typing::relationships_view(relationships@),
    ensures
        finds(
            r,
            first_problem(
                0,
                c@.fields.len() as int,
                grouped_fields(c@, key_views(group_by@)),
            ),
        ),
{
    let ghost keys = key_views(group_by@);
    let mut i: usize = 0;
    while i < def.fields.len()
        invariant
            0 <= i <= def.fields@.len(),
            keys == key_views(group_by@),
            c@.fields == def@.fields,
            c@.columns == crate::defs::typing::types_view(columns@),
            c@.relationships == crate::defs::typing::relationships_view(relationships@),
            first_problem(0, c@.fields.len() as int, grouped_fields(c@, keys)) == first_problem(
                i as int,
                c@.fields.len() as int,
                grouped_fields(c@, keys),
            ),
        decreases def.fields@.len() - i,
    {
        let field = &def.fields[i];
        assert(c@.fields[i as int] == field@);
        if let Some(key) = find_key(group_by, field.name.as_str()) {
            if !expr_is_group_by_key_passthrough(&field.expr, key) {
                return Err(
                    ValidationError::GroupingColumnFieldMustBePassthrough {
                        field: field.name.clone(),
                    },
                );
            }
        }
        match validate_aggregate_field_expr(
            &field.expr,
            &field.name,
            group_by,
            columns,
            relationships,
            false,
            c,
        ) {
            Ok(_) => {},
            Err(e) => {
                return Err(e);
            },
        }
        i += 1;
    }
    Ok(())
}

/// What is wrong with how the fields fit the key space.
pub open spec fn key_space_problem(c: Scope, key_space: KeySpaceView) -> Option<
    ValidationErrorView,
> {
    match key_space {
        KeySpaceView::OneToOne => first_problem(0, c.fields.len() as int, shadowing(c)),
        KeySpaceView::Aggregate { group_by } => or_else(
            first_problem(0, group_by.len() as int, key_problems(c, group_by)),
            first_problem(0, c.fields.len() as int, grouped_fields(c, group_by)),
        ),
    }
}

// ---------------------------------------------------------------------------
// Names
// ---------------------------------------------------------------------------

/// A field has a name that no earlier field has.
pub open spec fn duplicates(fields: Seq<FieldDefView>) -> spec_fn(int) -> Option<
    ValidationErrorView,
> {
    |i: int|
        if is_field(fields.take(i), fields[i].name) {
            Some(ValidationErrorView::DuplicateFieldName { name: fields[i].name })
        } else {
            None
        }
}

/// A column that field `field` may name: a source column, or another field.
pub open spec fn resolves(c: Scope, field: Seq<char>, column: Seq<char>) -> bool {
    c.columns.contains_key(column) || (column != field && is_field(c.fields, column))
}

/// The first column from `k` on that does not resolve.
pub open spec fn unresolved_from(c: Scope, field: Seq<char>, refs: Seq<Seq<char>>, k: nat) -> Option<
    ValidationErrorView,
>
    decreases refs.len() - k,
{
    if k >= refs.len() {
        None
    } else if !resolves(c, field, refs[k as int]) {
        Some(ValidationErrorView::UnresolvedColumn { field, column: refs[k as int] })
    } else {
        unresolved_from(c, field, refs, k + 1)
    }
}

/// Every column that a field names resolves.
pub open spec fn unresolved(c: Scope) -> spec_fn(int) -> Option<ValidationErrorView> {
    |i: int| unresolved_from(c, c.fields[i].name, references(c.fields[i].expr), 0)
}

fn check_duplicates(def: &TransformDef) -> (r: Result<(), ValidationError>)
    ensures
        finds(r, first_problem(0, def@.fields.len() as int, duplicates(def@.fields))),
        r is Ok ==> distinct_names(def@.fields),
{
    let ghost fs = def@.fields;
    let mut i: usize = 0;
    while i < def.fields.len()
        invariant
            0 <= i <= def.fields@.len(),
            fs == def@.fields,
            first_problem(0, fs.len() as int, duplicates(fs)) == first_problem(
                i as int,
                fs.len() as int,
                duplicates(fs),
            ),
            forall|a: int, b: int|
                0 <= a < b < i ==> #[trigger] fs[a].name != #[trigger] fs[b].name,
        decreases def.fields@.len() - i,
    {
        let name = &def.fields[i].name;
        assert(fs[i as int] == def.fields@[i as int]@);
        let mut j: usize = 0;
        while j < i
            invariant
                0 <= j <= i < def.fields@.len(),
                fs == def@.fields,
                fs[i as int].name == name@,
                forall|a: int| 0 <= a < j ==> #[trigger] fs[a].name != name@,
                first_problem(0, fs.len() as int, duplicates(fs)) == first_problem(
                    i as int,
                    fs.len() as int,
                    duplicates(fs),
                ),
            decreases i - j,
        {
            assert(fs[j as int] == def.fields@[j as int]@);
            if text::same(def.fields[j].name.as_str(), name.as_str()) {
                assert(fs.take(i as int)[j as int].name == name@);
                return Err(ValidationError::DuplicateFieldName { name: name.clone() });
            }
            j += 1;
        }
        proof {
            if is_field(fs.take(i as int), name@) {
                let a = choose|a: int|
                    0 <= a < fs.take(i as int).len() && #[trigger] fs.take(i as int)[a].name
                        == name@;
                assert(fs[a].name == name@);
            }
        }
        i += 1;
    }
    Ok(())
}

fn check_field_references(
    def: &TransformDef,
    i: usize,
    columns: &NameMap<ValueType>,
    c: Ghost<Scope>,
) -> (r: Result<(), ValidationError>)
    requires
        i < def.fields@.len(),
        c@.fields == def@.fields,
        c@.columns.dom() == columns@.dom(),
    ensures
        finds(
            r,
            unresolved_from(
                c@,
                c@.fields[i as int].name,
                references(c@.fields[i as int].expr),
                0,
            ),
        ),
{
    let field = &def.fields[i];
    assert(c@.fields[i as int] == field@);
    let mut refs: Vec<String> = Vec::new();
    collect_columns(&field.expr, &mut refs);
    let ghost rs = references(field@.expr);
    assert(views(refs@) =~= rs);
    let mut k: usize = 0;
    while k < refs.len()
        invariant
            0 <= k <= refs@.len(),
            views(refs@) == rs,
            c@.fields == def@.fields,
            c@.columns.dom() == columns@.dom(),
            unresolved_from(c@, field.name@, rs, 0) == unresolved_from(
                c@,
                field.name@,
                rs,
                k as nat,
            ),
            c@.fields[i as int] == field@,
            rs == references(field@.expr),
        decreases refs@.len() - k,
    {
        let column = &refs[k];
        assert(rs[k as int] == column@);
        proof {
            field_at_finds(c@.fields, column@);
        }
        let is_source_column = columns.contains_key(column.as_str());
        let is_other_field = !text::same(column.as_str(), field.name.as_str()) && find_field(
            &def.fields,
            column.as_str(),
        ).is_some();
        if !is_source_column && !is_other_field {
            return Err(
                ValidationError::UnresolvedColumn {
                    field: field.name.clone(),
                    column: column.clone(),
                },
            );
        }
        k += 1;
    }
    Ok(())
}

fn check_references(
    def: &TransformDef,
    columns: &NameMap<ValueType>,
    c: Ghost<Scope>,
) -> (r: Result<(), ValidationError>)
    requires
        c@.fields == def@.fields,
        c@.columns.dom() == columns@.dom(),
    ensures
        finds(r, first_problem(0, c@.fields.len() as int, unresolved(c@))),
{
    let mut i: usize = 0;
    while i < def.fields.len()
        invariant
            0 <= i <= def.fields@.len(),
            c@.fields == def@.fields,
            c@.columns.dom() == columns@.dom(),
            first_problem(0, c@.fields.len() as int, unresolved(c@)) == first_problem(
                i as int,
                c@.fields.len() as int,
                unresolved(c@),
            ),
        decreases def.fields@.len() - i,
    {
        match check_field_references(def, i, columns, c) {
            Ok(_) => {},
            Err(e) => {
                return Err(e);
            },
        }
        i += 1;
    }
    Ok(())
}

// ---------------------------------------------------------------------------
// Relationships
// ---------------------------------------------------------------------------

/// What is wrong with the relationship paths of `e`: a to-one path stands for
/// one value and is not aggregated, unless groups are formed; a to-many path
/// stands for many and is.
pub open spec fn path_problem(
    c: Scope,
    e: ExprView,
    field: Seq<char>,
    grouped: bool,
    inside: bool,
) -> Option<ValidationErrorView>
    decreases e, 0nat,
{
    match e {
        ExprView::RelationshipPath { rel, column } => if !c.relationships.contains_key(rel) {
            Some(ValidationErrorView::UnknownRelationship { field, rel })
        } else {
            match c.relationships[rel].cardinality {
                RelationshipCardinality::ToOne => if inside && !grouped {
                    Some(
                        ValidationErrorView::RelationshipToOneWrappedInAggregate {
                            field,
                            rel,
                            column,
                        },
                    )
                } else {
                    None
                },
                RelationshipCardinality::ToMany => if !inside {
                    Some(
                        ValidationErrorView::RelationshipToManyRequiresAggregate {
                            field,
                            rel,
                            column,
                        },
                    )
                } else {
                    None
                },
            }
        },
        ExprView::BinaryOp { op, lhs, rhs } => or_else(
            path_problem(c, *lhs, field, grouped, false),
            path_problem(c, *rhs, field, grouped, false),
        ),
        ExprView::FunctionCall { name, args } => path_problem_from(
            c,
            args,
            0,
            field,
            grouped,
            aggregate_named(name) is Some,
        ),
        _ => None,
    }
}

/// The first problem of the arguments from `k` on.
pub open spec fn path_problem_from(
    c: Scope,
    args: Seq<ExprView>,
    k: nat,
    field: Seq<char>,
    grouped: bool,
    inside: bool,
) -> Option<ValidationErrorView>
    decreases args, args.len() - k,
{
    if k >= args.len() {
        None
    } else {
        or_else(
            path_problem(c, args[k as int], field, grouped, inside),
            path_problem_from(c, args, k + 1, field, grouped, inside),
        )
    }
}

/// The paths of each field.
pub open spec fn path_problems(c: Scope, grouped: bool) -> spec_fn(int) -> Option<
    ValidationErrorView,
> {
    |i: int| path_problem(c, c.fields[i].expr, c.fields[i].name, grouped, false)
}

fn validate_relationship_refs(
    expr: &Expr,
    field: &String,
    relationships: &NameMap<ResolvedRelationship>,
    grouped: bool,
    inside: bool,
    c: Ghost<Scope>,
) -> (r: Result<(), ValidationError>)
    requires
        c@.relationships == crate::defs::typing::relationships_view(relationships@),
    ensures
        finds(r, path_problem(c@, expr@, field@, grouped, inside)),
    decreases *expr, 0nat,
{
    match expr {
        Expr::RelationshipPath { rel, column } => {
            let resolved = match relationships.get(rel.as_str()) {
                Some(r) => r,
                None => {
                    return Err(
                        ValidationError::UnknownRelationship {
                            field: field.clone(),
                            rel: rel.clone(),
                        },
                    );
                },
            };
            match resolved.cardinality {
                RelationshipCardinality::ToOne => {
                    if inside && !grouped {
                        return Err(
                            ValidationError::RelationshipToOneWrappedInAggregate {
                                field: field.clone(),
                                rel: rel.clone(),
                                column: column.clone(),
                            },
                        );
                    }
                    Ok(())
                },
                RelationshipCardinality::ToMany => {
                    if !inside {
                        return Err(
                            ValidationError::RelationshipToManyRequiresAggregate {
                                field: field.clone(),
                                rel: rel.clone(),
                                column: column.clone(),
                            },
                        );
                    }
                    Ok(())
                },
            }
        },
        Expr::BinaryOp { lhs, rhs, .. } => {
            match validate_relationship_refs(lhs, field, relationships, grouped, false, c) {
                Ok(_) => {},
                Err(e) => {
                    return Err(e);
                },
            }
            validate_relationship_refs(rhs, field, relationships, grouped, false, c)
        },
        Expr::FunctionCall { name, args } => {
            proof {
                call_view(*name, *args);
                registry::aggregate_functions_have_rows(name@);
            }
            let inside = registry::is_aggregate_function(name.as_str());
            validate_relationship_args(args, field, relationships, grouped, inside, c)
        },
        _ => Ok(()),
    }
}

fn validate_relationship_args(
    args: &Vec<Expr>,
    field: &String,
    relationships: &NameMap<ResolvedRelationship>,
    grouped: bool,
    inside: bool,
    c: Ghost<Scope>,
) -> (r: Result<(), ValidationError>)
    requires
        c@.relationships == crate::defs::typing::relationships_view(relationships@),
    ensures
        finds(r, path_problem_from(c@, expr_views(args@), 0, field@, grouped, inside)),
    decreases *args, 1nat,
{
    let ghost all = expr_views(args@);
    let mut k: usize = 0;
    while k < args.len()
        invariant
            0 <= k <= args@.len(),
            all == expr_views(args@),
            c@.relationships == crate::defs::typing::relationships_view(relationships@),
            path_problem_from(c@, all, 0, field@, grouped, inside) == path_problem_from(
                c@,
                all,
                k as nat,
                field@,
                grouped,
                inside,
            ),
        decreases args@.len() - k,
    {
        assert(all[k as int] == args@[k as int]@);
        match validate_relationship_refs(&args[k], field, relationships, grouped, inside, c) {
            Ok(_) => {},
            Err(e) => {
                return Err(e);
            },
        }
        k += 1;
    }
    Ok(())
}

fn check_paths(
    def: &TransformDef,
    relationships: &NameMap<ResolvedRelationship>,
    grouped: bool,
    c: Ghost<Scope>,
) -> (r: Result<(), ValidationError>)
    requires
        c@.fields == def@.fields,
        c@.relationships == crate::defs::typing::relationships_view(relationships@),
    ensures
        finds(r, first_problem(0, c@.fields.len() as int, path_problems(c@, grouped))),
{
    let mut i: usize = 0;
    while i < def.fields.len()
        invariant
            0 <= i <= def.fields@.len(),
            c@.fields == def@.fields,
            c@.relationships == crate::defs::typing::relationships_view(relationships@),
            first_problem(0, c@.fields.len() as int, path_problems(c@, grouped)) == first_problem(
                i as int,
                c@.fields.len() as int,
                path_problems(c@, grouped),
            ),
        decreases def.fields@.len() - i,
    {
        let field = &def.fields[i];
        assert(c@.fields[i as int] == field@);
        match validate_relationship_refs(
            &field.expr,
            &field.name,
            relationships,
            grouped,
            false,
            c,
        ) {
            Ok(_) => {},
            Err(e) => {
                return Err(e);
            },
        }
        i += 1;
    }
    Ok(())
}

// ---------------------------------------------------------------------------
// The whole definition
// ---------------------------------------------------------------------------

/// The first problem that is looked for before cycles are.
pub open spec fn problem_before_cycles(def: TransformDefView, c: Scope) -> Option<
    ValidationErrorView,
> {
    if def.target == def.source {
        Some(ValidationErrorView::TargetEqualsSource { table: def.target })
    } else {
        or_else(
            key_space_problem(c, def.key_space),
            or_else(
                first_problem(0, c.fields.len() as int, duplicates(c.fields)),
                first_problem(0, c.fields.len() as int, unresolved(c)),
            ),
        )
    }
}

/// The first problem that is looked for after cycles were.
pub open spec fn problem_after_cycles(def: TransformDefView, c: Scope) -> Option<
    ValidationErrorView,
> {
    or_else(
        first_problem(
            0,
            c.fields.len() as int,
            path_problems(c, def.key_space is Aggregate),
        ),
        match field_types(c) {
            Ok(_) => None,
            Err(e) => Some(e),
        },
    )
}

/// A problem is found before the fields are typed.
pub open spec fn problem_before_types(def: TransformDefView, c: Scope) -> bool {
    ||| problem_before_cycles(def, c) is Some
    ||| cyclic(c.fields)
    ||| first_problem(
        0,
        c.fields.len() as int,
        path_problems(c, def.key_space is Aggregate),
    ) is Some
}

/// The definition is accepted.
pub open spec fn valid(def: TransformDefView, c: Scope) -> bool {
    &&& problem_before_cycles(def, c) is None
    &&& !cyclic(c.fields)
    &&& problem_after_cycles(def, c) is None
}

/// Checks a definition against the columns of its source table and the
/// relationships that start there. The first problem is reported; where
/// fields depend on one another in a circle, one such circle is named.
pub fn validate(
    def: &TransformDef,
    source_columns: &NameMap<ValueType>,
    relationships: &NameMap<ResolvedRelationship>,
) -> (r: Result<(), ValidationError>)
    requires
        ({
            let c = scope(def.fields@, source_columns@, relationships@);
            problem_before_types(def@, c) || inference_is_clear(c)
        }),
    ensures
        ({
            let c = scope(def.fields@, source_columns@, relationships@);
            match r {
                Ok(_) => valid(def@, c),
                Err(e) => match problem_before_cycles(def@, c) {
                    Some(p) => e@ == p,
                    None => if cyclic(c.fields) {
                        e@ matches ValidationErrorView::Cycle { cycle } && runs_into_itself(
                            c.fields,
                            cycle,
                        )
                    } else {
                        problem_after_cycles(def@, c) == Some(e@)
                    },
                },
            }
        }),
{
    let ghost c = scope(def.fields@, source_columns@, relationships@);
    proof {
        assert(c.columns.dom() =~= source_columns@.dom());
    }
    if text::same(def.target.as_str(), def.source.as_str()) {
        return Err(ValidationError::TargetEqualsSource { table: def.target.clone() });
    }
    let grouped = match &def.key_space {
        KeySpace::OneToOne => {
            match check_shadowing(def, source_columns, Ghost(c)) {
                Ok(_) => {},
                Err(e) => {
                    return Err(e);
                },
            }
            false
        },
        KeySpace::Aggregate { group_by } => {
            match check_keys(group_by, source_columns, relationships, Ghost(c)) {
                Ok(_) => {},
                Err(e) => {
                    return Err(e);
                },
            }
            match check_grouped_fields(def, group_by, source_columns, relationships, Ghost(c)) {
                Ok(_) => {},
                Err(e) => {
                    return Err(e);
                },
            }
            true
        },
    };
    match def.predicate {
        Predicate::True => {},
    }
    match check_duplicates(def) {
        Ok(_) => {},
        Err(e) => {
            return Err(e);
        },
    }
    match check_references(def, source_columns, Ghost(c)) {
        Ok(_) => {},
        Err(e) => {
            return Err(e);
        },
    }
    match detect_cycle(&def.fields) {
        Ok(_) => {},
        Err(e) => {
            return Err(e);
        },
    }
    match check_paths(def, relationships, grouped, Ghost(c)) {
        Ok(_) => {},
        Err(e) => {
            return Err(e);
        },
    }
    match infer_field_types(def, source_columns, relationships) {
        Ok(_) => Ok(()),
        Err(e) => Err(e),
    }
}

} // verus!
