//! What the validator rejects, and how it says so.

use vstd::prelude::*;

use crate::defs::ast::{ValueType, ValueTypeView};
use crate::error_code::ErrorCode;
use crate::text;

verus! {

/// A relationship between two columns whose types cannot be compared.
#[derive(Debug, PartialEq, Eq)]
pub struct RelationshipTypeMismatch {
    pub name: String,
    pub from_table: String,
    pub from_col: String,
    pub from_type: String,
    pub to_table: String,
    pub to_col: String,
    pub to_type: String,
}

/// Why a definition is rejected.
#[derive(Debug, PartialEq, Eq)]
#[allow(inconsistent_fields)]
pub enum ValidationError {
    DuplicateFieldName { name: String },
    UnresolvedColumn { field: String, column: String },
    /// Calculated fields that depend on one another in a circle.
    Cycle { cycle: Vec<String> },
    TableCycle { cycle: Vec<String> },
    TargetEqualsSource { table: String },
    TypeMismatch { field: String, expected: ValueType, found: ValueType },
    FunctionArgTypeMismatch { field: String, function: String, arg_index: usize, expected: ValueType, found: ValueType },
    NonLiteralRegexPattern { field: String },
    InvalidRegexPattern { field: String, pattern: String, error: String },
    InvalidTypedLiteral { field: String, value_type: ValueType, text: String, detail: String },
    UnsupportedLiteralType { field: String, value_type: ValueType },
    UnresolvedGroupByColumn { column: String },
    UnsupportedGroupByKeyType { column: String, value_type: ValueType },
    UnknownGroupByRelationship { rel: String },
    GroupByRelationshipMustBeToOne { rel: String, column: String },
    UngroupedColumnReference { field: String, column: String },
    GroupingColumnFieldMustBePassthrough { field: String },
    CalculatedFieldShadowsSourceColumn { field: String },
    UnknownRelationship { field: String, rel: String },
    RelationshipToOneWrappedInAggregate { field: String, rel: String, column: String },
    RelationshipToManyRequiresAggregate { field: String, rel: String, column: String },
    RelationshipPathInAggregate { field: String, rel: String, column: String },
    UngroupedRelationshipReference { field: String, rel: String, column: String },
    UnknownRelationshipColumn { table: String, column: String },
    RelationshipTypeMismatch(Box<RelationshipTypeMismatch>),
    DuplicateRelationshipName { from_table: String, name: String },
    RelationshipUnsupportedJoinKeyType { name: String, table: String, column: String, pg_type: String },
    RelationshipToManyRequiresReplicaIdentity { name: String, to_table: String, to_col: String },
    QualifiedSourceTableNotFound { schema: String, table: String },
    QualifiedTargetTableNotFound { schema: String, table: String },
}

/// What a [`ValidationError`] stands for.
#[verifier::ext_equal]
#[allow(inconsistent_fields)]
pub enum ValidationErrorView {
    DuplicateFieldName { name: Seq<char> },
    UnresolvedColumn { field: Seq<char>, column: Seq<char> },
    Cycle { cycle: Seq<Seq<char>> },
    TableCycle { cycle: Seq<Seq<char>> },
    TargetEqualsSource { table: Seq<char> },
    TypeMismatch { field: Seq<char>, expected: ValueTypeView, found: ValueTypeView },
    FunctionArgTypeMismatch { field: Seq<char>, function: Seq<char>, arg_index: usize, expected: ValueTypeView, found: ValueTypeView },
    NonLiteralRegexPattern { field: Seq<char> },
    InvalidRegexPattern { field: Seq<char>, pattern: Seq<char>, error: Seq<char> },
    InvalidTypedLiteral { field: Seq<char>, value_type: ValueTypeView, text: Seq<char>, detail: Seq<char> },
    UnsupportedLiteralType { field: Seq<char>, value_type: ValueTypeView },
    UnresolvedGroupByColumn { column: Seq<char> },
    UnsupportedGroupByKeyType { column: Seq<char>, value_type: ValueTypeView },
    UnknownGroupByRelationship { rel: Seq<char> },
    GroupByRelationshipMustBeToOne { rel: Seq<char>, column: Seq<char> },
    UngroupedColumnReference { field: Seq<char>, column: Seq<char> },
    GroupingColumnFieldMustBePassthrough { field: Seq<char> },
    CalculatedFieldShadowsSourceColumn { field: Seq<char> },
    UnknownRelationship { field: Seq<char>, rel: Seq<char> },
    RelationshipToOneWrappedInAggregate { field: Seq<char>, rel: Seq<char>, column: Seq<char> },
    RelationshipToManyRequiresAggregate { field: Seq<char>, rel: Seq<char>, column: Seq<char> },
    RelationshipPathInAggregate { field: Seq<char>, rel: Seq<char>, column: Seq<char> },
    UngroupedRelationshipReference { field: Seq<char>, rel: Seq<char>, column: Seq<char> },
    UnknownRelationshipColumn { table: Seq<char>, column: Seq<char> },
    RelationshipTypeMismatch { name: Seq<char>, from_table: Seq<char>, from_col: Seq<char>, from_type: Seq<char>, to_table: Seq<char>, to_col: Seq<char>, to_type: Seq<char> },
    DuplicateRelationshipName { from_table: Seq<char>, name: Seq<char> },
    RelationshipUnsupportedJoinKeyType { name: Seq<char>, table: Seq<char>, column: Seq<char>, pg_type: Seq<char> },
    RelationshipToManyRequiresReplicaIdentity { name: Seq<char>, to_table: Seq<char>, to_col: Seq<char> },
    QualifiedSourceTableNotFound { schema: Seq<char>, table: Seq<char> },
    QualifiedTargetTableNotFound { schema: Seq<char>, table: Seq<char> },
}

impl View for ValidationError {
    type V = ValidationErrorView;

    open spec fn view(&self) -> ValidationErrorView {
        match self {
            ValidationError::DuplicateFieldName { name } => ValidationErrorView::DuplicateFieldName {
                name: name@,
            },
            ValidationError::UnresolvedColumn { field, column } => ValidationErrorView::UnresolvedColumn {
                field: field@,
                column: column@,
            },
            ValidationError::Cycle { cycle } => ValidationErrorView::Cycle {
                cycle: text::views(cycle@),
            },
            ValidationError::TableCycle { cycle } => ValidationErrorView::TableCycle {
                cycle: text::views(cycle@),
            },
            ValidationError::TargetEqualsSource { table } => ValidationErrorView::TargetEqualsSource {
                table: table@,
            },
            ValidationError::TypeMismatch { field, expected, found } => ValidationErrorView::TypeMismatch {
                field: field@,
                expected: expected@,
                found: found@,
            },
            ValidationError::FunctionArgTypeMismatch { field, function, arg_index, expected, found } => ValidationErrorView::FunctionArgTypeMismatch {
                field: field@,
                function: function@,
                arg_index: *arg_index,
                expected: expected@,
                found: found@,
            },
            ValidationError::NonLiteralRegexPattern { field } => ValidationErrorView::NonLiteralRegexPattern {
                field: field@,
            },
            ValidationError::InvalidRegexPattern { field, pattern, error } => ValidationErrorView::InvalidRegexPattern {
                field: field@,
                pattern: pattern@,
                error: error@,
            },
            ValidationError::InvalidTypedLiteral { field, value_type, text, detail } => ValidationErrorView::InvalidTypedLiteral {
                field: field@,
                value_type: value_type@,
                text: text@,
                detail: detail@,
            },
            ValidationError::UnsupportedLiteralType { field, value_type } => ValidationErrorView::UnsupportedLiteralType {
                field: field@,
                value_type: value_type@,
            },
            ValidationError::UnresolvedGroupByColumn { column } => ValidationErrorView::UnresolvedGroupByColumn {
                column: column@,
            },
            ValidationError::UnsupportedGroupByKeyType { column, value_type } => ValidationErrorView::UnsupportedGroupByKeyType {
                column: column@,
                value_type: value_type@,
            },
            ValidationError::UnknownGroupByRelationship { rel } => ValidationErrorView::UnknownGroupByRelationship {
                rel: rel@,
            },
            ValidationError::GroupByRelationshipMustBeToOne { rel, column } => ValidationErrorView::GroupByRelationshipMustBeToOne {
                rel: rel@,
                column: column@,
            },
            ValidationError::UngroupedColumnReference { field, column } => ValidationErrorView::UngroupedColumnReference {
                field: field@,
                column: column@,
            },
            ValidationError::GroupingColumnFieldMustBePassthrough { field } => ValidationErrorView::GroupingColumnFieldMustBePassthrough {
                field: field@,
            },
            ValidationError::CalculatedFieldShadowsSourceColumn { field } => ValidationErrorView::CalculatedFieldShadowsSourceColumn {
                field: field@,
            },
            ValidationError::UnknownRelationship { field, rel } => ValidationErrorView::UnknownRelationship {
                field: field@,
                rel: rel@,
            },
            ValidationError::RelationshipToOneWrappedInAggregate { field, rel, column } => ValidationErrorView::RelationshipToOneWrappedInAggregate {
                field: field@,
                rel: rel@,
                column: column@,
            },
            ValidationError::RelationshipToManyRequiresAggregate { field, rel, column } => ValidationErrorView::RelationshipToManyRequiresAggregate {
                field: field@,
                rel: rel@,
                column: column@,
            },
            ValidationError::RelationshipPathInAggregate { field, rel, column } => ValidationErrorView::RelationshipPathInAggregate {
                field: field@,
                rel: rel@,
                column: column@,
            },
            ValidationError::UngroupedRelationshipReference { field, rel, column } => ValidationErrorView::UngroupedRelationshipReference {
                field: field@,
                rel: rel@,
                column: column@,
            },
            ValidationError::UnknownRelationshipColumn { table, column } => ValidationErrorView::UnknownRelationshipColumn {
                table: table@,
                column: column@,
            },
            ValidationError::RelationshipTypeMismatch(m) => {
                ValidationErrorView::RelationshipTypeMismatch {
                    name: m.name@,
                    from_table: m.from_table@,
                    from_col: m.from_col@,
                    from_type: m.from_type@,
                    to_table: m.to_table@,
                    to_col: m.to_col@,
                    to_type: m.to_type@,
                }
            },
            ValidationError::DuplicateRelationshipName { from_table, name } => ValidationErrorView::DuplicateRelationshipName {
                from_table: from_table@,
                name: name@,
            },
            ValidationError::RelationshipUnsupportedJoinKeyType { name, table, column, pg_type } => ValidationErrorView::RelationshipUnsupportedJoinKeyType {
                name: name@,
                table: table@,
                column: column@,
                pg_type: pg_type@,
            },
            ValidationError::RelationshipToManyRequiresReplicaIdentity { name, to_table, to_col } => ValidationErrorView::RelationshipToManyRequiresReplicaIdentity {
                name: name@,
                to_table: to_table@,
                to_col: to_col@,
            },
            ValidationError::QualifiedSourceTableNotFound { schema, table } => ValidationErrorView::QualifiedSourceTableNotFound {
                schema: schema@,
                table: table@,
            },
            ValidationError::QualifiedTargetTableNotFound { schema, table } => ValidationErrorView::QualifiedTargetTableNotFound {
                schema: schema@,
                table: table@,
            },
        }
    }
}

impl ValidationErrorView {
    /// The message of the error.
    pub open spec fn message(self) -> Seq<char> {
        match self {
            ValidationErrorView::DuplicateFieldName { name } => "duplicate calculated field name '"@ + name + "'"@,
            ValidationErrorView::UnresolvedColumn { field, column } => "calculated field '"@ + field + "' references '"@ + column + "', which is neither a source column nor another calculated field on this target"@,
            ValidationErrorView::Cycle { cycle } => "cycle among calculated columns: "@ + text::joined(cycle, " -> "@),
            ValidationErrorView::TableCycle { cycle } => "cycle among tables: "@ + text::joined(cycle, " -> "@),
            ValidationErrorView::TargetEqualsSource { table } => "target table '"@ + table + "' is the same as the source table; calculated columns must live on a separate neighbor table"@,
            ValidationErrorView::TypeMismatch { field, expected, found } => "calculated field '"@ + field + "' expects a "@ + expected.display() + " value here, found "@ + found.display(),
            ValidationErrorView::FunctionArgTypeMismatch { field, arg_index, function, expected, found } => "calculated field '"@ + field + "': argument "@ + text::decimal((arg_index + 1) as nat) + " of '"@ + function + "' expects a "@ + expected.display() + " value, found "@ + found.display(),
            ValidationErrorView::NonLiteralRegexPattern { field } => "calculated field '"@ + field + "': regexp_count's pattern argument must be a string literal, not a column reference or expression"@,
            ValidationErrorView::InvalidRegexPattern { field, pattern, error } => "calculated field '"@ + field + "': regexp_count's pattern '"@ + pattern + "' is not a valid regular expression: "@ + error,
            ValidationErrorView::InvalidTypedLiteral { field, value_type, text, detail } => "calculated field '"@ + field + "': "@ + value_type.display() + " literal '"@ + text + "' is not in canonical form: "@ + detail,
            ValidationErrorView::UnsupportedLiteralType { field, value_type } => "calculated field '"@ + field + "': '"@ + value_type.display() + "' is not a type a literal can be spelled as (see docs/type-support.md)"@,
            ValidationErrorView::UnresolvedGroupByColumn { column } => "GROUP BY references '"@ + column + "', which is not a source column"@,
            ValidationErrorView::UnsupportedGroupByKeyType { column, value_type } => "GROUP BY key '"@ + column + "' is a "@ + value_type.display() + " column, a type Trellis can only pass through today: GROUP BY keys are matched by their text rendering, which doesn't agree with this type's own equality (see docs/type-support.md). Supported GROUP BY key types are numeric, text, boolean, uuid, oid, date, time and timetz"@,
            ValidationErrorView::UnknownGroupByRelationship { rel } => "GROUP BY references relationship '"@ + rel + "', which is not declared on this definition's source table (relationship names are scoped per from-table, ADR-0006)"@,
            ValidationErrorView::GroupByRelationshipMustBeToOne { rel, column } => "GROUP BY references to-many relationship path '"@ + rel + "."@ + column + "'; grouping by the many related rows on the other end of a to-many relationship has no defined semantics, so a GROUP BY relationship path must be to-one"@,
            ValidationErrorView::UngroupedColumnReference { field, column } => "calculated field '"@ + field + "' references source column '"@ + column + "' outside of SUM/MIN/MAX/AVG; a non-grouping-key column must be aggregated, not referenced bare"@,
            ValidationErrorView::GroupingColumnFieldMustBePassthrough { field } => "calculated field '"@ + field + "' shares its name with a GROUP BY column, so it must be a bare passthrough of that column (e.g. `"@ + field + "`), not another expression"@,
            ValidationErrorView::CalculatedFieldShadowsSourceColumn { field } => "calculated field '"@ + field + "' shares its name with a source column, so it must be a bare passthrough of that column (e.g. `"@ + field + "`), not another expression; a different name avoids shadowing the real column for other fields that reference it"@,
            ValidationErrorView::UnknownRelationship { field, rel } => "calculated field '"@ + field + "' references relationship '"@ + rel + "', which is not declared on this definition's source table (relationship names are scoped per from-table, ADR-0006)"@,
            ValidationErrorView::RelationshipToOneWrappedInAggregate { field, rel, column } => "calculated field '"@ + field + "' wraps to-one relationship path '"@ + rel + "."@ + column + "' in an aggregate; a to-one relationship already resolves to a single related value, so drop the aggregate and reference '"@ + rel + "."@ + column + "' directly (ADR-0006)"@,
            ValidationErrorView::RelationshipToManyRequiresAggregate { field, rel, column } => "calculated field '"@ + field + "' references to-many relationship path '"@ + rel + "."@ + column + "' bare; a to-many relationship denotes a set of related values, so wrap it in an aggregate such as SUM("@ + rel + "."@ + column + ") or COUNT("@ + rel + "."@ + column + ") (ADR-0006)"@,
            ValidationErrorView::RelationshipPathInAggregate { field, rel, column } => "calculated field '"@ + field + "' aggregates to-many relationship path '"@ + rel + "."@ + column + "' inside a GROUP BY (aggregate) definition; aggregating an aggregate is not supported — a to-one relationship path may be aggregated here, but a to-many one may not"@,
            ValidationErrorView::UngroupedRelationshipReference { field, rel, column } => "calculated field '"@ + field + "' references relationship path '"@ + rel + "."@ + column + "' outside of SUM/COUNT/MIN/MAX/AVG; in a GROUP BY definition a to-one relationship path resolves once per source row, so it must be aggregated (e.g. SUM("@ + rel + "."@ + column + ")), not referenced bare"@,
            ValidationErrorView::UnknownRelationshipColumn { table, column } => "relationship references '"@ + table + "."@ + column + "', which does not exist"@,
            ValidationErrorView::RelationshipTypeMismatch { name, from_table, from_col, from_type, to_table, to_col, to_type } => "relationship '"@ + name + "' joins "@ + from_table + "."@ + from_col + " ("@ + from_type + ") to "@ + to_table + "."@ + to_col + " ("@ + to_type + "), which are not comparable types"@,
            ValidationErrorView::DuplicateRelationshipName { name, from_table } => "relationship '"@ + name + "' is already declared on '"@ + from_table + "'; relationship names must be unique per from-table (ADR-0006), so pick a different name"@,
            ValidationErrorView::RelationshipUnsupportedJoinKeyType { name, table, column, pg_type } => "relationship '"@ + name + "' joins on "@ + table + "."@ + column + " ("@ + pg_type + "), a type whose equality isn't text-stable, so the engine (which compares join keys as text) would silently diverge from the Postgres oracle's typed join; supported join key types are smallint, integer, bigint, oid, text, character varying, boolean, uuid, bytea, date, timestamp, time, timetz"@,
            ValidationErrorView::RelationshipToManyRequiresReplicaIdentity { name, to_table, to_col } => "relationship '"@ + name + "' is to-many (its join key "@ + to_table + "."@ + to_col + " is not unique), so the to-side needs a replica identity that carries "@ + to_col + " in delete/re-parent pre-images — otherwise reverse recompute can't find the from-side rows to re-derive and silently diverges from the Postgres oracle; run `ALTER TABLE "@ + to_table + " REPLICA IDENTITY FULL;` (or use a replica-identity index that covers "@ + to_col + ")"@,
            ValidationErrorView::QualifiedSourceTableNotFound { schema, table } => "FROM names '"@ + schema + "."@ + table + "' explicitly, but schema '"@ + schema + "' has no table named '"@ + table + "'; an explicit schema.table spelling resolves to that exact relation, not a search_path walk (ADR-0007), so this is checked as written"@,
            ValidationErrorView::QualifiedTargetTableNotFound { schema, table } => "TRANSFORM names '"@ + schema + "."@ + table + "' explicitly, but schema '"@ + schema + "' has no table named '"@ + table + "'; an explicit schema.table spelling resolves to that exact relation, not the configured target schema (ADR-0007), so this is checked as written"@,
        }
    }
}

impl ValidationError {
    /// The message of the error.
    pub fn to_string(&self) -> (r: String)
        ensures
            r@ == self@.message(),
    {
        match self {
            ValidationError::DuplicateFieldName { name } => {
                let mut m = text::owned("duplicate calculated field name '");
                m.append(name.as_str());
                m.append("'");
                m
            },
            ValidationError::UnresolvedColumn { field, column } => {
                let mut m = text::owned("calculated field '");
                m.append(field.as_str());
                m.append("' references '");
                m.append(column.as_str());
                m.append("', which is neither a source column nor another calculated field on this target");
                m
            },
            ValidationError::Cycle { cycle } => {
                let mut m = text::owned("cycle among calculated columns: ");
                m.append(text::join(cycle, " -> ").as_str());
                m
            },
            ValidationError::TableCycle { cycle } => {
                let mut m = text::owned("cycle among tables: ");
                m.append(text::join(cycle, " -> ").as_str());
                m
            },
            ValidationError::TargetEqualsSource { table } => {
                let mut m = text::owned("target table '");
                m.append(table.as_str());
                m.append("' is the same as the source table; calculated columns must live on a separate neighbor table");
                m
            },
            ValidationError::TypeMismatch { field, expected, found } => {
                let mut m = text::owned("calculated field '");
                m.append(field.as_str());
                m.append("' expects a ");
                m.append(expected.to_string().as_str());
                m.append(" value here, found ");
                m.append(found.to_string().as_str());
                m
            },
            ValidationError::FunctionArgTypeMismatch { field, arg_index, function, expected, found } => {
                let mut m = text::owned("calculated field '");
                m.append(field.as_str());
                m.append("': argument ");
                m.append(text::decimal_of(*arg_index as u128 + 1).as_str());
                m.append(" of '");
                m.append(function.as_str());
                m.append("' expects a ");
                m.append(expected.to_string().as_str());
                m.append(" value, found ");
                m.append(found.to_string().as_str());
                m
            },
            ValidationError::NonLiteralRegexPattern { field } => {
                let mut m = text::owned("calculated field '");
                m.append(field.as_str());
                m.append("': regexp_count's pattern argument must be a string literal, not a column reference or expression");
                m
            },
            ValidationError::InvalidRegexPattern { field, pattern, error } => {
                let mut m = text::owned("calculated field '");
                m.append(field.as_str());
                m.append("': regexp_count's pattern '");
                m.append(pattern.as_str());
                m.append("' is not a valid regular expression: ");
                m.append(error.as_str());
                m
            },
            ValidationError::InvalidTypedLiteral { field, value_type, text, detail } => {
                let mut m = text::owned("calculated field '");
                m.append(field.as_str());
                m.append("': ");
                m.append(value_type.to_string().as_str());
                m.append(" literal '");
                m.append(text.as_str());
                m.append("' is not in canonical form: ");
                m.append(detail.as_str());
                m
            },
            ValidationError::UnsupportedLiteralType { field, value_type } => {
                let mut m = text::owned("calculated field '");
                m.append(field.as_str());
                m.append("': '");
                m.append(value_type.to_string().as_str());
                m.append("' is not a type a literal can be spelled as (see docs/type-support.md)");
                m
            },
            ValidationError::UnresolvedGroupByColumn { column } => {
                let mut m = text::owned("GROUP BY references '");
                m.append(column.as_str());
                m.append("', which is not a source column");
                m
            },
            ValidationError::UnsupportedGroupByKeyType { column, value_type } => {
                let mut m = text::owned("GROUP BY key '");
                m.append(column.as_str());
                m.append("' is a ");
                m.append(value_type.to_string().as_str());
                m.append(" column, a type Trellis can only pass through today: GROUP BY keys are matched by their text rendering, which doesn't agree with this type's own equality (see docs/type-support.md). Supported GROUP BY key types are numeric, text, boolean, uuid, oid, date, time and timetz");
                m
            },
            ValidationError::UnknownGroupByRelationship { rel } => {
                let mut m = text::owned("GROUP BY references relationship '");
                m.append(rel.as_str());
                m.append("', which is not declared on this definition's source table (relationship names are scoped per from-table, ADR-0006)");
                m
            },
            ValidationError::GroupByRelationshipMustBeToOne { rel, column } => {
                let mut m = text::owned("GROUP BY references to-many relationship path '");
                m.append(rel.as_str());
                m.append(".");
                m.append(column.as_str());
                m.append("'; grouping by the many related rows on the other end of a to-many relationship has no defined semantics, so a GROUP BY relationship path must be to-one");
                m
            },
            ValidationError::UngroupedColumnReference { field, column } => {
                let mut m = text::owned("calculated field '");
                m.append(field.as_str());
                m.append("' references source column '");
                m.append(column.as_str());
                m.append("' outside of SUM/MIN/MAX/AVG; a non-grouping-key column must be aggregated, not referenced bare");
                m
            },
            ValidationError::GroupingColumnFieldMustBePassthrough { field } => {
                let mut m = text::owned("calculated field '");
                m.append(field.as_str());
                m.append("' shares its name with a GROUP BY column, so it must be a bare passthrough of that column (e.g. `");
                m.append(field.as_str());
                m.append("`), not another expression");
                m
            },
            ValidationError::CalculatedFieldShadowsSourceColumn { field } => {
                let mut m = text::owned("calculated field '");
                m.append(field.as_str());
                m.append("' shares its name with a source column, so it must be a bare passthrough of that column (e.g. `");
                m.append(field.as_str());
                m.append("`), not another expression; a different name avoids shadowing the real column for other fields that reference it");
                m
            },
            ValidationError::UnknownRelationship { field, rel } => {
                let mut m = text::owned("calculated field '");
                m.append(field.as_str());
                m.append("' references relationship '");
                m.append(rel.as_str());
                m.append("', which is not declared on this definition's source table (relationship names are scoped per from-table, ADR-0006)");
                m
            },
            ValidationError::RelationshipToOneWrappedInAggregate { field, rel, column } => {
                let mut m = text::owned("calculated field '");
                m.append(field.as_str());
                m.append("' wraps to-one relationship path '");
                m.append(rel.as_str());
                m.append(".");
                m.append(column.as_str());
                m.append("' in an aggregate; a to-one relationship already resolves to a single related value, so drop the aggregate and reference '");
                m.append(rel.as_str());
                m.append(".");
                m.append(column.as_str());
                m.append("' directly (ADR-0006)");
                m
            },
            ValidationError::RelationshipToManyRequiresAggregate { field, rel, column } => {
                let mut m = text::owned("calculated field '");
                m.append(field.as_str());
                m.append("' references to-many relationship path '");
                m.append(rel.as_str());
                m.append(".");
                m.append(column.as_str());
                m.append("' bare; a to-many relationship denotes a set of related values, so wrap it in an aggregate such as SUM(");
                m.append(rel.as_str());
                m.append(".");
                m.append(column.as_str());
                m.append(") or COUNT(");
                m.append(rel.as_str());
                m.append(".");
                m.append(column.as_str());
                m.append(") (ADR-0006)");
                m
            },
            ValidationError::RelationshipPathInAggregate { field, rel, column } => {
                let mut m = text::owned("calculated field '");
                m.append(field.as_str());
                m.append("' aggregates to-many relationship path '");
                m.append(rel.as_str());
                m.append(".");
                m.append(column.as_str());
                m.append("' inside a GROUP BY (aggregate) definition; aggregating an aggregate is not supported — a to-one relationship path may be aggregated here, but a to-many one may not");
                m
            },
            ValidationError::UngroupedRelationshipReference { field, rel, column } => {
                let mut m = text::owned("calculated field '");
                m.append(field.as_str());
                m.append("' references relationship path '");
                m.append(rel.as_str());
                m.append(".");
                m.append(column.as_str());
                m.append("' outside of SUM/COUNT/MIN/MAX/AVG; in a GROUP BY definition a to-one relationship path resolves once per source row, so it must be aggregated (e.g. SUM(");
                m.append(rel.as_str());
                m.append(".");
                m.append(column.as_str());
                m.append(")), not referenced bare");
                m
            },
            ValidationError::UnknownRelationshipColumn { table, column } => {
                let mut m = text::owned("relationship references '");
                m.append(table.as_str());
                m.append(".");
                m.append(column.as_str());
                m.append("', which does not exist");
                m
            },
            ValidationError::RelationshipTypeMismatch(d) => {
                let mut m = text::owned("relationship '");
                m.append(d.name.as_str());
                m.append("' joins ");
                m.append(d.from_table.as_str());
                m.append(".");
                m.append(d.from_col.as_str());
                m.append(" (");
                m.append(d.from_type.as_str());
                m.append(") to ");
                m.append(d.to_table.as_str());
                m.append(".");
                m.append(d.to_col.as_str());
                m.append(" (");
                m.append(d.to_type.as_str());
                m.append("), which are not comparable types");
                m
            },
            ValidationError::DuplicateRelationshipName { name, from_table } => {
                let mut m = text::owned("relationship '");
                m.append(name.as_str());
                m.append("' is already declared on '");
                m.append(from_table.as_str());
                m.append("'; relationship names must be unique per from-table (ADR-0006), so pick a different name");
                m
            },
            ValidationError::RelationshipUnsupportedJoinKeyType { name, table, column, pg_type } => {
                let mut m = text::owned("relationship '");
                m.append(name.as_str());
                m.append("' joins on ");
                m.append(table.as_str());
                m.append(".");
                m.append(column.as_str());
                m.append(" (");
                m.append(pg_type.as_str());
                m.append("), a type whose equality isn't text-stable, so the engine (which compares join keys as text) would silently diverge from the Postgres oracle's typed join; supported join key types are smallint, integer, bigint, oid, text, character varying, boolean, uuid, bytea, date, timestamp, time, timetz");
                m
            },
            ValidationError::RelationshipToManyRequiresReplicaIdentity { name, to_table, to_col } => {
                let mut m = text::owned("relationship '");
                m.append(name.as_str());
                m.append("' is to-many (its join key ");
                m.append(to_table.as_str());
                m.append(".");
                m.append(to_col.as_str());
                m.append(" is not unique), so the to-side needs a replica identity that carries ");
                m.append(to_col.as_str());
                m.append(" in delete/re-parent pre-images — otherwise reverse recompute can't find the from-side rows to re-derive and silently diverges from the Postgres oracle; run `ALTER TABLE ");
                m.append(to_table.as_str());
                m.append(" REPLICA IDENTITY FULL;` (or use a replica-identity index that covers ");
                m.append(to_col.as_str());
                m.append(")");
                m
            },
            ValidationError::QualifiedSourceTableNotFound { schema, table } => {
                let mut m = text::owned("FROM names '");
                m.append(schema.as_str());
                m.append(".");
                m.append(table.as_str());
                m.append("' explicitly, but schema '");
                m.append(schema.as_str());
                m.append("' has no table named '");
                m.append(table.as_str());
                m.append("'; an explicit schema.table spelling resolves to that exact relation, not a search_path walk (ADR-0007), so this is checked as written");
                m
            },
            ValidationError::QualifiedTargetTableNotFound { schema, table } => {
                let mut m = text::owned("TRANSFORM names '");
                m.append(schema.as_str());
                m.append(".");
                m.append(table.as_str());
                m.append("' explicitly, but schema '");
                m.append(schema.as_str());
                m.append("' has no table named '");
                m.append(table.as_str());
                m.append("'; an explicit schema.table spelling resolves to that exact relation, not the configured target schema (ADR-0007), so this is checked as written");
                m
            },
        }
    }
}

impl ValidationErrorView {
    /// The category of the error.
    pub open spec fn code(self) -> ErrorCode {
        if self is DuplicateRelationshipName {
            ErrorCode::Conflict
        } else {
            ErrorCode::Validation
        }
    }
}

impl ValidationError {
    /// The category of the error.
    pub fn code(&self) -> (r: ErrorCode)
        ensures
            r == self@.code(),
    {
        match self {
            ValidationError::DuplicateRelationshipName { .. } => ErrorCode::Conflict,
            _ => ErrorCode::Validation,
        }
    }
}

/// What is wrong with a relationship without making it unusable.
#[derive(Debug, PartialEq, Eq)]
pub enum RelationshipWarning {
    MissingFkIndex { from_table: String, from_col: String },
}

impl RelationshipWarning {
    pub open spec fn message(&self) -> Seq<char> {
        match self {
            RelationshipWarning::MissingFkIndex { from_table, from_col } => "no index on '"@
                + from_table@ + "."@ + from_col@
                + "'; finding rows to re-derive when a related row changes will require a full scan of '"@
                + from_table@ + "' — consider `CREATE INDEX ON "@ + from_table@ + " ("@ + from_col@
                + ");`"@,
        }
    }

    /// The warning in words.
    pub fn to_string(&self) -> (r: String)
        ensures
            r@ == self.message(),
    {
        match self {
            RelationshipWarning::MissingFkIndex { from_table, from_col } => {
                let mut m = text::owned("no index on '");
                m.append(from_table.as_str());
                m.append(".");
                m.append(from_col.as_str());
                m.append(
                    "'; finding rows to re-derive when a related row changes will require a full scan of '",
                );
                m.append(from_table.as_str());
                m.append("' — consider `CREATE INDEX ON ");
                m.append(from_table.as_str());
                m.append(" (");
                m.append(from_col.as_str());
                m.append(");`");
                m
            },
        }
    }
}

} // verus!
