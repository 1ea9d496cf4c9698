//! The types of calculated fields.

use vstd::prelude::*;

use crate::defs::ast::{
    call_view, expr_views, field_views, pg_type_name, Expr, ExprView, FieldDef, FieldDefView,
    TransformDef, ValueType, ValueTypeView,
};
use crate::defs::deps::{field_at, field_at_finds, find_field, open_fields, opening_shrinks};
use crate::defs::model::RelationshipCardinality;
use crate::defs::registry;
use crate::defs::registry::{
    aggregate_named, aggregate_type, function_named, operator_type, type_views, FunctionSpecView,
};
use crate::defs::typed_literal;
use crate::defs::validation_error::{ValidationError, ValidationErrorView};
use crate::integer::IntWidth;
use crate::names::{name_set, name_set_push, NameMap};
use crate::pattern;
use crate::text;
use crate::text::views;

verus! {

// ---------------------------------------------------------------------------
// What a definition is typed against
// ---------------------------------------------------------------------------

/// A relationship of the source table, with the types of the columns on its
/// other side.
#[derive(Debug)]
pub struct ResolvedRelationship {
    pub cardinality: RelationshipCardinality,
    pub to_table: String,
    pub to_col: String,
    pub column_types: NameMap<ValueType>,
}

/// What a [`ResolvedRelationship`] stands for.
pub struct ResolvedRelationshipView {
    pub cardinality: RelationshipCardinality,
    pub to_table: Seq<char>,
    pub to_col: Seq<char>,
    pub column_types: Map<Seq<char>, ValueTypeView>,
}

/// The view of a map of types.
pub open spec fn types_view(m: Map<Seq<char>, ValueType>) -> Map<Seq<char>, ValueTypeView> {
    m.map_values(|t: ValueType| t@)
}

impl View for ResolvedRelationship {
    type V = ResolvedRelationshipView;

    open spec fn view(&self) -> ResolvedRelationshipView {
        ResolvedRelationshipView {
            cardinality: self.cardinality,
            to_table: self.to_table@,
            to_col: self.to_col@,
            column_types: types_view(self.column_types@),
        }
    }
}

/// The view of a map of relationships.
pub open spec fn relationships_view(m: Map<Seq<char>, ResolvedRelationship>) -> Map<
    Seq<char>,
    ResolvedRelationshipView,
> {
    m.map_values(|r: ResolvedRelationship| r@)
}

/// The fields of a definition, the columns of its source table and the
/// relationships that start there.
pub struct Scope {
    pub fields: Seq<FieldDefView>,
    pub columns: Map<Seq<char>, ValueTypeView>,
    pub relationships: Map<Seq<char>, ResolvedRelationshipView>,
}

/// The scope that the given tables make.
pub open spec fn scope(
    fields: Seq<FieldDef>,
    columns: Map<Seq<char>, ValueType>,
    relationships: Map<Seq<char>, ResolvedRelationship>,
) -> Scope {
    Scope {
        fields: field_views(fields),
        columns: types_view(columns),
        relationships: relationships_view(relationships),
    }
}

// ---------------------------------------------------------------------------
// Literals
// ---------------------------------------------------------------------------

/// The digits of a literal behind its sign, if it has one.
pub open spec fn unsigned_part(s: Seq<char>) -> Seq<char> {
    if s.len() > 0 && (s[0] == '-' || s[0] == '+') {
        s.skip(1)
    } else {
        s
    }
}

/// The whole number that `s` spells in decimal, with an optional sign.
pub open spec fn whole_number(s: Seq<char>) -> Option<int> {
    let digits = unsigned_part(s);
    if digits.len() == 0 || !(forall|i: int|
        0 <= i < digits.len() ==> text::ascii_digit(#[trigger] digits[i])) {
        None
    } else {
        let n = text::digits_value(digits) as int;
        if s[0] == '-' {
            Some(-n)
        } else {
            Some(n)
        }
    }
}

/// The type of an unadorned number: `integer` where the value is whole and
/// fits, `bigint` where only that fits, and `numeric` otherwise.
pub open spec fn number_type(s: Seq<char>) -> ValueTypeView {
    match whole_number(s) {
        Some(n) => if i64::MIN <= n <= i64::MAX {
            ValueTypeView::Integer(IntWidth::narrowest_for_spec(n))
        } else {
            ValueTypeView::Numeric
        },
        None => ValueTypeView::Numeric,
    }
}

proof fn digits_value_grows(s: Seq<char>, i: int)
    requires
        0 <= i <= s.len(),
        forall|j: int| 0 <= j < s.len() ==> text::ascii_digit(#[trigger] s[j]),
    ensures
        text::digits_value(s.take(i)) <= text::digits_value(s),
    decreases s.len() - i,
{
    if i < s.len() {
        digits_value_grows(s, i + 1);
        assert(s.take(i + 1).drop_last() =~= s.take(i));
    } else {
        assert(s.take(i) =~= s);
    }
}

/// The type of an unadorned number.
pub fn number_literal_type(literal: &str) -> (r: ValueType)
    ensures
        r@ == number_type(literal@),
{
    let cs = text::chars_of(literal);
    let n: usize = cs.len();
    let signed = n > 0 && (cs[0] == '-' || cs[0] == '+');
    let negative = n > 0 && cs[0] == '-';
    let from: usize = if signed {
        1
    } else {
        0
    };
    let ghost digits = unsigned_part(literal@);
    assert(digits =~= cs@.skip(from as int));
    if from == n {
        return ValueType::Numeric;
    }
    let mut i: usize = from;
    while i < n
        invariant
            from <= i <= n == cs@.len(),
            digits == cs@.skip(from as int),
            digits == unsigned_part(literal@),
            forall|j: int| 0 <= j < i - from ==> text::ascii_digit(#[trigger] digits[j]),
        decreases n - i,
    {
        if !text::is_ascii_digit(cs[i]) {
            assert(!text::ascii_digit(digits[i - from]));
            return ValueType::Numeric;
        }
        assert(digits[i - from] == cs@[i as int]);
        i += 1;
    }
    let mut value: u128 = 0;
    let mut i: usize = from;
    while i < n
        invariant
            from <= i <= n == cs@.len(),
            from < n,
            digits == cs@.skip(from as int),
            digits == unsigned_part(literal@),
            literal@ == cs@,
            forall|j: int| 0 <= j < digits.len() ==> text::ascii_digit(#[trigger] digits[j]),
            value == text::digits_value(digits.take(i - from)),
            value <= 9223372036854775808,
        decreases n - i,
    {
        assert(digits[i - from] == cs@[i as int]);
        assert(digits.take(i + 1 - from).drop_last() =~= digits.take(i - from));
        let d: u8 = text::digit_of_char(cs[i]);
        value = 10 * value + d as u128;
        if value > 9223372036854775808 {
            proof {
                digits_value_grows(digits, i + 1 - from);
            }
            return ValueType::Numeric;
        }
        i += 1;
    }
    assert(digits.take(n - from) =~= digits);
    if negative {
        if value <= 2147483648 {
            ValueType::Integer(IntWidth::Int4)
        } else {
            ValueType::Integer(IntWidth::Int8)
        }
    } else if value <= 2147483647 {
        ValueType::Integer(IntWidth::Int4)
    } else if value <= 9223372036854775807 {
        ValueType::Integer(IntWidth::Int8)
    } else {
        ValueType::Numeric
    }
}

/// The type of a literal of the named type, if its text is spelled as it has
/// to be.
pub open spec fn literal_typing(
    field: Seq<char>,
    value_type: ValueTypeView,
    literal: Seq<char>,
) -> Result<ValueTypeView, ValidationErrorView> {
    match typed_literal::literal_type(text::upper(value_type.sql_name())) {
        None => Err(ValidationErrorView::UnsupportedLiteralType { field, value_type }),
        Some(t) => match typed_literal::literal_problem(t, literal) {
            Some(detail) => Err(
                ValidationErrorView::InvalidTypedLiteral {
                    field,
                    value_type,
                    text: literal,
                    detail,
                },
            ),
            None => Ok(t),
        },
    }
}

fn infer_literal(field: &str, value_type: ValueType, literal: &String) -> (r: Result<
    ValueType,
    ValidationError,
>)
    requires
        value_type@.qualified(),
    ensures
        match r {
            Ok(t) => literal_typing(field@, value_type@, literal@) == Ok::<
                ValueTypeView,
                ValidationErrorView,
            >(t@),
            Err(e) => literal_typing(field@, value_type@, literal@) == Err::<
                ValueTypeView,
                ValidationErrorView,
            >(e@),
        },
{
    let keyword = text::to_upper(pg_type_name(value_type).as_str());
    match typed_literal::lookup_typed_literal(keyword.as_str()) {
        None => Err(
            ValidationError::UnsupportedLiteralType { field: text::owned(field), value_type },
        ),
        Some(spec) => match spec.canonical(literal.as_str()) {
            Err(detail) => Err(
                ValidationError::InvalidTypedLiteral {
                    field: text::owned(field),
                    value_type,
                    text: literal.clone(),
                    detail: text::owned(detail),
                },
            ),
            Ok(_) => Ok(spec.value_type),
        },
    }
}

// ---------------------------------------------------------------------------
// Unification
// ---------------------------------------------------------------------------

/// The type that values of both types are read as where either may come out:
/// equal types as they are, a float with any number as the float, two
/// integers as the wider, other numbers as `numeric`.
pub open spec fn common_type(a: ValueTypeView, b: ValueTypeView) -> Option<ValueTypeView> {
    if a == b {
        Some(a)
    } else if !a.numeric_family() || !b.numeric_family() {
        None
    } else {
        Some(
            match (a, b) {
                (ValueTypeView::Float(x), ValueTypeView::Float(y)) => ValueTypeView::Float(
                    x.wider_spec(y),
                ),
                (ValueTypeView::Integer(x), ValueTypeView::Integer(y)) => ValueTypeView::Integer(
                    x.wider_spec(y),
                ),
                (l, r) => if l is Float {
                    l
                } else if r is Float {
                    r
                } else {
                    ValueTypeView::Numeric
                },
            },
        )
    }
}

/// The type that values of both types are read as where either may come out.
pub fn common_numeric_type(a: ValueType, b: ValueType) -> (r: Option<ValueType>)
    ensures
        match r {
            Some(t) => common_type(a@, b@) == Some(t@),
            None => common_type(a@, b@) is None,
        },
{
    if a.same(b) {
        return Some(a);
    }
    if !a.is_numeric_family() || !b.is_numeric_family() {
        return None;
    }
    Some(
        match (a, b) {
            (ValueType::Float(x), ValueType::Float(y)) => ValueType::Float(x.wider(y)),
            (ValueType::Float(x), _) => ValueType::Float(x),
            (_, ValueType::Float(y)) => ValueType::Float(y),
            (ValueType::Integer(x), ValueType::Integer(y)) => ValueType::Integer(x.wider(y)),
            _ => ValueType::Numeric,
        },
    )
}

/// Which type unifies two does not depend on their order.
pub proof fn common_type_is_symmetric(a: ValueTypeView, b: ValueTypeView)
    ensures
        common_type(a, b) == common_type(b, a),
{
}

// ---------------------------------------------------------------------------
// Inference
// ---------------------------------------------------------------------------

/// An expression that can be typed at all: every `COALESCE` has an argument,
/// and every literal's type can be spelled in SQL.
pub open spec fn typable(e: ExprView) -> bool
    decreases e,
{
    match e {
        ExprView::TypedLiteral { value_type, text } => value_type.qualified(),
        ExprView::BinaryOp { op, lhs, rhs } => typable(*lhs) && typable(*rhs),
        ExprView::FunctionCall { name, args } => {
            &&& name == "COALESCE"@ ==> args.len() > 0
            &&& forall|i: int| 0 <= i < args.len() ==> typable(#[trigger] args[i])
        },
        _ => true,
    }
}

/// Every field's expression can be typed at all.
pub open spec fn all_typable(fields: Seq<FieldDefView>) -> bool {
    forall|i: int| 0 <= i < fields.len() ==> typable(#[trigger] fields[i].expr)
}

/// Types found so far.
pub type Types = Map<Seq<char>, ValueTypeView>;

/// The type of a column reference that is not a calculated field.
pub open spec fn column_type(c: Scope, name: Seq<char>) -> ValueTypeView {
    if c.columns.contains_key(name) {
        c.columns[name]
    } else {
        ValueTypeView::Numeric
    }
}

/// In the field `field`, `name` means its own source column.
pub open spec fn passes_through(c: Scope, field: Seq<char>, name: Seq<char>) -> bool {
    name == field && c.columns.contains_key(name)
}

/// The type of a relationship path.
pub open spec fn path_type(
    c: Scope,
    field: Seq<char>,
    rel: Seq<char>,
    column: Seq<char>,
) -> Result<ValueTypeView, ValidationErrorView> {
    if !c.relationships.contains_key(rel) {
        Err(ValidationErrorView::UnknownRelationship { field, rel })
    } else {
        let resolved = c.relationships[rel];
        if resolved.column_types.contains_key(column) {
            Ok(resolved.column_types[column])
        } else {
            Err(ValidationErrorView::UnknownRelationshipColumn { table: resolved.to_table, column })
        }
    }
}

/// The type of an operator over operands of the given types; where there is
/// none, the operand that is not a number is named, the left one first.
pub open spec fn operator_typing(
    field: Seq<char>,
    op: crate::defs::ast::Operator,
    lhs: ValueTypeView,
    rhs: ValueTypeView,
) -> Result<ValueTypeView, ValidationErrorView> {
    match operator_type(op, lhs, rhs) {
        Some(t) => Ok(t),
        None => Err(
            ValidationErrorView::TypeMismatch {
                field,
                expected: ValueTypeView::Numeric,
                found: if lhs.numeric_family() {
                    rhs
                } else {
                    lhs
                },
            },
        ),
    }
}

/// Whether the aggregate or function `name` takes an argument of type `t`
/// where `expected` is declared.
pub open spec fn admits(
    name: Seq<char>,
    expected: ValueTypeView,
    t: ValueTypeView,
) -> bool {
    if aggregate_named(name) is Some && expected == ValueTypeView::Numeric {
        aggregate_type(name, t) is Some
    } else {
        t == expected
    }
}

/// The table row that the arguments of `name`, a scalar function or an
/// aggregate, are held to. There is none for `COUNT`, which takes an argument
/// of any type.
pub open spec fn row_named(name: Seq<char>) -> Option<FunctionSpecView> {
    if name == "COUNT"@ {
        None
    } else {
        match function_named(name) {
            Some(f) => Some(f),
            None => aggregate_named(name),
        }
    }
}

/// What is wrong with the pattern argument of `REGEXP_COUNT`.
pub open spec fn pattern_problem(field: Seq<char>, arg: ExprView) -> Option<ValidationErrorView> {
    match arg {
        ExprView::StringLiteral(p) => match pattern::pattern_error(p) {
            Some(error) => Some(
                ValidationErrorView::InvalidRegexPattern { field, pattern: p, error },
            ),
            None => None,
        },
        _ => Some(ValidationErrorView::NonLiteralRegexPattern { field }),
    }
}

/// The type of a call whose arguments have the given types.
pub open spec fn call_typing(
    field: Seq<char>,
    name: Seq<char>,
    args: Seq<ExprView>,
    row: FunctionSpecView,
    arg_types: Seq<ValueTypeView>,
) -> Result<ValueTypeView, ValidationErrorView> {
    if name == "REGEXP_COUNT"@ && args.len() > 1 && pattern_problem(field, args[1]) is Some {
        Err(pattern_problem(field, args[1])->0)
    } else if aggregate_named(name) is Some && arg_types.len() > 0 && aggregate_type(
        name,
        arg_types[0],
    ) is Some {
        Ok(aggregate_type(name, arg_types[0])->0)
    } else {
        Ok(row.return_type)
    }
}

/// The type of field `i`, with the fields of `path` still being typed and
/// `types` known: what is known is taken, and a field that is met while it is
/// being typed depends on itself.
pub open spec fn infer_field(c: Scope, i: int, path: Set<Seq<char>>, types: Types) -> Result<
    (ValueTypeView, Types),
    ValidationErrorView,
>
    decreases open_fields(c.fields, path), 0nat, c.fields[i].expr, 0nat,
{
    if i < 0 || i >= c.fields.len() {
        arbitrary()
    } else {
        let f = c.fields[i];
        if types.contains_key(f.name) {
            Ok((types[f.name], types))
        } else if path.contains(f.name) {
            Err(ValidationErrorView::Cycle { cycle: seq![f.name] })
        } else {
            proof {
                opening_shrinks(c.fields, path, i);
            }
            match infer_expr(c, f.expr, f.name, path.insert(f.name), types) {
                Err(e) => Err(e),
                Ok((t, ts)) => Ok((t, ts.insert(f.name, t))),
            }
        }
    }
}

/// The type of an expression in the field `field`.
pub open spec fn infer_expr(
    c: Scope,
    e: ExprView,
    field: Seq<char>,
    path: Set<Seq<char>>,
    types: Types,
) -> Result<(ValueTypeView, Types), ValidationErrorView>
    decreases open_fields(c.fields, path), 1nat, e, 0nat,
{
    match e {
        ExprView::Column(name) => match field_at(c.fields, name) {
            Some(i) => if passes_through(c, field, name) {
                Ok((column_type(c, name), types))
            } else {
                infer_field(c, i, path, types)
            },
            None => Ok((column_type(c, name), types)),
        },
        ExprView::NumberLiteral(n) => Ok((number_type(n), types)),
        ExprView::StringLiteral(_) => Ok((ValueTypeView::Text, types)),
        ExprView::TypedLiteral { value_type, text } => match literal_typing(
            field,
            value_type,
            text,
        ) {
            Err(e) => Err(e),
            Ok(t) => Ok((t, types)),
        },
        ExprView::RelationshipPath { rel, column } => match path_type(c, field, rel, column) {
            Err(e) => Err(e),
            Ok(t) => Ok((t, types)),
        },
        ExprView::BinaryOp { op, lhs, rhs } => match infer_expr(c, *lhs, field, path, types) {
            Err(e) => Err(e),
            Ok((l, ts1)) => match infer_expr(c, *rhs, field, path, ts1) {
                Err(e) => Err(e),
                Ok((r, ts2)) => match operator_typing(field, op, l, r) {
                    Err(e) => Err(e),
                    Ok(t) => Ok((t, ts2)),
                },
            },
        },
        ExprView::FunctionCall { name, args } => if name == "COALESCE"@ {
            match infer_common(c, args, 0, field, path, types, None) {
                Err(e) => Err(e),
                Ok((t, ts)) => Ok((t->0, ts)),
            }
        } else {
            match row_named(name) {
                None => match infer_all(c, args, 0, field, path, types) {
                    Err(e) => Err(e),
                    Ok(ts) => Ok((ValueTypeView::Numeric, ts)),
                },
                Some(row) => match infer_args(c, args, 0, name, row, field, path, types, seq![]) {
                    Err(e) => Err(e),
                    Ok((arg_types, ts)) => match call_typing(field, name, args, row, arg_types) {
                        Err(e) => Err(e),
                        Ok(t) => Ok((t, ts)),
                    },
                },
            }
        },
    }
}

/// The type that the arguments from `k` on have in common, with `common`
/// that of those before.
pub open spec fn infer_common(
    c: Scope,
    args: Seq<ExprView>,
    k: nat,
    field: Seq<char>,
    path: Set<Seq<char>>,
    types: Types,
    common: Option<ValueTypeView>,
) -> Result<(Option<ValueTypeView>, Types), ValidationErrorView>
    decreases open_fields(c.fields, path), 1nat, args, args.len() - k,
{
    if k >= args.len() {
        Ok((common, types))
    } else {
        match infer_expr(c, args[k as int], field, path, types) {
            Err(e) => Err(e),
            Ok((t, ts)) => match common {
                None => infer_common(c, args, k + 1, field, path, ts, Some(t)),
                Some(ct) => match common_type(ct, t) {
                    Some(u) => infer_common(c, args, k + 1, field, path, ts, Some(u)),
                    None => Err(
                        ValidationErrorView::FunctionArgTypeMismatch {
                            field,
                            function: "COALESCE"@,
                            arg_index: k as usize,
                            expected: ct,
                            found: t,
                        },
                    ),
                },
            },
        }
    }
}

/// The types known once all the arguments from `k` on are typed.
pub open spec fn infer_all(
    c: Scope,
    args: Seq<ExprView>,
    k: nat,
    field: Seq<char>,
    path: Set<Seq<char>>,
    types: Types,
) -> Result<Types, ValidationErrorView>
    decreases open_fields(c.fields, path), 1nat, args, args.len() - k,
{
    if k >= args.len() {
        Ok(types)
    } else {
        match infer_expr(c, args[k as int], field, path, types) {
            Err(e) => Err(e),
            Ok((t, ts)) => infer_all(c, args, k + 1, field, path, ts),
        }
    }
}

/// `acc` and the types of the arguments from `k` on, as far as the function
/// declares any.
pub open spec fn infer_args(
    c: Scope,
    args: Seq<ExprView>,
    k: nat,
    name: Seq<char>,
    row: FunctionSpecView,
    field: Seq<char>,
    path: Set<Seq<char>>,
    types: Types,
    acc: Seq<ValueTypeView>,
) -> Result<(Seq<ValueTypeView>, Types), ValidationErrorView>
    decreases open_fields(c.fields, path), 1nat, args, args.len() - k,
{
    if k >= args.len() || k >= row.arg_types.len() {
        Ok((acc, types))
    } else {
        match infer_expr(c, args[k as int], field, path, types) {
            Err(e) => Err(e),
            Ok((t, ts)) => if admits(name, row.arg_types[k as int], t) {
                infer_args(c, args, k + 1, name, row, field, path, ts, acc.push(t))
            } else {
                Err(
                    ValidationErrorView::FunctionArgTypeMismatch {
                        field,
                        function: name,
                        arg_index: k as usize,
                        expected: row.arg_types[k as int],
                        found: t,
                    },
                )
            },
        }
    }
}

/// The types of the fields from `i` on, and those known before.
pub open spec fn infer_from(c: Scope, i: nat, types: Types) -> Result<Types, ValidationErrorView>
    decreases c.fields.len() - i,
{
    if i >= c.fields.len() {
        Ok(types)
    } else {
        match infer_field(c, i as int, Set::empty(), types) {
            Err(e) => Err(e),
            Ok((t, ts)) => infer_from(c, i + 1, ts),
        }
    }
}

/// The type of every field.
pub open spec fn field_types(c: Scope) -> Result<Types, ValidationErrorView> {
    infer_from(c, 0, Map::empty())
}

// ---------------------------------------------------------------------------
// What inference comes to
// ---------------------------------------------------------------------------

/// Typing field `i` comes to no `COALESCE` without arguments, and to no
/// literal whose type cannot be spelled in SQL.
pub open spec fn field_clear(c: Scope, i: int, path: Set<Seq<char>>, types: Types) -> bool
    decreases open_fields(c.fields, path), 0nat, c.fields[i].expr, 0nat,
{
    if i < 0 || i >= c.fields.len() {
        arbitrary()
    } else {
        let f = c.fields[i];
        if types.contains_key(f.name) || path.contains(f.name) {
            true
        } else {
            proof {
                opening_shrinks(c.fields, path, i);
            }
            expr_clear(c, f.expr, f.name, path.insert(f.name), types)
        }
    }
}

/// Typing an expression comes to nothing that cannot be typed.
pub open spec fn expr_clear(
    c: Scope,
    e: ExprView,
    field: Seq<char>,
    path: Set<Seq<char>>,
    types: Types,
) -> bool
    decreases open_fields(c.fields, path), 1nat, e, 0nat,
{
    match e {
        ExprView::Column(name) => match field_at(c.fields, name) {
            Some(i) => passes_through(c, field, name) || field_clear(c, i, path, types),
            None => true,
        },
        ExprView::TypedLiteral { value_type, text } => value_type.qualified(),
        ExprView::BinaryOp { op, lhs, rhs } => {
            &&& expr_clear(c, *lhs, field, path, types)
            &&& infer_expr(c, *lhs, field, path, types) matches Ok((_, ts)) ==> expr_clear(
                c,
                *rhs,
                field,
                path,
                ts,
            )
        },
        ExprView::FunctionCall { name, args } => if name == "COALESCE"@ {
            args.len() > 0 && common_clear(c, args, 0, field, path, types, None)
        } else {
            match row_named(name) {
                None => all_clear(c, args, 0, field, path, types),
                Some(row) => args_clear(c, args, 0, name, row, field, path, types),
            }
        },
        _ => true,
    }
}

/// Typing the arguments of a `COALESCE` from `k` on comes to nothing that
/// cannot be typed.
pub open spec fn common_clear(
    c: Scope,
    args: Seq<ExprView>,
    k: nat,
    field: Seq<char>,
    path: Set<Seq<char>>,
    types: Types,
    common: Option<ValueTypeView>,
) -> bool
    decreases open_fields(c.fields, path), 1nat, args, args.len() - k,
{
    k >= args.len() || {
        &&& expr_clear(c, args[k as int], field, path, types)
        &&& match infer_expr(c, args[k as int], field, path, types) {
            Err(_) => true,
            Ok((t, ts)) => match common {
                None => common_clear(c, args, k + 1, field, path, ts, Some(t)),
                Some(ct) => match common_type(ct, t) {
                    Some(u) => common_clear(c, args, k + 1, field, path, ts, Some(u)),
                    None => true,
                },
            },
        }
    }
}

/// Typing all the arguments from `k` on comes to nothing that cannot be
/// typed.
pub open spec fn all_clear(
    c: Scope,
    args: Seq<ExprView>,
    k: nat,
    field: Seq<char>,
    path: Set<Seq<char>>,
    types: Types,
) -> bool
    decreases open_fields(c.fields, path), 1nat, args, args.len() - k,
{
    k >= args.len() || {
        &&& expr_clear(c, args[k as int], field, path, types)
        &&& infer_expr(c, args[k as int], field, path, types) matches Ok((_, ts)) ==> all_clear(
            c,
            args,
            k + 1,
            field,
            path,
            ts,
        )
    }
}

/// Typing the arguments from `k` on, as far as the function declares any,
/// comes to nothing that cannot be typed.
pub open spec fn args_clear(
    c: Scope,
    args: Seq<ExprView>,
    k: nat,
    name: Seq<char>,
    row: FunctionSpecView,
    field: Seq<char>,
    path: Set<Seq<char>>,
    types: Types,
) -> bool
    decreases open_fields(c.fields, path), 1nat, args, args.len() - k,
{
    k >= args.len() || k >= row.arg_types.len() || {
        &&& expr_clear(c, args[k as int], field, path, types)
        &&& infer_expr(c, args[k as int], field, path, types) matches Ok((t, ts)) ==> admits(
            name,
            row.arg_types[k as int],
            t,
        ) ==> args_clear(c, args, k + 1, name, row, field, path, ts)
    }
}

/// Typing the fields from `i` on comes to nothing that cannot be typed.
pub open spec fn clear_from(c: Scope, i: nat, types: Types) -> bool
    decreases c.fields.len() - i,
{
    i >= c.fields.len() || {
        &&& field_clear(c, i as int, Set::empty(), types)
        &&& infer_field(c, i as int, Set::empty(), types) matches Ok((_, ts)) ==> clear_from(
            c,
            i + 1,
            ts,
        )
    }
}

/// Typing the fields, up to the first error, comes to no `COALESCE` without
/// arguments and to no literal whose type cannot be spelled in SQL.
pub open spec fn inference_is_clear(c: Scope) -> bool {
    clear_from(c, 0, Map::empty())
}

/// Types fields one after another.
struct Typer<'a> {
    fields: &'a Vec<FieldDef>,
    columns: &'a NameMap<ValueType>,
    relationships: &'a NameMap<ResolvedRelationship>,
    types: NameMap<ValueType>,
    path: Vec<String>,
}

/// What an attempt to type came to.
spec fn came_to<T, V>(
    r: Result<T, ValidationError>,
    view: spec_fn(T) -> V,
    before: &Typer,
    after: &Typer,
    expected: Result<(V, Types), ValidationErrorView>,
) -> bool {
    &&& after.fields == before.fields
    &&& after.columns == before.columns
    &&& after.relationships == before.relationships
    &&& match r {
        Ok(t) => {
            &&& expected == Ok::<(V, Types), ValidationErrorView>((view(t), types_view(after.types@)))
            &&& after.path@ == before.path@
        },
        Err(e) => expected == Err::<(V, Types), ValidationErrorView>(e@),
    }
}

impl<'a> Typer<'a> {
    spec fn scope(&self) -> Scope {
        scope(self.fields@, self.columns@, self.relationships@)
    }

    spec fn known(&self) -> Types {
        types_view(self.types@)
    }

    spec fn on_path(&self) -> Set<Seq<char>> {
        name_set(self.path@)
    }

    fn infer_field(&mut self, i: usize) -> (r: Result<ValueType, ValidationError>)
        requires
            i < old(self).fields@.len(),
            field_clear(old(self).scope(), i as int, old(self).on_path(), old(self).known()),
        ensures
            came_to(
                r,
                |t: ValueType| t@,
                old(self),
                final(self),
                infer_field(old(self).scope(), i as int, old(self).on_path(), old(self).known()),
            ),
        decreases
                open_fields(old(self).scope().fields, old(self).on_path()),
                0nat,
                old(self).fields@[i as int].expr,
                0nat,
    {
        let fields: &'a Vec<FieldDef> = self.fields;
        let name: &'a String = &fields[i].name;
        let ghost c = self.scope();
        let ghost f = c.fields[i as int];
        assert(f == fields@[i as int]@);
        if let Some(t) = self.types.get(name.as_str()) {
            return Ok(*t);
        }
        if text::is_in(name.as_str(), &self.path) {
            let mut cycle: Vec<String> = Vec::new();
            cycle.push(name.clone());
            assert(views(cycle@) =~= seq![f.name]);
            return Err(ValidationError::Cycle { cycle });
        }
        let ghost before = self.path@;
        let ghost types0 = self.known();
        self.path.push(name.clone());
        proof {
            name_set_push(before, self.path@.last());
            opening_shrinks(c.fields, name_set(before), i as int);
            assert(self.path@ =~= before.push(self.path@.last()));
        }
        let t = match self.infer_expr(&fields[i].expr, name) {
            Ok(t) => t,
            Err(e) => {
                return Err(e);
            },
        };
        let _ = self.path.pop();
        let ghost ts = self.known();
        self.types.insert(name.clone(), t);
        proof {
            assert(self.path@ =~= before);
            assert(self.known() =~= ts.insert(f.name, t@));
        }
        Ok(t)
    }

    fn infer_expr(&mut self, expr: &Expr, field: &str) -> (r: Result<ValueType, ValidationError>)
        requires
            expr_clear(
                old(self).scope(),
                expr@,
                field@,
                old(self).on_path(),
                old(self).known(),
            ),
        ensures
            came_to(
                r,
                |t: ValueType| t@,
                old(self),
                final(self),
                infer_expr(
                    old(self).scope(),
                    expr@,
                    field@,
                    old(self).on_path(),
                    old(self).known(),
                ),
            ),
        decreases
                open_fields(old(self).scope().fields, old(self).on_path()),
                1nat,
                *expr,
                0nat,
    {
        let ghost c = self.scope();
        match expr {
            Expr::Column(name) => {
                let own_column = self.columns.get(name.as_str());
                proof {
                    field_at_finds(c.fields, name@);
                }
                let passes_through = text::same(name.as_str(), field) && own_column.is_some();
                if !passes_through {
                    if let Some(i) = find_field(self.fields, name.as_str()) {
                        return self.infer_field(i);
                    }
                }
                match own_column {
                    Some(t) => Ok(*t),
                    None => Ok(ValueType::Numeric),
                }
            },
            Expr::NumberLiteral(n) => Ok(number_literal_type(n.as_str())),
            Expr::StringLiteral(_) => Ok(ValueType::Text),
            Expr::TypedLiteral { value_type, text } => infer_literal(field, *value_type, text),
            Expr::RelationshipPath { rel, column } => {
                match self.relationships.get(rel.as_str()) {
                    None => Err(
                        ValidationError::UnknownRelationship {
                            field: text::owned(field),
                            rel: rel.clone(),
                        },
                    ),
                    Some(resolved) => match resolved.column_types.get(column.as_str()) {
                        Some(t) => Ok(*t),
                        None => Err(
                            ValidationError::UnknownRelationshipColumn {
                                table: resolved.to_table.clone(),
                                column: column.clone(),
                            },
                        ),
                    },
                }
            },
            Expr::BinaryOp { op, lhs, rhs } => {
                let l = match self.infer_expr(lhs, field) {
                    Ok(t) => t,
                    Err(e) => {
                        return Err(e);
                    },
                };
                let r = match self.infer_expr(rhs, field) {
                    Ok(t) => t,
                    Err(e) => {
                        return Err(e);
                    },
                };
                match registry::operator_result_type(*op, l, r) {
                    Some(t) => Ok(t),
                    None => {
                        let spec = registry::operator_spec(*op);
                        let (found, expected) = if l.is_numeric_family() {
                            (r, spec.arg_types.1)
                        } else {
                            (l, spec.arg_types.0)
                        };
                        Err(
                            ValidationError::TypeMismatch {
                                field: text::owned(field),
                                expected,
                                found,
                            },
                        )
                    },
                }
            },
            Expr::FunctionCall { name, args } => {
                proof {
                    call_view(*name, *args);
                }
                if text::same(name.as_str(), "COALESCE") {
                    return self.infer_common(args, field);
                }
                let is_aggregate = registry::is_aggregate_function(name.as_str());
                proof {
                    registry::aggregate_functions_have_rows(name@);
                }
                let row = if text::same(name.as_str(), "COUNT") {
                    None
                } else {
                    match registry::lookup_function(name.as_str()) {
                        Some(row) => Some(row),
                        None => registry::lookup_aggregate_function(name.as_str()),
                    }
                };
                let row = match row {
                    Some(row) => row,
                    None => {
                        return match self.infer_all(args, field) {
                            Ok(_) => Ok(ValueType::Numeric),
                            Err(e) => Err(e),
                        };
                    },
                };
                let arg_types = match self.infer_args(args, name, &row, is_aggregate, field) {
                    Ok(ts) => ts,
                    Err(e) => {
                        return Err(e);
                    },
                };
                if text::same(name.as_str(), "REGEXP_COUNT") && args.len() > 1 {
                    assert(expr_views(args@)[1] == args@[1]@);
                    match validate_regexp_pattern(field, &args[1]) {
                        Ok(_) => {},
                        Err(e) => {
                            return Err(e);
                        },
                    }
                }
                if is_aggregate && arg_types.len() > 0 {
                    assert(type_views(arg_types@)[0] == arg_types@[0]@);
                    if let Some(t) = registry::aggregate_result_type(name.as_str(), arg_types[0]) {
                        return Ok(t);
                    }
                }
                Ok(row.return_type)
            },
        }
    }

    fn infer_common(&mut self, args: &Vec<Expr>, field: &str) -> (r: Result<
        ValueType,
        ValidationError,
    >)
        requires
            args@.len() > 0,
            common_clear(
                old(self).scope(),
                expr_views(args@),
                0,
                field@,
                old(self).on_path(),
                old(self).known(),
                None,
            ),
        ensures
            came_to(
                r,
                |t: ValueType| Some(t@),
                old(self),
                final(self),
                infer_common(
                    old(self).scope(),
                    expr_views(args@),
                    0,
                    field@,
                    old(self).on_path(),
                    old(self).known(),
                    None,
                ),
            ),
        decreases
                open_fields(old(self).scope().fields, old(self).on_path()),
                1nat,
                *args,
                1nat,
    {
        let ghost c = self.scope();
        let ghost all = expr_views(args@);
        let ghost path = self.on_path();
        let ghost types0 = self.known();
        let mut common: Option<ValueType> = None;
        let mut k: usize = 0;
        while k < args.len()
            invariant
                0 <= k <= args@.len(),
                all == expr_views(args@),
                c == old(self).scope(),
                path == old(self).on_path(),
                types0 == old(self).known(),
                self.scope() == c,
                self.fields == old(self).fields,
                self.columns == old(self).columns,
                self.relationships == old(self).relationships,
                self.path@ == old(self).path@,
                k > 0 ==> common is Some,
                common_clear(
                    c,
                    all,
                    k as nat,
                    field@,
                    path,
                    self.known(),
                    match common {
                        Some(t) => Some(t@),
                        None => None,
                    },
                ),
                infer_common(c, all, 0, field@, path, types0, None) == infer_common(
                    c,
                    all,
                    k as nat,
                    field@,
                    path,
                    self.known(),
                    match common {
                        Some(t) => Some(t@),
                        None => None,
                    },
                ),
            decreases args@.len() - k,
        {
            assert(all[k as int] == args@[k as int]@);
            let t = match self.infer_expr(&args[k], field) {
                Ok(t) => t,
                Err(e) => {
                    return Err(e);
                },
            };
            match common {
                None => {
                    common = Some(t);
                },
                Some(ct) => match common_numeric_type(ct, t) {
                    Some(u) => {
                        common = Some(u);
                    },
                    None => {
                        return Err(
                            ValidationError::FunctionArgTypeMismatch {
                                field: text::owned(field),
                                function: text::owned("COALESCE"),
                                arg_index: k,
                                expected: ct,
                                found: t,
                            },
                        );
                    },
                },
            }
            k += 1;
        }
        match common {
            Some(t) => Ok(t),
            None => {
                assert(false);
                Ok(ValueType::Numeric)
            },
        }
    }

    fn infer_all(&mut self, args: &Vec<Expr>, field: &str) -> (r: Result<(), ValidationError>)
        requires
            all_clear(
                old(self).scope(),
                expr_views(args@),
                0,
                field@,
                old(self).on_path(),
                old(self).known(),
            ),
        ensures
            final(self).fields == old(self).fields,
            final(self).columns == old(self).columns,
            final(self).relationships == old(self).relationships,
            match r {
                Ok(_) => final(self).path@ == old(self).path@ && infer_all(
                    old(self).scope(),
                    expr_views(args@),
                    0,
                    field@,
                    old(self).on_path(),
                    old(self).known(),
                ) == Ok::<Types, ValidationErrorView>(final(self).known()),
                Err(e) => infer_all(
                    old(self).scope(),
                    expr_views(args@),
                    0,
                    field@,
                    old(self).on_path(),
                    old(self).known(),
                ) == Err::<Types, ValidationErrorView>(e@),
            },
        decreases
                open_fields(old(self).scope().fields, old(self).on_path()),
                1nat,
                *args,
                1nat,
    {
        let ghost c = self.scope();
        let ghost all = expr_views(args@);
        let ghost path = self.on_path();
        let ghost types0 = self.known();
        let mut k: usize = 0;
        while k < args.len()
            invariant
                0 <= k <= args@.len(),
                all == expr_views(args@),
                c == old(self).scope(),
                path == old(self).on_path(),
                types0 == old(self).known(),
                self.scope() == c,
                self.fields == old(self).fields,
                self.columns == old(self).columns,
                self.relationships == old(self).relationships,
                self.path@ == old(self).path@,
                all_clear(c, all, k as nat, field@, path, self.known()),
                infer_all(c, all, 0, field@, path, types0) == infer_all(
                    c,
                    all,
                    k as nat,
                    field@,
                    path,
                    self.known(),
                ),
            decreases args@.len() - k,
        {
            assert(all[k as int] == args@[k as int]@);
            match self.infer_expr(&args[k], field) {
                Ok(_) => {},
                Err(e) => {
                    return Err(e);
                },
            }
            k += 1;
        }
        Ok(())
    }

    fn infer_args(
        &mut self,
        args: &Vec<Expr>,
        name: &String,
        row: &registry::FunctionSpec,
        is_aggregate: bool,
        field: &str,
    ) -> (r: Result<Vec<ValueType>, ValidationError>)
        requires
            is_aggregate == (aggregate_named(name@) is Some),
            args_clear(
                old(self).scope(),
                expr_views(args@),
                0,
                name@,
                row@,
                field@,
                old(self).on_path(),
                old(self).known(),
            ),
        ensures
            came_to(
                r,
                |ts: Vec<ValueType>| type_views(ts@),
                old(self),
                final(self),
                infer_args(
                    old(self).scope(),
                    expr_views(args@),
                    0,
                    name@,
                    row@,
                    field@,
                    old(self).on_path(),
                    old(self).known(),
                    seq![],
                ),
            ),
        decreases
                open_fields(old(self).scope().fields, old(self).on_path()),
                1nat,
                *args,
                1nat,
    {
        let ghost c = self.scope();
        let ghost all = expr_views(args@);
        let ghost path = self.on_path();
        let ghost types0 = self.known();
        let mut arg_types: Vec<ValueType> = Vec::new();
        assert(type_views(arg_types@) =~= seq![]);
        let mut k: usize = 0;
        while k < args.len() && k < row.arg_types.len()
            invariant
                0 <= k <= args@.len(),
                k <= row.arg_types@.len(),
                all == expr_views(args@),
                c == old(self).scope(),
                path == old(self).on_path(),
                types0 == old(self).known(),
                self.scope() == c,
                self.fields == old(self).fields,
                self.columns == old(self).columns,
                self.relationships == old(self).relationships,
                self.path@ == old(self).path@,
                is_aggregate == (aggregate_named(name@) is Some),
                args_clear(c, all, k as nat, name@, row@, field@, path, self.known()),
                infer_args(c, all, 0, name@, row@, field@, path, types0, seq![]) == infer_args(
                    c,
                    all,
                    k as nat,
                    name@,
                    row@,
                    field@,
                    path,
                    self.known(),
                    type_views(arg_types@),
                ),
            decreases args@.len() - k,
        {
            assert(all[k as int] == args@[k as int]@);
            let ghost before = arg_types@;
            let expected = row.arg_types[k];
            assert(row@.arg_types[k as int] == expected@);
            let t = match self.infer_expr(&args[k], field) {
                Ok(t) => t,
                Err(e) => {
                    return Err(e);
                },
            };
            let admissible = if is_aggregate && expected.same(ValueType::Numeric) {
                registry::aggregate_result_type(name.as_str(), t).is_some()
            } else {
                t.same(expected)
            };
            if !admissible {
                return Err(
                    ValidationError::FunctionArgTypeMismatch {
                        field: text::owned(field),
                        function: name.clone(),
                        arg_index: k,
                        expected,
                        found: t,
                    },
                );
            }
            arg_types.push(t);
            assert(type_views(arg_types@) =~= type_views(before).push(t@));
            k += 1;
        }
        Ok(arg_types)
    }
}

/// Checks that the pattern argument of `REGEXP_COUNT` is a literal and a
/// regular expression.
fn validate_regexp_pattern(field: &str, arg: &Expr) -> (r: Result<(), ValidationError>)
    ensures
        match r {
            Ok(_) => pattern_problem(field@, arg@) is None,
            Err(e) => pattern_problem(field@, arg@) == Some(e@),
        },
{
    match arg {
        Expr::StringLiteral(p) => match pattern::compile(p.as_str()) {
            Ok(_) => Ok(()),
            Err(error) => Err(
                ValidationError::InvalidRegexPattern {
                    field: text::owned(field),
                    pattern: p.clone(),
                    error,
                },
            ),
        },
        _ => Err(ValidationError::NonLiteralRegexPattern { field: text::owned(field) }),
    }
}

/// The type of every field.
pub fn infer_field_types(
    def: &TransformDef,
    columns: &NameMap<ValueType>,
    relationships: &NameMap<ResolvedRelationship>,
) -> (r: Result<NameMap<ValueType>, ValidationError>)
    requires
        inference_is_clear(scope(def.fields@, columns@, relationships@)),
    ensures
        match r {
            Ok(types) => field_types(scope(def.fields@, columns@, relationships@)) == Ok::<
                Types,
                ValidationErrorView,
            >(types_view(types@)),
            Err(e) => field_types(scope(def.fields@, columns@, relationships@)) == Err::<
                Types,
                ValidationErrorView,
            >(e@),
        },
{
    let fields: &Vec<FieldDef> = &def.fields;
    let mut typer = Typer {
        fields,
        columns,
        relationships,
        types: NameMap::new(),
        path: Vec::new(),
    };
    let ghost c = typer.scope();
    proof {
        assert(typer.known() =~= Map::empty());
        assert(typer.on_path() =~= Set::empty());
    }
    let mut i: usize = 0;
    while i < fields.len()
        invariant
            0 <= i <= fields@.len(),
            *fields == def.fields,
            c == scope(fields@, columns@, relationships@),
            typer.fields == fields,
            typer.columns == columns,
            typer.relationships == relationships,
            typer.scope() == c,
            clear_from(c, i as nat, typer.known()),
            typer.path@.len() == 0,
            field_types(c) == infer_from(c, i as nat, typer.known()),
        decreases fields@.len() - i,
    {
        proof {
            assert(typer.on_path() =~= Set::empty());
        }
        match typer.infer_field(i) {
            Ok(_) => {},
            Err(e) => {
                return Err(e);
            },
        }
        i += 1;
    }
    Ok(typer.types)
}

// ---------------------------------------------------------------------------
// Definitions that can be typed whatever the columns are
// ---------------------------------------------------------------------------

proof fn typable_field_is_clear(c: Scope, i: int, path: Set<Seq<char>>, types: Types)
    requires
        all_typable(c.fields),
        0 <= i < c.fields.len(),
    ensures
        field_clear(c, i, path, types),
    decreases open_fields(c.fields, path), 0nat, c.fields[i].expr, 0nat,
{
    let f = c.fields[i];
    assert(typable(c.fields[i].expr));
    if !types.contains_key(f.name) && !path.contains(f.name) {
        opening_shrinks(c.fields, path, i);
        typable_expr_is_clear(c, f.expr, f.name, path.insert(f.name), types);
    }
}

proof fn typable_expr_is_clear(
    c: Scope,
    e: ExprView,
    field: Seq<char>,
    path: Set<Seq<char>>,
    types: Types,
)
    requires
        all_typable(c.fields),
        typable(e),
    ensures
        expr_clear(c, e, field, path, types),
    decreases open_fields(c.fields, path), 1nat, e, 0nat,
{
    match e {
        ExprView::Column(name) => {
            field_at_finds(c.fields, name);
            if let Some(i) = field_at(c.fields, name) {
                typable_field_is_clear(c, i, path, types);
            }
        },
        ExprView::BinaryOp { op, lhs, rhs } => {
            typable_expr_is_clear(c, *lhs, field, path, types);
            if let Ok((t, ts)) = infer_expr(c, *lhs, field, path, types) {
                typable_expr_is_clear(c, *rhs, field, path, ts);
            }
        },
        ExprView::FunctionCall { name, args } => {
            if name == "COALESCE"@ {
                typable_common_is_clear(c, args, 0, field, path, types, None);
            } else {
                match row_named(name) {
                    None => {
                        typable_all_are_clear(c, args, 0, field, path, types);
                    },
                    Some(row) => {
                        typable_args_are_clear(c, args, 0, name, row, field, path, types);
                    },
                }
            }
        },
        _ => {},
    }
}

proof fn typable_common_is_clear(
    c: Scope,
    args: Seq<ExprView>,
    k: nat,
    field: Seq<char>,
    path: Set<Seq<char>>,
    types: Types,
    common: Option<ValueTypeView>,
)
    requires
        all_typable(c.fields),
        forall|i: int| 0 <= i < args.len() ==> typable(#[trigger] args[i]),
    ensures
        common_clear(c, args, k, field, path, types, common),
    decreases open_fields(c.fields, path), 1nat, args, args.len() - k,
{
    if k < args.len() {
        typable_expr_is_clear(c, args[k as int], field, path, types);
        if let Ok((t, ts)) = infer_expr(c, args[k as int], field, path, types) {
            let next = match common {
                None => Some(t),
                Some(ct) => common_type(ct, t),
            };
            typable_common_is_clear(c, args, k + 1, field, path, ts, next);
        }
    }
}

proof fn typable_all_are_clear(
    c: Scope,
    args: Seq<ExprView>,
    k: nat,
    field: Seq<char>,
    path: Set<Seq<char>>,
    types: Types,
)
    requires
        all_typable(c.fields),
        forall|i: int| 0 <= i < args.len() ==> typable(#[trigger] args[i]),
    ensures
        all_clear(c, args, k, field, path, types),
    decreases open_fields(c.fields, path), 1nat, args, args.len() - k,
{
    if k < args.len() {
        typable_expr_is_clear(c, args[k as int], field, path, types);
        if let Ok((t, ts)) = infer_expr(c, args[k as int], field, path, types) {
            typable_all_are_clear(c, args, k + 1, field, path, ts);
        }
    }
}

proof fn typable_args_are_clear(
    c: Scope,
    args: Seq<ExprView>,
    k: nat,
    name: Seq<char>,
    row: FunctionSpecView,
    field: Seq<char>,
    path: Set<Seq<char>>,
    types: Types,
)
    requires
        all_typable(c.fields),
        forall|i: int| 0 <= i < args.len() ==> typable(#[trigger] args[i]),
    ensures
        args_clear(c, args, k, name, row, field, path, types),
    decreases open_fields(c.fields, path), 1nat, args, args.len() - k,
{
    if k < args.len() && k < row.arg_types.len() {
        typable_expr_is_clear(c, args[k as int], field, path, types);
        if let Ok((t, ts)) = infer_expr(c, args[k as int], field, path, types) {
            typable_args_are_clear(c, args, k + 1, name, row, field, path, ts);
        }
    }
}

proof fn typable_rest_is_clear(c: Scope, i: nat, types: Types)
    requires
        all_typable(c.fields),
    ensures
        clear_from(c, i, types),
    decreases c.fields.len() - i,
{
    if i < c.fields.len() {
        typable_field_is_clear(c, i as int, Set::empty(), types);
        if let Ok((t, ts)) = infer_field(c, i as int, Set::empty(), types) {
            typable_rest_is_clear(c, i + 1, ts);
        }
    }
}

/// Where every field can be typed at all, inference comes to nothing that
/// cannot be, whatever the columns and relationships are.
pub proof fn typable_definitions_are_clear(c: Scope)
    requires
        all_typable(c.fields),
    ensures
        inference_is_clear(c),
{
    typable_rest_is_clear(c, 0, Map::empty());
}

/// Every one of the expressions can be typed at all.
spec fn all_views_typable(args: Seq<ExprView>) -> bool {
    forall|i: int| 0 <= i < args.len() ==> typable(#[trigger] args[i])
}

proof fn call_is_typable(name: Seq<char>, args: Seq<ExprView>)
    ensures
        typable(ExprView::FunctionCall { name, args }) == ((name == "COALESCE"@ ==> args.len() > 0)
            && all_views_typable(args)),
{
    let e = ExprView::FunctionCall { name, args };
    assert(e->args == args);
    if !all_views_typable(args) {
        let i = choose|i: int| 0 <= i < args.len() && !typable(#[trigger] args[i]);
        assert(!typable(args[i]));
        assert(!typable(e));
    }
}

fn is_typable(expr: &Expr) -> (r: bool)
    ensures
        r == typable(expr@),
    decreases *expr, 0nat,
{
    match expr {
        Expr::TypedLiteral { value_type, text } => value_type.can_be_spelled(),
        Expr::BinaryOp { op, lhs, rhs } => is_typable(lhs) && is_typable(rhs),
        Expr::FunctionCall { name, args } => {
            proof {
                call_view(*name, *args);
                call_is_typable(name@, expr_views(args@));
            }
            (args.len() > 0 || !text::same(name.as_str(), "COALESCE")) && are_typable(args)
        },
        _ => true,
    }
}

fn are_typable(args: &Vec<Expr>) -> (r: bool)
    ensures
        r == all_views_typable(expr_views(args@)),
    decreases *args, 1nat,
{
    let ghost all = expr_views(args@);
    let mut i: usize = 0;
    while i < args.len()
        invariant
            0 <= i <= args@.len(),
            all == expr_views(args@),
            forall|j: int| 0 <= j < i ==> typable(#[trigger] all[j]),
        decreases args@.len() - i,
    {
        assert(all[i as int] == args@[i as int]@);
        if !is_typable(&args[i]) {
            assert(!typable(all[i as int]));
            return false;
        }
        i += 1;
    }
    true
}

/// Whether every field of the definition can be typed at all. If so, its types
/// can be asked for whatever the columns and relationships are.
pub fn can_be_typed(def: &TransformDef) -> (r: bool)
    ensures
        r == all_typable(def@.fields),
        r ==> forall|c: Scope| c.fields == def@.fields ==> #[trigger] inference_is_clear(c),
{
    let ghost fs = field_views(def.fields@);
    let mut i: usize = 0;
    while i < def.fields.len()
        invariant
            0 <= i <= def.fields@.len(),
            fs == field_views(def.fields@),
            forall|j: int| 0 <= j < i ==> typable(#[trigger] fs[j].expr),
        decreases def.fields@.len() - i,
    {
        assert(fs[i as int] == def.fields@[i as int]@);
        if !is_typable(&def.fields[i].expr) {
            assert(!typable(fs[i as int].expr));
            return false;
        }
        i += 1;
    }
    proof {
        assert forall|c: Scope| c.fields == def@.fields implies #[trigger] inference_is_clear(c) by {
            typable_definitions_are_clear(c);
        }
    }
    true
}

} // verus!
