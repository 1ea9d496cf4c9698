//! The operators and functions of the language, with their types: the one
//! list that the parser, the validator and the evaluator all read.

use vstd::prelude::*;

use crate::defs::ast::{Operator, ValueType, ValueTypeView};
use crate::defs::pg_type::{PgType, PgTypeView};
use crate::float::FloatWidth;
use crate::integer::IntWidth;
use crate::temporal;
use crate::text;

pub mod precedence;

verus! {

// ---------------------------------------------------------------------------
// Operators
// ---------------------------------------------------------------------------

/// One operator of the language.
#[derive(Debug, Clone, Copy)]
pub struct OperatorSpec {
    pub symbol: &'static str,
    pub operator: Operator,
    /// The operand types named when an operand is rejected. Which operands
    /// are admitted is decided by [`operator_result_type`].
    pub arg_types: (ValueType, ValueType),
    /// How tightly the operator binds.
    pub precedence: u8,
}

/// How the operator is written.
pub open spec fn operator_symbol(op: Operator) -> Seq<char> {
    match op {
        Operator::Add => "+"@,
        Operator::GreaterThan => ">"@,
    }
}

/// How tightly the operator binds.
pub open spec fn operator_precedence(op: Operator) -> u8 {
    match op {
        Operator::Add => precedence::ADDITIVE,
        Operator::GreaterThan => precedence::COMPARISON,
    }
}

/// The operator written as `symbol`, if there is one.
pub open spec fn operator_named(symbol: Seq<char>) -> Option<Operator> {
    if symbol == "+"@ {
        Some(Operator::Add)
    } else if symbol == ">"@ {
        Some(Operator::GreaterThan)
    } else {
        None
    }
}

/// The table row of `operator`.
pub fn operator_spec(operator: Operator) -> (r: OperatorSpec)
    ensures
        r.symbol@ == operator_symbol(operator),
        r.operator == operator,
        r.arg_types == (ValueType::Numeric, ValueType::Numeric),
        r.precedence == operator_precedence(operator),
{
    match operator {
        Operator::Add => OperatorSpec {
            symbol: "+",
            operator: Operator::Add,
            arg_types: (ValueType::Numeric, ValueType::Numeric),
            precedence: precedence::ADDITIVE,
        },
        Operator::GreaterThan => OperatorSpec {
            symbol: ">",
            operator: Operator::GreaterThan,
            arg_types: (ValueType::Numeric, ValueType::Numeric),
            precedence: precedence::COMPARISON,
        },
    }
}

/// The operator written as `symbol`, if there is one.
pub fn lookup_operator(symbol: &str) -> (r: Option<Operator>)
    ensures
        r == operator_named(symbol@),
{
    if *symbol == *"+" {
        Some(Operator::Add)
    } else if *symbol == *">" {
        Some(Operator::GreaterThan)
    } else {
        None
    }
}

/// The type of `lhs op rhs`, where Postgres has such an operator: a sum of
/// two integers or of two floats has the wider one's type, a sum of a float
/// with any other number is `double precision`, every other sum of numbers
/// is `numeric`, and every comparison of numbers is boolean.
pub open spec fn operator_type(
    op: Operator,
    lhs: ValueTypeView,
    rhs: ValueTypeView,
) -> Option<ValueTypeView> {
    if !lhs.numeric_family() || !rhs.numeric_family() {
        None
    } else {
        match op {
            Operator::GreaterThan => Some(ValueTypeView::Boolean),
            Operator::Add => Some(
                match (lhs, rhs) {
                    (ValueTypeView::Float(a), ValueTypeView::Float(b)) => ValueTypeView::Float(
                        a.wider_spec(b),
                    ),
                    (ValueTypeView::Integer(a), ValueTypeView::Integer(b)) => {
                        ValueTypeView::Integer(a.wider_spec(b))
                    },
                    (l, r) => if l is Float || r is Float {
                        ValueTypeView::Float(FloatWidth::Float8)
                    } else {
                        ValueTypeView::Numeric
                    },
                },
            ),
        }
    }
}

/// The type of `lhs op rhs`, where Postgres has such an operator.
pub fn operator_result_type(op: Operator, lhs: ValueType, rhs: ValueType) -> (r: Option<ValueType>)
    ensures
        match r {
            Some(t) => operator_type(op, lhs@, rhs@) == Some(t@),
            None => operator_type(op, lhs@, rhs@) is None,
        },
{
    if !lhs.is_numeric_family() || !rhs.is_numeric_family() {
        return None;
    }
    Some(
        match op {
            Operator::Add => match (lhs, rhs) {
                (ValueType::Float(a), ValueType::Float(b)) => ValueType::Float(a.wider(b)),
                (ValueType::Float(_), _) | (_, ValueType::Float(_)) => ValueType::Float(
                    FloatWidth::Float8,
                ),
                (ValueType::Integer(a), ValueType::Integer(b)) => ValueType::Integer(a.wider(b)),
                _ => ValueType::Numeric,
            },
            Operator::GreaterThan => ValueType::Boolean,
        },
    )
}

// ---------------------------------------------------------------------------
// Functions
// ---------------------------------------------------------------------------

/// One function of the language.
#[derive(Debug)]
pub struct FunctionSpec {
    /// The function's upper-case name.
    pub name: &'static str,
    pub arg_types: Vec<ValueType>,
    pub return_type: ValueType,
}

/// What a [`FunctionSpec`] stands for.
#[verifier::ext_equal]
pub struct FunctionSpecView {
    pub name: Seq<char>,
    pub arg_types: Seq<ValueTypeView>,
    pub return_type: ValueTypeView,
}

/// The views of a sequence of types.
pub open spec fn type_views(s: Seq<ValueType>) -> Seq<ValueTypeView> {
    Seq::new(s.len(), |i: int| s[i]@)
}

impl View for FunctionSpec {
    type V = FunctionSpecView;

    open spec fn view(&self) -> FunctionSpecView {
        FunctionSpecView {
            name: self.name@,
            arg_types: type_views(self.arg_types@),
            return_type: self.return_type@,
        }
    }
}

/// A table row.
pub open spec fn row(
    name: Seq<char>,
    arg_types: Seq<ValueTypeView>,
    return_type: ValueTypeView,
) -> FunctionSpecView {
    FunctionSpecView { name, arg_types, return_type }
}

fn no_args(name: &'static str, return_type: ValueType) -> (r: FunctionSpec)
    ensures
        r@ == row(name@, seq![], return_type@),
{
    let r = FunctionSpec { name, arg_types: Vec::new(), return_type };
    assert(r@.arg_types =~= seq![]);
    r
}

fn one_arg(name: &'static str, arg: ValueType, return_type: ValueType) -> (r: FunctionSpec)
    ensures
        r@ == row(name@, seq![arg@], return_type@),
{
    let mut arg_types: Vec<ValueType> = Vec::new();
    arg_types.push(arg);
    let r = FunctionSpec { name, arg_types, return_type };
    assert(r@.arg_types =~= seq![arg@]);
    r
}

fn two_args(
    name: &'static str,
    first: ValueType,
    second: ValueType,
    return_type: ValueType,
) -> (r: FunctionSpec)
    ensures
        r@ == row(name@, seq![first@, second@], return_type@),
{
    let mut arg_types: Vec<ValueType> = Vec::new();
    arg_types.push(first);
    arg_types.push(second);
    let r = FunctionSpec { name, arg_types, return_type };
    assert(r@.arg_types =~= seq![first@, second@]);
    r
}

/// The scalar function with the given upper-case name: all of them take
/// text and return an `integer`.
pub open spec fn function_named(name: Seq<char>) -> Option<FunctionSpecView> {
    let text = ValueTypeView::Text;
    let int4 = ValueTypeView::Integer(IntWidth::Int4);
    if name == "STRPOS"@ {
        Some(row("STRPOS"@, seq![text, text], int4))
    } else if name == "OCTET_LENGTH"@ {
        Some(row("OCTET_LENGTH"@, seq![text], int4))
    } else if name == "CHAR_LENGTH"@ {
        Some(row("CHAR_LENGTH"@, seq![text], int4))
    } else if name == "REGEXP_COUNT"@ {
        Some(row("REGEXP_COUNT"@, seq![text, text], int4))
    } else {
        None
    }
}

/// The view of an optional table row.
pub open spec fn opt_function_view(r: Option<FunctionSpec>) -> Option<FunctionSpecView> {
    match r {
        Some(f) => Some(f@),
        None => None,
    }
}

/// The scalar function with the given upper-case name.
pub fn lookup_function(name: &str) -> (r: Option<FunctionSpec>)
    ensures
        opt_function_view(r) == function_named(name@),
{
    let int4 = ValueType::Integer(IntWidth::Int4);
    if *name == *"STRPOS" {
        Some(two_args("STRPOS", ValueType::Text, ValueType::Text, int4))
    } else if *name == *"OCTET_LENGTH" {
        Some(one_arg("OCTET_LENGTH", ValueType::Text, int4))
    } else if *name == *"CHAR_LENGTH" {
        Some(one_arg("CHAR_LENGTH", ValueType::Text, int4))
    } else if *name == *"REGEXP_COUNT" {
        Some(two_args("REGEXP_COUNT", ValueType::Text, ValueType::Text, int4))
    } else {
        None
    }
}

// ---------------------------------------------------------------------------
// Aggregates
// ---------------------------------------------------------------------------

/// The names of the aggregate functions.
pub const AGGREGATE_FUNCTIONS: [&'static str; 7] = [
    "SUM",
    "COUNT",
    "AVG",
    "MIN",
    "MAX",
    "BOOL_AND",
    "BOOL_OR",
];

/// `name` is the upper-case name of an aggregate function.
pub open spec fn aggregate_name(name: Seq<char>) -> bool {
    name == "SUM"@ || name == "COUNT"@ || name == "AVG"@ || name == "MIN"@ || name == "MAX"@ || name
        == "BOOL_AND"@ || name == "BOOL_OR"@
}

/// Whether `name` is the upper-case name of an aggregate function.
pub fn is_aggregate_function(name: &str) -> (r: bool)
    ensures
        r == aggregate_name(name@),
{
    *name == *"SUM" || *name == *"COUNT" || *name == *"AVG" || *name == *"MIN" || *name == *"MAX"
        || *name == *"BOOL_AND" || *name == *"BOOL_OR"
}

/// The aggregate function with the given upper-case name. `COUNT` declares no
/// argument: `COUNT(*)` has none, and `COUNT(<expr>)` takes one of any type.
pub open spec fn aggregate_named(name: Seq<char>) -> Option<FunctionSpecView> {
    let numeric = ValueTypeView::Numeric;
    let boolean = ValueTypeView::Boolean;
    if name == "SUM"@ {
        Some(row("SUM"@, seq![numeric], numeric))
    } else if name == "MIN"@ {
        Some(row("MIN"@, seq![numeric], numeric))
    } else if name == "MAX"@ {
        Some(row("MAX"@, seq![numeric], numeric))
    } else if name == "AVG"@ {
        Some(row("AVG"@, seq![numeric], numeric))
    } else if name == "COUNT"@ {
        Some(row("COUNT"@, seq![], numeric))
    } else if name == "BOOL_AND"@ {
        Some(row("BOOL_AND"@, seq![boolean], boolean))
    } else if name == "BOOL_OR"@ {
        Some(row("BOOL_OR"@, seq![boolean], boolean))
    } else {
        None
    }
}

/// The aggregate function with the given upper-case name.
pub fn lookup_aggregate_function(name: &str) -> (r: Option<FunctionSpec>)
    ensures
        opt_function_view(r) == aggregate_named(name@),
{
    if *name == *"SUM" {
        Some(one_arg("SUM", ValueType::Numeric, ValueType::Numeric))
    } else if *name == *"MIN" {
        Some(one_arg("MIN", ValueType::Numeric, ValueType::Numeric))
    } else if *name == *"MAX" {
        Some(one_arg("MAX", ValueType::Numeric, ValueType::Numeric))
    } else if *name == *"AVG" {
        Some(one_arg("AVG", ValueType::Numeric, ValueType::Numeric))
    } else if *name == *"COUNT" {
        Some(no_args("COUNT", ValueType::Numeric))
    } else if *name == *"BOOL_AND" {
        Some(one_arg("BOOL_AND", ValueType::Boolean, ValueType::Boolean))
    } else if *name == *"BOOL_OR" {
        Some(one_arg("BOOL_OR", ValueType::Boolean, ValueType::Boolean))
    } else {
        None
    }
}

/// The type of aggregate `name` over an argument of type `arg`, where
/// Postgres has such an aggregate. A sum of narrow integers is a `bigint`, a
/// sum of `bigint`s or decimals a `numeric`, a sum of floats or intervals
/// keeps its type; an average of floats is `double precision`, of exact
/// numbers `numeric`; a least or greatest value has its argument's type.
pub open spec fn aggregate_type(name: Seq<char>, arg: ValueTypeView) -> Option<ValueTypeView> {
    match arg {
        ValueTypeView::Other(t) => if name == "MIN"@ || name == "MAX"@ {
            if temporal::has_min_max(t) {
                Some(arg)
            } else {
                None
            }
        } else if name == "SUM"@ && t == PgTypeView::Interval {
            Some(arg)
        } else {
            None
        },
        ValueTypeView::Boolean => if name == "BOOL_AND"@ || name == "BOOL_OR"@ {
            Some(ValueTypeView::Boolean)
        } else {
            None
        },
        _ => if !arg.numeric_family() {
            None
        } else if name == "SUM"@ {
            Some(
                match arg {
                    ValueTypeView::Float(_) => arg,
                    ValueTypeView::Integer(IntWidth::Int2)
                    | ValueTypeView::Integer(IntWidth::Int4) => ValueTypeView::Integer(
                        IntWidth::Int8,
                    ),
                    _ => ValueTypeView::Numeric,
                },
            )
        } else if name == "AVG"@ {
            if arg is Float {
                Some(ValueTypeView::Float(FloatWidth::Float8))
            } else {
                Some(ValueTypeView::Numeric)
            }
        } else if name == "MIN"@ || name == "MAX"@ {
            Some(arg)
        } else {
            None
        },
    }
}

/// The type of aggregate `name` over an argument of type `arg`, where
/// Postgres has such an aggregate.
pub fn aggregate_result_type(name: &str, arg: ValueType) -> (r: Option<ValueType>)
    ensures
        match r {
            Some(t) => aggregate_type(name@, arg@) == Some(t@),
            None => aggregate_type(name@, arg@) is None,
        },
{
    if let ValueType::Other(pg_type) = arg {
        if *name == *"MIN" || *name == *"MAX" {
            return if temporal::supports_min_max(pg_type) {
                Some(arg)
            } else {
                None
            };
        }
        return if *name == *"SUM" && pg_type.same(PgType::Interval) {
            Some(arg)
        } else {
            None
        };
    }
    if let ValueType::Boolean = arg {
        return if *name == *"BOOL_AND" || *name == *"BOOL_OR" {
            Some(ValueType::Boolean)
        } else {
            None
        };
    }
    if !arg.is_numeric_family() {
        return None;
    }
    if *name == *"SUM" {
        Some(
            match arg {
                ValueType::Integer(IntWidth::Int2)
                | ValueType::Integer(IntWidth::Int4) => ValueType::Integer(IntWidth::Int8),
                ValueType::Float(width) => ValueType::Float(width),
                _ => ValueType::Numeric,
            },
        )
    } else if *name == *"AVG" {
        match arg {
            ValueType::Float(_) => Some(ValueType::Float(FloatWidth::Float8)),
            _ => Some(ValueType::Numeric),
        }
    } else if *name == *"MIN" || *name == *"MAX" {
        Some(arg)
    } else {
        None
    }
}

// ---------------------------------------------------------------------------
// Names that are refused
// ---------------------------------------------------------------------------

/// Names whose value depends on more than their arguments.
pub const NON_IMMUTABLE_NAMES: [&'static str; 8] = [
    "NOW",
    "CURRENT_TIMESTAMP",
    "CURRENT_DATE",
    "CURRENT_TIME",
    "CLOCK_TIMESTAMP",
    "RANDOM",
    "STATEMENT_TIMESTAMP",
    "TRANSACTION_TIMESTAMP",
];

/// `name` is the upper-case name of a construct whose value depends on more
/// than its arguments.
pub open spec fn non_immutable(name: Seq<char>) -> bool {
    name == "NOW"@ || name == "CURRENT_TIMESTAMP"@ || name == "CURRENT_DATE"@ || name
        == "CURRENT_TIME"@ || name == "CLOCK_TIMESTAMP"@ || name == "RANDOM"@ || name
        == "STATEMENT_TIMESTAMP"@ || name == "TRANSACTION_TIMESTAMP"@
}

/// Whether `name` is the upper-case name of a construct whose value depends
/// on more than its arguments.
pub fn is_non_immutable(name: &str) -> (r: bool)
    ensures
        r == non_immutable(name@),
{
    *name == *"NOW" || *name == *"CURRENT_TIMESTAMP" || *name == *"CURRENT_DATE" || *name
        == *"CURRENT_TIME" || *name == *"CLOCK_TIMESTAMP" || *name == *"RANDOM" || *name
        == *"STATEMENT_TIMESTAMP" || *name == *"TRANSACTION_TIMESTAMP"
}

// ---------------------------------------------------------------------------
// Laws
// ---------------------------------------------------------------------------

/// Looking up the symbol of an operator finds the operator.
pub proof fn operator_symbols_round_trip(op: Operator)
    ensures
        operator_named(operator_symbol(op)) == Some(op),
{
    reveal_strlit("+");
    reveal_strlit(">");
    assert("+"@[0] != ">"@[0]);
}

/// The type of an operator does not depend on the order of its operands.
pub proof fn operator_types_are_symmetric(op: Operator, lhs: ValueTypeView, rhs: ValueTypeView)
    ensures
        operator_type(op, lhs, rhs) == operator_type(op, rhs, lhs),
{
}

/// A sum of numbers is a number, and is a float exactly if an operand is.
pub proof fn sums_stay_numeric(lhs: ValueTypeView, rhs: ValueTypeView)
    ensures
        operator_type(Operator::Add, lhs, rhs) is Some <==> lhs.numeric_family()
            && rhs.numeric_family(),
        operator_type(Operator::Add, lhs, rhs) matches Some(t) ==> t.numeric_family() && (t is Float
            <==> lhs is Float || rhs is Float),
{
}

/// `SUM`, `AVG`, `MIN` and `MAX` are defined over every number type, and give
/// a float exactly for a float.
pub proof fn aggregates_stay_in_their_family(name: Seq<char>, arg: ValueTypeView)
    requires
        name == "SUM"@ || name == "AVG"@ || name == "MIN"@ || name == "MAX"@,
        arg.numeric_family(),
    ensures
        aggregate_type(name, arg) matches Some(t) && t.numeric_family() && (t is Float <==> arg
            is Float),
{
}

/// The list of aggregate functions holds exactly the names that have a row,
/// and each row is under its own name.
pub proof fn aggregate_functions_have_rows(name: Seq<char>)
    ensures
        aggregate_name(name) <==> aggregate_named(name) is Some,
        aggregate_name(name) <==> exists|i: int|
            0 <= i < AGGREGATE_FUNCTIONS@.len() && #[trigger] AGGREGATE_FUNCTIONS@[i]@ == name,
        aggregate_named(name) matches Some(f) ==> f.name == name,
        aggregate_named(name) matches Some(f) ==> f.arg_types.len() == (if name == "COUNT"@ {
            0int
        } else {
            1
        }),
{
    reveal_strlit("COUNT");
    reveal_strlit("SUM");
    reveal_strlit("MIN");
    reveal_strlit("MAX");
    reveal_strlit("AVG");
    reveal_strlit("BOOL_AND");
    reveal_strlit("BOOL_OR");
    assert(AGGREGATE_FUNCTIONS@[0]@ == "SUM"@);
    assert(AGGREGATE_FUNCTIONS@[1]@ == "COUNT"@);
    assert(AGGREGATE_FUNCTIONS@[2]@ == "AVG"@);
    assert(AGGREGATE_FUNCTIONS@[3]@ == "MIN"@);
    assert(AGGREGATE_FUNCTIONS@[4]@ == "MAX"@);
    assert(AGGREGATE_FUNCTIONS@[5]@ == "BOOL_AND"@);
    assert(AGGREGATE_FUNCTIONS@[6]@ == "BOOL_OR"@);
    assert(aggregate_named(name) matches Some(f) ==> f.arg_types.len() == (if name == "COUNT"@ {
        0int
    } else {
        1
    })) by {
        if name == "COUNT"@ {
            assert("COUNT"@[0] == 'C');
            assert("SUM"@[0] == 'S');
            assert("AVG"@[0] == 'A');
            assert("MIN"@[0] == 'M');
            assert("MAX"@[0] == 'M');
        }
    }
}

/// Every scalar function takes text only, at least one and at most two, and
/// returns an `integer`; none shares its name with an aggregate.
pub proof fn functions_take_text(name: Seq<char>)
    ensures
        function_named(name) matches Some(f) ==> {
            &&& f.name == name
            &&& 1 <= f.arg_types.len() <= 2
            &&& forall|i: int| 0 <= i < f.arg_types.len() ==> #[trigger] f.arg_types[i]
                == ValueTypeView::Text
            &&& f.return_type == ValueTypeView::Integer(IntWidth::Int4)
            &&& !aggregate_name(name)
        },
{
    reveal_strlit("STRPOS");
    reveal_strlit("OCTET_LENGTH");
    reveal_strlit("CHAR_LENGTH");
    reveal_strlit("REGEXP_COUNT");
    reveal_strlit("COUNT");
    reveal_strlit("SUM");
    reveal_strlit("MIN");
    reveal_strlit("MAX");
    reveal_strlit("AVG");
    reveal_strlit("BOOL_AND");
    reveal_strlit("BOOL_OR");
    if function_named(name) is Some {
        assert(name.len() == 6 || name.len() == 12 || name.len() == 11);
    }
}

/// No name is both that of an aggregate and that of a function over values,
/// `COALESCE` among them.
pub proof fn aggregates_are_no_functions()
    ensures
        forall|name: Seq<char>| #[trigger] aggregate_name(name) ==> function_named(name) is None
            && name != "COALESCE"@,
{
    reveal_strlit("SUM");
    reveal_strlit("COUNT");
    reveal_strlit("AVG");
    reveal_strlit("MIN");
    reveal_strlit("MAX");
    reveal_strlit("BOOL_AND");
    reveal_strlit("BOOL_OR");
    reveal_strlit("STRPOS");
    reveal_strlit("OCTET_LENGTH");
    reveal_strlit("CHAR_LENGTH");
    reveal_strlit("REGEXP_COUNT");
    reveal_strlit("COALESCE");
    assert forall|name: Seq<char>| #[trigger] aggregate_name(name) implies function_named(
        name,
    ) is None && name != "COALESCE"@ by {
        assert("SUM"@.len() == 3 && "AVG"@.len() == 3 && "MIN"@.len() == 3 && "MAX"@.len() == 3);
        assert("COUNT"@.len() == 5 && "BOOL_AND"@.len() == 8 && "BOOL_OR"@.len() == 7);
        assert("STRPOS"@.len() == 6 && "OCTET_LENGTH"@.len() == 12 && "CHAR_LENGTH"@.len() == 11);
        assert("REGEXP_COUNT"@.len() == 12 && "COALESCE"@.len() == 8);
        assert("BOOL_AND"@[0] == 'B' && "COALESCE"@[0] == 'C');
    }
}

} // verus!
