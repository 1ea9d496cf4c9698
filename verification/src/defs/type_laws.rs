//! The types of operators, aggregates and literals, by the range of values
//! that each type holds.

use vstd::prelude::*;

use crate::defs::arithmetic_laws::fold_names_differ;
use crate::defs::ast::{Operator, ValueTypeView};
use crate::defs::pg_type::PgTypeView;
use crate::defs::registry::{aggregate_named, aggregate_type, operator_type};
use crate::defs::typing::{admits, common_type, number_type};
use crate::float::FloatWidth;
use crate::integer::IntWidth;
use crate::text::{ascii_digit, digits_value};

verus! {

/// Where a type of numbers comes on the ladder on which every type takes in
/// the values of those before it; none for a type of other values.
pub open spec fn rung(t: ValueTypeView) -> Option<int> {
    match t {
        ValueTypeView::Integer(IntWidth::Int2) => Some(0),
        ValueTypeView::Integer(IntWidth::Int4) => Some(1),
        ValueTypeView::Integer(IntWidth::Int8) => Some(2),
        ValueTypeView::Numeric => Some(3),
        ValueTypeView::Float(FloatWidth::Float4) => Some(4),
        ValueTypeView::Float(FloatWidth::Float8) => Some(5),
        _ => None,
    }
}

/// What two types have in common is the type itself where they are one, of
/// different number types the higher on the ladder, and nothing otherwise.
pub proof fn common_types_are_the_higher(a: ValueTypeView, b: ValueTypeView)
    ensures
        common_type(a, a) == Some(a),
        a != b ==> (common_type(a, b) is Some <==> rung(a) is Some && rung(b) is Some),
        rung(a) is Some && rung(b) is Some ==> {
            &&& common_type(a, b) matches Some(t)
            &&& t == a || t == b
            &&& rung(t)->0 >= rung(a)->0 && rung(t)->0 >= rung(b)->0
        },
{
}

/// Numbers are added as their common type, but a float and another number in
/// double precision. Only numbers can be added or compared.
pub proof fn sums_have_a_common_type(a: ValueTypeView, b: ValueTypeView)
    ensures
        operator_type(Operator::Add, a, b) == if rung(a) is None || rung(b) is None {
            None
        } else if (a is Float) == (b is Float) {
            common_type(a, b)
        } else {
            Some(ValueTypeView::Float(FloatWidth::Float8))
        },
        operator_type(Operator::GreaterThan, a, b) == if rung(a) is None || rung(b) is None {
            None
        } else {
            Some(ValueTypeView::Boolean)
        },
{
}

/// A sum of numbers has a type no lower on the ladder: that of floats stays,
/// and that of whole numbers goes up, past `bigint` to `numeric`.
pub proof fn sums_go_up(t: ValueTypeView)
    ensures
        rung(t) matches Some(n) ==> {
            &&& aggregate_type("SUM"@, t) matches Some(s)
            &&& rung(s) matches Some(m)
            &&& m >= n
            &&& m == n <==> n >= 3
            &&& m == 2 <==> n <= 1
        },
        rung(t) is None ==> aggregate_type("SUM"@, t) == if t == ValueTypeView::Other(
            PgTypeView::Interval,
        ) {
            Some(t)
        } else {
            None
        },
{
    fold_names_differ();
}

/// An average of floats is in double precision, of other numbers `numeric`,
/// and there is none of anything else.
pub proof fn averages_are_fractions(t: ValueTypeView)
    ensures
        aggregate_type("AVG"@, t) == match rung(t) {
            Some(n) => Some(
                if n > 3 {
                    ValueTypeView::Float(FloatWidth::Float8)
                } else {
                    ValueTypeView::Numeric
                },
            ),
            None => None,
        },
{
    fold_names_differ();
}

/// The least and the greatest value have the type of the values: numbers, or
/// what has a place in time.
pub proof fn extremes_keep_their_type(t: ValueTypeView)
    ensures
        aggregate_type("MIN"@, t) == aggregate_type("MAX"@, t),
        aggregate_type("MIN"@, t) matches Some(s) ==> s == t,
        aggregate_type("MIN"@, t) is Some <==> rung(t) is Some || (t matches ValueTypeView::Other(p)
            && (p == PgTypeView::Date || p == PgTypeView::Timestamp || p == PgTypeView::TimestampTz
            || p == PgTypeView::Time || p == PgTypeView::TimeTz)),
{
    fold_names_differ();
}

/// The folds of truth values take truth values only, and come to one.
pub proof fn truth_folds_take_truths(t: ValueTypeView)
    ensures
        aggregate_type("BOOL_AND"@, t) == aggregate_type("BOOL_OR"@, t),
        aggregate_type("BOOL_AND"@, t) == if t == ValueTypeView::Boolean {
            Some(ValueTypeView::Boolean)
        } else {
            None
        },
{
    fold_names_differ();
}

/// An aggregate takes an argument exactly if it has a type over it, and every
/// other function exactly what it declares.
pub proof fn arguments_are_admitted(name: Seq<char>, t: ValueTypeView)
    ensures
        aggregate_named(name) is Some && name != "COUNT"@ ==> (admits(
            name,
            (aggregate_named(name)->0).arg_types[0],
            t,
        ) <==> aggregate_type(name, t) is Some),
        aggregate_named(name) is None ==> forall|expected: ValueTypeView| #[trigger]
            admits(name, expected, t) <==> t == expected,
{
    fold_names_differ();
}

/// A whole number without a sign has the narrowest type that holds it, but none
/// narrower than `integer`.
pub proof fn whole_numbers_have_the_narrowest_type(s: Seq<char>)
    requires
        s.len() > 0,
        forall|i: int| 0 <= i < s.len() ==> ascii_digit(#[trigger] s[i]),
    ensures
        number_type(s) == ValueTypeView::Integer(IntWidth::Int4) <==> digits_value(s)
            <= 2_147_483_647,
        number_type(s) == ValueTypeView::Integer(IntWidth::Int8) <==> 2_147_483_647 < digits_value(
            s,
        ) <= 9_223_372_036_854_775_807,
        number_type(s) == ValueTypeView::Numeric <==> digits_value(s) > 9_223_372_036_854_775_807,
{
    assert(ascii_digit(s[0]));
}

/// A number with a fraction is `numeric`.
pub proof fn fractions_are_numeric(s: Seq<char>)
    requires
        s.contains('.'),
    ensures
        number_type(s) == ValueTypeView::Numeric,
{
    let i = s.index_of('.');
    let digits = crate::defs::typing::unsigned_part(s);
    if digits == s {
        assert(!ascii_digit(digits[i]));
    } else {
        assert(digits == s.skip(1));
        assert(digits[i - 1] == '.');
    }
}

} // verus!
