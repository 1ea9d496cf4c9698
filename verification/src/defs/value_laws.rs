//! What literals and columns are worth, and what spans of time add up to.

use vstd::prelude::*;

use crate::defs::arithmetic_laws::fold_names_differ;
use crate::defs::ast::{ExprView, FieldDefView, Operator, ValueTypeView};
use crate::defs::builtins::{
    aggregate_value, as_float, has_float, in_field, interval_of, intervals, numbers, operator_value,
    span_total, Overflow,
};
use crate::defs::eval::{group_given, row_given};
use crate::defs::pg_type::PgTypeView;
use crate::defs::relationship_data::{cell, ContextView, RowView};
use crate::defs::value::{value_of, EvalErrorView, ValueView};
use crate::float::FloatWidth;
use crate::interval::{interval_spelled, IntervalView};
use crate::numeric::{spelling_reads_back, NumericView};

verus! {

// ---------------------------------------------------------------------------
// Literals
// ---------------------------------------------------------------------------

/// A string is worth itself, a number what it spells, and a typed literal what
/// a column of its type is worth that holds its text. Over a group they are
/// worth the same as over a row.
pub proof fn literals_are_worth_what_they_spell(
    fields: Seq<FieldDefView>,
    row: RowView,
    rows: Seq<RowView>,
    keys: Set<Seq<char>>,
    columns: Map<Seq<char>, ValueTypeView>,
    context: ContextView,
    field: Seq<char>,
    v: NumericView,
    t: ValueTypeView,
    s: Seq<char>,
    n: Seq<char>,
)
    requires
        row.contains_key(n),
        row[n] == Some(s),
        columns.contains_key(n),
        columns[n] == t,
    ensures
        row_given(fields, row, columns, context, ExprView::StringLiteral(s), field) == Some(
            Ok::<Option<ValueView>, EvalErrorView>(Some(ValueView::Text(s))),
        ),
        row_given(fields, row, columns, context, ExprView::NumberLiteral(v.spelling()), field)
            == Some(Ok::<Option<ValueView>, EvalErrorView>(Some(ValueView::Numeric(v)))),
        row_given(
            fields,
            row,
            columns,
            context,
            (ExprView::TypedLiteral { value_type: t, text: s }),
            field,
        ) == Some(cell(row, columns, field, n)),
        forall|e: ExprView|
            e is StringLiteral || e is NumberLiteral || e is TypedLiteral
                ==> #[trigger] group_given(fields, rows, keys, columns, e, field) == row_given(
                fields,
                row,
                columns,
                context,
                e,
                field,
            ),
{
    spelling_reads_back(v);
}

/// A text is worth itself as a text, and so it is as an identifier or as a
/// value that is only passed through; as an exact number of any type it is
/// worth the number that it spells.
pub proof fn texts_are_worth_what_their_type_says(
    field: Seq<char>,
    s: Seq<char>,
    v: NumericView,
    t: ValueTypeView,
    p: PgTypeView,
)
    ensures
        value_of(field, ValueTypeView::Text, s) == Ok::<ValueView, EvalErrorView>(
            ValueView::Text(s),
        ),
        value_of(field, ValueTypeView::Uuid, s) == Ok::<ValueView, EvalErrorView>(
            ValueView::Uuid(s),
        ),
        value_of(field, ValueTypeView::Other(p), s) == Ok::<ValueView, EvalErrorView>(
            ValueView::Other(p, s),
        ),
        t is Integer || t is Numeric ==> value_of(field, t, v.spelling()) == Ok::<
            ValueView,
            EvalErrorView,
        >(ValueView::Numeric(v)),
{
    spelling_reads_back(v);
}

/// The truth values are spelled by their first letter, or in full, and nothing
/// spells both.
pub proof fn truth_values_are_spelled(field: Seq<char>)
    ensures
        value_of(field, ValueTypeView::Boolean, "t"@) == Ok::<ValueView, EvalErrorView>(
            ValueView::Boolean(true),
        ),
        value_of(field, ValueTypeView::Boolean, "true"@) == Ok::<ValueView, EvalErrorView>(
            ValueView::Boolean(true),
        ),
        value_of(field, ValueTypeView::Boolean, "f"@) == Ok::<ValueView, EvalErrorView>(
            ValueView::Boolean(false),
        ),
        value_of(field, ValueTypeView::Boolean, "false"@) == Ok::<ValueView, EvalErrorView>(
            ValueView::Boolean(false),
        ),
        forall|s: Seq<char>| #[trigger]
            value_of(field, ValueTypeView::Boolean, s) matches Ok(v) ==> s.len() > 0 && (v
                == ValueView::Boolean(true) || v == ValueView::Boolean(false)) && (v
                == ValueView::Boolean(true) <==> s[0] == 't' || s[0] == 'T') && (v
                == ValueView::Boolean(false) <==> s[0] == 'f' || s[0] == 'F'),
{
    reveal_strlit("t");
    reveal_strlit("true");
    reveal_strlit("TRUE");
    reveal_strlit("True");
    reveal_strlit("f");
    reveal_strlit("false");
    reveal_strlit("FALSE");
    reveal_strlit("False");
    assert("t"@[0] == 't' && "f"@[0] == 'f' && "true"@[0] == 't' && "false"@[0] == 'f');
    assert("TRUE"@[0] == 'T' && "True"@[0] == 'T' && "FALSE"@[0] == 'F' && "False"@[0] == 'F');
}

/// A value that is computed for a field is that value, and what is out of range
/// is an error that names the field and the range.
pub proof fn computed_values_stay(field: Seq<char>, v: Option<ValueView>, w: FloatWidth)
    ensures
        in_field(Ok::<Option<ValueView>, Overflow>(v), field) == Ok::<
            Option<ValueView>,
            EvalErrorView,
        >(v),
        in_field(Err::<Option<ValueView>, Overflow>(Overflow::Float(w)), field) == Err::<
            Option<ValueView>,
            EvalErrorView,
        >(EvalErrorView::FloatOutOfRange { field, width: w }),
        in_field(Err::<Option<ValueView>, Overflow>(Overflow::Interval), field) == Err::<
            Option<ValueView>,
            EvalErrorView,
        >(EvalErrorView::IntervalOutOfRange { field }),
{
}

/// A decimal and a float are added and compared as doubles, whichever comes
/// first.
pub proof fn decimals_meet_floats_as_doubles(op: Operator, n: NumericView, f: ValueView)
    requires
        f is Float,
        as_float(ValueView::Numeric(n)) is Some,
    ensures
        ({
            let d = Some(
                ValueView::Float((as_float(ValueView::Numeric(n))->0).0, FloatWidth::Float8),
            );
            let g = Some(ValueView::Float(f->Float_0, FloatWidth::Float8));
            let m = Some(ValueView::Numeric(n));
            &&& operator_value(op, m, Some(f)) == operator_value(op, d, g)
            &&& operator_value(op, Some(f), m) == operator_value(op, g, d)
        }),
{
}

// ---------------------------------------------------------------------------
// Spans of time
// ---------------------------------------------------------------------------

/// A span of time that a text spells.
pub open spec fn is_span(v: ValueView) -> bool {
    v matches ValueView::Other(PgTypeView::Interval, _) && interval_of(v) is Some
}

proof fn spans_are_the_values(vs: Seq<ValueView>)
    requires
        forall|i: int| 0 <= i < vs.len() ==> is_span(#[trigger] vs[i]),
    ensures
        intervals(vs).len() == vs.len(),
        numbers(vs).len() == 0,
        !has_float(vs),
        forall|i: int| 0 <= i < vs.len() ==> interval_of(vs[i]) == Some(#[trigger] intervals(vs)[i]),
    decreases vs.len(),
{
    if vs.len() > 0 {
        let less = vs.drop_last();
        assert forall|i: int| 0 <= i < less.len() implies is_span(#[trigger] less[i]) by {
            assert(is_span(vs[i]));
        }
        spans_are_the_values(less);
        assert(is_span(vs[vs.len() - 1]));
        assert forall|i: int| 0 <= i < vs.len() implies interval_of(vs[i]) == Some(
            #[trigger] intervals(vs)[i],
        ) by {
            if i < less.len() {
                assert(less[i] == vs[i]);
                assert(intervals(vs)[i] == intervals(less)[i]);
            }
        }
        assert(!has_float(vs)) by {
            assert forall|i: int| 0 <= i < vs.len() implies !((#[trigger] vs[i]) is Float) by {
                assert(is_span(vs[i]));
            }
        }
    }
}

/// The whole of a list of spans, part by part.
pub open spec fn parts_total(ms: Seq<IntervalView>) -> (int, int, int)
    decreases ms.len(),
{
    if ms.len() == 0 {
        (0, 0, 0)
    } else {
        let (a, b, c) = parts_total(ms.drop_last());
        match ms.last() {
            IntervalView::Finite { months, days, micros } => (a + months, b + days, c + micros),
            _ => (a, b, c),
        }
    }
}

proof fn totals_go_by_part(ms: Seq<IntervalView>)
    requires
        ms.len() > 0,
        forall|i: int| 0 <= i < ms.len() ==> (#[trigger] ms[i]) is Finite,
    ensures
        span_total(ms) matches Some(t) ==> ({
            let (a, b, c) = parts_total(ms);
            t == (IntervalView::Finite { months: a, days: b, micros: c })
        }),
    decreases ms.len(),
{
    assert(ms[ms.len() - 1] is Finite);
    let less = ms.drop_last();
    if ms.len() > 1 {
        assert forall|i: int| 0 <= i < less.len() implies (#[trigger] less[i]) is Finite by {
            assert(ms[i] is Finite);
        }
        totals_go_by_part(less);
    } else {
        assert(parts_total(less) == (0int, 0int, 0int));
    }
}

/// The sum of finite spans is the span of all their months, all their days and
/// all their microseconds, unless one is out of range on the way.
pub proof fn spans_add_up_by_part(vs: Seq<ValueView>)
    requires
        vs.len() > 0,
        forall|i: int| 0 <= i < vs.len() ==> is_span(#[trigger] vs[i]),
        forall|i: int| 0 <= i < vs.len() ==> interval_of(#[trigger] vs[i])->0 is Finite,
    ensures
        aggregate_value("SUM"@, vs) == Err::<Option<ValueView>, Overflow>(Overflow::Interval) || ({
            let (a, b, c) = parts_total(
                vs.map_values(|v: ValueView| interval_of(v)->0),
            );
            aggregate_value("SUM"@, vs) == Ok::<Option<ValueView>, Overflow>(
                Some(
                    ValueView::Other(
                        PgTypeView::Interval,
                        interval_spelled(
                            IntervalView::Finite { months: a, days: b, micros: c },
                        ),
                    ),
                ),
            )
        }),
{
    fold_names_differ();
    spans_are_the_values(vs);
    let ms = intervals(vs);
    assert forall|i: int| 0 <= i < ms.len() implies (#[trigger] ms[i]) is Finite by {
        assert(interval_of(vs[i]) == Some(ms[i]));
    }
    assert(vs.map_values(|v: ValueView| interval_of(v)->0) =~= ms) by {
        assert forall|i: int| 0 <= i < ms.len() implies interval_of(vs[i])->0
            == #[trigger] ms[i] by {}
    }
    totals_go_by_part(ms);
}

} // verus!
