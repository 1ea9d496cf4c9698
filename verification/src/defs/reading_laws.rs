//! What expressions read from rows, from the rows behind relationships, and
//! from groups of rows.

use vstd::prelude::*;

use crate::defs::ast::{ExprView, FieldDefView, ValueTypeView};
use crate::defs::builtins::{
    aggregate_value, first_occurrence, first_occurrence_is_first, function_value, in_field,
    is_text, occurs_at, text_of, whole,
};
use crate::defs::deps::{distinct_names, field_at, field_at_finds, is_field};
use crate::defs::eval::{
    field_values, group_given, over_row, row_engine, row_given, values_over_rows, Engine, Values,
};
use crate::defs::eval_laws::{
    first_given, outcome_given, read, values_satisfy_their_expressions,
};
use crate::defs::model::RelationshipCardinality;
use crate::defs::occurrence_laws::path;
use crate::defs::registry::aggregate_name;
use crate::defs::relationship_data::{
    cell, cells, filled, no_relationships, ContextView, Outcome, RowView, ToManyView,
};
use crate::defs::value::{value_of, EvalErrorView, ValueView};
use crate::numeric::NumericView;
use crate::pattern;
use vstd::utf8::encode_utf8;

verus! {

// ---------------------------------------------------------------------------
// Columns
// ---------------------------------------------------------------------------

/// What a column of a row holds: null where it is null, and otherwise the value
/// of its type that its text spells. A column of no known type holds numbers.
pub open spec fn held(
    row: RowView,
    columns: Map<Seq<char>, ValueTypeView>,
    n: Seq<char>,
    field: Seq<char>,
    o: Outcome,
) -> bool {
    match (row.contains_key(n), row[n]) {
        (false, _) => o == Err::<Option<ValueView>, EvalErrorView>(
            EvalErrorView::MissingColumn { field, column: n },
        ),
        (true, None) => o == Ok::<Option<ValueView>, EvalErrorView>(None),
        (true, Some(s)) => {
            let v = if columns.contains_key(n) {
                value_of(field, columns[n], s)
            } else {
                value_of(field, ValueTypeView::Numeric, s)
            };
            match v {
                Ok(v) => o == Ok::<Option<ValueView>, EvalErrorView>(Some(v)),
                Err(x) => o == Err::<Option<ValueView>, EvalErrorView>(x),
            }
        },
    }
}

/// A name in an expression means the column of the row, unless another field
/// has the name, or its own field has it and there is no such column.
pub proof fn columns_come_from_the_row(
    fields: Seq<FieldDefView>,
    row: RowView,
    columns: Map<Seq<char>, ValueTypeView>,
    context: ContextView,
    n: Seq<char>,
    field: Seq<char>,
)
    ensures
        match row_given(fields, row, columns, context, ExprView::Column(n), field) {
            Some(o) => (!is_field(fields, n) || n == field && columns.contains_key(n)) && held(
                row,
                columns,
                n,
                field,
                o,
            ),
            None => is_field(fields, n) && (n != field || !columns.contains_key(n)),
        },
{
    field_at_finds(fields, n);
}

/// A field that is another field has the value of that other field.
pub proof fn renamed_fields_have_one_value(
    fields: Seq<FieldDefView>,
    row: RowView,
    columns: Map<Seq<char>, ValueTypeView>,
    context: ContextView,
    values: Values,
    i: int,
    j: int,
)
    requires
        distinct_names(fields),
        0 <= i < fields.len(),
        0 <= j < fields.len(),
        i != j,
        fields[i].expr == ExprView::Column(fields[j].name),
        field_values(row_engine(fields, row, columns, context), Set::empty()) == Ok::<
            Values,
            EvalErrorView,
        >(values),
    ensures
        values.contains_key(fields[i].name),
        values.contains_key(fields[j].name),
        values[fields[i].name] == values[fields[j].name],
{
    let c = row_engine(fields, row, columns, context);
    values_satisfy_their_expressions(c, Set::empty(), values, i);
    values_satisfy_their_expressions(c, Set::empty(), values, j);
    columns_come_from_the_row(
        fields,
        row,
        columns,
        context,
        fields[j].name,
        fields[i].name,
    );
    assert(is_field(fields, fields[j].name));
    assert(fields[i].name != fields[j].name);
}

/// `COALESCE` is the first of its arguments that is not null, and null where
/// all of them are.
pub proof fn coalesce_takes_the_first(
    c: Engine,
    excluded: Set<Seq<char>>,
    values: Values,
    i: int,
    args: Seq<ExprView>,
) -> (k: int)
    requires
        distinct_names(c.fields),
        field_values(c, excluded) == Ok::<Values, EvalErrorView>(values),
        0 <= i < c.fields.len(),
        !excluded.contains(c.fields[i].name),
        c.fields[i].expr == (ExprView::FunctionCall { name: "COALESCE"@, args }),
        (c.given)(c.fields[i].expr, c.fields[i].name) is None,
    ensures
        0 <= k <= args.len(),
        forall|j: int|
            0 <= j < k ==> outcome_given(c, values, #[trigger] args[j], c.fields[i].name) == Ok::<
                Option<ValueView>,
                EvalErrorView,
            >(None),
        k < args.len() ==> values[c.fields[i].name] is Some && outcome_given(
            c,
            values,
            args[k],
            c.fields[i].name,
        ) == Ok::<Option<ValueView>, EvalErrorView>(values[c.fields[i].name]),
        k == args.len() ==> values[c.fields[i].name] is None,
{
    values_satisfy_their_expressions(c, excluded, values, i);
    let e = c.fields[i].expr;
    assert(e->args == args && e->name == "COALESCE"@);
    first_is_found(c, values, args, 0, c.fields[i].name, values[c.fields[i].name])
}

proof fn first_is_found(
    c: Engine,
    values: Values,
    args: Seq<ExprView>,
    k: nat,
    field: Seq<char>,
    v: Option<ValueView>,
) -> (at: int)
    requires
        k <= args.len(),
        first_given(c, values, args, k, field) == Ok::<Option<ValueView>, EvalErrorView>(v),
    ensures
        k <= at <= args.len(),
        forall|j: int|
            k <= j < at ==> outcome_given(c, values, #[trigger] args[j], field) == Ok::<
                Option<ValueView>,
                EvalErrorView,
            >(None),
        at < args.len() ==> v is Some && outcome_given(c, values, args[at], field) == Ok::<
            Option<ValueView>,
            EvalErrorView,
        >(v),
        at == args.len() ==> v is None,
    decreases args.len() - k,
{
    if k == args.len() {
        k as int
    } else if outcome_given(c, values, args[k as int], field) == Ok::<
        Option<ValueView>,
        EvalErrorView,
    >(None) {
        first_is_found(c, values, args, k + 1, field, v)
    } else {
        k as int
    }
}

// ---------------------------------------------------------------------------
// Relationships
// ---------------------------------------------------------------------------

/// A path reads, from the row that its relationship leads to, what the column
/// of that row holds; it is null where the relationship leads nowhere.
pub proof fn paths_read_the_row_they_lead_to(
    fields: Seq<FieldDefView>,
    row: RowView,
    columns: Map<Seq<char>, ValueTypeView>,
    context: ContextView,
    rel: Seq<char>,
    column: Seq<char>,
    field: Seq<char>,
)
    ensures
        row_given(fields, row, columns, context, path(rel, column), field) matches Some(o) && if
            !context.to_one.contains_key(rel) {
            o == Err::<Option<ValueView>, EvalErrorView>(
                EvalErrorView::UnknownRelationship { field, rel },
            )
        } else {
            let data = context.to_one[rel];
            if data.cardinality == RelationshipCardinality::ToMany {
                o == Err::<Option<ValueView>, EvalErrorView>(
                    EvalErrorView::AggregateRequiredForToMany { field, rel, column },
                )
            } else if !row.contains_key(data.from_col) {
                o == Err::<Option<ValueView>, EvalErrorView>(
                    EvalErrorView::MissingColumn { field, column: data.from_col },
                )
            } else if row[data.from_col] matches Some(key) && data.to_rows_by_key.contains_key(
                key,
            ) {
                held(
                    data.to_rows_by_key[row[data.from_col]->0],
                    data.to_columns,
                    column,
                    field,
                    o,
                )
            } else {
                o == Ok::<Option<ValueView>, EvalErrorView>(None)
            }
        },
{
}

/// The rows that a relationship leads to many of.
pub open spec fn leads_to(row: RowView, data: ToManyView, rows: Seq<RowView>) -> bool {
    &&& row.contains_key(data.from_col)
    &&& if row[data.from_col] matches Some(key) && data.to_rows_by_key.contains_key(key) {
        rows == data.to_rows_by_key[row[data.from_col]->0]
    } else {
        rows.len() == 0
    }
}

proof fn counted(rows: Seq<RowView>, field: Seq<char>, column: Seq<char>)
    requires
        forall|i: int| 0 <= i < rows.len() ==> (#[trigger] rows[i]).contains_key(column),
    ensures
        filled(rows, field, column) == Ok::<nat, EvalErrorView>(
            rows.filter(|r: RowView| r[column] is Some).len(),
        ),
    decreases rows.len(),
{
    let f = |r: RowView| r[column] is Some;
    reveal(Seq::filter);
    if rows.len() > 0 {
        let less = rows.drop_last();
        assert forall|i: int| 0 <= i < less.len() implies (#[trigger] less[i]).contains_key(
            column,
        ) by {
            assert(rows[i].contains_key(column));
        }
        counted(less, field, column);
        assert(rows[rows.len() - 1].contains_key(column));
    }
}

/// `COUNT` over a relationship is how many of the rows that it leads to hold
/// something in the column.
pub proof fn counts_behind_a_relationship(
    fields: Seq<FieldDefView>,
    row: RowView,
    columns: Map<Seq<char>, ValueTypeView>,
    context: ContextView,
    rel: Seq<char>,
    column: Seq<char>,
    field: Seq<char>,
    rows: Seq<RowView>,
)
    requires
        context.to_many.contains_key(rel),
        leads_to(row, context.to_many[rel], rows),
        forall|i: int| 0 <= i < rows.len() ==> (#[trigger] rows[i]).contains_key(column),
    ensures
        row_given(
            fields,
            row,
            columns,
            context,
            (ExprView::FunctionCall { name: "COUNT"@, args: seq![path(rel, column)] }),
            field,
        ) == Some(
            Ok::<Option<ValueView>, EvalErrorView>(
                Some(
                    ValueView::Numeric(
                        NumericView {
                            mantissa: rows.filter(|r: RowView| r[column] is Some).len() as int,
                            scale: 0,
                        },
                    ),
                ),
            ),
        ),
{
    let e = ExprView::FunctionCall { name: "COUNT"@, args: seq![path(rel, column)] };
    assert(e->args[0] == path(rel, column));
    assert(aggregate_name("COUNT"@));
    assert(rows.len() == 0 ==> rows =~= seq![]);
    counted(rows, field, column);
}

proof fn no_fields_read_columns(
    row: RowView,
    columns: Map<Seq<char>, ValueTypeView>,
    field: Seq<char>,
    column: Seq<char>,
)
    ensures
        over_row(seq![], row, columns, ExprView::Column(column), field) == cell(
            row,
            columns,
            field,
            column,
        ),
{
    reveal(over_row);
    let none: Seq<FieldDefView> = seq![];
    let c = row_engine(none, row, columns, no_relationships());
    assert(field_at(none, column) is None);
    assert((c.given)(ExprView::Column(column), field) == Some(cell(row, columns, field, column)));
}

proof fn cells_are_values(
    rows: Seq<RowView>,
    columns: Map<Seq<char>, ValueTypeView>,
    field: Seq<char>,
    column: Seq<char>,
)
    ensures
        values_over_rows(seq![], rows, columns, ExprView::Column(column), field) == cells(
            rows,
            columns,
            field,
            column,
        ),
    decreases rows.len(),
{
    if rows.len() > 0 {
        cells_are_values(rows.drop_last(), columns, field, column);
        no_fields_read_columns(rows.last(), columns, field, column);
    }
}

/// Any other aggregate over a relationship is the aggregate of the column over
/// the rows that it leads to, taken as a group.
pub proof fn folds_behind_a_relationship(
    fields: Seq<FieldDefView>,
    row: RowView,
    columns: Map<Seq<char>, ValueTypeView>,
    context: ContextView,
    name: Seq<char>,
    rel: Seq<char>,
    column: Seq<char>,
    field: Seq<char>,
    rows: Seq<RowView>,
    keys: Set<Seq<char>>,
)
    requires
        aggregate_name(name),
        name != "COUNT"@,
        context.to_many.contains_key(rel),
        leads_to(row, context.to_many[rel], rows),
    ensures
        row_given(
            fields,
            row,
            columns,
            context,
            (ExprView::FunctionCall { name, args: seq![path(rel, column)] }),
            field,
        ) == group_given(
            seq![],
            rows,
            keys,
            context.to_many[rel].to_columns,
            (ExprView::FunctionCall { name, args: seq![ExprView::Column(column)] }),
            field,
        ),
{
    let e = ExprView::FunctionCall { name, args: seq![path(rel, column)] };
    let g = ExprView::FunctionCall { name, args: seq![ExprView::Column(column)] };
    assert(e->args[0] == path(rel, column));
    assert(g->args[0] == ExprView::Column(column));
    assert(rows.len() == 0 ==> rows =~= seq![]);
    cells_are_values(rows, context.to_many[rel].to_columns, field, column);
}

// ---------------------------------------------------------------------------
// Groups
// ---------------------------------------------------------------------------

proof fn values_of_each_row(
    fields: Seq<FieldDefView>,
    rows: Seq<RowView>,
    columns: Map<Seq<char>, ValueTypeView>,
    arg: ExprView,
    field: Seq<char>,
    vs: Seq<ValueView>,
)
    requires
        vs.len() == rows.len(),
        forall|i: int|
            0 <= i < rows.len() ==> over_row(fields, #[trigger] rows[i], columns, arg, field)
                == Ok::<Option<ValueView>, EvalErrorView>(Some(vs[i])),
    ensures
        values_over_rows(fields, rows, columns, arg, field) == Ok::<Seq<ValueView>, EvalErrorView>(
            vs,
        ),
    decreases rows.len(),
{
    if rows.len() > 0 {
        let (less, some) = (rows.drop_last(), vs.drop_last());
        assert forall|i: int| 0 <= i < less.len() implies over_row(
            fields,
            #[trigger] less[i],
            columns,
            arg,
            field,
        ) == Ok::<Option<ValueView>, EvalErrorView>(Some(some[i])) by {
            assert(over_row(fields, rows[i], columns, arg, field) is Ok);
        }
        values_of_each_row(fields, less, columns, arg, field, some);
        assert(over_row(fields, rows[rows.len() - 1], columns, arg, field) is Ok);
        assert(some.push(vs[rows.len() - 1]) =~= vs);
    } else {
        assert(vs =~= seq![]);
    }
}

/// An aggregate over a group folds what its argument comes to over each of the
/// rows, in their order.
pub proof fn aggregates_fold_each_row(
    fields: Seq<FieldDefView>,
    rows: Seq<RowView>,
    keys: Set<Seq<char>>,
    columns: Map<Seq<char>, ValueTypeView>,
    name: Seq<char>,
    arg: ExprView,
    field: Seq<char>,
    vs: Seq<ValueView>,
)
    requires
        aggregate_name(name),
        vs.len() == rows.len(),
        forall|i: int|
            0 <= i < rows.len() ==> over_row(fields, #[trigger] rows[i], columns, arg, field)
                == Ok::<Option<ValueView>, EvalErrorView>(Some(vs[i])),
    ensures
        group_given(
            fields,
            rows,
            keys,
            columns,
            (ExprView::FunctionCall { name, args: seq![arg] }),
            field,
        ) == Some(in_field(aggregate_value(name, vs), field)),
{
    let e = ExprView::FunctionCall { name, args: seq![arg] };
    assert(e->args[0] == arg);
    values_of_each_row(fields, rows, columns, arg, field, vs);
}

/// Where an argument fails over some row, the aggregate fails, and with what
/// the first such row fails with.
pub proof fn aggregates_fail_with_the_first_row(
    fields: Seq<FieldDefView>,
    rows: Seq<RowView>,
    columns: Map<Seq<char>, ValueTypeView>,
    arg: ExprView,
    field: Seq<char>,
)
    ensures
        match values_over_rows(fields, rows, columns, arg, field) {
            Ok(_) => forall|i: int|
                0 <= i < rows.len() ==> over_row(fields, #[trigger] rows[i], columns, arg, field)
                    is Ok,
            Err(x) => exists|i: int|
                0 <= i < rows.len() && over_row(fields, #[trigger] rows[i], columns, arg, field)
                    == Err::<Option<ValueView>, EvalErrorView>(x) && forall|j: int|
                    0 <= j < i ==> over_row(fields, #[trigger] rows[j], columns, arg, field) is Ok,
        },
    decreases rows.len(),
{
    if rows.len() > 0 {
        let less = rows.drop_last();
        aggregates_fail_with_the_first_row(fields, less, columns, arg, field);
        match values_over_rows(fields, less, columns, arg, field) {
            Ok(_) => {
                assert forall|j: int| 0 <= j < less.len() implies over_row(
                    fields,
                    #[trigger] rows[j],
                    columns,
                    arg,
                    field,
                ) is Ok by {
                    assert(over_row(fields, less[j], columns, arg, field) is Ok);
                }
                assert(rows[rows.len() - 1] == rows.last());
            },
            Err(x) => {
                let i = choose|i: int|
                    0 <= i < less.len() && over_row(fields, #[trigger] less[i], columns, arg, field)
                        == Err::<Option<ValueView>, EvalErrorView>(x) && forall|j: int|
                        0 <= j < i ==> over_row(fields, #[trigger] less[j], columns, arg, field)
                            is Ok;
                assert(rows[i] == less[i]);
                assert forall|j: int| 0 <= j < i implies over_row(
                    fields,
                    #[trigger] rows[j],
                    columns,
                    arg,
                    field,
                ) is Ok by {
                    assert(over_row(fields, less[j], columns, arg, field) is Ok);
                }
            },
        }
    }
}

/// A column that the rows are grouped by has, for the group, the value that it
/// has in any of the rows; any other name is that of a field.
pub proof fn keys_have_their_value_in_any_row(
    fields: Seq<FieldDefView>,
    rows: Seq<RowView>,
    keys: Set<Seq<char>>,
    columns: Map<Seq<char>, ValueTypeView>,
    n: Seq<char>,
    field: Seq<char>,
    i: int,
)
    requires
        0 <= i < rows.len(),
        keys.contains(n),
        forall|j: int|
            0 <= j < rows.len() ==> ((#[trigger] rows[j]).contains_key(n) <==> rows[i].contains_key(
                n,
            )) && rows[j][n] == rows[i][n],
    ensures
        group_given(fields, rows, keys, columns, ExprView::Column(n), field) matches Some(o)
            && held(rows[i], columns, n, field, o),
{
    assert(rows[0].contains_key(n) <==> rows[i].contains_key(n));
}

/// A name that the rows are not grouped by means a field of the name, and is an
/// error where there is none.
pub proof fn other_names_mean_fields(
    fields: Seq<FieldDefView>,
    rows: Seq<RowView>,
    keys: Set<Seq<char>>,
    columns: Map<Seq<char>, ValueTypeView>,
    n: Seq<char>,
    field: Seq<char>,
)
    requires
        !keys.contains(n),
    ensures
        group_given(fields, rows, keys, columns, ExprView::Column(n), field) is None <==> is_field(
            fields,
            n,
        ),
        !is_field(fields, n) ==> group_given(
            fields,
            rows,
            keys,
            columns,
            ExprView::Column(n),
            field,
        ) == Some(
            Err::<Option<ValueView>, EvalErrorView>(
                EvalErrorView::MissingColumn { field, column: n },
            ),
        ),
{
    field_at_finds(fields, n);
}

// ---------------------------------------------------------------------------
// Functions of texts
// ---------------------------------------------------------------------------

/// A text as an argument.
pub open spec fn text_value(s: Seq<char>) -> Option<ValueView> {
    Some(ValueView::Text(s))
}

/// The whole number that a function comes to.
pub open spec fn comes_to(v: Option<ValueView>, n: int) -> bool {
    v == Some(ValueView::Numeric(NumericView { mantissa: n, scale: 0 }))
}

proof fn function_names_differ()
    ensures
        "CHAR_LENGTH"@ != "OCTET_LENGTH"@,
        "STRPOS"@ != "OCTET_LENGTH"@ && "STRPOS"@ != "CHAR_LENGTH"@,
        "REGEXP_COUNT"@ != "OCTET_LENGTH"@ && "REGEXP_COUNT"@ != "CHAR_LENGTH"@ && "REGEXP_COUNT"@
            != "STRPOS"@,
{
    reveal_strlit("CHAR_LENGTH");
    reveal_strlit("OCTET_LENGTH");
    reveal_strlit("STRPOS");
    reveal_strlit("REGEXP_COUNT");
    assert("CHAR_LENGTH"@.len() == 11 && "OCTET_LENGTH"@.len() == 12 && "STRPOS"@.len() == 6);
    assert("REGEXP_COUNT"@.len() == 12 && "REGEXP_COUNT"@[0] == 'R' && "OCTET_LENGTH"@[0] == 'O');
}

/// The lengths of a text count its characters, and the bytes that these take
/// in UTF-8: at least one for each.
pub proof fn lengths_count(s: Seq<char>)
    ensures
        comes_to(function_value("CHAR_LENGTH"@, seq![text_value(s)]), s.len() as int),
        comes_to(
            function_value("OCTET_LENGTH"@, seq![text_value(s)]),
            encode_utf8(s).len() as int,
        ),
        encode_utf8(s).len() >= s.len(),
{
    function_names_differ();
    let args = seq![text_value(s)];
    assert forall|i: int| 0 <= i < args.len() implies is_text(#[trigger] args[i]) by {}
    assert(text_of(args[0]) == s);
    bytes_of_characters(s);
}

proof fn bytes_of_characters(s: Seq<char>)
    ensures
        encode_utf8(s).len() >= s.len(),
    decreases s.len(),
{
    if s.len() > 0 {
        bytes_of_characters(s.drop_first());
        assert(vstd::utf8::encode_scalar(s[0] as u32).len() >= 1);
    }
}

/// `STRPOS` is the place, counted from one, behind the shortest beginning of
/// the text that the other text follows, and zero where it stands nowhere.
pub proof fn positions_are_of_the_first(s: Seq<char>, t: Seq<char>, before: Seq<char>, after: Seq<char>)
    ensures
        s == before + t + after && (forall|b: Seq<char>, a: Seq<char>| #[trigger]
            (b + t + a) == s ==> before.len() <= b.len()) ==> comes_to(
            function_value("STRPOS"@, seq![text_value(s), text_value(t)]),
            before.len() as int + 1,
        ),
        (forall|b: Seq<char>, a: Seq<char>| #[trigger] (b + t + a) != s) ==> comes_to(
            function_value("STRPOS"@, seq![text_value(s), text_value(t)]),
            0,
        ),
{
    function_names_differ();
    let args = seq![text_value(s), text_value(t)];
    assert forall|i: int| 0 <= i < args.len() implies is_text(#[trigger] args[i]) by {}
    assert(text_of(args[0]) == s && text_of(args[1]) == t);
    first_occurrence_is_first(s, t, 0);
    let p = first_occurrence(s, t, 0) as int;
    if p > 0 {
        let at = p - 1;
        let (b, a) = (s.take(at), s.skip(at + t.len()));
        assert(s.subrange(at, at + t.len()) == t);
        assert(b + t + a =~= s);
    }
    if s == before + t + after {
        let at = before.len() as int;
        assert(s.subrange(at, at + t.len()) =~= t);
        assert(occurs_at(s, t, at));
    }
}

/// `REGEXP_COUNT` counts the matches of the second text, as a pattern, in the
/// first, and is null where the second is no pattern.
pub proof fn matches_are_of_the_pattern(s: Seq<char>, p: Seq<char>)
    ensures
        match pattern::match_count(p, s) {
            Some(n) => comes_to(
                function_value("REGEXP_COUNT"@, seq![text_value(s), text_value(p)]),
                n as int,
            ),
            None => function_value("REGEXP_COUNT"@, seq![text_value(s), text_value(p)]) is None,
        },
{
    function_names_differ();
    let args = seq![text_value(s), text_value(p)];
    assert forall|i: int| 0 <= i < args.len() implies is_text(#[trigger] args[i]) by {}
    assert(text_of(args[0]) == s && text_of(args[1]) == p);
}

} // verus!
