//! Which rows make a group, which values a recomputed target holds, and which
//! aggregates follow from what they were.

use vstd::prelude::*;

use crate::defs::arithmetic_laws::fold_names_differ;
use crate::defs::ast::{GroupByKeyView, TransformDefView, ValueTypeView};
use crate::defs::eval::{definition_engine, field_values, Values};
use crate::defs::invertibility::{
    verdict, AggregateArgView, Invertibility, PartialField,
};
use crate::defs::recompute::{
    group_name, groups_are_told_apart, image_view, key_cells, rows_of_group, rows_target,
};
use crate::defs::relationship_data::{no_relationships, RowView};
use crate::defs::type_laws::rung;
use crate::defs::value::EvalErrorView;

verus! {

// ---------------------------------------------------------------------------
// Groups
// ---------------------------------------------------------------------------

/// The text in a column of a row; empty where it is null or missing.
pub open spec fn text_in(row: RowView, n: Seq<char>) -> Seq<char> {
    if row.contains_key(n) && row[n] is Some {
        row[n]->0
    } else {
        seq![]
    }
}

/// Two rows belong to the same group exactly if they hold the same text in the
/// column of every key.
pub proof fn rows_of_one_group_agree(r: RowView, s: RowView, keys: Seq<GroupByKeyView>)
    ensures
        group_name(r, keys) == group_name(s, keys) <==> forall|i: int|
            0 <= i < keys.len() ==> text_in(r, (#[trigger] keys[i]).target_column_name())
                == text_in(s, keys[i].target_column_name()),
{
    groups_are_told_apart(r, s, keys);
    let (a, b) = (key_cells(r, keys), key_cells(s, keys));
    if a == b {
        assert forall|i: int| 0 <= i < keys.len() implies text_in(
            r,
            (#[trigger] keys[i]).target_column_name(),
        ) == text_in(s, keys[i].target_column_name()) by {
            assert(a[i] == b[i]);
        }
    }
    if forall|i: int|
        0 <= i < keys.len() ==> text_in(r, (#[trigger] keys[i]).target_column_name()) == text_in(
            s,
            keys[i].target_column_name(),
        ) {
        assert forall|i: int| 0 <= i < keys.len() implies a[i] == b[i] by {
            assert(text_in(r, keys[i].target_column_name()) == text_in(
                s,
                keys[i].target_column_name(),
            ));
        }
        assert(a =~= b);
    }
}

/// The rows of a group are those of the rows that bear its name, in their
/// order.
pub proof fn groups_are_the_rows_of_their_name(
    rows: Seq<RowView>,
    keys: Seq<GroupByKeyView>,
    name: Seq<char>,
)
    ensures
        rows_of_group(rows, keys, name) == rows.filter(|r: RowView| group_name(r, keys) == name),
    decreases rows.len(),
{
    reveal(Seq::filter);
    if rows.len() > 0 {
        groups_are_the_rows_of_their_name(rows.drop_last(), keys, name);
    }
}

// ---------------------------------------------------------------------------
// Rows
// ---------------------------------------------------------------------------

/// A row that was read holds under each column the text that was read for it,
/// and nothing else.
pub proof fn images_hold_what_was_read(
    columns: Seq<Seq<char>>,
    cells: Seq<Option<Seq<char>>>,
    n: Seq<char>,
)
    requires
        columns.no_duplicates(),
    ensures
        image_view(columns, cells).contains_key(n) <==> columns.contains(n),
        forall|i: int|
            0 <= i < columns.len() ==> image_view(columns, cells)[#[trigger] columns[i]]
                == cells[i],
    decreases columns.len(),
{
    if columns.len() > 0 {
        let less = columns.drop_last();
        assert(less.no_duplicates());
        images_hold_what_was_read(less, cells, n);
        assert(columns[columns.len() - 1] == columns.last());
        if columns.contains(n) && n != columns.last() {
            assert(less[columns.index_of(n)] == n);
        }
        if less.contains(n) {
            assert(columns[less.index_of(n)] == n);
        }
        assert forall|i: int| 0 <= i < columns.len() implies image_view(columns, cells)[
            #[trigger] columns[i]
        ] == cells[i] by {
            if i < less.len() {
                assert(less[i] == columns[i]);
                assert(columns[i] != columns.last());
            }
        }
    }
}

/// The values of one source row.
#[verifier::opaque]
pub open spec fn row_values(
    def: TransformDefView,
    row: RowView,
    columns: Map<Seq<char>, ValueTypeView>,
) -> Result<Values, EvalErrorView> {
    field_values(definition_engine(def, row, columns, no_relationships()), Set::empty())
}

/// One more row adds its values under its key.
proof fn targets_grow_by_each_row(
    def: TransformDefView,
    rows: Seq<(Seq<char>, RowView)>,
    columns: Map<Seq<char>, ValueTypeView>,
)
    requires
        rows.len() > 0,
    ensures
        rows_target(def, rows, columns) == match rows_target(def, rows.drop_last(), columns) {
            Err(e) => Err(e),
            Ok(m) => match row_values(def, rows.last().1, columns) {
                Err(e) => Err(e),
                Ok(values) => Ok(m.insert(rows.last().0, values)),
            },
        },
{
    reveal(row_values);
}

/// Each of the first `n` rows has values.
pub open spec fn good_until(
    def: TransformDefView,
    rows: Seq<(Seq<char>, RowView)>,
    columns: Map<Seq<char>, ValueTypeView>,
    n: int,
) -> bool {
    forall|j: int| 0 <= j < n ==> row_values(def, (#[trigger] rows[j]).1, columns) is Ok
}

/// There is a target over single rows exactly if every row has values; where
/// one has none, the error is that of the first such row.
pub proof fn targets_fail_with_the_first_row(
    def: TransformDefView,
    rows: Seq<(Seq<char>, RowView)>,
    columns: Map<Seq<char>, ValueTypeView>,
)
    ensures
        match rows_target(def, rows, columns) {
            Ok(_) => good_until(def, rows, columns, rows.len() as int),
            Err(x) => exists|i: int|
                0 <= i < rows.len() && row_values(def, (#[trigger] rows[i]).1, columns) == Err::<
                    Values,
                    EvalErrorView,
                >(x) && good_until(def, rows, columns, i),
        },
    decreases rows.len(),
{
    if rows.len() > 0 {
        let less = rows.drop_last();
        targets_fail_with_the_first_row(def, less, columns);
        targets_grow_by_each_row(def, rows, columns);
        assert(rows[rows.len() - 1] == rows.last());
        match rows_target(def, less, columns) {
            Ok(_) => {
                assert(good_until(def, rows, columns, less.len() as int)) by {
                    assert forall|j: int| 0 <= j < less.len() implies row_values(
                        def,
                        (#[trigger] rows[j]).1,
                        columns,
                    ) is Ok by {
                        assert(row_values(def, less[j].1, columns) is Ok);
                    }
                }
            },
            Err(x) => {
                let i = choose|i: int|
                    0 <= i < less.len() && row_values(def, (#[trigger] less[i]).1, columns) == Err::<
                        Values,
                        EvalErrorView,
                    >(x) && good_until(def, less, columns, i);
                assert(rows[i] == less[i]);
                assert(good_until(def, rows, columns, i)) by {
                    assert forall|j: int| 0 <= j < i implies row_values(
                        def,
                        (#[trigger] rows[j]).1,
                        columns,
                    ) is Ok by {
                        assert(row_values(def, less[j].1, columns) is Ok);
                    }
                }
            },
        }
    }
}

/// A target over single rows holds the keys of the rows, and no others.
pub proof fn targets_hold_each_key(
    def: TransformDefView,
    rows: Seq<(Seq<char>, RowView)>,
    columns: Map<Seq<char>, ValueTypeView>,
    k: Seq<char>,
)
    ensures
        rows_target(def, rows, columns) matches Ok(m) ==> (m.contains_key(k) <==> has_key(rows, k)),
    decreases rows.len(),
{
    if rows.len() > 0 {
        let less = rows.drop_last();
        targets_grow_by_each_row(def, rows, columns);
        targets_hold_each_key(def, less, columns, k);
        assert(rows[rows.len() - 1] == rows.last());
        if has_key(less, k) {
            let i = choose|i: int| 0 <= i < less.len() && (#[trigger] less[i]).0 == k;
            assert(rows[i].0 == k);
        }
        if has_key(rows, k) && rows.last().0 != k {
            let i = choose|i: int| 0 <= i < rows.len() && (#[trigger] rows[i]).0 == k;
            assert(less[i].0 == k);
        }
    }
}

/// Some row has the key.
pub open spec fn has_key(rows: Seq<(Seq<char>, RowView)>, k: Seq<char>) -> bool {
    exists|i: int| 0 <= i < rows.len() && (#[trigger] rows[i]).0 == k
}

/// A target over single rows holds, under the key of a row that no later row
/// has, the values of that row.
pub proof fn targets_hold_each_row(
    def: TransformDefView,
    rows: Seq<(Seq<char>, RowView)>,
    columns: Map<Seq<char>, ValueTypeView>,
    i: int,
)
    requires
        0 <= i < rows.len(),
        key_comes_last(rows, i),
    ensures
        rows_target(def, rows, columns) matches Ok(m) ==> row_values(def, rows[i].1, columns)
            == Ok::<Values, EvalErrorView>(m[rows[i].0]),
    decreases rows.len(),
{
    let less = rows.drop_last();
    let n = rows.len() - 1;
    targets_grow_by_each_row(def, rows, columns);
    if i < n {
        assert(rows[n].0 != rows[i].0);
        assert forall|j: int| i < j < less.len() implies (#[trigger] less[j]).0 != less[i].0 by {
            assert(rows[j].0 != rows[i].0);
        }
        targets_hold_each_row(def, less, columns, i);
    }
}

/// No later row has the key of row `i`.
pub open spec fn key_comes_last(rows: Seq<(Seq<char>, RowView)>, i: int) -> bool {
    forall|j: int| i < j < rows.len() ==> (#[trigger] rows[j]).0 != rows[i].0
}

// ---------------------------------------------------------------------------
// Invertible aggregates
// ---------------------------------------------------------------------------

/// Exactly the counts, and the sums and averages of exact numbers, follow from
/// what they were; an average needs the sum and the count beside it, and
/// nothing else needs anything.
pub proof fn counts_and_exact_sums_are_invertible(function: Seq<char>, arg: AggregateArgView)
    ensures
        (verdict(function, arg) matches Some(v) && v.invertibility == Invertibility::Invertible)
            <==> match arg {
            AggregateArgView::Count(_) => function == "COUNT"@,
            AggregateArgView::Column(t) => (function == "SUM"@ || function == "AVG"@) && (rung(
                t,
            ) matches Some(n) && n <= 3),
        },
        verdict(function, arg) matches Some(v) ==> if v.invertibility == Invertibility::Invertible
            && function == "AVG"@ {
            v.partials.contains(PartialField::Sum) && v.partials.contains(PartialField::Count)
                && v.partials.len() == 2
        } else {
            v.partials.len() == 0
        },
{
    fold_names_differ();
    let both = seq![PartialField::Sum, PartialField::Count];
    assert(both[0] == PartialField::Sum && both[1] == PartialField::Count);
}

} // verus!
