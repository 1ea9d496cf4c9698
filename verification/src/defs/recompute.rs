//! A definition's target, worked out from the rows of its source.

use vstd::prelude::*;
use vstd::utf8::encode_utf8;

use crate::defs::ast::{
    key_views, GroupByKey, GroupByKeyView, KeySpace, TransformDef, TransformDefView, ValueType,
    ValueTypeView,
};
use crate::defs::eval::{
    definition_engine, definition_group_engine, evaluate, evaluate_aggregate, folding_is_clear,
    field_values, values_view, EvalError, RegexCache, Row, Value, Values,
};
use crate::defs::oracle::{quoted_source_from, reads_column, referenced_source_columns, source_from};
use crate::defs::relationship_data::{no_relationships, row_view, row_views, RowView};
use crate::defs::typing::types_view;
use crate::defs::value::EvalErrorView;
use crate::names::NameMap;
use crate::sql;
use crate::sql::quoted_ident;
use crate::text;
use crate::text::{decimal, joined, views};

verus! {

/// The calculated values of each target row, by the key of the row.
pub type Recomputed = NameMap<NameMap<Option<Value>>>;

/// What a [`Recomputed`] stands for.
pub type RecomputedView = Map<Seq<char>, Values>;

/// The view of a target.
pub open spec fn recomputed_view(m: Map<Seq<char>, NameMap<Option<Value>>>) -> RecomputedView {
    m.map_values(|v: NameMap<Option<Value>>| values_view(v@))
}

// ---------------------------------------------------------------------------
// Reading the source
// ---------------------------------------------------------------------------

/// A column read as text.
pub open spec fn as_text(column: Seq<char>) -> Seq<char> {
    quoted_ident(column) + "::text"@
}

/// The query that reads the given columns of a definition's source as text.
pub open spec fn source_query(def: TransformDefView, columns: Seq<Seq<char>>) -> Seq<char> {
    "select "@ + joined(columns.map_values(|c: Seq<char>| as_text(c)), ", "@) + " from "@
        + source_from(def)
}

/// The query that reads the given columns of a definition's source as text.
pub fn source_query_sql(def: &TransformDef, columns: &Vec<String>) -> (r: String)
    ensures
        r@ == source_query(def@, views(columns@)),
{
    let mut items: Vec<String> = Vec::new();
    let mut i: usize = 0;
    while i < columns.len()
        invariant
            0 <= i <= columns@.len(),
            items@.len() == i,
            forall|j: int| 0 <= j < i ==> (#[trigger] items@[j])@ == as_text(columns@[j]@),
        decreases columns@.len() - i,
    {
        let mut item = sql::quote_ident(columns[i].as_str());
        item.append("::text");
        items.push(item);
        i += 1;
    }
    assert(views(items@) =~= views(columns@).map_values(|c: Seq<char>| as_text(c)));
    let mut r = text::owned("select ");
    r.append(text::join(&items, ", ").as_str());
    r.append(" from ");
    r.append(quoted_source_from(def).as_str());
    r
}

/// A column that a grouped definition reads: one that a field names, or one
/// that holds a key.
pub open spec fn group_reads(def: TransformDefView, n: Seq<char>) -> bool {
    reads_column(def.fields, n) || holds_key(def.key_space->group_by, n)
}

/// One of the keys is held in the column `n`.
pub open spec fn holds_key(keys: Seq<GroupByKeyView>, n: Seq<char>) -> bool {
    exists|i: int| 0 <= i < keys.len() && #[trigger] keys[i].target_column_name() == n
}

/// The columns that a grouped definition reads, each once.
pub fn grouped_source_columns(def: &TransformDef) -> (r: Vec<String>)
    requires
        def@.key_space is Aggregate,
    ensures
        forall|n: Seq<char>| views(r@).contains(n) <==> #[trigger] group_reads(def@, n),
        views(r@).no_duplicates(),
{
    let none: Vec<GroupByKey> = Vec::new();
    let group_by = match &def.key_space {
        KeySpace::Aggregate { group_by } => group_by,
        KeySpace::OneToOne => &none,
    };
    let ghost ks = key_views(group_by@);
    let mut columns = referenced_source_columns(def);
    let mut i: usize = 0;
    assert forall|n: Seq<char>| views(columns@).contains(n) <==> #[trigger] gathered(
        def@,
        ks,
        0,
        n,
    ) by {
        assert(views(columns@).contains(n) <==> reads_column(def@.fields, n));
    }
    while i < group_by.len()
        invariant
            0 <= i <= group_by@.len(),
            ks == key_views(group_by@),
            views(columns@).no_duplicates(),
            forall|n: Seq<char>|
                views(columns@).contains(n) <==> #[trigger] gathered(def@, ks, i as int, n),
        decreases group_by@.len() - i,
    {
        let ghost before = columns@;
        let name = group_by[i].target_column_name();
        assert(ks[i as int] == group_by@[i as int]@);
        if !text::is_in(name, &columns) {
            columns.push(text::owned(name));
            assert(views(columns@) =~= views(before).push(name@));
        }
        proof {
            assert forall|n: Seq<char>| views(columns@).contains(n) <==> #[trigger] gathered(
                def@,
                ks,
                i + 1,
                n,
            ) by {
                gathered_next(def@, ks, i as int, n);
                assert(views(before).contains(n) <==> gathered(def@, ks, i as int, n));
                if !views(before).contains(name@) {
                    let vs = views(before);
                    if vs.contains(n) {
                        assert(vs.push(name@)[vs.index_of(n)] == n);
                    }
                    if n == name@ {
                        assert(vs.push(name@)[vs.len() as int] == n);
                    }
                    if vs.push(name@).contains(n) && n != name@ {
                        assert(vs[vs.push(name@).index_of(n)] == n);
                    }
                }
            }
        }
        i += 1;
    }
    proof {
        assert forall|n: Seq<char>| views(columns@).contains(n) <==> #[trigger] group_reads(
            def@,
            n,
        ) by {
            assert(gathered(def@, ks, i as int, n) == group_reads(def@, n));
        }
    }
    columns
}

spec fn gathered(def: TransformDefView, keys: Seq<GroupByKeyView>, k: int, n: Seq<char>) -> bool {
    reads_column(def.fields, n) || exists|i: int|
        0 <= i < k && #[trigger] keys[i].target_column_name() == n
}

proof fn gathered_next(def: TransformDefView, keys: Seq<GroupByKeyView>, k: int, n: Seq<char>)
    requires
        0 <= k < keys.len(),
    ensures
        gathered(def, keys, k + 1, n) <==> gathered(def, keys, k, n)
            || keys[k].target_column_name() == n,
{
    if gathered(def, keys, k, n) && !reads_column(def.fields, n) {
        let i = choose|i: int| 0 <= i < k && #[trigger] keys[i].target_column_name() == n;
        assert(keys[i].target_column_name() == n);
    }
    if gathered(def, keys, k + 1, n) && !reads_column(def.fields, n) {
        let i = choose|i: int| 0 <= i < k + 1 && #[trigger] keys[i].target_column_name() == n;
        if i < k {
            assert(keys[i].target_column_name() == n);
        }
    }
}

/// The entries of a row: each column with the text that was read for it.
pub open spec fn image_view(columns: Seq<Seq<char>>, cells: Seq<Option<Seq<char>>>) -> RowView
    decreases columns.len(),
{
    if columns.len() == 0 {
        Map::empty()
    } else {
        image_view(columns.drop_last(), cells).insert(columns.last(), cells[columns.len() - 1])
    }
}

/// The row whose columns hold the texts that were read.
pub fn row_image(columns: &Vec<String>, cells: &Vec<Option<String>>) -> (r: Row)
    requires
        columns@.len() <= cells@.len(),
    ensures
        row_view(r@) == image_view(views(columns@), opt_views(cells@)),
{
    let ghost names = views(columns@);
    let ghost texts = opt_views(cells@);
    let mut row: Row = NameMap::new();
    assert(row_view(row@) =~= Map::empty());
    let mut i: usize = 0;
    while i < columns.len()
        invariant
            0 <= i <= columns@.len() <= cells@.len(),
            names == views(columns@),
            texts == opt_views(cells@),
            row_view(row@) == image_view(names.take(i as int), texts),
        decreases columns@.len() - i,
    {
        let ghost before = row@;
        let cell = match &cells[i] {
            Some(s) => Some(s.clone()),
            None => None,
        };
        row.insert(columns[i].clone(), cell);
        proof {
            assert(names.take(i + 1).drop_last() =~= names.take(i as int));
            assert(texts[i as int] == crate::defs::ast::opt_view(cells@[i as int]));
            assert(row_view(row@) =~= row_view(before).insert(names[i as int], texts[i as int]));
        }
        i += 1;
    }
    assert(names.take(i as int) =~= names);
    row
}

/// The views of a list of texts that may be null.
pub open spec fn opt_views(s: Seq<Option<String>>) -> Seq<Option<Seq<char>>> {
    s.map_values(|v: Option<String>| crate::defs::ast::opt_view(v))
}

// ---------------------------------------------------------------------------
// One target row for each source row
// ---------------------------------------------------------------------------

/// The views of rows with their keys.
pub open spec fn keyed_views(s: Seq<(String, Row)>) -> Seq<(Seq<char>, RowView)> {
    s.map_values(|p: (String, Row)| (p.0@, row_view(p.1@)))
}

/// The target of a definition over single rows: the values of each row by its
/// key, or the first error.
pub open spec fn rows_target(
    def: TransformDefView,
    rows: Seq<(Seq<char>, RowView)>,
    columns: Map<Seq<char>, ValueTypeView>,
) -> Result<RecomputedView, EvalErrorView>
    decreases rows.len(),
{
    if rows.len() == 0 {
        Ok(Map::empty())
    } else {
        match rows_target(def, rows.drop_last(), columns) {
            Err(e) => Err(e),
            Ok(m) => match field_values(
                definition_engine(def, rows.last().1, columns, no_relationships()),
                Set::empty(),
            ) {
                Err(e) => Err(e),
                Ok(values) => Ok(m.insert(rows.last().0, values)),
            },
        }
    }
}

proof fn target_errors_stay(
    def: TransformDefView,
    rows: Seq<(Seq<char>, RowView)>,
    columns: Map<Seq<char>, ValueTypeView>,
    i: int,
)
    requires
        0 <= i <= rows.len(),
        rows_target(def, rows.take(i), columns) is Err,
    ensures
        rows_target(def, rows, columns) == rows_target(def, rows.take(i), columns),
    decreases rows.len() - i,
{
    if i < rows.len() {
        assert(rows.take(i + 1).drop_last() =~= rows.take(i));
        target_errors_stay(def, rows, columns, i + 1);
    } else {
        assert(rows.take(i) =~= rows);
    }
}

/// The target of a definition over single rows.
pub fn recompute_rows(
    def: &TransformDef,
    rows: &Vec<(String, Row)>,
    source_columns: &NameMap<ValueType>,
) -> (r: Result<Recomputed, EvalError>)
    ensures
        match r {
            Ok(m) => rows_target(def@, keyed_views(rows@), types_view(source_columns@)) == Ok::<
                RecomputedView,
                EvalErrorView,
            >(recomputed_view(m@)),
            Err(e) => rows_target(def@, keyed_views(rows@), types_view(source_columns@)) == Err::<
                RecomputedView,
                EvalErrorView,
            >(e@),
        },
{
    let ghost all = keyed_views(rows@);
    let ghost types = types_view(source_columns@);
    let mut cache = RegexCache::new();
    let mut target: Recomputed = NameMap::new();
    assert(recomputed_view(target@) =~= Map::empty());
    let mut i: usize = 0;
    while i < rows.len()
        invariant
            0 <= i <= rows@.len(),
            all == keyed_views(rows@),
            types == types_view(source_columns@),
            rows_target(def@, all.take(i as int), types) == Ok::<RecomputedView, EvalErrorView>(
                recomputed_view(target@),
            ),
        decreases rows@.len() - i,
    {
        proof {
            assert(all.take(i + 1).drop_last() =~= all.take(i as int));
            assert(all[i as int] == (rows@[i as int].0@, row_view(rows@[i as int].1@)));
        }
        match evaluate(def, &rows[i].1, source_columns, &mut cache) {
            Ok(values) => {
                let ghost before = target@;
                target.insert(rows[i].0.clone(), values);
                assert(recomputed_view(target@) =~= recomputed_view(before).insert(
                    rows@[i as int].0@,
                    values_view(values@),
                ));
            },
            Err(e) => {
                proof {
                    target_errors_stay(def@, all, types, i + 1);
                }
                return Err(e);
            },
        }
        i += 1;
    }
    assert(all.take(i as int) =~= all);
    Ok(target)
}

// ---------------------------------------------------------------------------
// One target row for each group of source rows
// ---------------------------------------------------------------------------

/// A text with its length in bytes before it.
pub open spec fn prefixed(v: Seq<char>) -> Seq<char> {
    decimal(encode_utf8(v).len()) + ":"@ + v
}

/// The text that a row holds for a key; empty where it is null or missing.
pub open spec fn key_cell(row: RowView, key: GroupByKeyView) -> Seq<char> {
    let name = key.target_column_name();
    if row.contains_key(name) {
        match row[name] {
            Some(s) => s,
            None => seq![],
        }
    } else {
        seq![]
    }
}

/// The texts that a row holds for the keys.
pub open spec fn key_cells(row: RowView, keys: Seq<GroupByKeyView>) -> Seq<Seq<char>> {
    keys.map_values(|k: GroupByKeyView| key_cell(row, k))
}

/// Texts as one: each with its length before it.
pub open spec fn packed(cells: Seq<Seq<char>>) -> Seq<char>
    decreases cells.len(),
{
    if cells.len() == 0 {
        seq![]
    } else {
        packed(cells.drop_last()) + prefixed(cells.last())
    }
}

/// The name of the group that a row belongs to.
pub open spec fn group_name(row: RowView, keys: Seq<GroupByKeyView>) -> Seq<char> {
    packed(key_cells(row, keys))
}

/// The name of the group that a row belongs to.
pub fn group_key(image: &Row, group_by: &Vec<GroupByKey>) -> (r: String)
    ensures
        r@ == group_name(row_view(image@), key_views(group_by@)),
{
    let ghost row = row_view(image@);
    let ghost ks = key_views(group_by@);
    let ghost cells = key_cells(row, ks);
    let mut r = String::new();
    assert(r@ =~= seq![]);
    let mut i: usize = 0;
    while i < group_by.len()
        invariant
            0 <= i <= group_by@.len(),
            row == row_view(image@),
            ks == key_views(group_by@),
            cells == key_cells(row, ks),
            r@ == packed(cells.take(i as int)),
        decreases group_by@.len() - i,
    {
        let ghost before = r@;
        assert(ks[i as int] == group_by@[i as int]@);
        let value = match image.get(group_by[i].target_column_name()) {
            Some(Some(s)) => s.clone(),
            _ => String::new(),
        };
        assert(value@ =~= key_cell(row, ks[i as int]));
        let n: usize = value.as_str().as_bytes().len();
        r.append(text::decimal_of(n as u128).as_str());
        r.append(":");
        r.append(value.as_str());
        proof {
            assert(cells.take(i + 1).drop_last() =~= cells.take(i as int));
            assert(r@ =~= before + prefixed(value@));
        }
        i += 1;
    }
    assert(cells.take(i as int) =~= cells);
    r
}

/// The rows of the group named `name`, in their order.
pub open spec fn rows_of_group(
    rows: Seq<RowView>,
    keys: Seq<GroupByKeyView>,
    name: Seq<char>,
) -> Seq<RowView>
    decreases rows.len(),
{
    if rows.len() == 0 {
        seq![]
    } else if group_name(rows.last(), keys) == name {
        rows_of_group(rows.drop_last(), keys, name).push(rows.last())
    } else {
        rows_of_group(rows.drop_last(), keys, name)
    }
}

/// Some row belongs to the group named `name`.
pub open spec fn has_group(
    rows: Seq<RowView>,
    keys: Seq<GroupByKeyView>,
    name: Seq<char>,
) -> bool {
    rows_of_group(rows, keys, name).len() > 0
}

/// The values of the group named `name`.
pub open spec fn group_target(
    def: TransformDefView,
    rows: Seq<RowView>,
    columns: Map<Seq<char>, ValueTypeView>,
    name: Seq<char>,
) -> Result<Values, EvalErrorView> {
    field_values(
        definition_group_engine(def, rows_of_group(rows, def.key_space->group_by, name), columns),
        Set::empty(),
    )
}

/// Rows of one group.
struct Group {
    name: String,
    rows: Vec<Row>,
}

spec fn group_at(groups: Seq<Group>, name: Seq<char>, g: int) -> bool {
    0 <= g < groups.len() && groups[g].name@ == name
}

/// The groups are those of `rows`: each named once, with its rows.
spec fn partitions(groups: Seq<Group>, rows: Seq<RowView>, keys: Seq<GroupByKeyView>) -> bool {
    &&& forall|g: int|
        0 <= g < groups.len() ==> row_views((#[trigger] groups[g]).rows@) == rows_of_group(
            rows,
            keys,
            groups[g].name@,
        )
    &&& forall|g: int| 0 <= g < groups.len() ==> (#[trigger] groups[g]).rows@.len() > 0
    &&& forall|g: int, h: int|
        0 <= g < h < groups.len() ==> (#[trigger] groups[g]).name@ != (#[trigger] groups[h]).name@
    &&& forall|n: Seq<char>| #[trigger]
        has_group(rows, keys, n) ==> exists|g: int| group_at(groups, n, g)
}

fn find_group(groups: &Vec<Group>, name: &str) -> (r: Option<usize>)
    ensures
        match r {
            Some(g) => group_at(groups@, name@, g as int),
            None => forall|g: int| 0 <= g < groups@.len() ==> (#[trigger] groups@[g]).name@ != name@,
        },
{
    let mut g: usize = 0;
    while g < groups.len()
        invariant
            0 <= g <= groups@.len(),
            forall|h: int| 0 <= h < g ==> (#[trigger] groups@[h]).name@ != name@,
        decreases groups@.len() - g,
    {
        if text::same(groups[g].name.as_str(), name) {
            return Some(g);
        }
        g += 1;
    }
    None
}

/// Puts a row into its group.
fn add_row(groups: &mut Vec<Group>, row: Row, group_by: &Vec<GroupByKey>, before: Ghost<
    Seq<RowView>,
>)
    requires
        partitions(old(groups)@, before@, key_views(group_by@)),
    ensures
        partitions(final(groups)@, before@.push(row_view(row@)), key_views(group_by@)),
{
    let ghost keys = key_views(group_by@);
    let ghost after = before@.push(row_view(row@));
    let ghost image = row_view(row@);
    let ghost old_groups = groups@;
    let name = group_key(&row, group_by);
    assert(after.drop_last() =~= before@);
    match find_group(groups, name.as_str()) {
        Some(g) => {
            let mut group = groups.remove(g);
            let ghost before_rows = group.rows@;
            group.rows.push(row);
            assert(row_views(group.rows@) =~= row_views(before_rows).push(image));
            groups.insert(g, group);
            proof {
                assert(groups@ =~= old_groups.update(g as int, group));
                assert forall|h: int| 0 <= h < groups@.len() implies row_views(
                    (#[trigger] groups@[h]).rows@,
                ) == rows_of_group(after, keys, groups@[h].name@) by {
                    assert(row_views(old_groups[h].rows@) == rows_of_group(
                        before@,
                        keys,
                        old_groups[h].name@,
                    ));
                    if h != g {
                        if h < g {
                            assert(old_groups[h].name@ != old_groups[g as int].name@);
                        } else {
                            assert(old_groups[g as int].name@ != old_groups[h].name@);
                        }
                    }
                }
                assert forall|n: Seq<char>| #[trigger] has_group(after, keys, n) implies exists|
                    h: int,
                | group_at(groups@, n, h) by {
                    if n == name@ {
                        assert(group_at(groups@, n, g as int));
                    } else {
                        assert(has_group(before@, keys, n));
                        let h = choose|h: int| group_at(old_groups, n, h);
                        assert(group_at(groups@, n, h));
                    }
                }
                assert forall|h: int, k: int| 0 <= h < k < groups@.len() implies (
                #[trigger] groups@[h]).name@ != (#[trigger] groups@[k]).name@ by {
                    assert(old_groups[h].name@ != old_groups[k].name@);
                }
            }
        },
        None => {
            let mut rows: Vec<Row> = Vec::new();
            rows.push(row);
            assert(row_views(rows@) =~= seq![image]);
            proof {
                if has_group(before@, keys, name@) {
                    let h = choose|h: int| group_at(old_groups, name@, h);
                    assert(old_groups[h].name@ == name@);
                }
                assert(rows_of_group(before@, keys, name@) =~= seq![]);
            }
            let group = Group { name, rows };
            groups.push(group);
            proof {
                assert(rows_of_group(after, keys, group.name@) =~= seq![image]);
                assert forall|h: int| 0 <= h < groups@.len() implies row_views(
                    (#[trigger] groups@[h]).rows@,
                ) == rows_of_group(after, keys, groups@[h].name@) by {
                    if h < old_groups.len() {
                        assert(row_views(old_groups[h].rows@) == rows_of_group(
                            before@,
                            keys,
                            old_groups[h].name@,
                        ));
                    }
                }
                assert forall|n: Seq<char>| #[trigger] has_group(after, keys, n) implies exists|
                    h: int,
                | group_at(groups@, n, h) by {
                    if n == group.name@ {
                        assert(group_at(groups@, n, old_groups.len() as int));
                    } else {
                        assert(has_group(before@, keys, n));
                        let h = choose|h: int| group_at(old_groups, n, h);
                        assert(group_at(groups@, n, h));
                    }
                }
            }
        },
    }
}

/// The target of a grouped definition: the values of every group by its name.
/// Where a group cannot be evaluated, the error is that of one such group.
pub fn recompute_groups(
    def: &TransformDef,
    rows: Vec<Row>,
    source_columns: &NameMap<ValueType>,
) -> (r: Result<Recomputed, EvalError>)
    requires
        def@.key_space is Aggregate,
        forall|n: Seq<char>| #[trigger]
            has_group(row_views(rows@), def@.key_space->group_by, n) ==> folding_is_clear(
                definition_group_engine(
                    def@,
                    rows_of_group(row_views(rows@), def@.key_space->group_by, n),
                    types_view(source_columns@),
                ),
            ),
    ensures
        match r {
            Ok(m) => {
                &&& forall|n: Seq<char>|
                    recomputed_view(m@).contains_key(n) <==> #[trigger] has_group(
                        row_views(rows@),
                        def@.key_space->group_by,
                        n,
                    )
                &&& forall|n: Seq<char>| #[trigger]
                    recomputed_view(m@).contains_key(n) ==> group_target(
                        def@,
                        row_views(rows@),
                        types_view(source_columns@),
                        n,
                    ) == Ok::<Values, EvalErrorView>(recomputed_view(m@)[n])
            },
            Err(e) => exists|n: Seq<char>| #[trigger]
                has_group(row_views(rows@), def@.key_space->group_by, n) && group_target(
                    def@,
                    row_views(rows@),
                    types_view(source_columns@),
                    n,
                ) == Err::<Values, EvalErrorView>(e@),
        },
{
    let none: Vec<GroupByKey> = Vec::new();
    let group_by = match &def.key_space {
        KeySpace::Aggregate { group_by } => group_by,
        KeySpace::OneToOne => &none,
    };
    let ghost keys = key_views(group_by@);
    let ghost all = row_views(rows@);
    let ghost types = types_view(source_columns@);
    let ghost source = rows@;
    let mut groups: Vec<Group> = Vec::new();
    let mut left: Vec<Row> = rows;
    let n: usize = left.len();
    proof {
        assert(all.take(0) =~= seq![]);
        assert forall|x: Seq<char>| !#[trigger] has_group(all.take(0), keys, x) by {}
    }
    let mut i: usize = 0;
    while i < n
        invariant
            0 <= i <= n,
            n == source.len(),
            all == row_views(source),
            keys == key_views(group_by@),
            left@ == source.skip(i as int),
            partitions(groups@, all.take(i as int), keys),
        decreases n - i,
    {
        let row = left.remove(0);
        proof {
            assert(row == source[i as int]);
            assert(left@ =~= source.skip(i + 1));
            assert(all.take(i + 1) =~= all.take(i as int).push(row_view(row@)));
        }
        add_row(&mut groups, row, group_by, Ghost(all.take(i as int)));
        i += 1;
    }
    assert(all.take(i as int) =~= all);
    let mut cache = RegexCache::new();
    let mut target: Recomputed = NameMap::new();
    let mut g: usize = 0;
    while g < groups.len()
        invariant
            0 <= g <= groups@.len(),
            def@.key_space is Aggregate,
            forall|x: Seq<char>| #[trigger]
                has_group(all, keys, x) ==> folding_is_clear(
                    definition_group_engine(def@, rows_of_group(all, keys, x), types),
                ),
            keys == def@.key_space->group_by,
            types == types_view(source_columns@),
            partitions(groups@, all, keys),
            forall|x: Seq<char>|
                #![trigger target@.contains_key(x)]
                target@.contains_key(x) <==> exists|h: int|
                    h < g && group_at(groups@, x, h),
            forall|x: Seq<char>| #[trigger]
                target@.contains_key(x) ==> group_target(def@, all, types, x) == Ok::<
                    Values,
                    EvalErrorView,
                >(values_view(target@[x]@)),
            all == row_views(source),
            source == rows@,
        decreases groups@.len() - g,
    {
        let ghost name = groups@[g as int].name@;
        let ghost before = target@;
        proof {
            assert(row_views(groups@[g as int].rows@) == rows_of_group(all, keys, name));
            assert(groups@[g as int].rows@.len() > 0);
            assert(has_group(all, keys, name));
        }
        match evaluate_aggregate(def, groups[g].rows.as_slice(), source_columns, &mut cache) {
            Ok(values) => {
                target.insert(groups[g].name.clone(), values);
                proof {
                    assert forall|x: Seq<char>|
                        #![trigger target@.contains_key(x)]
                        target@.contains_key(x) <==> exists|h: int|
                            h < g + 1 && group_at(groups@, x, h) by {
                        if x == name {
                            assert(group_at(groups@, x, g as int));
                        } else {
                            assert(before.contains_key(x) == target@.contains_key(x));
                            if exists|h: int| h < g + 1 && group_at(groups@, x, h) {
                                let h = choose|h: int| h < g + 1 && group_at(groups@, x, h);
                                assert(h < g);
                            }
                            if before.contains_key(x) {
                                let h = choose|h: int| h < g && group_at(groups@, x, h);
                                assert(h < g + 1 && group_at(groups@, x, h));
                            }
                        }
                    }
                    assert forall|x: Seq<char>| #[trigger]
                        target@.contains_key(x) implies group_target(def@, all, types, x) == Ok::<
                        Values,
                        EvalErrorView,
                    >(values_view(target@[x]@)) by {
                        if x != name {
                            assert(before.contains_key(x));
                        }
                    }
                }
            },
            Err(e) => {
                return Err(e);
            },
        }
        g += 1;
    }
    proof {
        assert forall|x: Seq<char>|
            recomputed_view(target@).contains_key(x) <==> #[trigger] has_group(all, keys, x) by {
            if has_group(all, keys, x) {
                let h = choose|h: int| group_at(groups@, x, h);
                assert(h < g && group_at(groups@, x, h));
                assert(target@.contains_key(x));
            }
            if target@.contains_key(x) {
                let h = choose|h: int| h < g && group_at(groups@, x, h);
                assert(groups@[h].rows@.len() > 0);
                assert(row_views(groups@[h].rows@) == rows_of_group(all, keys, x));
            }
        }
        assert forall|x: Seq<char>| #[trigger]
            recomputed_view(target@).contains_key(x) implies group_target(
            def@,
            all,
            types,
            x,
        ) == Ok::<Values, EvalErrorView>(recomputed_view(target@)[x]) by {
            assert(target@.contains_key(x));
        }
    }
    Ok(target)
}

// ---------------------------------------------------------------------------
// Laws
// ---------------------------------------------------------------------------

proof fn longer_has_more_bytes(v: Seq<char>, w: Seq<char>)
    requires
        v.len() <= w.len(),
        w.take(v.len() as int) == v,
        encode_utf8(v).len() == encode_utf8(w).len(),
    ensures
        v == w,
    decreases v.len(),
{
    if v.len() > 0 {
        assert(w.take(v.len() as int)[0] == v[0]);
        assert(w.drop_first().take(v.len() - 1) =~= v.drop_first()) by {
            assert forall|i: int| 0 <= i < v.len() - 1 implies w.drop_first().take(
                v.len() - 1,
            )[i] == v.drop_first()[i] by {
                assert(w.take(v.len() as int)[i + 1] == v[i + 1]);
            }
        }
        longer_has_more_bytes(v.drop_first(), w.drop_first());
        assert(v =~= seq![v[0]] + v.drop_first());
        assert(w =~= seq![w[0]] + w.drop_first());
    } else {
        if w.len() > 0 {
            assert(encode_utf8(w).len() > 0);
        }
        assert(v =~= w);
    }
}

/// A text behind its length ends in one place only.
proof fn prefixed_is_read_back(v: Seq<char>, x: Seq<char>, w: Seq<char>, y: Seq<char>)
    requires
        prefixed(v) + x == prefixed(w) + y,
    ensures
        v == w,
        x == y,
{
    reveal_strlit(":");
    let n = encode_utf8(v).len();
    let m = encode_utf8(w).len();
    let d = decimal(n);
    let e = decimal(m);
    let a = prefixed(v) + x;
    let b = prefixed(w) + y;
    crate::numeric::decimal_reads_back(n);
    crate::numeric::decimal_reads_back(m);
    text::decimal_is_digits(n);
    text::decimal_is_digits(m);
    assert(a[d.len() as int] == ':');
    assert(b[e.len() as int] == ':');
    if d.len() < e.len() {
        assert(b[d.len() as int] == e[d.len() as int]);
        assert(text::ascii_digit(e[d.len() as int]));
    } else if e.len() < d.len() {
        assert(a[e.len() as int] == d[e.len() as int]);
        assert(text::ascii_digit(d[e.len() as int]));
    }
    assert(d =~= e) by {
        assert forall|i: int| 0 <= i < d.len() implies d[i] == e[i] by {
            assert(a[i] == d[i]);
            assert(b[i] == e[i]);
        }
    }
    assert(n == m);
    let from = d.len() as int + 1;
    assert(a.skip(from) =~= v + x);
    assert(b.skip(from) =~= w + y);
    if v.len() <= w.len() {
        assert(w.take(v.len() as int) =~= v) by {
            assert forall|i: int| 0 <= i < v.len() implies w[i] == v[i] by {
                assert((v + x)[i] == v[i]);
                assert((w + y)[i] == w[i]);
            }
        }
        longer_has_more_bytes(v, w);
    } else {
        assert(v.take(w.len() as int) =~= w) by {
            assert forall|i: int| 0 <= i < w.len() implies v[i] == w[i] by {
                assert((v + x)[i] == v[i]);
                assert((w + y)[i] == w[i]);
            }
        }
        longer_has_more_bytes(w, v);
    }
    assert(x =~= (v + x).skip(v.len() as int));
    assert(y =~= (w + y).skip(w.len() as int));
}

proof fn packed_from_front(cells: Seq<Seq<char>>)
    requires
        cells.len() > 0,
    ensures
        packed(cells) == prefixed(cells[0]) + packed(cells.skip(1)),
    decreases cells.len(),
{
    let head = cells.drop_last();
    if cells.len() == 1 {
        assert(packed(head) =~= seq![]);
        assert(packed(cells.skip(1)) =~= seq![]);
        assert(packed(cells) =~= prefixed(cells[0]) + packed(cells.skip(1)));
    } else {
        packed_from_front(head);
        assert(head.skip(1) =~= cells.skip(1).drop_last());
        assert(packed(cells) =~= prefixed(cells[0]) + packed(cells.skip(1)));
    }
}

/// Different lists of texts pack into different texts, whatever characters
/// they hold.
pub proof fn packing_loses_nothing(a: Seq<Seq<char>>, b: Seq<Seq<char>>)
    requires
        packed(a) == packed(b),
    ensures
        a == b,
    decreases a.len(),
{
    if a.len() > 0 && b.len() > 0 {
        packed_from_front(a);
        packed_from_front(b);
        prefixed_is_read_back(a[0], packed(a.skip(1)), b[0], packed(b.skip(1)));
        packing_loses_nothing(a.skip(1), b.skip(1));
        assert(a =~= seq![a[0]] + a.skip(1));
        assert(b =~= seq![b[0]] + b.skip(1));
    } else {
        if a.len() > 0 {
            packed_from_front(a);
            text::decimal_is_digits(encode_utf8(a[0]).len());
            assert(packed(a).len() > 0);
        }
        if b.len() > 0 {
            packed_from_front(b);
            text::decimal_is_digits(encode_utf8(b[0]).len());
            assert(packed(b).len() > 0);
        }
        assert(a =~= b);
    }
}

/// Two rows belong to the same group exactly if they hold the same texts for
/// the keys.
pub proof fn groups_are_told_apart(r: RowView, s: RowView, keys: Seq<GroupByKeyView>)
    ensures
        group_name(r, keys) == group_name(s, keys) <==> key_cells(r, keys) == key_cells(s, keys),
{
    if group_name(r, keys) == group_name(s, keys) {
        packing_loses_nothing(key_cells(r, keys), key_cells(s, keys));
    }
}

} // verus!
