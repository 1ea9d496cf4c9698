//! Rows, and the related rows that expressions read.

use vstd::prelude::*;

use crate::defs::ast::{opt_view, ValueType, ValueTypeView};
use crate::defs::model::RelationshipCardinality;
use crate::defs::typing::types_view;
use crate::defs::value::{value_of, EvalErrorView, ValueView};
use crate::names::NameMap;

verus! {

/// A row: the text of each column, or none where it is null.
pub type Row = NameMap<Option<String>>;

/// What a [`Row`] stands for.
pub type RowView = Map<Seq<char>, Option<Seq<char>>>;

/// The view of a row.
pub open spec fn row_view(m: Map<Seq<char>, Option<String>>) -> RowView {
    m.map_values(|v: Option<String>| opt_view(v))
}

/// The views of a list of rows.
pub open spec fn row_views(s: Seq<Row>) -> Seq<RowView> {
    s.map_values(|r: Row| row_view(r@))
}

/// A relationship that leads to at most one row. The rows are found by the
/// text of the column that they are joined on; a row in which that column is
/// null has no key and is left out.
#[derive(Debug)]
pub struct ToOneRelationship {
    pub from_col: String,
    pub cardinality: RelationshipCardinality,
    pub to_columns: NameMap<ValueType>,
    pub to_rows_by_key: NameMap<Row>,
}

/// What a [`ToOneRelationship`] stands for.
#[verifier::ext_equal]
pub struct ToOneView {
    pub from_col: Seq<char>,
    pub cardinality: RelationshipCardinality,
    pub to_columns: Map<Seq<char>, ValueTypeView>,
    pub to_rows_by_key: Map<Seq<char>, RowView>,
}

impl View for ToOneRelationship {
    type V = ToOneView;

    open spec fn view(&self) -> ToOneView {
        ToOneView {
            from_col: self.from_col@,
            cardinality: self.cardinality,
            to_columns: types_view(self.to_columns@),
            to_rows_by_key: self.to_rows_by_key@.map_values(|r: Row| row_view(r@)),
        }
    }
}

/// A relationship that leads to any number of rows, found by the text of the
/// column that they are joined on.
#[derive(Debug)]
pub struct ToManyRelationship {
    pub from_col: String,
    pub to_columns: NameMap<ValueType>,
    pub to_rows_by_key: NameMap<Vec<Row>>,
}

/// What a [`ToManyRelationship`] stands for.
#[verifier::ext_equal]
pub struct ToManyView {
    pub from_col: Seq<char>,
    pub to_columns: Map<Seq<char>, ValueTypeView>,
    pub to_rows_by_key: Map<Seq<char>, Seq<RowView>>,
}

impl View for ToManyRelationship {
    type V = ToManyView;

    open spec fn view(&self) -> ToManyView {
        ToManyView {
            from_col: self.from_col@,
            to_columns: types_view(self.to_columns@),
            to_rows_by_key: self.to_rows_by_key@.map_values(|rs: Vec<Row>| row_views(rs@)),
        }
    }
}

/// The relationships that expressions can follow, by name.
#[derive(Debug)]
pub struct RelationshipContext {
    by_name: NameMap<ToOneRelationship>,
    to_many_by_name: NameMap<ToManyRelationship>,
}

/// What a [`RelationshipContext`] stands for.
#[verifier::ext_equal]
pub struct ContextView {
    pub to_one: Map<Seq<char>, ToOneView>,
    pub to_many: Map<Seq<char>, ToManyView>,
}

/// The view of a map of relationships that lead to one row.
pub open spec fn to_one_views(m: Map<Seq<char>, ToOneRelationship>) -> Map<Seq<char>, ToOneView> {
    m.map_values(|r: ToOneRelationship| r@)
}

/// The view of a map of relationships that lead to many rows.
pub open spec fn to_many_views(m: Map<Seq<char>, ToManyRelationship>) -> Map<
    Seq<char>,
    ToManyView,
> {
    m.map_values(|r: ToManyRelationship| r@)
}

impl View for RelationshipContext {
    type V = ContextView;

    closed spec fn view(&self) -> ContextView {
        ContextView {
            to_one: to_one_views(self.by_name@),
            to_many: to_many_views(self.to_many_by_name@),
        }
    }
}

/// The context without relationships.
pub open spec fn no_relationships() -> ContextView {
    ContextView { to_one: Map::empty(), to_many: Map::empty() }
}

impl Default for RelationshipContext {
    fn default() -> (r: RelationshipContext)
        ensures
            r@ == no_relationships(),
    {
        let r = RelationshipContext { by_name: NameMap::new(), to_many_by_name: NameMap::new() };
        assert(r@ =~= no_relationships());
        r
    }
}

impl RelationshipContext {
    /// The context of relationships that lead to one row each.
    pub fn new(by_name: NameMap<ToOneRelationship>) -> (r: RelationshipContext)
        ensures
            r@ == (ContextView { to_one: to_one_views(by_name@), to_many: Map::empty() }),
    {
        let ghost to_one = to_one_views(by_name@);
        let r = RelationshipContext { by_name, to_many_by_name: NameMap::new() };
        assert(r@ =~= (ContextView { to_one, to_many: Map::empty() }));
        r
    }

    /// The relationship `rel`, if it leads to one row.
    pub fn to_one(&self, rel: &str) -> (r: Option<&ToOneRelationship>)
        ensures
            match r {
                Some(data) => self@.to_one.contains_key(rel@) && self@.to_one[rel@] == data@,
                None => !self@.to_one.contains_key(rel@),
            },
    {
        self.by_name.get(rel)
    }

    /// The relationship `rel`, if it leads to many rows.
    pub fn to_many(&self, rel: &str) -> (r: Option<&ToManyRelationship>)
        ensures
            match r {
                Some(data) => self@.to_many.contains_key(rel@) && self@.to_many[rel@] == data@,
                None => !self@.to_many.contains_key(rel@),
            },
    {
        self.to_many_by_name.get(rel)
    }

    /// The context with the relationships that lead to many rows replaced.
    #[must_use]
    pub fn with_to_many(
        self,
        to_many_by_name: NameMap<ToManyRelationship>,
    ) -> (r: RelationshipContext)
        ensures
            r@ == (ContextView { to_one: self@.to_one, to_many: to_many_views(to_many_by_name@) }),
    {
        RelationshipContext { by_name: self.by_name, to_many_by_name }
    }
}

// ---------------------------------------------------------------------------
// Cells
// ---------------------------------------------------------------------------

/// What an expression comes to: a value, null, or an error.
pub type Outcome = Result<Option<ValueView>, EvalErrorView>;

/// The outcome of reading a value that is not null.
pub open spec fn known(v: Result<ValueView, EvalErrorView>) -> Outcome {
    match v {
        Ok(x) => Ok(Some(x)),
        Err(e) => Err(e),
    }
}

/// The value of the column `name` in `row`. A column whose type is not known
/// holds numbers.
pub open spec fn cell(
    row: RowView,
    columns: Map<Seq<char>, ValueTypeView>,
    field: Seq<char>,
    name: Seq<char>,
) -> Outcome {
    if !row.contains_key(name) {
        Err(EvalErrorView::MissingColumn { field, column: name })
    } else {
        match row[name] {
            None => Ok(None),
            Some(s) => known(
                value_of(
                    field,
                    if columns.contains_key(name) {
                        columns[name]
                    } else {
                        ValueTypeView::Numeric
                    },
                    s,
                ),
            ),
        }
    }
}

/// The value of the column `column` behind the relationship `rel`: null where
/// the key is null or no row has it.
pub open spec fn to_one_value(
    row: RowView,
    context: ContextView,
    field: Seq<char>,
    rel: Seq<char>,
    column: Seq<char>,
) -> Outcome {
    if !context.to_one.contains_key(rel) {
        Err(EvalErrorView::UnknownRelationship { field, rel })
    } else {
        let data = context.to_one[rel];
        if data.cardinality == RelationshipCardinality::ToMany {
            Err(EvalErrorView::AggregateRequiredForToMany { field, rel, column })
        } else if !row.contains_key(data.from_col) {
            Err(EvalErrorView::MissingColumn { field, column: data.from_col })
        } else {
            match row[data.from_col] {
                None => Ok(None),
                Some(key) => if data.to_rows_by_key.contains_key(key) {
                    cell(data.to_rows_by_key[key], data.to_columns, field, column)
                } else {
                    Ok(None)
                },
            }
        }
    }
}

/// The rows behind the relationship `rel`: none where the key is null.
pub open spec fn related_rows(
    row: RowView,
    data: ToManyView,
    field: Seq<char>,
) -> Result<Seq<RowView>, EvalErrorView> {
    if !row.contains_key(data.from_col) {
        Err(EvalErrorView::MissingColumn { field, column: data.from_col })
    } else {
        match row[data.from_col] {
            None => Ok(seq![]),
            Some(key) => Ok(
                if data.to_rows_by_key.contains_key(key) {
                    data.to_rows_by_key[key]
                } else {
                    seq![]
                },
            ),
        }
    }
}

/// The values of a column that are not null, in the order of the rows.
pub open spec fn cells(
    rows: Seq<RowView>,
    columns: Map<Seq<char>, ValueTypeView>,
    field: Seq<char>,
    column: Seq<char>,
) -> Result<Seq<ValueView>, EvalErrorView>
    decreases rows.len(),
{
    if rows.len() == 0 {
        Ok(seq![])
    } else {
        match cells(rows.drop_last(), columns, field, column) {
            Err(e) => Err(e),
            Ok(vs) => match cell(rows.last(), columns, field, column) {
                Err(e) => Err(e),
                Ok(None) => Ok(vs),
                Ok(Some(v)) => Ok(vs.push(v)),
            },
        }
    }
}

/// How many rows hold a value in the column; none can lack it.
pub open spec fn filled(rows: Seq<RowView>, field: Seq<char>, column: Seq<char>) -> Result<
    nat,
    EvalErrorView,
>
    decreases rows.len(),
{
    if rows.len() == 0 {
        Ok(0)
    } else {
        match filled(rows.drop_last(), field, column) {
            Err(e) => Err(e),
            Ok(n) => if !rows.last().contains_key(column) {
                Err(EvalErrorView::MissingColumn { field, column })
            } else if rows.last()[column] is Some {
                Ok(n + 1)
            } else {
                Ok(n)
            },
        }
    }
}

} // verus!
