//! The syntax tree of the definition language.

use vstd::prelude::*;

use crate::defs::pg_type::{PgType, PgTypeView};
use crate::float::FloatWidth;
use crate::integer::IntWidth;
use crate::text;

verus! {

/// The type of a value, as far as the evaluator distinguishes types.
#[derive(Debug, Clone, Copy, PartialEq, Eq, Hash)]
pub enum ValueType {
    Integer(IntWidth),
    Float(FloatWidth),
    Numeric,
    Text,
    Boolean,
    Uuid,
    /// A type whose values are carried through verbatim.
    Other(PgType),
}

/// What a [`ValueType`] stands for.
#[verifier::ext_equal]
pub enum ValueTypeView {
    Integer(IntWidth),
    Float(FloatWidth),
    Numeric,
    Text,
    Boolean,
    Uuid,
    Other(PgTypeView),
}

impl View for ValueType {
    type V = ValueTypeView;

    open spec fn view(&self) -> ValueTypeView {
        match self {
            ValueType::Integer(w) => ValueTypeView::Integer(*w),
            ValueType::Float(w) => ValueTypeView::Float(*w),
            ValueType::Numeric => ValueTypeView::Numeric,
            ValueType::Text => ValueTypeView::Text,
            ValueType::Boolean => ValueTypeView::Boolean,
            ValueType::Uuid => ValueTypeView::Uuid,
            ValueType::Other(t) => ValueTypeView::Other(t@),
        }
    }
}

impl ValueTypeView {
    /// An exact number: an integer or a decimal.
    pub open spec fn exact_numeric(self) -> bool {
        self is Integer || self is Numeric
    }

    /// A number, exact or not.
    pub open spec fn numeric_family(self) -> bool {
        self.exact_numeric() || self is Float
    }

    /// How the type is named to a reader.
    pub open spec fn display(self) -> Seq<char> {
        match self {
            ValueTypeView::Integer(w) => w.pg_name_spec(),
            ValueTypeView::Float(w) => w.pg_name_spec(),
            ValueTypeView::Numeric => "numeric"@,
            ValueTypeView::Text => "text"@,
            ValueTypeView::Boolean => "boolean"@,
            ValueTypeView::Uuid => "uuid"@,
            ValueTypeView::Other(t) => t.name(),
        }
    }

    /// How SQL spells the type.
    pub open spec fn sql_name(self) -> Seq<char> {
        match self {
            ValueTypeView::Other(t) => t.sql_type_name(),
            other => other.display(),
        }
    }

    /// See [`PgTypeView::qualified`].
    pub open spec fn qualified(self) -> bool {
        match self {
            ValueTypeView::Other(t) => t.qualified(),
            _ => true,
        }
    }
}

impl ValueType {
    /// Whether both are the same type.
    pub fn same(self, other: ValueType) -> (r: bool)
        ensures
            r == (self@ == other@),
    {
        match (self, other) {
            (ValueType::Integer(a), ValueType::Integer(b)) => a == b,
            (ValueType::Float(a), ValueType::Float(b)) => a == b,
            (ValueType::Numeric, ValueType::Numeric) => true,
            (ValueType::Text, ValueType::Text) => true,
            (ValueType::Boolean, ValueType::Boolean) => true,
            (ValueType::Uuid, ValueType::Uuid) => true,
            (ValueType::Other(a), ValueType::Other(b)) => a.same(b),
            _ => false,
        }
    }

    /// Whether this is a number type, exact or not.
    pub fn is_numeric_family(self) -> (r: bool)
        ensures
            r == self@.numeric_family(),
    {
        match self {
            ValueType::Integer(_) | ValueType::Float(_) | ValueType::Numeric => true,
            _ => false,
        }
    }

    /// Whether this is an exact number type.
    pub fn is_exact_numeric_family(self) -> (r: bool)
        ensures
            r == self@.exact_numeric(),
    {
        match self {
            ValueType::Integer(_) | ValueType::Numeric => true,
            _ => false,
        }
    }

    /// Whether SQL can spell the type.
    pub fn can_be_spelled(self) -> (r: bool)
        ensures
            r == self@.qualified(),
    {
        match self {
            ValueType::Other(t) => t.can_be_spelled(),
            _ => true,
        }
    }

    /// The type's name.
    pub fn to_string(&self) -> (r: String)
        ensures
            r@ == self@.display(),
    {
        match self {
            ValueType::Integer(w) => text::owned(w.pg_name()),
            ValueType::Float(w) => text::owned(w.pg_name()),
            ValueType::Numeric => text::owned("numeric"),
            ValueType::Text => text::owned("text"),
            ValueType::Boolean => text::owned("boolean"),
            ValueType::Uuid => text::owned("uuid"),
            ValueType::Other(t) => t.to_string(),
        }
    }
}

/// How SQL spells the type of a column that holds values of `value_type`.
pub fn pg_type_name(value_type: ValueType) -> (r: String)
    requires
        value_type@.qualified(),
    ensures
        r@ == value_type@.sql_name(),
{
    match value_type {
        ValueType::Other(t) => t.sql_type_name(),
        other => other.to_string(),
    }
}

/// The binary operators.
#[derive(Debug, Clone, Copy, PartialEq, Eq, Hash, Structural)]
pub enum Operator {
    Add,
    GreaterThan,
}

/// An expression over the columns of a source row.
#[derive(Debug, PartialEq, Eq)]
pub enum Expr {
    /// A source column, or another calculated field of the same definition.
    Column(String),
    NumberLiteral(String),
    StringLiteral(String),
    /// A constant of a named type, by its text.
    TypedLiteral { value_type: ValueType, text: String },
    /// A column reached through a named relationship.
    RelationshipPath { rel: String, column: String },
    BinaryOp { op: Operator, lhs: Box<Expr>, rhs: Box<Expr> },
    /// A call, by the function's upper-case name.
    FunctionCall { name: String, args: Vec<Expr> },
}

/// What an [`Expr`] stands for.
#[verifier::ext_equal]
pub enum ExprView {
    Column(Seq<char>),
    NumberLiteral(Seq<char>),
    StringLiteral(Seq<char>),
    TypedLiteral { value_type: ValueTypeView, text: Seq<char> },
    RelationshipPath { rel: Seq<char>, column: Seq<char> },
    BinaryOp { op: Operator, lhs: Box<ExprView>, rhs: Box<ExprView> },
    FunctionCall { name: Seq<char>, args: Seq<ExprView> },
}

/// The view of an expression.
pub open spec fn expr_view(e: Expr) -> ExprView
    decreases e,
{
    match e {
        Expr::Column(name) => ExprView::Column(name@),
        Expr::NumberLiteral(n) => ExprView::NumberLiteral(n@),
        Expr::StringLiteral(s) => ExprView::StringLiteral(s@),
        Expr::TypedLiteral { value_type, text } => ExprView::TypedLiteral {
            value_type: value_type@,
            text: text@,
        },
        Expr::RelationshipPath { rel, column } => ExprView::RelationshipPath {
            rel: rel@,
            column: column@,
        },
        Expr::BinaryOp { op, lhs, rhs } => ExprView::BinaryOp {
            op,
            lhs: Box::new(expr_view(*lhs)),
            rhs: Box::new(expr_view(*rhs)),
        },
        Expr::FunctionCall { name, args } => ExprView::FunctionCall {
            name: name@,
            args: Seq::new(
                args@.len(),
                |i: int|
                    if 0 <= i < args@.len() {
                        expr_view(args@[i])
                    } else {
                        arbitrary()
                    },
            ),
        },
    }
}

impl View for Expr {
    type V = ExprView;

    open spec fn view(&self) -> ExprView {
        expr_view(*self)
    }
}

/// The views of a sequence of expressions.
pub open spec fn expr_views(s: Seq<Expr>) -> Seq<ExprView> {
    Seq::new(s.len(), |i: int| s[i]@)
}

/// The view of a call holds the views of its arguments.
pub broadcast proof fn call_view(name: String, args: Vec<Expr>)
    ensures
        #[trigger] expr_view(Expr::FunctionCall { name, args }) == (ExprView::FunctionCall {
            name: name@,
            args: expr_views(args@),
        }),
{
    assert(expr_view(Expr::FunctionCall { name, args })->args =~= expr_views(args@));
}

/// A copy of an expression.
fn copy_expr(e: &Expr) -> (r: Expr)
    ensures
        r@ == e@,
    decreases *e, 0nat,
{
    match e {
        Expr::Column(name) => Expr::Column(name.clone()),
        Expr::NumberLiteral(n) => Expr::NumberLiteral(n.clone()),
        Expr::StringLiteral(s) => Expr::StringLiteral(s.clone()),
        Expr::TypedLiteral { value_type, text } => Expr::TypedLiteral {
            value_type: *value_type,
            text: text.clone(),
        },
        Expr::RelationshipPath { rel, column } => Expr::RelationshipPath {
            rel: rel.clone(),
            column: column.clone(),
        },
        Expr::BinaryOp { op, lhs, rhs } => {
            let l = copy_expr(lhs);
            let r = copy_expr(rhs);
            Expr::BinaryOp { op: *op, lhs: Box::new(l), rhs: Box::new(r) }
        },
        Expr::FunctionCall { name, args } => {
            let copies = copy_exprs(args);
            proof {
                broadcast use call_view;
            }
            Expr::FunctionCall { name: name.clone(), args: copies }
        },
    }
}

/// Copies of a list of expressions.
fn copy_exprs(es: &Vec<Expr>) -> (r: Vec<Expr>)
    ensures
        expr_views(r@) == expr_views(es@),
    decreases *es, 1nat,
{
    let mut r: Vec<Expr> = Vec::new();
    let mut i: usize = 0;
    while i < es.len()
        invariant
            0 <= i <= es@.len(),
            expr_views(r@) =~= expr_views(es@).take(i as int),
        decreases es@.len() - i,
    {
        let ghost before = r@;
        let e = copy_expr(&es[i]);
        r.push(e);
        assert(expr_views(r@) =~= expr_views(before).push(e@));
        i += 1;
    }
    r
}

impl Clone for Expr {
    fn clone(&self) -> (r: Expr)
        ensures
            r@ == self@,
    {
        copy_expr(self)
    }
}

/// One calculated field: an expression and the column it fills.
#[derive(Debug, PartialEq, Eq)]
pub struct FieldDef {
    pub name: String,
    pub expr: Expr,
}

/// What a [`FieldDef`] stands for.
#[verifier::ext_equal]
pub struct FieldDefView {
    pub name: Seq<char>,
    pub expr: ExprView,
}

impl View for FieldDef {
    type V = FieldDefView;

    open spec fn view(&self) -> FieldDefView {
        FieldDefView { name: self.name@, expr: self.expr@ }
    }
}

/// The views of a sequence of fields.
pub open spec fn field_views(s: Seq<FieldDef>) -> Seq<FieldDefView> {
    Seq::new(s.len(), |i: int| s[i]@)
}

/// One `GROUP BY` key.
#[derive(Debug, PartialEq, Eq)]
pub enum GroupByKey {
    Column(String),
    /// A column reached through a to-one relationship.
    RelationshipPath { rel: String, column: String },
}

/// What a [`GroupByKey`] stands for.
#[verifier::ext_equal]
pub enum GroupByKeyView {
    Column(Seq<char>),
    RelationshipPath { rel: Seq<char>, column: Seq<char> },
}

impl View for GroupByKey {
    type V = GroupByKeyView;

    open spec fn view(&self) -> GroupByKeyView {
        match self {
            GroupByKey::Column(name) => GroupByKeyView::Column(name@),
            GroupByKey::RelationshipPath { rel, column } => GroupByKeyView::RelationshipPath {
                rel: rel@,
                column: column@,
            },
        }
    }
}

impl GroupByKeyView {
    /// The name of the target column that holds the key.
    pub open spec fn target_column_name(self) -> Seq<char> {
        match self {
            GroupByKeyView::Column(name) => name,
            GroupByKeyView::RelationshipPath { rel, column } => column,
        }
    }

    /// The key as the expression that computes it.
    pub open spec fn as_expr(self) -> ExprView {
        match self {
            GroupByKeyView::Column(name) => ExprView::Column(name),
            GroupByKeyView::RelationshipPath { rel, column } => ExprView::RelationshipPath {
                rel,
                column,
            },
        }
    }
}

impl GroupByKey {
    /// The name of the target column that holds the key.
    pub fn target_column_name(&self) -> (r: &str)
        ensures
            r@ == self@.target_column_name(),
    {
        match self {
            GroupByKey::Column(name) => name.as_str(),
            GroupByKey::RelationshipPath { column, .. } => column.as_str(),
        }
    }

    /// The key as the expression that computes it.
    pub fn as_expr(&self) -> (r: Expr)
        ensures
            r@ == self@.as_expr(),
    {
        match self {
            GroupByKey::Column(name) => Expr::Column(name.clone()),
            GroupByKey::RelationshipPath { rel, column } => Expr::RelationshipPath {
                rel: rel.clone(),
                column: column.clone(),
            },
        }
    }
}

/// The views of a sequence of keys.
pub open spec fn key_views(s: Seq<GroupByKey>) -> Seq<GroupByKeyView> {
    Seq::new(s.len(), |i: int| s[i]@)
}

/// What one target row stands for.
#[derive(Debug, PartialEq, Eq)]
pub enum KeySpace {
    /// One target row for each source row.
    OneToOne,
    /// One target row for each group of source rows.
    Aggregate { group_by: Vec<GroupByKey> },
}

/// What a [`KeySpace`] stands for.
#[verifier::ext_equal]
pub enum KeySpaceView {
    OneToOne,
    Aggregate { group_by: Seq<GroupByKeyView> },
}

impl View for KeySpace {
    type V = KeySpaceView;

    open spec fn view(&self) -> KeySpaceView {
        match self {
            KeySpace::OneToOne => KeySpaceView::OneToOne,
            KeySpace::Aggregate { group_by } => KeySpaceView::Aggregate {
                group_by: key_views(group_by@),
            },
        }
    }
}

/// Which source rows a definition reads: all of them.
#[derive(Debug, Clone, Copy, PartialEq, Eq, Structural)]
pub enum Predicate {
    True,
}

/// A transform definition.
#[derive(Debug, PartialEq, Eq)]
pub struct TransformDef {
    pub target: String,
    pub explicit_target_schema: Option<String>,
    pub source: String,
    pub explicit_source_schema: Option<String>,
    pub key_space: KeySpace,
    pub fields: Vec<FieldDef>,
    pub predicate: Predicate,
}

/// What a [`TransformDef`] stands for.
#[verifier::ext_equal]
pub struct TransformDefView {
    pub target: Seq<char>,
    pub explicit_target_schema: Option<Seq<char>>,
    pub source: Seq<char>,
    pub explicit_source_schema: Option<Seq<char>>,
    pub key_space: KeySpaceView,
    pub fields: Seq<FieldDefView>,
    pub predicate: Predicate,
}

/// The view of an optional string.
pub open spec fn opt_view(s: Option<String>) -> Option<Seq<char>> {
    match s {
        Some(t) => Some(t@),
        None => None,
    }
}

impl View for TransformDef {
    type V = TransformDefView;

    open spec fn view(&self) -> TransformDefView {
        TransformDefView {
            target: self.target@,
            explicit_target_schema: opt_view(self.explicit_target_schema),
            source: self.source@,
            explicit_source_schema: opt_view(self.explicit_source_schema),
            key_space: self.key_space@,
            fields: field_views(self.fields@),
            predicate: self.predicate,
        }
    }
}

/// A named relationship between two tables.
#[derive(Debug, PartialEq, Eq)]
pub struct RelationshipDef {
    pub name: String,
    pub from_table: String,
    pub from_col: String,
    pub to_table: String,
    pub to_col: String,
}

/// What a [`RelationshipDef`] stands for.
#[verifier::ext_equal]
pub struct RelationshipDefView {
    pub name: Seq<char>,
    pub from_table: Seq<char>,
    pub from_col: Seq<char>,
    pub to_table: Seq<char>,
    pub to_col: Seq<char>,
}

impl View for RelationshipDef {
    type V = RelationshipDefView;

    open spec fn view(&self) -> RelationshipDefView {
        RelationshipDefView {
            name: self.name@,
            from_table: self.from_table@,
            from_col: self.from_col@,
            to_table: self.to_table@,
            to_col: self.to_col@,
        }
    }
}

/// A transform, or one of its calculated fields.
#[derive(Debug, PartialEq, Eq)]
pub struct TransformRef {
    pub target: String,
    pub column: Option<String>,
}

/// What a [`TransformRef`] stands for.
#[verifier::ext_equal]
pub struct TransformRefView {
    pub target: Seq<char>,
    pub column: Option<Seq<char>>,
}

impl View for TransformRef {
    type V = TransformRefView;

    open spec fn view(&self) -> TransformRefView {
        TransformRefView { target: self.target@, column: opt_view(self.column) }
    }
}

/// A whole definition, of either kind.
#[derive(Debug, PartialEq, Eq)]
pub enum DefinitionRef {
    /// A transform, by its bare target table.
    Transform(String),
    /// A relationship, by the table it starts from and its name.
    Relationship { schema: Option<String>, from_table: String, name: String },
}

/// What a [`DefinitionRef`] stands for.
#[verifier::ext_equal]
pub enum DefinitionRefView {
    Transform(Seq<char>),
    Relationship { schema: Option<Seq<char>>, from_table: Seq<char>, name: Seq<char> },
}

impl View for DefinitionRef {
    type V = DefinitionRefView;

    open spec fn view(&self) -> DefinitionRefView {
        match self {
            DefinitionRef::Transform(target) => DefinitionRefView::Transform(target@),
            DefinitionRef::Relationship { schema, from_table, name } => {
                DefinitionRefView::Relationship {
                    schema: opt_view(*schema),
                    from_table: from_table@,
                    name: name@,
                }
            },
        }
    }
}

/// One edit of a definition's fields.
#[derive(Debug, PartialEq, Eq)]
pub enum AlterClause {
    Add(FieldDef),
    Drop(String),
    Alter(FieldDef),
}

/// What an [`AlterClause`] stands for.
#[verifier::ext_equal]
pub enum AlterClauseView {
    Add(FieldDefView),
    Drop(Seq<char>),
    Alter(FieldDefView),
}

impl View for AlterClause {
    type V = AlterClauseView;

    open spec fn view(&self) -> AlterClauseView {
        match self {
            AlterClause::Add(f) => AlterClauseView::Add(f@),
            AlterClause::Drop(name) => AlterClauseView::Drop(name@),
            AlterClause::Alter(f) => AlterClauseView::Alter(f@),
        }
    }
}

/// The views of a sequence of edits.
pub open spec fn clause_views(s: Seq<AlterClause>) -> Seq<AlterClauseView> {
    Seq::new(s.len(), |i: int| s[i]@)
}

/// A list of edits of one definition.
#[derive(Debug, PartialEq, Eq)]
pub struct AlterTransform {
    pub target: String,
    pub clauses: Vec<AlterClause>,
}

/// What an [`AlterTransform`] stands for.
#[verifier::ext_equal]
pub struct AlterTransformView {
    pub target: Seq<char>,
    pub clauses: Seq<AlterClauseView>,
}

impl View for AlterTransform {
    type V = AlterTransformView;

    open spec fn view(&self) -> AlterTransformView {
        AlterTransformView { target: self.target@, clauses: clause_views(self.clauses@) }
    }
}

/// Any statement of the language.
#[derive(Debug, PartialEq, Eq)]
pub enum Statement {
    DefineTransform(TransformDef),
    DefineRelationship(RelationshipDef),
    AlterTransform(AlterTransform),
    Pause(TransformRef),
    Resume(TransformRef),
    Drop(DefinitionRef),
}

/// What a [`Statement`] stands for.
#[verifier::ext_equal]
pub enum StatementView {
    DefineTransform(TransformDefView),
    DefineRelationship(RelationshipDefView),
    AlterTransform(AlterTransformView),
    Pause(TransformRefView),
    Resume(TransformRefView),
    Drop(DefinitionRefView),
}

impl View for Statement {
    type V = StatementView;

    open spec fn view(&self) -> StatementView {
        match self {
            Statement::DefineTransform(d) => StatementView::DefineTransform(d@),
            Statement::DefineRelationship(d) => StatementView::DefineRelationship(d@),
            Statement::AlterTransform(a) => StatementView::AlterTransform(a@),
            Statement::Pause(t) => StatementView::Pause(t@),
            Statement::Resume(t) => StatementView::Resume(t@),
            Statement::Drop(d) => StatementView::Drop(d@),
        }
    }
}

} // verus!
