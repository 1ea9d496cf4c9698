//! Values, and what can go wrong in computing them.

use vstd::prelude::*;

use crate::defs::ast::{ValueType, ValueTypeView};
use crate::defs::pg_type::{PgType, PgTypeView};
use crate::error_code::ErrorCode;
use crate::float::{rounded, Float, FloatError, FloatView, FloatWidth};
use crate::float_text;
use crate::float_text::{reading, Reading};
use crate::numeric::{number_of, Numeric, NumericParseError, NumericView};
use crate::text;

verus! {

/// A value that is not null.
#[derive(Debug, PartialEq, Eq)]
pub enum Value {
    /// A decimal number or an integer, which is computed without a width.
    Numeric(Numeric),
    /// A binary floating-point number of a width.
    Float(Float, FloatWidth),
    Text(String),
    Boolean(bool),
    Uuid(String),
    /// A value of a type that is carried through, by its text.
    Other(PgType, String),
}

/// What a [`Value`] stands for.
#[verifier::ext_equal]
pub enum ValueView {
    Numeric(NumericView),
    Float(FloatView, FloatWidth),
    Text(Seq<char>),
    Boolean(bool),
    Uuid(Seq<char>),
    Other(PgTypeView, Seq<char>),
}

impl View for Value {
    type V = ValueView;

    open spec fn view(&self) -> ValueView {
        match self {
            Value::Numeric(n) => ValueView::Numeric(n@),
            Value::Float(v, w) => ValueView::Float(v@, *w),
            Value::Text(s) => ValueView::Text(s@),
            Value::Boolean(b) => ValueView::Boolean(*b),
            Value::Uuid(s) => ValueView::Uuid(s@),
            Value::Other(t, s) => ValueView::Other(t@, s@),
        }
    }
}

/// The view of a value that may be null.
pub open spec fn opt_value(v: Option<Value>) -> Option<ValueView> {
    match v {
        Some(x) => Some(x@),
        None => None,
    }
}

impl ValueView {
    /// The type of the value.
    pub open spec fn value_type(self) -> ValueTypeView {
        match self {
            ValueView::Numeric(_) => ValueTypeView::Numeric,
            ValueView::Float(_, w) => ValueTypeView::Float(w),
            ValueView::Text(_) => ValueTypeView::Text,
            ValueView::Boolean(_) => ValueTypeView::Boolean,
            ValueView::Uuid(_) => ValueTypeView::Uuid,
            ValueView::Other(t, _) => ValueTypeView::Other(t),
        }
    }

    /// The text of the value.
    pub open spec fn text(self) -> Seq<char> {
        match self {
            ValueView::Numeric(n) => n.spelling(),
            ValueView::Float(v, w) => float_text::rendered(w, rounded(w, v)),
            ValueView::Text(s) => s,
            ValueView::Boolean(b) => if b {
                "true"@
            } else {
                "false"@
            },
            ValueView::Uuid(s) => s,
            ValueView::Other(_, s) => s,
        }
    }
}

impl Value {
    /// The type of the value.
    pub fn value_type(&self) -> (r: ValueType)
        ensures
            r@ == self@.value_type(),
    {
        match self {
            Value::Numeric(_) => ValueType::Numeric,
            Value::Float(_, w) => ValueType::Float(*w),
            Value::Text(_) => ValueType::Text,
            Value::Boolean(_) => ValueType::Boolean,
            Value::Uuid(_) => ValueType::Uuid,
            Value::Other(t, _) => ValueType::Other(*t),
        }
    }

    /// The text of the value.
    pub fn to_string(&self) -> (r: String)
        ensures
            r@ == self@.text(),
    {
        match self {
            Value::Numeric(n) => n.to_string(),
            Value::Float(v, w) => {
                proof {
                    float_text::rounded_fits(*w, *v);
                }
                float_text::render(w.round(*v), *w)
            },
            Value::Text(s) => s.clone(),
            Value::Boolean(b) => if *b {
                text::owned("true")
            } else {
                text::owned("false")
            },
            Value::Uuid(s) => s.clone(),
            Value::Other(_, s) => s.clone(),
        }
    }

    /// A copy.
    pub fn copy(&self) -> (r: Value)
        ensures
            r@ == self@,
    {
        match self {
            Value::Numeric(n) => Value::Numeric(n.copy()),
            Value::Float(v, w) => Value::Float(*v, *w),
            Value::Text(s) => Value::Text(s.clone()),
            Value::Boolean(b) => Value::Boolean(*b),
            Value::Uuid(s) => Value::Uuid(s.clone()),
            Value::Other(t, s) => Value::Other(*t, s.clone()),
        }
    }
}

/// A copy of a value that may be null.
pub fn copy_opt(v: &Option<Value>) -> (r: Option<Value>)
    ensures
        opt_value(r) == opt_value(*v),
{
    match v {
        Some(x) => Some(x.copy()),
        None => None,
    }
}

// ---------------------------------------------------------------------------
// Errors
// ---------------------------------------------------------------------------

/// Why a field could not be computed.
#[derive(Debug, PartialEq, Eq)]
pub enum EvalError {
    MissingColumn { field: String, column: String },
    InvalidNumber { field: String, text: String, source: NumericParseError },
    InvalidFloat { field: String, text: String, reason: FloatError },
    /// A computed float left the range of its width.
    FloatOutOfRange { field: String, width: FloatWidth },
    /// A computed span of time left its range.
    IntervalOutOfRange { field: String },
    InvalidBoolean { field: String, text: String },
    Cycle(String),
    UnsupportedRelationshipPath { field: String, rel: String, column: String },
    UnknownRelationship { field: String, rel: String },
    AggregateRequiredForToMany { field: String, rel: String, column: String },
}

/// What an [`EvalError`] stands for.
#[verifier::ext_equal]
pub enum EvalErrorView {
    MissingColumn { field: Seq<char>, column: Seq<char> },
    InvalidNumber { field: Seq<char>, text: Seq<char>, source: Seq<char> },
    InvalidFloat { field: Seq<char>, text: Seq<char>, reason: Seq<char> },
    FloatOutOfRange { field: Seq<char>, width: FloatWidth },
    IntervalOutOfRange { field: Seq<char> },
    InvalidBoolean { field: Seq<char>, text: Seq<char> },
    Cycle(Seq<char>),
    UnsupportedRelationshipPath { field: Seq<char>, rel: Seq<char>, column: Seq<char> },
    UnknownRelationship { field: Seq<char>, rel: Seq<char> },
    AggregateRequiredForToMany { field: Seq<char>, rel: Seq<char>, column: Seq<char> },
}

impl View for EvalError {
    type V = EvalErrorView;

    open spec fn view(&self) -> EvalErrorView {
        match self {
            EvalError::MissingColumn { field, column } => EvalErrorView::MissingColumn {
                field: field@,
                column: column@,
            },
            EvalError::InvalidNumber { field, text, source } => EvalErrorView::InvalidNumber {
                field: field@,
                text: text@,
                source: source.message(),
            },
            EvalError::InvalidFloat { field, text, reason } => EvalErrorView::InvalidFloat {
                field: field@,
                text: text@,
                reason: reason.message(),
            },
            EvalError::FloatOutOfRange { field, width } => EvalErrorView::FloatOutOfRange {
                field: field@,
                width: *width,
            },
            EvalError::IntervalOutOfRange { field } => EvalErrorView::IntervalOutOfRange {
                field: field@,
            },
            EvalError::InvalidBoolean { field, text } => EvalErrorView::InvalidBoolean {
                field: field@,
                text: text@,
            },
            EvalError::Cycle(field) => EvalErrorView::Cycle(field@),
            EvalError::UnsupportedRelationshipPath { field, rel, column } => {
                EvalErrorView::UnsupportedRelationshipPath {
                    field: field@,
                    rel: rel@,
                    column: column@,
                }
            },
            EvalError::UnknownRelationship { field, rel } => EvalErrorView::UnknownRelationship {
                field: field@,
                rel: rel@,
            },
            EvalError::AggregateRequiredForToMany { field, rel, column } => {
                EvalErrorView::AggregateRequiredForToMany {
                    field: field@,
                    rel: rel@,
                    column: column@,
                }
            },
        }
    }
}

impl EvalErrorView {
    /// The field that could not be computed.
    pub open spec fn field(self) -> Seq<char> {
        match self {
            EvalErrorView::MissingColumn { field, .. } => field,
            EvalErrorView::InvalidNumber { field, .. } => field,
            EvalErrorView::InvalidFloat { field, .. } => field,
            EvalErrorView::FloatOutOfRange { field, .. } => field,
            EvalErrorView::IntervalOutOfRange { field } => field,
            EvalErrorView::InvalidBoolean { field, .. } => field,
            EvalErrorView::Cycle(field) => field,
            EvalErrorView::UnsupportedRelationshipPath { field, .. } => field,
            EvalErrorView::UnknownRelationship { field, .. } => field,
            EvalErrorView::AggregateRequiredForToMany { field, .. } => field,
        }
    }

    /// The message of the error.
    pub open spec fn message(self) -> Seq<char> {
        match self {
            EvalErrorView::MissingColumn { field, column } => "calculated field '"@ + field
                + "' references column '"@ + column + "', which is absent from the row image"@,
            EvalErrorView::InvalidNumber { field, text, source } => "calculated field '"@ + field
                + "' could not parse '"@ + text + "' as a number: "@ + source,
            EvalErrorView::InvalidFloat { field, text, reason } => "calculated field '"@ + field
                + "' could not parse '"@ + text + "' as a number: "@ + reason,
            EvalErrorView::FloatOutOfRange { field, width } => "calculated field '"@ + field
                + "' left the range of "@ + width.pg_name_spec()
                + ": value out of range: overflow"@,
            EvalErrorView::IntervalOutOfRange { field } => "calculated field '"@ + field
                + "' came to no interval: interval out of range"@,
            EvalErrorView::InvalidBoolean { field, text } => "calculated field '"@ + field
                + "' could not parse '"@ + text + "' as a boolean"@,
            EvalErrorView::Cycle(field) => "calculated field '"@ + field
                + "' is part of a cyclic reference"@,
            EvalErrorView::UnsupportedRelationshipPath { field, rel, column } => {
                "calculated field '"@ + field + "' references relationship path '"@ + rel + "."@
                    + column + "', which is not yet supported (grammar-only per issue #25)"@
            },
            EvalErrorView::UnknownRelationship { field, rel } => "calculated field '"@ + field
                + "' references relationship '"@ + rel
                + "', which is not available to the evaluator"@,
            EvalErrorView::AggregateRequiredForToMany { field, rel, column } => {
                "calculated field '"@ + field + "' references to-many relationship path '"@ + rel
                    + "."@ + column
                    + "' without an aggregate; a to-many relationship must be aggregate-wrapped"@
            },
        }
    }
}

impl EvalError {
    /// The category of the error.
    pub fn code(&self) -> (r: ErrorCode)
        ensures
            r == ErrorCode::Internal,
    {
        ErrorCode::Internal
    }

    /// The field that could not be computed.
    pub fn field(&self) -> (r: &str)
        ensures
            r@ == self@.field(),
    {
        match self {
            EvalError::MissingColumn { field, .. } => field.as_str(),
            EvalError::InvalidNumber { field, .. } => field.as_str(),
            EvalError::InvalidFloat { field, .. } => field.as_str(),
            EvalError::FloatOutOfRange { field, .. } => field.as_str(),
            EvalError::IntervalOutOfRange { field } => field.as_str(),
            EvalError::InvalidBoolean { field, .. } => field.as_str(),
            EvalError::Cycle(field) => field.as_str(),
            EvalError::UnsupportedRelationshipPath { field, .. } => field.as_str(),
            EvalError::UnknownRelationship { field, .. } => field.as_str(),
            EvalError::AggregateRequiredForToMany { field, .. } => field.as_str(),
        }
    }

    /// The message of the error.
    pub fn to_string(&self) -> (r: String)
        ensures
            r@ == self@.message(),
    {
        let mut m = text::owned("calculated field '");
        m.append(self.field());
        match self {
            EvalError::MissingColumn { column, .. } => {
                m.append("' references column '");
                m.append(column.as_str());
                m.append("', which is absent from the row image");
            },
            EvalError::InvalidNumber { text, source, .. } => {
                m.append("' could not parse '");
                m.append(text.as_str());
                m.append("' as a number: ");
                m.append(source.to_string().as_str());
            },
            EvalError::InvalidFloat { text, reason, .. } => {
                m.append("' could not parse '");
                m.append(text.as_str());
                m.append("' as a number: ");
                m.append(reason.to_string().as_str());
            },
            EvalError::FloatOutOfRange { width, .. } => {
                m.append("' left the range of ");
                m.append(width.pg_name());
                m.append(": value out of range: overflow");
            },
            EvalError::IntervalOutOfRange { .. } => {
                m.append("' came to no interval: interval out of range");
            },
            EvalError::InvalidBoolean { text, .. } => {
                m.append("' could not parse '");
                m.append(text.as_str());
                m.append("' as a boolean");
            },
            EvalError::Cycle(_) => {
                m.append("' is part of a cyclic reference");
            },
            EvalError::UnsupportedRelationshipPath { rel, column, .. } => {
                m.append("' references relationship path '");
                m.append(rel.as_str());
                m.append(".");
                m.append(column.as_str());
                m.append("', which is not yet supported (grammar-only per issue #25)");
            },
            EvalError::UnknownRelationship { rel, .. } => {
                m.append("' references relationship '");
                m.append(rel.as_str());
                m.append("', which is not available to the evaluator");
            },
            EvalError::AggregateRequiredForToMany { rel, column, .. } => {
                m.append("' references to-many relationship path '");
                m.append(rel.as_str());
                m.append(".");
                m.append(column.as_str());
                m.append(
                    "' without an aggregate; a to-many relationship must be aggregate-wrapped",
                );
            },
        }
        m
    }
}

// ---------------------------------------------------------------------------
// Reading values
// ---------------------------------------------------------------------------

/// The number that a text spells.
pub open spec fn number_value(field: Seq<char>, s: Seq<char>) -> Result<NumericView, EvalErrorView> {
    match number_of(s) {
        Some(n) => Ok(n),
        None => Err(
            EvalErrorView::InvalidNumber {
                field,
                text: s,
                source: "'"@ + s + "' is not a decimal number"@,
            },
        ),
    }
}

/// The truth value that a text spells.
pub open spec fn boolean_of(s: Seq<char>) -> Option<bool> {
    if s == "t"@ || s == "true"@ || s == "TRUE"@ || s == "True"@ {
        Some(true)
    } else if s == "f"@ || s == "false"@ || s == "FALSE"@ || s == "False"@ {
        Some(false)
    } else {
        None
    }
}

/// The float of a width that a text spells.
pub open spec fn float_value(field: Seq<char>, w: FloatWidth, s: Seq<char>) -> Result<
    FloatView,
    EvalErrorView,
> {
    match reading(s, w) {
        Reading::Value(v) => Ok(v),
        Reading::OutOfRange => Err(
            EvalErrorView::InvalidFloat {
                field,
                text: s,
                reason: "value out of range: overflow"@,
            },
        ),
        Reading::Invalid => Err(
            EvalErrorView::InvalidFloat {
                field,
                text: s,
                reason: "invalid input syntax for type "@ + w.pg_name_spec() + ": \""@ + s
                    + "\""@,
            },
        ),
    }
}

/// The value of type `t` that a text spells: exact numbers as decimal numbers,
/// floats as floats, other types as they are.
pub open spec fn value_of(field: Seq<char>, t: ValueTypeView, s: Seq<char>) -> Result<
    ValueView,
    EvalErrorView,
> {
    match t {
        ValueTypeView::Float(w) => match float_value(field, w, s) {
            Ok(v) => Ok(ValueView::Float(v, w)),
            Err(e) => Err(e),
        },
        ValueTypeView::Integer(_) | ValueTypeView::Numeric => {
            match number_value(field, s) {
                Ok(n) => Ok(ValueView::Numeric(n)),
                Err(e) => Err(e),
            }
        },
        ValueTypeView::Text => Ok(ValueView::Text(s)),
        ValueTypeView::Boolean => match boolean_of(s) {
            Some(b) => Ok(ValueView::Boolean(b)),
            None => Err(EvalErrorView::InvalidBoolean { field, text: s }),
        },
        ValueTypeView::Uuid => Ok(ValueView::Uuid(s)),
        ValueTypeView::Other(p) => Ok(ValueView::Other(p, s)),
    }
}

/// The number that `s` spells.
pub fn parse_number(field: &str, s: &str) -> (r: Result<Numeric, EvalError>)
    ensures
        match r {
            Ok(n) => number_value(field@, s@) == Ok::<NumericView, EvalErrorView>(n@),
            Err(e) => number_value(field@, s@) == Err::<NumericView, EvalErrorView>(e@),
        },
{
    match Numeric::parse(s) {
        Ok(n) => Ok(n),
        Err(source) => Err(
            EvalError::InvalidNumber { field: text::owned(field), text: text::owned(s), source },
        ),
    }
}

/// The truth value that `s` spells.
pub fn parse_boolean(field: &str, s: &str) -> (r: Result<bool, EvalError>)
    ensures
        match r {
            Ok(b) => boolean_of(s@) == Some(b),
            Err(e) => boolean_of(s@) is None && e@ == (EvalErrorView::InvalidBoolean {
                field: field@,
                text: s@,
            }),
        },
{
    if *s == *"t" || *s == *"true" || *s == *"TRUE" || *s == *"True" {
        Ok(true)
    } else if *s == *"f" || *s == *"false" || *s == *"FALSE" || *s == *"False" {
        Ok(false)
    } else {
        Err(EvalError::InvalidBoolean { field: text::owned(field), text: text::owned(s) })
    }
}

/// The value of type `t` that `s` spells.
pub fn parse_value(field: &str, t: ValueType, s: &str) -> (r: Result<Value, EvalError>)
    ensures
        match r {
            Ok(v) => value_of(field@, t@, s@) == Ok::<ValueView, EvalErrorView>(v@),
            Err(e) => value_of(field@, t@, s@) == Err::<ValueView, EvalErrorView>(e@),
        },
{
    match t {
        ValueType::Float(w) => match float_text::parse(s, w) {
            Ok(v) => Ok(Value::Float(v, w)),
            Err(reason) => Err(
                EvalError::InvalidFloat { field: text::owned(field), text: text::owned(s), reason },
            ),
        },
        ValueType::Integer(_) | ValueType::Numeric => match parse_number(field, s) {
            Ok(n) => Ok(Value::Numeric(n)),
            Err(e) => Err(e),
        },
        ValueType::Text => Ok(Value::Text(text::owned(s))),
        ValueType::Boolean => match parse_boolean(field, s) {
            Ok(b) => Ok(Value::Boolean(b)),
            Err(e) => Err(e),
        },
        ValueType::Uuid => Ok(Value::Uuid(text::owned(s))),
        ValueType::Other(p) => Ok(Value::Other(p, text::owned(s))),
    }
}

} // verus!
