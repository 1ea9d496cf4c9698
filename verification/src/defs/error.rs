//! What the parser rejects, and how it says so.

use vstd::prelude::*;

use crate::text;

verus! {

/// Why a text is not a statement of the language.
#[derive(Debug, PartialEq, Eq)]
#[allow(inconsistent_fields)]
pub enum ParseError {
    UnexpectedEof { expected: String },
    UnexpectedToken { expected: String, found: String },
    UnsupportedKeySpace { construct: String, detail: String },
    UnsupportedOperator { operator: String },
    UnsupportedFunction { name: String },
    /// A construct whose value changes between evaluations.
    NonImmutableConstruct { name: String },
    FunctionArityMismatch { name: String, expected: usize, found: usize },
    AtLeastOneArgumentRequired { name: String },
    UnsupportedPredicate { detail: String },
    TooManyQualifiedNameParts { reference: String },
    MalformedDefinitionAddress { statement: String, address: String, detail: String },
    UnscopedRelationshipAddress { address: String },
    UnterminatedString,
    UnsupportedCastOperator,
    UnexpectedChar { found: char },
    UnsupportedLiteralType { name: String },
    UnsupportedCast { found: String },
}

/// What a [`ParseError`] stands for.
#[verifier::ext_equal]
#[allow(inconsistent_fields)]
pub enum ParseErrorView {
    UnexpectedEof { expected: Seq<char> },
    UnexpectedToken { expected: Seq<char>, found: Seq<char> },
    UnsupportedKeySpace { construct: Seq<char>, detail: Seq<char> },
    UnsupportedOperator { operator: Seq<char> },
    UnsupportedFunction { name: Seq<char> },
    NonImmutableConstruct { name: Seq<char> },
    FunctionArityMismatch { name: Seq<char>, expected: usize, found: usize },
    AtLeastOneArgumentRequired { name: Seq<char> },
    UnsupportedPredicate { detail: Seq<char> },
    TooManyQualifiedNameParts { reference: Seq<char> },
    MalformedDefinitionAddress { statement: Seq<char>, address: Seq<char>, detail: Seq<char> },
    UnscopedRelationshipAddress { address: Seq<char> },
    UnterminatedString,
    UnsupportedCastOperator,
    UnexpectedChar { found: char },
    UnsupportedLiteralType { name: Seq<char> },
    UnsupportedCast { found: Seq<char> },
}

impl View for ParseError {
    type V = ParseErrorView;

    open spec fn view(&self) -> ParseErrorView {
        match self {
            ParseError::UnexpectedEof { expected } => ParseErrorView::UnexpectedEof {
                expected: expected@,
            },
            ParseError::UnexpectedToken { expected, found } => ParseErrorView::UnexpectedToken {
                expected: expected@,
                found: found@,
            },
            ParseError::UnsupportedKeySpace { construct, detail } => ParseErrorView::UnsupportedKeySpace {
                construct: construct@,
                detail: detail@,
            },
            ParseError::UnsupportedOperator { operator } => ParseErrorView::UnsupportedOperator {
                operator: operator@,
            },
            ParseError::UnsupportedFunction { name } => ParseErrorView::UnsupportedFunction {
                name: name@,
            },
            ParseError::NonImmutableConstruct { name } => ParseErrorView::NonImmutableConstruct {
                name: name@,
            },
            ParseError::FunctionArityMismatch { name, expected, found } => ParseErrorView::FunctionArityMismatch {
                name: name@,
                expected: *expected,
                found: *found,
            },
            ParseError::AtLeastOneArgumentRequired { name } => ParseErrorView::AtLeastOneArgumentRequired {
                name: name@,
            },
            ParseError::UnsupportedPredicate { detail } => ParseErrorView::UnsupportedPredicate {
                detail: detail@,
            },
            ParseError::TooManyQualifiedNameParts { reference } => ParseErrorView::TooManyQualifiedNameParts {
                reference: reference@,
            },
            ParseError::MalformedDefinitionAddress { statement, address, detail } => ParseErrorView::MalformedDefinitionAddress {
                statement: statement@,
                address: address@,
                detail: detail@,
            },
            ParseError::UnscopedRelationshipAddress { address } => ParseErrorView::UnscopedRelationshipAddress {
                address: address@,
            },
            ParseError::UnterminatedString => ParseErrorView::UnterminatedString,
            ParseError::UnsupportedCastOperator => ParseErrorView::UnsupportedCastOperator,
            ParseError::UnexpectedChar { found } => ParseErrorView::UnexpectedChar {
                found: *found,
            },
            ParseError::UnsupportedLiteralType { name } => ParseErrorView::UnsupportedLiteralType {
                name: name@,
            },
            ParseError::UnsupportedCast { found } => ParseErrorView::UnsupportedCast {
                found: found@,
            },
        }
    }
}

impl ParseErrorView {
    /// The message of the error.
    pub open spec fn message(self) -> Seq<char> {
        match self {
            ParseErrorView::UnexpectedEof { expected } => "unexpected end of input: expected "@ + expected,
            ParseErrorView::UnexpectedToken { expected, found } => "expected "@ + expected + ", found "@ + found,
            ParseErrorView::UnsupportedKeySpace { construct, detail } => "unsupported key-space construct "@ + construct + ": "@ + detail,
            ParseErrorView::UnsupportedOperator { operator } => "unsupported operator '"@ + operator + "'"@,
            ParseErrorView::UnsupportedFunction { name } => "unsupported function '"@ + name + "'"@,
            ParseErrorView::NonImmutableConstruct { name } => "'"@ + name + "' is not immutable and cannot be used in a definition"@,
            ParseErrorView::FunctionArityMismatch { name, expected, found } => "function '"@ + name + "' takes "@ + text::decimal(expected as nat) + " argument(s), found "@ + text::decimal(found as nat),
            ParseErrorView::AtLeastOneArgumentRequired { name } => "function '"@ + name + "' takes at least one argument"@,
            ParseErrorView::UnsupportedPredicate { detail } => "unsupported predicate: "@ + detail,
            ParseErrorView::TooManyQualifiedNameParts { reference } => "'"@ + reference + "' has too many '.'-separated parts: a table is named <table> or <schema>.<table>"@,
            ParseErrorView::MalformedDefinitionAddress { statement, address, detail } => "malformed "@ + statement + " address '"@ + address + "': "@ + detail,
            ParseErrorView::UnscopedRelationshipAddress { address } => "'"@ + address + "' does not say which table the relationship starts from: write <from_table>.<relationship_name>, for example posts.author"@,
            ParseErrorView::UnterminatedString => "unterminated string literal"@,
            ParseErrorView::UnsupportedCastOperator => "the '::' cast operator is not supported: write <type> '<text>' or CAST('<text>' AS <type>)"@,
            ParseErrorView::UnexpectedChar { found } => "unexpected character '"@ + seq![found] + "'"@,
            ParseErrorView::UnsupportedLiteralType { name } => "'"@ + name + "' is not a type a literal can be written in"@,
            ParseErrorView::UnsupportedCast { found } => "CAST takes a single-quoted literal, found "@ + found,
        }
    }
}

impl ParseError {
    /// The message of the error.
    pub fn to_string(&self) -> (r: String)
        ensures
            r@ == self@.message(),
    {
        match self {
            ParseError::UnexpectedEof { expected } => {
                let mut m = text::owned("unexpected end of input: expected ");
                m.append(expected.as_str());
                m
            },
            ParseError::UnexpectedToken { expected, found } => {
                let mut m = text::owned("expected ");
                m.append(expected.as_str());
                m.append(", found ");
                m.append(found.as_str());
                m
            },
            ParseError::UnsupportedKeySpace { construct, detail } => {
                let mut m = text::owned("unsupported key-space construct ");
                m.append(construct.as_str());
                m.append(": ");
                m.append(detail.as_str());
                m
            },
            ParseError::UnsupportedOperator { operator } => {
                let mut m = text::owned("unsupported operator '");
                m.append(operator.as_str());
                m.append("'");
                m
            },
            ParseError::UnsupportedFunction { name } => {
                let mut m = text::owned("unsupported function '");
                m.append(name.as_str());
                m.append("'");
                m
            },
            ParseError::NonImmutableConstruct { name } => {
                let mut m = text::owned("'");
                m.append(name.as_str());
                m.append("' is not immutable and cannot be used in a definition");
                m
            },
            ParseError::FunctionArityMismatch { name, expected, found } => {
                let mut m = text::owned("function '");
                m.append(name.as_str());
                m.append("' takes ");
                m.append(text::decimal_of(*expected as u128).as_str());
                m.append(" argument(s), found ");
                m.append(text::decimal_of(*found as u128).as_str());
                m
            },
            ParseError::AtLeastOneArgumentRequired { name } => {
                let mut m = text::owned("function '");
                m.append(name.as_str());
                m.append("' takes at least one argument");
                m
            },
            ParseError::UnsupportedPredicate { detail } => {
                let mut m = text::owned("unsupported predicate: ");
                m.append(detail.as_str());
                m
            },
            ParseError::TooManyQualifiedNameParts { reference } => {
                let mut m = text::owned("'");
                m.append(reference.as_str());
                m.append("' has too many '.'-separated parts: a table is named <table> or <schema>.<table>");
                m
            },
            ParseError::MalformedDefinitionAddress { statement, address, detail } => {
                let mut m = text::owned("malformed ");
                m.append(statement.as_str());
                m.append(" address '");
                m.append(address.as_str());
                m.append("': ");
                m.append(detail.as_str());
                m
            },
            ParseError::UnscopedRelationshipAddress { address } => {
                let mut m = text::owned("'");
                m.append(address.as_str());
                m.append("' does not say which table the relationship starts from: write <from_table>.<relationship_name>, for example posts.author");
                m
            },
            ParseError::UnterminatedString => text::owned("unterminated string literal"),
            ParseError::UnsupportedCastOperator => text::owned("the '::' cast operator is not supported: write <type> '<text>' or CAST('<text>' AS <type>)"),
            ParseError::UnexpectedChar { found } => {
                let mut m = text::owned("unexpected character '");
                m.push(*found);
                m.append("'");
                m
            },
            ParseError::UnsupportedLiteralType { name } => {
                let mut m = text::owned("'");
                m.append(name.as_str());
                m.append("' is not a type a literal can be written in");
                m
            },
            ParseError::UnsupportedCast { found } => {
                let mut m = text::owned("CAST takes a single-quoted literal, found ");
                m.append(found.as_str());
                m
            },
        }
    }
}

} // verus!
