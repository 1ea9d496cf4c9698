//! The grammar of the definition language: for each construct, what the
//! tokens from a given position on read as, and where the construct ends.
//!
//! ```text
//! TRANSFORM <target> FROM <source> [GROUP BY <keys>] SELECT <fields> [WHERE TRUE]
//! RELATIONSHIP <name> FROM <from_table>.<fk_col> TO <to_table>.<pk_col>
//! PAUSE  TRANSFORM <target>[.<column>]
//! RESUME TRANSFORM <target>[.<column>]
//! DROP   TRANSFORM <target>
//! DROP   RELATIONSHIP [<schema>.]<from_table>.<relationship_name>
//! ALTER  TRANSFORM <target> <clause>[, <clause> ...]
//!   where <clause> is  ADD <expr> AS <field>  |  DROP <field>  |  ALTER <field> AS <expr>
//! ```

use vstd::prelude::*;

use crate::defs::ast::{
    AlterClauseView, AlterTransformView, DefinitionRefView, ExprView, FieldDefView, GroupByKeyView,
    KeySpaceView, Predicate, RelationshipDefView, StatementView, TransformDefView,
    TransformRefView,
};
use crate::defs::error::ParseErrorView;
use crate::defs::lexer::{tokens_of, TokenView};
use crate::defs::registry::{
    aggregate_name, aggregate_named, function_named, non_immutable, operator_named,
    operator_precedence,
};
use crate::defs::typed_literal::literal_type;
use crate::text;
use crate::text::{same_ignoring_case, upper};

verus! {

// ---------------------------------------------------------------------------
// Wording
// ---------------------------------------------------------------------------

pub const STATEMENT_KEYWORDS: &'static str =
    "a statement keyword: TRANSFORM, RELATIONSHIP, PAUSE, RESUME, DROP or ALTER";

pub const JOIN_DETAIL: &'static str =
    "cross-join key-spaces are not supported by this grammar slice \
     (see issue #22 and docs/transforms.md#granularity)";

pub const GROUP_BY_DETAIL: &'static str =
    "GROUP BY must appear directly after FROM <source> and before \
     SELECT (ADR-0004's reserved slot), not after SELECT/WHERE";

pub const AGGREGATE_DETAIL: &'static str = "aggregate functions require an aggregate key-space \
     (GROUP BY) or a to-many relationship path argument, \
     neither of which applies here";

pub const DROP_FIELD_DETAIL: &'static str =
    "DROP removes a whole definition, so it takes a bare <target>; \
     dropping one calculated field is an ALTER TRANSFORM operation \
     (issues #241/#242), not a DROP";

pub const TRANSFORM_ADDRESS_DETAIL: &'static str =
    "a transform is addressed by its bare target table, optionally with one \
     '.<column>' suffix — there is no schema-qualified spelling here, since a \
     dotted address already means <transform>.<column>";

pub const RELATIONSHIP_ADDRESS_DETAIL: &'static str = "a relationship is addressed as \
     [<schema>.]<from_table>.<relationship_name> — at most three \
     '.'-separated parts";

pub const PREDICATE_DETAIL: &'static str =
    "only a literal TRUE is accepted (general predicates are deferred; \
     see docs/open-questions.md); found ";

// ---------------------------------------------------------------------------
// Single tokens
// ---------------------------------------------------------------------------

/// The token at position `p`; past the last token there is only the end of
/// the input.
pub open spec fn tok(ts: Seq<TokenView>, p: int) -> TokenView {
    if 0 <= p < ts.len() {
        ts[p]
    } else {
        TokenView::Eof
    }
}

/// The keyword `kw`, in any case, stands at `p`.
pub open spec fn at_keyword(ts: Seq<TokenView>, p: int, kw: Seq<char>) -> bool {
    match tok(ts, p) {
        TokenView::Ident(s) => same_ignoring_case(s, kw),
        _ => false,
    }
}

/// The symbol `c` stands at `p`.
pub open spec fn at_symbol(ts: Seq<TokenView>, p: int, c: char) -> bool {
    tok(ts, p) == TokenView::Symbol(c)
}

/// A string literal stands at `p`.
pub open spec fn at_string(ts: Seq<TokenView>, p: int) -> bool {
    tok(ts, p) is String
}

/// The error where `expected` should stand and `found` does.
pub open spec fn unexpected(expected: Seq<char>, found: TokenView) -> ParseErrorView {
    match found {
        TokenView::Eof => ParseErrorView::UnexpectedEof { expected },
        _ => ParseErrorView::UnexpectedToken { expected, found: found.describe() },
    }
}

/// The keyword `kw` at `p`, and the position after it.
pub open spec fn keyword(ts: Seq<TokenView>, p: int, kw: Seq<char>) -> Result<int, ParseErrorView> {
    if at_keyword(ts, p, kw) {
        Ok(p + 1)
    } else {
        Err(unexpected("'"@ + kw + "'"@, tok(ts, p)))
    }
}

/// The symbol `c` at `p`, and the position after it.
pub open spec fn symbol(ts: Seq<TokenView>, p: int, c: char) -> Result<int, ParseErrorView> {
    if at_symbol(ts, p, c) {
        Ok(p + 1)
    } else {
        Err(unexpected("'"@ + seq![c] + "'"@, tok(ts, p)))
    }
}

/// The identifier at `p`, and the position after it.
pub open spec fn ident(ts: Seq<TokenView>, p: int) -> Result<(Seq<char>, int), ParseErrorView> {
    match tok(ts, p) {
        TokenView::Ident(s) => Ok((s, p + 1)),
        other => Err(unexpected("an identifier"@, other)),
    }
}

/// Nothing is left at `p`.
pub open spec fn end_of_input(ts: Seq<TokenView>, p: int) -> Result<(), ParseErrorView> {
    match tok(ts, p) {
        TokenView::Eof => Ok(()),
        other => Err(
            ParseErrorView::UnexpectedToken {
                expected: "end of input"@,
                found: other.describe(),
            },
        ),
    }
}

// ---------------------------------------------------------------------------
// Names and addresses
// ---------------------------------------------------------------------------

/// `<table>.<column>`.
pub open spec fn table_dot_column(ts: Seq<TokenView>, p: int) -> Result<
    (Seq<char>, Seq<char>, int),
    ParseErrorView,
> {
    match ident(ts, p) {
        Err(e) => Err(e),
        Ok((table, p1)) => match symbol(ts, p1, '.') {
            Err(e) => Err(e),
            Ok(p2) => match ident(ts, p2) {
                Err(e) => Err(e),
                Ok((column, p3)) => Ok((table, column, p3)),
            },
        },
    }
}

/// `acc` and all the `.<name>` that follow it.
pub open spec fn dotted_rest(ts: Seq<TokenView>, p: int, acc: Seq<char>) -> Result<
    (Seq<char>, int),
    ParseErrorView,
>
    decreases ts.len() - p,
{
    if at_symbol(ts, p, '.') {
        match ident(ts, p + 1) {
            Err(e) => Err(e),
            Ok((name, q)) => dotted_rest(ts, q, acc + "."@ + name),
        }
    } else {
        Ok((acc, p))
    }
}

/// `acc` and the names of all the `.<name>` that follow.
pub open spec fn dotted_parts(ts: Seq<TokenView>, p: int, acc: Seq<Seq<char>>) -> Result<
    (Seq<Seq<char>>, int),
    ParseErrorView,
>
    decreases ts.len() - p,
{
    if at_symbol(ts, p, '.') {
        match ident(ts, p + 1) {
            Err(e) => Err(e),
            Ok((name, q)) => dotted_parts(ts, q, acc.push(name)),
        }
    } else {
        Ok((acc, p))
    }
}

/// `<table>` or `<schema>.<table>`: the table, its schema if one is named,
/// and the position after them.
pub open spec fn table_ref(ts: Seq<TokenView>, p: int) -> Result<
    (Seq<char>, Option<Seq<char>>, int),
    ParseErrorView,
> {
    match ident(ts, p) {
        Err(e) => Err(e),
        Ok((first, p1)) => if !at_symbol(ts, p1, '.') {
            Ok((first, None, p1))
        } else {
            match ident(ts, p1 + 1) {
                Err(e) => Err(e),
                Ok((second, p2)) => if !at_symbol(ts, p2, '.') {
                    Ok((second, Some(first), p2))
                } else {
                    match dotted_rest(ts, p2, first + "."@ + second) {
                        Err(e) => Err(e),
                        Ok((reference, _)) => Err(
                            ParseErrorView::TooManyQualifiedNameParts { reference },
                        ),
                    }
                },
            }
        },
    }
}

/// `<target>` or `<target>.<column>` in a statement that starts with `verb`.
pub open spec fn transform_address(ts: Seq<TokenView>, p: int, verb: Seq<char>) -> Result<
    (Seq<char>, Option<Seq<char>>, int),
    ParseErrorView,
> {
    match ident(ts, p) {
        Err(e) => Err(e),
        Ok((target, p1)) => if !at_symbol(ts, p1, '.') {
            Ok((target, None, p1))
        } else {
            match ident(ts, p1 + 1) {
                Err(e) => Err(e),
                Ok((column, p2)) => if !at_symbol(ts, p2, '.') {
                    Ok((target, Some(column), p2))
                } else {
                    match dotted_rest(ts, p2, target + "."@ + column) {
                        Err(e) => Err(e),
                        Ok((address, _)) => Err(
                            ParseErrorView::MalformedDefinitionAddress {
                                statement: verb + " TRANSFORM"@,
                                address,
                                detail: TRANSFORM_ADDRESS_DETAIL@,
                            },
                        ),
                    }
                },
            }
        },
    }
}

/// `[<schema>.]<from_table>.<relationship_name>`.
pub open spec fn relationship_address(ts: Seq<TokenView>, p: int) -> Result<
    (DefinitionRefView, int),
    ParseErrorView,
> {
    match ident(ts, p) {
        Err(e) => Err(e),
        Ok((first, p1)) => match dotted_parts(ts, p1, seq![first]) {
            Err(e) => Err(e),
            Ok((parts, q)) => if parts.len() == 1 {
                Err(ParseErrorView::UnscopedRelationshipAddress { address: parts[0] })
            } else if parts.len() == 2 {
                Ok(
                    (
                        DefinitionRefView::Relationship {
                            schema: None,
                            from_table: parts[0],
                            name: parts[1],
                        },
                        q,
                    ),
                )
            } else if parts.len() == 3 {
                Ok(
                    (
                        DefinitionRefView::Relationship {
                            schema: Some(parts[0]),
                            from_table: parts[1],
                            name: parts[2],
                        },
                        q,
                    ),
                )
            } else {
                Err(
                    ParseErrorView::MalformedDefinitionAddress {
                        statement: "DROP RELATIONSHIP"@,
                        address: text::joined(parts, "."@),
                        detail: RELATIONSHIP_ADDRESS_DETAIL@,
                    },
                )
            },
        },
    }
}

// ---------------------------------------------------------------------------
// Expressions
// ---------------------------------------------------------------------------

/// A character that is written between two operands.
pub open spec fn operator_char(c: char) -> bool {
    c == '+' || c == '-' || c == '*' || c == '/' || c == '%' || c == '>' || c == '<' || c == '='
}

/// The position after the `)` that closes a `(` in front of `p`, with
/// `depth` of them open.
pub open spec fn after_closing(ts: Seq<TokenView>, p: int, depth: nat) -> Result<
    int,
    ParseErrorView,
>
    decreases ts.len() - p,
{
    match tok(ts, p) {
        TokenView::Eof => Err(ParseErrorView::UnexpectedEof { expected: "')'"@ }),
        TokenView::Symbol(c) => if c == '(' {
            after_closing(ts, p + 1, depth + 1)
        } else if c == ')' {
            if depth <= 1 {
                Ok(p + 1)
            } else {
                after_closing(ts, p + 1, (depth - 1) as nat)
            }
        } else {
            after_closing(ts, p + 1, depth)
        },
        _ => after_closing(ts, p + 1, depth),
    }
}

/// The type keyword whose first word is `first`, in upper case, with the
/// next word at `p`, and the position after it. `DOUBLE PRECISION` is the
/// only one of two words.
pub open spec fn type_keyword(ts: Seq<TokenView>, p: int, first: Seq<char>) -> (Seq<char>, int) {
    if first == "DOUBLE"@ && at_keyword(ts, p, "PRECISION"@) {
        ("DOUBLE PRECISION"@, p + 1)
    } else {
        (first, p)
    }
}

/// What follows `CAST(`: `'<text>' AS <type>)`.
pub open spec fn cast_body(ts: Seq<TokenView>, p: int) -> Result<(ExprView, int), ParseErrorView> {
    match tok(ts, p) {
        TokenView::String(text) => match keyword(ts, p + 1, "AS"@) {
            Err(e) => Err(e),
            Ok(p2) => match ident(ts, p2) {
                Err(e) => Err(e),
                Ok((name, p3)) => {
                    let (kw, p4) = type_keyword(ts, p3, upper(name));
                    match symbol(ts, p4, ')') {
                        Err(e) => Err(e),
                        Ok(p5) => match literal_type(kw) {
                            None => Err(ParseErrorView::UnsupportedLiteralType { name: kw }),
                            Some(value_type) => Ok(
                                (ExprView::TypedLiteral { value_type, text }, p5),
                            ),
                        },
                    }
                },
            },
        },
        TokenView::Eof => Err(
            ParseErrorView::UnexpectedEof { expected: "a single-quoted literal"@ },
        ),
        other => match after_closing(ts, p + 1, 1) {
            Err(e) => Err(e),
            Ok(_) => Err(ParseErrorView::UnsupportedCast { found: other.describe() }),
        },
    }
}

/// The error for an aggregate call where no group is formed.
pub open spec fn misplaced_aggregate(name: Seq<char>) -> ParseErrorView {
    ParseErrorView::UnsupportedKeySpace {
        construct: name + "(...)"@,
        detail: AGGREGATE_DETAIL@,
    }
}

/// A call with the right number of arguments.
pub open spec fn checked_call(
    name: Seq<char>,
    up: Seq<char>,
    expected: nat,
    args: Seq<ExprView>,
    q: int,
) -> Result<(ExprView, int), ParseErrorView> {
    if args.len() != expected {
        Err(
            ParseErrorView::FunctionArityMismatch {
                name,
                expected: expected as usize,
                found: args.len() as usize,
            },
        )
    } else {
        Ok((ExprView::FunctionCall { name: up, args }, q))
    }
}

/// What the tokens of an expression that never ends would read as; no
/// expression takes this form (see `expressions_consume`).
pub open spec fn endless() -> Result<(ExprView, int), ParseErrorView> {
    arbitrary()
}

/// An expression whose operators all bind at least as tightly as
/// `min_precedence`. `agg` says whether the definition forms groups.
pub open spec fn binary(ts: Seq<TokenView>, p: int, agg: bool, min_precedence: int) -> Result<
    (ExprView, int),
    ParseErrorView,
>
    decreases ts.len() - p, 3int,
{
    match primary(ts, p, agg) {
        Err(e) => Err(e),
        Ok((lhs, q)) => if p < q <= ts.len() {
            climb(ts, q, agg, min_precedence, lhs)
        } else {
            endless()
        },
    }
}

/// `lhs` and the operators that follow it, as far as they bind at least as
/// tightly as `min_precedence`: each takes the next tighter expression as its
/// right operand, so operators of one level group to the left.
pub open spec fn climb(
    ts: Seq<TokenView>,
    p: int,
    agg: bool,
    min_precedence: int,
    lhs: ExprView,
) -> Result<(ExprView, int), ParseErrorView>
    decreases ts.len() - p, 0int,
{
    match tok(ts, p) {
        TokenView::Symbol(c) => if !operator_char(c) {
            Ok((lhs, p))
        } else {
            match operator_named(seq![c]) {
                None => Err(ParseErrorView::UnsupportedOperator { operator: seq![c] }),
                Some(op) => if operator_precedence(op) < min_precedence {
                    Ok((lhs, p))
                } else {
                    match binary(ts, p + 1, agg, operator_precedence(op) + 1) {
                        Err(e) => Err(e),
                        Ok((rhs, q)) => if p < q <= ts.len() {
                            climb(
                                ts,
                                q,
                                agg,
                                min_precedence,
                                ExprView::BinaryOp { op, lhs: Box::new(lhs), rhs: Box::new(rhs) },
                            )
                        } else {
                            endless()
                        },
                    }
                },
            }
        },
        _ => Ok((lhs, p)),
    }
}

/// A literal, a column, a path, a call or an expression in parentheses.
pub open spec fn primary(ts: Seq<TokenView>, p: int, agg: bool) -> Result<
    (ExprView, int),
    ParseErrorView,
>
    decreases ts.len() - p, 2int,
{
    match tok(ts, p) {
        TokenView::Symbol(c) => if c == '(' {
            match binary(ts, p + 1, agg, 0) {
                Err(e) => Err(e),
                Ok((e, q)) => match symbol(ts, q, ')') {
                    Err(e) => Err(e),
                    Ok(q2) => Ok((e, q2)),
                },
            }
        } else {
            Err(unexpected("an expression"@, TokenView::Symbol(c)))
        },
        TokenView::Number(n) => Ok((ExprView::NumberLiteral(n), p + 1)),
        TokenView::String(s) => Ok((ExprView::StringLiteral(s), p + 1)),
        TokenView::Ident(name) => named(ts, p + 1, agg, name),
        TokenView::Eof => Err(unexpected("an expression"@, TokenView::Eof)),
    }
}

/// What `name` starts, with `p` behind it.
pub open spec fn named(ts: Seq<TokenView>, p: int, agg: bool, name: Seq<char>) -> Result<
    (ExprView, int),
    ParseErrorView,
>
    decreases ts.len() - p, 7int,
{
    let up = upper(name);
    let two_words = up == "DOUBLE"@ && at_keyword(ts, p, "PRECISION"@) && at_string(ts, p + 1);
    if non_immutable(up) {
        Err(ParseErrorView::NonImmutableConstruct { name })
    } else if two_words || at_string(ts, p) {
        let (kw, q) = type_keyword(ts, p, up);
        match literal_type(kw) {
            None => Err(ParseErrorView::UnsupportedLiteralType { name }),
            Some(value_type) => Ok(
                (ExprView::TypedLiteral { value_type, text: tok(ts, q)->String_0 }, q + 1),
            ),
        }
    } else if at_symbol(ts, p, '.') {
        match ident(ts, p + 1) {
            Err(e) => Err(e),
            Ok((column, q)) => Ok((ExprView::RelationshipPath { rel: name, column }, q)),
        }
    } else if at_symbol(ts, p, '(') {
        call(ts, p + 1, agg, name)
    } else {
        Ok((ExprView::Column(name), p))
    }
}

/// A call of `name`, with `p` behind its `(`.
pub open spec fn call(ts: Seq<TokenView>, p: int, agg: bool, name: Seq<char>) -> Result<
    (ExprView, int),
    ParseErrorView,
>
    decreases ts.len() - p, 6int,
{
    let up = upper(name);
    if up == "CAST"@ {
        cast_body(ts, p)
    } else if aggregate_name(up) {
        if !agg {
            if at_symbol(ts, p, '*') {
                Err(misplaced_aggregate(name))
            } else {
                match arguments(ts, p, agg) {
                    Err(e) => Err(e),
                    Ok((args, q)) => if args.len() == 1 && args[0] is RelationshipPath {
                        Ok((ExprView::FunctionCall { name: up, args }, q))
                    } else {
                        Err(misplaced_aggregate(name))
                    },
                }
            }
        } else if up == "COUNT"@ {
            if at_symbol(ts, p, '*') {
                match symbol(ts, p + 1, ')') {
                    Err(e) => Err(e),
                    Ok(q) => Ok((ExprView::FunctionCall { name: up, args: seq![] }, q)),
                }
            } else {
                match arguments(ts, p, agg) {
                    Err(e) => Err(e),
                    Ok((args, q)) => checked_call(name, up, 1, args, q),
                }
            }
        } else {
            match arguments(ts, p, agg) {
                Err(e) => Err(e),
                Ok((args, q)) => checked_call(
                    name,
                    up,
                    aggregate_named(up)->0.arg_types.len(),
                    args,
                    q,
                ),
            }
        }
    } else if up == "COALESCE"@ {
        match arguments(ts, p, agg) {
            Err(e) => Err(e),
            Ok((args, q)) => if args.len() == 0 {
                Err(ParseErrorView::AtLeastOneArgumentRequired { name: up })
            } else {
                Ok((ExprView::FunctionCall { name: up, args }, q))
            },
        }
    } else {
        match function_named(up) {
            None => match after_closing(ts, p, 1) {
                Err(e) => Err(e),
                Ok(_) => Err(ParseErrorView::UnsupportedFunction { name }),
            },
            Some(f) => match arguments(ts, p, agg) {
                Err(e) => Err(e),
                Ok((args, q)) => checked_call(name, up, f.arg_types.len(), args, q),
            },
        }
    }
}

/// The arguments of a call up to its `)`, and the position after that.
pub open spec fn arguments(ts: Seq<TokenView>, p: int, agg: bool) -> Result<
    (Seq<ExprView>, int),
    ParseErrorView,
>
    decreases ts.len() - p, 5int,
{
    if at_symbol(ts, p, ')') {
        Ok((seq![], p + 1))
    } else {
        arguments_from(ts, p, agg, seq![])
    }
}

/// `acc` and the arguments from `p` on.
pub open spec fn arguments_from(
    ts: Seq<TokenView>,
    p: int,
    agg: bool,
    acc: Seq<ExprView>,
) -> Result<(Seq<ExprView>, int), ParseErrorView>
    decreases ts.len() - p, 4int,
{
    match binary(ts, p, agg, 0) {
        Err(e) => Err(e),
        Ok((e, q)) => if at_symbol(ts, q, ',') {
            if p < q < ts.len() {
                arguments_from(ts, q + 1, agg, acc.push(e))
            } else {
                arbitrary()
            }
        } else {
            match symbol(ts, q, ')') {
                Err(e) => Err(e),
                Ok(q2) => Ok((acc.push(e), q2)),
            }
        },
    }
}

/// An expression.
pub open spec fn expression(ts: Seq<TokenView>, p: int, agg: bool) -> Result<
    (ExprView, int),
    ParseErrorView,
> {
    binary(ts, p, agg, 0)
}

// ---------------------------------------------------------------------------
// Statements
// ---------------------------------------------------------------------------

/// `<column>` or `<rel>.<column>`.
pub open spec fn group_by_key(ts: Seq<TokenView>, p: int) -> Result<
    (GroupByKeyView, int),
    ParseErrorView,
> {
    match ident(ts, p) {
        Err(e) => Err(e),
        Ok((first, p1)) => if at_symbol(ts, p1, '.') {
            match ident(ts, p1 + 1) {
                Err(e) => Err(e),
                Ok((column, p2)) => Ok(
                    (GroupByKeyView::RelationshipPath { rel: first, column }, p2),
                ),
            }
        } else {
            Ok((GroupByKeyView::Column(first), p1))
        },
    }
}

/// `acc` and the keys from `p` on.
pub open spec fn group_by_keys(ts: Seq<TokenView>, p: int, acc: Seq<GroupByKeyView>) -> Result<
    (Seq<GroupByKeyView>, int),
    ParseErrorView,
>
    decreases ts.len() - p,
{
    match group_by_key(ts, p) {
        Err(e) => Err(e),
        Ok((key, q)) => if at_symbol(ts, q, ',') {
            group_by_keys(ts, q + 1, acc.push(key))
        } else {
            Ok((acc.push(key), q))
        },
    }
}

/// The clause between `FROM` and `SELECT`.
pub open spec fn key_space(ts: Seq<TokenView>, p: int) -> Result<
    (KeySpaceView, int),
    ParseErrorView,
> {
    if at_keyword(ts, p, "JOIN"@) {
        Err(ParseErrorView::UnsupportedKeySpace { construct: "JOIN"@, detail: JOIN_DETAIL@ })
    } else if at_keyword(ts, p, "GROUP"@) {
        match keyword(ts, p + 1, "BY"@) {
            Err(e) => Err(e),
            Ok(p2) => match group_by_keys(ts, p2, seq![]) {
                Err(e) => Err(e),
                Ok((group_by, q)) => Ok((KeySpaceView::Aggregate { group_by }, q)),
            },
        }
    } else {
        Ok((KeySpaceView::OneToOne, p))
    }
}

/// No key-space clause stands at `p`.
pub open spec fn no_key_space(ts: Seq<TokenView>, p: int) -> Result<(), ParseErrorView> {
    if at_keyword(ts, p, "JOIN"@) {
        Err(ParseErrorView::UnsupportedKeySpace { construct: "JOIN"@, detail: JOIN_DETAIL@ })
    } else if at_keyword(ts, p, "GROUP"@) {
        Err(
            ParseErrorView::UnsupportedKeySpace {
                construct: "GROUP BY"@,
                detail: GROUP_BY_DETAIL@,
            },
        )
    } else {
        Ok(())
    }
}

/// `<expr> AS <field>`.
pub open spec fn field(ts: Seq<TokenView>, p: int, agg: bool) -> Result<
    (FieldDefView, int),
    ParseErrorView,
> {
    match expression(ts, p, agg) {
        Err(e) => Err(e),
        Ok((expr, p1)) => match keyword(ts, p1, "AS"@) {
            Err(e) => Err(e),
            Ok(p2) => match ident(ts, p2) {
                Err(e) => Err(e),
                Ok((name, p3)) => Ok((FieldDefView { name, expr }, p3)),
            },
        },
    }
}

/// `acc` and the fields from `p` on.
pub open spec fn fields(ts: Seq<TokenView>, p: int, agg: bool, acc: Seq<FieldDefView>) -> Result<
    (Seq<FieldDefView>, int),
    ParseErrorView,
>
    decreases ts.len() - p,
{
    match field(ts, p, agg) {
        Err(e) => Err(e),
        Ok((f, q)) => if at_symbol(ts, q, ',') {
            if p < q < ts.len() {
                fields(ts, q + 1, agg, acc.push(f))
            } else {
                arbitrary()
            }
        } else {
            Ok((acc.push(f), q))
        },
    }
}

/// A `WHERE` clause, if there is one.
pub open spec fn predicate(ts: Seq<TokenView>, p: int) -> Result<
    (Predicate, int),
    ParseErrorView,
> {
    if at_keyword(ts, p, "WHERE"@) {
        if at_keyword(ts, p + 1, "true"@) {
            Ok((Predicate::True, p + 2))
        } else {
            Err(
                ParseErrorView::UnsupportedPredicate {
                    detail: PREDICATE_DETAIL@ + tok(ts, p + 1).describe(),
                },
            )
        }
    } else {
        Ok((Predicate::True, p))
    }
}

/// What follows the key-space clause of a transform.
pub open spec fn transform_tail(
    ts: Seq<TokenView>,
    p: int,
    target: (Seq<char>, Option<Seq<char>>),
    source: (Seq<char>, Option<Seq<char>>),
    key_space: KeySpaceView,
) -> Result<TransformDefView, ParseErrorView> {
    match keyword(ts, p, "SELECT"@) {
        Err(e) => Err(e),
        Ok(p1) => match fields(ts, p1, key_space is Aggregate, seq![]) {
            Err(e) => Err(e),
            Ok((fs, p2)) => match predicate(ts, p2) {
                Err(e) => Err(e),
                Ok((pred, p3)) => match no_key_space(ts, p3) {
                    Err(e) => Err(e),
                    Ok(_) => match end_of_input(ts, p3) {
                        Err(e) => Err(e),
                        Ok(_) => Ok(
                            TransformDefView {
                                target: target.0,
                                explicit_target_schema: target.1,
                                source: source.0,
                                explicit_source_schema: source.1,
                                key_space,
                                fields: fs,
                                predicate: pred,
                            },
                        ),
                    },
                },
            },
        },
    }
}

/// A transform definition that takes up all the tokens from `p` on.
pub open spec fn transform_def(ts: Seq<TokenView>, p: int) -> Result<
    TransformDefView,
    ParseErrorView,
> {
    match keyword(ts, p, "TRANSFORM"@) {
        Err(e) => Err(e),
        Ok(p1) => match table_ref(ts, p1) {
            Err(e) => Err(e),
            Ok((target, target_schema, p2)) => match keyword(ts, p2, "FROM"@) {
                Err(e) => Err(e),
                Ok(p3) => match table_ref(ts, p3) {
                    Err(e) => Err(e),
                    Ok((source, source_schema, p4)) => match key_space(ts, p4) {
                        Err(e) => Err(e),
                        Ok((ks, p5)) => transform_tail(
                            ts,
                            p5,
                            (target, target_schema),
                            (source, source_schema),
                            ks,
                        ),
                    },
                },
            },
        },
    }
}

/// A relationship definition that takes up all the tokens from `p` on.
pub open spec fn relationship_def(ts: Seq<TokenView>, p: int) -> Result<
    RelationshipDefView,
    ParseErrorView,
> {
    match keyword(ts, p, "RELATIONSHIP"@) {
        Err(e) => Err(e),
        Ok(p1) => match ident(ts, p1) {
            Err(e) => Err(e),
            Ok((name, p2)) => match keyword(ts, p2, "FROM"@) {
                Err(e) => Err(e),
                Ok(p3) => match table_dot_column(ts, p3) {
                    Err(e) => Err(e),
                    Ok((from_table, from_col, p4)) => match keyword(ts, p4, "TO"@) {
                        Err(e) => Err(e),
                        Ok(p5) => match table_dot_column(ts, p5) {
                            Err(e) => Err(e),
                            Ok((to_table, to_col, p6)) => match end_of_input(ts, p6) {
                                Err(e) => Err(e),
                                Ok(_) => Ok(
                                    RelationshipDefView {
                                        name,
                                        from_table,
                                        from_col,
                                        to_table,
                                        to_col,
                                    },
                                ),
                            },
                        },
                    },
                },
            },
        },
    }
}

/// `ADD <expr> AS <field>`, `DROP <field>` or `ALTER <field> AS <expr>`.
pub open spec fn alter_clause(ts: Seq<TokenView>, p: int) -> Result<
    (AlterClauseView, int),
    ParseErrorView,
> {
    if at_keyword(ts, p, "ADD"@) {
        match field(ts, p + 1, false) {
            Err(e) => Err(e),
            Ok((f, q)) => Ok((AlterClauseView::Add(f), q)),
        }
    } else if at_keyword(ts, p, "DROP"@) {
        match ident(ts, p + 1) {
            Err(e) => Err(e),
            Ok((name, q)) => Ok((AlterClauseView::Drop(name), q)),
        }
    } else if at_keyword(ts, p, "ALTER"@) {
        match ident(ts, p + 1) {
            Err(e) => Err(e),
            Ok((name, p2)) => match keyword(ts, p2, "AS"@) {
                Err(e) => Err(e),
                Ok(p3) => match expression(ts, p3, false) {
                    Err(e) => Err(e),
                    Ok((expr, q)) => Ok((AlterClauseView::Alter(FieldDefView { name, expr }), q)),
                },
            },
        }
    } else {
        Err(unexpected("'ADD', 'DROP' or 'ALTER'"@, tok(ts, p)))
    }
}

/// `acc` and the clauses from `p` on.
pub open spec fn alter_clauses(ts: Seq<TokenView>, p: int, acc: Seq<AlterClauseView>) -> Result<
    (Seq<AlterClauseView>, int),
    ParseErrorView,
>
    decreases ts.len() - p,
{
    match alter_clause(ts, p) {
        Err(e) => Err(e),
        Ok((clause, q)) => if at_symbol(ts, q, ',') {
            if p < q < ts.len() {
                alter_clauses(ts, q + 1, acc.push(clause))
            } else {
                arbitrary()
            }
        } else {
            Ok((acc.push(clause), q))
        },
    }
}

/// An `ALTER TRANSFORM` that takes up all the tokens from `p` on.
pub open spec fn alter_transform(ts: Seq<TokenView>, p: int) -> Result<
    AlterTransformView,
    ParseErrorView,
> {
    match keyword(ts, p, "ALTER"@) {
        Err(e) => Err(e),
        Ok(p1) => match keyword(ts, p1, "TRANSFORM"@) {
            Err(e) => Err(e),
            Ok(p2) => match ident(ts, p2) {
                Err(e) => Err(e),
                Ok((target, p3)) => match alter_clauses(ts, p3, seq![]) {
                    Err(e) => Err(e),
                    Ok((clauses, p4)) => match end_of_input(ts, p4) {
                        Err(e) => Err(e),
                        Ok(_) => Ok(AlterTransformView { target, clauses }),
                    },
                },
            },
        },
    }
}

/// What follows `PAUSE` or `RESUME`.
pub open spec fn transform_reference(ts: Seq<TokenView>, p: int, verb: Seq<char>) -> Result<
    (TransformRefView, int),
    ParseErrorView,
> {
    match keyword(ts, p, "TRANSFORM"@) {
        Err(e) => Err(e),
        Ok(p1) => match transform_address(ts, p1, verb) {
            Err(e) => Err(e),
            Ok((target, column, q)) => Ok((TransformRefView { target, column }, q)),
        },
    }
}

/// What follows `DROP`.
pub open spec fn drop_reference(ts: Seq<TokenView>, p: int) -> Result<
    (DefinitionRefView, int),
    ParseErrorView,
> {
    if at_keyword(ts, p, "TRANSFORM"@) {
        match transform_address(ts, p + 1, "DROP"@) {
            Err(e) => Err(e),
            Ok((target, column, q)) => match column {
                Some(c) => Err(
                    ParseErrorView::MalformedDefinitionAddress {
                        statement: "DROP TRANSFORM"@,
                        address: target + "."@ + c,
                        detail: DROP_FIELD_DETAIL@,
                    },
                ),
                None => Ok((DefinitionRefView::Transform(target), q)),
            },
        }
    } else if at_keyword(ts, p, "RELATIONSHIP"@) {
        relationship_address(ts, p + 1)
    } else {
        Err(unexpected("'TRANSFORM' or 'RELATIONSHIP' after 'DROP'"@, tok(ts, p)))
    }
}

/// `what`, if nothing stands behind it at `q`.
pub open spec fn whole<T>(what: T, ts: Seq<TokenView>, q: int) -> Result<T, ParseErrorView> {
    match end_of_input(ts, q) {
        Err(e) => Err(e),
        Ok(_) => Ok(what),
    }
}

/// A statement that takes up all the tokens from `p` on: its first keyword
/// says which.
pub open spec fn statement(ts: Seq<TokenView>, p: int) -> Result<StatementView, ParseErrorView> {
    if at_keyword(ts, p, "TRANSFORM"@) {
        match transform_def(ts, p) {
            Err(e) => Err(e),
            Ok(d) => Ok(StatementView::DefineTransform(d)),
        }
    } else if at_keyword(ts, p, "RELATIONSHIP"@) {
        match relationship_def(ts, p) {
            Err(e) => Err(e),
            Ok(d) => Ok(StatementView::DefineRelationship(d)),
        }
    } else if at_keyword(ts, p, "ALTER"@) {
        match alter_transform(ts, p) {
            Err(e) => Err(e),
            Ok(a) => Ok(StatementView::AlterTransform(a)),
        }
    } else if at_keyword(ts, p, "PAUSE"@) {
        match transform_reference(ts, p + 1, "PAUSE"@) {
            Err(e) => Err(e),
            Ok((t, q)) => whole(StatementView::Pause(t), ts, q),
        }
    } else if at_keyword(ts, p, "RESUME"@) {
        match transform_reference(ts, p + 1, "RESUME"@) {
            Err(e) => Err(e),
            Ok((t, q)) => whole(StatementView::Resume(t), ts, q),
        }
    } else if at_keyword(ts, p, "DROP"@) {
        match drop_reference(ts, p + 1) {
            Err(e) => Err(e),
            Ok((d, q)) => whole(StatementView::Drop(d), ts, q),
        }
    } else {
        Err(unexpected(STATEMENT_KEYWORDS@, tok(ts, p)))
    }
}

/// The transform definition that a text spells.
pub open spec fn transform_of(input: Seq<char>) -> Result<TransformDefView, ParseErrorView> {
    match tokens_of(input) {
        Err(e) => Err(e),
        Ok(ts) => transform_def(ts, 0),
    }
}

/// The relationship definition that a text spells.
pub open spec fn relationship_of(input: Seq<char>) -> Result<RelationshipDefView, ParseErrorView> {
    match tokens_of(input) {
        Err(e) => Err(e),
        Ok(ts) => relationship_def(ts, 0),
    }
}

/// The statement that a text spells.
pub open spec fn statement_of(input: Seq<char>) -> Result<StatementView, ParseErrorView> {
    match tokens_of(input) {
        Err(e) => Err(e),
        Ok(ts) => statement(ts, 0),
    }
}

} // verus!
