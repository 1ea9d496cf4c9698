//! What holds of everything the grammar accepts.

use vstd::prelude::*;

use crate::defs::ast::{ExprView, FieldDefView, KeySpaceView, StatementView};
use crate::defs::error::ParseErrorView;
use crate::defs::eval::{all_foldable, foldable};
use crate::defs::grammar::{
    arguments, arguments_from, at_keyword, at_symbol, binary, call, climb, expression, field,
    fields, group_by_key, group_by_keys, key_space, keyword, named, operator_char, primary,
    relationship_of, statement_of, table_ref, tok, transform_of,
};
use crate::defs::lexer::{number_tokens_are_numbers, numbers_readable, tokens_of, TokenView};
use crate::defs::registry::{
    aggregate_functions_have_rows, aggregate_name, aggregate_named, aggregates_are_no_functions,
    function_named, non_immutable,
};
use crate::defs::oracle::{renderable, NamingView};
use crate::defs::typed_literal::{keywords_name_their_types, literal_type};
use crate::defs::typing::{all_typable, typable};
use crate::numeric::number_of;
use crate::text::{same_ignoring_case, upper};

verus! {

/// An expression made of nothing but constructs the evaluator has: no column
/// is named like a non-immutable construct, every number can be read, every
/// literal's type is one a literal may name, and every call is of a known function with the number
/// of arguments it takes. Where no groups are formed, an aggregate takes a
/// single relationship path.
pub open spec fn supported(e: ExprView, agg: bool) -> bool
    decreases e,
{
    match e {
        ExprView::Column(name) => !non_immutable(upper(name)),
        ExprView::NumberLiteral(n) => number_of(n) is Some,
        ExprView::StringLiteral(_) => true,
        ExprView::TypedLiteral { value_type, text } => exists|kw: Seq<char>| #[trigger]
            literal_type(kw) == Some(value_type),
        ExprView::RelationshipPath { rel, column } => true,
        ExprView::BinaryOp { op, lhs, rhs } => supported(*lhs, agg) && supported(*rhs, agg),
        ExprView::FunctionCall { name, args } => {
            &&& supported_call(name, args, agg)
            &&& forall|i: int| 0 <= i < args.len() ==> supported(#[trigger] args[i], agg)
        },
    }
}

/// A call of a known function with the number of arguments it takes.
pub open spec fn supported_call(name: Seq<char>, args: Seq<ExprView>, agg: bool) -> bool {
    if aggregate_name(name) {
        if !agg {
            args.len() == 1 && args[0] is RelationshipPath
        } else if name == "COUNT"@ {
            args.len() <= 1
        } else {
            args.len() == aggregate_named(name)->0.arg_types.len()
        }
    } else if name == "COALESCE"@ {
        args.len() >= 1
    } else {
        function_named(name) matches Some(f) && args.len() == f.arg_types.len()
    }
}

spec fn good(
    r: Result<(ExprView, int), ParseErrorView>,
    ts: Seq<TokenView>,
    p: int,
    agg: bool,
) -> bool {
    r matches Ok((e, q)) ==> p < q <= ts.len() && supported(e, agg)
}

spec fn good_list(
    r: Result<(Seq<ExprView>, int), ParseErrorView>,
    ts: Seq<TokenView>,
    p: int,
    agg: bool,
) -> bool {
    r matches Ok((es, q)) ==> p < q <= ts.len() && forall|i: int|
        0 <= i < es.len() ==> supported(#[trigger] es[i], agg)
}

proof fn binary_good(ts: Seq<TokenView>, p: int, agg: bool, m: int)
    requires
        numbers_readable(ts),
        0 <= p,
    ensures
        good(binary(ts, p, agg, m), ts, p, agg),
    decreases ts.len() - p, 3int,
{
    primary_good(ts, p, agg);
    if let Ok((lhs, q)) = primary(ts, p, agg) {
        climb_good(ts, q, agg, m, lhs);
    }
}

proof fn climb_good(ts: Seq<TokenView>, p: int, agg: bool, m: int, lhs: ExprView)
    requires
        numbers_readable(ts),
        0 <= p <= ts.len(),
        supported(lhs, agg),
    ensures
        climb(ts, p, agg, m, lhs) matches Ok((e, q)) ==> p <= q <= ts.len() && supported(e, agg),
    decreases ts.len() - p, 0int,
{
    if let TokenView::Symbol(c) = tok(ts, p) {
        if operator_char(c) {
            if let Some(op) = crate::defs::registry::operator_named(seq![c]) {
                let prec = crate::defs::registry::operator_precedence(op);
                if prec >= m {
                    binary_good(ts, p + 1, agg, prec + 1);
                    if let Ok((rhs, q)) = binary(ts, p + 1, agg, prec + 1) {
                        climb_good(
                            ts,
                            q,
                            agg,
                            m,
                            ExprView::BinaryOp { op, lhs: Box::new(lhs), rhs: Box::new(rhs) },
                        );
                    }
                }
            }
        }
    }
}

proof fn primary_good(ts: Seq<TokenView>, p: int, agg: bool)
    requires
        numbers_readable(ts),
        0 <= p,
    ensures
        good(primary(ts, p, agg), ts, p, agg),
    decreases ts.len() - p, 2int,
{
    match tok(ts, p) {
        TokenView::Symbol(c) => {
            if c == '(' {
                binary_good(ts, p + 1, agg, 0);
            }
        },
        TokenView::Ident(name) => {
            named_good(ts, p + 1, agg, name);
        },
        _ => {},
    }
}

proof fn named_good(ts: Seq<TokenView>, p: int, agg: bool, name: Seq<char>)
    requires
        numbers_readable(ts),
        0 <= p <= ts.len(),
    ensures
        named(ts, p, agg, name) matches Ok((e, q)) ==> p <= q <= ts.len() && supported(e, agg),
    decreases ts.len() - p, 7int,
{
    if at_symbol(ts, p, '(') {
        call_good(ts, p + 1, agg, name);
    }
}

proof fn call_good(ts: Seq<TokenView>, p: int, agg: bool, name: Seq<char>)
    requires
        numbers_readable(ts),
        0 <= p,
    ensures
        good(call(ts, p, agg, name), ts, p, agg),
    decreases ts.len() - p, 6int,
{
    arguments_good(ts, p, agg);
    aggregate_functions_have_rows(upper(name));
}

proof fn arguments_good(ts: Seq<TokenView>, p: int, agg: bool)
    requires
        numbers_readable(ts),
        0 <= p,
    ensures
        good_list(arguments(ts, p, agg), ts, p, agg),
    decreases ts.len() - p, 5int,
{
    if !at_symbol(ts, p, ')') {
        arguments_from_good(ts, p, agg, seq![]);
    }
}

proof fn arguments_from_good(ts: Seq<TokenView>, p: int, agg: bool, acc: Seq<ExprView>)
    requires
        numbers_readable(ts),
        0 <= p,
        forall|i: int| 0 <= i < acc.len() ==> supported(#[trigger] acc[i], agg),
    ensures
        good_list(arguments_from(ts, p, agg, acc), ts, p, agg),
    decreases ts.len() - p, 4int,
{
    binary_good(ts, p, agg, 0);
    if let Ok((e, q)) = binary(ts, p, agg, 0) {
        assert forall|i: int| 0 <= i < acc.push(e).len() implies supported(
            #[trigger] acc.push(e)[i],
            agg,
        ) by {
            if i < acc.len() {
                assert(acc.push(e)[i] == acc[i]);
            }
        }
        if at_symbol(ts, q, ',') {
            arguments_from_good(ts, q + 1, agg, acc.push(e));
        }
    }
}

/// An expression takes up at least one token and never more than there are.
pub proof fn expressions_consume(ts: Seq<TokenView>, p: int, agg: bool)
    requires
        numbers_readable(ts),
        0 <= p,
    ensures
        expression(ts, p, agg) matches Ok((e, q)) ==> p < q <= ts.len(),
{
    binary_good(ts, p, agg, 0);
}

/// Whatever reads as an expression is made of supported constructs only.
pub proof fn expressions_are_supported(ts: Seq<TokenView>, p: int, agg: bool)
    requires
        numbers_readable(ts),
        0 <= p,
    ensures
        expression(ts, p, agg) matches Ok((e, q)) ==> supported(e, agg),
{
    binary_good(ts, p, agg, 0);
}

proof fn fields_good(ts: Seq<TokenView>, p: int, agg: bool, acc: Seq<FieldDefView>)
    requires
        numbers_readable(ts),
        0 <= p,
        forall|i: int| 0 <= i < acc.len() ==> supported(#[trigger] acc[i].expr, agg),
    ensures
        fields(ts, p, agg, acc) matches Ok((fs, q)) ==> p < q <= ts.len() && fs.len() > acc.len()
            && forall|i: int| 0 <= i < fs.len() ==> supported(#[trigger] fs[i].expr, agg),
    decreases ts.len() - p,
{
    binary_good(ts, p, agg, 0);
    if let Ok((f, q)) = field(ts, p, agg) {
        assert forall|i: int| 0 <= i < acc.push(f).len() implies supported(
            #[trigger] acc.push(f)[i].expr,
            agg,
        ) by {
            if i < acc.len() {
                assert(acc.push(f)[i] == acc[i]);
            }
        }
        if at_symbol(ts, q, ',') {
            fields_good(ts, q + 1, agg, acc.push(f));
        }
    }
}

proof fn keys_consume(ts: Seq<TokenView>, p: int, acc: Seq<crate::defs::ast::GroupByKeyView>)
    requires
        0 <= p,
    ensures
        group_by_keys(ts, p, acc) matches Ok((ks, q)) ==> p < q <= ts.len() && ks.len() > acc.len(),
    decreases ts.len() - p,
{
    if let Ok((k, q)) = group_by_key(ts, p) {
        if at_symbol(ts, q, ',') {
            keys_consume(ts, q + 1, acc.push(k));
        }
    }
}

/// Every accepted transform has at least one field, forms its groups by at
/// least one key, and is made of supported constructs only.
pub proof fn transforms_are_supported(input: Seq<char>)
    ensures
        transform_of(input) matches Ok(d) ==> {
            &&& d.fields.len() > 0
            &&& d.key_space matches KeySpaceView::Aggregate { group_by } ==> group_by.len() > 0
            &&& forall|i: int|
                0 <= i < d.fields.len() ==> supported(
                    #[trigger] d.fields[i].expr,
                    d.key_space is Aggregate,
                )
        },
{
    if let Ok(ts) = tokens_of(input) {
        number_tokens_are_numbers(input);
        if let Ok(p1) = keyword(ts, 0, "TRANSFORM"@) {
            if let Ok((_, _, p2)) = table_ref(ts, p1) {
                if let Ok(p3) = keyword(ts, p2, "FROM"@) {
                    if let Ok((_, _, p4)) = table_ref(ts, p3) {
                        if let Ok(q) = keyword(ts, p4 + 1, "BY"@) {
                            keys_consume(ts, q, seq![]);
                        }
                        if let Ok((ks, p5)) = key_space(ts, p4) {
                            if let Ok(p6) = keyword(ts, p5, "SELECT"@) {
                                fields_good(ts, p6, ks is Aggregate, seq![]);
                            }
                        }
                    }
                }
            }
        }
    }
}

proof fn supported_can_be_used(e: ExprView, agg: bool, source_sql: Seq<char>)
    requires
        supported(e, agg),
    ensures
        typable(e),
        foldable(e),
        renderable((NamingView::Joined { source_sql }), e),
    decreases e,
{
    match e {
        ExprView::TypedLiteral { value_type, text } => {
            let kw = choose|kw: Seq<char>| #[trigger] literal_type(kw) == Some(value_type);
            keywords_name_their_types(kw);
        },
        ExprView::BinaryOp { op, lhs, rhs } => {
            supported_can_be_used(*lhs, agg, source_sql);
            supported_can_be_used(*rhs, agg, source_sql);
        },
        ExprView::FunctionCall { name, args } => {
            assert forall|i: int| 0 <= i < args.len() implies typable(#[trigger] args[i])
                && foldable(args[i]) && renderable((NamingView::Joined { source_sql }), args[i]) by {
                supported_can_be_used(args[i], agg, source_sql);
            }
            aggregate_functions_have_rows(name);
            aggregates_are_no_functions();
        },
        _ => {},
    }
}

/// Every accepted transform can be typed, evaluated over a group, and spelled
/// in SQL over a source that is joined to what it follows: it is what
/// `validate`, `evaluate_aggregate` and the renderers ask for.
pub proof fn transforms_can_be_used(input: Seq<char>, source_sql: Seq<char>)
    ensures
        transform_of(input) matches Ok(d) ==> {
            &&& all_typable(d.fields)
            &&& all_foldable(d.fields)
            &&& forall|i: int|
                0 <= i < d.fields.len() ==> renderable(
                    (NamingView::Joined { source_sql }),
                    #[trigger] d.fields[i].expr,
                )
        },
{
    transforms_are_supported(input);
    if let Ok(d) = transform_of(input) {
        assert forall|i: int| 0 <= i < d.fields.len() implies typable(#[trigger] d.fields[i].expr)
            && foldable(d.fields[i].expr) && renderable(
            (NamingView::Joined { source_sql }),
            d.fields[i].expr,
        ) by {
            supported_can_be_used(d.fields[i].expr, d.key_space is Aggregate, source_sql);
        }
    }
}

/// A text that starts with `TRANSFORM` means the same as a statement and as a
/// transform; one that starts with `RELATIONSHIP` the same as a statement and
/// as a relationship.
pub proof fn statements_agree_with_definitions(input: Seq<char>)
    ensures
        tokens_of(input) matches Ok(ts) ==> {
            &&& at_keyword(ts, 0, "TRANSFORM"@) ==> statement_of(input) == (match transform_of(
                input,
            ) {
                Ok(d) => Ok::<StatementView, ParseErrorView>(StatementView::DefineTransform(d)),
                Err(e) => Err(e),
            })
            &&& at_keyword(ts, 0, "RELATIONSHIP"@) ==> statement_of(input) == (
            match relationship_of(input) {
                Ok(d) => Ok::<StatementView, ParseErrorView>(StatementView::DefineRelationship(d)),
                Err(e) => Err(e),
            })
        },
        tokens_of(input) is Err ==> statement_of(input) is Err && transform_of(input) is Err
            && relationship_of(input) is Err,
{
    reveal_strlit("TRANSFORM");
    reveal_strlit("RELATIONSHIP");
    if let Ok(ts) = tokens_of(input) {
        if let TokenView::Ident(s) = tok(ts, 0) {
            assert(upper(s).len() == s.len());
            assert(upper("TRANSFORM"@).len() == 9);
            assert(upper("RELATIONSHIP"@).len() == 12);
        }
    }
}

/// Two tokens that differ only in the case of an identifier are the same
/// keyword.
pub proof fn keywords_ignore_case(
    ts: Seq<TokenView>,
    us: Seq<TokenView>,
    p: int,
    a: Seq<char>,
    b: Seq<char>,
    kw: Seq<char>,
)
    requires
        tok(ts, p) == TokenView::Ident(a),
        tok(us, p) == TokenView::Ident(b),
        same_ignoring_case(a, b),
    ensures
        at_keyword(ts, p, kw) == at_keyword(us, p, kw),
{
}

} // verus!
