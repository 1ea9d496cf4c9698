//! What is written as a definition is read back as that definition.

use vstd::prelude::*;

use crate::defs::ast::{ExprView, Operator, ValueTypeView};
use crate::defs::error::ParseErrorView;
use crate::defs::grammar::{
    arguments, arguments_from, binary, call, climb, expression, named, operator_char, primary, tok,
};
use crate::defs::grammar_laws::{supported, supported_call};
use crate::defs::lexer::TokenView;
use crate::defs::literal_laws::{keyword_and_string_are_a_literal, names_type, word_at};
use crate::defs::registry::{
    aggregate_name, function_named, non_immutable, operator_named, operator_precedence,
};
use crate::defs::typed_literal::literal_type;
use crate::float::FloatWidth;
use crate::text::{ascii_upper, same_ignoring_case, upper};

verus! {

// ---------------------------------------------------------------------------
// Writing expressions
// ---------------------------------------------------------------------------

/// The symbol of an operator.
pub open spec fn sign(op: Operator) -> char {
    match op {
        Operator::Add => '+',
        Operator::GreaterThan => '>',
    }
}

/// The literal as a keyword in front of a string.
pub open spec fn written_literal(t: ValueTypeView, text: Seq<char>) -> Seq<TokenView> {
    if t == ValueTypeView::Float(FloatWidth::Float8) {
        seq![
            TokenView::Ident("DOUBLE"@),
            TokenView::Ident("PRECISION"@),
            TokenView::String(text),
        ]
    } else {
        seq![TokenView::Ident(t.sql_name()), TokenView::String(text)]
    }
}

/// The expression in tokens, with brackets round every operator.
pub open spec fn written(e: ExprView) -> Seq<TokenView>
    decreases e, 0nat,
{
    match e {
        ExprView::Column(n) => seq![TokenView::Ident(n)],
        ExprView::NumberLiteral(n) => seq![TokenView::Number(n)],
        ExprView::StringLiteral(s) => seq![TokenView::String(s)],
        ExprView::TypedLiteral { value_type, text } => written_literal(value_type, text),
        ExprView::RelationshipPath { rel, column } => seq![
            TokenView::Ident(rel),
            TokenView::Symbol('.'),
            TokenView::Ident(column),
        ],
        ExprView::BinaryOp { op, lhs, rhs } => seq![TokenView::Symbol('(')] + (written(*lhs) + (
        seq![TokenView::Symbol(sign(op))] + (written(*rhs) + seq![TokenView::Symbol(')')]))),
        ExprView::FunctionCall { name, args } => seq![
            TokenView::Ident(name),
            TokenView::Symbol('('),
        ] + (if name == "COUNT"@ && args.len() == 0 {
            seq![TokenView::Symbol('*')]
        } else {
            written_list(args)
        } + seq![TokenView::Symbol(')')]),
    }
}

/// The expressions in tokens, with commas between them.
pub open spec fn written_list(es: Seq<ExprView>) -> Seq<TokenView>
    decreases es, es.len(),
{
    if es.len() == 0 {
        seq![]
    } else if es.len() == 1 {
        written(es[0])
    } else {
        written(es[0]) + (seq![TokenView::Symbol(',')] + written_list(es.skip(1)))
    }
}

/// The expression can be written: it is supported, and no relationship has the
/// name of something that is not immutable.
pub open spec fn writable(e: ExprView, agg: bool) -> bool
    decreases e,
{
    &&& supported(e, agg)
    &&& match e {
        ExprView::RelationshipPath { rel, .. } => !non_immutable(upper(rel)),
        ExprView::TypedLiteral { value_type, .. } => literal_type(
            upper(value_type.sql_name()),
        ) == Some(value_type),
        ExprView::BinaryOp { lhs, rhs, .. } => writable(*lhs, agg) && writable(*rhs, agg),
        ExprView::FunctionCall { args, .. } => forall|i: int|
            0 <= i < args.len() ==> writable(#[trigger] args[i], agg),
        _ => true,
    }
}

// ---------------------------------------------------------------------------
// Tokens in their places
// ---------------------------------------------------------------------------

/// The tokens `w` stand at `p`.
pub open spec fn stands(ts: Seq<TokenView>, p: int, w: Seq<TokenView>) -> bool {
    0 <= p && p + w.len() <= ts.len() && ts.subrange(p, p + w.len()) == w
}

pub(crate) proof fn stands_in_two(ts: Seq<TokenView>, p: int, a: Seq<TokenView>, b: Seq<TokenView>)
    requires
        stands(ts, p, a + b),
    ensures
        stands(ts, p, a),
        stands(ts, p + a.len(), b),
{
    let s = ts.subrange(p, p + (a + b).len());
    assert(ts.subrange(p, p + a.len()) =~= a) by {
        assert forall|i: int| 0 <= i < a.len() implies ts.subrange(p, p + a.len())[i] == a[i] by {
            assert(s[i] == (a + b)[i]);
        }
    }
    assert(ts.subrange(p + a.len(), p + a.len() + b.len()) =~= b) by {
        assert forall|i: int| 0 <= i < b.len() implies ts.subrange(
            p + a.len(),
            p + a.len() + b.len(),
        )[i] == b[i] by {
            assert(s[a.len() + i] == (a + b)[a.len() + i]);
        }
    }
}

pub(crate) proof fn token_stands(ts: Seq<TokenView>, p: int, w: Seq<TokenView>, i: int)
    requires
        stands(ts, p, w),
        0 <= i < w.len(),
    ensures
        tok(ts, p + i) == w[i],
{
    assert(ts.subrange(p, p + w.len())[i] == w[i]);
}

/// What may follow an expression: nothing, a symbol other than a dot or an
/// opening bracket, or a word that does not go on with a type's name.
pub open spec fn may_follow(t: TokenView) -> bool {
    match t {
        TokenView::Eof => true,
        TokenView::Symbol(c) => c != '.' && c != '(',
        TokenView::Ident(s) => !same_ignoring_case(s, "PRECISION"@),
        _ => false,
    }
}

/// What ends an expression: what may follow it, but no operator.
pub open spec fn may_end(t: TokenView) -> bool {
    may_follow(t) && !(t matches TokenView::Symbol(c) && operator_char(c))
}

pub(crate) proof fn words_differ(a: Seq<char>, b: Seq<char>)
    requires
        a.len() != b.len(),
    ensures
        !same_ignoring_case(a, b),
{
    assert(upper(a).len() == a.len() && upper(b).len() == b.len());
}

// ---------------------------------------------------------------------------
// Reading expressions
// ---------------------------------------------------------------------------

/// The name of a call is in upper case, and means nothing else.
proof fn call_names_are_upper(name: Seq<char>, args: Seq<ExprView>, agg: bool)
    requires
        supported_call(name, args, agg),
    ensures
        upper(name) == name,
        !non_immutable(name),
        name != "CAST"@,
        name == "COUNT"@ ==> aggregate_name(name),
        name == "COALESCE"@ ==> !aggregate_name(name),
{
    reveal_strlit("SUM");
    reveal_strlit("COUNT");
    reveal_strlit("AVG");
    reveal_strlit("MIN");
    reveal_strlit("MAX");
    reveal_strlit("BOOL_AND");
    reveal_strlit("BOOL_OR");
    reveal_strlit("COALESCE");
    reveal_strlit("STRPOS");
    reveal_strlit("OCTET_LENGTH");
    reveal_strlit("CHAR_LENGTH");
    reveal_strlit("REGEXP_COUNT");
    reveal_strlit("CAST");
    reveal_strlit("NOW");
    reveal_strlit("CURRENT_TIMESTAMP");
    reveal_strlit("CURRENT_DATE");
    reveal_strlit("CURRENT_TIME");
    reveal_strlit("CLOCK_TIMESTAMP");
    reveal_strlit("RANDOM");
    reveal_strlit("STATEMENT_TIMESTAMP");
    reveal_strlit("TRANSACTION_TIMESTAMP");
    assert(name.len() <= 12);
    assert forall|i: int| 0 <= i < name.len() implies ascii_upper(#[trigger] name[i])
        == name[i] by {
        assert(i == 0 || i == 1 || i == 2 || i == 3 || i == 4 || i == 5 || i == 6 || i == 7 || i
            == 8 || i == 9 || i == 10 || i == 11);
    }
    assert(upper(name) =~= name);
    assert(name.len() == 3 ==> name[0] != 'N');
    assert(name.len() == 6 ==> name[0] != 'R');
    assert(name.len() == 12 ==> name[0] != 'C');
    assert("NOW"@[0] == 'N' && "RANDOM"@[0] == 'R' && "CURRENT_DATE"@[0] == 'C'
        && "CURRENT_TIME"@[0] == 'C');
    assert("BOOL_AND"@[0] == 'B' && "COALESCE"@[0] == 'C');
    assert("SUM"@.len() == 3 && "COUNT"@.len() == 5 && "AVG"@.len() == 3 && "MIN"@.len() == 3
        && "MAX"@.len() == 3 && "BOOL_OR"@.len() == 7 && "COALESCE"@.len() == 8);
}

pub(crate) proof fn first_token(e: ExprView)
    ensures
        written(e).len() > 0,
        written(e)[0] matches TokenView::Symbol(c) ==> c == '(',
        written(e)[0] != TokenView::Eof,
{
}

proof fn list_starts(es: Seq<ExprView>)
    requires
        es.len() > 0,
    ensures
        written_list(es).len() > 0,
        written_list(es)[0] matches TokenView::Symbol(c) ==> c == '(',
{
    first_token(es[0]);
}

/// What is written as an expression reads as that expression, as an operand.
proof fn operands_read_back(ts: Seq<TokenView>, p: int, agg: bool, e: ExprView)
    requires
        writable(e, agg),
        stands(ts, p, written(e)),
        may_follow(tok(ts, p + written(e).len())),
    ensures
        primary(ts, p, agg) == Ok::<(ExprView, int), ParseErrorView>((e, p + written(e).len())),
    decreases e, 1nat,
{
    let w = written(e);
    first_token(e);
    token_stands(ts, p, w, 0);
    match e {
        ExprView::Column(n) => {
            assert(primary(ts, p, agg) == named(ts, p + 1, agg, n));
        },
        ExprView::NumberLiteral(_) | ExprView::StringLiteral(_) => {},
        ExprView::TypedLiteral { value_type, text } => {
            literals_read_back(ts, p, agg, value_type, text);
        },
        ExprView::RelationshipPath { rel, column } => {
            token_stands(ts, p, w, 1);
            token_stands(ts, p, w, 2);
            assert(primary(ts, p, agg) == named(ts, p + 1, agg, rel));
        },
        ExprView::BinaryOp { op, lhs, rhs } => {
            operators_read_back(ts, p, agg, e);
        },
        ExprView::FunctionCall { name, args } => {
            assert(e->args == args);
            token_stands(ts, p, w, 1);
            call_names_are_upper(name, args, agg);
            let rest = if name == "COUNT"@ && args.len() == 0 {
                seq![TokenView::Symbol('*')]
            } else {
                written_list(args)
            } + seq![TokenView::Symbol(')')];
            stands_in_two(ts, p, seq![TokenView::Ident(name), TokenView::Symbol('(')], rest);
            assert(primary(ts, p, agg) == named(ts, p + 1, agg, name));
            assert(named(ts, p + 1, agg, name) == call(ts, p + 2, agg, name));
            assert forall|i: int| 0 <= i < args.len() implies writable(
                #[trigger] args[i],
                agg,
            ) by {}
            calls_read_back(ts, p + 2, agg, name, args, rest);
        },
    }
}

proof fn literals_read_back(
    ts: Seq<TokenView>,
    p: int,
    agg: bool,
    t: ValueTypeView,
    text: Seq<char>,
)
    requires
        literal_type(upper(t.sql_name())) == Some(t),
        stands(ts, p, written_literal(t, text)),
    ensures
        primary(ts, p, agg) == Ok::<(ExprView, int), ParseErrorView>(
            (
                ExprView::TypedLiteral { value_type: t, text },
                p + written_literal(t, text).len(),
            ),
        ),
{
    let w = written_literal(t, text);
    token_stands(ts, p, w, 0);
    token_stands(ts, p, w, 1);
    reveal_strlit("DOUBLE");
    reveal_strlit("PRECISION");
    if t == ValueTypeView::Float(FloatWidth::Float8) {
        token_stands(ts, p, w, 2);
        assert(upper("DOUBLE"@) =~= "DOUBLE"@);
        assert(upper("PRECISION"@) =~= "PRECISION"@);
        assert(word_at(ts, p) == Some("DOUBLE"@));
        assert(word_at(ts, p + 1) == Some("PRECISION"@));
        assert(names_type(ts, p, 2, t));
        keyword_and_string_are_a_literal(ts, p, 2, t, text, agg);
    } else {
        assert(names_type(ts, p, 1, t));
        keyword_and_string_are_a_literal(ts, p, 1, t, text, agg);
    }
}

proof fn signs_name_operators(op: Operator)
    ensures
        operator_char(sign(op)),
        operator_named(seq![sign(op)]) == Some(op),
{
    reveal_strlit("+");
    reveal_strlit(">");
    assert("+"@ =~= seq!['+']);
    assert(">"@ =~= seq!['>']);
    assert("+"@[0] == '+' && ">"@[0] == '>');
}

proof fn operators_read_back(ts: Seq<TokenView>, p: int, agg: bool, e: ExprView)
    requires
        e is BinaryOp,
        writable(e, agg),
        stands(ts, p, written(e)),
    ensures
        primary(ts, p, agg) == Ok::<(ExprView, int), ParseErrorView>((e, p + written(e).len())),
    decreases e, 0nat,
{
    if let ExprView::BinaryOp { op, lhs, rhs } = e {
        let (l, r) = (written(*lhs), written(*rhs));
        let close = seq![TokenView::Symbol(')')];
        let symbol = seq![TokenView::Symbol(sign(op))];
        stands_in_two(ts, p, seq![TokenView::Symbol('(')], l + (symbol + (r + close)));
        stands_in_two(ts, p + 1, l, symbol + (r + close));
        let q = p + 1 + l.len();
        stands_in_two(ts, q, symbol, r + close);
        stands_in_two(ts, q + 1, r, close);
        let q2 = q + 1 + r.len();
        token_stands(ts, p, seq![TokenView::Symbol('(')], 0);
        token_stands(ts, q, symbol, 0);
        token_stands(ts, q2, close, 0);
        signs_name_operators(op);
        operands_read_back(ts, p + 1, agg, *lhs);
        operands_read_back(ts, q + 1, agg, *rhs);
        first_token(*lhs);
        first_token(*rhs);
        let least = operator_precedence(op) + 1;
        assert(climb(ts, q2, agg, least, *rhs) == Ok::<(ExprView, int), ParseErrorView>(
            (*rhs, q2),
        ));
        assert(binary(ts, q + 1, agg, least) == Ok::<(ExprView, int), ParseErrorView>((*rhs, q2)));
        let both = ExprView::BinaryOp { op, lhs: Box::new(*lhs), rhs: Box::new(*rhs) };
        assert(both == e);
        assert(climb(ts, q2, agg, 0, both) == Ok::<(ExprView, int), ParseErrorView>((both, q2)));
        assert(climb(ts, q, agg, 0, *lhs) == Ok::<(ExprView, int), ParseErrorView>((both, q2)));
        assert(binary(ts, p + 1, agg, 0) == Ok::<(ExprView, int), ParseErrorView>((e, q2)));
    }
}

proof fn calls_read_back(
    ts: Seq<TokenView>,
    p: int,
    agg: bool,
    name: Seq<char>,
    args: Seq<ExprView>,
    rest: Seq<TokenView>,
)
    requires
        supported_call(name, args, agg),
        forall|i: int| 0 <= i < args.len() ==> writable(#[trigger] args[i], agg),
        rest == if name == "COUNT"@ && args.len() == 0 {
            seq![TokenView::Symbol('*')]
        } else {
            written_list(args)
        } + seq![TokenView::Symbol(')')],
        stands(ts, p, rest),
    ensures
        call(ts, p, agg, name) == Ok::<(ExprView, int), ParseErrorView>(
            (ExprView::FunctionCall { name, args }, p + rest.len()),
        ),
    decreases args, args.len() + 2,
{
    call_names_are_upper(name, args, agg);
    if name == "COUNT"@ && args.len() == 0 {
        token_stands(ts, p, rest, 0);
        token_stands(ts, p, rest, 1);
        assert(args =~= seq![]);
    } else {
        let close = seq![TokenView::Symbol(')')];
        stands_in_two(ts, p, written_list(args), close);
        token_stands(ts, p + written_list(args).len(), close, 0);
        if args.len() > 0 {
            list_starts(args);
            token_stands(ts, p, written_list(args), 0);
            arguments_read_back(ts, p, agg, args, seq![]);
            assert(seq![] + args =~= args);
        } else {
            assert(args =~= seq![]);
        }
        assert(arguments(ts, p, agg) == Ok::<(Seq<ExprView>, int), ParseErrorView>(
            (args, p + rest.len()),
        ));
        if !aggregate_name(name) && name != "COALESCE"@ {
            assert(function_named(name) is Some);
        }
    }
}

proof fn arguments_read_back(
    ts: Seq<TokenView>,
    p: int,
    agg: bool,
    args: Seq<ExprView>,
    acc: Seq<ExprView>,
)
    requires
        args.len() > 0,
        forall|i: int| 0 <= i < args.len() ==> writable(#[trigger] args[i], agg),
        stands(ts, p, written_list(args)),
        tok(ts, p + written_list(args).len()) == TokenView::Symbol(')'),
    ensures
        arguments_from(ts, p, agg, acc) == Ok::<(Seq<ExprView>, int), ParseErrorView>(
            (acc + args, p + written_list(args).len() + 1),
        ),
    decreases args, args.len(),
{
    let e = args[0];
    let w = written(e);
    assert(writable(e, agg));
    first_token(e);
    if args.len() == 1 {
        operands_read_back(ts, p, agg, e);
        assert(climb(ts, p + w.len(), agg, 0, e) == Ok::<(ExprView, int), ParseErrorView>(
            (e, p + w.len()),
        ));
        assert(binary(ts, p, agg, 0) == Ok::<(ExprView, int), ParseErrorView>((e, p + w.len())));
        assert(acc.push(e) =~= acc + args);
    } else {
        let more = args.skip(1);
        let comma = seq![TokenView::Symbol(',')];
        stands_in_two(ts, p, w, comma + written_list(more));
        let q = p + w.len();
        stands_in_two(ts, q, comma, written_list(more));
        token_stands(ts, q, comma, 0);
        operands_read_back(ts, p, agg, e);
        assert(climb(ts, q, agg, 0, e) == Ok::<(ExprView, int), ParseErrorView>((e, q)));
        assert(binary(ts, p, agg, 0) == Ok::<(ExprView, int), ParseErrorView>((e, q)));
        assert forall|i: int| 0 <= i < more.len() implies writable(#[trigger] more[i], agg) by {
            assert(writable(args[i + 1], agg));
        }
        arguments_read_back(ts, q + 1, agg, more, acc.push(e));
        assert(written_list(args).len() == w.len() + 1 + written_list(more).len());
        assert(acc.push(e) + more =~= acc + args);
    }
}

/// Whatever is written as an expression reads back as that expression, and
/// nothing behind it is taken in.
pub proof fn expressions_read_back(ts: Seq<TokenView>, p: int, agg: bool, e: ExprView)
    requires
        writable(e, agg),
        stands(ts, p, written(e)),
        may_end(tok(ts, p + written(e).len())),
    ensures
        expression(ts, p, agg) == Ok::<(ExprView, int), ParseErrorView>((e, p + written(e).len())),
{
    first_token(e);
    operands_read_back(ts, p, agg, e);
    let q = p + written(e).len();
    assert(climb(ts, q, agg, 0, e) == Ok::<(ExprView, int), ParseErrorView>((e, q)));
}

/// Of two operators in a row without brackets the tighter takes the operand
/// between them, and of two that bind alike the first: `+` binds tighter than
/// `>`.
pub proof fn operators_group(
    ts: Seq<TokenView>,
    p: int,
    agg: bool,
    a: ExprView,
    first: Operator,
    b: ExprView,
    second: Operator,
    c: ExprView,
)
    requires
        writable(a, agg),
        writable(b, agg),
        writable(c, agg),
        stands(
            ts,
            p,
            written(a) + (seq![TokenView::Symbol(sign(first))] + (written(b) + (seq![
                TokenView::Symbol(sign(second)),
            ] + written(c)))),
        ),
        may_end(tok(ts, p + written(a).len() + written(b).len() + written(c).len() + 2)),
    ensures
        expression(ts, p, agg) == Ok::<(ExprView, int), ParseErrorView>(
            (
                if first == Operator::GreaterThan && second == Operator::Add {
                    ExprView::BinaryOp {
                        op: first,
                        lhs: Box::new(a),
                        rhs: Box::new(
                            ExprView::BinaryOp { op: second, lhs: Box::new(b), rhs: Box::new(c) },
                        ),
                    }
                } else {
                    ExprView::BinaryOp {
                        op: second,
                        lhs: Box::new(
                            ExprView::BinaryOp { op: first, lhs: Box::new(a), rhs: Box::new(b) },
                        ),
                        rhs: Box::new(c),
                    }
                },
                p + written(a).len() + written(b).len() + written(c).len() + 2,
            ),
        ),
{
    let (f, s) = (seq![TokenView::Symbol(sign(first))], seq![TokenView::Symbol(sign(second))]);
    let (wa, wb, wc) = (written(a), written(b), written(c));
    stands_in_two(ts, p, wa, f + (wb + (s + wc)));
    let q = p + wa.len();
    stands_in_two(ts, q, f, wb + (s + wc));
    stands_in_two(ts, q + 1, wb, s + wc);
    let q2 = q + 1 + wb.len();
    stands_in_two(ts, q2, s, wc);
    let q3 = q2 + 1 + wc.len();
    token_stands(ts, q, f, 0);
    token_stands(ts, q2, s, 0);
    signs_name_operators(first);
    signs_name_operators(second);
    first_token(a);
    first_token(b);
    first_token(c);
    operands_read_back(ts, p, agg, a);
    operands_read_back(ts, q + 1, agg, b);
    operands_read_back(ts, q2 + 1, agg, c);
    let (m, n) = (operator_precedence(first) + 1, operator_precedence(second) + 1);
    assert(climb(ts, q3, agg, n, c) == Ok::<(ExprView, int), ParseErrorView>((c, q3)));
    assert(binary(ts, q2 + 1, agg, n) == Ok::<(ExprView, int), ParseErrorView>((c, q3)));
    if first == Operator::GreaterThan && second == Operator::Add {
        let bc = ExprView::BinaryOp { op: second, lhs: Box::new(b), rhs: Box::new(c) };
        let all = ExprView::BinaryOp { op: first, lhs: Box::new(a), rhs: Box::new(bc) };
        assert(climb(ts, q3, agg, m, bc) == Ok::<(ExprView, int), ParseErrorView>((bc, q3)));
        assert(climb(ts, q2, agg, m, b) == Ok::<(ExprView, int), ParseErrorView>((bc, q3)));
        assert(binary(ts, q + 1, agg, m) == Ok::<(ExprView, int), ParseErrorView>((bc, q3)));
        assert(climb(ts, q3, agg, 0, all) == Ok::<(ExprView, int), ParseErrorView>((all, q3)));
        assert(climb(ts, q, agg, 0, a) == Ok::<(ExprView, int), ParseErrorView>((all, q3)));
    } else {
        let ab = ExprView::BinaryOp { op: first, lhs: Box::new(a), rhs: Box::new(b) };
        let all = ExprView::BinaryOp { op: second, lhs: Box::new(ab), rhs: Box::new(c) };
        assert(climb(ts, q2, agg, m, b) == Ok::<(ExprView, int), ParseErrorView>((b, q2)));
        assert(binary(ts, q + 1, agg, m) == Ok::<(ExprView, int), ParseErrorView>((b, q2)));
        assert(climb(ts, q3, agg, 0, all) == Ok::<(ExprView, int), ParseErrorView>((all, q3)));
        assert(climb(ts, q2, agg, 0, ab) == Ok::<(ExprView, int), ParseErrorView>((all, q3)));
        assert(climb(ts, q, agg, 0, a) == Ok::<(ExprView, int), ParseErrorView>((all, q3)));
    }
}

} // verus!
