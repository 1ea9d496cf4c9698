//! The recursive-descent parser of the definition language. What it accepts
//! is stated in [`crate::defs::grammar`].

use vstd::prelude::*;

use crate::defs::ast;
use crate::defs::ast::{
    clause_views, expr_views, field_views, key_views, opt_view, AlterClause, AlterTransform,
    DefinitionRef, Expr, FieldDef, GroupByKey, KeySpace, Predicate, RelationshipDef,
    RelationshipDefView, Statement, StatementView, TransformDef, TransformDefView, TransformRef,
};
use crate::defs::error::{ParseError, ParseErrorView};
use crate::defs::grammar;
use crate::defs::grammar::{
    at_keyword, at_symbol, tok, AGGREGATE_DETAIL, DROP_FIELD_DETAIL, GROUP_BY_DETAIL, JOIN_DETAIL,
    PREDICATE_DETAIL, RELATIONSHIP_ADDRESS_DETAIL, STATEMENT_KEYWORDS, TRANSFORM_ADDRESS_DETAIL,
};
use crate::defs::lexer::{ends_once, lex, token_views, tokens_end_once, Token, TokenView};
use crate::defs::registry::{
    aggregate_functions_have_rows, is_aggregate_function, is_non_immutable,
    lookup_aggregate_function, lookup_function, lookup_operator, operator_spec,
};
use crate::defs::typed_literal::lookup_typed_literal;
use crate::text;

verus! {

/// The tokens of a statement and how far they have been read.
struct Parser {
    tokens: Vec<Token>,
    pos: usize,
    /// Whether the definition forms groups.
    is_aggregate: bool,
}

/// The error where `expected` should stand and `found` does.
fn unexpected(expected: String, found: &Token) -> (r: ParseError)
    ensures
        r@ == grammar::unexpected(expected@, found@),
{
    match found {
        Token::Eof => ParseError::UnexpectedEof { expected },
        other => ParseError::UnexpectedToken { expected, found: other.describe() },
    }
}

/// The outcome of reading one construct: what came out is what the grammar
/// says stands at `p`, and on success the parser is behind it.
spec fn outcome<T, V>(
    r: Result<T, ParseError>,
    view: spec_fn(T) -> V,
    q: int,
    expected: Result<(V, int), ParseErrorView>,
) -> bool {
    match r {
        Ok(t) => expected == Ok::<(V, int), ParseErrorView>((view(t), q)),
        Err(e) => expected == Err::<(V, int), ParseErrorView>(e@),
    }
}

impl Parser {
    spec fn ts(&self) -> Seq<TokenView> {
        token_views(self.tokens@)
    }

    /// The tokens end once and the position is at one of them.
    spec fn ok(&self) -> bool {
        ends_once(self.ts()) && self.pos < self.tokens.len()
    }

    /// Both read the same tokens under the same key space.
    spec fn like(&self, other: &Parser) -> bool {
        self.ok() && self.tokens == other.tokens && self.is_aggregate == other.is_aggregate
    }

    fn peek(&self) -> (r: &Token)
        requires
            self.ok(),
        ensures
            r@ == tok(self.ts(), self.pos as int),
    {
        &self.tokens[self.pos]
    }

    /// The token `n` positions ahead, or the end of the input.
    fn peek_at(&self, n: usize) -> (r: &Token)
        requires
            self.ok(),
            n <= 1,
        ensures
            r@ == tok(self.ts(), self.pos + n),
    {
        let len: usize = self.tokens.len();
        if n < len - self.pos {
            &self.tokens[self.pos + n]
        } else {
            &self.tokens[len - 1]
        }
    }

    fn advance(&mut self)
        requires
            old(self).ok(),
            !(tok(old(self).ts(), old(self).pos as int) is Eof),
        ensures
            final(self).like(old(self)),
            final(self).pos == old(self).pos + 1,
    {
        self.pos = self.pos + 1;
    }

    fn peek_is_keyword(&self, kw: &str) -> (r: bool)
        requires
            self.ok(),
        ensures
            r == at_keyword(self.ts(), self.pos as int, kw@),
    {
        match self.peek() {
            Token::Ident(s) => text::eq_ignoring_case(s.as_str(), kw),
            _ => false,
        }
    }

    fn peek_is_symbol(&self, c: char) -> (r: bool)
        requires
            self.ok(),
        ensures
            r == at_symbol(self.ts(), self.pos as int, c),
    {
        match self.peek() {
            Token::Symbol(s) => *s == c,
            _ => false,
        }
    }

    fn expect_keyword(&mut self, kw: &str) -> (r: Result<(), ParseError>)
        requires
            old(self).ok(),
        ensures
            final(self).like(old(self)),
            r is Ok ==> final(self).pos == old(self).pos + 1,
            match r {
                Ok(_) => grammar::keyword(old(self).ts(), old(self).pos as int, kw@) == Ok::<
                    int,
                    ParseErrorView,
                >(final(self).pos as int),
                Err(e) => grammar::keyword(old(self).ts(), old(self).pos as int, kw@) == Err::<
                    int,
                    ParseErrorView,
                >(e@),
            },
    {
        if self.peek_is_keyword(kw) {
            self.advance();
            Ok(())
        } else {
            Err(unexpected(text::cat3("'", kw, "'"), self.peek()))
        }
    }

    fn expect_symbol(&mut self, c: char) -> (r: Result<(), ParseError>)
        requires
            old(self).ok(),
        ensures
            final(self).like(old(self)),
            r is Ok ==> final(self).pos == old(self).pos + 1,
            match r {
                Ok(_) => grammar::symbol(old(self).ts(), old(self).pos as int, c) == Ok::<
                    int,
                    ParseErrorView,
                >(final(self).pos as int),
                Err(e) => grammar::symbol(old(self).ts(), old(self).pos as int, c) == Err::<
                    int,
                    ParseErrorView,
                >(e@),
            },
    {
        if self.peek_is_symbol(c) {
            self.advance();
            Ok(())
        } else {
            let mut expected = text::owned("'");
            expected.push(c);
            expected.append("'");
            assert(expected@ =~= "'"@ + seq![c] + "'"@);
            Err(unexpected(expected, self.peek()))
        }
    }

    fn expect_ident(&mut self) -> (r: Result<String, ParseError>)
        requires
            old(self).ok(),
        ensures
            final(self).like(old(self)),
            r is Ok ==> final(self).pos == old(self).pos + 1,
            outcome(
                r,
                |s: String| s@,
                final(self).pos as int,
                grammar::ident(old(self).ts(), old(self).pos as int),
            ),
    {
        match self.peek() {
            Token::Ident(s) => {
                let name = s.clone();
                self.advance();
                Ok(name)
            },
            other => Err(unexpected(text::owned("an identifier"), other)),
        }
    }

    fn expect_eof(&self) -> (r: Result<(), ParseError>)
        requires
            self.ok(),
        ensures
            match r {
                Ok(_) => grammar::end_of_input(self.ts(), self.pos as int) is Ok,
                Err(e) => grammar::end_of_input(self.ts(), self.pos as int) == Err::<
                    (),
                    ParseErrorView,
                >(e@),
            },
    {
        match self.peek() {
            Token::Eof => Ok(()),
            other => Err(
                ParseError::UnexpectedToken {
                    expected: text::owned("end of input"),
                    found: other.describe(),
                },
            ),
        }
    }

    fn expect_table_dot_column(&mut self) -> (r: Result<(String, String), ParseError>)
        requires
            old(self).ok(),
        ensures
            final(self).like(old(self)),
            match r {
                Ok((t, c)) => grammar::table_dot_column(old(self).ts(), old(self).pos as int)
                    == Ok::<(Seq<char>, Seq<char>, int), ParseErrorView>(
                    (t@, c@, final(self).pos as int),
                ),
                Err(e) => grammar::table_dot_column(old(self).ts(), old(self).pos as int) == Err::<
                    (Seq<char>, Seq<char>, int),
                    ParseErrorView,
                >(e@),
            },
    {
        let table = match self.expect_ident() {
            Ok(t) => t,
            Err(e) => {
                return Err(e);
            },
        };
        match self.expect_symbol('.') {
            Ok(_) => {},
            Err(e) => {
                return Err(e);
            },
        }
        let column = match self.expect_ident() {
            Ok(c) => c,
            Err(e) => {
                return Err(e);
            },
        };
        Ok((table, column))
    }

    /// Reads the `.<name>` that follow and appends them to `acc`.
    fn dotted_rest(&mut self, head: String) -> (r: Result<String, ParseError>)
        requires
            old(self).ok(),
        ensures
            final(self).like(old(self)),
            outcome(
                r,
                |s: String| s@,
                final(self).pos as int,
                grammar::dotted_rest(old(self).ts(), old(self).pos as int, head@),
            ),
    {
        let ghost start = head@;
        let mut acc = head;
        while self.peek_is_symbol('.')
            invariant
                self.like(old(self)),
                start == head@,
                grammar::dotted_rest(old(self).ts(), old(self).pos as int, start)
                    == grammar::dotted_rest(old(self).ts(), self.pos as int, acc@),
            decreases self.tokens@.len() - self.pos,
        {
            self.advance();
            match self.expect_ident() {
                Ok(extra) => {
                    acc.append(".");
                    acc.append(extra.as_str());
                },
                Err(e) => {
                    return Err(e);
                },
            }
        }
        Ok(acc)
    }

    fn parse_table_ref(&mut self) -> (r: Result<(String, Option<String>), ParseError>)
        requires
            old(self).ok(),
        ensures
            final(self).like(old(self)),
            match r {
                Ok((t, s)) => grammar::table_ref(old(self).ts(), old(self).pos as int) == Ok::<
                    (Seq<char>, Option<Seq<char>>, int),
                    ParseErrorView,
                >((t@, opt_view(s), final(self).pos as int)),
                Err(e) => grammar::table_ref(old(self).ts(), old(self).pos as int) == Err::<
                    (Seq<char>, Option<Seq<char>>, int),
                    ParseErrorView,
                >(e@),
            },
    {
        let first = match self.expect_ident() {
            Ok(s) => s,
            Err(e) => {
                return Err(e);
            },
        };
        if !self.peek_is_symbol('.') {
            return Ok((first, None));
        }
        self.advance();
        let second = match self.expect_ident() {
            Ok(s) => s,
            Err(e) => {
                return Err(e);
            },
        };
        if !self.peek_is_symbol('.') {
            return Ok((second, Some(first)));
        }
        match self.dotted_rest(text::cat3(first.as_str(), ".", second.as_str())) {
            Ok(reference) => Err(ParseError::TooManyQualifiedNameParts { reference }),
            Err(e) => Err(e),
        }
    }

    fn parse_transform_address(&mut self, verb: &str) -> (r: Result<
        (String, Option<String>),
        ParseError,
    >)
        requires
            old(self).ok(),
        ensures
            final(self).like(old(self)),
            match r {
                Ok((t, c)) => grammar::transform_address(
                    old(self).ts(),
                    old(self).pos as int,
                    verb@,
                ) == Ok::<(Seq<char>, Option<Seq<char>>, int), ParseErrorView>(
                    (t@, opt_view(c), final(self).pos as int),
                ),
                Err(e) => grammar::transform_address(old(self).ts(), old(self).pos as int, verb@)
                    == Err::<(Seq<char>, Option<Seq<char>>, int), ParseErrorView>(e@),
            },
    {
        let target = match self.expect_ident() {
            Ok(s) => s,
            Err(e) => {
                return Err(e);
            },
        };
        if !self.peek_is_symbol('.') {
            return Ok((target, None));
        }
        self.advance();
        let column = match self.expect_ident() {
            Ok(s) => s,
            Err(e) => {
                return Err(e);
            },
        };
        if !self.peek_is_symbol('.') {
            return Ok((target, Some(column)));
        }
        match self.dotted_rest(text::cat3(target.as_str(), ".", column.as_str())) {
            Ok(address) => Err(
                ParseError::MalformedDefinitionAddress {
                    statement: text::cat2(verb, " TRANSFORM"),
                    address,
                    detail: text::owned(TRANSFORM_ADDRESS_DETAIL),
                },
            ),
            Err(e) => Err(e),
        }
    }

    fn parse_relationship_address(&mut self) -> (r: Result<DefinitionRef, ParseError>)
        requires
            old(self).ok(),
        ensures
            final(self).like(old(self)),
            outcome(
                r,
                |d: DefinitionRef| d@,
                final(self).pos as int,
                grammar::relationship_address(old(self).ts(), old(self).pos as int),
            ),
    {
        let mut parts: Vec<String> = Vec::new();
        match self.expect_ident() {
            Ok(first) => {
                parts.push(first);
            },
            Err(e) => {
                return Err(e);
            },
        }
        let ghost first = parts@[0]@;
        let ghost after_first = self.pos as int;
        assert(text::views(parts@) =~= seq![first]);
        while self.peek_is_symbol('.')
            invariant
                self.like(old(self)),
                parts@.len() >= 1,
                grammar::ident(old(self).ts(), old(self).pos as int) == Ok::<
                    (Seq<char>, int),
                    ParseErrorView,
                >((first, after_first)),
                grammar::dotted_parts(old(self).ts(), after_first, seq![first])
                    == grammar::dotted_parts(
                    old(self).ts(),
                    self.pos as int,
                    text::views(parts@),
                ),
            decreases self.tokens@.len() - self.pos,
        {
            self.advance();
            match self.expect_ident() {
                Ok(part) => {
                    let ghost before = parts@;
                    parts.push(part);
                    assert(text::views(parts@) =~= text::views(before).push(part@));
                },
                Err(e) => {
                    return Err(e);
                },
            }
        }
        let n: usize = parts.len();
        if n == 1 {
            Err(ParseError::UnscopedRelationshipAddress { address: parts[0].clone() })
        } else if n == 2 {
            Ok(
                DefinitionRef::Relationship {
                    schema: None,
                    from_table: parts[0].clone(),
                    name: parts[1].clone(),
                },
            )
        } else if n == 3 {
            Ok(
                DefinitionRef::Relationship {
                    schema: Some(parts[0].clone()),
                    from_table: parts[1].clone(),
                    name: parts[2].clone(),
                },
            )
        } else {
            Err(
                ParseError::MalformedDefinitionAddress {
                    statement: text::owned("DROP RELATIONSHIP"),
                    address: text::join(&parts, "."),
                    detail: text::owned(RELATIONSHIP_ADDRESS_DETAIL),
                },
            )
        }
    }

    /// Reads up to and including the `)` of a `(` that was read before.
    fn skip_balanced_parens(&mut self) -> (r: Result<(), ParseError>)
        requires
            old(self).ok(),
        ensures
            final(self).like(old(self)),
            match r {
                Ok(_) => grammar::after_closing(old(self).ts(), old(self).pos as int, 1) == Ok::<
                    int,
                    ParseErrorView,
                >(final(self).pos as int),
                Err(e) => grammar::after_closing(old(self).ts(), old(self).pos as int, 1) == Err::<
                    int,
                    ParseErrorView,
                >(e@),
            },
    {
        let mut depth: usize = 1;
        loop
            invariant
                self.like(old(self)),
                1 <= depth <= 1 + (self.pos - old(self).pos),
                old(self).pos <= self.pos,
                grammar::after_closing(old(self).ts(), old(self).pos as int, 1)
                    == grammar::after_closing(old(self).ts(), self.pos as int, depth as nat),
            decreases self.tokens@.len() - self.pos,
        {
            match self.peek() {
                Token::Symbol(c) => {
                    let c = *c;
                    self.advance();
                    if c == '(' {
                        depth += 1;
                    } else if c == ')' {
                        depth -= 1;
                        if depth == 0 {
                            return Ok(());
                        }
                    }
                },
                Token::Eof => {
                    return Err(ParseError::UnexpectedEof { expected: text::owned("')'") });
                },
                _ => {
                    self.advance();
                },
            }
        }
    }

    /// Reads the second word of a type keyword whose first word is `first`.
    fn take_type_keyword(&mut self, first: &str) -> (r: String)
        requires
            old(self).ok(),
        ensures
            final(self).like(old(self)),
            (r@, final(self).pos as int) == grammar::type_keyword(
                old(self).ts(),
                old(self).pos as int,
                first@,
            ),
    {
        if text::same(first, "DOUBLE") && self.peek_is_keyword("PRECISION") {
            self.advance();
            return text::owned("DOUBLE PRECISION");
        }
        text::owned(first)
    }

    fn parse_cast_body(&mut self) -> (r: Result<Expr, ParseError>)
        requires
            old(self).ok(),
        ensures
            final(self).like(old(self)),
            r is Ok ==> old(self).pos < final(self).pos,
            outcome(
                r,
                |e: Expr| e@,
                final(self).pos as int,
                grammar::cast_body(old(self).ts(), old(self).pos as int),
            ),
    {
        let literal = match self.peek() {
            Token::String(s) => s.clone(),
            Token::Eof => {
                return Err(
                    ParseError::UnexpectedEof { expected: text::owned("a single-quoted literal") },
                );
            },
            other => {
                let found = other.describe();
                self.advance();
                return match self.skip_balanced_parens() {
                    Ok(_) => Err(ParseError::UnsupportedCast { found }),
                    Err(e) => Err(e),
                };
            },
        };
        self.advance();
        match self.expect_keyword("AS") {
            Ok(_) => {},
            Err(e) => {
                return Err(e);
            },
        }
        let named_type = match self.expect_ident() {
            Ok(s) => s,
            Err(e) => {
                return Err(e);
            },
        };
        let keyword = self.take_type_keyword(text::to_upper(named_type.as_str()).as_str());
        match self.expect_symbol(')') {
            Ok(_) => {},
            Err(e) => {
                return Err(e);
            },
        }
        match lookup_typed_literal(keyword.as_str()) {
            Some(spec) => Ok(Expr::TypedLiteral { value_type: spec.value_type, text: literal }),
            None => Err(ParseError::UnsupportedLiteralType { name: keyword }),
        }
    }

    fn parse_expr(&mut self) -> (r: Result<Expr, ParseError>)
        requires
            old(self).ok(),
        ensures
            final(self).like(old(self)),
            r is Ok ==> old(self).pos < final(self).pos,
            outcome(
                r,
                |e: Expr| e@,
                final(self).pos as int,
                grammar::expression(old(self).ts(), old(self).pos as int, old(self).is_aggregate),
            ),
        decreases old(self).tokens@.len() - old(self).pos, 4nat,
    {
        self.parse_binary_expr(0)
    }

    /// Reads a term, then operators that bind at least as tightly as
    /// `min_precedence`, each with a right operand that binds tighter still.
    fn parse_binary_expr(&mut self, min_precedence: u8) -> (r: Result<Expr, ParseError>)
        requires
            old(self).ok(),
        ensures
            final(self).like(old(self)),
            r is Ok ==> old(self).pos < final(self).pos,
            outcome(
                r,
                |e: Expr| e@,
                final(self).pos as int,
                grammar::binary(
                    old(self).ts(),
                    old(self).pos as int,
                    old(self).is_aggregate,
                    min_precedence as int,
                ),
            ),
        decreases old(self).tokens@.len() - old(self).pos, 3nat,
    {
        let ghost ts = self.ts();
        let ghost start = self.pos as int;
        let ghost agg = self.is_aggregate;
        let mut lhs = match self.parse_primary() {
            Ok(e) => e,
            Err(e) => {
                return Err(e);
            },
        };
        loop
            invariant
                self.like(old(self)),
                ts == old(self).ts(),
                start == old(self).pos,
                agg == old(self).is_aggregate,
                start < self.pos,
                grammar::binary(ts, start, agg, min_precedence as int) == grammar::climb(
                    ts,
                    self.pos as int,
                    agg,
                    min_precedence as int,
                    lhs@,
                ),
            decreases self.tokens@.len() - self.pos,
        {
            let symbol: char = match self.peek() {
                Token::Symbol(c) => *c,
                _ => {
                    return Ok(lhs);
                },
            };
            if !is_operator_char(symbol) {
                return Ok(lhs);
            }
            let mut symbol_text = String::new();
            symbol_text.push(symbol);
            assert(symbol_text@ =~= seq![symbol]);
            let op = match lookup_operator(symbol_text.as_str()) {
                Some(op) => op,
                None => {
                    return Err(ParseError::UnsupportedOperator { operator: symbol_text });
                },
            };
            let precedence: u8 = operator_spec(op).precedence;
            if precedence < min_precedence {
                return Ok(lhs);
            }
            self.advance();
            let rhs = match self.parse_binary_expr(precedence + 1) {
                Ok(e) => e,
                Err(e) => {
                    return Err(e);
                },
            };
            lhs = Expr::BinaryOp { op, lhs: Box::new(lhs), rhs: Box::new(rhs) };
        }
    }

    fn parse_primary(&mut self) -> (r: Result<Expr, ParseError>)
        requires
            old(self).ok(),
        ensures
            final(self).like(old(self)),
            r is Ok ==> old(self).pos < final(self).pos,
            outcome(
                r,
                |e: Expr| e@,
                final(self).pos as int,
                grammar::primary(old(self).ts(), old(self).pos as int, old(self).is_aggregate),
            ),
        decreases old(self).tokens@.len() - old(self).pos, 2nat,
    {
        match self.peek() {
            Token::Symbol(c) => {
                if *c == '(' {
                    self.advance();
                    let expr = match self.parse_expr() {
                        Ok(e) => e,
                        Err(e) => {
                            return Err(e);
                        },
                    };
                    match self.expect_symbol(')') {
                        Ok(_) => Ok(expr),
                        Err(e) => Err(e),
                    }
                } else {
                    Err(unexpected(text::owned("an expression"), self.peek()))
                }
            },
            Token::Number(n) => {
                let n = n.clone();
                self.advance();
                Ok(Expr::NumberLiteral(n))
            },
            Token::String(s) => {
                let s = s.clone();
                self.advance();
                Ok(Expr::StringLiteral(s))
            },
            Token::Ident(name) => {
                let name = name.clone();
                self.advance();
                self.parse_named(name)
            },
            Token::Eof => Err(unexpected(text::owned("an expression"), self.peek())),
        }
    }

    /// Reads what `name` starts, the name itself already read.
    fn parse_named(&mut self, name: String) -> (r: Result<Expr, ParseError>)
        requires
            old(self).ok(),
        ensures
            final(self).like(old(self)),
            r is Ok ==> old(self).pos <= final(self).pos,
            outcome(
                r,
                |e: Expr| e@,
                final(self).pos as int,
                grammar::named(
                    old(self).ts(),
                    old(self).pos as int,
                    old(self).is_aggregate,
                    name@,
                ),
            ),
        decreases old(self).tokens@.len() - old(self).pos, 7nat,
    {
        let upper = text::to_upper(name.as_str());
        if is_non_immutable(upper.as_str()) {
            return Err(ParseError::NonImmutableConstruct { name });
        }
        let two_words = text::same(upper.as_str(), "DOUBLE") && self.peek_is_keyword("PRECISION")
            && is_string(self.peek_at(1));
        if two_words || is_string(self.peek()) {
            let keyword = self.take_type_keyword(upper.as_str());
            let spec = match lookup_typed_literal(keyword.as_str()) {
                Some(spec) => spec,
                None => {
                    return Err(ParseError::UnsupportedLiteralType { name });
                },
            };
            return match self.peek() {
                Token::String(literal) => {
                    let literal = literal.clone();
                    self.advance();
                    Ok(Expr::TypedLiteral { value_type: spec.value_type, text: literal })
                },
                other => {
                    assert(false);
                    Err(unexpected(text::owned("a string"), other))
                },
            };
        }
        if self.peek_is_symbol('.') {
            self.advance();
            return match self.expect_ident() {
                Ok(column) => Ok(Expr::RelationshipPath { rel: name, column }),
                Err(e) => Err(e),
            };
        }
        if self.peek_is_symbol('(') {
            self.advance();
            return self.parse_call(name);
        }
        Ok(Expr::Column(name))
    }

    /// Reads the rest of a call of `name`, its `(` already read.
    fn parse_call(&mut self, name: String) -> (r: Result<Expr, ParseError>)
        requires
            old(self).ok(),
        ensures
            final(self).like(old(self)),
            r is Ok ==> old(self).pos < final(self).pos,
            outcome(
                r,
                |e: Expr| e@,
                final(self).pos as int,
                grammar::call(
                    old(self).ts(),
                    old(self).pos as int,
                    old(self).is_aggregate,
                    name@,
                ),
            ),
        decreases old(self).tokens@.len() - old(self).pos, 6nat,
    {
        broadcast use ast::call_view;

        let upper = text::to_upper(name.as_str());
        if text::same(upper.as_str(), "CAST") {
            return self.parse_cast_body();
        }
        if is_aggregate_function(upper.as_str()) {
            if !self.is_aggregate {
                if self.peek_is_symbol('*') {
                    return Err(misplaced_aggregate(name.as_str()));
                }
                let args = match self.parse_call_args() {
                    Ok(args) => args,
                    Err(e) => {
                        return Err(e);
                    },
                };
                if args.len() == 1 {
                    if let Expr::RelationshipPath { .. } = &args[0] {
                        assert(expr_views(args@)[0] is RelationshipPath);
                        return Ok(Expr::FunctionCall { name: upper, args });
                    }
                }
                return Err(misplaced_aggregate(name.as_str()));
            }
            if text::same(upper.as_str(), "COUNT") {
                if self.peek_is_symbol('*') {
                    self.advance();
                    return match self.expect_symbol(')') {
                        Ok(_) => {
                            let args: Vec<Expr> = Vec::new();
                            assert(expr_views(args@) =~= seq![]);
                            Ok(Expr::FunctionCall { name: upper, args })
                        },
                        Err(e) => Err(e),
                    };
                }
                let args = match self.parse_call_args() {
                    Ok(args) => args,
                    Err(e) => {
                        return Err(e);
                    },
                };
                return checked_call(name, upper, 1, args, Ghost(self.pos as int));
            }
            proof {
                aggregate_functions_have_rows(upper@);
            }
            let expected: usize = match lookup_aggregate_function(upper.as_str()) {
                Some(spec) => spec.arg_types.len(),
                None => 0,
            };
            let args = match self.parse_call_args() {
                Ok(args) => args,
                Err(e) => {
                    return Err(e);
                },
            };
            return checked_call(name, upper, expected, args, Ghost(self.pos as int));
        }
        if text::same(upper.as_str(), "COALESCE") {
            let args = match self.parse_call_args() {
                Ok(args) => args,
                Err(e) => {
                    return Err(e);
                },
            };
            if args.len() == 0 {
                return Err(ParseError::AtLeastOneArgumentRequired { name: upper });
            }
            return Ok(Expr::FunctionCall { name: upper, args });
        }
        let expected: usize = match lookup_function(upper.as_str()) {
            Some(spec) => spec.arg_types.len(),
            None => {
                return match self.skip_balanced_parens() {
                    Ok(_) => Err(ParseError::UnsupportedFunction { name }),
                    Err(e) => Err(e),
                };
            },
        };
        let args = match self.parse_call_args() {
            Ok(args) => args,
            Err(e) => {
                return Err(e);
            },
        };
        checked_call(name, upper, expected, args, Ghost(self.pos as int))
    }

    /// Reads the arguments of a call and its `)`.
    fn parse_call_args(&mut self) -> (r: Result<Vec<Expr>, ParseError>)
        requires
            old(self).ok(),
        ensures
            final(self).like(old(self)),
            r is Ok ==> old(self).pos < final(self).pos,
            outcome(
                r,
                |v: Vec<Expr>| expr_views(v@),
                final(self).pos as int,
                grammar::arguments(old(self).ts(), old(self).pos as int, old(self).is_aggregate),
            ),
        decreases old(self).tokens@.len() - old(self).pos, 5nat,
    {
        let ghost ts = self.ts();
        let ghost start = self.pos as int;
        let ghost agg = self.is_aggregate;
        let mut args: Vec<Expr> = Vec::new();
        assert(expr_views(args@) =~= seq![]);
        if self.peek_is_symbol(')') {
            self.advance();
            return Ok(args);
        }
        loop
            invariant
                self.like(old(self)),
                ts == old(self).ts(),
                start == old(self).pos,
                agg == old(self).is_aggregate,
                start <= self.pos,
                grammar::arguments(ts, start, agg) == grammar::arguments_from(
                    ts,
                    self.pos as int,
                    agg,
                    expr_views(args@),
                ),
            decreases self.tokens@.len() - self.pos,
        {
            let ghost before = args@;
            let arg = match self.parse_expr() {
                Ok(e) => e,
                Err(e) => {
                    return Err(e);
                },
            };
            args.push(arg);
            assert(expr_views(args@) =~= expr_views(before).push(arg@));
            if self.peek_is_symbol(',') {
                self.advance();
            } else {
                return match self.expect_symbol(')') {
                    Ok(_) => Ok(args),
                    Err(e) => Err(e),
                };
            }
        }
    }
}

fn is_operator_char(c: char) -> (r: bool)
    ensures
        r == grammar::operator_char(c),
{
    c == '+' || c == '-' || c == '*' || c == '/' || c == '%' || c == '>' || c == '<' || c == '='
}

fn is_string(t: &Token) -> (r: bool)
    ensures
        r == (t@ is String),
{
    match t {
        Token::String(_) => true,
        _ => false,
    }
}

/// The error for an aggregate call where no group is formed.
fn misplaced_aggregate(name: &str) -> (r: ParseError)
    ensures
        r@ == grammar::misplaced_aggregate(name@),
{
    ParseError::UnsupportedKeySpace {
        construct: text::cat2(name, "(...)"),
        detail: text::owned(AGGREGATE_DETAIL),
    }
}

/// A call, if it has the number of arguments its function takes.
fn checked_call(
    name: String,
    upper: String,
    expected: usize,
    args: Vec<Expr>,
    q: Ghost<int>,
) -> (r: Result<Expr, ParseError>)
    ensures
        outcome(
            r,
            |e: Expr| e@,
            q@,
            grammar::checked_call(name@, upper@, expected as nat, expr_views(args@), q@),
        ),
{
    broadcast use ast::call_view;

    if args.len() != expected {
        return Err(
            ParseError::FunctionArityMismatch { name, expected, found: args.len() },
        );
    }
    Ok(Expr::FunctionCall { name: upper, args })
}

impl Parser {
    fn parse_group_by_key(&mut self) -> (r: Result<GroupByKey, ParseError>)
        requires
            old(self).ok(),
        ensures
            final(self).like(old(self)),
            r is Ok ==> old(self).pos < final(self).pos,
            outcome(
                r,
                |k: GroupByKey| k@,
                final(self).pos as int,
                grammar::group_by_key(old(self).ts(), old(self).pos as int),
            ),
    {
        let first = match self.expect_ident() {
            Ok(s) => s,
            Err(e) => {
                return Err(e);
            },
        };
        if self.peek_is_symbol('.') {
            self.advance();
            return match self.expect_ident() {
                Ok(column) => Ok(GroupByKey::RelationshipPath { rel: first, column }),
                Err(e) => Err(e),
            };
        }
        Ok(GroupByKey::Column(first))
    }

    fn parse_group_by_keys(&mut self) -> (r: Result<Vec<GroupByKey>, ParseError>)
        requires
            old(self).ok(),
        ensures
            final(self).like(old(self)),
            outcome(
                r,
                |v: Vec<GroupByKey>| key_views(v@),
                final(self).pos as int,
                grammar::group_by_keys(old(self).ts(), old(self).pos as int, seq![]),
            ),
    {
        let mut keys: Vec<GroupByKey> = Vec::new();
        assert(key_views(keys@) =~= seq![]);
        loop
            invariant
                self.like(old(self)),
                grammar::group_by_keys(old(self).ts(), old(self).pos as int, seq![])
                    == grammar::group_by_keys(
                    old(self).ts(),
                    self.pos as int,
                    key_views(keys@),
                ),
            decreases self.tokens@.len() - self.pos,
        {
            let ghost before = keys@;
            let key = match self.parse_group_by_key() {
                Ok(k) => k,
                Err(e) => {
                    return Err(e);
                },
            };
            keys.push(key);
            assert(key_views(keys@) =~= key_views(before).push(key@));
            if !self.peek_is_symbol(',') {
                return Ok(keys);
            }
            self.advance();
        }
    }

    /// Reads the key-space clause, after which it is known whether groups are
    /// formed.
    fn parse_key_space_clause(&mut self) -> (r: Result<KeySpace, ParseError>)
        requires
            old(self).ok(),
            !old(self).is_aggregate,
        ensures
            final(self).ok(),
            final(self).tokens == old(self).tokens,
            r matches Ok(k) ==> final(self).is_aggregate == (k@ is Aggregate),
            outcome(
                r,
                |k: KeySpace| k@,
                final(self).pos as int,
                grammar::key_space(old(self).ts(), old(self).pos as int),
            ),
    {
        if self.peek_is_keyword("JOIN") {
            return Err(
                ParseError::UnsupportedKeySpace {
                    construct: text::owned("JOIN"),
                    detail: text::owned(JOIN_DETAIL),
                },
            );
        }
        if self.peek_is_keyword("GROUP") {
            self.advance();
            match self.expect_keyword("BY") {
                Ok(_) => {},
                Err(e) => {
                    return Err(e);
                },
            }
            let group_by = match self.parse_group_by_keys() {
                Ok(keys) => keys,
                Err(e) => {
                    return Err(e);
                },
            };
            self.is_aggregate = true;
            return Ok(KeySpace::Aggregate { group_by });
        }
        Ok(KeySpace::OneToOne)
    }

    fn reject_trailing_key_space_clause(&self) -> (r: Result<(), ParseError>)
        requires
            self.ok(),
        ensures
            match r {
                Ok(_) => grammar::no_key_space(self.ts(), self.pos as int) is Ok,
                Err(e) => grammar::no_key_space(self.ts(), self.pos as int) == Err::<
                    (),
                    ParseErrorView,
                >(e@),
            },
    {
        if self.peek_is_keyword("JOIN") {
            return Err(
                ParseError::UnsupportedKeySpace {
                    construct: text::owned("JOIN"),
                    detail: text::owned(JOIN_DETAIL),
                },
            );
        }
        if self.peek_is_keyword("GROUP") {
            return Err(
                ParseError::UnsupportedKeySpace {
                    construct: text::owned("GROUP BY"),
                    detail: text::owned(GROUP_BY_DETAIL),
                },
            );
        }
        Ok(())
    }

    /// Reads `<expr> AS <field>`.
    fn parse_field(&mut self) -> (r: Result<FieldDef, ParseError>)
        requires
            old(self).ok(),
        ensures
            final(self).like(old(self)),
            r is Ok ==> old(self).pos < final(self).pos,
            outcome(
                r,
                |f: FieldDef| f@,
                final(self).pos as int,
                grammar::field(old(self).ts(), old(self).pos as int, old(self).is_aggregate),
            ),
    {
        let expr = match self.parse_expr() {
            Ok(e) => e,
            Err(e) => {
                return Err(e);
            },
        };
        match self.expect_keyword("AS") {
            Ok(_) => {},
            Err(e) => {
                return Err(e);
            },
        }
        match self.expect_ident() {
            Ok(name) => Ok(FieldDef { name, expr }),
            Err(e) => Err(e),
        }
    }

    fn parse_field_list(&mut self) -> (r: Result<Vec<FieldDef>, ParseError>)
        requires
            old(self).ok(),
        ensures
            final(self).like(old(self)),
            outcome(
                r,
                |v: Vec<FieldDef>| field_views(v@),
                final(self).pos as int,
                grammar::fields(
                    old(self).ts(),
                    old(self).pos as int,
                    old(self).is_aggregate,
                    seq![],
                ),
            ),
    {
        let ghost agg = self.is_aggregate;
        let mut fields: Vec<FieldDef> = Vec::new();
        assert(field_views(fields@) =~= seq![]);
        loop
            invariant
                self.like(old(self)),
                agg == old(self).is_aggregate,
                grammar::fields(old(self).ts(), old(self).pos as int, agg, seq![])
                    == grammar::fields(
                    old(self).ts(),
                    self.pos as int,
                    agg,
                    field_views(fields@),
                ),
            decreases self.tokens@.len() - self.pos,
        {
            let ghost before = fields@;
            let field = match self.parse_field() {
                Ok(f) => f,
                Err(e) => {
                    return Err(e);
                },
            };
            fields.push(field);
            assert(field_views(fields@) =~= field_views(before).push(field@));
            if !self.peek_is_symbol(',') {
                return Ok(fields);
            }
            self.advance();
        }
    }

    fn parse_predicate(&mut self) -> (r: Result<Predicate, ParseError>)
        requires
            old(self).ok(),
        ensures
            final(self).like(old(self)),
            outcome(
                r,
                |p: Predicate| p,
                final(self).pos as int,
                grammar::predicate(old(self).ts(), old(self).pos as int),
            ),
    {
        if !self.peek_is_keyword("WHERE") {
            return Ok(Predicate::True);
        }
        self.advance();
        if self.peek_is_keyword("true") {
            self.advance();
            return Ok(Predicate::True);
        }
        Err(
            ParseError::UnsupportedPredicate {
                detail: text::cat2(PREDICATE_DETAIL, self.peek().describe().as_str()),
            },
        )
    }

    fn parse_transform_def(&mut self) -> (r: Result<TransformDef, ParseError>)
        requires
            old(self).ok(),
            !old(self).is_aggregate,
        ensures
            match r {
                Ok(d) => grammar::transform_def(old(self).ts(), old(self).pos as int) == Ok::<
                    TransformDefView,
                    ParseErrorView,
                >(d@),
                Err(e) => grammar::transform_def(old(self).ts(), old(self).pos as int) == Err::<
                    TransformDefView,
                    ParseErrorView,
                >(e@),
            },
    {
        match self.expect_keyword("TRANSFORM") {
            Ok(_) => {},
            Err(e) => {
                return Err(e);
            },
        }
        let (target, explicit_target_schema) = match self.parse_table_ref() {
            Ok(t) => t,
            Err(e) => {
                return Err(e);
            },
        };
        match self.expect_keyword("FROM") {
            Ok(_) => {},
            Err(e) => {
                return Err(e);
            },
        }
        let (source, explicit_source_schema) = match self.parse_table_ref() {
            Ok(t) => t,
            Err(e) => {
                return Err(e);
            },
        };
        let key_space = match self.parse_key_space_clause() {
            Ok(k) => k,
            Err(e) => {
                return Err(e);
            },
        };
        match self.expect_keyword("SELECT") {
            Ok(_) => {},
            Err(e) => {
                return Err(e);
            },
        }
        let fields = match self.parse_field_list() {
            Ok(fs) => fs,
            Err(e) => {
                return Err(e);
            },
        };
        let predicate = match self.parse_predicate() {
            Ok(p) => p,
            Err(e) => {
                return Err(e);
            },
        };
        match self.reject_trailing_key_space_clause() {
            Ok(_) => {},
            Err(e) => {
                return Err(e);
            },
        }
        match self.expect_eof() {
            Ok(_) => {},
            Err(e) => {
                return Err(e);
            },
        }
        Ok(
            TransformDef {
                target,
                explicit_target_schema,
                source,
                explicit_source_schema,
                key_space,
                fields,
                predicate,
            },
        )
    }

    fn parse_relationship_def(&mut self) -> (r: Result<RelationshipDef, ParseError>)
        requires
            old(self).ok(),
        ensures
            match r {
                Ok(d) => grammar::relationship_def(old(self).ts(), old(self).pos as int) == Ok::<
                    RelationshipDefView,
                    ParseErrorView,
                >(d@),
                Err(e) => grammar::relationship_def(old(self).ts(), old(self).pos as int) == Err::<
                    RelationshipDefView,
                    ParseErrorView,
                >(e@),
            },
    {
        match self.expect_keyword("RELATIONSHIP") {
            Ok(_) => {},
            Err(e) => {
                return Err(e);
            },
        }
        let name = match self.expect_ident() {
            Ok(s) => s,
            Err(e) => {
                return Err(e);
            },
        };
        match self.expect_keyword("FROM") {
            Ok(_) => {},
            Err(e) => {
                return Err(e);
            },
        }
        let (from_table, from_col) = match self.expect_table_dot_column() {
            Ok(t) => t,
            Err(e) => {
                return Err(e);
            },
        };
        match self.expect_keyword("TO") {
            Ok(_) => {},
            Err(e) => {
                return Err(e);
            },
        }
        let (to_table, to_col) = match self.expect_table_dot_column() {
            Ok(t) => t,
            Err(e) => {
                return Err(e);
            },
        };
        match self.expect_eof() {
            Ok(_) => {},
            Err(e) => {
                return Err(e);
            },
        }
        Ok(RelationshipDef { name, from_table, from_col, to_table, to_col })
    }

    fn parse_alter_clause(&mut self) -> (r: Result<AlterClause, ParseError>)
        requires
            old(self).ok(),
            !old(self).is_aggregate,
        ensures
            final(self).like(old(self)),
            r is Ok ==> old(self).pos < final(self).pos,
            outcome(
                r,
                |c: AlterClause| c@,
                final(self).pos as int,
                grammar::alter_clause(old(self).ts(), old(self).pos as int),
            ),
    {
        if self.peek_is_keyword("ADD") {
            self.advance();
            return match self.parse_field() {
                Ok(f) => Ok(AlterClause::Add(f)),
                Err(e) => Err(e),
            };
        }
        if self.peek_is_keyword("DROP") {
            self.advance();
            return match self.expect_ident() {
                Ok(name) => Ok(AlterClause::Drop(name)),
                Err(e) => Err(e),
            };
        }
        if self.peek_is_keyword("ALTER") {
            self.advance();
            let name = match self.expect_ident() {
                Ok(s) => s,
                Err(e) => {
                    return Err(e);
                },
            };
            match self.expect_keyword("AS") {
                Ok(_) => {},
                Err(e) => {
                    return Err(e);
                },
            }
            return match self.parse_expr() {
                Ok(expr) => Ok(AlterClause::Alter(FieldDef { name, expr })),
                Err(e) => Err(e),
            };
        }
        Err(unexpected(text::owned("'ADD', 'DROP' or 'ALTER'"), self.peek()))
    }

    fn parse_alter_clauses(&mut self) -> (r: Result<Vec<AlterClause>, ParseError>)
        requires
            old(self).ok(),
            !old(self).is_aggregate,
        ensures
            final(self).like(old(self)),
            outcome(
                r,
                |v: Vec<AlterClause>| clause_views(v@),
                final(self).pos as int,
                grammar::alter_clauses(old(self).ts(), old(self).pos as int, seq![]),
            ),
    {
        let mut clauses: Vec<AlterClause> = Vec::new();
        assert(clause_views(clauses@) =~= seq![]);
        loop
            invariant
                self.like(old(self)),
                !self.is_aggregate,
                grammar::alter_clauses(old(self).ts(), old(self).pos as int, seq![])
                    == grammar::alter_clauses(
                    old(self).ts(),
                    self.pos as int,
                    clause_views(clauses@),
                ),
            decreases self.tokens@.len() - self.pos,
        {
            let ghost before = clauses@;
            let clause = match self.parse_alter_clause() {
                Ok(c) => c,
                Err(e) => {
                    return Err(e);
                },
            };
            clauses.push(clause);
            assert(clause_views(clauses@) =~= clause_views(before).push(clause@));
            if !self.peek_is_symbol(',') {
                return Ok(clauses);
            }
            self.advance();
        }
    }

    fn parse_alter_transform(&mut self) -> (r: Result<AlterTransform, ParseError>)
        requires
            old(self).ok(),
            !old(self).is_aggregate,
        ensures
            match r {
                Ok(d) => grammar::alter_transform(old(self).ts(), old(self).pos as int) == Ok::<
                    ast::AlterTransformView,
                    ParseErrorView,
                >(d@),
                Err(e) => grammar::alter_transform(old(self).ts(), old(self).pos as int) == Err::<
                    ast::AlterTransformView,
                    ParseErrorView,
                >(e@),
            },
    {
        match self.expect_keyword("ALTER") {
            Ok(_) => {},
            Err(e) => {
                return Err(e);
            },
        }
        match self.expect_keyword("TRANSFORM") {
            Ok(_) => {},
            Err(e) => {
                return Err(e);
            },
        }
        let target = match self.expect_ident() {
            Ok(s) => s,
            Err(e) => {
                return Err(e);
            },
        };
        let clauses = match self.parse_alter_clauses() {
            Ok(cs) => cs,
            Err(e) => {
                return Err(e);
            },
        };
        match self.expect_eof() {
            Ok(_) => Ok(AlterTransform { target, clauses }),
            Err(e) => Err(e),
        }
    }

    fn parse_transform_ref(&mut self, verb: &str) -> (r: Result<TransformRef, ParseError>)
        requires
            old(self).ok(),
        ensures
            final(self).like(old(self)),
            outcome(
                r,
                |t: TransformRef| t@,
                final(self).pos as int,
                grammar::transform_reference(old(self).ts(), old(self).pos as int, verb@),
            ),
    {
        match self.expect_keyword("TRANSFORM") {
            Ok(_) => {},
            Err(e) => {
                return Err(e);
            },
        }
        match self.parse_transform_address(verb) {
            Ok((target, column)) => Ok(TransformRef { target, column }),
            Err(e) => Err(e),
        }
    }

    fn parse_drop_ref(&mut self) -> (r: Result<DefinitionRef, ParseError>)
        requires
            old(self).ok(),
        ensures
            final(self).like(old(self)),
            outcome(
                r,
                |d: DefinitionRef| d@,
                final(self).pos as int,
                grammar::drop_reference(old(self).ts(), old(self).pos as int),
            ),
    {
        if self.peek_is_keyword("TRANSFORM") {
            self.advance();
            return match self.parse_transform_address("DROP") {
                Ok((target, column)) => match column {
                    Some(c) => Err(
                        ParseError::MalformedDefinitionAddress {
                            statement: text::owned("DROP TRANSFORM"),
                            address: text::cat3(target.as_str(), ".", c.as_str()),
                            detail: text::owned(DROP_FIELD_DETAIL),
                        },
                    ),
                    None => Ok(DefinitionRef::Transform(target)),
                },
                Err(e) => Err(e),
            };
        }
        if self.peek_is_keyword("RELATIONSHIP") {
            self.advance();
            return self.parse_relationship_address();
        }
        Err(
            unexpected(
                text::owned("'TRANSFORM' or 'RELATIONSHIP' after 'DROP'"),
                self.peek(),
            ),
        )
    }

    fn parse_statement(&mut self) -> (r: Result<Statement, ParseError>)
        requires
            old(self).ok(),
            !old(self).is_aggregate,
        ensures
            match r {
                Ok(s) => grammar::statement(old(self).ts(), old(self).pos as int) == Ok::<
                    StatementView,
                    ParseErrorView,
                >(s@),
                Err(e) => grammar::statement(old(self).ts(), old(self).pos as int) == Err::<
                    StatementView,
                    ParseErrorView,
                >(e@),
            },
    {
        if self.peek_is_keyword("TRANSFORM") {
            return match self.parse_transform_def() {
                Ok(d) => Ok(Statement::DefineTransform(d)),
                Err(e) => Err(e),
            };
        }
        if self.peek_is_keyword("RELATIONSHIP") {
            return match self.parse_relationship_def() {
                Ok(d) => Ok(Statement::DefineRelationship(d)),
                Err(e) => Err(e),
            };
        }
        if self.peek_is_keyword("ALTER") {
            return match self.parse_alter_transform() {
                Ok(a) => Ok(Statement::AlterTransform(a)),
                Err(e) => Err(e),
            };
        }
        let statement = if self.peek_is_keyword("PAUSE") {
            self.advance();
            match self.parse_transform_ref("PAUSE") {
                Ok(t) => Statement::Pause(t),
                Err(e) => {
                    return Err(e);
                },
            }
        } else if self.peek_is_keyword("RESUME") {
            self.advance();
            match self.parse_transform_ref("RESUME") {
                Ok(t) => Statement::Resume(t),
                Err(e) => {
                    return Err(e);
                },
            }
        } else if self.peek_is_keyword("DROP") {
            self.advance();
            match self.parse_drop_ref() {
                Ok(d) => Statement::Drop(d),
                Err(e) => {
                    return Err(e);
                },
            }
        } else {
            return Err(unexpected(text::owned(STATEMENT_KEYWORDS), self.peek()));
        };
        match self.expect_eof() {
            Ok(_) => Ok(statement),
            Err(e) => Err(e),
        }
    }
}

/// A parser at the first token of `input`.
fn start(input: &str) -> (r: Result<Parser, ParseError>)
    ensures
        match r {
            Ok(p) => p.ok() && p.pos == 0 && !p.is_aggregate && crate::defs::lexer::tokens_of(
                input@,
            ) == Ok::<Seq<TokenView>, ParseErrorView>(p.ts()),
            Err(e) => crate::defs::lexer::tokens_of(input@) == Err::<
                Seq<TokenView>,
                ParseErrorView,
            >(e@),
        },
{
    let tokens = match lex(input) {
        Ok(ts) => ts,
        Err(e) => {
            return Err(e);
        },
    };
    proof {
        tokens_end_once(input@);
    }
    Ok(Parser { tokens, pos: 0, is_aggregate: false })
}

/// The transform definition that `input` spells.
pub fn parse(input: &str) -> (r: Result<TransformDef, ParseError>)
    ensures
        match r {
            Ok(d) => grammar::transform_of(input@) == Ok::<TransformDefView, ParseErrorView>(d@),
            Err(e) => grammar::transform_of(input@) == Err::<TransformDefView, ParseErrorView>(e@),
        },
{
    match start(input) {
        Ok(p) => {
            let mut p = p;
            p.parse_transform_def()
        },
        Err(e) => Err(e),
    }
}

/// The relationship definition that `input` spells.
pub fn parse_relationship(input: &str) -> (r: Result<RelationshipDef, ParseError>)
    ensures
        match r {
            Ok(d) => grammar::relationship_of(input@) == Ok::<RelationshipDefView, ParseErrorView>(
                d@,
            ),
            Err(e) => grammar::relationship_of(input@) == Err::<
                RelationshipDefView,
                ParseErrorView,
            >(e@),
        },
{
    match start(input) {
        Ok(p) => {
            let mut p = p;
            p.parse_relationship_def()
        },
        Err(e) => Err(e),
    }
}

/// The statement that `input` spells.
pub fn parse_statement(input: &str) -> (r: Result<Statement, ParseError>)
    ensures
        match r {
            Ok(s) => grammar::statement_of(input@) == Ok::<StatementView, ParseErrorView>(s@),
            Err(e) => grammar::statement_of(input@) == Err::<StatementView, ParseErrorView>(e@),
        },
{
    match start(input) {
        Ok(p) => {
            let mut p = p;
            p.parse_statement()
        },
        Err(e) => Err(e),
    }
}

} // verus!
