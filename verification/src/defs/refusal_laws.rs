//! What no text may hold, and what no statement may ask for.

use vstd::prelude::*;

use crate::defs::ast::{Predicate, TransformRefView};
use crate::defs::error::ParseErrorView;
use crate::defs::grammar::{
    at_keyword, dotted_rest, end_of_input, no_key_space, predicate, statement, table_ref, tok,
    transform_address,
};
use crate::defs::lexer::{string_body, tokens_of, TokenView};
use crate::defs::literal_laws::tokens_shift;
use crate::defs::statement_laws::{
    can_be_spelled, request_reads_back, verbs_differ, written_request,
};
use crate::text::{same_ignoring_case, upper, whitespace};

verus! {

/// The character can start a token, or stand between tokens.
pub open spec fn means_something(c: char) -> bool {
    ||| whitespace(c)
    ||| 'a' <= c <= 'z' || 'A' <= c <= 'Z' || '0' <= c <= '9' || c == '_'
    ||| c == '\''
    ||| can_be_spelled(TokenView::Symbol(c))
}

proof fn symbols_are_listed(c: char)
    ensures
        can_be_spelled(TokenView::Symbol(c)) <==> c == '+' || c == '-' || c == '*' || c == '/' || c
            == '%' || c == '=' || c == ',' || c == '(' || c == ')' || c == '.' || c == '<' || c
            == '>',
{
    reveal_strlit("+-*/%=,().<>");
    let all = "+-*/%=,().<>"@;
    assert(all.len() == 12);
    assert(all[0] == '+' && all[1] == '-' && all[2] == '*' && all[3] == '/' && all[4] == '%'
        && all[5] == '=' && all[6] == ',' && all[7] == '(' && all[8] == ')' && all[9] == '.'
        && all[10] == '<' && all[11] == '>');
    if all.contains(c) {
        let i = all.index_of(c);
        assert(i == 0 || i == 1 || i == 2 || i == 3 || i == 4 || i == 5 || i == 6 || i == 7 || i
            == 8 || i == 9 || i == 10 || i == 11);
    }
}

/// A character that means nothing is refused, a colon as the start of a cast.
pub proof fn other_characters_are_refused(c: char, rest: Seq<char>)
    requires
        !means_something(c),
    ensures
        tokens_of(seq![c] + rest) == Err::<Seq<TokenView>, ParseErrorView>(
            if c == ':' {
                ParseErrorView::UnsupportedCastOperator
            } else {
                ParseErrorView::UnexpectedChar { found: c }
            },
        ),
{
    symbols_are_listed(c);
    assert((seq![c] + rest)[0] == c);
}

/// A blank in front of a text changes nothing.
pub proof fn blanks_mean_nothing(c: char, rest: Seq<char>)
    requires
        whitespace(c),
    ensures
        tokens_of(seq![c] + rest) == tokens_of(rest),
{
    assert((seq![c] + rest)[0] == c);
    tokens_shift(seq![c], rest, 0);
}

proof fn no_end(cs: Seq<char>, i: int)
    requires
        0 <= i,
        forall|k: int| i <= k < cs.len() ==> #[trigger] cs[k] != '\'',
    ensures
        string_body(cs, i) is None,
    decreases cs.len() - i,
{
    if i < cs.len() {
        assert(cs[i] != '\'');
        no_end(cs, i + 1);
    }
}

/// A string that no quote ends is refused.
pub proof fn strings_have_to_end(s: Seq<char>)
    requires
        !s.contains('\''),
    ensures
        tokens_of(seq!['\''] + s) == Err::<Seq<TokenView>, ParseErrorView>(
            ParseErrorView::UnterminatedString,
        ),
{
    let cs = seq!['\''] + s;
    assert(cs[0] == '\'');
    assert forall|k: int| 1 <= k < cs.len() implies #[trigger] cs[k] != '\'' by {
        assert(cs[k] == s[k - 1]);
        assert(s.contains(s[k - 1]));
    }
    no_end(cs, 1);
}

/// Behind `WHERE` only `TRUE` is accepted, and it means what no `WHERE` means.
pub proof fn predicates_are_true(ts: Seq<TokenView>, p: int)
    ensures
        match predicate(ts, p) {
            Ok((q, next)) => q == Predicate::True && next == (if at_keyword(ts, p, "WHERE"@) {
                p + 2
            } else {
                p
            }) && (at_keyword(ts, p, "WHERE"@) ==> at_keyword(ts, p + 1, "TRUE"@)),
            Err(x) => x is UnsupportedPredicate && at_keyword(ts, p, "WHERE"@) && !at_keyword(
                ts,
                p + 1,
                "TRUE"@,
            ),
        },
{
    reveal_strlit("true");
    reveal_strlit("TRUE");
    assert(upper("true"@) =~= upper("TRUE"@));
}

/// A definition ends where its fields or its predicate end: neither a join nor
/// a group may follow, nor anything else.
pub proof fn nothing_follows_a_definition(ts: Seq<TokenView>, p: int)
    ensures
        no_key_space(ts, p) is Ok && end_of_input(ts, p) is Ok <==> tok(ts, p) == TokenView::Eof,
        no_key_space(ts, p) is Err <==> at_keyword(ts, p, "JOIN"@) || at_keyword(ts, p, "GROUP"@),
{
}

/// A single column of a transform is never dropped.
pub proof fn columns_are_not_dropped(t: TransformRefView)
    requires
        t.column is Some,
    ensures
        statement(written_request("DROP"@, t), 0) matches Err(x) && x is MalformedDefinitionAddress,
{
    let ts = written_request("DROP"@, t);
    verbs_differ();
    assert(!same_ignoring_case("DROP"@, "RELATIONSHIP"@));
    request_reads_back("DROP"@, t);
}

/// A table has at most one schema in front of it, and a transform at most one
/// column behind it.
pub proof fn names_have_at_most_two_parts(
    ts: Seq<TokenView>,
    p: int,
    a: Seq<char>,
    b: Seq<char>,
    c: Seq<char>,
    verb: Seq<char>,
)
    requires
        tok(ts, p) == TokenView::Ident(a),
        tok(ts, p + 1) == TokenView::Symbol('.'),
        tok(ts, p + 2) == TokenView::Ident(b),
        tok(ts, p + 3) == TokenView::Symbol('.'),
        tok(ts, p + 4) == TokenView::Ident(c),
        tok(ts, p + 5) != TokenView::Symbol('.'),
    ensures
        table_ref(ts, p) == Err::<(Seq<char>, Option<Seq<char>>, int), ParseErrorView>(
            ParseErrorView::TooManyQualifiedNameParts { reference: a + "."@ + b + "."@ + c },
        ),
        transform_address(ts, p, verb) matches Err(ParseErrorView::MalformedDefinitionAddress {
            address,
            ..
        }) && address == a + "."@ + b + "."@ + c,
{
    let two = a + "."@ + b;
    let three = two + "."@ + c;
    assert(dotted_rest(ts, p + 5, three) == Ok::<(Seq<char>, int), ParseErrorView>((three, p + 5)));
    assert(dotted_rest(ts, p + 3, two) == Ok::<(Seq<char>, int), ParseErrorView>((three, p + 5)));
}

} // verus!
