//! The two spellings of a typed literal.

use vstd::prelude::*;

use crate::defs::ast::{
    ExprView, FieldDefView, KeySpaceView, Predicate, TransformDefView, ValueTypeView,
};
use crate::defs::error::ParseErrorView;
use crate::defs::grammar::{
    binary, call, cast_body, climb, field, fields, named, primary, table_ref, tok, transform_def,
    transform_of,
};
use crate::defs::lexer::{
    digits_end, digits_end_bounds, ident_char, ident_end, ident_end_bounds, ident_start, led_by,
    number_end, number_end_bounds, string_body, string_body_bounds, symbol_char, tokens_from,
    tokens_of, TokenView,
};
use crate::defs::registry::non_immutable;
use crate::defs::typed_literal::literal_type;
use crate::float::FloatWidth;
use crate::sql::{doubled, quoted_string};
use crate::text::{ascii_digit, ascii_upper, upper, whitespace};

verus! {

// ---------------------------------------------------------------------------
// Among tokens
// ---------------------------------------------------------------------------

/// The upper-case word at `p`, if an identifier stands there.
pub open spec fn word_at(ts: Seq<TokenView>, p: int) -> Option<Seq<char>> {
    match tok(ts, p) {
        TokenView::Ident(k) => Some(upper(k)),
        _ => None,
    }
}

/// The `n` tokens from `p` on are the words, in any case, of the keyword of
/// the literal type `t`.
pub open spec fn names_type(ts: Seq<TokenView>, p: int, n: int, t: ValueTypeView) -> bool {
    ||| n == 1 && word_at(ts, p) is Some && literal_type(word_at(ts, p)->0) == Some(t)
    ||| n == 2 && word_at(ts, p) == Some("DOUBLE"@) && word_at(ts, p + 1) == Some("PRECISION"@)
        && t == ValueTypeView::Float(FloatWidth::Float8)
}

/// A keyword in front of a string is a literal of its type.
pub proof fn keyword_and_string_are_a_literal(
    ts: Seq<TokenView>,
    p: int,
    n: int,
    t: ValueTypeView,
    s: Seq<char>,
    agg: bool,
)
    requires
        0 <= p,
        names_type(ts, p, n, t),
        tok(ts, p + n) == TokenView::String(s),
    ensures
        primary(ts, p, agg) == Ok::<(ExprView, int), ParseErrorView>(
            (ExprView::TypedLiteral { value_type: t, text: s }, p + n + 1),
        ),
{
    let name = tok(ts, p)->Ident_0;
    assert(primary(ts, p, agg) == named(ts, p + 1, agg, name));
    double_is_no_type();
    if n == 1 {
        keywords_are_words(word_at(ts, p)->0);
    }
}

/// A string that is cast to a type is a literal of that type.
pub proof fn cast_string_is_a_literal(
    ts: Seq<TokenView>,
    p: int,
    n: int,
    t: ValueTypeView,
    s: Seq<char>,
    agg: bool,
)
    requires
        0 <= p,
        word_at(ts, p) == Some("CAST"@),
        tok(ts, p + 1) == TokenView::Symbol('('),
        tok(ts, p + 2) == TokenView::String(s),
        word_at(ts, p + 3) == Some("AS"@),
        names_type(ts, p + 4, n, t),
        tok(ts, p + 4 + n) == TokenView::Symbol(')'),
    ensures
        primary(ts, p, agg) == Ok::<(ExprView, int), ParseErrorView>(
            (ExprView::TypedLiteral { value_type: t, text: s }, p + 5 + n),
        ),
{
    let name = tok(ts, p)->Ident_0;
    cast_is_no_keyword();
    as_is_upper();
    assert(primary(ts, p, agg) == named(ts, p + 1, agg, name));
    assert(named(ts, p + 1, agg, name) == call(ts, p + 2, agg, name));
    assert(call(ts, p + 2, agg, name) == cast_body(ts, p + 2));
    double_is_no_type();
    if n == 1 {
        keywords_are_words(word_at(ts, p + 4)->0);
    }
}

/// A keyword of one word is an identifier, and means nothing else.
proof fn keywords_are_words(kw: Seq<char>)
    requires
        literal_type(kw) is Some,
    ensures
        kw != "DOUBLE"@,
        !non_immutable(kw),
        kw != "DOUBLE PRECISION"@ ==> {
            &&& kw.len() > 0
            &&& ident_start(kw[0])
            &&& forall|i: int| 0 <= i < kw.len() ==> ident_char(#[trigger] kw[i])
        },
{
    reveal_others();
    reveal_strlit("DOUBLE");
    reveal_strlit("DATE");
    reveal_strlit("TIMESTAMP");
    reveal_strlit("BYTEA");
    reveal_strlit("TIME");
    reveal_strlit("TIMETZ");
    reveal_strlit("OID");
    reveal_strlit("REAL");
    reveal_strlit("DOUBLE PRECISION");
    reveal_strlit("INET");
    reveal_strlit("CIDR");
    reveal_strlit("MACADDR");
    reveal_strlit("MACADDR8");
    reveal_strlit("VARBIT");
    reveal_strlit("JSONB");
    assert("DOUBLE"@.len() == 6 && "DOUBLE"@[0] == 'D');
    assert("DOUBLE PRECISION"@.len() == 16);
    assert("DATE"@.len() == 4 && "TIMESTAMP"@.len() == 9 && "BYTEA"@.len() == 5);
    assert("TIMETZ"@[0] == 'T' && "VARBIT"@[0] == 'V' && "OID"@[0] == 'O');
    assert("TIME"@.len() == 4 && "REAL"@.len() == 4 && "INET"@.len() == 4 && "CIDR"@.len() == 4);
    assert("MACADDR"@.len() == 7 && "MACADDR8"@.len() == 8 && "JSONB"@.len() == 5);
}

proof fn as_is_upper()
    ensures
        upper("AS"@) == "AS"@,
        upper("PRECISION"@) == "PRECISION"@,
{
    reveal_strlit("AS");
    reveal_strlit("PRECISION");
    assert(upper("AS"@) =~= "AS"@);
    assert(upper("PRECISION"@) =~= "PRECISION"@);
}

proof fn double_is_no_type()
    ensures
        !non_immutable("DOUBLE"@),
        upper("PRECISION"@) == "PRECISION"@,
        literal_type("DOUBLE PRECISION"@) == Some(ValueTypeView::Float(FloatWidth::Float8)),
{
    as_is_upper();
    reveal_others();
    reveal_strlit("DOUBLE");
    reveal_strlit("DOUBLE PRECISION");
    reveal_strlit("DATE");
    reveal_strlit("TIMESTAMP");
    reveal_strlit("BYTEA");
    reveal_strlit("TIME");
    reveal_strlit("TIMETZ");
    reveal_strlit("OID");
    reveal_strlit("REAL");
    assert("DOUBLE"@[0] == 'D' && "RANDOM"@[0] == 'R');
    assert("DOUBLE"@.len() == 6);
    assert("DOUBLE PRECISION"@.len() == 16);
}

proof fn cast_is_no_keyword()
    ensures
        !non_immutable("CAST"@),
        "CAST"@ != "DOUBLE"@,
{
    reveal_others();
    reveal_strlit("CAST");
    reveal_strlit("DOUBLE");
    assert("CAST"@.len() == 4);
}

proof fn reveal_others()
    ensures
        "NOW"@.len() == 3 && "NOW"@[0] == 'N',
        "CURRENT_TIMESTAMP"@.len() == 17,
        "CURRENT_DATE"@.len() == 12,
        "CURRENT_TIME"@.len() == 12,
        "CLOCK_TIMESTAMP"@.len() == 15,
        "RANDOM"@.len() == 6 && "RANDOM"@[0] == 'R',
        "STATEMENT_TIMESTAMP"@.len() == 19,
        "TRANSACTION_TIMESTAMP"@.len() == 21,
{
    reveal_strlit("NOW");
    reveal_strlit("CURRENT_TIMESTAMP");
    reveal_strlit("CURRENT_DATE");
    reveal_strlit("CURRENT_TIME");
    reveal_strlit("CLOCK_TIMESTAMP");
    reveal_strlit("RANDOM");
    reveal_strlit("STATEMENT_TIMESTAMP");
    reveal_strlit("TRANSACTION_TIMESTAMP");
}

// ---------------------------------------------------------------------------
// In a text
// ---------------------------------------------------------------------------

proof fn ident_end_shifts(a: Seq<char>, b: Seq<char>, i: int)
    requires
        0 <= i <= b.len(),
    ensures
        ident_end(a + b, a.len() + i) == a.len() + ident_end(b, i),
    decreases b.len() - i,
{
    if i < b.len() {
        assert((a + b)[a.len() + i] == b[i]);
        if ident_char(b[i]) {
            ident_end_shifts(a, b, i + 1);
        }
    }
}

proof fn digits_end_shifts(a: Seq<char>, b: Seq<char>, i: int)
    requires
        0 <= i <= b.len(),
    ensures
        digits_end(a + b, a.len() + i) == a.len() + digits_end(b, i),
    decreases b.len() - i,
{
    if i < b.len() {
        assert((a + b)[a.len() + i] == b[i]);
        if ascii_digit(b[i]) {
            digits_end_shifts(a, b, i + 1);
        }
    }
}

proof fn number_end_shifts(a: Seq<char>, b: Seq<char>, i: int)
    requires
        0 <= i < b.len(),
    ensures
        number_end(a + b, a.len() + i) == a.len() + number_end(b, i),
{
    digits_end_shifts(a, b, i);
    digits_end_bounds(b, i);
    let whole = digits_end(b, i);
    if whole < b.len() {
        assert((a + b)[a.len() + whole] == b[whole]);
    }
    if whole + 1 < b.len() {
        assert((a + b)[a.len() + whole + 1] == b[whole + 1]);
        digits_end_shifts(a, b, whole + 1);
    }
}

proof fn string_body_shifts(a: Seq<char>, b: Seq<char>, i: int)
    requires
        0 <= i,
    ensures
        string_body(a + b, a.len() + i) == (match string_body(b, i) {
            Some((body, end)) => Some((body, a.len() + end)),
            None => None,
        }),
    decreases b.len() - i,
{
    if i < b.len() {
        assert((a + b)[a.len() + i] == b[i]);
        if b[i] == '\'' {
            if i + 1 < b.len() {
                assert((a + b)[a.len() + i + 1] == b[i + 1]);
                if b[i + 1] == '\'' {
                    string_body_shifts(a, b, i + 2);
                }
            }
        } else {
            string_body_shifts(a, b, i + 1);
        }
    }
}

/// Where a text starts makes no difference to its tokens.
pub(crate) proof fn tokens_shift(a: Seq<char>, b: Seq<char>, i: int)
    requires
        0 <= i,
    ensures
        tokens_from(a + b, a.len() + i) == tokens_from(b, i),
    decreases b.len() - i,
{
    if i < b.len() {
        let c = b[i];
        assert((a + b)[a.len() + i] == c);
        if whitespace(c) {
            tokens_shift(a, b, i + 1);
        } else if ident_start(c) {
            ident_end_bounds(b, i);
            ident_end_shifts(a, b, i);
            let end = ident_end(b, i);
            assert((a + b).subrange(a.len() + i, a.len() + end) =~= b.subrange(i, end));
            tokens_shift(a, b, end);
        } else if ascii_digit(c) {
            number_end_bounds(b, i);
            number_end_shifts(a, b, i);
            let end = number_end(b, i);
            assert((a + b).subrange(a.len() + i, a.len() + end) =~= b.subrange(i, end));
            tokens_shift(a, b, end);
        } else if c == '\'' {
            string_body_bounds(b, i + 1);
            string_body_shifts(a, b, i + 1);
            if let Some((body, end)) = string_body(b, i + 1) {
                tokens_shift(a, b, end);
            }
        } else if c != ':' && symbol_char(c) {
            tokens_shift(a, b, i + 1);
        }
    }
}

proof fn run_of_ident_chars(cs: Seq<char>, i: int, j: int)
    requires
        0 <= i <= j <= cs.len(),
        forall|k: int| i <= k < j ==> ident_char(#[trigger] cs[k]),
        j < cs.len() ==> !ident_char(cs[j]),
    ensures
        ident_end(cs, i) == j,
    decreases j - i,
{
    if i < j {
        run_of_ident_chars(cs, i + 1, j);
    }
}

/// A word in front of something that does not carry it on is a token.
pub(crate) proof fn word_leads(w: Seq<char>, rest: Seq<char>)
    requires
        w.len() > 0,
        ident_start(w[0]),
        forall|i: int| 0 <= i < w.len() ==> ident_char(#[trigger] w[i]),
        rest.len() > 0 ==> !ident_char(rest[0]),
    ensures
        tokens_of(w + rest) == led_by(TokenView::Ident(w), tokens_of(rest)),
{
    let cs = w + rest;
    let n = w.len() as int;
    assert(cs[0] == w[0]);
    if rest.len() > 0 {
        assert(cs[n] == rest[0]);
    }
    assert forall|k: int| 0 <= k < n implies ident_char(#[trigger] cs[k]) by {
        assert(cs[k] == w[k]);
    }
    run_of_ident_chars(cs, 0, n);
    assert(cs.subrange(0, n) =~= w);
    tokens_shift(w, rest, 0);
}

pub(crate) proof fn space_leads(rest: Seq<char>)
    ensures
        tokens_of(seq![' '] + rest) == tokens_of(rest),
{
    let cs = seq![' '] + rest;
    assert(cs[0] == ' ');
    tokens_shift(seq![' '], rest, 0);
}

proof fn symbol_leads(c: char, rest: Seq<char>)
    requires
        c == '(' || c == ')',
    ensures
        tokens_of(seq![c] + rest) == led_by(TokenView::Symbol(c), tokens_of(rest)),
{
    let cs = seq![c] + rest;
    assert(cs[0] == c);
    tokens_shift(seq![c], rest, 0);
}

proof fn doubled_is_read(cs: Seq<char>, p: int, s: Seq<char>)
    requires
        0 <= p,
        p + doubled(s, '\'').len() <= cs.len(),
        cs.subrange(p, p + doubled(s, '\'').len()) == doubled(s, '\''),
    ensures
        string_body(cs, p) == (match string_body(cs, p + doubled(s, '\'').len()) {
            Some((body, end)) => Some((s + body, end)),
            None => None,
        }),
    decreases s.len(),
{
    if s.len() > 0 {
        let d = doubled(s, '\'');
        let e = doubled(s.drop_last(), '\'');
        let at = p + e.len();
        assert(cs.subrange(p, at) =~= e) by {
            assert forall|k: int| 0 <= k < e.len() implies cs.subrange(p, at)[k] == e[k] by {
                assert(cs.subrange(p, p + d.len())[k] == d[k]);
            }
        }
        doubled_is_read(cs, p, s.drop_last());
        assert(cs[at] == cs.subrange(p, p + d.len())[e.len() as int]);
        if s.last() == '\'' {
            assert(cs[at + 1] == cs.subrange(p, p + d.len())[(e.len() + 1) as int]);
        }
        if let Some((body, end)) = string_body(cs, p + d.len()) {
            assert(s.drop_last() + (seq![s.last()] + body) =~= s + body);
        }
    } else if let Some((body, end)) = string_body(cs, p) {
        assert(s + body =~= body);
    }
}

/// A quoted string in front of something other than a quote is a token.
pub(crate) proof fn string_leads(s: Seq<char>, rest: Seq<char>)
    requires
        rest.len() > 0 ==> rest[0] != '\'',
    ensures
        tokens_of(quoted_string(s) + rest) == led_by(TokenView::String(s), tokens_of(rest)),
{
    let q = quoted_string(s);
    let cs = q + rest;
    let d = doubled(s, '\'');
    assert(cs[0] == '\'');
    assert(cs.subrange(1, 1 + d.len() as int) =~= d);
    doubled_is_read(cs, 1, s);
    assert(cs[1 + d.len() as int] == '\'');
    if rest.len() > 0 {
        assert(cs[2 + d.len() as int] == rest[0]);
    }
    assert(s + seq![] =~= s);
    tokens_shift(q, rest, 0);
}

/// `rest` behind the start of a definition of `t` over `s`.
pub open spec fn definition_of(rest: Seq<char>) -> Seq<char> {
    "TRANSFORM t FROM s SELECT "@ + rest
}

/// The keyword in front of the quoted text.
pub open spec fn prefixed(k: Seq<char>, s: Seq<char>) -> Seq<char> {
    k + seq![' '] + quoted_string(s)
}

/// The quoted text, cast to the type of the keyword.
pub open spec fn cast(k: Seq<char>, s: Seq<char>) -> Seq<char> {
    "CAST("@ + quoted_string(s) + " AS "@ + k + ")"@
}

/// The words of a keyword.
spec fn words(k: Seq<char>) -> Seq<TokenView> {
    if upper(k) == "DOUBLE PRECISION"@ {
        seq![TokenView::Ident(k.take(6)), TokenView::Ident(k.skip(7))]
    } else {
        seq![TokenView::Ident(k)]
    }
}

/// `first`, then the tokens that follow, if they are tokens.
spec fn all_led_by(
    first: Seq<TokenView>,
    rest: Result<Seq<TokenView>, ParseErrorView>,
) -> Result<Seq<TokenView>, ParseErrorView> {
    match rest {
        Ok(ts) => Ok(first + ts),
        Err(e) => Err(e),
    }
}

proof fn upper_keeps_words(k: Seq<char>)
    requires
        k.len() > 0,
        ident_start(upper(k)[0]),
        forall|i: int| 0 <= i < k.len() ==> ident_char(#[trigger] upper(k)[i]),
    ensures
        ident_start(k[0]),
        forall|i: int| 0 <= i < k.len() ==> ident_char(#[trigger] k[i]),
{
    assert(ascii_upper(k[0]) == upper(k)[0]);
    assert forall|i: int| 0 <= i < k.len() implies ident_char(#[trigger] k[i]) by {
        assert(ident_char(upper(k)[i]));
    }
}

proof fn keyword_leads(k: Seq<char>, rest: Seq<char>)
    requires
        literal_type(upper(k)) is Some,
        rest.len() > 0 ==> !ident_char(rest[0]),
    ensures
        tokens_of(k + rest) == all_led_by(words(k), tokens_of(rest)),
        k.len() > 0 && k[0] != '\'' && k[0] != ' ',
{
    let up = upper(k);
    keywords_are_words(up);
    if up == "DOUBLE PRECISION"@ {
        reveal_strlit("DOUBLE PRECISION");
        let a = k.take(6);
        let b = k.skip(7);
        assert("DOUBLE PRECISION"@.len() == 16);
        assert(k.len() == 16);
        assert forall|i: int| 0 <= i < 16 implies ascii_upper(#[trigger] k[i]) == up[i] by {}
        assert(up[6] == ' ');
        assert(k[6] == ' ');
        assert(up[0] == 'D' && up[7] == 'P');
        assert forall|i: int| 0 <= i < 6 implies ident_char(#[trigger] a[i]) by {
            assert(a[i] == k[i]);
            assert(ascii_upper(k[i]) == up[i]);
        }
        assert forall|i: int| 0 <= i < 9 implies ident_char(#[trigger] b[i]) by {
            assert(b[i] == k[i + 7]);
            assert(ascii_upper(k[i + 7]) == up[i + 7]);
        }
        assert(k + rest =~= a + (seq![' '] + (b + rest)));
        assert(a[0] == k[0] && b[0] == k[7]);
        word_leads(b, rest);
        space_leads(b + rest);
        word_leads(a, seq![' '] + (b + rest));
        if let Ok(ts) = tokens_of(rest) {
            assert(seq![TokenView::Ident(a)] + (seq![TokenView::Ident(b)] + ts) =~= words(k) + ts);
        }
    } else {
        upper_keeps_words(k);
        word_leads(k, rest);
    }
}

/// The words of a keyword name its type wherever they stand.
proof fn words_name_the_type(k: Seq<char>, ts: Seq<TokenView>, p: int)
    requires
        literal_type(upper(k)) is Some,
        0 <= p,
        p + words(k).len() <= ts.len(),
        forall|i: int| 0 <= i < words(k).len() ==> #[trigger] ts[p + i] == words(k)[i],
    ensures
        names_type(ts, p, words(k).len() as int, literal_type(upper(k))->0),
{
    let up = upper(k);
    assert(ts[p + 0] == words(k)[0]);
    if up == "DOUBLE PRECISION"@ {
        double_is_no_type();
        reveal_strlit("DOUBLE PRECISION");
        reveal_strlit("DOUBLE");
        reveal_strlit("PRECISION");
        assert(ts[p + 1] == words(k)[1]);
        assert("DOUBLE PRECISION"@.len() == 16);
        assert(k.len() == 16);
        assert forall|i: int| 0 <= i < 16 implies ascii_upper(#[trigger] k[i]) == up[i] by {}
        assert(upper(k.take(6)) =~= "DOUBLE"@) by {
            assert forall|i: int| 0 <= i < 6 implies upper(k.take(6))[i] == "DOUBLE"@[i] by {
                assert(ascii_upper(k[i]) == up[i]);
            }
        }
        assert(upper(k.skip(7)) =~= "PRECISION"@) by {
            assert forall|i: int| 0 <= i < 9 implies upper(k.skip(7))[i] == "PRECISION"@[i] by {
                assert(ascii_upper(k[i + 7]) == up[i + 7]);
            }
        }
    }
}

spec fn opening() -> Seq<TokenView> {
    seq![
        TokenView::Ident("TRANSFORM"@),
        TokenView::Ident("t"@),
        TokenView::Ident("FROM"@),
        TokenView::Ident("s"@),
        TokenView::Ident("SELECT"@),
    ]
}

spec fn closing() -> Seq<TokenView> {
    seq![TokenView::Ident("AS"@), TokenView::Ident("d"@), TokenView::Eof]
}

proof fn opening_leads(rest: Seq<char>)
    ensures
        tokens_of(definition_of(rest)) == all_led_by(opening(), tokens_of(rest)),
{
    reveal_strlit("TRANSFORM t FROM s SELECT ");
    reveal_strlit("TRANSFORM");
    reveal_strlit("t");
    reveal_strlit("FROM");
    reveal_strlit("s");
    reveal_strlit("SELECT");
    let gap = seq![' '];
    let e = gap + rest;
    let d = gap + ("SELECT"@ + e);
    let c = gap + ("s"@ + d);
    let b = gap + ("FROM"@ + c);
    let a = gap + ("t"@ + b);
    assert(definition_of(rest) =~= "TRANSFORM"@ + a);
    word_leads("TRANSFORM"@, a);
    space_leads("t"@ + b);
    word_leads("t"@, b);
    space_leads("FROM"@ + c);
    word_leads("FROM"@, c);
    space_leads("s"@ + d);
    word_leads("s"@, d);
    space_leads("SELECT"@ + e);
    word_leads("SELECT"@, e);
    space_leads(rest);
    if let Ok(ts) = tokens_of(rest) {
        assert(seq![TokenView::Ident("TRANSFORM"@)] + (seq![TokenView::Ident("t"@)] + (seq![
            TokenView::Ident("FROM"@),
        ] + (seq![TokenView::Ident("s"@)] + (seq![TokenView::Ident("SELECT"@)] + ts))))
            =~= opening() + ts);
    }
}

proof fn closing_is_read()
    ensures
        tokens_of(" AS d"@) == Ok::<Seq<TokenView>, ParseErrorView>(closing()),
        " AS d"@.len() > 0,
        " AS d"@[0] == ' ',
{
    reveal_strlit(" AS d");
    reveal_strlit("AS");
    reveal_strlit("d");
    let gap = seq![' '];
    let none = Seq::<char>::empty();
    assert(" AS d"@ =~= gap + ("AS"@ + (gap + ("d"@ + none))));
    space_leads("AS"@ + (gap + ("d"@ + none)));
    word_leads("AS"@, gap + ("d"@ + none));
    space_leads("d"@ + none);
    word_leads("d"@, none);
    assert(tokens_of(none) == Ok::<Seq<TokenView>, ParseErrorView>(seq![TokenView::Eof]));
    assert(seq![TokenView::Ident("AS"@)] + (seq![TokenView::Ident("d"@)] + seq![TokenView::Eof])
        =~= closing());
}

/// The definition whose only field is `d`, over `s`.
pub open spec fn one_field(expr: ExprView) -> TransformDefView {
    TransformDefView {
        target: "t"@,
        explicit_target_schema: None,
        source: "s"@,
        explicit_source_schema: None,
        key_space: KeySpaceView::OneToOne,
        fields: seq![FieldDefView { name: "d"@, expr }],
        predicate: Predicate::True,
    }
}

proof fn one_field_is_read(ts: Seq<TokenView>, n: int, expr: ExprView)
    requires
        n > 0,
        ts.len() == 8 + n,
        forall|i: int| 0 <= i < 5 ==> #[trigger] ts[i] == opening()[i],
        primary(ts, 5, false) == Ok::<(ExprView, int), ParseErrorView>((expr, 5 + n)),
        ts[5 + n] == TokenView::Ident("AS"@),
        ts[6 + n] == TokenView::Ident("d"@),
        ts[7 + n] == TokenView::Eof,
    ensures
        transform_def(ts, 0) == Ok::<TransformDefView, ParseErrorView>(one_field(expr)),
{
    reveal_strlit("SELECT");
    reveal_strlit("JOIN");
    reveal_strlit("GROUP");
    assert(ts[0] == opening()[0] && ts[1] == opening()[1] && ts[2] == opening()[2]);
    assert(ts[3] == opening()[3] && ts[4] == opening()[4]);
    assert(upper("SELECT"@).len() == 6 && upper("JOIN"@).len() == 4 && upper("GROUP"@).len() == 5);
    assert(table_ref(ts, 1) == Ok::<(Seq<char>, Option<Seq<char>>, int), ParseErrorView>(
        ("t"@, None, 2),
    ));
    assert(table_ref(ts, 3) == Ok::<(Seq<char>, Option<Seq<char>>, int), ParseErrorView>(
        ("s"@, None, 4),
    ));
    assert(climb(ts, 5 + n, false, 0, expr) == Ok::<(ExprView, int), ParseErrorView>(
        (expr, 5 + n),
    ));
    assert(binary(ts, 5, false, 0) == Ok::<(ExprView, int), ParseErrorView>((expr, 5 + n)));
    let f = FieldDefView { name: "d"@, expr };
    assert(field(ts, 5, false) == Ok::<(FieldDefView, int), ParseErrorView>((f, 7 + n)));
    assert(fields(ts, 5, false, seq![]) == Ok::<(Seq<FieldDefView>, int), ParseErrorView>(
        (Seq::<FieldDefView>::empty().push(f), 7 + n),
    ));
    assert(Seq::<FieldDefView>::empty().push(f) =~= seq![f]);
}

/// `K 'x'` and `CAST('x' AS K)` mean the same: a literal of the type that the
/// keyword `K`, in any case, names, with the text between the quotes.
pub proof fn literal_spellings_agree(k: Seq<char>, s: Seq<char>)
    requires
        literal_type(upper(k)) is Some,
    ensures
        ({
            let literal = ExprView::TypedLiteral {
                value_type: literal_type(upper(k))->0,
                text: s,
            };
            &&& transform_of(definition_of(prefixed(k, s) + " AS d"@)) == Ok::<
                TransformDefView,
                ParseErrorView,
            >(one_field(literal))
            &&& transform_of(definition_of(cast(k, s) + " AS d"@)) == Ok::<
                TransformDefView,
                ParseErrorView,
            >(one_field(literal))
        }),
{
    prefixed_is_read(k, s);
    cast_is_read(k, s);
}

proof fn prefixed_is_read(k: Seq<char>, s: Seq<char>)
    requires
        literal_type(upper(k)) is Some,
    ensures
        transform_of(definition_of(prefixed(k, s) + " AS d"@)) == Ok::<
            TransformDefView,
            ParseErrorView,
        >(one_field(ExprView::TypedLiteral { value_type: literal_type(upper(k))->0, text: s })),
{
    let t = literal_type(upper(k))->0;
    let last = " AS d"@;
    let q = quoted_string(s);
    closing_is_read();
    string_leads(s, last);
    space_leads(q + last);
    keyword_leads(k, seq![' '] + (q + last));
    assert(prefixed(k, s) + last =~= k + (seq![' '] + (q + last)));
    opening_leads(prefixed(k, s) + last);
    let w = words(k);
    let n = w.len() as int;
    let inner = w + (seq![TokenView::String(s)] + closing());
    let ts = opening() + inner;
    assert(tokens_of(definition_of(prefixed(k, s) + last)) == Ok::<
        Seq<TokenView>,
        ParseErrorView,
    >(ts));
    assert forall|i: int| 0 <= i < n implies #[trigger] ts[5 + i] == w[i] by {}
    words_name_the_type(k, ts, 5);
    assert(ts[5 + n] == TokenView::String(s));
    keyword_and_string_are_a_literal(ts, 5, n, t, s, false);
    one_field_is_read(ts, n + 1, ExprView::TypedLiteral { value_type: t, text: s });
}

spec fn cast_tokens(k: Seq<char>, s: Seq<char>) -> Seq<TokenView> {
    seq![
        TokenView::Ident("CAST"@),
        TokenView::Symbol('('),
        TokenView::String(s),
        TokenView::Ident("AS"@),
    ] + words(k) + seq![TokenView::Symbol(')')] + closing()
}

proof fn cast_has_tokens(k: Seq<char>, s: Seq<char>)
    requires
        literal_type(upper(k)) is Some,
    ensures
        tokens_of(cast(k, s) + " AS d"@) == Ok::<Seq<TokenView>, ParseErrorView>(
            cast_tokens(k, s),
        ),
{
    let last = " AS d"@;
    let q = quoted_string(s);
    let gap = seq![' '];
    closing_is_read();
    let e = seq![')'] + last;
    let d = gap + (k + e);
    let c = gap + ("AS"@ + d);
    let b = seq!['('] + (q + c);
    assert(cast(k, s) + last =~= "CAST"@ + b) by {
        reveal_strlit("CAST(");
        reveal_strlit("CAST");
        reveal_strlit(" AS ");
        reveal_strlit("AS");
        reveal_strlit(")");
    }
    symbol_leads(')', last);
    keyword_leads(k, e);
    space_leads(k + e);
    small_words_lead(d, b);
    space_leads("AS"@ + d);
    string_leads(s, c);
    symbol_leads('(', q + c);
    let w = words(k);
    assert(seq![TokenView::Ident("CAST"@)] + (seq![TokenView::Symbol('(')] + (seq![
        TokenView::String(s),
    ] + (seq![TokenView::Ident("AS"@)] + (w + (seq![TokenView::Symbol(')')] + closing())))))
        =~= cast_tokens(k, s));
}

proof fn small_words_lead(d: Seq<char>, b: Seq<char>)
    requires
        d.len() > 0 && d[0] == ' ',
        b.len() > 0 && b[0] == '(',
    ensures
        tokens_of("AS"@ + d) == led_by(TokenView::Ident("AS"@), tokens_of(d)),
        tokens_of("CAST"@ + b) == led_by(TokenView::Ident("CAST"@), tokens_of(b)),
{
    reveal_strlit("AS");
    reveal_strlit("CAST");
    word_leads("AS"@, d);
    word_leads("CAST"@, b);
}

proof fn cast_tokens_stand(k: Seq<char>, s: Seq<char>, ts: Seq<TokenView>)
    requires
        ts == opening() + cast_tokens(k, s),
    ensures
        ts.len() == 13 + words(k).len(),
        forall|i: int| 0 <= i < 5 ==> #[trigger] ts[i] == opening()[i],
        ts[5] == TokenView::Ident("CAST"@),
        ts[6] == TokenView::Symbol('('),
        ts[7] == TokenView::String(s),
        ts[8] == TokenView::Ident("AS"@),
        forall|i: int| 0 <= i < words(k).len() ==> #[trigger] ts[9 + i] == words(k)[i],
        ts[9 + words(k).len() as int] == TokenView::Symbol(')'),
        ts[10 + words(k).len() as int] == TokenView::Ident("AS"@),
        ts[11 + words(k).len() as int] == TokenView::Ident("d"@),
        ts[12 + words(k).len() as int] == TokenView::Eof,
{
    let w = words(k);
    let n = w.len() as int;
    let inner = cast_tokens(k, s);
    assert(ts[5] == inner[0] && ts[6] == inner[1] && ts[7] == inner[2] && ts[8] == inner[3]);
    assert forall|i: int| 0 <= i < n implies #[trigger] ts[9 + i] == w[i] by {
        assert(ts[5 + (4 + i)] == inner[4 + i]);
    }
    assert(ts[5 + (4 + n)] == inner[4 + n]);
    assert(ts[5 + (5 + n)] == inner[5 + n] && inner[5 + n] == closing()[0]);
    assert(ts[5 + (6 + n)] == inner[6 + n] && inner[6 + n] == closing()[1]);
    assert(ts[5 + (7 + n)] == inner[7 + n] && inner[7 + n] == closing()[2]);
}

proof fn cast_is_upper()
    ensures
        upper("CAST"@) == "CAST"@,
{
    reveal_strlit("CAST");
    assert(upper("CAST"@) =~= "CAST"@);
}

proof fn cast_is_read(k: Seq<char>, s: Seq<char>)
    requires
        literal_type(upper(k)) is Some,
    ensures
        transform_of(definition_of(cast(k, s) + " AS d"@)) == Ok::<
            TransformDefView,
            ParseErrorView,
        >(one_field(ExprView::TypedLiteral { value_type: literal_type(upper(k))->0, text: s })),
{
    let t = literal_type(upper(k))->0;
    let n = words(k).len() as int;
    let ts = opening() + cast_tokens(k, s);
    cast_has_tokens(k, s);
    opening_leads(cast(k, s) + " AS d"@);
    cast_tokens_stand(k, s, ts);
    words_name_the_type(k, ts, 9);
    as_is_upper();
    cast_is_upper();
    cast_string_is_a_literal(ts, 5, n, t, s, false);
    one_field_is_read(ts, n + 5, ExprView::TypedLiteral { value_type: t, text: s });
}

} // verus!
