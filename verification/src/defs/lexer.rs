//! The lexer of the definition language.

use vstd::prelude::*;

use crate::defs::error::{ParseError, ParseErrorView};
use crate::numeric::{dot_at_is, number_of, only_digits};
use crate::text;
use crate::text::{ascii_alphabetic, ascii_digit, whitespace};

verus! {

/// One token of a statement.
#[derive(Debug, PartialEq, Eq)]
pub enum Token {
    Ident(String),
    Number(String),
    /// A single-quoted string literal's contents, `''` read as one quote.
    String(String),
    Symbol(char),
    Eof,
}

/// What a [`Token`] stands for.
#[verifier::ext_equal]
pub enum TokenView {
    Ident(Seq<char>),
    Number(Seq<char>),
    String(Seq<char>),
    Symbol(char),
    Eof,
}

impl View for Token {
    type V = TokenView;

    open spec fn view(&self) -> TokenView {
        match self {
            Token::Ident(s) => TokenView::Ident(s@),
            Token::Number(s) => TokenView::Number(s@),
            Token::String(s) => TokenView::String(s@),
            Token::Symbol(c) => TokenView::Symbol(*c),
            Token::Eof => TokenView::Eof,
        }
    }
}

/// The views of a sequence of tokens.
pub open spec fn token_views(s: Seq<Token>) -> Seq<TokenView> {
    Seq::new(s.len(), |i: int| s[i]@)
}

impl TokenView {
    /// How an error message names the token.
    pub open spec fn describe(self) -> Seq<char> {
        match self {
            TokenView::Ident(s) => "identifier '"@ + s + "'"@,
            TokenView::Number(s) => "number '"@ + s + "'"@,
            TokenView::String(s) => "string '"@ + s + "'"@,
            TokenView::Symbol(c) => "'"@ + seq![c] + "'"@,
            TokenView::Eof => "end of input"@,
        }
    }
}

impl Token {
    /// How an error message names the token.
    pub fn describe(&self) -> (r: String)
        ensures
            r@ == self@.describe(),
    {
        match self {
            Token::Ident(s) => text::cat3("identifier '", s.as_str(), "'"),
            Token::Number(s) => text::cat3("number '", s.as_str(), "'"),
            Token::String(s) => text::cat3("string '", s.as_str(), "'"),
            Token::Symbol(c) => {
                let mut m = text::owned("'");
                m.push(*c);
                m.append("'");
                proof {
                    assert(m@ =~= self@.describe());
                }
                m
            },
            Token::Eof => text::owned("end of input"),
        }
    }
}

// ---------------------------------------------------------------------------
// What the tokens of a text are
// ---------------------------------------------------------------------------

/// A character that can start an identifier.
pub open spec fn ident_start(c: char) -> bool {
    ascii_alphabetic(c) || c == '_'
}

/// A character that can stand inside an identifier.
pub open spec fn ident_char(c: char) -> bool {
    ascii_alphabetic(c) || ascii_digit(c) || c == '_'
}

/// A character that is a token of its own.
pub open spec fn symbol_char(c: char) -> bool {
    c == '+' || c == '-' || c == '*' || c == '/' || c == '%' || c == '=' || c == ',' || c == '('
        || c == ')' || c == '.' || c == '<' || c == '>'
}

/// Where the run of identifier characters that starts at `i` ends.
pub open spec fn ident_end(cs: Seq<char>, i: int) -> int
    decreases cs.len() - i,
{
    if 0 <= i < cs.len() && ident_char(cs[i]) {
        ident_end(cs, i + 1)
    } else {
        i
    }
}

/// Where the run of digits that starts at `i` ends.
pub open spec fn digits_end(cs: Seq<char>, i: int) -> int
    decreases cs.len() - i,
{
    if 0 <= i < cs.len() && ascii_digit(cs[i]) {
        digits_end(cs, i + 1)
    } else {
        i
    }
}

/// Where the number that starts at `i` ends: a run of digits, and a fraction
/// if a dot and another digit follow.
pub open spec fn number_end(cs: Seq<char>, i: int) -> int {
    let whole = digits_end(cs, i);
    if whole + 1 < cs.len() && cs[whole] == '.' && ascii_digit(cs[whole + 1]) {
        digits_end(cs, whole + 1)
    } else {
        whole
    }
}

/// The contents of the string literal whose characters start at `i`, and the
/// position after its closing quote.
pub open spec fn string_body(cs: Seq<char>, i: int) -> Option<(Seq<char>, int)>
    decreases cs.len() - i,
{
    if i < 0 || i >= cs.len() {
        None
    } else if cs[i] == '\'' {
        if i + 1 < cs.len() && cs[i + 1] == '\'' {
            match string_body(cs, i + 2) {
                Some((rest, end)) => Some((seq!['\''] + rest, end)),
                None => None,
            }
        } else {
            Some((seq![], i + 1))
        }
    } else {
        match string_body(cs, i + 1) {
            Some((rest, end)) => Some((seq![cs[i]] + rest, end)),
            None => None,
        }
    }
}

/// The tokens of `cs` from position `i` on.
pub open spec fn tokens_from(cs: Seq<char>, i: int) -> Result<Seq<TokenView>, ParseErrorView>
    decreases cs.len() - i,
{
    if i < 0 || i >= cs.len() {
        Ok(seq![TokenView::Eof])
    } else if whitespace(cs[i]) {
        tokens_from(cs, i + 1)
    } else if ident_start(cs[i]) {
        proof {
            ident_end_bounds(cs, i);
        }
        let end = ident_end(cs, i);
        led_by(TokenView::Ident(cs.subrange(i, end)), tokens_from(cs, end))
    } else if ascii_digit(cs[i]) {
        proof {
            number_end_bounds(cs, i);
        }
        let end = number_end(cs, i);
        led_by(TokenView::Number(cs.subrange(i, end)), tokens_from(cs, end))
    } else if cs[i] == '\'' {
        proof {
            string_body_bounds(cs, i + 1);
        }
        match string_body(cs, i + 1) {
            Some((body, end)) => led_by(TokenView::String(body), tokens_from(cs, end)),
            None => Err(ParseErrorView::UnterminatedString),
        }
    } else if cs[i] == ':' {
        Err(ParseErrorView::UnsupportedCastOperator)
    } else if symbol_char(cs[i]) {
        led_by(TokenView::Symbol(cs[i]), tokens_from(cs, i + 1))
    } else {
        Err(ParseErrorView::UnexpectedChar { found: cs[i] })
    }
}

/// `first` in front of the tokens that follow it, if they are tokens.
pub open spec fn led_by(
    first: TokenView,
    rest: Result<Seq<TokenView>, ParseErrorView>,
) -> Result<Seq<TokenView>, ParseErrorView> {
    match rest {
        Ok(ts) => Ok(seq![first] + ts),
        Err(e) => Err(e),
    }
}

/// The tokens of a text.
pub open spec fn tokens_of(input: Seq<char>) -> Result<Seq<TokenView>, ParseErrorView> {
    tokens_from(input, 0)
}

/// The tokens read so far, then the tokens from `i` on, are all tokens.
spec fn lexed_to(cs: Seq<char>, done: Seq<TokenView>, i: int) -> bool {
    tokens_of(cs) == (match tokens_from(cs, i) {
        Ok(rest) => Ok::<Seq<TokenView>, ParseErrorView>(done + rest),
        Err(e) => Err(e),
    })
}

proof fn lexed_step(cs: Seq<char>, done: Seq<TokenView>, i: int, t: TokenView, next: int)
    requires
        lexed_to(cs, done, i),
        tokens_from(cs, i) == led_by(t, tokens_from(cs, next)),
    ensures
        lexed_to(cs, done.push(t), next),
{
    match tokens_from(cs, next) {
        Ok(rest) => {
            assert(done + (seq![t] + rest) =~= done.push(t) + rest);
        },
        Err(_) => {},
    }
}

pub proof fn ident_end_bounds(cs: Seq<char>, i: int)
    requires
        0 <= i <= cs.len(),
    ensures
        i <= ident_end(cs, i) <= cs.len(),
        i < cs.len() && ident_char(cs[i]) ==> i < ident_end(cs, i),
    decreases cs.len() - i,
{
    if i < cs.len() && ident_char(cs[i]) {
        ident_end_bounds(cs, i + 1);
    }
}

pub proof fn digits_end_bounds(cs: Seq<char>, i: int)
    requires
        0 <= i <= cs.len(),
    ensures
        i <= digits_end(cs, i) <= cs.len(),
        i < cs.len() && ascii_digit(cs[i]) ==> i < digits_end(cs, i),
    decreases cs.len() - i,
{
    if i < cs.len() && ascii_digit(cs[i]) {
        digits_end_bounds(cs, i + 1);
    }
}

pub proof fn number_end_bounds(cs: Seq<char>, i: int)
    requires
        0 <= i < cs.len(),
        ascii_digit(cs[i]),
    ensures
        i < number_end(cs, i) <= cs.len(),
{
    digits_end_bounds(cs, i);
    let whole = digits_end(cs, i);
    if whole + 1 < cs.len() {
        digits_end_bounds(cs, whole + 1);
    }
}

pub proof fn string_body_bounds(cs: Seq<char>, i: int)
    requires
        0 <= i <= cs.len(),
    ensures
        string_body(cs, i) matches Some((body, end)) ==> i < end <= cs.len(),
    decreases cs.len() - i,
{
    if i < cs.len() {
        if cs[i] == '\'' {
            if i + 1 < cs.len() && cs[i + 1] == '\'' {
                string_body_bounds(cs, i + 2);
            }
        } else {
            string_body_bounds(cs, i + 1);
        }
    }
}

// ---------------------------------------------------------------------------
// Reading the tokens
// ---------------------------------------------------------------------------

fn read_ident(cs: &Vec<char>, from: usize) -> (end: usize)
    requires
        from <= cs@.len(),
    ensures
        end == ident_end(cs@, from as int),
        from <= end <= cs@.len(),
{
    let mut i: usize = from;
    while i < cs.len() && (text::is_ascii_alphabetic(cs[i]) || text::is_ascii_digit(cs[i]) || cs[i]
        == '_')
        invariant
            from <= i <= cs@.len(),
            ident_end(cs@, from as int) == ident_end(cs@, i as int),
        decreases cs@.len() - i,
    {
        i += 1;
    }
    i
}

fn read_digits(cs: &Vec<char>, from: usize) -> (end: usize)
    requires
        from <= cs@.len(),
    ensures
        end == digits_end(cs@, from as int),
        from <= end <= cs@.len(),
{
    let mut i: usize = from;
    while i < cs.len() && text::is_ascii_digit(cs[i])
        invariant
            from <= i <= cs@.len(),
            digits_end(cs@, from as int) == digits_end(cs@, i as int),
        decreases cs@.len() - i,
    {
        i += 1;
    }
    i
}

fn read_number(cs: &Vec<char>, from: usize) -> (end: usize)
    requires
        from <= cs@.len(),
    ensures
        end == number_end(cs@, from as int),
        from <= end <= cs@.len(),
{
    let whole = read_digits(cs, from);
    if whole < cs.len() && cs[whole] == '.' && whole + 1 < cs.len() && text::is_ascii_digit(
        cs[whole + 1],
    ) {
        read_digits(cs, whole + 1)
    } else {
        whole
    }
}

fn read_string(cs: &Vec<char>, from: usize) -> (r: Option<(String, usize)>)
    requires
        from <= cs@.len(),
    ensures
        match r {
            Some((body, end)) => string_body(cs@, from as int) == Some((body@, end as int)) && from
                < end <= cs@.len(),
            None => string_body(cs@, from as int) is None,
        },
{
    let mut body = String::new();
    let mut i: usize = from;
    while i < cs.len()
        invariant
            from <= i <= cs@.len(),
            string_body(cs@, from as int) == (match string_body(cs@, i as int) {
                Some((rest, end)) => Some((body@ + rest, end)),
                None => None,
            }),
        decreases cs@.len() - i,
    {
        let ghost before = body@;
        if cs[i] == '\'' {
            if i + 1 < cs.len() && cs[i + 1] == '\'' {
                body.push('\'');
                proof {
                    if let Some((rest, end)) = string_body(cs@, i + 2) {
                        assert(before + (seq!['\''] + rest) =~= body@ + rest);
                    }
                }
                i += 2;
            } else {
                assert(body@ + seq![] =~= body@);
                return Some((body, i + 1));
            }
        } else {
            body.push(cs[i]);
            proof {
                if let Some((rest, end)) = string_body(cs@, i + 1) {
                    assert(before + (seq![cs@[i as int]] + rest) =~= body@ + rest);
                }
            }
            i += 1;
        }
    }
    None
}

fn is_symbol(c: char) -> (r: bool)
    ensures
        r == symbol_char(c),
{
    c == '+' || c == '-' || c == '*' || c == '/' || c == '%' || c == '=' || c == ',' || c == '('
        || c == ')' || c == '.' || c == '<' || c == '>'
}

/// The tokens of `input`, the last of them the end of the input.
pub fn lex(input: &str) -> (r: Result<Vec<Token>, ParseError>)
    ensures
        match r {
            Ok(ts) => tokens_of(input@) == Ok::<Seq<TokenView>, ParseErrorView>(token_views(ts@)),
            Err(e) => tokens_of(input@) == Err::<Seq<TokenView>, ParseErrorView>(e@),
        },
{
    let cs = text::chars_of(input);
    let mut tokens: Vec<Token> = Vec::new();
    let mut i: usize = 0;
    proof {
        match tokens_from(cs@, 0) {
            Ok(rest) => {
                assert(token_views(tokens@) + rest =~= rest);
            },
            Err(_) => {},
        }
    }
    while i < cs.len()
        invariant
            i <= cs@.len(),
            cs@ == input@,
            lexed_to(cs@, token_views(tokens@), i as int),
        decreases cs@.len() - i,
    {
        let c = cs[i];
        let ghost done = token_views(tokens@);
        let ghost start = i as int;
        if text::is_whitespace(c) {
            i += 1;
            continue;
        }
        if text::is_ascii_alphabetic(c) || c == '_' {
            proof {
                ident_end_bounds(cs@, i as int);
            }
            let end = read_ident(&cs, i);
            let t = Token::Ident(text::string_of(&cs, i, end));
            proof {
                lexed_step(cs@, done, start, t@, end as int);
            }
            tokens.push(t);
            assert(token_views(tokens@) =~= done.push(t@));
            i = end;
            continue;
        }
        if text::is_ascii_digit(c) {
            proof {
                number_end_bounds(cs@, i as int);
            }
            let end = read_number(&cs, i);
            let t = Token::Number(text::string_of(&cs, i, end));
            proof {
                lexed_step(cs@, done, start, t@, end as int);
            }
            tokens.push(t);
            assert(token_views(tokens@) =~= done.push(t@));
            i = end;
            continue;
        }
        if c == '\'' {
            match read_string(&cs, i + 1) {
                Some((body, end)) => {
                    let t = Token::String(body);
                    proof {
                        lexed_step(cs@, done, start, t@, end as int);
                    }
                    tokens.push(t);
                    assert(token_views(tokens@) =~= done.push(t@));
                    i = end;
                    continue;
                },
                None => {
                    return Err(ParseError::UnterminatedString);
                },
            }
        }
        if c == ':' {
            return Err(ParseError::UnsupportedCastOperator);
        }
        if is_symbol(c) {
            let t = Token::Symbol(c);
            proof {
                lexed_step(cs@, done, start, t@, i + 1);
            }
            tokens.push(t);
            assert(token_views(tokens@) =~= done.push(t@));
            i += 1;
            continue;
        }
        return Err(ParseError::UnexpectedChar { found: c });
    }
    let ghost done = token_views(tokens@);
    tokens.push(Token::Eof);
    assert(token_views(tokens@) =~= done + seq![TokenView::Eof]);
    Ok(tokens)
}

// ---------------------------------------------------------------------------
// Laws
// ---------------------------------------------------------------------------

/// The tokens end with the end of the input, and it stands nowhere else.
pub open spec fn ends_once(ts: Seq<TokenView>) -> bool {
    &&& ts.len() > 0
    &&& ts.last() is Eof
    &&& forall|i: int| 0 <= i < ts.len() - 1 ==> !(#[trigger] ts[i] is Eof)
}

proof fn tokens_from_end_once(cs: Seq<char>, i: int)
    requires
        0 <= i <= cs.len(),
    ensures
        tokens_from(cs, i) matches Ok(ts) ==> ends_once(ts),
    decreases cs.len() - i,
{
    if i < cs.len() {
        let c = cs[i];
        if whitespace(c) {
            tokens_from_end_once(cs, i + 1);
        } else if ident_start(c) {
            ident_end_bounds(cs, i);
            tokens_from_end_once(cs, ident_end(cs, i));
        } else if ascii_digit(c) {
            number_end_bounds(cs, i);
            tokens_from_end_once(cs, number_end(cs, i));
        } else if c == '\'' {
            string_body_bounds(cs, i + 1);
            if let Some((body, end)) = string_body(cs, i + 1) {
                tokens_from_end_once(cs, end);
            }
        } else if c != ':' && symbol_char(c) {
            tokens_from_end_once(cs, i + 1);
        }
    }
}

/// Every text that has tokens has exactly one end of input, and it comes last.
pub proof fn tokens_end_once(input: Seq<char>)
    ensures
        tokens_of(input) matches Ok(ts) ==> ends_once(ts),
{
    tokens_from_end_once(input, 0);
}

/// Whitespace in front of a text changes none of its tokens.
pub proof fn leading_whitespace_is_skipped(input: Seq<char>, i: int)
    requires
        0 <= i <= input.len(),
        forall|j: int| 0 <= j < i ==> whitespace(#[trigger] input[j]),
    ensures
        tokens_of(input) == tokens_from(input, i),
    decreases i,
{
    if i > 0 {
        leading_whitespace_is_skipped(input, i - 1);
        assert(whitespace(input[i - 1]));
    }
}

/// Every number among the tokens reads as a decimal number.
pub open spec fn numbers_readable(ts: Seq<TokenView>) -> bool {
    forall|i: int| 0 <= i < ts.len() ==> readable(#[trigger] ts[i])
}

/// A token that is a number reads as a decimal number.
pub open spec fn readable(t: TokenView) -> bool {
    match t {
        TokenView::Number(n) => number_of(n) is Some,
        _ => true,
    }
}

proof fn run_of_digits(cs: Seq<char>, i: int)
    requires
        0 <= i <= cs.len(),
    ensures
        i <= digits_end(cs, i) <= cs.len(),
        forall|j: int| i <= j < digits_end(cs, i) ==> ascii_digit(#[trigger] cs[j]),
    decreases cs.len() - i,
{
    if i < cs.len() && ascii_digit(cs[i]) {
        run_of_digits(cs, i + 1);
    }
}

proof fn number_is_readable(cs: Seq<char>, i: int)
    requires
        0 <= i < cs.len(),
        ascii_digit(cs[i]),
    ensures
        number_of(cs.subrange(i, number_end(cs, i))) is Some,
{
    number_end_bounds(cs, i);
    digits_end_bounds(cs, i);
    run_of_digits(cs, i);
    let end = number_end(cs, i);
    let whole = digits_end(cs, i);
    if whole + 1 < cs.len() {
        run_of_digits(cs, whole + 1);
    }
    assert(whole <= end);
    let n = cs.subrange(i, end);
    assert(n[0] == cs[i]);
    assert forall|j: int| 0 <= j < whole - i implies ascii_digit(#[trigger] n[j]) by {
        assert(n[j] == cs[i + j]);
    }
    if end > whole {
        assert(n[whole - i] == cs[whole]);
        assert forall|j: int| 0 <= j < n.skip(whole - i + 1).len() implies ascii_digit(
            #[trigger] n.skip(whole - i + 1)[j],
        ) by {
            assert(n.skip(whole - i + 1)[j] == cs[whole + 1 + j]);
        }
    }
    dot_at_is(n, whole - i);
    assert(only_digits(n.take(whole - i)));
}

proof fn tokens_from_readable(cs: Seq<char>, i: int)
    requires
        0 <= i <= cs.len(),
    ensures
        tokens_from(cs, i) matches Ok(ts) ==> numbers_readable(ts),
    decreases cs.len() - i,
{
    if i < cs.len() {
        let c = cs[i];
        if whitespace(c) {
            tokens_from_readable(cs, i + 1);
        } else if ident_start(c) {
            ident_end_bounds(cs, i);
            tokens_from_readable(cs, ident_end(cs, i));
        } else if ascii_digit(c) {
            number_end_bounds(cs, i);
            number_is_readable(cs, i);
            tokens_from_readable(cs, number_end(cs, i));
        } else if c == '\'' {
            string_body_bounds(cs, i + 1);
            if let Some((body, end)) = string_body(cs, i + 1) {
                tokens_from_readable(cs, end);
            }
        } else if c != ':' && symbol_char(c) {
            tokens_from_readable(cs, i + 1);
        }
    }
}

/// Every number in a text that has tokens reads as a decimal number.
pub proof fn number_tokens_are_numbers(input: Seq<char>)
    ensures
        tokens_of(input) matches Ok(ts) ==> numbers_readable(ts),
{
    tokens_from_readable(input, 0);
}

} // verus!
